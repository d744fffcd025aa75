//! Text primitives shared by the loader and the resolver: Unicode
//! whitespace, trimming, line splitting and joining.

use crate::sequences::{first_index, lemma_first_index, lemma_first_index_at};
use vstd::prelude::*;

verus! {

broadcast use vstd::string::group_string_axioms;

/// Whether `c` is whitespace as Unicode defines it (`White_Space`).
pub open spec fn is_white_space(c: char) -> bool {
    let u = c as u32;
    ||| 0x09 <= u <= 0x0D
    ||| u == 0x20
    ||| u == 0x85
    ||| u == 0xA0
    ||| u == 0x1680
    ||| 0x2000 <= u <= 0x200A
    ||| u == 0x2028
    ||| u == 0x2029
    ||| u == 0x202F
    ||| u == 0x205F
    ||| u == 0x3000
}

/// `s` without its leading whitespace.
pub open spec fn trim_start(s: Seq<char>) -> Seq<char>
    decreases s.len(),
{
    if s.len() > 0 && is_white_space(s.first()) {
        trim_start(s.drop_first())
    } else {
        s
    }
}

/// `s` without its trailing whitespace.
pub open spec fn trim_end(s: Seq<char>) -> Seq<char>
    decreases s.len(),
{
    if s.len() > 0 && is_white_space(s.last()) {
        trim_end(s.drop_last())
    } else {
        s
    }
}

/// `s` without leading and trailing whitespace.
pub open spec fn trimmed(s: Seq<char>) -> Seq<char> {
    trim_end(trim_start(s))
}

/// The views of a sequence of strings.
pub open spec fn texts(v: Seq<String>) -> Seq<Seq<char>> {
    v.map_values(|s: String| s@)
}

/// One more string at the end adds its view at the end.
pub proof fn lemma_texts_push(v: Seq<String>, s: String)
    ensures
        texts(v.push(s)) == texts(v).push(s@),
{
    assert(texts(v.push(s)) =~= texts(v).push(s@));
}

/// The parts of `parts` written one after another with `sep` between
/// neighbours: nothing before the first part, nothing after the last.
pub open spec fn joined(parts: Seq<Seq<char>>, sep: Seq<char>) -> Seq<char>
    decreases parts.len(),
{
    if parts.len() == 0 {
        Seq::empty()
    } else if parts.len() == 1 {
        parts[0]
    } else {
        joined(parts.drop_last(), sep) + sep + parts.last()
    }
}

/// Where the first line of `s` ends: the index of its first newline, or
/// the length of `s` if it holds none.
pub open spec fn line_end(s: Seq<char>) -> int {
    first_index(s, '\n')
}

/// What follows the first line of `s` and its newline.
pub open spec fn after_line(s: Seq<char>) -> Seq<char> {
    if line_end(s) < s.len() {
        s.subrange(line_end(s) + 1, s.len() as int)
    } else {
        Seq::empty()
    }
}

/// The lines of `s`. A newline ends a line; the last line needs none, and
/// a final newline starts no further line. The empty text has no lines.
pub open spec fn lines(s: Seq<char>) -> Seq<Seq<char>>
    decreases s.len(),
    via lines_decreases
{
    if s.len() == 0 {
        Seq::empty()
    } else {
        seq![s.subrange(0, line_end(s))] + lines(after_line(s))
    }
}

#[via_fn]
proof fn lines_decreases(s: Seq<char>) {
    lemma_first_index(s, '\n');
}

/// Joining with one more part in front.
pub proof fn lemma_joined_front(first: Seq<char>, rest: Seq<Seq<char>>, sep: Seq<char>)
    ensures
        joined(seq![first] + rest, sep) == if rest.len() == 0 {
            first
        } else {
            first + sep + joined(rest, sep)
        },
    decreases rest.len(),
{
    let all = seq![first] + rest;
    if rest.len() == 0 {
        assert(all =~= seq![first]);
    } else {
        let front = rest.drop_last();
        assert(all.drop_last() =~= seq![first] + front);
        lemma_joined_front(first, front, sep);
        if front.len() > 0 {
            assert((first + sep + joined(front, sep)) + sep + rest.last() =~= first + sep + (joined(
                front,
                sep,
            ) + sep + rest.last()));
        }
    }
}

/// No line holds a newline, and the lines with a newline between
/// neighbours are the text, but for its final newline.
pub proof fn lemma_lines_joined(s: Seq<char>)
    ensures
        forall|i: int| 0 <= i < lines(s).len() ==> !(#[trigger] lines(s)[i]).contains('\n'),
        lines(s).len() == 0 <==> s.len() == 0,
        joined(lines(s), seq!['\n']) == if s.len() > 0 && s.last() == '\n' {
            s.drop_last()
        } else {
            s
        },
    decreases s.len(),
{
    if s.len() > 0 {
        let k = line_end(s);
        let first = s.subrange(0, k);
        let rest = after_line(s);
        let sep = seq!['\n'];
        lemma_first_index(s, '\n');
        lemma_lines_joined(rest);
        lemma_joined_front(first, lines(rest), sep);
        assert forall|i: int| 0 <= i < lines(s).len() implies !(#[trigger] lines(s)[i]).contains(
            '\n',
        ) by {
            if i > 0 {
                assert(lines(s)[i] == lines(rest)[i - 1]);
            }
        }
        if k == s.len() {
            assert(first =~= s);
        } else if rest.len() == 0 {
            assert(first =~= s.drop_last());
        } else if rest.last() == '\n' {
            assert(first + sep + rest.drop_last() =~= s.drop_last());
        } else {
            assert(first + sep + rest =~= s);
        }
    }
}

/// Trimming leaves what lies between the leading and the trailing run of
/// whitespace.
pub proof fn lemma_trimmed_between(s: Seq<char>, i: int, j: int)
    requires
        0 <= i <= j <= s.len(),
        forall|k: int| 0 <= k < i ==> is_white_space(s[k]),
        forall|k: int| j <= k < s.len() ==> is_white_space(s[k]),
        i < j ==> !is_white_space(s[i]) && !is_white_space(s[j - 1]),
    ensures
        trimmed(s) == s.subrange(i, j),
{
    if i < j {
        lemma_trim_start_at(s, i);
        let t = s.subrange(i, s.len() as int);
        lemma_trim_end_at(t, j - i);
        assert(t.subrange(0, j - i) =~= s.subrange(i, j));
    } else {
        lemma_trim_start_at(s, s.len() as int);
        assert(s.subrange(s.len() as int, s.len() as int) =~= s.subrange(i, j));
    }
}

proof fn lemma_trim_start_at(s: Seq<char>, i: int)
    requires
        0 <= i <= s.len(),
        forall|k: int| 0 <= k < i ==> is_white_space(s[k]),
        i < s.len() ==> !is_white_space(s[i]),
    ensures
        trim_start(s) == s.subrange(i, s.len() as int),
    decreases s.len(),
{
    if i == 0 {
        assert(s.subrange(0, s.len() as int) =~= s);
    } else {
        let t = s.drop_first();
        assert(is_white_space(s[0]));
        assert forall|k: int| 0 <= k < i - 1 implies is_white_space(t[k]) by {
            assert(t[k] == s[k + 1]);
        }
        lemma_trim_start_at(t, i - 1);
        assert(t.subrange(i - 1, t.len() as int) =~= s.subrange(i, s.len() as int));
    }
}

proof fn lemma_trim_end_at(s: Seq<char>, j: int)
    requires
        0 <= j <= s.len(),
        forall|k: int| j <= k < s.len() ==> is_white_space(s[k]),
        j > 0 ==> !is_white_space(s[j - 1]),
    ensures
        trim_end(s) == s.subrange(0, j),
    decreases s.len(),
{
    if j == s.len() {
        assert(s.subrange(0, s.len() as int) =~= s);
    } else {
        let t = s.drop_last();
        assert(is_white_space(s[s.len() - 1]));
        lemma_trim_end_at(t, j);
        assert(t.subrange(0, j) =~= s.subrange(0, j));
    }
}

/// `char::is_whitespace` of std: true exactly for the code points that
/// Unicode marks `White_Space`, which `is_white_space` lists.
#[verifier::external_body]
fn has_white_space(c: char) -> (r: bool)
    ensures
        r == is_white_space(c),
{
    c.is_whitespace()
}

/// `String::push` of std: appends one character to the string.
#[verifier::external_body]
fn push_char(s: &mut String, c: char)
    ensures
        final(s)@ == old(s)@.push(c),
{
    s.push(c)
}

/// A copy of `s` without its leading and trailing whitespace.
pub fn trim(s: &str) -> (r: String)
    ensures
        r@ == trimmed(s@),
{
    let n = s.unicode_len();
    let mut solid = false;
    let mut start: usize = 0;
    let mut end: usize = 0;
    let mut k: usize = 0;
    for c in it: s.chars()
        invariant
            it.seq() == s@,
            n == s@.len(),
            k == it.index(),
            !solid ==> forall|m: int| 0 <= m < k ==> is_white_space(s@[m]),
            solid ==> start < end <= k,
            solid ==> !is_white_space(s@[start as int]) && !is_white_space(s@[end - 1]),
            solid ==> forall|m: int| 0 <= m < start ==> is_white_space(s@[m]),
            solid ==> forall|m: int| end <= m < k ==> is_white_space(s@[m]),
    {
        if !has_white_space(c) {
            if !solid {
                solid = true;
                start = k;
            }
            end = k + 1;
        }
        k = k + 1;
    }
    if solid {
        proof {
            lemma_trimmed_between(s@, start as int, end as int);
        }
        s.substring_char(start, end).to_owned()
    } else {
        proof {
            lemma_trimmed_between(s@, 0, 0);
            assert(s@.subrange(0, 0) =~= Seq::<char>::empty());
        }
        String::new()
    }
}

/// The parts of `parts` joined into one string, with `sep` between
/// neighbours.
pub fn join(parts: &Vec<String>, sep: &str) -> (r: String)
    ensures
        r@ == joined(texts(parts@), sep@),
{
    let mut out = String::new();
    let mut i: usize = 0;
    while i < parts.len()
        invariant
            i <= parts.len(),
            out@ == joined(texts(parts@).take(i as int), sep@),
        decreases parts.len() - i,
    {
        proof {
            let all = texts(parts@);
            let head = all.take(i + 1);
            assert(head.drop_last() =~= all.take(i as int));
            assert(head.last() == parts@[i as int]@);
            if i == 0 {
                assert(Seq::<char>::empty() + parts@[0]@ =~= parts@[0]@);
            } else if i == 1 {
                assert(all.take(1)[0] == parts@[0]@);
            }
        }
        if i > 0 {
            out.append(sep);
        }
        out.append(parts[i].as_str());
        i = i + 1;
    }
    proof {
        assert(texts(parts@).take(parts@.len() as int) =~= texts(parts@));
    }
    out
}

/// The lines of `text`, each trimmed. A carriage return before a newline
/// is whitespace at the end of its line, and goes with the trimming.
pub fn trimmed_lines(text: &str) -> (r: Vec<String>)
    ensures
        texts(r@) == lines(text@).map_values(|l: Seq<char>| trimmed(l)),
{
    let n = text.unicode_len();
    let mut out: Vec<String> = Vec::new();
    let mut line = String::new();
    let ghost mut from: int = 0;
    let mut k: usize = 0;
    proof {
        let all = lines(text@).map_values(|l: Seq<char>| trimmed(l));
        assert(text@.subrange(0, n as int) =~= text@);
        assert(texts(out@) + all =~= all);
    }
    for c in it: text.chars()
        invariant
            it.seq() == text@,
            n == text@.len(),
            k == it.index(),
            0 <= from <= k,
            line@ == text@.subrange(from, k as int),
            forall|m: int| from <= m < k ==> text@[m] != '\n',
            lines(text@).map_values(|l: Seq<char>| trimmed(l)) == texts(out@) + lines(
                text@.subrange(from, n as int),
            ).map_values(|l: Seq<char>| trimmed(l)),
    {
        if c == '\n' {
            let entry = trim(line.as_str());
            proof {
                let f = |l: Seq<char>| trimmed(l);
                let rest = text@.subrange(from, n as int);
                lemma_first_index_at(rest, '\n', k - from);
                assert(rest.subrange(0, k - from) =~= line@);
                assert(after_line(rest) =~= text@.subrange(k + 1, n as int));
                let tail = lines(text@.subrange(k + 1, n as int));
                assert((seq![line@] + tail).map_values(f) =~= seq![trimmed(line@)]
                    + tail.map_values(f));
                assert(texts(out@.push(entry)) =~= texts(out@) + seq![trimmed(line@)]);
                from = k + 1;
            }
            out.push(entry);
            line = String::new();
        } else {
            push_char(&mut line, c);
        }
        k = k + 1;
        proof {
            assert(line@ =~= text@.subrange(from, k as int));
        }
    }
    if !line.as_str().is_empty() {
        let entry = trim(line.as_str());
        proof {
            let f = |l: Seq<char>| trimmed(l);
            let rest = text@.subrange(from, n as int);
            lemma_first_index_at(rest, '\n', n - from);
            assert(rest.subrange(0, n - from) =~= line@);
            assert(lines(Seq::<char>::empty()) =~= Seq::<Seq<char>>::empty());
            assert((seq![line@] + Seq::<Seq<char>>::empty()).map_values(f) =~= seq![
                trimmed(line@),
            ]);
            assert(texts(out@.push(entry)) =~= texts(out@) + seq![trimmed(line@)]);
        }
        out.push(entry);
    } else {
        proof {
            let f = |l: Seq<char>| trimmed(l);
            assert(text@.subrange(from, n as int) =~= Seq::<char>::empty());
            assert(lines(Seq::<char>::empty()).map_values(f) =~= Seq::<Seq<char>>::empty());
            assert(texts(out@) + Seq::<Seq<char>>::empty() =~= texts(out@));
        }
    }
    out
}

} // verus!
