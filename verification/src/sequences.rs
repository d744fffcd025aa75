//! Two notions on sequences that the catalog and the line splitter rest
//! on: where a value first occurs, and the distinct values in order of
//! first appearance.

use vstd::prelude::*;

verus! {

/// The index of the first entry of `s` equal to `x`, or `s.len()` if no
/// entry is.
pub open spec fn first_index<A>(s: Seq<A>, x: A) -> int
    decreases s.len(),
{
    if s.len() == 0 || s.first() == x {
        0
    } else {
        1 + first_index(s.drop_first(), x)
    }
}

/// The distinct values of `s`, each at the place of its first appearance.
pub open spec fn first_occurrences<A>(s: Seq<A>) -> Seq<A>
    decreases s.len(),
{
    if s.len() == 0 {
        Seq::empty()
    } else {
        let head = first_occurrences(s.drop_last());
        if head.contains(s.last()) {
            head
        } else {
            head.push(s.last())
        }
    }
}

/// `first_index` lies within `0..=s.len()`, points at `x` when it lies
/// inside `s`, has no `x` before it, and lies inside `s` exactly when `s`
/// contains `x`.
pub proof fn lemma_first_index<A>(s: Seq<A>, x: A)
    ensures
        0 <= first_index(s, x) <= s.len(),
        first_index(s, x) < s.len() ==> s[first_index(s, x)] == x,
        forall|i: int| 0 <= i < first_index(s, x) ==> s[i] != x,
        first_index(s, x) < s.len() <==> s.contains(x),
    decreases s.len(),
{
    if s.len() == 0 || s.first() == x {
    } else {
        let t = s.drop_first();
        lemma_first_index(t, x);
        assert forall|i: int| 0 <= i < first_index(s, x) implies s[i] != x by {
            if i > 0 {
                assert(s[i] == t[i - 1]);
            }
        }
        if s.contains(x) {
            let i = choose|i: int| 0 <= i < s.len() && s[i] == x;
            assert(t[i - 1] == x);
        }
    }
}

/// An index that holds `x` with no `x` before it, or the length of a
/// sequence without `x`, is `first_index`.
pub proof fn lemma_first_index_at<A>(s: Seq<A>, x: A, k: int)
    requires
        0 <= k <= s.len(),
        forall|i: int| 0 <= i < k ==> s[i] != x,
        k < s.len() ==> s[k] == x,
    ensures
        first_index(s, x) == k,
{
    lemma_first_index(s, x);
}

/// One more value at the end adds itself to the first occurrences unless
/// it is among them already.
pub proof fn lemma_first_occurrences_push<A>(s: Seq<A>, x: A)
    ensures
        first_occurrences(s.push(x)) == if first_occurrences(s).contains(x) {
            first_occurrences(s)
        } else {
            first_occurrences(s).push(x)
        },
{
    assert(s.push(x).drop_last() =~= s);
}

/// A sequence with one more value at its end contains that value and what
/// it contained before.
pub proof fn lemma_push_contains<A>(s: Seq<A>, y: A, x: A)
    ensures
        s.push(y).contains(x) <==> s.contains(x) || x == y,
{
    let p = s.push(y);
    if s.contains(x) {
        let i = choose|i: int| 0 <= i < s.len() && s[i] == x;
        assert(p[i] == x);
    }
    if x == y {
        assert(p[s.len() as int] == x);
    }
    if p.contains(x) {
        let i = choose|i: int| 0 <= i < p.len() && p[i] == x;
        if i < s.len() {
            assert(s[i] == x);
        }
    }
}

/// The first occurrences hold every value of `s`, each once.
pub proof fn lemma_first_occurrences<A>(s: Seq<A>)
    ensures
        first_occurrences(s).no_duplicates(),
        forall|x: A| first_occurrences(s).contains(x) <==> s.contains(x),
    decreases s.len(),
{
    if s.len() > 0 {
        let t = s.drop_last();
        let head = first_occurrences(t);
        lemma_first_occurrences(t);
        assert(s =~= t.push(s.last()));
        assert forall|x: A| first_occurrences(s).contains(x) <==> s.contains(x) by {
            assert(head.contains(x) <==> t.contains(x));
            lemma_push_contains(t, s.last(), x);
            lemma_push_contains(head, s.last(), x);
        }
    }
}

/// Where a value first occurs once one more value stands at the end.
pub proof fn lemma_first_index_push<A>(s: Seq<A>, y: A, x: A)
    ensures
        first_index(s.push(y), x) == if s.contains(x) {
            first_index(s, x)
        } else if x == y {
            s.len() as int
        } else {
            s.len() as int + 1
        },
{
    let p = s.push(y);
    let k = first_index(s, x);
    lemma_first_index(s, x);
    if s.contains(x) {
        assert forall|i: int| 0 <= i < k implies p[i] != x by {
            assert(p[i] == s[i]);
        }
        assert(p[k] == s[k]);
        lemma_first_index_at(p, x, k);
    } else {
        assert forall|i: int| 0 <= i < s.len() implies p[i] != x by {
            assert(p[i] == s[i]);
        }
        if x == y {
            lemma_first_index_at(p, x, s.len() as int);
        } else {
            lemma_first_index_at(p, x, s.len() as int + 1);
        }
    }
}

/// The first occurrences stand in the order in which their values first
/// appear in `s`.
pub proof fn lemma_first_occurrences_order<A>(s: Seq<A>, i: int, j: int)
    requires
        0 <= i < j < first_occurrences(s).len(),
    ensures
        first_index(s, first_occurrences(s)[i]) < first_index(s, first_occurrences(s)[j]) < s.len(),
    decreases s.len(),
{
    let t = s.drop_last();
    let y = s.last();
    let head = first_occurrences(t);
    let a = first_occurrences(s)[i];
    let b = first_occurrences(s)[j];
    assert(s =~= t.push(y));
    lemma_first_occurrences(t);
    lemma_first_index_push(t, y, a);
    lemma_first_index_push(t, y, b);
    lemma_first_index(t, a);
    assert(head[i] == a);
    assert(head.contains(a));
    assert(t.contains(a));
    if j < head.len() {
        assert(head[j] == b);
        assert(head.contains(b));
        assert(t.contains(b));
        lemma_first_occurrences_order(t, i, j);
    } else {
        assert(!head.contains(y));
        assert(!t.contains(b));
    }
}

} // verus!
