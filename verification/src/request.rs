//! What an invocation asks for, as decided from its options.

use crate::text::texts;
use vstd::prelude::*;

verus! {

/// What an invocation asks for.
#[derive(Debug, PartialEq, Eq)]
pub enum Request {
    /// Regenerate the catalog source; every other option is ignored.
    Initialize,
    /// List every known database.
    Databases,
    /// For each database named, in the order given, list its tables.
    Tables(Vec<String>),
    /// For each (database, table) pair, in the order given, list the
    /// columns.
    Columns(Vec<(String, String)>),
}

/// A request as a mathematical value.
pub enum RequestView {
    Initialize,
    Databases,
    Tables(Seq<Seq<char>>),
    Columns(Seq<(Seq<char>, Seq<char>)>),
}

/// Options that make no request.
#[derive(Clone, Copy, Debug, PartialEq, Eq, Structural)]
pub enum UsageError {
    /// Tables were named, but not one for each database named.
    SelectorCountMismatch,
}

/// The views of a sequence of pairs of strings.
pub open spec fn pairs_of(v: Seq<(String, String)>) -> Seq<(Seq<char>, Seq<char>)> {
    Seq::new(v.len(), |i: int| (v[i].0@, v[i].1@))
}

/// The databases and tables named, paired by position.
pub open spec fn zipped(databases: Seq<Seq<char>>, tables: Seq<Seq<char>>) -> Seq<
    (Seq<char>, Seq<char>),
>
    recommends
        databases.len() == tables.len(),
{
    Seq::new(databases.len(), |i: int| (databases[i], tables[i]))
}

/// The request that the options make. With `init` set nothing else
/// counts. Without databases named, tables named count for nothing.
/// Where both are named, each database needs its table.
pub open spec fn request_of(
    init: bool,
    databases: Seq<Seq<char>>,
    tables: Seq<Seq<char>>,
) -> Result<RequestView, UsageError> {
    if init {
        Ok(RequestView::Initialize)
    } else if databases.len() == 0 {
        Ok(RequestView::Databases)
    } else if tables.len() == 0 {
        Ok(RequestView::Tables(databases))
    } else if databases.len() != tables.len() {
        Err(UsageError::SelectorCountMismatch)
    } else {
        Ok(RequestView::Columns(zipped(databases, tables)))
    }
}

impl View for Request {
    type V = RequestView;

    open spec fn view(&self) -> RequestView {
        match self {
            Request::Initialize => RequestView::Initialize,
            Request::Databases => RequestView::Databases,
            Request::Tables(databases) => RequestView::Tables(texts(databases@)),
            Request::Columns(pairs) => RequestView::Columns(pairs_of(pairs@)),
        }
    }
}

/// What `outcome` says, as a mathematical value.
pub open spec fn outcome_view(outcome: Result<Request, UsageError>) -> Result<
    RequestView,
    UsageError,
> {
    match outcome {
        Ok(request) => Ok(request@),
        Err(error) => Err(error),
    }
}

impl UsageError {
    /// The text of the diagnostic.
    pub open spec fn message_of(self) -> Seq<char> {
        "Error: The number of --db and --tb arguments must be the same."@
    }

    /// The diagnostic for this error.
    pub fn message(&self) -> (r: String)
        ensures
            r@ == self.message_of(),
    {
        "Error: The number of --db and --tb arguments must be the same.".to_owned()
    }
}

/// Decides what the options ask for.
pub fn plan(init: bool, databases: &Vec<String>, tables: &Vec<String>) -> (r: Result<
    Request,
    UsageError,
>)
    ensures
        outcome_view(r) == request_of(init, texts(databases@), texts(tables@)),
{
    if init {
        return Ok(Request::Initialize);
    }
    if databases.len() == 0 {
        return Ok(Request::Databases);
    }
    if tables.len() == 0 {
        return Ok(Request::Tables(databases.clone()));
    }
    if databases.len() != tables.len() {
        return Err(UsageError::SelectorCountMismatch);
    }
    let mut pairs: Vec<(String, String)> = Vec::new();
    let mut i: usize = 0;
    while i < databases.len()
        invariant
            i <= databases@.len(),
            databases@.len() == tables@.len(),
            pairs_of(pairs@) == zipped(texts(databases@), texts(tables@)).take(i as int),
        decreases databases@.len() - i,
    {
        let pair = (databases[i].clone(), tables[i].clone());
        proof {
            let all = zipped(texts(databases@), texts(tables@));
            assert(pairs_of(pairs@.push(pair)) =~= all.take(i as int).push(all[i as int]));
            assert(all.take(i + 1) =~= all.take(i as int).push(all[i as int]));
        }
        pairs.push(pair);
        i = i + 1;
    }
    proof {
        let all = zipped(texts(databases@), texts(tables@));
        assert(all.take(databases@.len() as int) =~= all);
    }
    Ok(Request::Columns(pairs))
}

} // verus!
