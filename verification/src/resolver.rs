//! Answering: from a catalog and the names asked for to the text of the
//! answer. An unknown database or table is no error; the answer says so
//! in its place.

use crate::catalog::Catalog;
use crate::model::{
    catalog_of, columns_in, databases_in, lemma_catalog_of_database, lemma_catalog_of_table,
    lemma_catalog_of_wf, names_database, names_table, tables_in, CatalogView, Row,
};
use crate::loader::{csv_rows, load_database, trimmed_rows, Malformed};
use crate::request::{pairs_of, Request, RequestView};
use crate::text::{join, joined, lemma_texts_push, texts};
use vstd::prelude::*;

verus! {

/// What separates the names of a listing, and the answers of a line.
pub open spec fn separator() -> Seq<char> {
    ","@
}

/// The answer for a database that the catalog does not hold.
pub open spec fn database_not_found(db: Seq<char>) -> Seq<char> {
    "Database "@ + db + " not found."@
}

/// The answer for a table that its database does not hold.
pub open spec fn table_not_found(tb: Seq<char>, db: Seq<char>) -> Seq<char> {
    "Table "@ + tb + " not found in database "@ + db + "."@
}

/// The line that lists `names`.
pub open spec fn listing(names: Seq<Seq<char>>) -> Seq<char> {
    joined(names, separator())
}

/// The answer to "which tables has `db`": its tables listed in order of
/// first appearance, or that it was not found.
pub open spec fn tables_answer(c: CatalogView, db: Seq<char>) -> Seq<char> {
    if c.has_database(db) {
        listing(c.database(db).table_names())
    } else {
        database_not_found(db)
    }
}

/// The answer to "which columns has `tb` of `db`": its columns listed in
/// source order, or that the table, or the database, was not found.
pub open spec fn columns_answer(c: CatalogView, db: Seq<char>, tb: Seq<char>) -> Seq<char> {
    if !c.has_database(db) {
        database_not_found(db)
    } else if !c.database(db).has_table(tb) {
        table_not_found(tb, db)
    } else {
        listing(c.columns(db, tb))
    }
}

/// The tables answers for `databases`: one for each, at its position.
pub open spec fn tables_answers(c: CatalogView, databases: Seq<Seq<char>>) -> Seq<Seq<char>> {
    Seq::new(databases.len(), |i: int| tables_answer(c, databases[i]))
}

/// The columns answers for `pairs`: one for each, at its position.
pub open spec fn columns_answers(c: CatalogView, pairs: Seq<(Seq<char>, Seq<char>)>) -> Seq<
    Seq<char>,
> {
    Seq::new(pairs.len(), |i: int| columns_answer(c, pairs[i].0, pairs[i].1))
}

/// The lines that answer `request` from catalog `c`: one line for the
/// databases; one line for each database whose tables are asked for; one
/// line for all the pairs whose columns are asked for. Initializing
/// answers nothing.
pub open spec fn answer_of(c: CatalogView, request: RequestView) -> Seq<Seq<char>> {
    match request {
        RequestView::Initialize => Seq::empty(),
        RequestView::Databases => seq![listing(c.database_names())],
        RequestView::Tables(databases) => tables_answers(c, databases),
        RequestView::Columns(pairs) => seq![listing(columns_answers(c, pairs))],
    }
}

/// The line that lists `names`, separated by commas; the empty line for
/// no names.
pub fn list(names: &Vec<String>) -> (r: String)
    ensures
        r@ == listing(texts(names@)),
{
    join(names, ",")
}

/// The line that lists the databases of `catalog`, each once, in order of
/// first appearance.
pub fn list_databases(catalog: &Catalog) -> (r: String)
    ensures
        r@ == listing(catalog@.database_names()),
{
    let names = catalog.database_names();
    list(&names)
}

/// The answer to "which tables has `database`".
pub fn list_tables(catalog: &Catalog, database: &str) -> (r: String)
    ensures
        r@ == tables_answer(catalog@, database@),
{
    match catalog.get(database) {
        Some(found) => {
            let names = found.table_names();
            list(&names)
        },
        None => {
            let mut text = "Database ".to_owned();
            text.append(database);
            text.append(" not found.");
            text
        },
    }
}

/// The answer to "which columns has `table` of `database`".
pub fn list_columns(catalog: &Catalog, database: &str, table: &str) -> (r: String)
    ensures
        r@ == columns_answer(catalog@, database@, table@),
{
    match catalog.get(database) {
        Some(found) => match found.get(table) {
            Some(columns) => list(columns.columns()),
            None => {
                let mut text = "Table ".to_owned();
                text.append(table);
                text.append(" not found in database ");
                text.append(database);
                text.append(".");
                text
            },
        },
        None => {
            let mut text = "Database ".to_owned();
            text.append(database);
            text.append(" not found.");
            text
        },
    }
}

/// The tables answers for `databases`, one for each, in their order.
pub fn list_tables_each(catalog: &Catalog, databases: &Vec<String>) -> (r: Vec<String>)
    ensures
        texts(r@) == tables_answers(catalog@, texts(databases@)),
{
    let mut out: Vec<String> = Vec::new();
    let mut i: usize = 0;
    while i < databases.len()
        invariant
            i <= databases@.len(),
            texts(out@) == tables_answers(catalog@, texts(databases@)).take(i as int),
        decreases databases@.len() - i,
    {
        let answer = list_tables(catalog, databases[i].as_str());
        proof {
            let all = tables_answers(catalog@, texts(databases@));
            lemma_texts_push(out@, answer);
            assert(all.take(i + 1) =~= all.take(i as int).push(answer@));
        }
        out.push(answer);
        i = i + 1;
    }
    proof {
        let all = tables_answers(catalog@, texts(databases@));
        assert(all.take(databases@.len() as int) =~= all);
    }
    out
}

/// The columns answers for `pairs`, one for each, in their order.
pub fn list_columns_each(catalog: &Catalog, pairs: &Vec<(String, String)>) -> (r: Vec<String>)
    ensures
        texts(r@) == columns_answers(catalog@, pairs_of(pairs@)),
{
    let mut out: Vec<String> = Vec::new();
    let mut i: usize = 0;
    while i < pairs.len()
        invariant
            i <= pairs@.len(),
            texts(out@) == columns_answers(catalog@, pairs_of(pairs@)).take(i as int),
        decreases pairs@.len() - i,
    {
        let answer = list_columns(catalog, pairs[i].0.as_str(), pairs[i].1.as_str());
        proof {
            let all = columns_answers(catalog@, pairs_of(pairs@));
            lemma_texts_push(out@, answer);
            assert(all.take(i + 1) =~= all.take(i as int).push(answer@));
        }
        out.push(answer);
        i = i + 1;
    }
    proof {
        let all = columns_answers(catalog@, pairs_of(pairs@));
        assert(all.take(pairs@.len() as int) =~= all);
    }
    out
}

/// The lines that answer `request` from `catalog`, in the order in which
/// they are to be written.
pub fn answer(catalog: &Catalog, request: &Request) -> (r: Vec<String>)
    ensures
        texts(r@) == answer_of(catalog@, request@),
{
    match request {
        Request::Initialize => {
            let out: Vec<String> = Vec::new();
            assert(texts(out@) =~= Seq::<Seq<char>>::empty());
            out
        },
        Request::Databases => {
            let mut out: Vec<String> = Vec::new();
            let line = list_databases(catalog);
            out.push(line);
            assert(texts(out@) =~= seq![line@]);
            out
        },
        Request::Tables(databases) => list_tables_each(catalog, databases),
        Request::Columns(pairs) => {
            let answers = list_columns_each(catalog, pairs);
            let mut out: Vec<String> = Vec::new();
            let line = list(&answers);
            out.push(line);
            assert(texts(out@) =~= seq![line@]);
            out
        },
    }
}

/// The answer to "which tables has `database`" from the file of that
/// database.
pub fn list_tables_of_shard(data: &[u8], database: &str) -> (r: Result<String, Malformed>)
    ensures
        match r {
            Ok(line) => csv_rows(data@, false) is Some && line@ == tables_answer(
                catalog_of(trimmed_rows(csv_rows(data@, false)->0)),
                database@,
            ),
            Err(_) => csv_rows(data@, false) is None,
        },
{
    match load_database(data) {
        Ok(catalog) => Ok(list_tables(&catalog, database)),
        Err(error) => Err(error),
    }
}

/// The answer to "which columns has `table` of `database`" from the file
/// of that database.
pub fn list_columns_of_shard(data: &[u8], database: &str, table: &str) -> (r: Result<
    String,
    Malformed,
>)
    ensures
        match r {
            Ok(line) => csv_rows(data@, false) is Some && line@ == columns_answer(
                catalog_of(trimmed_rows(csv_rows(data@, false)->0)),
                database@,
                table@,
            ),
            Err(_) => csv_rows(data@, false) is None,
        },
{
    match load_database(data) {
        Ok(catalog) => Ok(list_columns(&catalog, database, table)),
        Err(error) => Err(error),
    }
}

/// Listing the databases of the catalog that rows describe names every
/// database of the rows, each once however often the rows repeat it, in
/// order of first appearance.
pub proof fn lemma_databases_listed_once(rows: Seq<Row>)
    ensures
        listing(catalog_of(rows).database_names()) == listing(databases_in(rows)),
        databases_in(rows).no_duplicates(),
        forall|db: Seq<char>| databases_in(rows).contains(db) <==> names_database(rows, db),
{
    lemma_catalog_of_wf(rows);
    assert forall|db: Seq<char>| databases_in(rows).contains(db) <==> names_database(
        rows,
        db,
    ) by {
        lemma_catalog_of_database(rows, db);
    }
    lemma_catalog_of_database(rows, Seq::empty());
}

/// Asking the catalog that rows describe for the tables of a database
/// lists the tables that the rows name for it, each once, in order of
/// first appearance; for a database that no row names, the answer is that
/// it was not found.
pub proof fn lemma_tables_answer(rows: Seq<Row>, db: Seq<char>)
    ensures
        tables_answer(catalog_of(rows), db) == if names_database(rows, db) {
            listing(tables_in(rows, db))
        } else {
            database_not_found(db)
        },
{
    lemma_catalog_of_database(rows, db);
}

/// Asking the catalog that rows describe for the columns of a table lists
/// the columns of the rows that name the table, in the order of the rows,
/// repeats kept; for a database that no row names, the answer is that it
/// was not found; for a table that no row of its database names, that
/// the table was not found in it.
pub proof fn lemma_columns_answer(rows: Seq<Row>, db: Seq<char>, tb: Seq<char>)
    ensures
        columns_answer(catalog_of(rows), db, tb) == if !names_database(rows, db) {
            database_not_found(db)
        } else if !names_table(rows, db, tb) {
            table_not_found(tb, db)
        } else {
            listing(columns_in(rows, db, tb))
        },
{
    lemma_catalog_of_database(rows, db);
    lemma_catalog_of_table(rows, db, tb);
}

/// The answer at a position depends on the pair at that position alone:
/// two requests that agree there get the same answer there, whatever
/// stands at their other positions.
pub proof fn lemma_answers_by_position(
    c: CatalogView,
    first: Seq<(Seq<char>, Seq<char>)>,
    second: Seq<(Seq<char>, Seq<char>)>,
    i: int,
)
    requires
        0 <= i < first.len(),
        0 <= i < second.len(),
        first[i] == second[i],
    ensures
        columns_answers(c, first).len() == first.len(),
        columns_answers(c, first)[i] == columns_answer(c, first[i].0, first[i].1),
        columns_answers(c, first)[i] == columns_answers(c, second)[i],
{
}

} // verus!
