//! Loading: from the bytes of a CSV source to the catalog, from the text
//! of a database list to its names, and the names of the files that hold
//! them.

use crate::catalog::{rows_of, Catalog, Record};
use crate::model::{catalog_of, Row};
use crate::text::{lines, texts, trim, trimmed, trimmed_lines};
use vstd::prelude::*;

verus! {

/// The error of the `csv` crate's reader.
#[verifier::external_type_specification]
#[verifier::external_body]
pub struct ExCsvError(csv::Error);

/// What the `csv` crate's reader yields for `data`: for each record its
/// first three fields as they stand, in the order of the records, the
/// first record left out where `has_headers` is set; or `None` where the
/// reader reports an error for some record.
pub uninterp spec fn csv_rows(data: Seq<u8>, has_headers: bool) -> Option<Seq<Row>>;

/// A source that could not be read as a catalog. Nothing of it is kept.
#[derive(Debug, PartialEq, Eq)]
pub struct Malformed {
    /// What the reader said of the first record it refused.
    pub detail: String,
}

/// `r` with each of its three names trimmed.
pub open spec fn trimmed_row(r: Row) -> Row {
    Row { database: trimmed(r.database), table: trimmed(r.table), column: trimmed(r.column) }
}

/// `rows` with the names of each row trimmed.
pub open spec fn trimmed_rows(rows: Seq<Row>) -> Seq<Row> {
    Seq::new(rows.len(), |i: int| trimmed_row(rows[i]))
}

/// The file under `base` that lists the databases.
pub open spec fn database_list_path_of(base: Seq<char>) -> Seq<char> {
    base + "/data.csv"@
}

/// The file under `base` that holds the catalog of `database`.
pub open spec fn shard_path_of(base: Seq<char>, database: Seq<char>) -> Seq<char> {
    base + "/data_"@ + database + ".csv"@
}

/// Reads `data` with a reader of the `csv` crate, built by
/// `csv::ReaderBuilder` with `has_headers` as given and every other
/// setting at its default, and collects what `csv::Reader::deserialize`
/// yields for three strings per record. The result depends on the
/// arguments alone; `csv_rows` names it. The first error ends the reading.
#[verifier::external_body]
fn read_records(data: &[u8], has_headers: bool) -> (r: Result<Vec<Record>, csv::Error>)
    ensures
        match r {
            Ok(records) => csv_rows(data@, has_headers) == Some(rows_of(records@)),
            Err(_) => csv_rows(data@, has_headers) is None,
        },
{
    csv::ReaderBuilder::new()
        .has_headers(has_headers)
        .from_reader(data)
        .deserialize::<(String, String, String)>()
        .map(|row| row.map(|(d, t, c)| Record { database_name: d, table_name: t, column_name: c }))
        .collect()
}

/// The `Debug` text of an error of the `csv` crate.
#[verifier::external_body]
fn describe(error: &csv::Error) -> String {
    format!("{:?}", error)
}

/// `record` with each of its three names trimmed.
pub fn trim_record(record: &Record) -> (r: Record)
    ensures
        r@ == trimmed_row(record@),
{
    Record {
        database_name: trim(record.database_name.as_str()),
        table_name: trim(record.table_name.as_str()),
        column_name: trim(record.column_name.as_str()),
    }
}

/// The catalog that `records` describe once their names are trimmed.
pub fn index_records(records: &Vec<Record>) -> (c: Catalog)
    ensures
        c@ == catalog_of(trimmed_rows(rows_of(records@))),
        c.wf(),
{
    let mut clean: Vec<Record> = Vec::new();
    let mut i: usize = 0;
    while i < records.len()
        invariant
            i <= records@.len(),
            rows_of(clean@) == trimmed_rows(rows_of(records@)).take(i as int),
        decreases records@.len() - i,
    {
        let record = trim_record(&records[i]);
        proof {
            let all = trimmed_rows(rows_of(records@));
            assert(rows_of(clean@.push(record)) =~= all.take(i as int).push(record@));
            assert(all.take(i + 1) =~= all.take(i as int).push(record@));
        }
        clean.push(record);
        i = i + 1;
    }
    proof {
        let all = trimmed_rows(rows_of(records@));
        assert(all.take(records@.len() as int) =~= all);
    }
    Catalog::from_records(clean)
}

/// The catalog held in `data`, a CSV source of three columns (database,
/// table, column) whose first record is a header if `has_headers` is set.
/// One record that the reader refuses makes the whole source malformed.
pub fn load(data: &[u8], has_headers: bool) -> (r: Result<Catalog, Malformed>)
    ensures
        match r {
            Ok(c) => csv_rows(data@, has_headers) is Some && c@ == catalog_of(
                trimmed_rows(csv_rows(data@, has_headers)->0),
            ) && c.wf(),
            Err(_) => csv_rows(data@, has_headers) is None,
        },
{
    match read_records(data, has_headers) {
        Ok(records) => Ok(index_records(&records)),
        Err(error) => Err(Malformed { detail: describe(&error) }),
    }
}

/// The catalog held in a single file for all databases: CSV under a
/// header record.
pub fn load_all(data: &[u8]) -> (r: Result<Catalog, Malformed>)
    ensures
        match r {
            Ok(c) => csv_rows(data@, true) is Some && c@ == catalog_of(
                trimmed_rows(csv_rows(data@, true)->0),
            ) && c.wf(),
            Err(_) => csv_rows(data@, true) is None,
        },
{
    load(data, true)
}

/// The catalog held in the file of one database: CSV without a header
/// record. Rows that name another database are kept as they are.
pub fn load_database(data: &[u8]) -> (r: Result<Catalog, Malformed>)
    ensures
        match r {
            Ok(c) => csv_rows(data@, false) is Some && c@ == catalog_of(
                trimmed_rows(csv_rows(data@, false)->0),
            ) && c.wf(),
            Err(_) => csv_rows(data@, false) is None,
        },
{
    load(data, false)
}

/// The database names that `text` lists, one per line, each trimmed, in
/// the order of the lines, repeats kept.
pub fn load_database_list(text: &str) -> (r: Vec<String>)
    ensures
        texts(r@) == lines(text@).map_values(|l: Seq<char>| trimmed(l)),
{
    trimmed_lines(text)
}

/// The name of the file under `base` that lists the databases.
pub fn database_list_path(base: &str) -> (r: String)
    ensures
        r@ == database_list_path_of(base@),
{
    let mut path = base.to_owned();
    path.append("/data.csv");
    path
}

/// The name of the file under `base` that holds the catalog of
/// `database`.
pub fn shard_path(base: &str, database: &str) -> (r: String)
    ensures
        r@ == shard_path_of(base@, database@),
{
    let mut path = base.to_owned();
    path.append("/data_");
    path.append(database);
    path.append(".csv");
    path
}

} // verus!
