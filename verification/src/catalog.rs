//! The catalog: which databases there are, which tables each holds, and
//! which columns each table has, all in the order in which the source
//! first named them.

use crate::model::{
    catalog_of, lemma_catalog_of_push, lemma_with_row_wf, CatalogView, DatabaseView, Row,
    TableView,
};
use crate::sequences::{lemma_first_index, lemma_first_index_at};
use crate::text::{lemma_texts_push, texts};
use vstd::prelude::*;

verus! {

/// One catalog entry: a column of a table of a database.
#[derive(Debug, PartialEq, Eq)]
pub struct Record {
    pub database_name: String,
    pub table_name: String,
    pub column_name: String,
}

impl View for Record {
    type V = Row;

    open spec fn view(&self) -> Row {
        Row {
            database: self.database_name@,
            table: self.table_name@,
            column: self.column_name@,
        }
    }
}

impl Clone for Record {
    fn clone(&self) -> (r: Record)
        ensures
            r@ == self@,
    {
        Record {
            database_name: self.database_name.clone(),
            table_name: self.table_name.clone(),
            column_name: self.column_name.clone(),
        }
    }
}

/// The rows that `records` stand for.
pub open spec fn rows_of(records: Seq<Record>) -> Seq<Row> {
    Seq::new(records.len(), |i: int| records[i]@)
}

/// A table: its name and its columns in source order, repeats kept.
#[derive(Debug, PartialEq, Eq)]
pub struct Table {
    name: String,
    columns: Vec<String>,
}

/// A database: its name and its tables in order of first appearance.
#[derive(Debug, PartialEq, Eq)]
pub struct Database {
    name: String,
    tables: Vec<Table>,
}

/// The catalog: the databases in order of first appearance.
#[derive(Debug, PartialEq, Eq)]
pub struct Catalog {
    databases: Vec<Database>,
}

impl View for Table {
    type V = TableView;

    closed spec fn view(&self) -> TableView {
        TableView { name: self.name@, columns: texts(self.columns@) }
    }
}

impl View for Database {
    type V = DatabaseView;

    closed spec fn view(&self) -> DatabaseView {
        DatabaseView {
            name: self.name@,
            tables: Seq::new(self.tables@.len(), |j: int| self.tables@[j]@),
        }
    }
}

impl View for Catalog {
    type V = CatalogView;

    closed spec fn view(&self) -> CatalogView {
        CatalogView { databases: Seq::new(self.databases@.len(), |i: int| self.databases@[i]@) }
    }
}

impl Table {
    /// The table's name.
    pub fn name(&self) -> (r: &str)
        ensures
            r@ == self@.name,
    {
        self.name.as_str()
    }

    /// The table's columns in source order.
    pub fn columns(&self) -> (r: &Vec<String>)
        ensures
            texts(r@) == self@.columns,
    {
        &self.columns
    }
}

impl Database {
    /// No two tables share a name.
    pub open spec fn wf(&self) -> bool {
        self@.wf()
    }

    /// The database's name.
    pub fn name(&self) -> (r: &str)
        ensures
            r@ == self@.name,
    {
        self.name.as_str()
    }

    /// The names of the tables, in order of first appearance.
    pub fn table_names(&self) -> (r: Vec<String>)
        ensures
            texts(r@) == self@.table_names(),
    {
        let mut out: Vec<String> = Vec::new();
        let mut j: usize = 0;
        while j < self.tables.len()
            invariant
                j <= self.tables@.len(),
                texts(out@) == self@.table_names().take(j as int),
            decreases self.tables@.len() - j,
        {
            proof {
                lemma_texts_push(out@, self.tables@[j as int].name);
                assert(self@.table_names().take(j + 1) =~= self@.table_names().take(j as int).push(
                    self.tables@[j as int].name@,
                ));
            }
            out.push(self.tables[j].name.clone());
            j = j + 1;
        }
        assert(self@.table_names().take(j as int) =~= self@.table_names());
        out
    }

    /// The table called `table`, if there is one.
    pub fn get(&self, table: &str) -> (r: Option<&Table>)
        ensures
            match r {
                Some(t) => self@.has_table(table@) && t@ == self@.table(table@),
                None => !self@.has_table(table@),
            },
    {
        let key = table.to_owned();
        let mut j: usize = 0;
        while j < self.tables.len()
            invariant
                j <= self.tables@.len(),
                key@ == table@,
                forall|k: int| 0 <= k < j ==> self@.table_names()[k] != table@,
            decreases self.tables@.len() - j,
        {
            if self.tables[j].name == key {
                proof {
                    lemma_first_index(self@.table_names(), table@);
                    assert(self@.table_names()[j as int] == table@);
                }
                return Some(&self.tables[j]);
            }
            j = j + 1;
        }
        proof {
            lemma_first_index(self@.table_names(), table@);
        }
        None
    }

    /// Adds `column` at the end of table `table`, and the table at the end
    /// of the database if it was not there.
    fn add(&mut self, table: String, column: String)
        ensures
            final(self)@ == old(self)@.with_column(table@, column@),
    {
        let ghost names = self@.table_names();
        let mut j: usize = 0;
        while j < self.tables.len()
            invariant
                *self == *old(self),
                names == self@.table_names(),
                j <= self.tables@.len(),
                forall|k: int| 0 <= k < j ==> names[k] != table@,
            decreases self.tables@.len() - j,
        {
            if self.tables[j].name == table {
                proof {
                    assert(names[j as int] == table@);
                    lemma_first_index_at(names, table@, j as int);
                    lemma_texts_push(self.tables@[j as int].columns@, column);
                }
                self.tables[j].columns.push(column);
                assert(self@.tables =~= old(self)@.with_column(table@, column@).tables);
                return;
            }
            j = j + 1;
        }
        proof {
            lemma_first_index(names, table@);
        }
        let mut columns: Vec<String> = Vec::new();
        columns.push(column);
        assert(texts(columns@) =~= seq![column@]);
        self.tables.push(Table { name: table, columns });
        assert(self@.tables =~= old(self)@.with_column(table@, column@).tables);
    }
}

impl Catalog {
    /// No two databases share a name, and within a database no two tables
    /// do.
    pub open spec fn wf(&self) -> bool {
        self@.wf()
    }

    /// The catalog without databases.
    pub fn new() -> (c: Catalog)
        ensures
            c@ == CatalogView::empty(),
            c.wf(),
    {
        let c = Catalog { databases: Vec::new() };
        assert(c@.databases =~= Seq::<DatabaseView>::empty());
        c
    }

    /// Adds the record's column at the end of its table, first adding the
    /// table at the end of its database, and the database at the end of
    /// the catalog, where they were not there.
    pub fn insert(&mut self, record: Record)
        requires
            old(self).wf(),
        ensures
            final(self)@ == old(self)@.with_row(record@),
            final(self).wf(),
    {
        let ghost names = self@.database_names();
        proof {
            lemma_with_row_wf(self@, record@);
        }
        let mut i: usize = 0;
        while i < self.databases.len()
            invariant
                *self == *old(self),
                old(self)@.with_row(record@).wf(),
                names == self@.database_names(),
                i <= self.databases@.len(),
                forall|k: int| 0 <= k < i ==> names[k] != record@.database,
            decreases self.databases@.len() - i,
        {
            if self.databases[i].name == record.database_name {
                proof {
                    assert(names[i as int] == record@.database);
                    lemma_first_index_at(names, record@.database, i as int);
                }
                self.databases[i].add(record.table_name, record.column_name);
                assert(self@.databases =~= old(self)@.with_row(record@).databases);
                return;
            }
            i = i + 1;
        }
        proof {
            lemma_first_index(names, record@.database);
        }
        let mut columns: Vec<String> = Vec::new();
        columns.push(record.column_name);
        assert(texts(columns@) =~= seq![record@.column]);
        let mut tables: Vec<Table> = Vec::new();
        tables.push(Table { name: record.table_name, columns });
        let database = Database { name: record.database_name, tables };
        assert(database@.tables =~= seq![
            TableView { name: record@.table, columns: seq![record@.column] },
        ]);
        self.databases.push(database);
        assert(self@.databases =~= old(self)@.with_row(record@).databases);
    }

    /// The catalog that `records` describe.
    pub fn from_records(records: Vec<Record>) -> (c: Catalog)
        ensures
            c@ == catalog_of(rows_of(records@)),
            c.wf(),
    {
        let mut c = Catalog::new();
        let ghost all = rows_of(records@);
        assert(catalog_of(all.take(0)).databases =~= Seq::<DatabaseView>::empty());
        for record in it: records
            invariant
                it.seq() == records@,
                all == rows_of(records@),
                c@ == catalog_of(all.take(it.index())),
                c.wf(),
        {
            proof {
                let i = it.index();
                assert(all.take(i + 1) =~= all.take(i).push(record@));
                lemma_catalog_of_push(all.take(i), record@);
            }
            c.insert(record);
        }
        assert(all.take(records@.len() as int) =~= all);
        c
    }

    /// The names of the databases, in order of first appearance.
    pub fn database_names(&self) -> (r: Vec<String>)
        ensures
            texts(r@) == self@.database_names(),
    {
        let mut out: Vec<String> = Vec::new();
        let mut i: usize = 0;
        while i < self.databases.len()
            invariant
                i <= self.databases@.len(),
                texts(out@) == self@.database_names().take(i as int),
            decreases self.databases@.len() - i,
        {
            proof {
                lemma_texts_push(out@, self.databases@[i as int].name);
                assert(self@.database_names().take(i + 1) =~= self@.database_names().take(
                    i as int,
                ).push(self.databases@[i as int].name@));
            }
            out.push(self.databases[i].name.clone());
            i = i + 1;
        }
        assert(self@.database_names().take(i as int) =~= self@.database_names());
        out
    }

    /// The database called `database`, if there is one.
    pub fn get(&self, database: &str) -> (r: Option<&Database>)
        ensures
            match r {
                Some(d) => self@.has_database(database@) && d@ == self@.database(database@),
                None => !self@.has_database(database@),
            },
            self.wf() && r is Some ==> r->0.wf(),
    {
        let key = database.to_owned();
        let mut i: usize = 0;
        while i < self.databases.len()
            invariant
                i <= self.databases@.len(),
                key@ == database@,
                forall|k: int| 0 <= k < i ==> self@.database_names()[k] != database@,
            decreases self.databases@.len() - i,
        {
            if self.databases[i].name == key {
                proof {
                    lemma_first_index(self@.database_names(), database@);
                    assert(self@.database_names()[i as int] == database@);
                }
                return Some(&self.databases[i]);
            }
            i = i + 1;
        }
        proof {
            lemma_first_index(self@.database_names(), database@);
        }
        None
    }
}

} // verus!
