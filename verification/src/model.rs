//! The catalog as a mathematical value: what a sequence of rows names,
//! the catalog that the rows describe, and what one more row does to it.

use crate::sequences::{
    first_index, first_occurrences, lemma_first_index, lemma_first_occurrences,
    lemma_first_occurrences_push, lemma_push_contains,
};
use vstd::prelude::*;

verus! {


/// One catalog entry as a mathematical value: a column of a table of a
/// database.
pub struct Row {
    pub database: Seq<char>,
    pub table: Seq<char>,
    pub column: Seq<char>,
}

/// Selects the rows of database `db`.
pub open spec fn of_database(db: Seq<char>) -> spec_fn(Row) -> bool {
    |r: Row| r.database == db
}

/// Selects the rows of table `tb` of database `db`.
pub open spec fn of_table(db: Seq<char>, tb: Seq<char>) -> spec_fn(Row) -> bool {
    |r: Row| r.database == db && r.table == tb
}

/// The databases that `rows` name, each once, in order of first
/// appearance.
pub open spec fn databases_in(rows: Seq<Row>) -> Seq<Seq<char>> {
    first_occurrences(rows.map_values(|r: Row| r.database))
}

/// The tables that `rows` name for database `db`, each once, in order of
/// first appearance.
pub open spec fn tables_in(rows: Seq<Row>, db: Seq<char>) -> Seq<Seq<char>> {
    first_occurrences(rows.filter(of_database(db)).map_values(|r: Row| r.table))
}

/// The columns that `rows` name for table `tb` of database `db`: one per
/// row, in the order of the rows, repeated where the rows repeat.
pub open spec fn columns_in(rows: Seq<Row>, db: Seq<char>, tb: Seq<char>) -> Seq<Seq<char>> {
    rows.filter(of_table(db, tb)).map_values(|r: Row| r.column)
}

/// Whether some row names database `db`.
pub open spec fn names_database(rows: Seq<Row>, db: Seq<char>) -> bool {
    exists|i: int| 0 <= i < rows.len() && (#[trigger] rows[i]).database == db
}

/// Whether some row names table `tb` of database `db`.
pub open spec fn names_table(rows: Seq<Row>, db: Seq<char>, tb: Seq<char>) -> bool {
    exists|i: int|
        0 <= i < rows.len() && (#[trigger] rows[i]).database == db && rows[i].table == tb
}

/// A table of the catalog as a mathematical value.
pub struct TableView {
    pub name: Seq<char>,
    pub columns: Seq<Seq<char>>,
}

/// A database of the catalog as a mathematical value.
pub struct DatabaseView {
    pub name: Seq<char>,
    pub tables: Seq<TableView>,
}

/// The catalog as a mathematical value.
pub struct CatalogView {
    pub databases: Seq<DatabaseView>,
}

impl DatabaseView {
    /// The names of the tables, in their order.
    pub open spec fn table_names(self) -> Seq<Seq<char>> {
        Seq::new(self.tables.len(), |j: int| self.tables[j].name)
    }

    /// Whether a table is called `tb`.
    pub open spec fn has_table(self, tb: Seq<char>) -> bool {
        self.table_names().contains(tb)
    }

    /// The first table called `tb`.
    pub open spec fn table(self, tb: Seq<char>) -> TableView
        recommends
            self.has_table(tb),
    {
        self.tables[first_index(self.table_names(), tb)]
    }

    /// No two tables share a name.
    pub open spec fn wf(self) -> bool {
        self.table_names().no_duplicates()
    }

    /// This database with `column` added at the end of table `tb`, the
    /// table itself added at the end if it was not there.
    pub open spec fn with_column(self, tb: Seq<char>, column: Seq<char>) -> DatabaseView {
        if self.has_table(tb) {
            let j = first_index(self.table_names(), tb);
            DatabaseView {
                name: self.name,
                tables: self.tables.update(
                    j,
                    TableView { name: tb, columns: self.tables[j].columns.push(column) },
                ),
            }
        } else {
            DatabaseView {
                name: self.name,
                tables: self.tables.push(TableView { name: tb, columns: seq![column] }),
            }
        }
    }
}

impl CatalogView {
    /// The catalog without databases.
    pub open spec fn empty() -> CatalogView {
        CatalogView { databases: Seq::empty() }
    }

    /// The names of the databases, in their order.
    pub open spec fn database_names(self) -> Seq<Seq<char>> {
        Seq::new(self.databases.len(), |i: int| self.databases[i].name)
    }

    /// Whether a database is called `db`.
    pub open spec fn has_database(self, db: Seq<char>) -> bool {
        self.database_names().contains(db)
    }

    /// The first database called `db`.
    pub open spec fn database(self, db: Seq<char>) -> DatabaseView
        recommends
            self.has_database(db),
    {
        self.databases[first_index(self.database_names(), db)]
    }

    /// Whether database `db` is there and holds a table called `tb`.
    pub open spec fn has_table(self, db: Seq<char>, tb: Seq<char>) -> bool {
        self.has_database(db) && self.database(db).has_table(tb)
    }

    /// The columns of table `tb` of database `db`.
    pub open spec fn columns(self, db: Seq<char>, tb: Seq<char>) -> Seq<Seq<char>>
        recommends
            self.has_table(db, tb),
    {
        self.database(db).table(tb).columns
    }

    /// No two databases share a name, and within a database no two tables
    /// do.
    pub open spec fn wf(self) -> bool {
        &&& self.database_names().no_duplicates()
        &&& forall|i: int| 0 <= i < self.databases.len() ==> (#[trigger] self.databases[i]).wf()
    }

    /// This catalog after one more row: its column added at the end of its
    /// table, the table and the database added at the end of theirs where
    /// they were not there.
    pub open spec fn with_row(self, r: Row) -> CatalogView {
        if self.has_database(r.database) {
            let i = first_index(self.database_names(), r.database);
            CatalogView {
                databases: self.databases.update(
                    i,
                    self.databases[i].with_column(r.table, r.column),
                ),
            }
        } else {
            CatalogView {
                databases: self.databases.push(
                    DatabaseView {
                        name: r.database,
                        tables: seq![TableView { name: r.table, columns: seq![r.column] }],
                    },
                ),
            }
        }
    }
}

/// Database `db` as `rows` describe it.
pub open spec fn database_in(rows: Seq<Row>, db: Seq<char>) -> DatabaseView {
    DatabaseView {
        name: db,
        tables: Seq::new(
            tables_in(rows, db).len(),
            |j: int|
                TableView {
                    name: tables_in(rows, db)[j],
                    columns: columns_in(rows, db, tables_in(rows, db)[j]),
                },
        ),
    }
}

/// The catalog that `rows` describe.
pub open spec fn catalog_of(rows: Seq<Row>) -> CatalogView {
    CatalogView {
        databases: Seq::new(
            databases_in(rows).len(),
            |i: int| database_in(rows, databases_in(rows)[i]),
        ),
    }
}

/// What one more row does to the databases named.
pub proof fn lemma_databases_in_push(rows: Seq<Row>, r: Row)
    ensures
        databases_in(rows.push(r)) == if databases_in(rows).contains(r.database) {
            databases_in(rows)
        } else {
            databases_in(rows).push(r.database)
        },
{
    let f = |r: Row| r.database;
    assert(rows.push(r).map_values(f) =~= rows.map_values(f).push(r.database));
    lemma_first_occurrences_push(rows.map_values(f), r.database);
}

/// What one more row does to the tables named for a database.
pub proof fn lemma_tables_in_push(rows: Seq<Row>, r: Row, db: Seq<char>)
    ensures
        tables_in(rows.push(r), db) == if r.database != db || tables_in(rows, db).contains(
            r.table,
        ) {
            tables_in(rows, db)
        } else {
            tables_in(rows, db).push(r.table)
        },
{
    let f = |r: Row| r.table;
    let p = of_database(db);
    rows.lemma_filter_push(r, p);
    if r.database == db {
        assert(rows.filter(p).push(r).map_values(f) =~= rows.filter(p).map_values(f).push(
            r.table,
        ));
        lemma_first_occurrences_push(rows.filter(p).map_values(f), r.table);
    }
}

/// What one more row does to the columns named for a table.
pub proof fn lemma_columns_in_push(rows: Seq<Row>, r: Row, db: Seq<char>, tb: Seq<char>)
    ensures
        columns_in(rows.push(r), db, tb) == if r.database == db && r.table == tb {
            columns_in(rows, db, tb).push(r.column)
        } else {
            columns_in(rows, db, tb)
        },
{
    let f = |r: Row| r.column;
    let p = of_table(db, tb);
    rows.lemma_filter_push(r, p);
    if r.database == db && r.table == tb {
        assert(rows.filter(p).push(r).map_values(f) =~= rows.filter(p).map_values(f).push(
            r.column,
        ));
    }
}

/// A database that no row names has no tables named, and a table that no
/// row names for its database has no columns named.
pub proof fn lemma_unnamed_is_empty(rows: Seq<Row>, db: Seq<char>, tb: Seq<char>)
    ensures
        !databases_in(rows).contains(db) ==> tables_in(rows, db).len() == 0,
        !tables_in(rows, db).contains(tb) ==> columns_in(rows, db, tb).len() == 0,
    decreases rows.len(),
{
    if rows.len() == 0 {
        reveal(Seq::filter);
    } else {
        let head = rows.drop_last();
        let r = rows.last();
        assert(rows =~= head.push(r));
        lemma_unnamed_is_empty(head, db, tb);
        lemma_databases_in_push(head, r);
        lemma_tables_in_push(head, r, db);
        lemma_columns_in_push(head, r, db, tb);
        lemma_push_contains(databases_in(head), r.database, db);
        lemma_push_contains(tables_in(head, db), r.table, tb);
    }
}

/// The catalog that rows describe gives every database and every table
/// one place.
pub proof fn lemma_catalog_of_wf(rows: Seq<Row>)
    ensures
        catalog_of(rows).wf(),
{
    let c = catalog_of(rows);
    lemma_first_occurrences(rows.map_values(|r: Row| r.database));
    assert(c.database_names() =~= databases_in(rows));
    assert forall|i: int| 0 <= i < c.databases.len() implies (#[trigger] c.databases[i]).wf(
    ) by {
        let db = databases_in(rows)[i];
        lemma_first_occurrences(rows.filter(of_database(db)).map_values(|r: Row| r.table));
        assert(c.databases[i].table_names() =~= tables_in(rows, db));
    }
}

/// A database that the new row does not name stays as it was.
proof fn lemma_database_in_push_other(rows: Seq<Row>, r: Row, db: Seq<char>)
    requires
        r.database != db,
    ensures
        database_in(rows.push(r), db) == database_in(rows, db),
{
    lemma_tables_in_push(rows, r, db);
    let before = database_in(rows, db);
    let after = database_in(rows.push(r), db);
    assert forall|j: int| 0 <= j < before.tables.len() implies before.tables[j]
        == after.tables[j] by {
        lemma_columns_in_push(rows, r, db, tables_in(rows, db)[j]);
    }
    assert(before.tables =~= after.tables);
}

/// The database that the new row names gains the row's column.
proof fn lemma_database_in_push_same(rows: Seq<Row>, r: Row)
    ensures
        database_in(rows.push(r), r.database) == if databases_in(rows).contains(r.database) {
            database_in(rows, r.database).with_column(r.table, r.column)
        } else {
            DatabaseView {
                name: r.database,
                tables: seq![TableView { name: r.table, columns: seq![r.column] }],
            }
        },
{
    let db = r.database;
    let names = tables_in(rows, db);
    let before = database_in(rows, db);
    let after = database_in(rows.push(r), db);
    lemma_tables_in_push(rows, r, db);
    lemma_unnamed_is_empty(rows, db, r.table);
    lemma_first_occurrences(rows.filter(of_database(db)).map_values(|r: Row| r.table));
    lemma_first_index(names, r.table);
    assert(before.table_names() =~= names);
    assert forall|j: int| 0 <= j < names.len() && names[j] != r.table implies before.tables[j]
        == after.tables[j] by {
        lemma_columns_in_push(rows, r, db, names[j]);
    }
    lemma_columns_in_push(rows, r, db, r.table);
    if names.contains(r.table) {
        let j = first_index(names, r.table);
        let expected = before.with_column(r.table, r.column);
        assert forall|k: int| 0 <= k < names.len() implies expected.tables[k]
            == after.tables[k] by {
            if k != j {
                assert(names[k] != names[j]);
            }
        }
        assert(expected.tables =~= after.tables);
    } else {
        assert(columns_in(rows, db, r.table) =~= Seq::<Seq<char>>::empty());
        assert(columns_in(rows.push(r), db, r.table) =~= seq![r.column]);
        if databases_in(rows).contains(db) {
            let expected = before.with_column(r.table, r.column);
            assert forall|k: int| 0 <= k < names.len() implies expected.tables[k]
                == after.tables[k] by {
                assert(names.contains(names[k]));
            }
            assert(expected.tables =~= after.tables);
        } else {
            assert(after.tables =~= seq![TableView { name: r.table, columns: seq![r.column] }]);
        }
    }
}

/// The catalog of rows with one more row at their end is the catalog of
/// the rows with that row added.
pub proof fn lemma_catalog_of_push(rows: Seq<Row>, r: Row)
    ensures
        catalog_of(rows.push(r)) == catalog_of(rows).with_row(r),
{
    let names = databases_in(rows);
    let before = catalog_of(rows);
    let after = catalog_of(rows.push(r));
    let expected = before.with_row(r);
    lemma_databases_in_push(rows, r);
    lemma_first_occurrences(rows.map_values(|r: Row| r.database));
    lemma_first_index(names, r.database);
    lemma_database_in_push_same(rows, r);
    assert(before.database_names() =~= names);
    assert forall|i: int| 0 <= i < names.len() implies expected.databases[i]
        == after.databases[i] by {
        if names[i] != r.database {
            lemma_database_in_push_other(rows, r, names[i]);
        } else {
            assert(i == first_index(names, r.database));
        }
    }
    assert(expected.databases =~= after.databases);
}

/// The databases named are those of the rows, and the tables named for a
/// database are those of its rows.
pub proof fn lemma_named(rows: Seq<Row>, db: Seq<char>, tb: Seq<char>)
    ensures
        databases_in(rows).contains(db) <==> names_database(rows, db),
        tables_in(rows, db).contains(tb) <==> names_table(rows, db, tb),
    decreases rows.len(),
{
    if rows.len() == 0 {
        reveal(Seq::filter);
        assert(!databases_in(rows).contains(db));
        assert(!tables_in(rows, db).contains(tb));
    } else {
        let head = rows.drop_last();
        let r = rows.last();
        assert(rows =~= head.push(r));
        lemma_named(head, db, tb);
        lemma_databases_in_push(head, r);
        lemma_tables_in_push(head, r, db);
        lemma_push_contains(databases_in(head), r.database, db);
        lemma_push_contains(tables_in(head, db), r.table, tb);
        if names_database(head, db) {
            let i = choose|i: int| 0 <= i < head.len() && (#[trigger] head[i]).database == db;
            assert(rows[i].database == db);
        }
        if names_table(head, db, tb) {
            let i = choose|i: int|
                0 <= i < head.len() && (#[trigger] head[i]).database == db && head[i].table == tb;
            assert(rows[i].database == db && rows[i].table == tb);
        }
        if r.database == db {
            assert(rows[rows.len() - 1].database == db);
        }
        if names_database(rows, db) {
            let i = choose|i: int| 0 <= i < rows.len() && (#[trigger] rows[i]).database == db;
            if i < head.len() {
                assert(head[i].database == db);
            }
        }
        if names_table(rows, db, tb) {
            let i = choose|i: int|
                0 <= i < rows.len() && (#[trigger] rows[i]).database == db && rows[i].table == tb;
            if i < head.len() {
                assert(head[i].database == db && head[i].table == tb);
            }
        }
    }
}

/// Looking a database up in the catalog that rows describe: it is there
/// exactly if some row names it, and then it is as the rows describe it.
pub proof fn lemma_catalog_of_database(rows: Seq<Row>, db: Seq<char>)
    ensures
        catalog_of(rows).database_names() == databases_in(rows),
        catalog_of(rows).has_database(db) <==> names_database(rows, db),
        names_database(rows, db) ==> catalog_of(rows).database(db) == database_in(rows, db),
        database_in(rows, db).table_names() == tables_in(rows, db),
{
    let c = catalog_of(rows);
    lemma_named(rows, db, db);
    lemma_first_index(databases_in(rows), db);
    assert(c.database_names() =~= databases_in(rows));
    assert(database_in(rows, db).table_names() =~= tables_in(rows, db));
}

/// Looking a table up in the catalog that rows describe: it is there
/// exactly if some row names it, and then its columns are those of its
/// rows, in their order.
pub proof fn lemma_catalog_of_table(rows: Seq<Row>, db: Seq<char>, tb: Seq<char>)
    ensures
        catalog_of(rows).has_table(db, tb) <==> names_table(rows, db, tb),
        names_table(rows, db, tb) ==> catalog_of(rows).columns(db, tb) == columns_in(rows, db, tb),
{
    lemma_catalog_of_database(rows, db);
    lemma_named(rows, db, tb);
    lemma_first_index(tables_in(rows, db), tb);
    if names_table(rows, db, tb) {
        let i = choose|i: int|
            0 <= i < rows.len() && (#[trigger] rows[i]).database == db && rows[i].table == tb;
        assert(rows[i].database == db);
    }
}

/// Adding a row keeps every database and every table at one place.
pub proof fn lemma_with_row_wf(c: CatalogView, r: Row)
    requires
        c.wf(),
    ensures
        c.with_row(r).wf(),
{
    let d = c.with_row(r);
    let names = c.database_names();
    lemma_first_index(names, r.database);
    if c.has_database(r.database) {
        let i = first_index(names, r.database);
        assert(d.database_names() =~= names);
        lemma_with_column_wf(c.databases[i], r.table, r.column);
        assert forall|k: int| 0 <= k < d.databases.len() implies (#[trigger] d.databases[k]).wf(
        ) by {
            if k != i {
                assert(d.databases[k] == c.databases[k]);
            }
        }
    } else {
        assert(d.database_names() =~= names.push(r.database));
        assert forall|k: int| 0 <= k < d.databases.len() implies (#[trigger] d.databases[k]).wf(
        ) by {
            if k < c.databases.len() {
                assert(d.databases[k] == c.databases[k]);
            } else {
                assert(d.databases[k].table_names() =~= seq![r.table]);
            }
        }
    }
}

/// Adding a column keeps every table at one place.
pub proof fn lemma_with_column_wf(d: DatabaseView, tb: Seq<char>, column: Seq<char>)
    requires
        d.wf(),
    ensures
        d.with_column(tb, column).wf(),
{
    let e = d.with_column(tb, column);
    let names = d.table_names();
    lemma_first_index(names, tb);
    if d.has_table(tb) {
        assert(e.table_names() =~= names);
    } else {
        assert(e.table_names() =~= names.push(tb));
    }
}

} // verus!
