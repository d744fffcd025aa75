use autocompletels::catalog::{Catalog, Record};
use autocompletels::loader::{
    database_list_path, index_records, load, load_all, load_database, load_database_list,
    shard_path, trim_record,
};

fn record(database: &str, table: &str, column: &str) -> Record {
    Record {
        database_name: database.to_string(),
        table_name: table.to_string(),
        column_name: column.to_string(),
    }
}

fn owned(parts: &[&str]) -> Vec<String> {
    parts.iter().map(|p| p.to_string()).collect()
}

fn columns(catalog: &Catalog, database: &str, table: &str) -> Vec<String> {
    catalog.get(database).unwrap().get(table).unwrap().columns().clone()
}

#[test]
fn a_shard_has_no_header() {
    let catalog = load_database(b"sales,orders,id\nsales,orders,total\n").unwrap();
    assert_eq!(catalog.database_names(), owned(&["sales"]));
    assert_eq!(columns(&catalog, "sales", "orders"), owned(&["id", "total"]));
}

#[test]
fn the_single_file_starts_with_a_header() {
    let data = b"database_name,table_name,column_name\nsales,orders,id\nhr,staff,name\n";
    let catalog = load_all(data).unwrap();
    assert_eq!(catalog.database_names(), owned(&["sales", "hr"]));
    assert_eq!(columns(&catalog, "sales", "orders"), owned(&["id"]));
    assert_eq!(columns(&catalog, "hr", "staff"), owned(&["name"]));
}

#[test]
fn a_header_read_as_a_shard_is_a_row() {
    let data = b"database_name,table_name,column_name\nsales,orders,id\n";
    let catalog = load_database(data).unwrap();
    assert_eq!(catalog.database_names(), owned(&["database_name", "sales"]));
    assert_eq!(columns(&catalog, "database_name", "table_name"), owned(&["column_name"]));
}

#[test]
fn load_takes_the_header_as_told() {
    let data = b"a,b,c\nd,e,f\n";
    assert_eq!(load(data, true), load_all(data));
    assert_eq!(load(data, false), load_database(data));
    assert_eq!(load(data, true).unwrap().database_names(), owned(&["d"]));
    assert_eq!(load(data, false).unwrap().database_names(), owned(&["a", "d"]));
}

#[test]
fn every_field_is_trimmed() {
    let catalog = load_database(b" sales ,\torders, id \nsales,orders ,total\n").unwrap();
    assert_eq!(catalog.database_names(), owned(&["sales"]));
    assert_eq!(catalog.get("sales").unwrap().table_names(), owned(&["orders"]));
    assert_eq!(columns(&catalog, "sales", "orders"), owned(&["id", "total"]));
}

#[test]
fn quoted_fields_keep_their_commas_and_lose_their_outer_space() {
    let catalog = load_database(b"\"my, db\",\" t \",\"a \"\"b\"\"\"\n").unwrap();
    assert_eq!(catalog.database_names(), owned(&["my, db"]));
    assert_eq!(columns(&catalog, "my, db", "t"), owned(&["a \"b\""]));
}

#[test]
fn a_shard_may_name_other_databases() {
    let catalog = load_database(b"sales,orders,id\nhr,staff,name\n").unwrap();
    assert_eq!(catalog.database_names(), owned(&["sales", "hr"]));
}

#[test]
fn an_empty_source_is_an_empty_catalog() {
    assert_eq!(load_database(b"").unwrap(), Catalog::new());
    assert_eq!(load_all(b"").unwrap(), Catalog::new());
    assert_eq!(load_all(b"database_name,table_name,column_name\n").unwrap(), Catalog::new());
}

#[test]
fn a_last_row_needs_no_newline() {
    let catalog = load_database(b"sales,orders,id").unwrap();
    assert_eq!(columns(&catalog, "sales", "orders"), owned(&["id"]));
}

#[test]
fn a_row_of_two_fields_spoils_the_source() {
    let failure = load_database(b"sales,orders\n").unwrap_err();
    assert!(!failure.detail.is_empty());
}

#[test]
fn one_bad_row_spoils_every_row() {
    assert!(load_database(b"sales,orders,id\nsales,orders\nsales,orders,total\n").is_err());
    assert!(load_all(b"database_name,table_name,column_name\nsales,orders,id\nsales\n").is_err());
}

#[test]
fn rows_of_four_fields_give_their_first_three() {
    let catalog = load_database(b"sales,orders,id,int\nsales,orders,total,float\n").unwrap();
    assert_eq!(columns(&catalog, "sales", "orders"), owned(&["id", "total"]));
}

#[test]
fn rows_of_unequal_length_spoil_the_source() {
    assert!(load_database(b"sales,orders,id\nsales,orders,total,float\n").is_err());
}

#[test]
fn bytes_that_are_no_text_spoil_the_source() {
    assert!(load_database(b"sales,orders,\xff\xfe\n").is_err());
}

#[test]
fn empty_fields_are_names_too() {
    let catalog = load_database(b",,\n").unwrap();
    assert_eq!(catalog.database_names(), owned(&[""]));
    assert_eq!(columns(&catalog, "", ""), owned(&[""]));
}

#[test]
fn trim_record_trims_each_name() {
    assert_eq!(trim_record(&record(" a", "b ", " c ")), record("a", "b", "c"));
    assert_eq!(trim_record(&record("a b", "", "\t")), record("a b", "", ""));
}

#[test]
fn index_records_trims_before_it_files() {
    let catalog = index_records(&vec![
        record("sales ", "orders", "id"),
        record(" sales", " orders ", "total "),
    ]);
    assert_eq!(
        catalog,
        Catalog::from_records(vec![
            record("sales", "orders", "id"),
            record("sales", "orders", "total"),
        ])
    );
}

#[test]
fn the_database_list_is_one_name_per_line() {
    assert_eq!(load_database_list("sales\nhr\n"), owned(&["sales", "hr"]));
    assert_eq!(load_database_list(" sales \r\n\thr"), owned(&["sales", "hr"]));
}

#[test]
fn the_database_list_keeps_repeats_and_order() {
    assert_eq!(load_database_list("b\na\nb\n"), owned(&["b", "a", "b"]));
    assert_eq!(load_database_list(""), owned(&[]));
}

#[test]
fn files_are_named_after_the_base_and_the_database() {
    assert_eq!(database_list_path("/var/catalog"), "/var/catalog/data.csv");
    assert_eq!(shard_path("/var/catalog", "sales"), "/var/catalog/data_sales.csv");
    assert_eq!(shard_path("", ""), "/data_.csv");
    assert_eq!(shard_path("rel/", "my db"), "rel//data_my db.csv");
}
