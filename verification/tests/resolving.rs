use autocompletels::catalog::{Catalog, Record};
use autocompletels::loader::{load_all, load_database};
use autocompletels::request::{plan, Request};
use autocompletels::resolver::{
    answer, list, list_columns, list_columns_each, list_columns_of_shard, list_databases,
    list_tables, list_tables_each, list_tables_of_shard,
};

fn record(database: &str, table: &str, column: &str) -> Record {
    Record {
        database_name: database.to_string(),
        table_name: table.to_string(),
        column_name: column.to_string(),
    }
}

fn owned(parts: &[&str]) -> Vec<String> {
    parts.iter().map(|p| p.to_string()).collect()
}

fn pairs(parts: &[(&str, &str)]) -> Vec<(String, String)> {
    parts.iter().map(|(d, t)| (d.to_string(), t.to_string())).collect()
}

fn sales() -> Catalog {
    Catalog::from_records(vec![
        record("sales", "orders", "id"),
        record("sales", "orders", "total"),
        record("sales", "customers", "name"),
    ])
}

fn two_databases() -> Catalog {
    Catalog::from_records(vec![
        record("sales", "orders", "id"),
        record("hr", "staff", "name"),
        record("sales", "orders", "total"),
        record("hr", "staff", "since"),
        record("hr", "rooms", "floor"),
    ])
}

#[test]
fn the_sales_catalog_answers_each_shape_of_query() {
    let catalog = sales();
    assert_eq!(list_databases(&catalog), "sales");
    assert_eq!(list_tables(&catalog, "sales"), "orders,customers");
    assert_eq!(list_columns(&catalog, "sales", "orders"), "id,total");
    assert_eq!(
        list_columns(&catalog, "sales", "missing"),
        "Table missing not found in database sales."
    );
}

#[test]
fn each_database_is_listed_once() {
    let catalog = Catalog::from_records(vec![
        record("sales", "orders", "id"),
        record("hr", "staff", "name"),
        record("sales", "orders", "id"),
        record("sales", "customers", "name"),
        record("hr", "staff", "name"),
    ]);
    assert_eq!(list_databases(&catalog), "sales,hr");
}

#[test]
fn an_empty_catalog_lists_as_an_empty_line() {
    assert_eq!(list_databases(&Catalog::new()), "");
    assert_eq!(list(&owned(&[])), "");
}

#[test]
fn columns_are_listed_in_source_order_with_repeats() {
    let catalog = Catalog::from_records(vec![
        record("sales", "orders", "total"),
        record("sales", "orders", "id"),
        record("sales", "customers", "name"),
        record("sales", "orders", "total"),
    ]);
    assert_eq!(list_columns(&catalog, "sales", "orders"), "total,id,total");
}

#[test]
fn an_unknown_database_is_reported_by_name() {
    let catalog = sales();
    assert_eq!(list_tables(&catalog, "hr"), "Database hr not found.");
    assert_eq!(list_columns(&catalog, "hr", "orders"), "Database hr not found.");
    assert_eq!(list_tables(&catalog, ""), "Database  not found.");
    assert_eq!(list_tables(&Catalog::new(), "sales"), "Database sales not found.");
}

#[test]
fn an_unknown_table_is_reported_with_its_database() {
    let catalog = two_databases();
    assert_eq!(
        list_columns(&catalog, "sales", "staff"),
        "Table staff not found in database sales."
    );
    assert_eq!(list_columns(&catalog, "hr", ""), "Table  not found in database hr.");
}

#[test]
fn names_are_matched_exactly() {
    let catalog = sales();
    assert_eq!(list_tables(&catalog, "Sales"), "Database Sales not found.");
    assert_eq!(list_tables(&catalog, "sal"), "Database sal not found.");
    assert_eq!(
        list_columns(&catalog, "sales", "order"),
        "Table order not found in database sales."
    );
}

#[test]
fn answers_keep_the_order_of_the_pairs() {
    let catalog = two_databases();
    assert_eq!(
        list_columns_each(&catalog, &pairs(&[("sales", "orders"), ("hr", "staff")])),
        owned(&["id,total", "name,since"])
    );
    assert_eq!(
        list_columns_each(&catalog, &pairs(&[("hr", "staff"), ("sales", "orders")])),
        owned(&["name,since", "id,total"])
    );
}

#[test]
fn an_answer_does_not_depend_on_its_neighbours() {
    let catalog = two_databases();
    let asked = pairs(&[("sales", "orders"), ("nowhere", "x"), ("hr", "none"), ("hr", "rooms")]);
    assert_eq!(
        list_columns_each(&catalog, &asked),
        owned(&[
            "id,total",
            "Database nowhere not found.",
            "Table none not found in database hr.",
            "floor",
        ])
    );
    for (i, (database, table)) in asked.iter().enumerate() {
        assert_eq!(
            list_columns_each(&catalog, &asked)[i],
            list_columns(&catalog, database, table)
        );
    }
}

#[test]
fn the_same_pair_twice_is_answered_twice() {
    let catalog = sales();
    assert_eq!(
        list_columns_each(&catalog, &pairs(&[("sales", "orders"), ("sales", "orders")])),
        owned(&["id,total", "id,total"])
    );
}

#[test]
fn tables_are_answered_one_line_per_database() {
    let catalog = two_databases();
    assert_eq!(
        list_tables_each(&catalog, &owned(&["hr", "nowhere", "sales", "hr"])),
        owned(&["staff,rooms", "Database nowhere not found.", "orders", "staff,rooms"])
    );
}

#[test]
fn a_request_for_databases_is_one_line() {
    assert_eq!(answer(&two_databases(), &Request::Databases), owned(&["sales,hr"]));
    assert_eq!(answer(&Catalog::new(), &Request::Databases), owned(&[""]));
}

#[test]
fn a_request_for_tables_is_a_line_for_each_database() {
    let request = Request::Tables(owned(&["sales", "x"]));
    assert_eq!(answer(&two_databases(), &request), owned(&["orders", "Database x not found."]));
}

#[test]
fn a_request_for_columns_is_one_line_for_all_pairs() {
    let request = Request::Columns(pairs(&[("sales", "orders"), ("x", "y"), ("hr", "rooms")]));
    assert_eq!(
        answer(&two_databases(), &request),
        owned(&["id,total,Database x not found.,floor"])
    );
}

#[test]
fn initializing_answers_nothing() {
    assert_eq!(answer(&two_databases(), &Request::Initialize), owned(&[]));
}

#[test]
fn options_to_answer_in_one_go() {
    let catalog = two_databases();
    let request = plan(false, &owned(&["hr", "sales"]), &owned(&["staff", "nope"])).unwrap();
    assert_eq!(
        answer(&catalog, &request),
        owned(&["name,since,Table nope not found in database sales."])
    );
}

#[test]
fn mismatched_counts_give_no_request_to_answer() {
    assert!(plan(false, &owned(&["hr", "sales"]), &owned(&["staff"])).is_err());
}

#[test]
fn a_shard_answers_for_its_database() {
    let data = b"sales, orders ,id\nsales,orders,total\nsales,customers,name\n";
    assert_eq!(list_tables_of_shard(data, "sales").unwrap(), "orders,customers");
    assert_eq!(list_columns_of_shard(data, "sales", "orders").unwrap(), "id,total");
    assert_eq!(
        list_columns_of_shard(data, "sales", "missing").unwrap(),
        "Table missing not found in database sales."
    );
}

#[test]
fn a_shard_without_its_database_reports_it() {
    let data = b"hr,staff,name\n";
    assert_eq!(list_tables_of_shard(data, "sales").unwrap(), "Database sales not found.");
    assert_eq!(
        list_columns_of_shard(data, "sales", "staff").unwrap(),
        "Database sales not found."
    );
    assert_eq!(list_tables_of_shard(b"", "sales").unwrap(), "Database sales not found.");
}

#[test]
fn a_malformed_shard_answers_nothing() {
    assert!(list_tables_of_shard(b"sales,orders\n", "sales").is_err());
    assert!(list_columns_of_shard(b"sales\n", "sales", "orders").is_err());
}

#[test]
fn a_shard_answers_as_its_catalog_does() {
    let data = b"sales,orders,id\nhr,staff,name\nsales,orders,total\n";
    let catalog = load_database(data).unwrap();
    for database in ["sales", "hr", "none"] {
        assert_eq!(
            list_tables_of_shard(data, database).unwrap(),
            list_tables(&catalog, database)
        );
        for table in ["orders", "staff", "none"] {
            assert_eq!(
                list_columns_of_shard(data, database, table).unwrap(),
                list_columns(&catalog, database, table)
            );
        }
    }
}

#[test]
fn the_sales_file_answers_each_shape_of_query() {
    let data = b"database_name,table_name,column_name\n\
sales,orders,id\n\
sales,orders,total\n\
sales,customers,name\n";
    let catalog = load_all(data).unwrap();
    assert_eq!(answer(&catalog, &Request::Databases), owned(&["sales"]));
    assert_eq!(answer(&catalog, &Request::Tables(owned(&["sales"]))), owned(&["orders,customers"]));
    assert_eq!(
        answer(&catalog, &Request::Columns(pairs(&[("sales", "orders")]))),
        owned(&["id,total"])
    );
    assert_eq!(
        answer(&catalog, &Request::Columns(pairs(&[("sales", "missing")]))),
        owned(&["Table missing not found in database sales."])
    );
}

#[test]
fn loading_then_listing_names_each_database_once() {
    let data = b"database_name,table_name,column_name\n\
sales,orders,id\n\
hr,staff,name\n\
sales,orders,id\n\
 sales ,customers,name\n\
hr,staff,since\n";
    assert_eq!(list_databases(&load_all(data).unwrap()), "sales,hr");
}

#[test]
fn loading_then_asking_keeps_the_order_of_the_source() {
    let data = b"sales,orders,total\nhr,staff,name\nsales,orders,id\nsales,orders, total\n";
    let catalog = load_database(data).unwrap();
    assert_eq!(list_columns(&catalog, "sales", "orders"), "total,id,total");
    assert_eq!(list_columns(&catalog, "hr", "staff"), "name");
}
