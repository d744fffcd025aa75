use autocompletels::catalog::{Catalog, Record};

fn record(database: &str, table: &str, column: &str) -> Record {
    Record {
        database_name: database.to_string(),
        table_name: table.to_string(),
        column_name: column.to_string(),
    }
}

fn owned(parts: &[&str]) -> Vec<String> {
    parts.iter().map(|p| p.to_string()).collect()
}

#[test]
fn a_new_catalog_holds_nothing() {
    let catalog = Catalog::new();
    assert_eq!(catalog.database_names(), owned(&[]));
    assert!(catalog.get("sales").is_none());
}

#[test]
fn insert_files_a_column_under_its_table_and_database() {
    let mut catalog = Catalog::new();
    catalog.insert(record("sales", "orders", "id"));
    assert_eq!(catalog.database_names(), owned(&["sales"]));
    let sales = catalog.get("sales").unwrap();
    assert_eq!(sales.name(), "sales");
    assert_eq!(sales.table_names(), owned(&["orders"]));
    let orders = sales.get("orders").unwrap();
    assert_eq!(orders.name(), "orders");
    assert_eq!(orders.columns(), &owned(&["id"]));
}

#[test]
fn databases_and_tables_stand_in_order_of_first_appearance() {
    let catalog = Catalog::from_records(vec![
        record("zoo", "pens", "id"),
        record("bank", "loans", "id"),
        record("zoo", "animals", "name"),
        record("bank", "accounts", "iban"),
        record("zoo", "pens", "size"),
        record("attic", "boxes", "label"),
    ]);
    assert_eq!(catalog.database_names(), owned(&["zoo", "bank", "attic"]));
    assert_eq!(catalog.get("zoo").unwrap().table_names(), owned(&["pens", "animals"]));
    assert_eq!(catalog.get("bank").unwrap().table_names(), owned(&["loans", "accounts"]));
    assert_eq!(catalog.get("attic").unwrap().table_names(), owned(&["boxes"]));
}

#[test]
fn columns_stand_in_source_order_with_their_repeats() {
    let catalog = Catalog::from_records(vec![
        record("sales", "orders", "total"),
        record("sales", "customers", "name"),
        record("sales", "orders", "id"),
        record("sales", "orders", "total"),
        record("hr", "orders", "by"),
    ]);
    let sales = catalog.get("sales").unwrap();
    assert_eq!(sales.get("orders").unwrap().columns(), &owned(&["total", "id", "total"]));
    assert_eq!(sales.get("customers").unwrap().columns(), &owned(&["name"]));
    assert_eq!(catalog.get("hr").unwrap().get("orders").unwrap().columns(), &owned(&["by"]));
}

#[test]
fn a_repeated_row_repeats_the_column_only() {
    let catalog = Catalog::from_records(vec![
        record("sales", "orders", "id"),
        record("sales", "orders", "id"),
    ]);
    assert_eq!(catalog.database_names(), owned(&["sales"]));
    let sales = catalog.get("sales").unwrap();
    assert_eq!(sales.table_names(), owned(&["orders"]));
    assert_eq!(sales.get("orders").unwrap().columns(), &owned(&["id", "id"]));
}

#[test]
fn lookups_match_the_whole_name_and_its_case() {
    let catalog = Catalog::from_records(vec![record("sales", "orders", "id")]);
    assert!(catalog.get("Sales").is_none());
    assert!(catalog.get("sale").is_none());
    assert!(catalog.get("sales ").is_none());
    assert!(catalog.get("").is_none());
    let sales = catalog.get("sales").unwrap();
    assert!(sales.get("ORDERS").is_none());
    assert!(sales.get("order").is_none());
    assert!(sales.get("orders").is_some());
}

#[test]
fn names_are_kept_as_given_by_insert() {
    let mut catalog = Catalog::new();
    catalog.insert(record(" sales", "", "id "));
    assert_eq!(catalog.database_names(), owned(&[" sales"]));
    let found = catalog.get(" sales").unwrap();
    assert_eq!(found.table_names(), owned(&[""]));
    assert_eq!(found.get("").unwrap().columns(), &owned(&["id "]));
}

#[test]
fn from_records_inserts_one_by_one() {
    let records = vec![
        record("a", "t", "x"),
        record("b", "t", "y"),
        record("a", "u", "z"),
        record("a", "t", "w"),
    ];
    let mut step_by_step = Catalog::new();
    for r in records.iter() {
        step_by_step.insert(r.clone());
    }
    assert_eq!(Catalog::from_records(records), step_by_step);
}

#[test]
fn no_records_give_the_empty_catalog() {
    assert_eq!(Catalog::from_records(vec![]), Catalog::new());
}

#[test]
fn a_cloned_record_equals_its_source() {
    let source = record("sales", "orders", "id");
    assert_eq!(source.clone(), source);
}
