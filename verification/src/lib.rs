//! Lookup over a catalog of database, table and column names, serving
//! editor autocompletion: load the catalog from CSV, index it, and answer
//! "which databases", "which tables of these databases" and "which columns
//! of these tables" as comma-joined text.

pub mod catalog;
pub mod loader;
pub mod model;
pub mod request;
pub mod resolver;
pub mod sequences;
pub mod text;
