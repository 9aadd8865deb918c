//! Staging, validation and import of tabular records bound for a
//! schema-governed document store.
//!
//! Uploaded records are split into staging tables (`staged`, `sql`), read
//! back a page at a time (`page`, `value`), checked against the store's
//! identifiers and unique fields (`validate`), committed (`import`) and
//! exported as CSV (`export`).

pub mod defaults;
pub mod export;
pub mod import;
pub mod json;
pub mod models;
pub mod numtext;
pub mod page;
pub mod record;
pub mod registry;
pub mod schema;
pub mod sql;
pub mod staged;
pub mod text;
pub mod validate;
pub mod value;
