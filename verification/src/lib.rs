//! Data-editing core of a tabular browser/editor for embedded single-file
//! SQL databases.
//!
//! The crate models a database's schema, maps declared column types to
//! editable value kinds, validates cell input, tracks a staged-edit overlay
//! over materialized pages, detects commit conflicts, and drives paginated
//! query execution with cancellation.  All engine I/O is performed by the
//! host; this crate holds the decisions and the data, with contracts.

pub mod value;
pub mod mapper;
pub mod editors;
pub mod schema;
pub mod model;
pub mod commit;
pub mod query;
pub mod sql;
