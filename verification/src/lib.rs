//! HTTP-to-warehouse ETL engine: extract JSON records from paginated REST
//! APIs, transform them through SQL, and load them into relational tables.
//!
//! The crate holds the engine's logic: pagination planning and stop rules,
//! retry decisions, schema inference over JSON records, batching and value
//! coercion, SQL statement building, merge semantics, template and
//! environment-variable substitution, and per-module job preparation.

pub mod batch;
pub mod dates;
pub mod envsub;
pub mod errors;
pub mod fetch;
pub mod json;
pub mod pipeline;
pub mod schema;
pub mod sql;
pub mod strutil;
pub mod template;
pub mod writer;
