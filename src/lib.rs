//! Import, summary and export of alternate-name records, with the
//! configuration checks that precede a run.

pub mod text;
pub mod config;
pub mod record;
pub mod store;
pub mod import;
pub mod summary;
pub mod export;
pub mod schema;
