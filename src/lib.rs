//! Random quotations from fortune files, with a crash-safe cache of the
//! last quotation served from each file.
pub mod text;
pub mod loader;
pub mod store;
pub mod utils;
pub mod config;
pub mod log;
pub mod fortune;
pub mod format_facts;
pub mod store_update;
