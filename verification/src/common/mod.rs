pub mod config;
pub mod error;
pub mod metric;
pub mod types;
