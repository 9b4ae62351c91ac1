//! A small line-oriented text search: resolve a query, a file name and a
//! case mode from command-line arguments, then keep the lines of a text that
//! contain the query.

pub mod config;
pub mod line_filter;

pub use config::Config;
pub use line_filter::search;
