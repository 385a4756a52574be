//! A small line-oriented text search library: split a text into lines, keep
//! the lines that contain a query (exactly or after lowercasing), and locate
//! and render the matched span of each such line.

pub mod bytes;
pub mod lines;
pub mod fold;
pub mod matcher;
pub mod reporter;
pub mod config;
pub mod laws;

pub use config::Config;
pub use matcher::{search, MatchingLine};
pub use reporter::{compose_line, parse_string, render_match, split_span};
