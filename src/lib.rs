//! Line search over text: find every line that holds a query, with or
//! without regard to case.
pub mod config;
pub mod laws;
pub mod search;

pub use config::{Config, ConfigError};
pub use search::{contains_chars, search, search_case_insensitive};
