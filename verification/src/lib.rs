//! Line filtering: find the lines of a text that contain a pattern, as it stands or
//! whatever the case.
//!
//! [`Config::new`] reads a command line into a [`Config`], which holds a [`Query`] and a
//! file name. [`search`] returns the lines of a text that a query selects. What these
//! functions return is stated over sequences of characters: `lines::lines_of` says what
//! the lines of a text are, `substring::has_substring` what it means to contain a
//! pattern, and `search::matching_lines` what a search returns.

pub mod case;
pub mod config;
pub mod encoding;
pub mod filter;
pub mod lines;
pub mod query;
pub mod search;
pub mod substring;

pub use crate::config::{Config, ConfigParsingError};
pub use crate::query::Query;
pub use crate::search::search;
