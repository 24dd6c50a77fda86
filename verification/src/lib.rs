//! Tabular processing of comma-separated text.
//!
//! A file is a header row followed by data rows of any width. The library
//! resolves column references against the header and offers four operations
//! on the rows: a numbered listing, descriptive statistics, a
//! case-insensitive search in one column, and the projection of chosen
//! columns into new comma-separated text.
//!
//! Reading and writing the comma-separated dialect is left to the `csv`
//! crate, and lower-casing to the standard library. Everything around them
//! is verified.

pub mod codec;
pub mod column;
pub mod error;
pub mod listing;
pub mod projection;
pub mod search;
pub mod stats;
pub mod table;
pub mod text;
