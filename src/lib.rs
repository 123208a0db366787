//! Splits a rendered theory document into uniquely named snippets.
pub mod files;
pub mod ident;
pub mod laws;
pub mod lines;
pub mod scan;
pub mod snippets;
pub mod text;

pub use snippets::extract_snippets;
