//! Keeps a standard comment header (such as a license notice) at the top of
//! source files, adapting the comment syntax to each file's language.

pub mod config;
pub mod engine;
pub mod exclude;
pub mod header;
pub mod laws;
pub mod style;
pub mod text;
pub mod walk;
