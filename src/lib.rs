//! Turns a directory of per-language JSON string tables into the cell layout
//! of a single spreadsheet: one column per language, one row per key.

pub mod json;
pub mod text;
pub mod loader;
pub mod layout;
pub mod session;
