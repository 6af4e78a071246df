//! Localization tables and documents.
//!
//! A table has a key column and one column per language. It is read from
//! CSV text or taken from the sheet of a workbook, checked, and turned into
//! one document per language, flat or nested. The other way round, the documents of several
//! languages are flattened and merged into one table.

pub mod error;
pub mod export;
pub mod guarantees;
pub mod json;
pub mod lang_codes;
pub mod parser;
pub mod paths;
pub mod round_trip;
pub mod text;
pub mod transform;
pub mod types;
pub mod value;
