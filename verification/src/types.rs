//! The plain data that goes into and comes out of parsing a table.

use vstd::prelude::*;
use vstd::hash_map::StringHashMap;
use crate::text::{owned, texts};
use crate::value::{Entries, JsonMap};

verus! {

/// What the header row of a table says.
pub struct HeaderInfo {
    /// Whether the first column is the key column.
    pub has_valid_key_column: bool,
    /// The language codes, canonically spelled, in column order.
    pub languages: Vec<String>,
    /// For each language code the position of its column; the key column
    /// has position 0.
    pub language_indices: StringHashMap<usize>,
}

impl HeaderInfo {
    /// A header of which nothing is known yet.
    pub fn new() -> (r: Self)
        ensures
            !r.has_valid_key_column,
            r.languages@.len() == 0,
            r.language_indices@ == Map::<Seq<char>, usize>::empty(),
    {
        HeaderInfo {
            has_valid_key_column: false,
            languages: Vec::new(),
            language_indices: StringHashMap::new(),
        }
    }
}

impl Default for HeaderInfo {
    fn default() -> (r: Self)
        ensures
            !r.has_valid_key_column,
            r.languages@.len() == 0,
            r.language_indices@ == Map::<Seq<char>, usize>::empty(),
    {
        HeaderInfo::new()
    }
}

/// The format in which a result is to be written.
#[derive(Debug, Clone, Copy, PartialEq, Eq, Structural)]
pub enum OutputFormat {
    Json,
    Yaml,
    I18n,
}

/// How a table is to be parsed.
#[derive(Debug, Clone)]
pub struct ParseOptions {
    /// The key separator: `.`, `/` or `-`.
    pub separator: String,
    /// Whether keys are split at the separator into nested objects.
    pub nested: bool,
    /// The format in which the result is to be written.
    pub output_format: OutputFormat,
    /// Whether escape sequences in cells are decoded.
    pub process_escapes: bool,
}

impl Default for ParseOptions {
    fn default() -> (r: Self)
        ensures
            r.separator@ == "."@,
            r.nested,
            r.output_format == OutputFormat::Json,
            r.process_escapes,
    {
        ParseOptions {
            separator: owned("."),
            nested: true,
            output_format: OutputFormat::Json,
            process_escapes: true,
        }
    }
}

/// The character that separates the segments of a key: the first character
/// of the configured separator, or `.` where none is configured.
pub open spec fn separator_char(separator: Seq<char>) -> char {
    if separator.len() > 0 {
        separator[0]
    } else {
        '.'
    }
}

/// For each language the document made of its column.
pub type LocaleData = JsonMap;

/// What parsing a table gives.
#[derive(Debug, Clone)]
pub struct ParseResult {
    /// The languages of the header, in column order.
    pub languages: Vec<String>,
    /// For each language an object with its translations.
    pub data: LocaleData,
    /// The number of data rows read, whatever they hold.
    pub row_count: usize,
}

/// A `ParseResult` as a mathematical value.
pub struct ResultView {
    pub languages: Seq<Seq<char>>,
    pub data: Entries,
    pub row_count: nat,
}

impl View for ParseResult {
    type V = ResultView;

    open spec fn view(&self) -> ResultView {
        ResultView {
            languages: texts(self.languages@),
            data: self.data@,
            row_count: self.row_count as nat,
        }
    }
}

} // verus!
