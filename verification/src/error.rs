//! The error value shared by every component: a kind, a message, an
//! optional location and an optional suggestion.
//!
//! Rows are stored 0-based (row 0 is the header) and shown 1-based.

use vstd::prelude::*;
use vstd::string::StringExecFns;
use crate::json::{json_text, write_json};
use crate::text::{
    decimal, decimal_string, join_strings, join_with, owned, sort_dedup_chars, sorted_distinct,
    texts,
};
use crate::value::{upsert, Entries, JsonMap, JsonValue, Tree};

verus! {

/// The result of every fallible operation of this crate.
pub type Result<T> = core::result::Result<T, ParseError>;

/// What went wrong.
#[derive(Debug, Clone, Copy, PartialEq, Eq, Structural)]
pub enum ErrorKind {
    EmptyData,
    InvalidKeyColumn,
    NoLanguageColumns,
    MixedSeparators,
    CsvParseError,
    Utf8Error,
    ExcelOpenError,
    EmptyWorkbook,
    EmptySheet,
    WorksheetReadError,
    DuplicateKey,
    InvalidKeyFormat,
    MissingTranslation,
    ColumnCountMismatch,
    NestedKeyConflict,
    JsonParseError,
    JsonSerializeError,
    YamlSerializeError,
    IoError,
    Unknown,
}

/// Where an error was found.
#[derive(Debug, Clone)]
pub struct ErrorLocation {
    /// Row number, 0-based; 0 is the header.
    pub row: Option<usize>,
    /// Column number, 1-based.
    pub column: Option<usize>,
    /// Column name (a language code, or `key`).
    pub column_name: Option<String>,
    /// Translation key.
    pub key: Option<String>,
}

/// An error with its context.
#[derive(Debug, Clone)]
pub struct ParseError {
    pub kind: ErrorKind,
    pub message: String,
    pub location: Option<ErrorLocation>,
    pub suggestion: Option<String>,
}

/// An `ErrorLocation` with its strings as character sequences.
pub struct LocationView {
    pub row: Option<usize>,
    pub column: Option<usize>,
    pub column_name: Option<Seq<char>>,
    pub key: Option<Seq<char>>,
}

/// A `ParseError` with its strings as character sequences.
pub struct ErrorView {
    pub kind: ErrorKind,
    pub message: Seq<char>,
    pub location: Option<LocationView>,
    pub suggestion: Option<Seq<char>>,
}

pub open spec fn text_view(s: Option<String>) -> Option<Seq<char>> {
    match s {
        Some(s) => Some(s@),
        None => None,
    }
}

impl View for ErrorLocation {
    type V = LocationView;

    open spec fn view(&self) -> LocationView {
        LocationView {
            row: self.row,
            column: self.column,
            column_name: text_view(self.column_name),
            key: text_view(self.key),
        }
    }
}

pub open spec fn location_view(l: Option<ErrorLocation>) -> Option<LocationView> {
    match l {
        Some(l) => Some(l@),
        None => None,
    }
}

impl View for ParseError {
    type V = ErrorView;

    open spec fn view(&self) -> ErrorView {
        ErrorView {
            kind: self.kind,
            message: self.message@,
            location: location_view(self.location),
            suggestion: text_view(self.suggestion),
        }
    }
}

/// A location that says nothing yet.
pub open spec fn blank_location() -> LocationView {
    LocationView { row: None, column: None, column_name: None, key: None }
}

/// The location of `l`, or a blank one to fill in.
pub open spec fn location_or_blank(l: Option<LocationView>) -> LocationView {
    match l {
        Some(l) => l,
        None => blank_location(),
    }
}

// ---------------------------------------------------------------------------
// Kind names
// ---------------------------------------------------------------------------

/// The upper-snake-case name under which a kind is reported.
pub open spec fn kind_name(kind: ErrorKind) -> Seq<char> {
    match kind {
        ErrorKind::EmptyData => "EMPTY_DATA"@,
        ErrorKind::InvalidKeyColumn => "INVALID_KEY_COLUMN"@,
        ErrorKind::NoLanguageColumns => "NO_LANGUAGE_COLUMNS"@,
        ErrorKind::MixedSeparators => "MIXED_SEPARATORS"@,
        ErrorKind::CsvParseError => "CSV_PARSE_ERROR"@,
        ErrorKind::Utf8Error => "UTF8_ERROR"@,
        ErrorKind::ExcelOpenError => "EXCEL_OPEN_ERROR"@,
        ErrorKind::EmptyWorkbook => "EMPTY_WORKBOOK"@,
        ErrorKind::EmptySheet => "EMPTY_SHEET"@,
        ErrorKind::WorksheetReadError => "WORKSHEET_READ_ERROR"@,
        ErrorKind::DuplicateKey => "DUPLICATE_KEY"@,
        ErrorKind::InvalidKeyFormat => "INVALID_KEY_FORMAT"@,
        ErrorKind::MissingTranslation => "MISSING_TRANSLATION"@,
        ErrorKind::ColumnCountMismatch => "COLUMN_COUNT_MISMATCH"@,
        ErrorKind::NestedKeyConflict => "NESTED_KEY_CONFLICT"@,
        ErrorKind::JsonParseError => "JSON_PARSE_ERROR"@,
        ErrorKind::JsonSerializeError => "JSON_SERIALIZE_ERROR"@,
        ErrorKind::YamlSerializeError => "YAML_SERIALIZE_ERROR"@,
        ErrorKind::IoError => "IO_ERROR"@,
        ErrorKind::Unknown => "UNKNOWN_ERROR"@,
    }
}

impl ErrorKind {
    /// The upper-snake-case name under which this kind is reported.
    pub fn name(&self) -> (r: &'static str)
        ensures
            r@ == kind_name(*self),
    {
        match self {
            ErrorKind::EmptyData => "EMPTY_DATA",
            ErrorKind::InvalidKeyColumn => "INVALID_KEY_COLUMN",
            ErrorKind::NoLanguageColumns => "NO_LANGUAGE_COLUMNS",
            ErrorKind::MixedSeparators => "MIXED_SEPARATORS",
            ErrorKind::CsvParseError => "CSV_PARSE_ERROR",
            ErrorKind::Utf8Error => "UTF8_ERROR",
            ErrorKind::ExcelOpenError => "EXCEL_OPEN_ERROR",
            ErrorKind::EmptyWorkbook => "EMPTY_WORKBOOK",
            ErrorKind::EmptySheet => "EMPTY_SHEET",
            ErrorKind::WorksheetReadError => "WORKSHEET_READ_ERROR",
            ErrorKind::DuplicateKey => "DUPLICATE_KEY",
            ErrorKind::InvalidKeyFormat => "INVALID_KEY_FORMAT",
            ErrorKind::MissingTranslation => "MISSING_TRANSLATION",
            ErrorKind::ColumnCountMismatch => "COLUMN_COUNT_MISMATCH",
            ErrorKind::NestedKeyConflict => "NESTED_KEY_CONFLICT",
            ErrorKind::JsonParseError => "JSON_PARSE_ERROR",
            ErrorKind::JsonSerializeError => "JSON_SERIALIZE_ERROR",
            ErrorKind::YamlSerializeError => "YAML_SERIALIZE_ERROR",
            ErrorKind::IoError => "IO_ERROR",
            ErrorKind::Unknown => "UNKNOWN_ERROR",
        }
    }

    /// The name of this kind, as an owned string.
    pub fn to_string(&self) -> (r: String)
        ensures
            r@ == kind_name(*self),
    {
        owned(self.name())
    }
}

// ---------------------------------------------------------------------------
// Building an error step by step
// ---------------------------------------------------------------------------

impl ParseError {
    /// An error with a kind and a message, and nothing else.
    pub fn new(kind: ErrorKind, message: &str) -> (r: Self)
        ensures
            r@ == (ErrorView { kind, message: message@, location: None, suggestion: None }),
    {
        ParseError { kind, message: owned(message), location: None, suggestion: None }
    }

    /// Replaces the location.
    pub fn with_location(self, location: ErrorLocation) -> (r: Self)
        ensures
            r@ == (ErrorView { location: Some(location@), ..self@ }),
    {
        ParseError {
            kind: self.kind,
            message: self.message,
            location: Some(location),
            suggestion: self.suggestion,
        }
    }

    /// Replaces the suggestion.
    pub fn with_suggestion(self, suggestion: &str) -> (r: Self)
        ensures
            r@ == (ErrorView { suggestion: Some(suggestion@), ..self@ }),
    {
        ParseError {
            kind: self.kind,
            message: self.message,
            location: self.location,
            suggestion: Some(owned(suggestion)),
        }
    }

    /// Sets the row, keeping whatever else the location already says.
    pub fn at_row(self, row: usize) -> (r: Self)
        ensures
            r@ == (ErrorView {
                location: Some(
                    LocationView { row: Some(row), ..location_or_blank(self@.location) },
                ),
                ..self@
            }),
    {
        let location = match self.location {
            Some(l) => ErrorLocation {
                row: Some(row),
                column: l.column,
                column_name: l.column_name,
                key: l.key,
            },
            None => ErrorLocation { row: Some(row), column: None, column_name: None, key: None },
        };
        ParseError {
            kind: self.kind,
            message: self.message,
            location: Some(location),
            suggestion: self.suggestion,
        }
    }

    /// Sets the column and its name, keeping the row and the key.
    pub fn at_column(self, column: usize, name: Option<String>) -> (r: Self)
        ensures
            r@ == (ErrorView {
                location: Some(
                    LocationView {
                        column: Some(column),
                        column_name: text_view(name),
                        ..location_or_blank(self@.location)
                    },
                ),
                ..self@
            }),
    {
        let location = match self.location {
            Some(l) => ErrorLocation {
                row: l.row,
                column: Some(column),
                column_name: name,
                key: l.key,
            },
            None => ErrorLocation { row: None, column: Some(column), column_name: name, key: None },
        };
        ParseError {
            kind: self.kind,
            message: self.message,
            location: Some(location),
            suggestion: self.suggestion,
        }
    }

    /// Sets the key, keeping whatever else the location already says.
    pub fn with_key(self, key: &str) -> (r: Self)
        ensures
            r@ == (ErrorView {
                location: Some(
                    LocationView { key: Some(key@), ..location_or_blank(self@.location) },
                ),
                ..self@
            }),
    {
        let location = match self.location {
            Some(l) => ErrorLocation {
                row: l.row,
                column: l.column,
                column_name: l.column_name,
                key: Some(owned(key)),
            },
            None => ErrorLocation {
                row: None,
                column: None,
                column_name: None,
                key: Some(owned(key)),
            },
        };
        ParseError {
            kind: self.kind,
            message: self.message,
            location: Some(location),
            suggestion: self.suggestion,
        }
    }
}

// ---------------------------------------------------------------------------
// The errors of this crate, as values
// ---------------------------------------------------------------------------

pub open spec fn empty_data_error() -> ErrorView {
    ErrorView {
        kind: ErrorKind::EmptyData,
        message: "The input data is empty"@,
        location: None,
        suggestion: Some(
            "Provide a CSV or Excel file with at least a header row and one data row"@,
        ),
    }
}

pub open spec fn invalid_key_column_error(found: Seq<char>) -> ErrorView {
    ErrorView {
        kind: ErrorKind::InvalidKeyColumn,
        message: "Invalid header: first column must be 'key', but found '"@ + found + "'"@,
        location: Some(
            LocationView { row: Some(0), column: Some(1), column_name: Some(found), key: None },
        ),
        suggestion: Some("Rename the first column to 'key' (case-insensitive)"@),
    }
}

pub open spec fn no_language_columns_error() -> ErrorView {
    ErrorView {
        kind: ErrorKind::NoLanguageColumns,
        message: "No language columns found in header"@,
        location: Some(LocationView { row: Some(0), ..blank_location() }),
        suggestion: Some("Add language columns after 'key' column (e.g., 'en', 'ko', 'ja')"@),
    }
}

/// ` (row N)`, or nothing where no row is known.
pub open spec fn row_note(row: Option<usize>) -> Seq<char> {
    match row {
        Some(r) => " (row "@ + decimal(r as nat) + ")"@,
        None => Seq::<char>::empty(),
    }
}

/// Each character as a text of its own.
pub open spec fn singletons(s: Seq<char>) -> Seq<Seq<char>> {
    Seq::new(s.len(), |i: int| seq![s[i]])
}

/// The separators found are listed once each, in increasing order.
pub open spec fn mixed_separators_error(
    found: Seq<char>,
    expected: Seq<char>,
    row: Option<usize>,
) -> ErrorView {
    ErrorView {
        kind: ErrorKind::MixedSeparators,
        message: "Mixed key separators found: expected '"@ + expected + "', but found: "@
            + join_with(singletons(sorted_distinct(found)), ", "@) + row_note(row),
        location: Some(
            LocationView { row, column: Some(1), column_name: Some("key"@), key: None },
        ),
        suggestion: Some("Use a single separator consistently ('.', '/', or '-')"@),
    }
}

pub open spec fn column_count_mismatch_error(row: usize, expected: usize, found: usize) -> ErrorView {
    ErrorView {
        kind: ErrorKind::ColumnCountMismatch,
        message: "Column count mismatch: expected "@ + decimal(expected as nat)
            + " columns (from header), but found "@ + decimal(found as nat) + " (row "@ + decimal(
            row as nat,
        ) + ")"@,
        location: Some(LocationView { row: Some(row), ..blank_location() }),
        suggestion: Some("Ensure each row has the same number of columns as the header"@),
    }
}

/// What a failure of the CSV reader becomes, given the reader's own text
/// for it and the line it names, if any.
pub open spec fn csv_failure_error(text: Seq<char>, line: Option<usize>) -> ErrorView {
    ErrorView {
        kind: ErrorKind::CsvParseError,
        message: "CSV parsing error: "@ + text + row_note(line),
        location: match line {
            Some(r) => Some(LocationView { row: Some(r), ..blank_location() }),
            None => None,
        },
        suggestion: Some(
            "Check for unescaped quotes, mismatched columns, or invalid CSV format"@,
        ),
    }
}

pub open spec fn utf8_error_at(valid_up_to: usize) -> ErrorView {
    ErrorView {
        kind: ErrorKind::Utf8Error,
        message: "Invalid UTF-8 encoding at byte "@ + decimal(valid_up_to as nat),
        location: None,
        suggestion: Some("Ensure the file is saved with UTF-8 encoding"@),
    }
}

pub open spec fn excel_open_error_of(details: Seq<char>) -> ErrorView {
    ErrorView {
        kind: ErrorKind::ExcelOpenError,
        message: "Failed to open Excel file: "@ + details,
        location: None,
        suggestion: Some(
            "Ensure the file is a valid .xlsx or .xls file and is not corrupted"@,
        ),
    }
}

pub open spec fn empty_workbook_error() -> ErrorView {
    ErrorView {
        kind: ErrorKind::EmptyWorkbook,
        message: "Excel workbook has no sheets"@,
        location: None,
        suggestion: Some("Add at least one sheet with translation data"@),
    }
}

pub open spec fn empty_sheet_error() -> ErrorView {
    ErrorView {
        kind: ErrorKind::EmptySheet,
        message: "Excel sheet is empty"@,
        location: None,
        suggestion: Some("Add header row and data rows to the sheet"@),
    }
}

pub open spec fn worksheet_read_error_of(sheet_name: Seq<char>, details: Seq<char>) -> ErrorView {
    ErrorView {
        kind: ErrorKind::WorksheetReadError,
        message: "Failed to read worksheet '"@ + sheet_name + "': "@ + details,
        location: None,
        suggestion: None,
    }
}

pub open spec fn duplicate_key_error(key: Seq<char>, first_row: usize, duplicate_row: usize) -> ErrorView {
    ErrorView {
        kind: ErrorKind::DuplicateKey,
        message: "Duplicate key '"@ + key + "' found at row "@ + decimal(duplicate_row as nat)
            + " (first occurrence at row "@ + decimal(first_row as nat) + ")"@,
        location: Some(LocationView { row: Some(duplicate_row), key: Some(key), ..blank_location() }),
        suggestion: Some("Remove or rename the duplicate key"@),
    }
}

pub open spec fn invalid_key_format_error(key: Seq<char>, row: usize, reason: Seq<char>) -> ErrorView {
    ErrorView {
        kind: ErrorKind::InvalidKeyFormat,
        message: "Invalid key '"@ + key + "' at row "@ + decimal(row as nat) + ": "@ + reason,
        location: Some(LocationView { row: Some(row), key: Some(key), ..blank_location() }),
        suggestion: None,
    }
}

pub open spec fn missing_translation_error(key: Seq<char>, language: Seq<char>, row: usize) -> ErrorView {
    ErrorView {
        kind: ErrorKind::MissingTranslation,
        message: "Missing translation for key '"@ + key + "' in language '"@ + language
            + "' at row "@ + decimal(row as nat),
        location: Some(
            LocationView {
                row: Some(row),
                column: Some(0),
                column_name: Some(language),
                key: Some(key),
            },
        ),
        suggestion: None,
    }
}

pub open spec fn nested_key_conflict_error(key1: Seq<char>, key2: Seq<char>) -> ErrorView {
    ErrorView {
        kind: ErrorKind::NestedKeyConflict,
        message: "Nested key conflict: '"@ + key1 + "' and '"@ + key2
            + "' cannot coexist (one is a prefix of the other)"@,
        location: None,
        suggestion: Some("Rename one of the keys to avoid the conflict"@),
    }
}

/// A document that is not JSON, or whose root is no object; `language`
/// names the input it came with.
pub open spec fn json_parse_error_of(language: Seq<char>, details: Seq<char>) -> ErrorView {
    ErrorView {
        kind: ErrorKind::JsonParseError,
        message: "Failed to parse JSON for language '"@ + language + "': "@ + details,
        location: None,
        suggestion: Some("Ensure the content is a valid JSON object"@),
    }
}

pub open spec fn json_serialize_error_of(details: Seq<char>) -> ErrorView {
    ErrorView {
        kind: ErrorKind::JsonSerializeError,
        message: "Failed to serialize to JSON: "@ + details,
        location: None,
        suggestion: None,
    }
}

pub open spec fn yaml_serialize_error_of(details: Seq<char>) -> ErrorView {
    ErrorView {
        kind: ErrorKind::YamlSerializeError,
        message: "Failed to serialize to YAML: "@ + details,
        location: None,
        suggestion: None,
    }
}

pub open spec fn io_error_of(details: Seq<char>) -> ErrorView {
    ErrorView {
        kind: ErrorKind::IoError,
        message: "IO error: "@ + details,
        location: None,
        suggestion: None,
    }
}

/// Appends ` (row N)` where a row is given.
fn push_row_note(msg: &mut String, row: Option<usize>)
    ensures
        final(msg)@ == old(msg)@ + row_note(row),
{
    match row {
        Some(r) => {
            let ghost before = msg@;
            msg.append(" (row ");
            msg.append(decimal_string(r as u128).as_str());
            msg.append(")");
            assert(msg@ =~= before + (" (row "@ + decimal(r as nat) + ")"@));
        },
        None => {
            assert(msg@ + Seq::<char>::empty() =~= msg@);
        },
    }
}

impl ParseError {
    /// There was no header row.
    pub fn empty_data() -> (r: Self)
        ensures
            r@ == empty_data_error(),
    {
        ParseError::new(ErrorKind::EmptyData, "The input data is empty").with_suggestion(
            "Provide a CSV or Excel file with at least a header row and one data row",
        )
    }

    /// The first column is not the key column; `found` is what stands there.
    pub fn invalid_key_column(found: &str) -> (r: Self)
        ensures
            r@ == invalid_key_column_error(found@),
    {
        let mut msg = owned("Invalid header: first column must be 'key', but found '");
        msg.append(found);
        msg.append("'");
        ParseError::new(ErrorKind::InvalidKeyColumn, msg.as_str()).with_location(
            ErrorLocation {
                row: Some(0),
                column: Some(1),
                column_name: Some(owned(found)),
                key: None,
            },
        ).with_suggestion("Rename the first column to 'key' (case-insensitive)")
    }

    /// The header names no language.
    pub fn no_language_columns() -> (r: Self)
        ensures
            r@ == no_language_columns_error(),
    {
        ParseError::new(ErrorKind::NoLanguageColumns, "No language columns found in header").at_row(
            0,
        ).with_suggestion("Add language columns after 'key' column (e.g., 'en', 'ko', 'ja')")
    }

    /// Keys use separators other than the expected one; `row` is the first
    /// row that does.
    pub fn mixed_separators(found: Vec<char>, expected: &str, row: Option<usize>) -> (r: Self)
        ensures
            r@ == mixed_separators_error(found@, expected@, row),
    {
        let distinct = sort_dedup_chars(&found);
        let mut names: Vec<String> = Vec::new();
        let mut i: usize = 0;
        while i < distinct.len()
            invariant
                i <= distinct.len(),
                names@.len() == i,
                forall|k: int| 0 <= k < i ==> (#[trigger] names@[k])@ == seq![distinct@[k]],
            decreases distinct.len() - i,
        {
            let mut one = String::new();
            one.push(distinct[i]);
            assert(one@ =~= seq![distinct@[i as int]]);
            names.push(one);
            i = i + 1;
        }
        assert(texts(names@) =~= singletons(distinct@));
        let mut msg = owned("Mixed key separators found: expected '");
        msg.append(expected);
        msg.append("', but found: ");
        msg.append(join_strings(&names, ", ").as_str());
        push_row_note(&mut msg, row);
        ParseError::new(ErrorKind::MixedSeparators, msg.as_str()).with_suggestion(
            "Use a single separator consistently ('.', '/', or '-')",
        ).with_location(
            ErrorLocation { row, column: Some(1), column_name: Some(owned("key")), key: None },
        )
    }

    /// A row has another number of columns than the header; `row` counts
    /// from 1 with the header included.
    pub fn column_count_mismatch(row: usize, expected: usize, found: usize) -> (r: Self)
        ensures
            r@ == column_count_mismatch_error(row, expected, found),
    {
        let mut msg = owned("Column count mismatch: expected ");
        msg.append(decimal_string(expected as u128).as_str());
        msg.append(" columns (from header), but found ");
        msg.append(decimal_string(found as u128).as_str());
        msg.append(" (row ");
        msg.append(decimal_string(row as u128).as_str());
        msg.append(")");
        ParseError::new(ErrorKind::ColumnCountMismatch, msg.as_str()).with_location(
            ErrorLocation { row: Some(row), column: None, column_name: None, key: None },
        ).with_suggestion("Ensure each row has the same number of columns as the header")
    }

    /// What a failure of the CSV reader becomes: `text` is the reader's own
    /// description, `line` the line it names.
    pub fn csv_failure(text: &str, line: Option<usize>) -> (r: Self)
        ensures
            r@ == csv_failure_error(text@, line),
    {
        let mut msg = owned("CSV parsing error: ");
        msg.append(text);
        push_row_note(&mut msg, line);
        let error = ParseError::new(ErrorKind::CsvParseError, msg.as_str()).with_suggestion(
            "Check for unescaped quotes, mismatched columns, or invalid CSV format",
        );
        match line {
            Some(r) => error.with_location(
                ErrorLocation { row: Some(r), column: None, column_name: None, key: None },
            ),
            None => error,
        }
    }

    /// Bytes that are not UTF-8 from offset `valid_up_to` on.
    pub fn utf8_failure(valid_up_to: usize) -> (r: Self)
        ensures
            r@ == utf8_error_at(valid_up_to),
    {
        let mut msg = owned("Invalid UTF-8 encoding at byte ");
        msg.append(decimal_string(valid_up_to as u128).as_str());
        ParseError::new(ErrorKind::Utf8Error, msg.as_str()).with_suggestion(
            "Ensure the file is saved with UTF-8 encoding",
        )
    }

    /// The bytes are no workbook that can be opened.
    pub fn excel_open_error(details: &str) -> (r: Self)
        ensures
            r@ == excel_open_error_of(details@),
    {
        let mut msg = owned("Failed to open Excel file: ");
        msg.append(details);
        ParseError::new(ErrorKind::ExcelOpenError, msg.as_str()).with_suggestion(
            "Ensure the file is a valid .xlsx or .xls file and is not corrupted",
        )
    }

    /// The workbook has no sheet.
    pub fn empty_workbook() -> (r: Self)
        ensures
            r@ == empty_workbook_error(),
    {
        ParseError::new(ErrorKind::EmptyWorkbook, "Excel workbook has no sheets").with_suggestion(
            "Add at least one sheet with translation data",
        )
    }

    /// The sheet has no row.
    pub fn empty_sheet() -> (r: Self)
        ensures
            r@ == empty_sheet_error(),
    {
        ParseError::new(ErrorKind::EmptySheet, "Excel sheet is empty").with_suggestion(
            "Add header row and data rows to the sheet",
        )
    }

    /// A sheet could not be read.
    pub fn worksheet_read_error(sheet_name: &str, details: &str) -> (r: Self)
        ensures
            r@ == worksheet_read_error_of(sheet_name@, details@),
    {
        let mut msg = owned("Failed to read worksheet '");
        msg.append(sheet_name);
        msg.append("': ");
        msg.append(details);
        ParseError::new(ErrorKind::WorksheetReadError, msg.as_str())
    }

    /// A key stands in two rows.
    pub fn duplicate_key(key: &str, first_row: usize, duplicate_row: usize) -> (r: Self)
        ensures
            r@ == duplicate_key_error(key@, first_row, duplicate_row),
    {
        let mut msg = owned("Duplicate key '");
        msg.append(key);
        msg.append("' found at row ");
        msg.append(decimal_string(duplicate_row as u128).as_str());
        msg.append(" (first occurrence at row ");
        msg.append(decimal_string(first_row as u128).as_str());
        msg.append(")");
        ParseError::new(ErrorKind::DuplicateKey, msg.as_str()).with_key(key).at_row(
            duplicate_row,
        ).with_suggestion("Remove or rename the duplicate key")
    }

    /// A key is not well formed.
    pub fn invalid_key_format(key: &str, row: usize, reason: &str) -> (r: Self)
        ensures
            r@ == invalid_key_format_error(key@, row, reason@),
    {
        let mut msg = owned("Invalid key '");
        msg.append(key);
        msg.append("' at row ");
        msg.append(decimal_string(row as u128).as_str());
        msg.append(": ");
        msg.append(reason);
        ParseError::new(ErrorKind::InvalidKeyFormat, msg.as_str()).with_key(key).at_row(row)
    }

    /// A key has no text in one language.
    pub fn missing_translation(key: &str, language: &str, row: usize) -> (r: Self)
        ensures
            r@ == missing_translation_error(key@, language@, row),
    {
        let mut msg = owned("Missing translation for key '");
        msg.append(key);
        msg.append("' in language '");
        msg.append(language);
        msg.append("' at row ");
        msg.append(decimal_string(row as u128).as_str());
        ParseError::new(ErrorKind::MissingTranslation, msg.as_str()).with_key(key).at_row(
            row,
        ).at_column(0, Some(owned(language)))
    }

    /// One key would be a leaf and a branch at once.
    pub fn nested_key_conflict(key1: &str, key2: &str) -> (r: Self)
        ensures
            r@ == nested_key_conflict_error(key1@, key2@),
    {
        let mut msg = owned("Nested key conflict: '");
        msg.append(key1);
        msg.append("' and '");
        msg.append(key2);
        msg.append("' cannot coexist (one is a prefix of the other)");
        ParseError::new(ErrorKind::NestedKeyConflict, msg.as_str()).with_suggestion(
            "Rename one of the keys to avoid the conflict",
        )
    }

    /// The document given for `language` is not JSON, or its root is no
    /// object; `details` says why.
    pub fn json_parse_failure(language: &str, details: &str) -> (r: Self)
        ensures
            r@ == json_parse_error_of(language@, details@),
    {
        let mut msg = owned("Failed to parse JSON for language '");
        msg.append(language);
        msg.append("': ");
        msg.append(details);
        ParseError::new(ErrorKind::JsonParseError, msg.as_str()).with_suggestion(
            "Ensure the content is a valid JSON object",
        )
    }

    /// A value could not be written as JSON.
    pub fn json_serialize_failure(details: &str) -> (r: Self)
        ensures
            r@ == json_serialize_error_of(details@),
    {
        let mut msg = owned("Failed to serialize to JSON: ");
        msg.append(details);
        ParseError::new(ErrorKind::JsonSerializeError, msg.as_str())
    }

    /// A value could not be written as YAML.
    pub fn yaml_serialize_failure(details: &str) -> (r: Self)
        ensures
            r@ == yaml_serialize_error_of(details@),
    {
        let mut msg = owned("Failed to serialize to YAML: ");
        msg.append(details);
        ParseError::new(ErrorKind::YamlSerializeError, msg.as_str())
    }

    /// Reading or writing failed.
    pub fn io_failure(details: &str) -> (r: Self)
        ensures
            r@ == io_error_of(details@),
    {
        let mut msg = owned("IO error: ");
        msg.append(details);
        ParseError::new(ErrorKind::IoError, msg.as_str())
    }
}

// ---------------------------------------------------------------------------
// Failures reported by the readers and writers this crate relies on
// ---------------------------------------------------------------------------

/// The error of the CSV reader; nothing is known of its inside.
#[verifier::external_type_specification]
#[verifier::external_body]
pub struct ExCsvError(csv::Error);

/// The error of the JSON reader and writer; nothing is known of its inside.
#[verifier::external_type_specification]
#[verifier::external_body]
pub struct ExJsonError(serde_json::Error);

/// The error of the YAML writer; nothing is known of its inside.
#[verifier::external_type_specification]
#[verifier::external_body]
pub struct ExYamlError(serde_yaml::Error);

/// The error of the workbook reader; nothing is known of its inside.
#[verifier::external_type_specification]
#[verifier::external_body]
pub struct ExWorkbookError(calamine::Error);

/// The input/output error of the standard library; nothing is known of its
/// inside.
#[verifier::external_type_specification]
#[verifier::external_body]
pub struct ExIoError(std::io::Error);

/// The UTF-8 decoding error of the standard library; nothing is known of
/// its inside.
#[verifier::external_type_specification]
#[verifier::external_body]
pub struct ExUtf8Error(core::str::Utf8Error);

/// `Utf8Error::valid_up_to` gives a byte offset; nothing is claimed of it.
pub assume_specification[ core::str::Utf8Error::valid_up_to ](err: &core::str::Utf8Error) -> usize
;

/// The line that `csv::Error::position` names, if the error has a position;
/// nothing is claimed of it.
#[verifier::external_body]
fn csv_error_line(err: &csv::Error) -> Option<usize> {
    err.position().map(|p| p.line() as usize)
}

impl ParseError {
    /// A failure of the CSV reader, with the reader's own description and,
    /// where the reader names a line, that line as the row.
    pub fn csv_parse_error(err: &csv::Error) -> (r: Self)
        ensures
            exists|text: Seq<char>, line: Option<usize>| r@ == csv_failure_error(text, line),
    {
        let text = err.to_string();
        let line = csv_error_line(err);
        ParseError::csv_failure(text.as_str(), line)
    }

    /// Bytes that are not UTF-8, with the offset up to which they are.
    pub fn utf8_error(err: &core::str::Utf8Error) -> (r: Self)
        ensures
            exists|valid_up_to: usize| r@ == utf8_error_at(valid_up_to),
    {
        ParseError::utf8_failure(err.valid_up_to())
    }

    /// A failure of the JSON writer, with the writer's own description.
    pub fn json_serialize_error(err: serde_json::Error) -> (r: Self)
        ensures
            exists|details: Seq<char>| r@ == json_serialize_error_of(details),
    {
        let text = err.to_string();
        ParseError::json_serialize_failure(text.as_str())
    }

    /// A document that the JSON reader refused, with the reader's own
    /// description; `language` names the input it came with.
    pub fn json_parse_error(language: &str, err: serde_json::Error) -> (r: Self)
        ensures
            exists|details: Seq<char>| r@ == json_parse_error_of(language@, details),
    {
        let text = err.to_string();
        ParseError::json_parse_failure(language, text.as_str())
    }

    /// A failure of the YAML writer, with the writer's own description.
    pub fn yaml_serialize_error(err: serde_yaml::Error) -> (r: Self)
        ensures
            exists|details: Seq<char>| r@ == yaml_serialize_error_of(details),
    {
        let text = err.to_string();
        ParseError::yaml_serialize_failure(text.as_str())
    }

    /// A failure to read or write, with the system's own description.
    pub fn io_error(err: &std::io::Error) -> (r: Self)
        ensures
            exists|details: Seq<char>| r@ == io_error_of(details),
    {
        let text = err.to_string();
        ParseError::io_failure(text.as_str())
    }
}

// ---------------------------------------------------------------------------
// The one-line form
// ---------------------------------------------------------------------------

pub open spec fn invalid_json_root_error(language: Seq<char>) -> ErrorView {
    ErrorView {
        kind: ErrorKind::JsonParseError,
        message: "Invalid JSON for language '"@ + language + "': root must be an object"@,
        location: None,
        suggestion: Some("Provide a JSON object with translation keys at the top level"@),
    }
}

/// `row N`, with the row counted from 1.
pub open spec fn row_part(row: usize) -> Seq<char> {
    "row "@ + decimal((row + 1) as nat)
}

/// `column N`, followed by the column's name where it is known.
pub open spec fn column_part(column: usize, name: Option<Seq<char>>) -> Seq<char> {
    match name {
        Some(n) => "column "@ + decimal(column as nat) + " ('"@ + n + "')"@,
        None => "column "@ + decimal(column as nat),
    }
}

pub open spec fn key_part(key: Seq<char>) -> Seq<char> {
    "key '"@ + key + "'"@
}

/// What a location contributes to the one-line form: row, column and key,
/// each where it is known, in this order.
pub open spec fn location_parts(l: LocationView) -> Seq<Seq<char>> {
    (match l.row {
        Some(r) => seq![row_part(r)],
        None => Seq::<Seq<char>>::empty(),
    }) + (match l.column {
        Some(c) => seq![column_part(c, l.column_name)],
        None => Seq::<Seq<char>>::empty(),
    }) + (match l.key {
        Some(k) => seq![key_part(k)],
        None => Seq::<Seq<char>>::empty(),
    })
}

/// ` at ...` with the parts of the location, or nothing where there is no
/// part to show.
pub open spec fn location_note(l: Option<LocationView>) -> Seq<char> {
    match l {
        Some(l) => if location_parts(l).len() > 0 {
            " at "@ + join_with(location_parts(l), ", "@)
        } else {
            Seq::<char>::empty()
        },
        None => Seq::<char>::empty(),
    }
}

pub open spec fn suggestion_note(s: Option<Seq<char>>) -> Seq<char> {
    match s {
        Some(s) => ". Suggestion: "@ + s,
        None => Seq::<char>::empty(),
    }
}

/// The one-line form of an error: `[KIND] message`, then the location, then
/// the suggestion.
pub open spec fn display_text(e: ErrorView) -> Seq<char> {
    "["@ + kind_name(e.kind) + "] "@ + e.message + location_note(e.location) + suggestion_note(
        e.suggestion,
    )
}

impl ErrorLocation {
    /// The row as it is shown: counted from 1.
    pub fn display_row(&self) -> (r: Option<u128>)
        ensures
            r == match self.row {
                Some(row) => Some((row + 1) as u128),
                None => None,
            },
    {
        match self.row {
            Some(row) => Some(row as u128 + 1),
            None => None,
        }
    }

    fn parts(&self) -> (r: Vec<String>)
        ensures
            texts(r@) == location_parts(self@),
    {
        let mut parts: Vec<String> = Vec::new();
        if let Some(row) = self.display_row() {
            let mut p = owned("row ");
            p.append(decimal_string(row).as_str());
            parts.push(p);
        }
        if let Some(column) = self.column {
            let mut p = owned("column ");
            p.append(decimal_string(column as u128).as_str());
            if let Some(name) = &self.column_name {
                p.append(" ('");
                p.append(name.as_str());
                p.append("')");
            }
            parts.push(p);
        }
        if let Some(key) = &self.key {
            let mut p = owned("key '");
            p.append(key.as_str());
            p.append("'");
            parts.push(p);
        }
        assert(texts(parts@) =~= location_parts(self@));
        parts
    }
}

impl ParseError {
    /// The root of the document given for `language` is no object.
    pub fn invalid_json_root(language: &str) -> (r: Self)
        ensures
            r@ == invalid_json_root_error(language@),
    {
        let mut msg = owned("Invalid JSON for language '");
        msg.append(language);
        msg.append("': root must be an object");
        ParseError::new(ErrorKind::JsonParseError, msg.as_str()).with_suggestion(
            "Provide a JSON object with translation keys at the top level",
        )
    }

    /// The one-line form of this error.
    pub fn to_string(&self) -> (r: String)
        ensures
            r@ == display_text(self@),
    {
        let mut out = owned("[");
        out.append(self.kind.name());
        out.append("] ");
        out.append(self.message.as_str());
        let ghost head = out@;
        if let Some(location) = &self.location {
            let parts = location.parts();
            if parts.len() > 0 {
                out.append(" at ");
                out.append(join_strings(&parts, ", ").as_str());
                assert(out@ =~= head + (" at "@ + join_with(location_parts(location@), ", "@)));
            }
        }
        assert(out@ =~= head + location_note(self@.location));
        let ghost body = out@;
        if let Some(suggestion) = &self.suggestion {
            out.append(". Suggestion: ");
            out.append(suggestion.as_str());
            assert(out@ =~= body + (". Suggestion: "@ + suggestion@));
        }
        assert(out@ =~= body + suggestion_note(self@.suggestion));
        out
    }
}

// ---------------------------------------------------------------------------
// The form for hosts
// ---------------------------------------------------------------------------

/// A text, or `null` where there is none.
pub open spec fn text_or_null(s: Option<Seq<char>>) -> Tree {
    match s {
        Some(s) => Tree::Text(s),
        None => Tree::Null,
    }
}

/// A number, or `null` where there is none.
pub open spec fn number_or_null(n: Option<nat>) -> Tree {
    match n {
        Some(n) => Tree::Literal(decimal(n)),
        None => Tree::Null,
    }
}

/// The row as it is shown: counted from 1.
pub open spec fn shown_row(row: Option<usize>) -> Option<nat> {
    match row {
        Some(r) => Some((r + 1) as nat),
        None => None,
    }
}

/// A column number as a natural number.
pub open spec fn shown_column(column: Option<usize>) -> Option<nat> {
    match column {
        Some(c) => Some(c as nat),
        None => None,
    }
}

/// A location as an object for hosts: `row` counted from 1, `column`,
/// `columnName` and `key`, each `null` where it is not known.
pub open spec fn location_document(l: LocationView) -> Entries {
    upsert(
        upsert(
            upsert(
                upsert(Entries::empty(), "row"@, number_or_null(shown_row(l.row))),
                "column"@,
                number_or_null(shown_column(l.column)),
            ),
            "columnName"@,
            text_or_null(l.column_name),
        ),
        "key"@,
        text_or_null(l.key),
    )
}

/// An error as an object for hosts: `error` is `true`, `kind` is the name
/// of the kind, `message`, `location` and `suggestion` are as in the
/// error, `null` where there is none, and `fullMessage` is the one-line
/// form.
pub open spec fn error_document(e: ErrorView) -> Entries {
    upsert(
        upsert(
            upsert(
                upsert(
                    upsert(
                        upsert(Entries::empty(), "error"@, Tree::Literal("true"@)),
                        "kind"@,
                        Tree::Text(kind_name(e.kind)),
                    ),
                    "message"@,
                    Tree::Text(e.message),
                ),
                "location"@,
                match e.location {
                    Some(l) => Tree::Object(location_document(l)),
                    None => Tree::Null,
                },
            ),
            "suggestion"@,
            text_or_null(e.suggestion),
        ),
        "fullMessage"@,
        Tree::Text(display_text(e)),
    )
}

fn text_value(s: &Option<String>) -> (r: JsonValue)
    ensures
        r@ == text_or_null(text_view(*s)),
{
    match s {
        Some(s) => JsonValue::Text(s.clone()),
        None => JsonValue::Null,
    }
}

fn number_value(n: Option<u128>) -> (r: JsonValue)
    ensures
        r@ == number_or_null(
            match n {
                Some(n) => Some(n as nat),
                None => None,
            },
        ),
{
    match n {
        Some(n) => JsonValue::Literal(decimal_string(n)),
        None => JsonValue::Null,
    }
}

impl ErrorLocation {
    /// This location as an object for hosts.
    pub fn to_document(&self) -> (r: JsonMap)
        ensures
            r@ == location_document(self@),
    {
        let column = match self.column {
            Some(c) => Some(c as u128),
            None => None,
        };
        let mut map = JsonMap::new();
        map.insert(owned("row"), number_value(self.display_row()));
        map.insert(owned("column"), number_value(column));
        map.insert(owned("columnName"), text_value(&self.column_name));
        map.insert(owned("key"), text_value(&self.key));
        map
    }
}

impl ParseError {
    /// This error as an object for hosts.
    pub fn to_document(&self) -> (r: JsonMap)
        ensures
            r@ == error_document(self@),
    {
        let location = match &self.location {
            Some(l) => JsonValue::Object(l.to_document()),
            None => JsonValue::Null,
        };
        let mut map = JsonMap::new();
        map.insert(owned("error"), JsonValue::Literal(owned("true")));
        map.insert(owned("kind"), JsonValue::Text(self.kind.to_string()));
        map.insert(owned("message"), JsonValue::Text(self.message.clone()));
        map.insert(owned("location"), location);
        map.insert(owned("suggestion"), text_value(&self.suggestion));
        map.insert(owned("fullMessage"), JsonValue::Text(self.to_string()));
        map
    }

    /// This error as JSON text for hosts.
    pub fn to_json(&self) -> (r: String)
        ensures
            r@ == json_text(Tree::Object(error_document(self@))),
    {
        let document = JsonValue::Object(self.to_document());
        write_json(&document)
    }
}

// ---------------------------------------------------------------------------
// Conversions
// ---------------------------------------------------------------------------
//
// Each conversion builds the error that the constructor for that failure
// builds. What it gives depends on the text that the failure shows of
// itself, so nothing is promised through `from_spec`; the `ensures` of
// `from` says what holds.

pub open spec fn excel_error_of(details: Seq<char>) -> ErrorView {
    ErrorView {
        kind: ErrorKind::ExcelOpenError,
        message: "Excel error: "@ + details,
        location: None,
        suggestion: None,
    }
}

impl ParseError {
    /// The workbook reader failed; `details` says why.
    pub fn excel_failure(details: &str) -> (r: Self)
        ensures
            r@ == excel_error_of(details@),
    {
        let mut msg = owned("Excel error: ");
        msg.append(details);
        ParseError::new(ErrorKind::ExcelOpenError, msg.as_str())
    }

    /// A failure of the workbook reader, with the reader's own description.
    pub fn excel_error(err: &calamine::Error) -> (r: Self)
        ensures
            exists|details: Seq<char>| r@ == excel_error_of(details),
    {
        let text = err.to_string();
        ParseError::excel_failure(text.as_str())
    }
}

impl From<csv::Error> for ParseError {
    fn from(err: csv::Error) -> (r: ParseError)
        ensures
            exists|text: Seq<char>, line: Option<usize>| r@ == csv_failure_error(text, line),
    {
        ParseError::csv_parse_error(&err)
    }
}

impl vstd::std_specs::convert::FromSpecImpl<csv::Error> for ParseError {
    open spec fn obeys_from_spec() -> bool {
        false
    }

    open spec fn from_spec(err: csv::Error) -> ParseError {
        arbitrary()
    }
}

impl From<core::str::Utf8Error> for ParseError {
    fn from(err: core::str::Utf8Error) -> (r: ParseError)
        ensures
            exists|valid_up_to: usize| r@ == utf8_error_at(valid_up_to),
    {
        ParseError::utf8_error(&err)
    }
}

impl vstd::std_specs::convert::FromSpecImpl<core::str::Utf8Error> for ParseError {
    open spec fn obeys_from_spec() -> bool {
        false
    }

    open spec fn from_spec(err: core::str::Utf8Error) -> ParseError {
        arbitrary()
    }
}

impl From<serde_json::Error> for ParseError {
    fn from(err: serde_json::Error) -> (r: ParseError)
        ensures
            exists|details: Seq<char>| r@ == json_serialize_error_of(details),
    {
        ParseError::json_serialize_error(err)
    }
}

impl vstd::std_specs::convert::FromSpecImpl<serde_json::Error> for ParseError {
    open spec fn obeys_from_spec() -> bool {
        false
    }

    open spec fn from_spec(err: serde_json::Error) -> ParseError {
        arbitrary()
    }
}

impl From<std::io::Error> for ParseError {
    fn from(err: std::io::Error) -> (r: ParseError)
        ensures
            exists|details: Seq<char>| r@ == io_error_of(details),
    {
        ParseError::io_error(&err)
    }
}

impl vstd::std_specs::convert::FromSpecImpl<std::io::Error> for ParseError {
    open spec fn obeys_from_spec() -> bool {
        false
    }

    open spec fn from_spec(err: std::io::Error) -> ParseError {
        arbitrary()
    }
}

impl From<calamine::Error> for ParseError {
    fn from(err: calamine::Error) -> (r: ParseError)
        ensures
            exists|details: Seq<char>| r@ == excel_error_of(details),
    {
        ParseError::excel_error(&err)
    }
}

impl vstd::std_specs::convert::FromSpecImpl<calamine::Error> for ParseError {
    open spec fn obeys_from_spec() -> bool {
        false
    }

    open spec fn from_spec(err: calamine::Error) -> ParseError {
        arbitrary()
    }
}

} // verus!
