//! Tables given as the sheet of a workbook.
//!
//! Decoding a workbook file is left to the caller, who hands over the
//! names of the sheets and the cells of the first one as text. What the
//! sheet means is decided here.

use vstd::prelude::*;
use crate::error::{empty_sheet_error, empty_workbook_error, ErrorView, ParseError, Result};
use crate::export::{table_to_csv, written, TableData, TableView};
use crate::parser::csv::{languages_view, result_view};
use crate::parser::{
    assemble, assembled, header_error, header_languages, table, validate_header,
};
use crate::text::{texts, trim, trimmed};
use crate::types::{ParseOptions, ParseResult, ResultView};

verus! {

/// The sheet that is taken as the table: the first one. A workbook without
/// a sheet gives `EmptyWorkbook`.
pub open spec fn first_sheet_outcome(names: Seq<Seq<char>>) -> core::result::Result<
    Seq<char>,
    ErrorView,
> {
    if names.len() == 0 {
        Err(empty_workbook_error())
    } else {
        Ok(names[0])
    }
}

/// The cells of a header row, each trimmed.
pub open spec fn trimmed_cells(row: Seq<Seq<char>>) -> Seq<Seq<char>> {
    Seq::new(row.len(), |i: int| trimmed(row[i]))
}

/// What the rows of a sheet, the header first, are turned into. The cells
/// of the header are trimmed before anything is said of them, so an error
/// of the header shows them trimmed. A sheet without a row gives
/// `EmptySheet`.
pub open spec fn sheet_outcome(
    rows: Seq<Seq<Seq<char>>>,
    separator: Seq<char>,
    nested: bool,
    process_escapes: bool,
) -> core::result::Result<ResultView, ErrorView> {
    if rows.len() == 0 {
        Err(empty_sheet_error())
    } else {
        assembled(trimmed_cells(rows[0]), rows.skip(1), separator, nested, process_escapes)
    }
}

/// The languages that the header of a sheet names.
pub open spec fn sheet_header_outcome(rows: Seq<Seq<Seq<char>>>) -> core::result::Result<
    Seq<Seq<char>>,
    ErrorView,
> {
    if rows.len() == 0 {
        Err(empty_sheet_error())
    } else if header_error(trimmed_cells(rows[0])) is Some {
        Err(header_error(trimmed_cells(rows[0]))->0)
    } else {
        Ok(header_languages(trimmed_cells(rows[0])))
    }
}

pub open spec fn name_view(r: Result<String>) -> core::result::Result<Seq<char>, ErrorView> {
    match r {
        Ok(name) => Ok(name@),
        Err(e) => Err(e@),
    }
}

/// The name of the sheet that is taken as the table.
pub fn first_sheet_name(names: &[String]) -> (r: Result<String>)
    ensures
        name_view(r) == first_sheet_outcome(texts(names@)),
{
    if names.len() == 0 {
        return Err(ParseError::empty_workbook());
    }
    assert(texts(names@)[0] == names@[0]@);
    Ok(names[0].clone())
}

/// The cells of a row, each trimmed.
fn trim_cells(row: &Vec<String>) -> (r: Vec<String>)
    ensures
        texts(r@) == trimmed_cells(texts(row@)),
{
    let mut out: Vec<String> = Vec::new();
    let mut i: usize = 0;
    while i < row.len()
        invariant
            i <= row.len(),
            out@.len() == i,
            forall|j: int| 0 <= j < i ==> (#[trigger] out@[j])@ == trimmed(row@[j]@),
        decreases row.len() - i,
    {
        out.push(trim(row[i].as_str()));
        i = i + 1;
    }
    assert(texts(out@) =~= trimmed_cells(texts(row@)));
    out
}

/// Turns the rows of a sheet, the header first, into one document per
/// language.
pub fn parse_sheet(rows: Vec<Vec<String>>, options: &ParseOptions) -> (r: Result<ParseResult>)
    ensures
        result_view(r) == sheet_outcome(
            table(rows@),
            options.separator@,
            options.nested,
            options.process_escapes,
        ),
{
    let mut rows = rows;
    let ghost all = table(rows@);
    if rows.len() == 0 {
        return Err(ParseError::empty_sheet());
    }
    let first = rows.remove(0);
    assert(texts(first@) == all[0]);
    assert(table(rows@) =~= all.skip(1));
    let header = trim_cells(&first);
    assemble(header.as_slice(), &rows, options)
}

/// Reads the languages off the header of a sheet.
pub fn header_of_sheet(rows: &Vec<Vec<String>>) -> (r: Result<Vec<String>>)
    ensures
        languages_view(r) == sheet_header_outcome(table(rows@)),
{
    if rows.len() == 0 {
        return Err(ParseError::empty_sheet());
    }
    assert(texts(rows@[0]@) == table(rows@)[0]);
    let header = trim_cells(&rows[0]);
    match validate_header(header.as_slice()) {
        Ok(info) => Ok(info.languages),
        Err(e) => Err(e),
    }
}

/// Writes the rows of a sheet as CSV text, the first row as the header;
/// a sheet without rows gives empty text.
pub fn sheet_to_csv(rows: Vec<Vec<String>>) -> (r: Result<String>)
    ensures
        if rows@.len() == 0 {
            r matches Ok(s) && s@.len() == 0
        } else {
            written(
                (TableView { header: table(rows@)[0], rows: table(rows@).skip(1) }),
                r,
            )
        },
{
    let mut rows = rows;
    let ghost all = table(rows@);
    if rows.len() == 0 {
        return Ok(String::new());
    }
    let header = rows.remove(0);
    assert(texts(header@) == all[0]);
    assert(table(rows@) =~= all.skip(1));
    let sheet = TableData { header, rows };
    table_to_csv(&sheet)
}

} // verus!
