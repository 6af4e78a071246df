//! Tables given as CSV text.
//!
//! Splitting the text into records is the CSV reader's work; what the
//! records mean is decided here.

use vstd::prelude::*;
use crate::error::{csv_failure_error, empty_data_error, ErrorView, ParseError, Result};
use crate::parser::{
    assemble, assembled, header_error, header_languages, table, validate_header,
};
use crate::text::texts;
use crate::types::{ParseOptions, ParseResult, ResultView};

verus! {

/// What the CSV reader makes of a text: the records that it reads before
/// it fails or the text ends, the header among them, each with its fields;
/// and whether it fails.
pub uninterp spec fn csv_outcome(data: Seq<u8>) -> (Seq<Seq<Seq<char>>>, bool);

/// Reads records with `csv::Reader::records`, from a reader that takes
/// the first record as a record like the others and accepts records of any
/// length. The records read before the first failure are handed out, and
/// the failure with them.
#[verifier::external_body]
fn read_records(data: &[u8]) -> (r: (Vec<Vec<String>>, Option<csv::Error>))
    ensures
        table(r.0@) == csv_outcome(data@).0,
        (r.1 is Some) == csv_outcome(data@).1,
{
    let mut reader = csv::ReaderBuilder::new().has_headers(false).flexible(true).from_reader(data);
    let mut rows: Vec<Vec<String>> = Vec::new();
    for record in reader.records() {
        match record {
            Ok(r) => rows.push(r.iter().map(|s| s.to_string()).collect()),
            Err(e) => return (rows, Some(e)),
        }
    }
    (rows, None)
}

/// What records and a possible failure of the reader are turned into.
///
/// Without a record the failure is reported, or that there is no data. An
/// error of the header comes before the failure of a later record, and
/// that failure before anything the rows hold.
pub open spec fn records_outcome(
    records: Seq<Seq<Seq<char>>>,
    failure: Option<ErrorView>,
    separator: Seq<char>,
    nested: bool,
    process_escapes: bool,
) -> core::result::Result<ResultView, ErrorView> {
    if records.len() == 0 {
        match failure {
            Some(f) => Err(f),
            None => Err(empty_data_error()),
        }
    } else if header_error(records[0]) is Some {
        Err(header_error(records[0])->0)
    } else if failure is Some {
        Err(failure->0)
    } else {
        assembled(records[0], records.skip(1), separator, nested, process_escapes)
    }
}

/// The languages that the header among the records names.
pub open spec fn header_outcome(
    records: Seq<Seq<Seq<char>>>,
    failure: Option<ErrorView>,
) -> core::result::Result<Seq<Seq<char>>, ErrorView> {
    if records.len() == 0 {
        match failure {
            Some(f) => Err(f),
            None => Err(empty_data_error()),
        }
    } else if header_error(records[0]) is Some {
        Err(header_error(records[0])->0)
    } else {
        Ok(header_languages(records[0]))
    }
}

pub open spec fn error_view(e: Option<ParseError>) -> Option<ErrorView> {
    match e {
        Some(e) => Some(e@),
        None => None,
    }
}

pub open spec fn result_view(r: Result<ParseResult>) -> core::result::Result<ResultView, ErrorView> {
    match r {
        Ok(v) => Ok(v@),
        Err(e) => Err(e@),
    }
}

pub open spec fn languages_view(r: Result<Vec<String>>) -> core::result::Result<
    Seq<Seq<char>>,
    ErrorView,
> {
    match r {
        Ok(v) => Ok(texts(v@)),
        Err(e) => Err(e@),
    }
}

/// Turns the records of a table, the header first, into one document per
/// language; `failure` is the error of the reader, where it stopped early.
pub fn parse_records(rows: Vec<Vec<String>>, failure: Option<ParseError>, options: &ParseOptions) -> (r:
    Result<ParseResult>)
    ensures
        result_view(r) == records_outcome(
            table(rows@),
            error_view(failure),
            options.separator@,
            options.nested,
            options.process_escapes,
        ),
{
    let mut rows = rows;
    let ghost records = table(rows@);
    if rows.len() == 0 {
        return match failure {
            Some(f) => Err(f),
            None => Err(ParseError::empty_data()),
        };
    }
    let header = rows.remove(0);
    assert(texts(header@) == records[0]);
    assert(table(rows@) =~= records.skip(1));
    match validate_header(header.as_slice()) {
        Ok(_) => {},
        Err(e) => {
            return Err(e);
        },
    }
    if let Some(f) = failure {
        return Err(f);
    }
    assemble(header.as_slice(), &rows, options)
}

/// Whether `e` is what a failure of the CSV reader becomes.
pub open spec fn is_csv_failure(e: ErrorView) -> bool {
    exists|text: Seq<char>, line: Option<usize>| e == csv_failure_error(text, line)
}

/// Parses CSV text into one document per language.
pub fn parse(data: &[u8], options: &ParseOptions) -> (r: Result<ParseResult>)
    ensures
        exists|failure: Option<ErrorView>|
            {
                &&& (failure is Some) == csv_outcome(data@).1
                &&& failure matches Some(f) ==> is_csv_failure(f)
                &&& result_view(r) == records_outcome(
                    csv_outcome(data@).0,
                    failure,
                    options.separator@,
                    options.nested,
                    options.process_escapes,
                )
            },
{
    let (rows, error) = read_records(data);
    let failure = match error {
        Some(e) => Some(ParseError::csv_parse_error(&e)),
        None => None,
    };
    let ghost f = error_view(failure);
    let r = parse_records(rows, failure, options);
    assert((f is Some) == csv_outcome(data@).1 && (f matches Some(x) ==> is_csv_failure(x))
        && result_view(r) == records_outcome(
        csv_outcome(data@).0,
        f,
        options.separator@,
        options.nested,
        options.process_escapes,
    ));
    r
}

/// Reads the languages off the header among the records.
pub fn header_of_records(rows: &Vec<Vec<String>>, failure: Option<ParseError>) -> (r: Result<
    Vec<String>,
>)
    ensures
        languages_view(r) == header_outcome(table(rows@), error_view(failure)),
{
    if rows.len() == 0 {
        return match failure {
            Some(f) => Err(f),
            None => Err(ParseError::empty_data()),
        };
    }
    assert(texts(rows@[0]@) == table(rows@)[0]);
    match validate_header(rows[0].as_slice()) {
        Ok(info) => Ok(info.languages),
        Err(e) => Err(e),
    }
}

/// Reads the languages off the header of CSV text.
pub fn parse_header_only(data: &[u8]) -> (r: Result<Vec<String>>)
    ensures
        exists|failure: Option<ErrorView>|
            {
                &&& (failure is Some) == csv_outcome(data@).1
                &&& failure matches Some(f) ==> is_csv_failure(f)
                &&& languages_view(r) == header_outcome(csv_outcome(data@).0, failure)
            },
{
    let (rows, error) = read_records(data);
    let failure = match error {
        Some(e) => Some(ParseError::csv_parse_error(&e)),
        None => None,
    };
    let ghost f = error_view(failure);
    let r = header_of_records(&rows, failure);
    assert((f is Some) == csv_outcome(data@).1 && (f matches Some(x) ==> is_csv_failure(x))
        && languages_view(r) == header_outcome(csv_outcome(data@).0, f));
    r
}

} // verus!
