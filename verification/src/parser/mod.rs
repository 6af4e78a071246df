//! From a table to documents: the header, the keys and the cells.

pub mod csv;
pub mod excel;

use vstd::prelude::*;
use crate::error::{
    empty_data_error, invalid_key_column_error, mixed_separators_error,
    no_language_columns_error, ErrorView, ParseError, Result,
};
use crate::lang_codes::{normalize_lang_code, normalized};
use crate::text::{
    chars_of, lemma_split_on_nonempty, lemma_text_lt_asymmetric, lemma_text_lt_transitive,
    lowercase, owned, same_text, split_chars, split_on, text_lt, texts, trim, trimmed,
};
use crate::transform::{process_escape_sequences, unescaped};
use crate::types::{separator_char, HeaderInfo, ParseOptions, ParseResult, ResultView};
use crate::value::{
    keys_increase, lemma_drop_first_sorted, lookup, upsert, well_formed, without, Entries,
    JsonMap, JsonValue, Tree,
};

verus! {

// ---------------------------------------------------------------------------
// The header
// ---------------------------------------------------------------------------

/// Whether the first column of a header names the key column: trimmed and
/// lowercased it reads `key`.
pub open spec fn is_key_column(name: Seq<char>) -> bool {
    lowercase(trimmed(name)) == "key"@
}

/// The languages that the first `n` columns of a header name: each column
/// after the first that is not blank, trimmed and canonically spelled, in
/// column order.
pub open spec fn languages_upto(headers: Seq<Seq<char>>, n: int) -> Seq<Seq<char>>
    decreases n,
{
    if n <= 1 || n > headers.len() {
        Seq::<Seq<char>>::empty()
    } else if trimmed(headers[n - 1]).len() == 0 {
        languages_upto(headers, n - 1)
    } else {
        languages_upto(headers, n - 1).push(normalized(trimmed(headers[n - 1])))
    }
}

/// The languages that a header names.
pub open spec fn header_languages(headers: Seq<Seq<char>>) -> Seq<Seq<char>> {
    languages_upto(headers, headers.len() as int)
}

/// For each language that the first `n` columns name, the position of its
/// column; where two columns name one language, the later one counts.
pub open spec fn columns_upto(headers: Seq<Seq<char>>, n: int) -> Map<Seq<char>, usize>
    decreases n,
{
    if n <= 1 || n > headers.len() {
        Map::<Seq<char>, usize>::empty()
    } else if trimmed(headers[n - 1]).len() == 0 {
        columns_upto(headers, n - 1)
    } else {
        columns_upto(headers, n - 1).insert(normalized(trimmed(headers[n - 1])), (n - 1) as usize)
    }
}

/// For each language of a header the position of its column.
pub open spec fn header_columns(headers: Seq<Seq<char>>) -> Map<Seq<char>, usize> {
    columns_upto(headers, headers.len() as int)
}

/// The error with which a header is refused, if it is: there is no column;
/// or the first column is not the key column; or no other column names a
/// language.
pub open spec fn header_error(headers: Seq<Seq<char>>) -> Option<ErrorView> {
    if headers.len() == 0 {
        Some(empty_data_error())
    } else if !is_key_column(headers[0]) {
        Some(invalid_key_column_error(headers[0]))
    } else if header_languages(headers).len() == 0 {
        Some(no_language_columns_error())
    } else {
        None
    }
}

/// Checks a header row and reads the languages off it.
pub fn validate_header(headers: &[String]) -> (r: Result<HeaderInfo>)
    ensures
        match r {
            Ok(info) => {
                &&& header_error(texts(headers@)) is None
                &&& info.has_valid_key_column
                &&& texts(info.languages@) == header_languages(texts(headers@))
                &&& info.language_indices@ == header_columns(texts(headers@))
            },
            Err(e) => header_error(texts(headers@)) == Some(e@),
        },
{
    let ghost h = texts(headers@);
    if headers.len() == 0 {
        return Err(ParseError::empty_data());
    }
    let first = trim(headers[0].as_str());
    let first = first.as_str().to_lowercase();
    assert(h[0] == headers@[0]@);
    if !same_text(first.as_str(), "key") {
        return Err(ParseError::invalid_key_column(headers[0].as_str()));
    }
    let mut info = HeaderInfo::new();
    info.has_valid_key_column = true;
    let mut n: usize = 1;
    while n < headers.len()
        invariant
            1 <= n <= headers.len(),
            h == texts(headers@),
            info.has_valid_key_column,
            texts(info.languages@) == languages_upto(h, n as int),
            info.language_indices@ == columns_upto(h, n as int),
        decreases headers.len() - n,
    {
        let raw = trim(headers[n].as_str());
        assert(h[n as int] == headers@[n as int]@);
        if raw.as_str().unicode_len() > 0 {
            let lang = normalize_lang_code(raw.as_str());
            let ghost before = texts(info.languages@);
            info.language_indices.insert(lang.clone(), n);
            info.languages.push(lang);
            assert(texts(info.languages@) =~= before.push(lang@));
        }
        n = n + 1;
    }
    if info.languages.len() == 0 {
        return Err(ParseError::no_language_columns());
    }
    Ok(info)
}

// ---------------------------------------------------------------------------
// Nesting
// ---------------------------------------------------------------------------

/// The entries of the object under `key`, or none where no object stands
/// there.
pub open spec fn child_entries(es: Entries, key: Seq<char>) -> Entries {
    match lookup(es, key) {
        Some(Tree::Object(c)) => c,
        _ => Entries::empty(),
    }
}

/// The entries with `value` at the end of `path`: each segment but the last
/// names an object, which is made where none stands, in place of whatever
/// stands there; the last segment names the value, in place of whatever
/// stands there.
pub open spec fn insert_path(es: Entries, path: Seq<Seq<char>>, value: Tree) -> Entries
    decreases path.len(),
{
    if path.len() == 0 {
        es
    } else if path.len() == 1 {
        upsert(es, path[0], value)
    } else {
        upsert(
            es,
            path[0],
            Tree::Object(insert_path(child_entries(es, path[0]), path.drop_first(), value)),
        )
    }
}

/// Taking an entry away before putting one under the same key changes
/// nothing.
pub proof fn lemma_upsert_without(es: Entries, key: Seq<char>, value: Tree)
    requires
        keys_increase(es),
    ensures
        upsert(without(es, key), key, value) == upsert(es, key, value),
    decreases es.len(),
{
    if es.len() > 0 {
        let t = es.drop_first();
        lemma_drop_first_sorted(es);
        if es[0].0 == key {
            if t.len() > 0 {
                assert(text_lt(key, t[0].0));
                lemma_text_lt_asymmetric(key, t[0].0);
            }
        } else if text_lt(key, es[0].0) {
            assert(without(t, key) == t) by {
                lemma_without_all_greater(t, key, es[0].0);
            }
            assert(seq![es[0]] + t =~= es);
        } else {
            lemma_upsert_without(t, key, value);
            let w = seq![es[0]] + without(t, key);
            assert(w[0] == es[0]);
            assert(w.drop_first() =~= without(t, key));
        }
    }
}

/// Where every key sorts after `low` and `key` sorts before it, there is
/// nothing to take away under `key`.
proof fn lemma_without_all_greater(es: Entries, key: Seq<char>, low: Seq<char>)
    requires
        forall|j: int| 0 <= j < es.len() ==> text_lt(low, #[trigger] es[j].0),
        text_lt(key, low),
    ensures
        without(es, key) == es,
    decreases es.len(),
{
    if es.len() > 0 {
        let t = es.drop_first();
        assert(text_lt(low, es[0].0));
        lemma_text_lt_transitive(key, low, es[0].0);
        lemma_text_lt_asymmetric(key, es[0].0);
        assert forall|j: int| 0 <= j < t.len() implies text_lt(low, #[trigger] t[j].0) by {
            assert(t[j] == es[j + 1]);
        }
        lemma_without_all_greater(t, key, low);
        assert(seq![es[0]] + t =~= es);
    }
}

/// Puts `value` at the end of the path `parts[from..]`.
fn insert_at(target: &mut JsonMap, parts: &Vec<String>, from: usize, value: JsonValue)
    requires
        from < parts.len(),
    ensures
        final(target)@ == insert_path(old(target)@, texts(parts@).skip(from as int), value@),
    decreases parts.len() - from,
{
    let ghost path = texts(parts@).skip(from as int);
    assert(path[0] == parts@[from as int]@);
    if from + 1 == parts.len() {
        target.insert(parts[from].clone(), value);
    } else {
        proof {
            use_type_invariant(&*target);
        }
        let ghost before = target@;
        let mut child = match target.remove(parts[from].as_str()) {
            Some(JsonValue::Object(c)) => c,
            _ => JsonMap::new(),
        };
        assert(child@ == child_entries(before, path[0]));
        assert(path.drop_first() == texts(parts@).skip(from + 1));
        insert_at(&mut child, parts, from + 1, value);
        proof {
            lemma_upsert_without(before, path[0], Tree::Object(child@));
        }
        target.insert(parts[from].clone(), JsonValue::Object(child));
    }
}

/// The first character of `separator`, or `.` where it is empty.
pub fn separator_of(separator: &str) -> (r: char)
    ensures
        r == separator_char(separator@),
{
    let s = chars_of(separator);
    if s.len() > 0 {
        s[0]
    } else {
        '.'
    }
}

/// Splits `key` at the separator and puts `value` into `target` at the
/// path that the pieces name, one object per piece but the last.
pub fn build_nested_value(target: &mut JsonMap, key: &str, value: &str, separator: &str)
    ensures
        final(target)@ == insert_path(
            old(target)@,
            split_on(key@, separator_char(separator@)),
            Tree::Text(value@),
        ),
{
    let k = chars_of(key);
    let parts = split_chars(&k, separator_of(separator));
    proof {
        lemma_split_on_nonempty(key@, separator_char(separator@));
        assert(texts(parts@).skip(0) =~= split_on(key@, separator_char(separator@)));
    }
    insert_at(target, &parts, 0, JsonValue::Text(owned(value)));
}

// ---------------------------------------------------------------------------
// Rows
// ---------------------------------------------------------------------------

/// The rows of a table, each cell as its characters.
pub open spec fn table(rows: Seq<Vec<String>>) -> Seq<Seq<Seq<char>>> {
    Seq::new(rows.len(), |i: int| texts(rows[i]@))
}

/// The cell of `row` in column `c`, trimmed; a row that does not reach so
/// far has an empty cell there.
pub open spec fn cell(row: Seq<Seq<char>>, c: int) -> Seq<char> {
    if 0 <= c < row.len() {
        trimmed(row[c])
    } else {
        Seq::<char>::empty()
    }
}

/// The key of a row: its first cell.
pub open spec fn row_key(row: Seq<Seq<char>>) -> Seq<char> {
    cell(row, 0)
}

/// The text that is stored for a cell.
pub open spec fn cell_value(raw: Seq<char>, process_escapes: bool) -> Seq<char> {
    if process_escapes {
        unescaped(raw)
    } else {
        raw
    }
}

/// The translations that the first `n` rows give in column `c`, in row
/// order: a row counts where its key and its cell are not empty.
pub open spec fn column_entries(
    rows: Seq<Seq<Seq<char>>>,
    c: int,
    process_escapes: bool,
    n: int,
) -> Seq<(Seq<char>, Seq<char>)>
    decreases n,
{
    if n <= 0 || n > rows.len() {
        Seq::<(Seq<char>, Seq<char>)>::empty()
    } else if row_key(rows[n - 1]).len() > 0 && cell(rows[n - 1], c).len() > 0 {
        column_entries(rows, c, process_escapes, n - 1).push(
            (row_key(rows[n - 1]), cell_value(cell(rows[n - 1], c), process_escapes)),
        )
    } else {
        column_entries(rows, c, process_escapes, n - 1)
    }
}

// ---------------------------------------------------------------------------
// Separators
// ---------------------------------------------------------------------------

/// The characters that count as key separators.
pub open spec fn is_separator_like(c: char) -> bool {
    c == '.' || c == '/' || c == '-'
}

/// The separator characters of `key` other than the expected one, in order.
pub open spec fn unexpected_in(key: Seq<char>, expected: char) -> Seq<char>
    decreases key.len(),
{
    if key.len() == 0 {
        Seq::<char>::empty()
    } else if is_separator_like(key.last()) && key.last() != expected {
        unexpected_in(key.drop_last(), expected).push(key.last())
    } else {
        unexpected_in(key.drop_last(), expected)
    }
}

/// The unexpected separator characters in the keys of the first `n` rows.
pub open spec fn unexpected_upto(rows: Seq<Seq<Seq<char>>>, expected: char, n: int) -> Seq<char>
    decreases n,
{
    if n <= 0 || n > rows.len() {
        Seq::<char>::empty()
    } else {
        unexpected_upto(rows, expected, n - 1) + unexpected_in(row_key(rows[n - 1]), expected)
    }
}

/// The first of the first `n` rows whose key holds an unexpected separator,
/// counted from 1.
pub open spec fn first_offending(rows: Seq<Seq<Seq<char>>>, expected: char, n: int) -> Option<usize>
    decreases n,
{
    if n <= 0 || n > rows.len() {
        None
    } else if first_offending(rows, expected, n - 1) is Some {
        first_offending(rows, expected, n - 1)
    } else if unexpected_in(row_key(rows[n - 1]), expected).len() > 0 {
        Some(n as usize)
    } else {
        None
    }
}

// ---------------------------------------------------------------------------
// Documents
// ---------------------------------------------------------------------------

/// The flat document of a list of translations: each key with its text, a
/// later translation replacing an earlier one of the same key.
pub open spec fn flat_document(entries: Seq<(Seq<char>, Seq<char>)>) -> Entries
    decreases entries.len(),
{
    if entries.len() == 0 {
        Entries::empty()
    } else {
        upsert(flat_document(entries.drop_last()), entries.last().0, Tree::Text(entries.last().1))
    }
}

/// The nested document of a list of translations: each key split at `sep`
/// into a path, the text put at the end of it, in the order of the list.
pub open spec fn nested_document(entries: Seq<(Seq<char>, Seq<char>)>, sep: char) -> Entries
    decreases entries.len(),
{
    if entries.len() == 0 {
        Entries::empty()
    } else {
        insert_path(
            nested_document(entries.drop_last(), sep),
            split_on(entries.last().0, sep),
            Tree::Text(entries.last().1),
        )
    }
}

/// The document of a list of translations in the shape asked for.
pub open spec fn document(entries: Seq<(Seq<char>, Seq<char>)>, nested: bool, sep: char) -> Entries {
    if nested {
        nested_document(entries, sep)
    } else {
        flat_document(entries)
    }
}

/// The document of one language: made of the column that the header gives
/// to the language.
pub open spec fn language_document(
    headers: Seq<Seq<char>>,
    rows: Seq<Seq<Seq<char>>>,
    language: Seq<char>,
    separator: Seq<char>,
    nested: bool,
    process_escapes: bool,
) -> Entries {
    document(
        column_entries(
            rows,
            header_columns(headers)[language] as int,
            process_escapes,
            rows.len() as int,
        ),
        nested,
        separator_char(separator),
    )
}

/// The documents of the first `n` languages of the header, each under its
/// language.
pub open spec fn locale_data(
    headers: Seq<Seq<char>>,
    rows: Seq<Seq<Seq<char>>>,
    separator: Seq<char>,
    nested: bool,
    process_escapes: bool,
    n: int,
) -> Entries
    decreases n,
{
    if n <= 0 || n > header_languages(headers).len() {
        Entries::empty()
    } else {
        upsert(
            locale_data(headers, rows, separator, nested, process_escapes, n - 1),
            header_languages(headers)[n - 1],
            Tree::Object(
                language_document(
                    headers,
                    rows,
                    header_languages(headers)[n - 1],
                    separator,
                    nested,
                    process_escapes,
                ),
            ),
        )
    }
}

/// What a table with the given header and rows is turned into: the error
/// of the header, if it has one; else the error for mixed separators, if a
/// key holds a separator character other than the configured one; else the
/// languages, their documents and the number of rows.
pub open spec fn assembled(
    headers: Seq<Seq<char>>,
    rows: Seq<Seq<Seq<char>>>,
    separator: Seq<char>,
    nested: bool,
    process_escapes: bool,
) -> core::result::Result<ResultView, ErrorView> {
    let expected = separator_char(separator);
    let n = rows.len() as int;
    if header_error(headers) is Some {
        Err(header_error(headers)->0)
    } else if unexpected_upto(rows, expected, n).len() > 0 {
        Err(
            mixed_separators_error(
                unexpected_upto(rows, expected, n),
                separator,
                first_offending(rows, expected, n),
            ),
        )
    } else {
        Ok(
            ResultView {
                languages: header_languages(headers),
                data: locale_data(
                    headers,
                    rows,
                    separator,
                    nested,
                    process_escapes,
                    header_languages(headers).len() as int,
                ),
                row_count: rows.len(),
            },
        )
    }
}

/// Every language of a header has a column, and the column lies within the
/// header.
pub proof fn lemma_language_has_column(headers: Seq<Seq<char>>, n: int, i: int)
    requires
        0 <= i < languages_upto(headers, n).len(),
        headers.len() <= usize::MAX,
    ensures
        columns_upto(headers, n).contains_key(languages_upto(headers, n)[i]),
        1 <= columns_upto(headers, n)[languages_upto(headers, n)[i]] < n,
        n <= headers.len(),
    decreases n,
{
    if n <= 1 || n > headers.len() {
    } else if trimmed(headers[n - 1]).len() == 0 {
        lemma_language_has_column(headers, n - 1, i);
    } else {
        let prev = languages_upto(headers, n - 1);
        if i < prev.len() {
            lemma_language_has_column(headers, n - 1, i);
        }
    }
}

/// The key of a row, trimmed; empty where the row has no cell.
fn key_of(row: &Vec<String>) -> (r: String)
    ensures
        r@ == row_key(texts(row@)),
{
    if row.len() > 0 {
        trim(row[0].as_str())
    } else {
        String::new()
    }
}

/// The separator characters of `key` other than `expected` are added to
/// `found`.
fn collect_unexpected(key: &str, expected: char, found: &mut Vec<char>)
    ensures
        final(found)@ == old(found)@ + unexpected_in(key@, expected),
{
    let k = chars_of(key);
    let ghost before = found@;
    let mut i: usize = 0;
    assert(before + unexpected_in(k@.take(0), expected) =~= before);
    while i < k.len()
        invariant
            i <= k.len(),
            found@ == before + unexpected_in(k@.take(i as int), expected),
        decreases k.len() - i,
    {
        let c = k[i];
        assert(k@.take(i + 1).drop_last() == k@.take(i as int));
        assert(k@.take(i + 1).last() == c);
        if (c == '.' || c == '/' || c == '-') && c != expected {
            found.push(c);
            assert(found@ =~= before + unexpected_in(k@.take(i as int), expected).push(c));
        }
        i = i + 1;
    }
    assert(k@.take(k.len() as int) == k@);
}

/// The document that column `c` of the rows gives.
fn build_document(
    rows: &Vec<Vec<String>>,
    keys: &Vec<String>,
    c: usize,
    options: &ParseOptions,
) -> (r: JsonMap)
    requires
        keys@.len() == rows@.len(),
        forall|i: int| 0 <= i < rows@.len() ==> (#[trigger] keys@[i])@ == row_key(table(rows@)[i]),
    ensures
        r@ == document(
            column_entries(table(rows@), c as int, options.process_escapes, rows@.len() as int),
            options.nested,
            separator_char(options.separator@),
        ),
{
    let ghost t = table(rows@);
    let ghost sep = separator_char(options.separator@);
    let mut doc = JsonMap::new();
    let mut i: usize = 0;
    while i < rows.len()
        invariant
            i <= rows.len(),
            t == table(rows@),
            sep == separator_char(options.separator@),
            keys@.len() == rows@.len(),
            forall|j: int| 0 <= j < rows@.len() ==> (#[trigger] keys@[j])@ == row_key(t[j]),
            doc@ == document(
                column_entries(t, c as int, options.process_escapes, i as int),
                options.nested,
                sep,
            ),
        decreases rows.len() - i,
    {
        let row = &rows[i];
        assert(t[i as int] == texts(row@));
        let ghost prev = column_entries(t, c as int, options.process_escapes, i as int);
        if keys[i].as_str().unicode_len() > 0 && c < row.len() {
            let raw = trim(row[c].as_str());
            assert(raw@ == cell(t[i as int], c as int));
            if raw.as_str().unicode_len() > 0 {
                let value = if options.process_escapes {
                    process_escape_sequences(raw.as_str())
                } else {
                    raw
                };
                let ghost entry = (keys@[i as int]@, value@);
                assert(column_entries(t, c as int, options.process_escapes, i + 1) == prev.push(
                    entry,
                ));
                assert(prev.push(entry).drop_last() == prev);
                if options.nested {
                    build_nested_value(
                        &mut doc,
                        keys[i].as_str(),
                        value.as_str(),
                        options.separator.as_str(),
                    );
                } else {
                    doc.insert(keys[i].clone(), JsonValue::Text(value));
                }
            }
        }
        i = i + 1;
    }
    doc
}

/// Turns a header and the rows under it into one document per language.
///
/// Cells are trimmed; a row without a key is counted and otherwise passed
/// over; an empty cell gives no entry. Where a key holds one of `.`, `/`,
/// `-` that is not the configured separator, nothing is built and the
/// first such row is reported.
pub fn assemble(headers: &[String], rows: &Vec<Vec<String>>, options: &ParseOptions) -> (r: Result<
    ParseResult,
>)
    ensures
        match r {
            Ok(result) => assembled(
                texts(headers@),
                table(rows@),
                options.separator@,
                options.nested,
                options.process_escapes,
            ) == Ok::<ResultView, ErrorView>(result@),
            Err(e) => assembled(
                texts(headers@),
                table(rows@),
                options.separator@,
                options.nested,
                options.process_escapes,
            ) == Err::<ResultView, ErrorView>(e@),
        },
        r matches Ok(result) ==> result.row_count == rows@.len() && texts(result.languages@)
            == header_languages(texts(headers@)) && well_formed(Tree::Object(result@.data)),
{
    let ghost h = texts(headers@);
    let ghost t = table(rows@);
    let info = match validate_header(headers) {
        Ok(info) => info,
        Err(e) => {
            return Err(e);
        },
    };
    let expected = separator_of(options.separator.as_str());
    let mut keys: Vec<String> = Vec::new();
    let mut found: Vec<char> = Vec::new();
    let mut first: Option<usize> = None;
    let mut i: usize = 0;
    while i < rows.len()
        invariant
            i <= rows.len(),
            t == table(rows@),
            expected == separator_char(options.separator@),
            keys@.len() == i,
            forall|j: int| 0 <= j < i ==> (#[trigger] keys@[j])@ == row_key(t[j]),
            found@ == unexpected_upto(t, expected, i as int),
            first == first_offending(t, expected, i as int),
        decreases rows.len() - i,
    {
        let key = key_of(&rows[i]);
        assert(t[i as int] == texts(rows@[i as int]@));
        let before = found.len();
        collect_unexpected(key.as_str(), expected, &mut found);
        if first.is_none() && found.len() > before {
            first = Some(i + 1);
        }
        keys.push(key);
        i = i + 1;
    }
    if found.len() > 0 {
        return Err(ParseError::mixed_separators(found, options.separator.as_str(), first));
    }
    let mut data = JsonMap::new();
    let width = headers.len();
    let mut n: usize = 0;
    while n < info.languages.len()
        invariant
            n <= info.languages.len(),
            h == texts(headers@),
            h.len() == width,
            t == table(rows@),
            texts(info.languages@) == header_languages(h),
            info.language_indices@ == header_columns(h),
            keys@.len() == rows@.len(),
            forall|j: int| 0 <= j < rows@.len() ==> (#[trigger] keys@[j])@ == row_key(t[j]),
            data@ == locale_data(
                h,
                t,
                options.separator@,
                options.nested,
                options.process_escapes,
                n as int,
            ),
        decreases info.languages.len() - n,
    {
        let language = &info.languages[n];
        assert(header_languages(h)[n as int] == language@);
        proof {
            lemma_language_has_column(h, h.len() as int, n as int);
        }
        let column = match info.language_indices.get(language.as_str()) {
            Some(c) => *c,
            None => 0,
        };
        let doc = build_document(rows, &keys, column, options);
        data.insert(language.clone(), JsonValue::Object(doc));
        n = n + 1;
    }
    proof {
        use_type_invariant(&data);
    }
    Ok(ParseResult { languages: info.languages, data, row_count: rows.len() })
}

} // verus!
