//! From documents back to a table: flattening each language's document
//! and merging the languages into rows.

use vstd::prelude::*;
use vstd::string::StringExecFns;
use vstd::utf8::{decode_utf8, valid_utf8};
use crate::error::{
    empty_data_error, invalid_json_root_error, io_error_of, json_parse_error_of, utf8_error_at,
    ErrorKind, ErrorView, ParseError, Result,
};
use crate::json::{json_document, read_json};
use crate::lang_codes::{normalize_lang_code, normalized};
use crate::parser::csv::is_csv_failure;
use crate::parser::table;
use crate::text::{owned, same_text, texts};
use crate::value::{
    height, keys_increase, lemma_child_height, lemma_lookup_upsert, lemma_upsert_sorted, lookup,
    upsert, Entries, JsonMap, JsonValue, Tree,
};

verus! {

// ---------------------------------------------------------------------------
// Flattening
// ---------------------------------------------------------------------------

/// The key of a child: the child's own key at the top, else the key of its
/// parent, the separator and the child's own key.
pub open spec fn joined_key(prefix: Seq<char>, separator: Seq<char>, key: Seq<char>) -> Seq<char> {
    if prefix.len() == 0 {
        key
    } else {
        prefix + separator + key
    }
}

/// `out` with the leaves of `t` put under their flat keys, `prefix` being
/// the flat key of `t` itself. The entries of an object are taken in
/// order; a later leaf replaces an earlier one of the same flat key.
pub open spec fn flattened_into(out: Entries, prefix: Seq<char>, t: Tree, separator: Seq<char>) -> Entries
    decreases t, 0nat,
{
    match t {
        Tree::Object(es) => flattened_entries(out, prefix, es, separator, es.len()),
        _ => upsert(out, prefix, t),
    }
}

/// `out` with the leaves of the first `n` entries of an object put under
/// their flat keys.
pub open spec fn flattened_entries(
    out: Entries,
    prefix: Seq<char>,
    es: Entries,
    separator: Seq<char>,
    n: nat,
) -> Entries
    decreases es, n,
{
    if n == 0 || n > es.len() {
        out
    } else {
        flattened_into(
            flattened_entries(out, prefix, es, separator, (n - 1) as nat),
            joined_key(prefix, separator, es[n - 1].0),
            es[n - 1].1,
            separator,
        )
    }
}

/// The flat form of an object: every leaf under the keys on the way to it,
/// joined by the separator.
pub open spec fn flattened(es: Entries, separator: Seq<char>) -> Entries {
    flattened_entries(Entries::empty(), Seq::<char>::empty(), es, separator, es.len())
}

/// Puts the leaves of `value` into `out` under their flat keys.
fn flatten_value(prefix: &str, value: &JsonValue, separator: &str, out: &mut JsonMap)
    ensures
        final(out)@ == flattened_into(old(out)@, prefix@, value@, separator@),
    decreases height(value@),
{
    match value {
        JsonValue::Object(map) => {
            let ghost start = out@;
            let mut i: usize = 0;
            while i < map.len()
                invariant
                    i <= map@.len(),
                    value@ == Tree::Object(map@),
                    out@ == flattened_entries(start, prefix@, map@, separator@, i as nat),
                decreases map@.len() - i,
            {
                let key = map.key_at(i);
                let next = if prefix.unicode_len() == 0 {
                    key.clone()
                } else {
                    let mut p = owned(prefix);
                    p.append(separator);
                    p.append(key.as_str());
                    p
                };
                proof {
                    lemma_child_height(map@, i as int);
                }
                flatten_value(next.as_str(), map.value_at(i), separator, out);
                i = i + 1;
            }
        },
        other => {
            out.insert(owned(prefix), other.duplicate());
        },
    }
}

/// The flat form of an object.
pub fn flatten(map: &JsonMap, separator: &str) -> (r: JsonMap)
    ensures
        r@ == flattened(map@, separator@),
{
    let mut out = JsonMap::new();
    let mut i: usize = 0;
    while i < map.len()
        invariant
            i <= map@.len(),
            out@ == flattened_entries(
                Entries::empty(),
                Seq::<char>::empty(),
                map@,
                separator@,
                i as nat,
            ),
        decreases map@.len() - i,
    {
        flatten_value(map.key_at(i).as_str(), map.value_at(i), separator, &mut out);
        i = i + 1;
    }
    out
}

// ---------------------------------------------------------------------------
// Inputs and tables
// ---------------------------------------------------------------------------

/// One language with its document as JSON text.
#[derive(Debug, Clone)]
pub struct LangJsonInput {
    /// The language code, in any spelling.
    pub language: String,
    /// The document, as JSON text.
    pub content: String,
}

/// A table: a header and rows of cells.
#[derive(Debug, Clone)]
pub struct TableData {
    pub header: Vec<String>,
    pub rows: Vec<Vec<String>>,
}

/// A `TableData` with its strings as character sequences.
pub struct TableView {
    pub header: Seq<Seq<char>>,
    pub rows: Seq<Seq<Seq<char>>>,
}

impl View for TableData {
    type V = TableView;

    open spec fn view(&self) -> TableView {
        TableView { header: texts(self.header@), rows: table(self.rows@) }
    }
}

// ---------------------------------------------------------------------------
// Merging
// ---------------------------------------------------------------------------

/// What reading one document gave: the document, or why there is none.
pub type Reading = core::result::Result<Tree, Seq<char>>;

pub open spec fn reading_view(r: core::result::Result<JsonValue, String>) -> Reading {
    match r {
        Ok(v) => Ok(v@),
        Err(details) => Err(details@),
    }
}

/// The languages and readings of a list of inputs.
pub open spec fn input_languages(inputs: Seq<(String, core::result::Result<JsonValue, String>)>) -> Seq<
    Seq<char>,
> {
    Seq::new(inputs.len(), |i: int| inputs[i].0@)
}

pub open spec fn input_readings(inputs: Seq<(String, core::result::Result<JsonValue, String>)>) -> Seq<
    Reading,
> {
    Seq::new(inputs.len(), |i: int| reading_view(inputs[i].1))
}

pub open spec fn no_input_error() -> ErrorView {
    ErrorView {
        suggestion: Some("Provide at least one JSON input with language and content"@),
        ..empty_data_error()
    }
}

pub open spec fn duplicate_language_error(language: Seq<char>) -> ErrorView {
    ErrorView {
        kind: ErrorKind::Unknown,
        message: "Duplicate language provided: '"@ + language + "'"@,
        location: None,
        suggestion: Some("Provide each language only once"@),
    }
}

/// Whether one of the first `n` languages is, canonically spelled, the
/// language `language`.
pub open spec fn seen_before(languages: Seq<Seq<char>>, n: int, language: Seq<char>) -> bool {
    exists|j: int| 0 <= j < n && j < languages.len() && normalized(#[trigger] languages[j]) == language
}

/// What is wrong with input `i`, if anything: its language was given
/// before; or its text is not JSON; or its root is no object.
pub open spec fn input_problem(languages: Seq<Seq<char>>, readings: Seq<Reading>, i: int) -> Option<
    ErrorView,
> {
    if seen_before(languages, i, normalized(languages[i])) {
        Some(duplicate_language_error(normalized(languages[i])))
    } else {
        match readings[i] {
            Err(details) => Some(json_parse_error_of(languages[i], details)),
            Ok(Tree::Object(_)) => None,
            Ok(_) => Some(invalid_json_root_error(languages[i])),
        }
    }
}

/// What is wrong with the first of the first `n` inputs that has a
/// problem.
pub open spec fn first_problem(languages: Seq<Seq<char>>, readings: Seq<Reading>, n: int) -> Option<
    ErrorView,
>
    decreases n,
{
    if n <= 0 || n > languages.len() || n > readings.len() {
        None
    } else if first_problem(languages, readings, n - 1) is Some {
        first_problem(languages, readings, n - 1)
    } else {
        input_problem(languages, readings, n - 1)
    }
}

/// The flat form of each reading.
pub open spec fn flat_forms(readings: Seq<Reading>, separator: Seq<char>) -> Seq<Entries> {
    Seq::new(
        readings.len(),
        |i: int|
            match readings[i] {
                Ok(Tree::Object(es)) => flattened(es, separator),
                _ => Entries::empty(),
            },
    )
}

/// `acc` with the keys of the first `n` entries of `es` added.
pub open spec fn with_keys(acc: Entries, es: Entries, n: nat) -> Entries
    decreases n,
{
    if n == 0 || n > es.len() {
        acc
    } else {
        upsert(with_keys(acc, es, (n - 1) as nat), es[n - 1].0, Tree::Null)
    }
}

/// The keys of the first `n` flat forms, each once, in increasing order.
pub open spec fn key_union(flats: Seq<Entries>, n: nat) -> Entries
    decreases n,
{
    if n == 0 || n > flats.len() {
        Entries::empty()
    } else {
        with_keys(key_union(flats, (n - 1) as nat), flats[n - 1], flats[n - 1].len())
    }
}

/// The keys added to sorted keys stay sorted, and a key is among them just
/// where it was there or is a key of one of the first `n` entries.
pub proof fn lemma_with_keys(acc: Entries, es: Entries, n: nat, k: Seq<char>)
    requires
        keys_increase(acc),
        n <= es.len(),
    ensures
        keys_increase(with_keys(acc, es, n)),
        lookup(with_keys(acc, es, n), k) is Some <==> lookup(acc, k) is Some || exists|i: int|
            0 <= i < n && (#[trigger] es[i]).0 == k,
    decreases n,
{
    if n > 0 {
        let before = with_keys(acc, es, (n - 1) as nat);
        lemma_with_keys(acc, es, (n - 1) as nat, k);
        lemma_upsert_sorted(before, es[n - 1].0, Tree::Null);
        lemma_lookup_upsert(before, es[n - 1].0, Tree::Null, k);
        if lookup(with_keys(acc, es, n), k) is Some && !(lookup(acc, k) is Some) {
            if es[n - 1].0 != k {
                let i = choose|i: int| 0 <= i < n - 1 && (#[trigger] es[i]).0 == k;
                assert(0 <= i < n && es[i].0 == k);
            }
        }
    }
}

/// The union of the keys is sorted, and a key is in it just where one of
/// the flat forms has an entry under it.
pub proof fn lemma_key_union(flats: Seq<Entries>, n: nat, k: Seq<char>)
    requires
        n <= flats.len(),
    ensures
        keys_increase(key_union(flats, n)),
        lookup(key_union(flats, n), k) is Some <==> exists|i: int, j: int|
            0 <= i < n && 0 <= j < flats[i].len() && (#[trigger] flats[i][j]).0 == k,
    decreases n,
{
    if n > 0 {
        let m = (n - 1) as nat;
        let before = key_union(flats, m);
        lemma_key_union(flats, m, k);
        lemma_with_keys(before, flats[n - 1], flats[n - 1].len(), k);
        if lookup(key_union(flats, n), k) is Some {
            if lookup(before, k) is Some {
                let (i, j) = choose|i: int, j: int|
                    0 <= i < m && 0 <= j < flats[i].len() && (#[trigger] flats[i][j]).0 == k;
                assert(0 <= i < n && 0 <= j < flats[i].len() && flats[i][j].0 == k);
            } else {
                let j = choose|j: int|
                    0 <= j < flats[n - 1].len() && (#[trigger] flats[n - 1][j]).0 == k;
                assert(0 <= n - 1 < n && 0 <= j < flats[n - 1].len() && flats[n - 1][j].0 == k);
            }
        }
        if exists|i: int, j: int|
            0 <= i < n && 0 <= j < flats[i].len() && (#[trigger] flats[i][j]).0 == k {
            let (i, j) = choose|i: int, j: int|
                0 <= i < n && 0 <= j < flats[i].len() && (#[trigger] flats[i][j]).0 == k;
            if i < m {
                assert(0 <= i < m && 0 <= j < flats[i].len() && flats[i][j].0 == k);
            } else {
                assert(0 <= j < flats[n - 1].len() && flats[n - 1][j].0 == k);
            }
        }
    }
}

/// The text of a cell: a string as it is, any other scalar as its JSON
/// text, and nothing for `null` or where there is no value.
pub open spec fn cell_text(v: Option<Tree>) -> Seq<char> {
    match v {
        Some(Tree::Text(s)) => s,
        Some(Tree::Literal(s)) => s,
        _ => Seq::<char>::empty(),
    }
}

/// The row of a key: the key, then for each language the text under the
/// key, empty where the language has none.
pub open spec fn merged_row(key: Seq<char>, flats: Seq<Entries>) -> Seq<Seq<char>> {
    seq![key] + Seq::new(flats.len(), |i: int| cell_text(lookup(flats[i], key)))
}

/// The table of some languages and their flat forms: one row per key that
/// any language has, in increasing order of the keys.
pub open spec fn merged_table(languages: Seq<Seq<char>>, flats: Seq<Entries>) -> TableView {
    TableView {
        header: seq!["key"@] + Seq::new(languages.len(), |i: int| normalized(languages[i])),
        rows: Seq::new(
            key_union(flats, flats.len()).len(),
            |k: int| merged_row(key_union(flats, flats.len())[k].0, flats),
        ),
    }
}

/// What merging gives: an error where there is no input or an input has a
/// problem, else the table.
pub open spec fn merge_outcome(
    languages: Seq<Seq<char>>,
    readings: Seq<Reading>,
    separator: Seq<char>,
) -> core::result::Result<TableView, ErrorView> {
    if languages.len() == 0 {
        Err(no_input_error())
    } else if first_problem(languages, readings, languages.len() as int) is Some {
        Err(first_problem(languages, readings, languages.len() as int)->0)
    } else {
        Ok(merged_table(languages, flat_forms(readings, separator)))
    }
}

pub open spec fn table_result_view(r: Result<TableData>) -> core::result::Result<
    TableView,
    ErrorView,
> {
    match r {
        Ok(t) => Ok(t@),
        Err(e) => Err(e@),
    }
}

/// Once an input has a problem, it stays the first problem however many
/// inputs follow.
pub proof fn lemma_first_problem_stays(
    languages: Seq<Seq<char>>,
    readings: Seq<Reading>,
    i: int,
    n: int,
)
    requires
        0 <= i <= n <= languages.len(),
        n <= readings.len(),
        first_problem(languages, readings, i) is Some,
    ensures
        first_problem(languages, readings, n) == first_problem(languages, readings, i),
    decreases n - i,
{
    if i < n {
        lemma_first_problem_stays(languages, readings, i, n - 1);
    }
}

/// The text of a cell.
fn value_to_cell(value: &JsonValue) -> (r: String)
    ensures
        r@ == cell_text(Some(value@)),
{
    match value {
        JsonValue::Text(s) => s.clone(),
        JsonValue::Literal(s) => s.clone(),
        _ => String::new(),
    }
}

/// Whether one of the first `n` strings of `seen` is `language`.
fn is_seen(seen: &Vec<String>, language: &str) -> (r: bool)
    ensures
        r == exists|j: int| 0 <= j < seen@.len() && (#[trigger] seen@[j])@ == language@,
{
    let mut j: usize = 0;
    while j < seen.len()
        invariant
            j <= seen.len(),
            forall|k: int| 0 <= k < j ==> (#[trigger] seen@[k])@ != language@,
        decreases seen.len() - j,
    {
        if same_text(seen[j].as_str(), language) {
            return true;
        }
        j = j + 1;
    }
    false
}

/// Merges documents that were read already: each input is a language and
/// either its document or the reason why its text is no JSON.
pub fn merge_documents(
    inputs: &Vec<(String, core::result::Result<JsonValue, String>)>,
    separator: &str,
) -> (r: Result<TableData>)
    ensures
        table_result_view(r) == merge_outcome(
            input_languages(inputs@),
            input_readings(inputs@),
            separator@,
        ),
{
    let ghost languages = input_languages(inputs@);
    let ghost readings = input_readings(inputs@);
    let ghost all_flats = flat_forms(readings, separator@);
    if inputs.len() == 0 {
        return Err(
            ParseError::empty_data().with_suggestion(
                "Provide at least one JSON input with language and content",
            ),
        );
    }
    let mut codes: Vec<String> = Vec::new();
    let mut flats: Vec<JsonMap> = Vec::new();
    let mut i: usize = 0;
    while i < inputs.len()
        invariant
            i <= inputs.len(),
            languages == input_languages(inputs@),
            readings == input_readings(inputs@),
            all_flats == flat_forms(readings, separator@),
            first_problem(languages, readings, i as int) is None,
            codes@.len() == i,
            flats@.len() == i,
            forall|j: int| 0 <= j < i ==> (#[trigger] codes@[j])@ == normalized(languages[j]),
            forall|j: int| 0 <= j < i ==> (#[trigger] flats@[j])@ == all_flats[j],
        decreases inputs.len() - i,
    {
        let language = &inputs[i].0;
        assert(languages[i as int] == language@);
        assert(readings[i as int] == reading_view(inputs@[i as int].1));
        let code = normalize_lang_code(language.as_str());
        let seen = is_seen(&codes, code.as_str());
        proof {
            if seen {
                let j = choose|j: int| 0 <= j < codes@.len() && (#[trigger] codes@[j])@ == code@;
                assert(normalized(languages[j]) == code@);
            }
            if seen_before(languages, i as int, code@) {
                let j = choose|j: int|
                    0 <= j < i && j < languages.len() && normalized(#[trigger] languages[j])
                        == code@;
                assert(codes@[j]@ == code@);
            }
        }
        proof {
            if first_problem(languages, readings, i + 1) is Some {
                lemma_first_problem_stays(languages, readings, i + 1, languages.len() as int);
            }
        }
        if seen {
            let mut msg = owned("Duplicate language provided: '");
            msg.append(code.as_str());
            msg.append("'");
            return Err(
                ParseError::new(ErrorKind::Unknown, msg.as_str()).with_suggestion(
                    "Provide each language only once",
                ),
            );
        }
        let flat = match &inputs[i].1 {
            Err(details) => {
                return Err(ParseError::json_parse_failure(language.as_str(), details.as_str()));
            },
            Ok(JsonValue::Object(root)) => flatten(root, separator),
            Ok(_) => {
                return Err(ParseError::invalid_json_root(language.as_str()));
            },
        };
        codes.push(code);
        flats.push(flat);
        i = i + 1;
    }
    let mut keys = JsonMap::new();
    let mut n: usize = 0;
    while n < flats.len()
        invariant
            n <= flats.len(),
            flats@.len() == all_flats.len(),
            forall|j: int| 0 <= j < flats@.len() ==> (#[trigger] flats@[j])@ == all_flats[j],
            keys@ == key_union(all_flats, n as nat),
        decreases flats.len() - n,
    {
        let flat = &flats[n];
        let ghost start = keys@;
        let mut k: usize = 0;
        while k < flat.len()
            invariant
                k <= flat@.len(),
                n < all_flats.len(),
                flat@ == all_flats[n as int],
                keys@ == with_keys(start, flat@, k as nat),
            decreases flat@.len() - k,
        {
            keys.insert(flat.key_at(k).clone(), JsonValue::Null);
            k = k + 1;
        }
        n = n + 1;
    }
    let ghost key_list = key_union(all_flats, all_flats.len());
    let mut rows: Vec<Vec<String>> = Vec::new();
    let mut k: usize = 0;
    while k < keys.len()
        invariant
            k <= keys@.len(),
            keys@ == key_list,
            flats@.len() == all_flats.len(),
            forall|j: int| 0 <= j < flats@.len() ==> (#[trigger] flats@[j])@ == all_flats[j],
            rows@.len() == k,
            forall|j: int|
                0 <= j < k ==> texts((#[trigger] rows@[j])@) == merged_row(key_list[j].0, all_flats),
        decreases keys@.len() - k,
    {
        let key = keys.key_at(k);
        let mut row: Vec<String> = Vec::new();
        row.push(key.clone());
        let mut j: usize = 0;
        while j < flats.len()
            invariant
                j <= flats.len(),
                k < key_list.len(),
                key@ == key_list[k as int].0,
                flats@.len() == all_flats.len(),
                forall|m: int| 0 <= m < flats@.len() ==> (#[trigger] flats@[m])@ == all_flats[m],
                row@.len() == j + 1,
                row@[0]@ == key@,
                forall|m: int|
                    1 <= m <= j ==> (#[trigger] row@[m])@ == cell_text(
                        lookup(all_flats[m - 1], key@),
                    ),
            decreases flats.len() - j,
        {
            let cell = match flats[j].get(key.as_str()) {
                Some(v) => value_to_cell(v),
                None => String::new(),
            };
            row.push(cell);
            j = j + 1;
        }
        assert(texts(row@) =~= merged_row(key_list[k as int].0, all_flats));
        rows.push(row);
        k = k + 1;
    }
    let mut header: Vec<String> = Vec::new();
    header.push(owned("key"));
    let mut j: usize = 0;
    while j < codes.len()
        invariant
            j <= codes.len(),
            header@.len() == j + 1,
            header@[0]@ == "key"@,
            forall|m: int| 1 <= m <= j ==> (#[trigger] header@[m])@ == codes@[m - 1]@,
        decreases codes.len() - j,
    {
        header.push(codes[j].clone());
        j = j + 1;
    }
    let table = TableData { header, rows };
    assert(codes@.len() == languages.len());
    assert(table@.header =~= merged_table(languages, all_flats).header);
    assert(table@.rows =~= merged_table(languages, all_flats).rows);
    Ok(table)
}

/// Whether `readings` is what reading the contents gives: each document
/// that the JSON reader reads, and some reason for each text that it
/// refuses.
pub open spec fn readings_of(contents: Seq<Seq<char>>, readings: Seq<Reading>) -> bool {
    &&& readings.len() == contents.len()
    &&& forall|i: int|
        0 <= i < contents.len() ==> match json_document(#[trigger] contents[i]) {
            Some(t) => readings[i] == Ok::<Tree, Seq<char>>(t),
            None => readings[i] is Err,
        }
}

pub open spec fn languages_of(inputs: Seq<LangJsonInput>) -> Seq<Seq<char>> {
    Seq::new(inputs.len(), |i: int| inputs[i].language@)
}

pub open spec fn contents_of(inputs: Seq<LangJsonInput>) -> Seq<Seq<char>> {
    Seq::new(inputs.len(), |i: int| inputs[i].content@)
}

/// Merges the documents of several languages into one table: a row for
/// each key that any language has, a column for each language, an empty
/// cell where a language has no text for a key.
pub fn merge_jsons_to_table(inputs: &[LangJsonInput], separator: &str) -> (r: Result<TableData>)
    ensures
        exists|readings: Seq<Reading>|
            readings_of(contents_of(inputs@), readings) && table_result_view(r) == merge_outcome(
                languages_of(inputs@),
                readings,
                separator@,
            ),
{
    let mut read: Vec<(String, core::result::Result<JsonValue, String>)> = Vec::new();
    let mut i: usize = 0;
    while i < inputs.len()
        invariant
            i <= inputs.len(),
            read@.len() == i,
            input_languages(read@) == languages_of(inputs@).take(i as int),
            readings_of(contents_of(inputs@).take(i as int), input_readings(read@)),
        decreases inputs.len() - i,
    {
        let ghost before_languages = input_languages(read@);
        let ghost before_readings = input_readings(read@);
        let reading = match read_json(inputs[i].content.as_str()) {
            Ok(v) => Ok(v),
            Err(e) => Err(e.to_string()),
        };
        read.push((inputs[i].language.clone(), reading));
        proof {
            assert(input_languages(read@) =~= before_languages.push(inputs@[i as int].language@));
            assert(languages_of(inputs@).take(i + 1) =~= languages_of(inputs@).take(i as int).push(
                inputs@[i as int].language@,
            ));
            let contents = contents_of(inputs@).take(i + 1);
            let readings = input_readings(read@);
            assert forall|j: int| 0 <= j < contents.len() implies match json_document(
                #[trigger] contents[j],
            ) {
                Some(t) => readings[j] == Ok::<Tree, Seq<char>>(t),
                None => readings[j] is Err,
            } by {
                if j < i {
                    assert(contents[j] == contents_of(inputs@).take(i as int)[j]);
                    assert(readings[j] == before_readings[j]);
                }
            }
        }
        i = i + 1;
    }
    assert(languages_of(inputs@).take(inputs@.len() as int) == languages_of(inputs@));
    assert(contents_of(inputs@).take(inputs@.len() as int) == contents_of(inputs@));
    merge_documents(&read, separator)
}

// ---------------------------------------------------------------------------
// Writing the table as CSV
// ---------------------------------------------------------------------------

/// Why writing a table as CSV failed: at a record, or at the end when the
/// writer hands out what it wrote.
pub enum WriteFailure {
    Record(csv::Error),
    Finish(std::io::Error),
}

/// The bytes that the CSV writer writes for a header and rows; nothing
/// where it fails.
pub uninterp spec fn csv_bytes(header: Seq<Seq<char>>, rows: Seq<Seq<Seq<char>>>) -> Option<Seq<u8>>;

/// Writes the header and each row with `csv::Writer::write_record` into
/// memory, and takes the bytes with `csv::Writer::into_inner`.
#[verifier::external_body]
fn write_records(header: &Vec<String>, rows: &Vec<Vec<String>>) -> (r: core::result::Result<
    Vec<u8>,
    WriteFailure,
>)
    ensures
        match r {
            Ok(bytes) => csv_bytes(texts(header@), table(rows@)) == Some(bytes@),
            Err(_) => csv_bytes(texts(header@), table(rows@)) is None,
        },
{
    let mut writer = csv::Writer::from_writer(Vec::new());
    writer.write_record(header).map_err(WriteFailure::Record)?;
    for row in rows {
        writer.write_record(row).map_err(WriteFailure::Record)?;
    }
    writer.into_inner().map_err(|e| WriteFailure::Finish(e.into_error()))
}

/// `String::from_utf8` gives the text that the bytes encode where they are
/// UTF-8, and an error where they are not.
#[verifier::external_body]
fn string_from_utf8(bytes: Vec<u8>) -> (r: core::result::Result<String, core::str::Utf8Error>)
    ensures
        match r {
            Ok(s) => valid_utf8(bytes@) && s@ == decode_utf8(bytes@),
            Err(_) => !valid_utf8(bytes@),
        },
{
    String::from_utf8(bytes).map_err(|e| e.utf8_error())
}

/// What writing a table as CSV gives: the text that the written bytes
/// encode; `CsvParseError` or `IoError` where the writer fails, and
/// `Utf8Error` where it wrote bytes that are not UTF-8.
pub open spec fn written(table: TableView, r: core::result::Result<String, ParseError>) -> bool {
    match csv_bytes(table.header, table.rows) {
        Some(bytes) => if valid_utf8(bytes) {
            r matches Ok(s) && s@ == decode_utf8(bytes)
        } else {
            r matches Err(e) && exists|at: usize| e@ == utf8_error_at(at)
        },
        None => r matches Err(e) && (is_csv_failure(e@) || exists|details: Seq<char>|
            e@ == io_error_of(details)),
    }
}

/// Writes a table as CSV text: the header, then the rows.
pub fn table_to_csv(table: &TableData) -> (r: Result<String>)
    ensures
        written(table@, r),
{
    let bytes = match write_records(&table.header, &table.rows) {
        Ok(bytes) => bytes,
        Err(WriteFailure::Record(e)) => {
            let error = ParseError::csv_parse_error(&e);
            return Err(error);
        },
        Err(WriteFailure::Finish(e)) => {
            let error = ParseError::io_error(&e);
            return Err(error);
        },
    };
    match string_from_utf8(bytes) {
        Ok(s) => Ok(s),
        Err(e) => {
            let error = ParseError::utf8_error(&e);
            Err(error)
        },
    }
}

/// Merges the documents of several languages into one table and writes it
/// as CSV text.
pub fn merge_jsons_to_csv(inputs: &[LangJsonInput], separator: &str) -> (r: Result<String>)
    ensures
        exists|readings: Seq<Reading>|
            readings_of(contents_of(inputs@), readings) && match merge_outcome(
                languages_of(inputs@),
                readings,
                separator@,
            ) {
                Ok(table) => written(table, r),
                Err(e) => r matches Err(x) && x@ == e,
            },
{
    let merged = merge_jsons_to_table(inputs, separator);
    let ghost readings = choose|readings: Seq<Reading>|
        readings_of(contents_of(inputs@), readings) && table_result_view(merged) == merge_outcome(
            languages_of(inputs@),
            readings,
            separator@,
        );
    let r = match merged {
        Ok(table) => table_to_csv(&table),
        Err(e) => Err(e),
    };
    assert(readings_of(contents_of(inputs@), readings) && match merge_outcome(
        languages_of(inputs@),
        readings,
        separator@,
    ) {
        Ok(table) => written(table, r),
        Err(e) => r matches Err(x) && x@ == e,
    });
    r
}

} // verus!
