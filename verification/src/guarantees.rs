//! What holds of every table that is turned into documents.

use vstd::prelude::*;
use crate::error::ErrorKind;
use crate::export::flattened;
use crate::lang_codes::normalized;
use crate::parser::{
    assembled, cell, column_entries, flat_document, header_error, header_languages,
    is_separator_like, languages_upto, nested_document, row_key, unexpected_in, unexpected_upto,
};
use crate::paths::{begins, comparable, leaf_at, lemma_leaf_after_insert, Path};
use crate::round_trip::{
    flat_leaf, is_document_root, lemma_flat_leaf_found, lemma_flat_leaf_some,
    lemma_insert_path_document, lemma_renested_document, lemma_renested_leaves,
    lemma_round_trip_any_order, lemma_same_leaves, lists_entries, renested, top_objects_named,
};
use crate::text::{lemma_join_split, lemma_split_free, split_on, trimmed};
use crate::types::separator_char;
use crate::value::{
    keys_increase, lemma_lookup_upsert, lemma_same_lookups, lemma_upsert_sorted, lookup, Entries,
    Tree,
};

verus! {

// ---------------------------------------------------------------------------
// Languages
// ---------------------------------------------------------------------------

/// Where no column of the header is blank, the languages are the columns
/// after the key column, trimmed and canonically spelled, in their order.
pub proof fn lemma_languages_follow_header(headers: Seq<Seq<char>>, n: int)
    requires
        1 <= n <= headers.len(),
        forall|i: int| 1 <= i < n ==> trimmed(#[trigger] headers[i]).len() > 0,
    ensures
        languages_upto(headers, n) == Seq::new(
            (n - 1) as nat,
            |i: int| normalized(trimmed(headers[i + 1])),
        ),
    decreases n,
{
    if n > 1 {
        lemma_languages_follow_header(headers, n - 1);
        assert(trimmed(headers[n - 1]).len() > 0);
        assert(languages_upto(headers, n) =~= Seq::new(
            (n - 1) as nat,
            |i: int| normalized(trimmed(headers[i + 1])),
        ));
    } else {
        assert(languages_upto(headers, n) =~= Seq::new(
            (n - 1) as nat,
            |i: int| normalized(trimmed(headers[i + 1])),
        ));
    }
}

/// A table that is accepted has the languages of its header, in the order
/// of the columns, and counts every row.
pub proof fn lemma_languages_and_rows(
    headers: Seq<Seq<char>>,
    rows: Seq<Seq<Seq<char>>>,
    separator: Seq<char>,
    nested: bool,
    process_escapes: bool,
)
    requires
        assembled(headers, rows, separator, nested, process_escapes) is Ok,
    ensures
        assembled(headers, rows, separator, nested, process_escapes)->Ok_0.languages
            == header_languages(headers),
        assembled(headers, rows, separator, nested, process_escapes)->Ok_0.row_count == rows.len(),
{
}

// ---------------------------------------------------------------------------
// Separators
// ---------------------------------------------------------------------------

/// A separator character other than the expected one in a key shows among
/// the unexpected characters of the key.
pub proof fn lemma_unexpected_in(key: Seq<char>, expected: char, j: int)
    requires
        0 <= j < key.len(),
        is_separator_like(key[j]),
        key[j] != expected,
    ensures
        unexpected_in(key, expected).len() > 0,
    decreases key.len(),
{
    if j < key.len() - 1 {
        lemma_unexpected_in(key.drop_last(), expected, j);
    }
}

/// A key with an unexpected separator character shows among the unexpected
/// characters of the rows.
pub proof fn lemma_unexpected_upto(rows: Seq<Seq<Seq<char>>>, expected: char, n: int, i: int)
    requires
        0 <= i < n <= rows.len(),
        unexpected_in(row_key(rows[i]), expected).len() > 0,
    ensures
        unexpected_upto(rows, expected, n).len() > 0,
    decreases n,
{
    if i < n - 1 {
        lemma_unexpected_upto(rows, expected, n - 1, i);
    }
}

/// A table with a good header in which the key of some row holds one of
/// `.`, `/`, `-` that is not the configured separator is refused with
/// `MixedSeparators`, whatever else it holds.
pub proof fn lemma_other_separator_is_refused(
    headers: Seq<Seq<char>>,
    rows: Seq<Seq<Seq<char>>>,
    separator: Seq<char>,
    nested: bool,
    process_escapes: bool,
    i: int,
    j: int,
)
    requires
        header_error(headers) is None,
        0 <= i < rows.len(),
        0 <= j < row_key(rows[i]).len(),
        is_separator_like(row_key(rows[i])[j]),
        row_key(rows[i])[j] != separator_char(separator),
    ensures
        assembled(headers, rows, separator, nested, process_escapes) is Err,
        assembled(headers, rows, separator, nested, process_escapes)->Err_0.kind
            == ErrorKind::MixedSeparators,
{
    let expected = separator_char(separator);
    lemma_unexpected_in(row_key(rows[i]), expected, j);
    lemma_unexpected_upto(rows, expected, rows.len() as int, i);
}

// ---------------------------------------------------------------------------
// Missing translations
// ---------------------------------------------------------------------------

/// Where every row with the key `k` has an empty cell in a column, the
/// column gives no translation for `k`.
pub proof fn lemma_no_entry(
    rows: Seq<Seq<Seq<char>>>,
    c: int,
    process_escapes: bool,
    n: int,
    k: Seq<char>,
    i: int,
)
    requires
        forall|r: int| 0 <= r < n && r < rows.len() && row_key(#[trigger] rows[r]) == k ==> cell(
            rows[r],
            c,
        ).len() == 0,
        0 <= i < column_entries(rows, c, process_escapes, n).len(),
    ensures
        column_entries(rows, c, process_escapes, n)[i].0 != k,
    decreases n,
{
    if n > 0 && n <= rows.len() {
        let before = column_entries(rows, c, process_escapes, n - 1);
        if i < before.len() {
            lemma_no_entry(rows, c, process_escapes, n - 1, k, i);
        }
    }
}

/// A flat document holds texts only, and nothing under a key that no
/// translation has.
pub proof fn lemma_flat_document(entries: Seq<(Seq<char>, Seq<char>)>, k: Seq<char>)
    ensures
        lookup(flat_document(entries), k) matches Some(v) ==> v is Text,
        (forall|i: int| 0 <= i < entries.len() ==> (#[trigger] entries[i]).0 != k) ==> lookup(
            flat_document(entries),
            k,
        ) is None,
    decreases entries.len(),
{
    if entries.len() > 0 {
        let before = entries.drop_last();
        lemma_flat_document(before, k);
        lemma_lookup_upsert(
            flat_document(before),
            entries.last().0,
            Tree::Text(entries.last().1),
            k,
        );
        if forall|i: int| 0 <= i < entries.len() ==> (#[trigger] entries[i]).0 != k {
            assert(entries[entries.len() - 1].0 != k);
            assert forall|i: int| 0 <= i < before.len() implies (#[trigger] before[i]).0 != k by {
                assert(before[i] == entries[i]);
            }
        }
    }
}

/// A nested document holds texts only as leaves, and no leaf at the path
/// of a key that no translation has.
pub proof fn lemma_nested_document(entries: Seq<(Seq<char>, Seq<char>)>, sep: char, q: Path)
    ensures
        leaf_at(nested_document(entries, sep), q) matches Some(v) ==> v is Text,
        (forall|i: int| 0 <= i < entries.len() ==> split_on((#[trigger] entries[i]).0, sep) != q)
            ==> leaf_at(nested_document(entries, sep), q) is None,
    decreases entries.len(),
{
    if entries.len() > 0 {
        let before = entries.drop_last();
        lemma_nested_document(before, sep, q);
        crate::text::lemma_split_on_nonempty(entries.last().0, sep);
        lemma_leaf_after_insert(
            nested_document(before, sep),
            split_on(entries.last().0, sep),
            Tree::Text(entries.last().1),
            q,
        );
        if forall|i: int| 0 <= i < entries.len() ==> split_on((#[trigger] entries[i]).0, sep) != q {
            assert(split_on(entries[entries.len() - 1].0, sep) != q);
            assert forall|i: int| 0 <= i < before.len() implies split_on(
                (#[trigger] before[i]).0,
                sep,
            ) != q by {
                assert(before[i] == entries[i]);
            }
        }
    }
}

/// A translation that is missing leaves nothing behind: where every row
/// with the key `k` has an empty cell in the column of a language, the
/// flat document of the language has no entry under `k` and its nested
/// document has no leaf at the path of `k`; in particular there is no
/// `null` and no empty text in its place.
pub proof fn lemma_missing_translation_is_absent(
    rows: Seq<Seq<Seq<char>>>,
    c: int,
    process_escapes: bool,
    sep: char,
    k: Seq<char>,
)
    requires
        forall|r: int| 0 <= r < rows.len() && row_key(#[trigger] rows[r]) == k ==> cell(
            rows[r],
            c,
        ).len() == 0,
    ensures
        lookup(flat_document(column_entries(rows, c, process_escapes, rows.len() as int)), k)
            is None,
        leaf_at(
            nested_document(column_entries(rows, c, process_escapes, rows.len() as int), sep),
            split_on(k, sep),
        ) is None,
{
    let entries = column_entries(rows, c, process_escapes, rows.len() as int);
    assert forall|i: int| 0 <= i < entries.len() implies (#[trigger] entries[i]).0 != k by {
        lemma_no_entry(rows, c, process_escapes, rows.len() as int, k, i);
    }
    assert forall|i: int| 0 <= i < entries.len() implies split_on((#[trigger] entries[i]).0, sep)
        != split_on(k, sep) by {
        lemma_join_split(entries[i].0, sep);
        lemma_join_split(k, sep);
    }
    lemma_flat_document(entries, k);
    lemma_nested_document(entries, sep, split_on(k, sep));
}

// ---------------------------------------------------------------------------
// The round trip of a table's documents
// ---------------------------------------------------------------------------

/// The nested document of any list of translations is a document.
pub proof fn lemma_nested_is_document(entries: Seq<(Seq<char>, Seq<char>)>, sep: char)
    ensures
        is_document_root(nested_document(entries, sep), sep),
    decreases entries.len(),
{
    if entries.len() > 0 {
        lemma_nested_is_document(entries.drop_last(), sep);
        lemma_split_free(entries.last().0, sep);
        lemma_insert_path_document(
            nested_document(entries.drop_last(), sep),
            split_on(entries.last().0, sep),
            Tree::Text(entries.last().1),
            sep,
        );
    }
}

/// Flattening the nested document of a table with the table's separator
/// and nesting the entries of the flat form again, in any order, gives the
/// document back, whatever the rows were, unless the document has an
/// object under the empty key at its top, as a key that begins with the
/// separator makes one.
pub proof fn lemma_nested_document_round_trip(
    entries: Seq<(Seq<char>, Seq<char>)>,
    sep: char,
    order: Entries,
)
    requires
        top_objects_named(nested_document(entries, sep)),
        lists_entries(order, flattened(nested_document(entries, sep), seq![sep])),
    ensures
        renested(order, sep, order.len()) == nested_document(entries, sep),
{
    lemma_nested_is_document(entries, sep);
    lemma_round_trip_any_order(nested_document(entries, sep), sep, order);
}

// ---------------------------------------------------------------------------
// The order of the rows
// ---------------------------------------------------------------------------

/// Whether two lists hold the same translations, in whatever order and
/// however often.
pub open spec fn same_translations(
    a: Seq<(Seq<char>, Seq<char>)>,
    b: Seq<(Seq<char>, Seq<char>)>,
) -> bool {
    &&& forall|i: int| 0 <= i < a.len() ==> b.contains(#[trigger] a[i])
    &&& forall|j: int| 0 <= j < b.len() ==> a.contains(#[trigger] b[j])
}

/// Whether no key has two texts.
pub open spec fn one_text_per_key(entries: Seq<(Seq<char>, Seq<char>)>) -> bool {
    forall|i: int, j: int|
        0 <= i < j < entries.len() ==> #[trigger] entries[i] == #[trigger] entries[j]
            || entries[i].0 != entries[j].0
}

/// Whether no key has two texts and no key names a path that begins the
/// path of another: no leaf stands where a branch is needed.
pub open spec fn free_of_conflicts(entries: Seq<(Seq<char>, Seq<char>)>, sep: char) -> bool {
    forall|i: int, j: int|
        0 <= i < j < entries.len() ==> #[trigger] entries[i] == #[trigger] entries[j]
            || !comparable(split_on(entries[i].0, sep), split_on(entries[j].0, sep))
}

/// The translations as entries with text leaves.
pub open spec fn as_entries(entries: Seq<(Seq<char>, Seq<char>)>) -> Entries {
    Seq::new(entries.len(), |i: int| (entries[i].0, Tree::Text(entries[i].1)))
}

/// The nested document of the first `n` translations is the nested form
/// of the first `n` of them as entries.
pub proof fn lemma_nested_is_renested(entries: Seq<(Seq<char>, Seq<char>)>, sep: char, n: nat)
    requires
        n <= entries.len(),
    ensures
        nested_document(entries.take(n as int), sep) == renested(as_entries(entries), sep, n),
    decreases n,
{
    if n > 0 {
        lemma_nested_is_renested(entries, sep, (n - 1) as nat);
        assert(entries.take(n as int).drop_last() == entries.take(n - 1));
        assert(entries.take(n as int).last() == entries[n - 1]);
    }
}

/// The leaves of the nested form of one list are leaves of the nested form
/// of another list that holds the same translations without conflicts.
proof fn lemma_leaves_carry_over(
    a: Seq<(Seq<char>, Seq<char>)>,
    b: Seq<(Seq<char>, Seq<char>)>,
    sep: char,
    q: Path,
)
    requires
        free_of_conflicts(b, sep),
        same_translations(a, b),
        flat_leaf(as_entries(a), sep, a.len(), q) is Some,
    ensures
        flat_leaf(as_entries(b), sep, b.len(), q) == flat_leaf(as_entries(a), sep, a.len(), q),
{
    let ea = as_entries(a);
    let eb = as_entries(b);
    let i = lemma_flat_leaf_found(ea, sep, a.len(), q);
    assert(b.contains(a[i]));
    let j = choose|j: int| 0 <= j < b.len() && b[j] == a[i];
    assert(eb[j] == ea[i]);
    lemma_flat_leaf_some(eb, sep, b.len(), q, j);
    let k = lemma_flat_leaf_found(eb, sep, b.len(), q);
    assert(begins(q, q)) by {
        assert(q.take(q.len() as int) =~= q);
    }
    if k < j {
        assert(b[k] == b[j] || !comparable(split_on(b[k].0, sep), split_on(b[j].0, sep)));
    } else if j < k {
        assert(b[j] == b[k] || !comparable(split_on(b[j].0, sep), split_on(b[k].0, sep)));
    }
}

/// The nested document does not depend on the order of the rows: two
/// lists that hold the same translations, without a key that has two
/// texts and without a leaf where a branch is needed, give the same
/// document.
pub proof fn lemma_row_order_nested(
    a: Seq<(Seq<char>, Seq<char>)>,
    b: Seq<(Seq<char>, Seq<char>)>,
    sep: char,
)
    requires
        free_of_conflicts(a, sep),
        free_of_conflicts(b, sep),
        same_translations(a, b),
    ensures
        nested_document(a, sep) == nested_document(b, sep),
{
    let ea = as_entries(a);
    let eb = as_entries(b);
    lemma_nested_is_renested(a, sep, a.len());
    lemma_nested_is_renested(b, sep, b.len());
    assert(a.take(a.len() as int) == a);
    assert(b.take(b.len() as int) == b);
    lemma_renested_document(ea, sep, ea.len());
    lemma_renested_document(eb, sep, eb.len());
    assert forall|q: Path|
        leaf_at(renested(ea, sep, ea.len()), q) == leaf_at(renested(eb, sep, eb.len()), q) by {
        lemma_renested_leaves(ea, sep, ea.len(), q);
        lemma_renested_leaves(eb, sep, eb.len(), q);
        if flat_leaf(ea, sep, a.len(), q) is Some {
            lemma_leaves_carry_over(a, b, sep, q);
        } else if flat_leaf(eb, sep, b.len(), q) is Some {
            lemma_leaves_carry_over(b, a, sep, q);
        }
    }
    lemma_same_leaves(renested(ea, sep, ea.len()), renested(eb, sep, eb.len()), sep);
}

/// What stands under a key in the flat document of translations of which
/// no key has two texts: the text of the translation with that key.
pub proof fn lemma_flat_lookup(entries: Seq<(Seq<char>, Seq<char>)>, i: int)
    requires
        one_text_per_key(entries),
        0 <= i < entries.len(),
    ensures
        lookup(flat_document(entries), entries[i].0) == Some(Tree::Text(entries[i].1)),
        keys_increase(flat_document(entries)),
    decreases entries.len(),
{
    let before = entries.drop_last();
    let last = entries.last();
    lemma_flat_sorted(before);
    lemma_upsert_sorted(flat_document(before), last.0, Tree::Text(last.1));
    lemma_lookup_upsert(flat_document(before), last.0, Tree::Text(last.1), entries[i].0);
    if i < entries.len() - 1 {
        assert(one_text_per_key(before)) by {
            assert forall|x: int, y: int| 0 <= x < y < before.len() implies #[trigger] before[x]
                == #[trigger] before[y] || before[x].0 != before[y].0 by {
                assert(before[x] == entries[x] && before[y] == entries[y]);
            }
        }
        assert(before[i] == entries[i]);
        lemma_flat_lookup(before, i);
        assert(entries[i] == entries[entries.len() - 1] || entries[i].0 != entries[entries.len()
            - 1].0);
    }
}

/// The keys of a flat document increase.
pub proof fn lemma_flat_sorted(entries: Seq<(Seq<char>, Seq<char>)>)
    ensures
        keys_increase(flat_document(entries)),
    decreases entries.len(),
{
    if entries.len() > 0 {
        lemma_flat_sorted(entries.drop_last());
        lemma_upsert_sorted(
            flat_document(entries.drop_last()),
            entries.last().0,
            Tree::Text(entries.last().1),
        );
    }
}

/// The flat document does not depend on the order of the rows: two lists
/// that hold the same translations, without a key that has two texts,
/// give the same document.
pub proof fn lemma_row_order_flat(a: Seq<(Seq<char>, Seq<char>)>, b: Seq<(Seq<char>, Seq<char>)>)
    requires
        one_text_per_key(a),
        one_text_per_key(b),
        same_translations(a, b),
    ensures
        flat_document(a) == flat_document(b),
{
    lemma_flat_sorted(a);
    lemma_flat_sorted(b);
    assert forall|k: Seq<char>| lookup(flat_document(a), k) == lookup(flat_document(b), k) by {
        lemma_flat_document(a, k);
        lemma_flat_document(b, k);
        if exists|i: int| 0 <= i < a.len() && (#[trigger] a[i]).0 == k {
            let i = choose|i: int| 0 <= i < a.len() && (#[trigger] a[i]).0 == k;
            assert(b.contains(a[i]));
            let j = choose|j: int| 0 <= j < b.len() && b[j] == a[i];
            lemma_flat_lookup(a, i);
            lemma_flat_lookup(b, j);
        } else if exists|j: int| 0 <= j < b.len() && (#[trigger] b[j]).0 == k {
            let j = choose|j: int| 0 <= j < b.len() && (#[trigger] b[j]).0 == k;
            assert(a.contains(b[j]));
            let i = choose|i: int| 0 <= i < a.len() && a[i] == b[j];
            assert(a[i].0 == k);
        }
    }
    lemma_same_lookups(flat_document(a), flat_document(b));
}

} // verus!
