//! Flattening a document and nesting the flat form again gives the
//! document back.
//!
//! The proof compares documents by their leaves: a document is determined
//! by the leaf that stands at each path, flattening lists exactly the
//! leaves, and nesting puts each where it was.

use vstd::prelude::*;
use crate::export::{flattened, flattened_entries, flattened_into, joined_key};
use crate::parser::{child_entries, insert_path};
use crate::paths::{begins, comparable, leaf_at, lemma_leaf_after_insert, value_at, Path};
use crate::text::{
    free_of, join_with, lemma_join_split, lemma_split_free, lemma_split_join, split_on,
};
use crate::value::{
    height, keys_increase, lemma_child_height, lemma_lookup_entry, lemma_lookup_found,
    lemma_lookup_none, lemma_lookup_upsert, lemma_rank, lemma_same_lookups,
    lemma_upsert_at_rank, lemma_upsert_sorted, lookup, rank, upsert, Entries, Tree,
};

verus! {

// ---------------------------------------------------------------------------
// Documents
// ---------------------------------------------------------------------------

/// Whether `t` can stand inside a nested document: a leaf, or an object
/// that has entries, whose keys increase and hold no separator, and whose
/// values can stand inside a nested document.
pub open spec fn is_document(t: Tree, sep: char) -> bool
    decreases t,
{
    match t {
        Tree::Object(es) => es.len() > 0 && keys_increase(es) && forall|i: int|
            0 <= i < es.len() ==> !(#[trigger] es[i]).0.contains(sep) && is_document(es[i].1, sep),
        _ => true,
    }
}

/// Whether `es` are the entries of a nested document: as inside, but the
/// document itself may be empty.
pub open spec fn is_document_root(es: Entries, sep: char) -> bool {
    keys_increase(es) && forall|i: int|
        0 <= i < es.len() ==> !(#[trigger] es[i]).0.contains(sep) && is_document(es[i].1, sep)
}

/// The document made of the first `n` entries of a flat form: each key
/// split at `sep` into a path, the value put at the end of it.
pub open spec fn renested(flat: Entries, sep: char, n: nat) -> Entries
    decreases n,
{
    if n == 0 || n > flat.len() {
        Entries::empty()
    } else {
        insert_path(renested(flat, sep, (n - 1) as nat), split_on(flat[n - 1].0, sep), flat[n - 1].1)
    }
}

/// The value of the last of the first `n` flat entries whose key names the
/// path `q`.
pub open spec fn flat_leaf(flat: Entries, sep: char, n: nat, q: Path) -> Option<Tree>
    decreases n,
{
    if n == 0 || n > flat.len() {
        None
    } else if split_on(flat[n - 1].0, sep) == q {
        Some(flat[n - 1].1)
    } else {
        flat_leaf(flat, sep, (n - 1) as nat, q)
    }
}

/// What `flat_leaf` finds is the value of an entry whose key names the
/// path.
pub proof fn lemma_flat_leaf_found(flat: Entries, sep: char, n: nat, q: Path) -> (i: int)
    requires
        flat_leaf(flat, sep, n, q) is Some,
    ensures
        0 <= i < n,
        i < flat.len(),
        split_on(flat[i].0, sep) == q,
        flat_leaf(flat, sep, n, q) == Some(flat[i].1),
    decreases n,
{
    if split_on(flat[n - 1].0, sep) == q {
        n - 1
    } else {
        lemma_flat_leaf_found(flat, sep, (n - 1) as nat, q)
    }
}

/// No leaf stands at a path that goes on beyond a leaf.
pub proof fn lemma_nothing_beyond_a_leaf(es: Entries, p: Path, q: Path)
    requires
        leaf_at(es, p) is Some,
        begins(p, q),
        p != q,
    ensures
        value_at(es, q) is None,
    decreases p.len(),
{
    assert(q.len() > p.len()) by {
        if q.len() == p.len() {
            assert(q.take(p.len() as int) =~= q);
        }
    }
    assert(q.take(p.len() as int)[0] == q[0]);
    if p.len() >= 2 {
        crate::paths::lemma_same_head(p, q);
        match lookup(es, p[0]) {
            Some(Tree::Object(c)) => {
                lemma_nothing_beyond_a_leaf(c, p.drop_first(), q.drop_first());
            },
            _ => {},
        }
    }
}

/// Where the values are leaves and the keys of two different entries never
/// name comparable paths, the leaves of the nested form are the values of
/// the flat form, each at the path that its key names, in whatever order
/// the entries stand and however often one of them is repeated.
pub proof fn lemma_renested_leaves(flat: Entries, sep: char, n: nat, q: Path)
    requires
        n <= flat.len(),
        forall|i: int| 0 <= i < n ==> !((#[trigger] flat[i]).1 is Object),
        forall|i: int, j: int|
            0 <= i < j < n ==> #[trigger] flat[i] == #[trigger] flat[j] || !comparable(
                split_on(flat[i].0, sep),
                split_on(flat[j].0, sep),
            ),
    ensures
        leaf_at(renested(flat, sep, n), q) == flat_leaf(flat, sep, n, q),
    decreases n,
{
    if n > 0 {
        let m = (n - 1) as nat;
        let p = split_on(flat[n - 1].0, sep);
        crate::text::lemma_split_on_nonempty(flat[n - 1].0, sep);
        lemma_renested_leaves(flat, sep, m, q);
        lemma_leaf_after_insert(renested(flat, sep, m), p, flat[n - 1].1, q);
        if q != p && comparable(p, q) {
            if flat_leaf(flat, sep, m, q) is Some {
                let i = lemma_flat_leaf_found(flat, sep, m, q);
                assert(flat[i] == flat[n - 1] || !comparable(
                    split_on(flat[i].0, sep),
                    split_on(flat[n - 1].0, sep),
                ));
            }
        }
    }
}

// ---------------------------------------------------------------------------
// The leaves of a flat form
// ---------------------------------------------------------------------------

/// What is left of the path `kp` behind its beginning `at`, where it
/// begins so.
pub open spec fn below(at: Path, kp: Path) -> Option<Path> {
    if begins(at, kp) {
        Some(kp.skip(at.len() as int))
    } else {
        None
    }
}

/// The leaf at the end of `q` inside `t`; the empty path ends at `t`
/// itself.
pub open spec fn leaf_in(t: Tree, q: Path) -> Option<Tree> {
    if q.len() == 0 {
        if t is Object {
            None
        } else {
            Some(t)
        }
    } else {
        match t {
            Tree::Object(es) => leaf_at(es, q),
            _ => None,
        }
    }
}

/// The leaf at the end of `q` that is reached through one of the first `n`
/// entries.
pub open spec fn leaf_among(es: Entries, n: nat, q: Path) -> Option<Tree>
    decreases n,
{
    if n == 0 || n > es.len() || q.len() == 0 {
        None
    } else if es[n - 1].0 == q[0] {
        leaf_in(es[n - 1].1, q.drop_first())
    } else {
        leaf_among(es, (n - 1) as nat, q)
    }
}

/// Where none of the first `n` keys begins the path, no leaf is reached
/// through them.
pub proof fn lemma_leaf_among_none(es: Entries, n: nat, q: Path)
    requires
        q.len() >= 1,
        forall|i: int| 0 <= i < n && i < es.len() ==> (#[trigger] es[i]).0 != q[0],
    ensures
        leaf_among(es, n, q) is None,
    decreases n,
{
    if n > 0 && n <= es.len() {
        assert(es[n - 1].0 != q[0]);
        lemma_leaf_among_none(es, (n - 1) as nat, q);
    }
}

/// The leaf at a path is the leaf at the rest of the path inside what
/// stands under the first key.
pub proof fn lemma_leaf_at_head(es: Entries, q: Path)
    requires
        q.len() >= 1,
    ensures
        leaf_at(es, q) == match lookup(es, q[0]) {
            Some(t) => leaf_in(t, q.drop_first()),
            None => None,
        },
{
}

/// Through all entries of a sorted object, every leaf of it is reached.
pub proof fn lemma_leaf_among_all(es: Entries, n: nat, q: Path)
    requires
        keys_increase(es),
        q.len() >= 1,
        n <= es.len(),
    ensures
        leaf_among(es, n, q) == match lookup(es.take(n as int), q[0]) {
            Some(t) => leaf_in(t, q.drop_first()),
            None => None,
        },
    decreases n,
{
    let first = es.take(n as int);
    assert(keys_increase(first));
    if n == 0 {
    } else if es[n - 1].0 == q[0] {
        assert(first[n - 1] == es[n - 1]);
        lemma_lookup_entry(first, n - 1);
    } else {
        lemma_leaf_among_all(es, (n - 1) as nat, q);
        let before = es.take(n - 1);
        assert(keys_increase(before));
        if lookup(before, q[0]) is Some {
            let i = lemma_lookup_found(before, q[0]);
            assert(first[i] == before[i]);
            lemma_lookup_entry(first, i);
        } else {
            assert forall|j: int| 0 <= j < first.len() implies (#[trigger] first[j]).0 != q[0] by {
                if j < n - 1 {
                    assert(first[j] == before[j]);
                    if before[j].0 == q[0] {
                        lemma_lookup_entry(before, j);
                    }
                }
            }
            lemma_lookup_none(first, q[0]);
        }
    }
}

/// A path that begins with `at` and one more key: what is left behind
/// `at` begins with that key.
pub proof fn lemma_below_push(at: Path, key: Seq<char>, kp: Path)
    ensures
        below(at.push(key), kp) == match below(at, kp) {
            Some(q) => if q.len() >= 1 && q[0] == key {
                Some(q.drop_first())
            } else {
                None
            },
            None => None,
        },
{
    let longer = at.push(key);
    let n = at.len() as int;
    if begins(longer, kp) {
        assert(longer.take(n) =~= at);
        assert(kp.take(n) =~= kp.take(n + 1).take(n));
        assert(kp.take(n + 1)[n] == longer[n]);
        assert(kp.skip(n)[0] == kp[n]);
        assert(kp.skip(n + 1) =~= kp.skip(n).drop_first());
    } else if begins(at, kp) {
        let q = kp.skip(n);
        if q.len() >= 1 && q[0] == key {
            assert(q[0] == kp[n]);
            assert(kp.take(n + 1) =~= kp.take(n).push(key));
            assert(begins(longer, kp));
        }
    }
}

/// The flat key of a child is the join of the path to it.
pub proof fn lemma_joined_key(at: Path, prefix: Seq<char>, key: Seq<char>, sep: char)
    requires
        at.len() == 0 ==> prefix.len() == 0,
        at.len() >= 1 ==> prefix == join_with(at, seq![sep]) && prefix.len() > 0,
    ensures
        joined_key(prefix, seq![sep], key) == join_with(at.push(key), seq![sep]),
{
    let longer = at.push(key);
    assert(longer.drop_last() =~= at);
}

/// The keys of a flat form stay sorted.
pub proof fn lemma_flattened_into_sorted(out: Entries, prefix: Seq<char>, t: Tree, separator: Seq<char>)
    requires
        keys_increase(out),
    ensures
        keys_increase(flattened_into(out, prefix, t, separator)),
    decreases height(t) + 1, 0nat,
{
    match t {
        Tree::Object(es) => {
            lemma_flattened_entries_sorted(out, prefix, es, separator, es.len());
        },
        _ => {
            lemma_upsert_sorted(out, prefix, t);
        },
    }
}

/// The keys of a flat form stay sorted.
pub proof fn lemma_flattened_entries_sorted(
    out: Entries,
    prefix: Seq<char>,
    es: Entries,
    separator: Seq<char>,
    n: nat,
)
    requires
        keys_increase(out),
    ensures
        keys_increase(flattened_entries(out, prefix, es, separator, n)),
    decreases height(Tree::Object(es)), n,
{
    if n > 0 && n <= es.len() {
        lemma_flattened_entries_sorted(out, prefix, es, separator, (n - 1) as nat);
        lemma_child_height(es, n - 1);
        lemma_flattened_into_sorted(
            flattened_entries(out, prefix, es, separator, (n - 1) as nat),
            joined_key(prefix, separator, es[n - 1].0),
            es[n - 1].1,
            separator,
        );
    }
}

/// What stands under a key after `t` was flattened into `out` at the path
/// `at`: the leaf of `t` that the key names, where it names one; else what
/// stood in `out`.
pub proof fn lemma_flattened_into(
    out: Entries,
    prefix: Seq<char>,
    t: Tree,
    sep: char,
    at: Path,
    k: Seq<char>,
)
    requires
        is_document(t, sep),
        at.len() >= 1,
        free_of(at, sep),
        prefix == join_with(at, seq![sep]),
        t is Object ==> prefix.len() > 0,
    ensures
        lookup(flattened_into(out, prefix, t, seq![sep]), k) == match below(at, split_on(k, sep)) {
            Some(q) => match leaf_in(t, q) {
                Some(l) => Some(l),
                None => lookup(out, k),
            },
            None => lookup(out, k),
        },
    decreases height(t) + 1, 0nat,
{
    let kp = split_on(k, sep);
    match t {
        Tree::Object(es) => {
            lemma_flattened_entries(out, prefix, es, sep, at, es.len(), k);
            match below(at, kp) {
                Some(q) => {
                    if q.len() >= 1 {
                        lemma_leaf_among_all(es, es.len(), q);
                        assert(es.take(es.len() as int) =~= es);
                        lemma_leaf_at_head(es, q);
                    }
                },
                None => {},
            }
        },
        _ => {
            lemma_lookup_upsert(out, prefix, t, k);
            if k == prefix {
                lemma_split_join(at, sep);
                assert(kp.take(at.len() as int) =~= kp);
                assert(kp.skip(at.len() as int).len() == 0);
            } else if begins(at, kp) && kp.skip(at.len() as int).len() == 0 {
                assert(kp.take(at.len() as int) =~= kp);
                lemma_join_split(k, sep);
            }
        },
    }
}

/// What stands under a key after the first `n` entries of the object at
/// the path `at` were flattened into `out`.
pub proof fn lemma_flattened_entries(
    out: Entries,
    prefix: Seq<char>,
    es: Entries,
    sep: char,
    at: Path,
    n: nat,
    k: Seq<char>,
)
    requires
        is_document_root(es, sep),
        n <= es.len(),
        free_of(at, sep),
        at.len() == 0 ==> prefix.len() == 0,
        at.len() >= 1 ==> prefix == join_with(at, seq![sep]) && prefix.len() > 0,
        at.len() == 0 ==> forall|i: int|
            0 <= i < es.len() && (#[trigger] es[i]).1 is Object ==> es[i].0.len() > 0,
    ensures
        lookup(flattened_entries(out, prefix, es, seq![sep], n), k) == match below(
            at,
            split_on(k, sep),
        ) {
            Some(q) => match leaf_among(es, n, q) {
                Some(l) => Some(l),
                None => lookup(out, k),
            },
            None => lookup(out, k),
        },
    decreases height(Tree::Object(es)), n,
{
    let kp = split_on(k, sep);
    if n > 0 {
        let m = (n - 1) as nat;
        let key = es[n - 1].0;
        let child = es[n - 1].1;
        let before = flattened_entries(out, prefix, es, seq![sep], m);
        let deeper = at.push(key);
        lemma_flattened_entries(out, prefix, es, sep, at, m, k);
        lemma_joined_key(at, prefix, key, sep);
        lemma_child_height(es, n - 1);
        assert(free_of(deeper, sep)) by {
            assert forall|i: int| 0 <= i < deeper.len() implies !(#[trigger] deeper[i]).contains(
                sep,
            ) by {
                if i < at.len() {
                    assert(deeper[i] == at[i]);
                }
            }
        }
        let next = joined_key(prefix, seq![sep], key);
        assert(child is Object ==> next.len() > 0);
        lemma_flattened_into(before, next, child, sep, deeper, k);
        lemma_below_push(at, key, kp);
        match below(at, kp) {
            Some(q) => {
                if q.len() >= 1 && q[0] == key {
                    assert forall|i: int| 0 <= i < m && i < es.len() implies (#[trigger] es[i]).0
                        != q[0] by {
                        assert(crate::text::text_lt(es[i].0, es[n - 1].0));
                        crate::text::lemma_text_lt_asymmetric(es[i].0, es[n - 1].0);
                    }
                    lemma_leaf_among_none(es, m, q);
                }
            },
            None => {},
        }
    }
}

/// No object stands under the empty key at the top of the document.
pub open spec fn top_objects_named(es: Entries) -> bool {
    forall|i: int| 0 <= i < es.len() && (#[trigger] es[i]).1 is Object ==> es[i].0.len() > 0
}

/// The flat form of a document holds under each key the leaf at the path
/// that the key names.
pub proof fn lemma_flattened_leaves(doc: Entries, sep: char, k: Seq<char>)
    requires
        is_document_root(doc, sep),
        top_objects_named(doc),
    ensures
        lookup(flattened(doc, seq![sep]), k) == leaf_at(doc, split_on(k, sep)),
{
    let kp = split_on(k, sep);
    let at = Path::empty();
    crate::text::lemma_split_on_nonempty(k, sep);
    lemma_flattened_entries(Entries::empty(), Seq::<char>::empty(), doc, sep, at, doc.len(), k);
    assert(kp.take(0) =~= at);
    assert(kp.skip(0) =~= kp);
    lemma_leaf_among_all(doc, doc.len(), kp);
    assert(doc.take(doc.len() as int) =~= doc);
    lemma_leaf_at_head(doc, kp);
}

// ---------------------------------------------------------------------------
// Nesting gives documents
// ---------------------------------------------------------------------------

/// Every entry after `upsert` is the new one or one that was there.
pub proof fn lemma_upsert_entries(es: Entries, key: Seq<char>, value: Tree, j: int)
    requires
        keys_increase(es),
        0 <= j < upsert(es, key, value).len(),
    ensures
        upsert(es, key, value)[j] == (key, value) || exists|i: int|
            0 <= i < es.len() && es[i] == upsert(es, key, value)[j],
        upsert(es, key, value).len() >= 1,
{
    lemma_upsert_at_rank(es, key, value);
    lemma_rank(es, key);
    let r = rank(es, key);
    let u = upsert(es, key, value);
    if r < es.len() && es[r].0 == key {
        if j != r {
            assert(es[j] == u[j]);
        }
    } else {
        if j < r {
            assert(es[j] == u[j]);
        } else if j > r {
            assert(es[j - 1] == u[j]);
        }
    }
}

/// Putting a leaf at a path whose keys hold no separator keeps a document
/// a document.
pub proof fn lemma_insert_path_document(es: Entries, p: Path, v: Tree, sep: char)
    requires
        is_document_root(es, sep),
        p.len() >= 1,
        free_of(p, sep),
        !(v is Object),
    ensures
        is_document_root(insert_path(es, p, v), sep),
        insert_path(es, p, v).len() >= 1,
    decreases p.len(),
{
    let after = insert_path(es, p, v);
    let value = if p.len() == 1 {
        v
    } else {
        Tree::Object(insert_path(child_entries(es, p[0]), p.drop_first(), v))
    };
    assert(after == upsert(es, p[0], value));
    if p.len() >= 2 {
        let child = child_entries(es, p[0]);
        assert(is_document_root(child, sep)) by {
            if lookup(es, p[0]) is Some {
                let i = lemma_lookup_found(es, p[0]);
                assert(is_document(es[i].1, sep));
            }
        }
        let rest = p.drop_first();
        assert(free_of(rest, sep)) by {
            assert forall|i: int| 0 <= i < rest.len() implies !(#[trigger] rest[i]).contains(sep) by {
                assert(rest[i] == p[i + 1]);
            }
        }
        lemma_insert_path_document(child, rest, v, sep);
    }
    assert(is_document(value, sep));
    lemma_upsert_sorted(es, p[0], value);
    assert forall|j: int| 0 <= j < after.len() implies !(#[trigger] after[j]).0.contains(sep)
        && is_document(after[j].1, sep) by {
        lemma_upsert_entries(es, p[0], value, j);
        if after[j] != (p[0], value) {
            let i = choose|i: int| 0 <= i < es.len() && es[i] == after[j];
            assert(!es[i].0.contains(sep));
        }
    }
    lemma_upsert_at_rank(es, p[0], value);
}

// ---------------------------------------------------------------------------
// A document is determined by its leaves
// ---------------------------------------------------------------------------

/// The path to the first leaf of `t`.
pub open spec fn first_leaf_path(t: Tree) -> Path
    decreases t,
{
    match t {
        Tree::Object(es) => if es.len() > 0 {
            seq![es[0].0] + first_leaf_path(es[0].1)
        } else {
            Path::empty()
        },
        _ => Path::empty(),
    }
}

/// An object inside a document has a leaf.
pub proof fn lemma_first_leaf(es: Entries, sep: char)
    requires
        is_document(Tree::Object(es), sep),
    ensures
        leaf_at(es, first_leaf_path(Tree::Object(es))) is Some,
        first_leaf_path(Tree::Object(es)).len() >= 1,
    decreases height(Tree::Object(es)),
{
    let path = first_leaf_path(Tree::Object(es));
    let rest = first_leaf_path(es[0].1);
    assert(path[0] == es[0].0);
    assert(path.drop_first() =~= rest);
    assert(is_document(es[0].1, sep));
    lemma_leaf_at_head(es, path);
    match es[0].1 {
        Tree::Object(c) => {
            lemma_child_height(es, 0);
            lemma_first_leaf(c, sep);
        },
        _ => {},
    }
}

/// The leaves below a key are the leaves of what stands under it.
proof fn lemma_leaf_below(es: Entries, key: Seq<char>, q: Path)
    ensures
        leaf_at(es, seq![key] + q) == match lookup(es, key) {
            Some(t) => leaf_in(t, q),
            None => None,
        },
{
    let path = seq![key] + q;
    assert(path[0] == key);
    assert(path.drop_first() =~= q);
    lemma_leaf_at_head(es, path);
}

/// Where two documents have the same leaves, what stands under a key in
/// the one stands in the same kind under it in the other.
proof fn lemma_one_way(a: Entries, b: Entries, sep: char, k: Seq<char>)
    requires
        is_document_root(a, sep),
        forall|q: Path| leaf_at(a, q) == leaf_at(b, q),
        lookup(a, k) is Some,
    ensures
        lookup(b, k) is Some,
        lookup(a, k)->0 is Object == lookup(b, k)->0 is Object,
        !(lookup(a, k)->0 is Object) ==> lookup(b, k) == lookup(a, k),
{
    let i = lemma_lookup_found(a, k);
    assert(is_document(a[i].1, sep));
    match lookup(a, k)->0 {
        Tree::Object(c) => {
            lemma_first_leaf(c, sep);
            let w = first_leaf_path(Tree::Object(c));
            lemma_leaf_below(a, k, w);
            lemma_leaf_below(b, k, w);
            assert(leaf_at(a, seq![k] + w) == leaf_at(b, seq![k] + w));
        },
        _ => {
            let q = Path::empty();
            lemma_leaf_below(a, k, q);
            lemma_leaf_below(b, k, q);
            assert(leaf_at(a, seq![k] + q) == leaf_at(b, seq![k] + q));
        },
    }
}

/// Two documents with the same leaves are the same document.
pub proof fn lemma_same_leaves(a: Entries, b: Entries, sep: char)
    requires
        is_document_root(a, sep),
        is_document_root(b, sep),
        forall|q: Path| leaf_at(a, q) == leaf_at(b, q),
    ensures
        a == b,
    decreases height(Tree::Object(a)),
{
    assert forall|k: Seq<char>| lookup(a, k) == lookup(b, k) by {
        if lookup(a, k) is Some {
            lemma_one_way(a, b, sep, k);
        }
        if lookup(b, k) is Some {
            lemma_one_way(b, a, sep, k);
        }
        if lookup(a, k) is Some {
            match lookup(a, k)->0 {
                Tree::Object(c) => {
                    let d = lookup(b, k)->0->Object_0;
                    let i = lemma_lookup_found(a, k);
                    let j = lemma_lookup_found(b, k);
                    assert(is_document(a[i].1, sep));
                    assert(is_document(b[j].1, sep));
                    lemma_child_height(a, i);
                    assert forall|q: Path| leaf_at(c, q) == leaf_at(d, q) by {
                        if q.len() >= 1 {
                            lemma_leaf_below(a, k, q);
                            lemma_leaf_below(b, k, q);
                            assert(leaf_at(a, seq![k] + q) == leaf_at(b, seq![k] + q));
                        }
                    }
                    lemma_same_leaves(c, d, sep);
                },
                _ => {},
            }
        }
    }
    lemma_same_lookups(a, b);
}

// ---------------------------------------------------------------------------
// The round trip
// ---------------------------------------------------------------------------

/// The nested form of the first `n` entries of a flat form is a document.
pub proof fn lemma_renested_document(flat: Entries, sep: char, n: nat)
    requires
        n <= flat.len(),
        forall|i: int| 0 <= i < n ==> !((#[trigger] flat[i]).1 is Object),
    ensures
        is_document_root(renested(flat, sep, n), sep),
    decreases n,
{
    if n > 0 {
        lemma_renested_document(flat, sep, (n - 1) as nat);
        lemma_split_free(flat[n - 1].0, sep);
        lemma_insert_path_document(
            renested(flat, sep, (n - 1) as nat),
            split_on(flat[n - 1].0, sep),
            flat[n - 1].1,
            sep,
        );
    }
}

/// Whether the entry `e` stands somewhere in `order`.
pub open spec fn stands_in(order: Entries, e: (Seq<char>, Tree)) -> bool {
    exists|i: int| 0 <= i < order.len() && #[trigger] order[i] == e
}

/// Whether `order` lists the entries of `flat`: every entry of `order` is
/// an entry of `flat`, and every entry of `flat` stands in `order`, at any
/// place and once or more often.
pub open spec fn lists_entries(order: Entries, flat: Entries) -> bool {
    &&& forall|i: int|
        0 <= i < order.len() ==> lookup(flat, (#[trigger] order[i]).0) == Some(order[i].1)
    &&& forall|j: int| 0 <= j < flat.len() ==> stands_in(order, #[trigger] flat[j])
}

/// Flattening a nested document with its separator and nesting the entries
/// of the flat form again, in any order, gives the document back, unless
/// an object stands under the empty key at the top of the document: its
/// leaves lose that key in the flat form.
pub proof fn lemma_round_trip_any_order(doc: Entries, sep: char, order: Entries)
    requires
        is_document_root(doc, sep),
        top_objects_named(doc),
        lists_entries(order, flattened(doc, seq![sep])),
    ensures
        renested(order, sep, order.len()) == doc,
{
    let flat = flattened(doc, seq![sep]);
    let n = order.len();
    let again = renested(order, sep, n);
    assert forall|i: int| 0 <= i < n implies leaf_at(doc, split_on(#[trigger] order[i].0, sep))
        == Some(order[i].1) by {
        assert(lookup(flat, order[i].0) == Some(order[i].1));
        lemma_flattened_leaves(doc, sep, order[i].0);
    }
    assert forall|i: int| 0 <= i < n implies !((#[trigger] order[i]).1 is Object) by {
        assert(leaf_at(doc, split_on(order[i].0, sep)) == Some(order[i].1));
    }
    assert forall|i: int, j: int| 0 <= i < j < n implies #[trigger] order[i] == #[trigger] order[j]
        || !comparable(split_on(order[i].0, sep), split_on(order[j].0, sep)) by {
        let p = split_on(order[i].0, sep);
        let q = split_on(order[j].0, sep);
        assert(leaf_at(doc, p) == Some(order[i].1));
        assert(leaf_at(doc, q) == Some(order[j].1));
        if order[i].0 == order[j].0 {
            assert(lookup(flat, order[i].0) == Some(order[i].1));
            assert(lookup(flat, order[j].0) == Some(order[j].1));
        } else {
            lemma_join_split(order[i].0, sep);
            lemma_join_split(order[j].0, sep);
            if begins(p, q) {
                lemma_nothing_beyond_a_leaf(doc, p, q);
            }
            if begins(q, p) {
                lemma_nothing_beyond_a_leaf(doc, q, p);
            }
        }
    }
    lemma_renested_document(order, sep, n);
    assert forall|q: Path| leaf_at(again, q) == leaf_at(doc, q) by {
        lemma_renested_leaves(order, sep, n, q);
        if flat_leaf(order, sep, n, q) is Some {
            let i = lemma_flat_leaf_found(order, sep, n, q);
            assert(leaf_at(doc, split_on(order[i].0, sep)) == Some(order[i].1));
        } else if leaf_at(doc, q) is Some {
            lemma_leaf_path_free(doc, sep, q);
            let k = join_with(q, seq![sep]);
            lemma_split_join(q, sep);
            lemma_flattened_leaves(doc, sep, k);
            let j = lemma_lookup_found(flat, k);
            assert(stands_in(order, flat[j]));
            let i = choose|i: int| 0 <= i < order.len() && #[trigger] order[i] == flat[j];
            lemma_flat_leaf_some(order, sep, n, q, i);
        }
    }
    lemma_same_leaves(again, doc, sep);
}

/// The flat form of a document lists its own entries.
pub proof fn lemma_flat_form_lists_itself(doc: Entries, sep: char)
    ensures
        lists_entries(flattened(doc, seq![sep]), flattened(doc, seq![sep])),
{
    let flat = flattened(doc, seq![sep]);
    lemma_flattened_entries_sorted(
        Entries::empty(),
        Seq::<char>::empty(),
        doc,
        seq![sep],
        doc.len(),
    );
    assert forall|i: int| 0 <= i < flat.len() implies lookup(flat, (#[trigger] flat[i]).0) == Some(
        flat[i].1,
    ) by {
        lemma_lookup_entry(flat, i);
    }
    assert forall|j: int| 0 <= j < flat.len() implies stands_in(flat, #[trigger] flat[j]) by {
        assert(flat[j] == flat[j]);
    }
}

/// Flattening a nested document with its separator and nesting the flat
/// form again, entry by entry as it stands, gives the document back,
/// unless an object stands under the empty key at the top of the document.
pub proof fn lemma_round_trip(doc: Entries, sep: char)
    requires
        is_document_root(doc, sep),
        top_objects_named(doc),
    ensures
        renested(flattened(doc, seq![sep]), sep, flattened(doc, seq![sep]).len()) == doc,
{
    lemma_flat_form_lists_itself(doc, sep);
    lemma_round_trip_any_order(doc, sep, flattened(doc, seq![sep]));
}

/// Where an entry names the path, `flat_leaf` finds something.
pub proof fn lemma_flat_leaf_some(flat: Entries, sep: char, n: nat, q: Path, i: int)
    requires
        0 <= i < n <= flat.len(),
        split_on(flat[i].0, sep) == q,
    ensures
        flat_leaf(flat, sep, n, q) is Some,
    decreases n,
{
    if split_on(flat[n - 1].0, sep) != q {
        lemma_flat_leaf_some(flat, sep, (n - 1) as nat, q, i);
    }
}

/// The keys on the way to a leaf of a document hold no separator.
pub proof fn lemma_leaf_path_free(es: Entries, sep: char, q: Path)
    requires
        is_document_root(es, sep),
        leaf_at(es, q) is Some,
    ensures
        q.len() >= 1,
        free_of(q, sep),
    decreases q.len(),
{
    let i = lemma_lookup_found(es, q[0]);
    assert(!es[i].0.contains(sep));
    assert(is_document(es[i].1, sep));
    if q.len() >= 2 {
        let rest = q.drop_first();
        match lookup(es, q[0]) {
            Some(Tree::Object(c)) => {
                lemma_leaf_path_free(c, sep, rest);
            },
            _ => {},
        }
        assert forall|j: int| 0 <= j < q.len() implies !(#[trigger] q[j]).contains(sep) by {
            if j > 0 {
                assert(q[j] == rest[j - 1]);
            }
        }
    }
}

} // verus!
