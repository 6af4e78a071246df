//! Paths into a document: what stands at the end of a path, and how
//! putting a value at one path shows at another.

use vstd::prelude::*;
use crate::parser::{child_entries, insert_path};
use crate::value::{lemma_lookup_upsert, lookup, Entries, Tree};

verus! {

/// A path: the keys on the way from the root, the root's key first.
pub type Path = Seq<Seq<char>>;

/// What stands at the end of `path`: every key but the last names an
/// object, the last names the value.
pub open spec fn value_at(es: Entries, path: Path) -> Option<Tree>
    decreases path.len(),
{
    if path.len() == 0 {
        None
    } else if path.len() == 1 {
        lookup(es, path[0])
    } else {
        match lookup(es, path[0]) {
            Some(Tree::Object(c)) => value_at(c, path.drop_first()),
            _ => None,
        }
    }
}

/// The leaf at the end of `path`, if a leaf stands there.
pub open spec fn leaf_at(es: Entries, path: Path) -> Option<Tree> {
    match value_at(es, path) {
        Some(Tree::Object(_)) => None,
        v => v,
    }
}

/// Whether `p` is the beginning of `q`.
pub open spec fn begins(p: Path, q: Path) -> bool {
    p.len() <= q.len() && q.take(p.len() as int) == p
}

/// Whether one of two paths is the beginning of the other, so that values
/// at both cannot be leaves of one document.
pub open spec fn comparable(p: Path, q: Path) -> bool {
    begins(p, q) || begins(q, p)
}

/// Nothing stands anywhere in an object without entries.
pub proof fn lemma_value_at_empty(path: Path)
    ensures
        value_at(Entries::empty(), path) is None,
{
}

/// A path of two keys or more leads through the object under its first
/// key.
pub proof fn lemma_value_at_child(es: Entries, path: Path)
    requires
        path.len() >= 2,
    ensures
        value_at(es, path) == value_at(child_entries(es, path[0]), path.drop_first()),
{
    lemma_value_at_empty(path.drop_first());
}

/// Paths with the same first key compare as their remainders do.
pub proof fn lemma_same_head(p: Path, q: Path)
    requires
        p.len() >= 1,
        q.len() >= 1,
        p[0] == q[0],
    ensures
        (p == q) == (p.drop_first() == q.drop_first()),
        begins(p, q) == begins(p.drop_first(), q.drop_first()),
        begins(q, p) == begins(q.drop_first(), p.drop_first()),
{
    let pt = p.drop_first();
    let qt = q.drop_first();
    assert(p =~= seq![p[0]] + pt);
    assert(q =~= seq![q[0]] + qt);
    if begins(p, q) {
        assert(qt.take(pt.len() as int) =~= q.take(p.len() as int).drop_first());
    }
    if begins(pt, qt) {
        assert(q.take(p.len() as int) =~= seq![q[0]] + qt.take(pt.len() as int));
    }
    if begins(q, p) {
        assert(pt.take(qt.len() as int) =~= p.take(q.len() as int).drop_first());
    }
    if begins(qt, pt) {
        assert(p.take(q.len() as int) =~= seq![p[0]] + pt.take(qt.len() as int));
    }
}

/// Paths with different first keys are not comparable.
pub proof fn lemma_different_head(p: Path, q: Path)
    requires
        p.len() >= 1,
        q.len() >= 1,
        p[0] != q[0],
    ensures
        !comparable(p, q),
        p != q,
{
    if begins(p, q) {
        assert(q.take(p.len() as int)[0] == q[0]);
    }
    if begins(q, p) {
        assert(p.take(q.len() as int)[0] == p[0]);
    }
}

/// How a leaf put at the path `p` shows at a path `q`: at `q == p` it is
/// the leaf; at a path that begins `p` or that `p` begins there is no leaf
/// any more; every other path keeps what it had.
pub proof fn lemma_leaf_after_insert(es: Entries, p: Path, v: Tree, q: Path)
    requires
        p.len() >= 1,
        !(v is Object),
    ensures
        leaf_at(insert_path(es, p, v), q) == if q == p {
            Some(v)
        } else if comparable(p, q) {
            None
        } else {
            leaf_at(es, q)
        },
    decreases p.len(),
{
    let after = insert_path(es, p, v);
    if q.len() == 0 {
        assert(q.take(0) =~= q);
        assert(p.take(0) =~= q);
    } else if q[0] != p[0] {
        lemma_different_head(p, q);
        if p.len() == 1 {
            lemma_lookup_upsert(es, p[0], v, q[0]);
        } else {
            let child = insert_path(child_entries(es, p[0]), p.drop_first(), v);
            lemma_lookup_upsert(es, p[0], Tree::Object(child), q[0]);
        }
    } else {
        lemma_same_head(p, q);
        if p.len() == 1 {
            lemma_lookup_upsert(es, p[0], v, q[0]);
            if q.len() == 1 {
                assert(p.drop_first() =~= q.drop_first());
            } else {
                assert(p.drop_first().len() == 0);
                assert(q.drop_first().take(0) =~= p.drop_first());
            }
        } else {
            let before = child_entries(es, p[0]);
            let child = insert_path(before, p.drop_first(), v);
            lemma_lookup_upsert(es, p[0], Tree::Object(child), q[0]);
            if q.len() == 1 {
                assert(q.drop_first().len() == 0);
                assert(p.drop_first().take(0) =~= q.drop_first());
            } else {
                lemma_leaf_after_insert(before, p.drop_first(), v, q.drop_first());
                lemma_value_at_child(es, q);
                assert(child_entries(after, q[0]) == child);
                lemma_value_at_child(after, q);
            }
        }
    }
}

} // verus!
