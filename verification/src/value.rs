//! Documents: trees of string-keyed objects with scalar leaves.
//!
//! An object holds its entries sorted by key, each key once, so that two
//! objects with the same content are the same value and everything made
//! from them comes out in one order.

use vstd::prelude::*;
use vstd::std_specs::cmp::PartialEqSpecImpl;
use crate::text::{
    chars_less, chars_of, lemma_text_lt_asymmetric, lemma_text_lt_transitive, same_chars,
    same_text, text_lt,
};

verus! {

/// A document as a mathematical value.
pub enum Tree {
    /// JSON `null`.
    Null,
    /// A string.
    Text(Seq<char>),
    /// Any other scalar or an array, held as its JSON text.
    Literal(Seq<char>),
    /// An object: keys with their values.
    Object(Seq<(Seq<char>, Tree)>),
}

/// The entries of an object.
pub type Entries = Seq<(Seq<char>, Tree)>;

/// A document.
#[derive(Debug)]
pub enum JsonValue {
    /// JSON `null`.
    Null,
    /// A string.
    Text(String),
    /// Any other scalar or an array, held as its JSON text.
    Literal(String),
    /// An object.
    Object(JsonMap),
}

/// An object: keys with their values, sorted by key.
#[derive(Debug)]
pub struct JsonMap {
    entries: Vec<(String, JsonValue)>,
}

// ---------------------------------------------------------------------------
// Sorted entries
// ---------------------------------------------------------------------------

/// Whether the keys increase strictly from entry to entry.
pub open spec fn keys_increase(es: Entries) -> bool {
    forall|i: int, j: int| 0 <= i < j < es.len() ==> text_lt(#[trigger] es[i].0, #[trigger] es[j].0)
}

/// Whether every object of the tree has its keys in strictly increasing
/// order.
pub open spec fn well_formed(t: Tree) -> bool
    decreases t,
{
    match t {
        Tree::Object(es) => keys_increase(es) && forall|i: int|
            0 <= i < es.len() ==> well_formed(#[trigger] es[i].1),
        _ => true,
    }
}

/// The value that stands under `key`.
pub open spec fn lookup(es: Entries, key: Seq<char>) -> Option<Tree>
    decreases es.len(),
{
    if es.len() == 0 {
        None
    } else if es[0].0 == key {
        Some(es[0].1)
    } else {
        lookup(es.drop_first(), key)
    }
}

/// The entries with `value` under `key`: in place of what stood there, or
/// else at the place that keeps the keys sorted.
pub open spec fn upsert(es: Entries, key: Seq<char>, value: Tree) -> Entries
    decreases es.len(),
{
    if es.len() == 0 {
        seq![(key, value)]
    } else if es[0].0 == key {
        seq![(key, value)] + es.drop_first()
    } else if text_lt(key, es[0].0) {
        seq![(key, value)] + es
    } else {
        seq![es[0]] + upsert(es.drop_first(), key, value)
    }
}

/// The entries without the one under `key`.
pub open spec fn without(es: Entries, key: Seq<char>) -> Entries
    decreases es.len(),
{
    if es.len() == 0 {
        es
    } else if es[0].0 == key {
        es.drop_first()
    } else {
        seq![es[0]] + without(es.drop_first(), key)
    }
}

/// The number of entries whose key sorts before `key`.
pub open spec fn rank(es: Entries, key: Seq<char>) -> int
    decreases es.len(),
{
    if es.len() == 0 {
        0
    } else if text_lt(es[0].0, key) {
        1 + rank(es.drop_first(), key)
    } else {
        0
    }
}

/// In sorted entries, the entries before the rank of a key have keys that
/// sort before it, the others have not, and what stands under the key
/// stands at its rank.
pub proof fn lemma_rank(es: Entries, key: Seq<char>)
    requires
        keys_increase(es),
    ensures
        0 <= rank(es, key) <= es.len(),
        forall|j: int| 0 <= j < rank(es, key) ==> text_lt(#[trigger] es[j].0, key),
        forall|j: int| rank(es, key) <= j < es.len() ==> !text_lt(#[trigger] es[j].0, key),
        lookup(es, key) == if rank(es, key) < es.len() && es[rank(es, key)].0 == key {
            Some(es[rank(es, key)].1)
        } else {
            None::<Tree>
        },
    decreases es.len(),
{
    if es.len() > 0 {
        let t = es.drop_first();
        lemma_drop_first_sorted(es);
        if text_lt(es[0].0, key) {
            lemma_rank(t, key);
            lemma_text_lt_asymmetric(es[0].0, key);
            assert forall|j: int| 0 <= j < rank(es, key) implies text_lt(#[trigger] es[j].0, key) by {
                if j > 0 {
                    assert(es[j] == t[j - 1]);
                }
            }
            assert forall|j: int| rank(es, key) <= j < es.len() implies !text_lt(
                #[trigger] es[j].0,
                key,
            ) by {
                assert(es[j] == t[j - 1]);
            }
            if rank(t, key) < t.len() {
                assert(t[rank(t, key)] == es[rank(es, key)]);
            }
        } else {
            assert forall|j: int| 0 <= j < es.len() implies !text_lt(#[trigger] es[j].0, key) by {
                if j > 0 && text_lt(es[j].0, key) {
                    assert(text_lt(es[0].0, es[j].0));
                    lemma_text_lt_transitive(es[0].0, es[j].0, key);
                }
            }
            if es[0].0 != key {
                lemma_lookup_absent(t, key, es[0].0);
            }
        }
    }
}

/// No entry stands under a key that is not among the keys.
pub proof fn lemma_lookup_none(es: Entries, key: Seq<char>)
    requires
        forall|j: int| 0 <= j < es.len() ==> (#[trigger] es[j]).0 != key,
    ensures
        lookup(es, key) is None,
    decreases es.len(),
{
    if es.len() > 0 {
        let t = es.drop_first();
        assert(es[0].0 != key);
        assert forall|j: int| 0 <= j < t.len() implies (#[trigger] t[j]).0 != key by {
            assert(t[j] == es[j + 1]);
        }
        lemma_lookup_none(t, key);
    }
}

/// Where every key sorts after `low` and `key` does not, nothing stands
/// under `key`.
proof fn lemma_lookup_absent(es: Entries, key: Seq<char>, low: Seq<char>)
    requires
        forall|j: int| 0 <= j < es.len() ==> text_lt(low, #[trigger] es[j].0),
        !text_lt(low, key),
    ensures
        lookup(es, key) is None,
{
    assert forall|j: int| 0 <= j < es.len() implies (#[trigger] es[j]).0 != key by {
        assert(text_lt(low, es[j].0));
    }
    lemma_lookup_none(es, key);
}

/// Sorted entries stay sorted when their first one is dropped.
pub proof fn lemma_drop_first_sorted(es: Entries)
    requires
        keys_increase(es),
        es.len() > 0,
    ensures
        keys_increase(es.drop_first()),
        forall|j: int| 0 <= j < es.len() - 1 ==> text_lt(es[0].0, #[trigger] es.drop_first()[j].0),
{
    let t = es.drop_first();
    assert forall|i: int, j: int| 0 <= i < j < t.len() implies text_lt(
        #[trigger] t[i].0,
        #[trigger] t[j].0,
    ) by {
        assert(t[i] == es[i + 1] && t[j] == es[j + 1]);
    }
    assert forall|j: int| 0 <= j < es.len() - 1 implies text_lt(es[0].0, #[trigger] t[j].0) by {
        assert(t[j] == es[j + 1]);
    }
}

/// The rank of `key` is the one position before which every key sorts
/// before `key` and at which the key does not.
pub proof fn lemma_rank_is(es: Entries, key: Seq<char>, i: int)
    requires
        keys_increase(es),
        0 <= i <= es.len(),
        forall|j: int| 0 <= j < i ==> text_lt(#[trigger] es[j].0, key),
        i < es.len() ==> !text_lt(es[i].0, key),
    ensures
        rank(es, key) == i,
{
    lemma_rank(es, key);
    let r = rank(es, key);
    if r < i {
        assert(text_lt(es[r].0, key));
    }
    if i < r {
        assert(text_lt(es[i].0, key));
    }
}

/// On sorted entries, `upsert` replaces the entry at the rank of the key
/// where that entry has the key, and puts a new entry there where it has
/// not.
pub proof fn lemma_upsert_at_rank(es: Entries, key: Seq<char>, value: Tree)
    requires
        keys_increase(es),
    ensures
        0 <= rank(es, key) <= es.len(),
        upsert(es, key, value) == if rank(es, key) < es.len() && es[rank(es, key)].0 == key {
            es.update(rank(es, key), (key, value))
        } else {
            es.insert(rank(es, key), (key, value))
        },
    decreases es.len(),
{
    lemma_rank(es, key);
    let r = rank(es, key);
    if es.len() == 0 {
        assert(seq![(key, value)] =~= es.insert(0, (key, value)));
    } else if es[0].0 == key {
        crate::text::lemma_text_lt_irreflexive(key);
        assert(seq![(key, value)] + es.drop_first() =~= es.update(0, (key, value)));
    } else if text_lt(key, es[0].0) {
        lemma_text_lt_asymmetric(key, es[0].0);
        assert(seq![(key, value)] + es =~= es.insert(0, (key, value)));
    } else {
        crate::text::lemma_text_lt_total(key, es[0].0);
        let t = es.drop_first();
        lemma_drop_first_sorted(es);
        lemma_upsert_at_rank(t, key, value);
        let rt = rank(t, key);
        assert(r == rt + 1);
        if rt < t.len() && t[rt].0 == key {
            assert(es[r] == t[rt]);
            assert(seq![es[0]] + t.update(rt, (key, value)) =~= es.update(r, (key, value)));
        } else {
            if r < es.len() {
                assert(es[r] == t[rt]);
            }
            assert(seq![es[0]] + t.insert(rt, (key, value)) =~= es.insert(r, (key, value)));
        }
    }
}

/// On sorted entries, `without` removes the entry at the rank of the key
/// where that entry has the key, and nothing where it has not.
pub proof fn lemma_without_at_rank(es: Entries, key: Seq<char>)
    requires
        keys_increase(es),
    ensures
        0 <= rank(es, key) <= es.len(),
        without(es, key) == if rank(es, key) < es.len() && es[rank(es, key)].0 == key {
            es.remove(rank(es, key))
        } else {
            es
        },
    decreases es.len(),
{
    lemma_rank(es, key);
    let r = rank(es, key);
    if es.len() == 0 {
    } else if es[0].0 == key {
        crate::text::lemma_text_lt_irreflexive(key);
        assert(es.drop_first() =~= es.remove(0));
    } else {
        let t = es.drop_first();
        lemma_drop_first_sorted(es);
        lemma_without_at_rank(t, key);
        let rt = rank(t, key);
        if text_lt(es[0].0, key) {
            assert(r == rt + 1);
            if rt < t.len() && t[rt].0 == key {
                assert(es[r] == t[rt]);
                assert(seq![es[0]] + t.remove(rt) =~= es.remove(r));
            } else {
                if r < es.len() {
                    assert(es[r] == t[rt]);
                }
                assert(seq![es[0]] + t =~= es);
            }
        } else {
            assert(r == 0);
            lemma_without_absent(t, key, es[0].0);
            assert(seq![es[0]] + t =~= es);
        }
    }
}

/// Where every key sorts after `low` and `key` does not, there is nothing
/// to take away under `key`.
proof fn lemma_without_absent(es: Entries, key: Seq<char>, low: Seq<char>)
    requires
        forall|j: int| 0 <= j < es.len() ==> text_lt(low, #[trigger] es[j].0),
        !text_lt(low, key),
    ensures
        without(es, key) == es,
    decreases es.len(),
{
    if es.len() > 0 {
        let t = es.drop_first();
        assert(text_lt(low, es[0].0));
        assert forall|j: int| 0 <= j < t.len() implies text_lt(low, #[trigger] t[j].0) by {
            assert(t[j] == es[j + 1]);
        }
        lemma_without_absent(t, key, low);
        assert(seq![es[0]] + t =~= es);
    }
}

/// `upsert` keeps sorted entries sorted.
pub proof fn lemma_upsert_sorted(es: Entries, key: Seq<char>, value: Tree)
    requires
        keys_increase(es),
    ensures
        keys_increase(upsert(es, key, value)),
{
    lemma_upsert_at_rank(es, key, value);
    lemma_rank(es, key);
    let r = rank(es, key);
    let u = upsert(es, key, value);
    assert forall|i: int, j: int| 0 <= i < j < u.len() implies text_lt(
        #[trigger] u[i].0,
        #[trigger] u[j].0,
    ) by {
        if r < es.len() && es[r].0 == key {
            assert(u[i].0 == es[i].0 && u[j].0 == es[j].0);
        } else {
            let a = if i < r { i } else { i - 1 };
            let b = if j < r { j } else { j - 1 };
            if i != r && j != r {
                assert(u[i] == es[a] && u[j] == es[b]);
            } else if i == r {
                assert(u[j] == es[b]);
                assert(!text_lt(es[b].0, key));
                crate::text::lemma_text_lt_total(es[b].0, key);
                if es[b].0 == key {
                    assert(text_lt(es[r].0, es[b].0) || b == r);
                    if b != r {
                        assert(!text_lt(es[r].0, key));
                    }
                }
            } else {
                assert(u[i] == es[a]);
                assert(text_lt(es[a].0, key));
            }
        }
    }
}

/// `without` keeps sorted entries sorted.
pub proof fn lemma_without_sorted(es: Entries, key: Seq<char>)
    requires
        keys_increase(es),
    ensures
        keys_increase(without(es, key)),
{
    lemma_without_at_rank(es, key);
    let r = rank(es, key);
    let u = without(es, key);
    if r < es.len() && es[r].0 == key {
        assert forall|i: int, j: int| 0 <= i < j < u.len() implies text_lt(
            #[trigger] u[i].0,
            #[trigger] u[j].0,
        ) by {
            let a = if i < r { i } else { i + 1 };
            let b = if j < r { j } else { j + 1 };
            assert(u[i] == es[a] && u[j] == es[b]);
        }
    }
}

// ---------------------------------------------------------------------------
// Values
// ---------------------------------------------------------------------------

impl View for JsonValue {
    type V = Tree;

    open spec fn view(&self) -> Tree
        decreases self,
    {
        match self {
            JsonValue::Null => Tree::Null,
            JsonValue::Text(s) => Tree::Text(s@),
            JsonValue::Literal(s) => Tree::Literal(s@),
            JsonValue::Object(m) => Tree::Object(m.view()),
        }
    }
}

impl View for JsonMap {
    type V = Entries;

    closed spec fn view(&self) -> Entries
        decreases self,
    {
        Seq::new(
            self.entries@.len(),
            |i: int|
                if 0 <= i < self.entries@.len() {
                    (self.entries@[i].0@, self.entries@[i].1.view())
                } else {
                    (Seq::<char>::empty(), Tree::Null)
                },
        )
    }
}

impl JsonValue {
    /// The string, where this is one.
    pub fn as_str(&self) -> (r: Option<&str>)
        ensures
            match r {
                Some(s) => self@ == Tree::Text(s@),
                None => !(self@ is Text),
            },
    {
        match self {
            JsonValue::Text(s) => Some(s.as_str()),
            _ => None,
        }
    }

    /// The object, where this is one.
    pub fn as_object(&self) -> (r: Option<&JsonMap>)
        ensures
            match r {
                Some(m) => self@ == Tree::Object(m@),
                None => !(self@ is Object),
            },
    {
        match self {
            JsonValue::Object(m) => Some(m),
            _ => None,
        }
    }

    /// Whether this is an object.
    pub fn is_object(&self) -> (r: bool)
        ensures
            r == (self@ is Object),
    {
        match self {
            JsonValue::Object(_) => true,
            _ => false,
        }
    }

    /// What stands under `key`, where this is an object that has the key.
    pub fn get(&self, key: &str) -> (r: Option<&JsonValue>)
        ensures
            match r {
                Some(v) => self@ is Object && lookup(self@->Object_0, key@) == Some(v@),
                None => !(self@ is Object) || lookup(self@->Object_0, key@) is None,
            },
    {
        match self {
            JsonValue::Object(m) => m.get(key),
            _ => None,
        }
    }

    /// Every value is well formed: this does nothing but say so.
    pub fn note_well_formed(&self)
        ensures
            well_formed(self@),
    {
        match self {
            JsonValue::Object(m) => {
                proof {
                    use_type_invariant(m);
                }
            },
            _ => {},
        }
    }

    /// A copy of this value.
    pub fn duplicate(&self) -> (r: JsonValue)
        ensures
            r@ == self@,
        decreases self,
    {
        match self {
            JsonValue::Null => JsonValue::Null,
            JsonValue::Text(s) => JsonValue::Text(s.clone()),
            JsonValue::Literal(s) => JsonValue::Literal(s.clone()),
            JsonValue::Object(m) => JsonValue::Object(m.duplicate()),
        }
    }
}

impl JsonMap {
    /// What holds of every object: its keys increase strictly, and so do
    /// those of every object inside it.
    #[verifier::type_invariant]
    pub open spec fn inv(self) -> bool {
        well_formed(Tree::Object(self@))
    }

    /// An object without entries.
    pub fn new() -> (r: Self)
        ensures
            r@ == Entries::empty(),
    {
        let r = JsonMap { entries: Vec::new() };
        assert(r@ =~= Entries::empty());
        r
    }

    /// The number of entries.
    pub fn len(&self) -> (r: usize)
        ensures
            r == self@.len(),
    {
        self.entries.len()
    }

    /// Whether there is no entry.
    pub fn is_empty(&self) -> (r: bool)
        ensures
            r == (self@.len() == 0),
    {
        self.entries.len() == 0
    }

    /// The key of the entry at position `i`.
    pub fn key_at(&self, i: usize) -> (r: &String)
        requires
            i < self@.len(),
        ensures
            r@ == self@[i as int].0,
    {
        &self.entries[i].0
    }

    /// The value of the entry at position `i`.
    pub fn value_at(&self, i: usize) -> (r: &JsonValue)
        requires
            i < self@.len(),
        ensures
            r@ == self@[i as int].1,
    {
        &self.entries[i].1
    }

    /// The number of entries whose key sorts before `key`, found by
    /// halving the range in which it lies.
    fn position(&self, key: &Vec<char>) -> (r: usize)
        ensures
            r == rank(self@, key@),
            r <= self@.len(),
    {
        proof {
            use_type_invariant(self);
        }
        let mut low: usize = 0;
        let mut high: usize = self.entries.len();
        while low < high
            invariant
                low <= high <= self.entries.len(),
                self.entries@.len() == self@.len(),
                keys_increase(self@),
                forall|j: int| 0 <= j < low ==> text_lt(#[trigger] self@[j].0, key@),
                forall|j: int| high <= j < self@.len() ==> !text_lt(#[trigger] self@[j].0, key@),
            decreases high - low,
        {
            let middle = low + (high - low) / 2;
            let k = chars_of(self.entries[middle].0.as_str());
            assert(k@ == self@[middle as int].0);
            if chars_less(&k, key) {
                assert forall|j: int| 0 <= j < middle + 1 implies text_lt(
                    #[trigger] self@[j].0,
                    key@,
                ) by {
                    if j < middle {
                        assert(text_lt(self@[j].0, self@[middle as int].0));
                        lemma_text_lt_transitive(self@[j].0, self@[middle as int].0, key@);
                    }
                }
                low = middle + 1;
            } else {
                assert forall|j: int| middle <= j < self@.len() implies !text_lt(
                    #[trigger] self@[j].0,
                    key@,
                ) by {
                    if j > middle && text_lt(self@[j].0, key@) {
                        assert(text_lt(self@[middle as int].0, self@[j].0));
                        lemma_text_lt_transitive(self@[middle as int].0, self@[j].0, key@);
                    }
                }
                high = middle;
            }
        }
        proof {
            lemma_rank_is(self@, key@, low as int);
        }
        low
    }

    /// Whether the entry at position `i` has the key `key`.
    fn holds_at(&self, i: usize, key: &Vec<char>) -> (r: bool)
        ensures
            r == (i < self@.len() && self@[i as int].0 == key@),
    {
        if i < self.entries.len() {
            let k = chars_of(self.entries[i].0.as_str());
            assert(k@ == self@[i as int].0);
            same_chars(&k, key)
        } else {
            false
        }
    }

    /// What stands under `key`.
    pub fn get(&self, key: &str) -> (r: Option<&JsonValue>)
        ensures
            match r {
                Some(v) => lookup(self@, key@) == Some(v@),
                None => lookup(self@, key@) is None,
            },
    {
        let k = chars_of(key);
        let i = self.position(&k);
        proof {
            use_type_invariant(self);
            lemma_rank(self@, key@);
        }
        if self.holds_at(i, &k) {
            Some(&self.entries[i].1)
        } else {
            None
        }
    }

    /// Whether something stands under `key`.
    pub fn contains_key(&self, key: &str) -> (r: bool)
        ensures
            r == lookup(self@, key@) is Some,
    {
        self.get(key).is_some()
    }

    /// Moves the entries out and leaves an empty object behind.
    fn take_entries(&mut self) -> (r: Vec<(String, JsonValue)>)
        ensures
            final(self)@ == Entries::empty(),
            (JsonMap { entries: r })@ == old(self)@,
            well_formed(Tree::Object(old(self)@)),
    {
        proof {
            use_type_invariant(&*self);
        }
        let mut taken = JsonMap::new();
        core::mem::swap(self, &mut taken);
        let JsonMap { entries } = taken;
        entries
    }

    /// Puts `value` under `key`, in place of what stood there.
    pub fn insert(&mut self, key: String, value: JsonValue)
        ensures
            final(self)@ == upsert(old(self)@, key@, value@),
    {
        let k = chars_of(key.as_str());
        let i = self.position(&k);
        let found = self.holds_at(i, &k);
        value.note_well_formed();
        let ghost before = self@;
        proof {
            use_type_invariant(&*self);
            lemma_upsert_at_rank(before, key@, value@);
            lemma_upsert_sorted(before, key@, value@);
        }
        let mut entries = self.take_entries();
        let ghost key_view = key@;
        let ghost value_view = value@;
        if found {
            entries.set(i, (key, value));
        } else {
            entries.insert(i, (key, value));
        }
        let ghost after = (JsonMap { entries })@;
        proof {
            if found {
                assert(after =~= before.update(i as int, (key_view, value_view)));
            } else {
                assert(after =~= before.insert(i as int, (key_view, value_view)));
            }
            lemma_entries_well_formed(before, key_view, value_view);
        }
        *self = JsonMap { entries };
    }

    /// Takes away what stands under `key`, and hands it out.
    pub fn remove(&mut self, key: &str) -> (r: Option<JsonValue>)
        ensures
            final(self)@ == without(old(self)@, key@),
            match r {
                Some(v) => lookup(old(self)@, key@) == Some(v@),
                None => lookup(old(self)@, key@) is None,
            },
    {
        let k = chars_of(key);
        let i = self.position(&k);
        let ghost before = self@;
        proof {
            use_type_invariant(&*self);
            lemma_rank(before, key@);
            lemma_without_at_rank(before, key@);
            lemma_without_sorted(before, key@);
        }
        if self.holds_at(i, &k) {
            let mut entries = self.take_entries();
            let (_, v) = entries.remove(i);
            let ghost after = (JsonMap { entries })@;
            proof {
                assert(after =~= before.remove(i as int));
                assert forall|j: int| 0 <= j < after.len() implies well_formed(
                    #[trigger] after[j].1,
                ) by {
                    let a = if j < i { j } else { j + 1 };
                    assert(after[j] == before[a]);
                }
            }
            *self = JsonMap { entries };
            Some(v)
        } else {
            None
        }
    }

    /// The keys, in increasing order.
    pub fn keys(&self) -> (r: Vec<String>)
        ensures
            r@.len() == self@.len(),
            forall|i: int| 0 <= i < r@.len() ==> (#[trigger] r@[i])@ == self@[i].0,
    {
        let mut out: Vec<String> = Vec::new();
        let mut i: usize = 0;
        while i < self.entries.len()
            invariant
                i <= self.entries.len(),
                self.entries@.len() == self@.len(),
                out@.len() == i,
                forall|j: int| 0 <= j < i ==> (#[trigger] out@[j])@ == self@[j].0,
            decreases self.entries.len() - i,
        {
            out.push(self.entries[i].0.clone());
            i = i + 1;
        }
        out
    }

    /// A copy of this object.
    pub fn duplicate(&self) -> (r: JsonMap)
        ensures
            r@ == self@,
        decreases self,
    {
        proof {
            use_type_invariant(self);
        }
        let mut entries: Vec<(String, JsonValue)> = Vec::new();
        let mut i: usize = 0;
        while i < self.entries.len()
            invariant
                i <= self.entries.len(),
                entries@.len() == i,
                forall|j: int|
                    0 <= j < i ==> (#[trigger] entries@[j]).0@ == self.entries@[j].0@
                        && entries@[j].1@ == self.entries@[j].1@,
            decreases self.entries.len() - i,
        {
            let value = self.entries[i].1.duplicate();
            entries.push((self.entries[i].0.clone(), value));
            i = i + 1;
        }
        assert((JsonMap { entries })@ =~= self@);
        JsonMap { entries }
    }
}

/// Putting a well-formed value into a well-formed object gives a
/// well-formed object.
pub proof fn lemma_entries_well_formed(es: Entries, key: Seq<char>, value: Tree)
    requires
        well_formed(Tree::Object(es)),
        well_formed(value),
    ensures
        well_formed(Tree::Object(upsert(es, key, value))),
{
    lemma_upsert_at_rank(es, key, value);
    lemma_upsert_sorted(es, key, value);
    let u = upsert(es, key, value);
    let r = rank(es, key);
    assert forall|j: int| 0 <= j < u.len() implies well_formed(#[trigger] u[j].1) by {
        if r < es.len() && es[r].0 == key {
            if j != r {
                assert(u[j] == es[j]);
            }
        } else {
            if j < r {
                assert(u[j] == es[j]);
            } else if j > r {
                assert(u[j] == es[j - 1]);
            }
        }
    }
}

// ---------------------------------------------------------------------------
// Height
// ---------------------------------------------------------------------------

/// The number of objects on the longest way from the root to a leaf.
pub open spec fn height(t: Tree) -> nat
    decreases t, 0nat,
{
    match t {
        Tree::Object(es) => 1 + entries_height(es, es.len()),
        _ => 0,
    }
}

/// The greatest height among the values of the first `n` entries.
pub open spec fn entries_height(es: Entries, n: nat) -> nat
    decreases es, n,
{
    if n == 0 || n > es.len() {
        0
    } else if entries_height(es, (n - 1) as nat) >= height(es[n - 1].1) {
        entries_height(es, (n - 1) as nat)
    } else {
        height(es[n - 1].1)
    }
}

/// No value among the first `n` entries is higher than `entries_height`
/// says.
pub proof fn lemma_entries_height(es: Entries, n: nat, i: int)
    requires
        0 <= i < n <= es.len(),
    ensures
        height(es[i].1) <= entries_height(es, n),
    decreases n,
{
    if i < n - 1 {
        lemma_entries_height(es, (n - 1) as nat, i);
    }
}

/// A value inside an object is less high than the object.
pub proof fn lemma_child_height(es: Entries, i: int)
    requires
        0 <= i < es.len(),
    ensures
        height(es[i].1) < height(Tree::Object(es)),
{
    lemma_entries_height(es, es.len(), i);
}

// ---------------------------------------------------------------------------
// What stands under a key
// ---------------------------------------------------------------------------

/// After `upsert`, the new value stands under its key and every other key
/// has what it had.
pub proof fn lemma_lookup_upsert(es: Entries, key: Seq<char>, value: Tree, other: Seq<char>)
    ensures
        lookup(upsert(es, key, value), other) == if other == key {
            Some(value)
        } else {
            lookup(es, other)
        },
    decreases es.len(),
{
    let u = upsert(es, key, value);
    if es.len() == 0 {
        assert(u[0] == (key, value));
        assert(u.drop_first() =~= es);
    } else if es[0].0 == key {
        assert(u[0] == (key, value));
        assert(u.drop_first() =~= es.drop_first());
    } else if text_lt(key, es[0].0) {
        assert(u[0] == (key, value));
        assert(u.drop_first() =~= es);
    } else {
        lemma_lookup_upsert(es.drop_first(), key, value, other);
        assert(u[0] == es[0]);
        assert(u.drop_first() =~= upsert(es.drop_first(), key, value));
    }
}

/// What `lookup` finds is the value of an entry with that key.
pub proof fn lemma_lookup_found(es: Entries, key: Seq<char>) -> (i: int)
    requires
        lookup(es, key) is Some,
    ensures
        0 <= i < es.len(),
        es[i].0 == key,
        lookup(es, key) == Some(es[i].1),
    decreases es.len(),
{
    if es[0].0 == key {
        0
    } else {
        let j = lemma_lookup_found(es.drop_first(), key);
        assert(es.drop_first()[j] == es[j + 1]);
        j + 1
    }
}

/// In sorted entries the value of each entry is what stands under its key.
pub proof fn lemma_lookup_entry(es: Entries, i: int)
    requires
        keys_increase(es),
        0 <= i < es.len(),
    ensures
        lookup(es, es[i].0) == Some(es[i].1),
    decreases es.len(),
{
    if i > 0 {
        lemma_drop_first_sorted(es);
        assert(text_lt(es[0].0, es[i].0));
        lemma_text_lt_asymmetric(es[0].0, es[i].0);
        assert(es.drop_first()[i - 1] == es[i]);
        lemma_lookup_entry(es.drop_first(), i - 1);
    }
}

/// Sorted entries under whose keys the same values stand are the same
/// entries.
pub proof fn lemma_same_lookups(a: Entries, b: Entries)
    requires
        keys_increase(a),
        keys_increase(b),
        forall|k: Seq<char>| lookup(a, k) == lookup(b, k),
    ensures
        a == b,
    decreases a.len(),
{
    if a.len() == 0 {
        if b.len() > 0 {
            assert(lookup(b, b[0].0) is Some);
            assert(lookup(a, b[0].0) is None);
        }
        assert(a =~= b);
    } else {
        if b.len() == 0 {
            assert(lookup(a, a[0].0) is Some);
            assert(lookup(b, a[0].0) is None);
        }
        let ta = a.drop_first();
        let tb = b.drop_first();
        lemma_drop_first_sorted(a);
        lemma_drop_first_sorted(b);
        if a[0].0 != b[0].0 {
            crate::text::lemma_text_lt_total(a[0].0, b[0].0);
            if text_lt(a[0].0, b[0].0) {
                lemma_text_lt_asymmetric(a[0].0, b[0].0);
                lemma_lookup_absent(tb, a[0].0, b[0].0);
                assert(lookup(b, a[0].0) is None);
                assert(lookup(a, a[0].0) is Some);
            } else {
                lemma_text_lt_asymmetric(b[0].0, a[0].0);
                lemma_lookup_absent(ta, b[0].0, a[0].0);
                assert(lookup(a, b[0].0) is None);
                assert(lookup(b, b[0].0) is Some);
            }
        }
        assert(lookup(a, a[0].0) == Some(a[0].1));
        assert(lookup(b, a[0].0) == Some(b[0].1));
        assert forall|k: Seq<char>| lookup(ta, k) == lookup(tb, k) by {
            if k == a[0].0 {
                crate::text::lemma_text_lt_irreflexive(k);
                lemma_lookup_absent(ta, k, a[0].0);
                lemma_lookup_absent(tb, k, a[0].0);
            } else {
                assert(lookup(a, k) == lookup(ta, k));
                assert(lookup(b, k) == lookup(tb, k));
            }
        }
        lemma_same_lookups(ta, tb);
        assert(a =~= seq![a[0]] + ta);
        assert(b =~= seq![b[0]] + tb);
    }
}

impl Clone for JsonMap {
    fn clone(&self) -> (r: Self)
        ensures
            r@ == self@,
    {
        self.duplicate()
    }
}

impl Clone for JsonValue {
    fn clone(&self) -> (r: Self)
        ensures
            r@ == self@,
    {
        self.duplicate()
    }
}

impl JsonValue {
    /// Whether two values are the same document.
    pub fn same_as(&self, other: &JsonValue) -> (r: bool)
        ensures
            r == (self@ == other@),
        decreases self,
    {
        match (self, other) {
            (JsonValue::Null, JsonValue::Null) => true,
            (JsonValue::Text(a), JsonValue::Text(b)) => same_text(a.as_str(), b.as_str()),
            (JsonValue::Literal(a), JsonValue::Literal(b)) => same_text(a.as_str(), b.as_str()),
            (JsonValue::Object(a), JsonValue::Object(b)) => a.same_as(b),
            _ => false,
        }
    }
}

impl JsonMap {
    /// Whether two objects have the same entries.
    pub fn same_as(&self, other: &JsonMap) -> (r: bool)
        ensures
            r == (self@ == other@),
        decreases self,
    {
        if self.entries.len() != other.entries.len() {
            return false;
        }
        let mut i: usize = 0;
        while i < self.entries.len()
            invariant
                i <= self.entries.len(),
                self.entries@.len() == other.entries@.len(),
                self.entries@.len() == self@.len(),
                other.entries@.len() == other@.len(),
                forall|j: int| 0 <= j < i ==> self@[j] == other@[j],
            decreases self.entries.len() - i,
        {
            let same_key = same_text(self.entries[i].0.as_str(), other.entries[i].0.as_str());
            if !same_key || !self.entries[i].1.same_as(&other.entries[i].1) {
                assert(self@[i as int] != other@[i as int]);
                return false;
            }
            i = i + 1;
        }
        assert(self@ =~= other@);
        true
    }
}

impl PartialEq for JsonValue {
    fn eq(&self, other: &JsonValue) -> (r: bool) {
        self.same_as(other)
    }
}

impl PartialEqSpecImpl for JsonValue {
    open spec fn obeys_eq_spec() -> bool {
        true
    }

    open spec fn eq_spec(&self, other: &JsonValue) -> bool {
        self@ == other@
    }
}

impl PartialEq for JsonMap {
    fn eq(&self, other: &JsonMap) -> (r: bool) {
        self.same_as(other)
    }
}

impl PartialEqSpecImpl for JsonMap {
    open spec fn obeys_eq_spec() -> bool {
        true
    }

    open spec fn eq_spec(&self, other: &JsonMap) -> bool {
        self@ == other@
    }
}

} // verus!
