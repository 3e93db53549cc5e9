//! An ordered table from composite keys to values: what one kind of record
//! contributes to a batch of changes. A key occurs at most once, a later
//! insertion under it replaces the earlier value, and the entries stand in
//! ascending order of their keys.

use vstd::prelude::*;
use vstd::slice::slice_to_vec;

use crate::bytes::{
    bytes_lt, join, lemma_bytes_lt_total, lemma_bytes_lt_transitive, rank_bytes, Bytes, Rank,
};

verus! {

/// A composite key of up to three parts. A table keyed by fewer parts leaves
/// the trailing ones empty.
pub struct Key {
    pub outer: Vec<u8>,
    pub middle: Vec<u8>,
    pub inner: Vec<u8>,
}

/// A composite key as a mathematical value.
pub struct KeyView {
    pub outer: Bytes,
    pub middle: Bytes,
    pub inner: Bytes,
}

impl KeyView {
    /// The order of the keys: by the outer part, then the middle, then the
    /// inner one, each in the lexicographic order of its bytes.
    pub open spec fn below(self, other: KeyView) -> bool {
        ||| bytes_lt(self.outer, other.outer)
        ||| self.outer == other.outer && bytes_lt(self.middle, other.middle)
        ||| self.outer == other.outer && self.middle == other.middle && bytes_lt(
            self.inner,
            other.inner,
        )
    }

    /// The parts run together with nothing between them: the key under which
    /// the engine files a record.
    pub open spec fn joined(self) -> Bytes {
        self.outer + self.middle + self.inner
    }
}

impl View for Key {
    type V = KeyView;

    open spec fn view(&self) -> KeyView {
        KeyView { outer: self.outer@, middle: self.middle@, inner: self.inner@ }
    }
}

/// The key of one part.
pub open spec fn key_of_one(outer: Bytes) -> KeyView {
    KeyView { outer, middle: Seq::empty(), inner: Seq::empty() }
}

/// The key of two parts.
pub open spec fn key_of_two(outer: Bytes, middle: Bytes) -> KeyView {
    KeyView { outer, middle, inner: Seq::empty() }
}

/// The key of three parts.
pub open spec fn key_of_three(outer: Bytes, middle: Bytes, inner: Bytes) -> KeyView {
    KeyView { outer, middle, inner }
}

/// Of two keys, one is below the other or they are equal, and no two of
/// these hold at once.
pub proof fn lemma_key_order_total(a: KeyView, b: KeyView)
    ensures
        a.below(b) || a == b || b.below(a),
        !(a.below(b) && b.below(a)),
        !(a.below(b) && a == b),
{
    lemma_bytes_lt_total(a.outer, b.outer);
    lemma_bytes_lt_total(a.middle, b.middle);
    lemma_bytes_lt_total(a.inner, b.inner);
}

/// The order of the keys is transitive.
pub proof fn lemma_key_order_transitive(a: KeyView, b: KeyView, c: KeyView)
    requires
        a.below(b),
        b.below(c),
    ensures
        a.below(c),
{
    lemma_bytes_lt_total(a.outer, b.outer);
    lemma_bytes_lt_total(b.outer, c.outer);
    lemma_bytes_lt_total(a.middle, b.middle);
    lemma_bytes_lt_total(b.middle, c.middle);
    if bytes_lt(a.outer, b.outer) && bytes_lt(b.outer, c.outer) {
        lemma_bytes_lt_transitive(a.outer, b.outer, c.outer);
    }
    if bytes_lt(a.middle, b.middle) && bytes_lt(b.middle, c.middle) {
        lemma_bytes_lt_transitive(a.middle, b.middle, c.middle);
    }
    if bytes_lt(a.inner, b.inner) && bytes_lt(b.inner, c.inner) {
        lemma_bytes_lt_transitive(a.inner, b.inner, c.inner);
    }
}

impl Key {
    /// A key of one part.
    pub fn of_one(outer: &[u8]) -> (key: Key)
        ensures
            key@ == key_of_one(outer@),
    {
        Key { outer: slice_to_vec(outer), middle: Vec::new(), inner: Vec::new() }
    }

    /// A key of two parts.
    pub fn of_two(outer: &[u8], middle: &[u8]) -> (key: Key)
        ensures
            key@ == key_of_two(outer@, middle@),
    {
        Key { outer: slice_to_vec(outer), middle: slice_to_vec(middle), inner: Vec::new() }
    }

    /// A key of three parts.
    pub fn of_three(outer: &[u8], middle: &[u8], inner: &[u8]) -> (key: Key)
        ensures
            key@ == key_of_three(outer@, middle@, inner@),
    {
        Key { outer: slice_to_vec(outer), middle: slice_to_vec(middle), inner: slice_to_vec(inner) }
    }

    /// How this key stands to `other` in the order of the keys.
    pub fn rank(&self, other: &Key) -> (r: Rank)
        ensures
            r == Rank::Below <==> self@.below(other@),
            r == Rank::Same <==> self@ == other@,
            r == Rank::Above <==> other@.below(self@),
    {
        proof {
            lemma_key_order_total(self@, other@);
            lemma_bytes_lt_total(self.outer@, other.outer@);
            lemma_bytes_lt_total(self.middle@, other.middle@);
            lemma_bytes_lt_total(self.inner@, other.inner@);
        }
        match rank_bytes(self.outer.as_slice(), other.outer.as_slice()) {
            Rank::Below => Rank::Below,
            Rank::Above => Rank::Above,
            Rank::Same => match rank_bytes(self.middle.as_slice(), other.middle.as_slice()) {
                Rank::Below => Rank::Below,
                Rank::Above => Rank::Above,
                Rank::Same => rank_bytes(self.inner.as_slice(), other.inner.as_slice()),
            },
        }
    }

    /// The parts of the key run together.
    pub fn joined(&self) -> (bytes: Vec<u8>)
        ensures
            bytes@ == self@.joined(),
    {
        let mut bytes = join(self.outer.as_slice(), self.middle.as_slice());
        bytes.extend_from_slice(self.inner.as_slice());
        bytes
    }
}

/// The entries of a table stand in strictly ascending order of their keys.
pub open spec fn ascending<V>(entries: Seq<(KeyView, V)>) -> bool {
    forall|i: int, j: int|
        0 <= i < j < entries.len() ==> (#[trigger] entries[i]).0.below((#[trigger] entries[j]).0)
}

/// The number of leading entries whose keys are below `key`: the place of
/// `key` among ascending entries.
pub open spec fn place<V>(entries: Seq<(KeyView, V)>, key: KeyView) -> int
    decreases entries.len(),
{
    if entries.len() == 0 || !entries[0].0.below(key) {
        0
    } else {
        1 + place(entries.drop_first(), key)
    }
}

/// Ascending entries once `value` stands under `key`: in place of the entry
/// that had the key, or else put in at the key's place.
pub open spec fn upsert<V>(entries: Seq<(KeyView, V)>, key: KeyView, value: V) -> Seq<
    (KeyView, V),
> {
    let at = place(entries, key);
    if at < entries.len() && entries[at].0 == key {
        entries.update(at, (key, value))
    } else {
        entries.insert(at, (key, value))
    }
}

/// The value under `key` among the entries, if the key occurs.
pub open spec fn find<V>(entries: Seq<(KeyView, V)>, key: KeyView) -> Option<V> {
    if exists|i: int| 0 <= i < entries.len() && (#[trigger] entries[i]).0 == key {
        let i = choose|i: int| 0 <= i < entries.len() && (#[trigger] entries[i]).0 == key;
        Some(entries[i].1)
    } else {
        None
    }
}

/// The place of a key is the first position whose key is not below it.
pub proof fn lemma_place<V>(entries: Seq<(KeyView, V)>, key: KeyView, at: int)
    requires
        0 <= at <= entries.len(),
        forall|j: int| 0 <= j < at ==> (#[trigger] entries[j]).0.below(key),
        at < entries.len() ==> !entries[at].0.below(key),
    ensures
        place(entries, key) == at,
    decreases entries.len(),
{
    if at > 0 {
        let rest = entries.drop_first();
        assert(entries[0].0.below(key));
        assert forall|j: int| 0 <= j < at - 1 implies (#[trigger] rest[j]).0.below(key) by {
            assert(rest[j] == entries[j + 1]);
        }
        if at - 1 < rest.len() {
            assert(rest[at - 1] == entries[at]);
        }
        lemma_place(rest, key, at - 1);
    }
}

/// The place of a key lies within the entries, every entry before it has a
/// key below, and the entry at it, if there is one, has not.
pub proof fn lemma_place_bounds<V>(entries: Seq<(KeyView, V)>, key: KeyView)
    ensures
        0 <= place(entries, key) <= entries.len(),
        forall|j: int| 0 <= j < place(entries, key) ==> (#[trigger] entries[j]).0.below(key),
        place(entries, key) < entries.len() ==> !entries[place(entries, key)].0.below(key),
    decreases entries.len(),
{
    if entries.len() == 0 || !entries[0].0.below(key) {
    } else {
        let rest = entries.drop_first();
        lemma_place_bounds(rest, key);
        assert forall|j: int| 0 <= j < place(entries, key) implies (#[trigger] entries[j]).0.below(
            key,
        ) by {
            if j > 0 {
                assert(rest[j - 1] == entries[j]);
            }
        }
        if place(entries, key) < entries.len() {
            assert(rest[place(rest, key)] == entries[place(entries, key)]);
        }
    }
}

/// The place of a key depends on the keys of the entries alone.
pub proof fn lemma_place_same_keys<V, W>(
    left: Seq<(KeyView, V)>,
    right: Seq<(KeyView, W)>,
    key: KeyView,
)
    requires
        left.len() == right.len(),
        forall|i: int| 0 <= i < left.len() ==> (#[trigger] left[i]).0 == right[i].0,
    ensures
        place(left, key) == place(right, key),
    decreases left.len(),
{
    if left.len() > 0 {
        assert(left[0].0 == right[0].0);
        let l = left.drop_first();
        let r = right.drop_first();
        assert forall|i: int| 0 <= i < l.len() implies (#[trigger] l[i]).0 == r[i].0 by {
            assert(left[i + 1].0 == right[i + 1].0);
        }
        lemma_place_same_keys(l, r, key);
    }
}

/// Putting a value under a key keeps ascending entries ascending; the key
/// then has that value, and every other key has what it had.
pub proof fn lemma_upsert<V>(entries: Seq<(KeyView, V)>, key: KeyView, value: V)
    requires
        ascending(entries),
    ensures
        ascending(upsert(entries, key, value)),
        find(upsert(entries, key, value), key) == Some(value),
        forall|other: KeyView|
            other != key ==> #[trigger] find(upsert(entries, key, value), other) == find(
                entries,
                other,
            ),
{
    let at = place(entries, key);
    let after = upsert(entries, key, value);
    lemma_place_bounds(entries, key);
    let replaced = at < entries.len() && entries[at].0 == key;
    assert forall|i: int, j: int| 0 <= i < j < after.len() implies (#[trigger] after[i]).0.below(
        (#[trigger] after[j]).0,
    ) by {
        if replaced {
            assert(after[i].0 == entries[i].0);
            assert(after[j].0 == entries[j].0);
        } else {
            let pi = if i < at { i } else { i - 1 };
            let pj = if j < at { j } else { j - 1 };
            if i == at {
                assert(after[j] == entries[pj]);
                if at < entries.len() {
                    lemma_key_order_total(entries[at].0, key);
                    if pj > at {
                        lemma_key_order_transitive(key, entries[at].0, entries[pj].0);
                    }
                }
            } else if j == at {
                assert(after[i] == entries[pi]);
            } else {
                assert(after[i] == entries[pi]);
                assert(after[j] == entries[pj]);
            }
        }
    }
    assert(after[at] == (key, value));
    assert forall|i: int| 0 <= i < after.len() && (#[trigger] after[i]).0 == key implies i
        == at by {
        if i < at {
            lemma_key_order_total(after[i].0, after[at].0);
        } else if i > at {
            lemma_key_order_total(after[at].0, after[i].0);
        }
    }
    assert forall|other: KeyView| other != key implies #[trigger] find(after, other) == find(
        entries,
        other,
    ) by {
        lemma_find_unique(entries, other);
        lemma_find_unique(after, other);
        if exists|i: int| 0 <= i < entries.len() && (#[trigger] entries[i]).0 == other {
            let i = choose|i: int| 0 <= i < entries.len() && (#[trigger] entries[i]).0 == other;
            let to = if replaced || i < at { i } else { i + 1 };
            assert(after[to] == entries[i]);
        }
        if exists|i: int| 0 <= i < after.len() && (#[trigger] after[i]).0 == other {
            let i = choose|i: int| 0 <= i < after.len() && (#[trigger] after[i]).0 == other;
            let from = if replaced || i < at { i } else { i - 1 };
            assert(after[i] == entries[from]);
        }
    }
}

/// Among ascending entries a key occurs at one position at most.
pub proof fn lemma_find_unique<V>(entries: Seq<(KeyView, V)>, key: KeyView)
    requires
        ascending(entries),
    ensures
        forall|i: int, j: int|
            0 <= i < entries.len() && 0 <= j < entries.len() && (#[trigger] entries[i]).0 == key
                && (#[trigger] entries[j]).0 == key ==> i == j,
{
    assert forall|i: int, j: int|
        0 <= i < entries.len() && 0 <= j < entries.len() && (#[trigger] entries[i]).0 == key && (
        #[trigger] entries[j]).0 == key implies i == j by {
        lemma_key_order_total(entries[i].0, entries[j].0);
    }
}

/// One entry of a table.
pub struct Entry<V> {
    pub key: Key,
    pub value: V,
}

/// An ordered table from composite keys to values.
pub struct Table<V> {
    entries: Vec<Entry<V>>,
}

impl<V> View for Table<V> {
    type V = Seq<(KeyView, V)>;

    closed spec fn view(&self) -> Seq<(KeyView, V)> {
        Seq::new(self.entries@.len(), |i: int| (self.entries@[i].key@, self.entries@[i].value))
    }
}

impl<V> Table<V> {
    /// The entries stand in ascending order of their keys, so no key occurs
    /// twice. A new table is so, and `insert` keeps it so.
    pub open spec fn wf(&self) -> bool {
        ascending(self@)
    }

    /// A table without entries.
    pub fn new() -> (table: Table<V>)
        ensures
            table@ == Seq::<(KeyView, V)>::empty(),
            table.wf(),
    {
        let table = Table { entries: Vec::new() };
        assert(table@ =~= Seq::<(KeyView, V)>::empty());
        table
    }

    /// The number of entries.
    pub fn len(&self) -> (n: usize)
        ensures
            n == self@.len(),
    {
        self.entries.len()
    }

    /// The key of the entry at position `at`.
    pub fn key_at(&self, at: usize) -> (key: &Key)
        requires
            at < self@.len(),
        ensures
            key@ == self@[at as int].0,
    {
        &self.entries[at].key
    }

    /// The value of the entry at position `at`.
    pub fn value_at(&self, at: usize) -> (value: &V)
        requires
            at < self@.len(),
        ensures
            *value == self@[at as int].1,
    {
        &self.entries[at].value
    }

    /// Puts `value` under `key`, in place of what the key had.
    pub fn insert(&mut self, key: Key, value: V)
        ensures
            final(self)@ == upsert(old(self)@, key@, value),
            old(self).wf() ==> final(self).wf(),
    {
        proof {
            if self.wf() {
                lemma_upsert(self@, key@, value);
            }
        }
        let ghost before = self@;
        let mut at: usize = 0;
        while at < self.entries.len() && self.entries[at].key.rank(&key) == Rank::Below
            invariant
                at <= self.entries@.len(),
                self@ == before,
                forall|j: int| 0 <= j < at ==> (#[trigger] self@[j]).0.below(key@),
            decreases self.entries@.len() - at,
        {
            at += 1;
        }
        proof {
            lemma_place(before, key@, at as int);
        }
        if at < self.entries.len() && self.entries[at].key.rank(&key) == Rank::Same {
            self.entries[at] = Entry { key, value };
            assert(self@ =~= upsert(before, key@, value));
        } else {
            self.entries.insert(at, Entry { key, value });
            assert(self@ =~= upsert(before, key@, value));
        }
    }
}

} // verus!
