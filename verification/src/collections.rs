//! The ordered map that holds an object's entries.
use vstd::prelude::*;

use crate::data::value::{SpecValue, Value};

verus! {

/// Representing map's data: entries kept in insertion order, each key once.
///
/// The entries live in an [indexmap::IndexMap]; what the map holds is named
/// by [object_entries], and each method below states what it does to them.
/// An `IndexMap` never holds a key twice, so every method that builds or
/// changes a map, or hands out its entries, also states that their keys are
/// distinct ([keys_distinct]); an empty map has that at once.
#[verifier::external_body]
#[derive(Debug, PartialEq)]
pub struct ObjectMap {
    inner: indexmap::IndexMap<String, Value>,
}

/// The entries of `m`, in their order, keys and values taken by their views.
pub uninterp spec fn object_entries(m: ObjectMap) -> Seq<(Seq<char>, SpecValue)>;

/// How many entries `m` is known to have room for: the capacity it was made
/// with (`IndexMap::with_capacity`), kept by the calls that only add or
/// overwrite entries or clear them all (neither an `IndexMap` nor its table
/// ever gives room back there), and zero for a map made otherwise or after a
/// call that removes some entries (a removal may leave a tombstone in the
/// table, which lowers the room reported).
pub uninterp spec fn reserved(m: ObjectMap) -> nat;

/// The index of the first entry of `e` whose key is `k`, or `-1`.
pub open spec fn key_index(e: Seq<(Seq<char>, SpecValue)>, k: Seq<char>) -> int
    decreases e.len(),
{
    if e.len() == 0 {
        -1
    } else {
        let r = key_index(e.drop_last(), k);
        if r >= 0 {
            r
        } else if e.last().0 == k {
            e.len() - 1
        } else {
            -1
        }
    }
}

/// The value stored under `k` in `e`.
pub open spec fn lookup(e: Seq<(Seq<char>, SpecValue)>, k: Seq<char>) -> Option<SpecValue> {
    let i = key_index(e, k);
    if i >= 0 {
        Some(e[i].1)
    } else {
        None
    }
}

/// `e` with `k` mapped to `v`: an existing key keeps its place and gets the
/// new value, a new key goes last.
pub open spec fn inserted(e: Seq<(Seq<char>, SpecValue)>, k: Seq<char>, v: SpecValue) -> Seq<
    (Seq<char>, SpecValue),
> {
    let i = key_index(e, k);
    if i >= 0 {
        e.update(i, (e[i].0, v))
    } else {
        e.push((k, v))
    }
}

/// `e` without the entry of `k`: the last entry takes its place.
pub open spec fn swap_removed(e: Seq<(Seq<char>, SpecValue)>, k: Seq<char>) -> Seq<
    (Seq<char>, SpecValue),
> {
    let i = key_index(e, k);
    if i < 0 {
        e
    } else if i == e.len() - 1 {
        e.drop_last()
    } else {
        e.drop_last().update(i, e.last())
    }
}

/// `e` with each of `pairs` inserted in turn.
pub open spec fn inserted_all(e: Seq<(Seq<char>, SpecValue)>, pairs: Seq<(String, Value)>) -> Seq<
    (Seq<char>, SpecValue),
>
    decreases pairs.len(),
{
    if pairs.len() == 0 {
        e
    } else {
        inserted(inserted_all(e, pairs.drop_last()), pairs.last().0@, pairs.last().1@)
    }
}

/// No two entries of `e` have the same key.
pub open spec fn keys_distinct(e: Seq<(Seq<char>, SpecValue)>) -> bool {
    forall|i: int, j: int| 0 <= i < j < e.len() ==> e[i].0 != e[j].0
}

pub proof fn lemma_key_index(e: Seq<(Seq<char>, SpecValue)>, k: Seq<char>)
    ensures
        -1 <= key_index(e, k) < e.len(),
        key_index(e, k) >= 0 ==> e[key_index(e, k)].0 == k,
        key_index(e, k) >= 0 ==> forall|j: int| 0 <= j < key_index(e, k) ==> e[j].0 != k,
        key_index(e, k) < 0 ==> forall|j: int| 0 <= j < e.len() ==> e[j].0 != k,
    decreases e.len(),
{
    if e.len() > 0 {
        let d = e.drop_last();
        lemma_key_index(d, k);
        assert forall|j: int| 0 <= j < d.len() implies #[trigger] d[j] == e[j] by {}
        if key_index(e, k) < 0 {
            assert forall|j: int| 0 <= j < e.len() implies e[j].0 != k by {
                if j < d.len() {
                    assert(d[j] == e[j]);
                }
            }
        } else if key_index(d, k) >= 0 {
            assert forall|j: int| 0 <= j < key_index(e, k) implies e[j].0 != k by {
                assert(d[j] == e[j]);
            }
        } else {
            assert forall|j: int| 0 <= j < key_index(e, k) implies e[j].0 != k by {
                assert(d[j] == e[j]);
            }
        }
    }
}

/// Reading a key back after writing it gives what was written, and writing
/// one key leaves every other key as it was.
pub proof fn law_lookup_after_insert(
    e: Seq<(Seq<char>, SpecValue)>,
    k: Seq<char>,
    v: SpecValue,
    other: Seq<char>,
)
    ensures
        lookup(inserted(e, k, v), k) == Some(v),
        other != k ==> lookup(inserted(e, k, v), other) == lookup(e, other),
        keys_distinct(e) ==> keys_distinct(inserted(e, k, v)),
{
    lemma_key_index(e, k);
    let i = key_index(e, k);
    let f = inserted(e, k, v);
    lemma_key_index(f, k);
    lemma_key_index(f, other);
    lemma_key_index(e, other);
    if i >= 0 {
        assert(f[i].0 == k);
        assert forall|j: int| 0 <= j < f.len() implies #[trigger] f[j].0 == e[j].0 by {}
        lemma_same_keys(e, f, k);
        lemma_same_keys(e, f, other);
    } else {
        assert(e =~= f.drop_last());
        assert(f.last().0 == k);
        assert(key_index(f, k) == e.len());
        if other != k {
            assert(key_index(f.drop_last(), other) == key_index(e, other));
        }
    }
}

/// Writing a key twice is writing its last value.
pub proof fn lemma_inserted_twice(
    e: Seq<(Seq<char>, SpecValue)>,
    k: Seq<char>,
    v1: SpecValue,
    v2: SpecValue,
)
    ensures
        inserted(inserted(e, k, v1), k, v2) == inserted(e, k, v2),
        key_index(e, k) >= 0 ==> key_index(inserted(e, k, v1), k) == key_index(e, k),
{
    lemma_key_index(e, k);
    let f = inserted(e, k, v1);
    if key_index(e, k) >= 0 {
        assert forall|j: int| 0 <= j < f.len() implies #[trigger] f[j].0 == e[j].0 by {}
        lemma_same_keys(e, f, k);
        assert(inserted(f, k, v2) =~= inserted(e, k, v2));
    } else {
        lemma_key_index(f, k);
        assert(f.drop_last() =~= e);
        assert(key_index(f, k) == e.len());
        assert(inserted(f, k, v2) =~= inserted(e, k, v2));
    }
}

/// Two entry sequences with the same keys in the same places find a key at
/// the same index.
proof fn lemma_same_keys(e: Seq<(Seq<char>, SpecValue)>, f: Seq<(Seq<char>, SpecValue)>, k: Seq<char>)
    requires
        e.len() == f.len(),
        forall|j: int| 0 <= j < e.len() ==> #[trigger] e[j].0 == f[j].0,
    ensures
        key_index(e, k) == key_index(f, k),
    decreases e.len(),
{
    if e.len() > 0 {
        lemma_same_keys(e.drop_last(), f.drop_last(), k);
    }
}

/// With no two keys alike, a key is found with the value of its one entry,
/// and a key no entry has is not found.
pub proof fn lemma_lookup_distinct(e: Seq<(Seq<char>, SpecValue)>, k: Seq<char>)
    requires
        keys_distinct(e),
    ensures
        forall|j: int| 0 <= j < e.len() && e[j].0 == k ==> lookup(e, k) == Some(e[j].1),
        (forall|j: int| 0 <= j < e.len() ==> e[j].0 != k) ==> lookup(e, k) is None,
{
    lemma_key_index(e, k);
}

/// Removing a key by swapping the last entry into its place removes that key
/// alone: it is no longer found, every other key keeps its value, keys stay
/// distinct, and one entry fewer remains when the key was there.
pub proof fn law_swap_remove(e: Seq<(Seq<char>, SpecValue)>, k: Seq<char>, other: Seq<char>)
    requires
        keys_distinct(e),
    ensures
        lookup(swap_removed(e, k), k) is None,
        other != k ==> lookup(swap_removed(e, k), other) == lookup(e, other),
        keys_distinct(swap_removed(e, k)),
        swap_removed(e, k).len() == if lookup(e, k) is Some {
            e.len() - 1
        } else {
            e.len() as int
        },
{
    lemma_key_index(e, k);
    let i = key_index(e, k);
    let f = swap_removed(e, k);
    if i < 0 {
        lemma_lookup_distinct(e, k);
    } else {
        let n = e.len() - 1;
        // The entry of `f` at `j` is the entry of `e` at `from(j)`.
        let from = |j: int| if j == i && i != n { n } else { j };
        assert forall|j: int| 0 <= j < f.len() implies #[trigger] f[j] == e[from(j)] && from(j) != i
            && 0 <= from(j) < e.len() by {}
        assert forall|a: int, b: int| 0 <= a < b < f.len() implies f[a].0 != f[b].0 by {
            assert(f[a] == e[from(a)]);
            assert(f[b] == e[from(b)]);
        }
        lemma_lookup_distinct(f, k);
        lemma_lookup_distinct(f, other);
        lemma_lookup_distinct(e, other);
        if other != k {
            if exists|j: int| 0 <= j < e.len() && e[j].0 == other {
                let j = choose|j: int| 0 <= j < e.len() && e[j].0 == other;
                assert(j != i);
                let g = if j == n && i != n { i } else { j };
                assert(f[g] == e[j]);
            } else {
                assert forall|j: int| 0 <= j < f.len() implies f[j].0 != other by {
                    assert(f[j] == e[from(j)]);
                }
            }
        }
    }
}

impl View for ObjectMap {
    type V = Seq<(Seq<char>, SpecValue)>;

    open spec fn view(&self) -> Seq<(Seq<char>, SpecValue)> {
        object_entries(*self)
    }
}

impl ObjectMap {
    /// Create a new map.
    ///
    /// Calls `IndexMap::new`, which creates an empty map.
    #[verifier::external_body]
    pub fn new() -> (m: Self)
        ensures
            object_entries(m) == Seq::<(Seq<char>, SpecValue)>::empty(),
            reserved(m) == 0,
    {
        Self { inner: indexmap::IndexMap::new() }
    }

    /// Get count of elements in map.
    ///
    /// Calls `IndexMap::len`, the number of entries.
    #[verifier::external_body]
    pub fn len(&self) -> (n: usize)
        ensures
            n == object_entries(*self).len(),
    {
        self.inner.len()
    }

    /// Check if map is empty.
    pub fn is_empty(&self) -> (r: bool)
        ensures
            r == (object_entries(*self).len() == 0),
    {
        self.len() == 0
    }

    /// Get entry by key.
    ///
    /// Calls `IndexMap::get`: the value stored under `key`, if any.
    ///
    /// # Returns
    /// If entry exists, `Some(&v)` will be returned.
    /// If does not exist, `None` will be returned.
    #[verifier::external_body]
    pub fn get(&self, key: &str) -> (r: Option<&Value>)
        ensures
            r is Some <==> lookup(object_entries(*self), key@) is Some,
            r matches Some(v) ==> v@ == lookup(object_entries(*self), key@)->Some_0,
    {
        self.inner.get(key)
    }

    /// Insert a key-value pair.
    ///
    /// Calls `IndexMap::insert`: an existing key keeps its place and takes the
    /// new value, the old one being handed back; a new key goes last.
    ///
    /// # Returns
    /// - `Some(v)` if key exists.
    /// - `None` if key does not exist.
    #[verifier::external_body]
    pub fn insert(&mut self, key: String, value: Value) -> (r: Option<Value>)
        ensures
            object_entries(*final(self)) == inserted(object_entries(*old(self)), key@, value@),
            keys_distinct(object_entries(*final(self))),
            reserved(*final(self)) == reserved(*old(self)),
            r is Some <==> lookup(object_entries(*old(self)), key@) is Some,
            r matches Some(v) ==> v@ == lookup(object_entries(*old(self)), key@)->Some_0,
    {
        self.inner.insert(key, value)
    }

    /// Create a map with capacity.
    ///
    /// Calls `IndexMap::with_capacity`, which creates an empty map with room
    /// for at least `n` entries.
    ///
    /// # Panics
    /// Panic if n is zero.
    #[verifier::external_body]
    pub fn with_capacity(n: usize) -> (m: Self)
        requires
            n != 0,
        ensures
            m@ == Seq::<(Seq<char>, SpecValue)>::empty(),
            reserved(m) == n,
    {
        Self { inner: indexmap::IndexMap::with_capacity(n) }
    }

    /// Get the capacity of map.
    ///
    /// Calls `IndexMap::capacity`, which is at least the number of entries
    /// and at least the room the map is known to have ([reserved]); how much
    /// more the allocator gave is left unsaid.
    ///
    /// # Returns
    /// A usize number indicating map's capacity.
    #[verifier::external_body]
    pub fn capacity(&self) -> (n: usize)
        ensures
            n >= self@.len(),
            n >= reserved(*self),
    {
        self.inner.capacity()
    }

    /// Clear the map.
    ///
    /// Calls `IndexMap::clear`, which removes every entry.
    #[verifier::external_body]
    pub fn clear(&mut self)
        ensures
            final(self)@ == Seq::<(Seq<char>, SpecValue)>::empty(),
            reserved(*final(self)) == reserved(*old(self)),
    {
        self.inner.clear();
    }

    /// Shorten the map, keeping first `len` elements.
    ///
    /// **Note**: If `len` is greater than map's current length, it has no effect.
    ///
    /// Calls `IndexMap::truncate`.
    #[verifier::external_body]
    pub fn truncate(&mut self, len: usize)
        ensures
            final(self)@ == if len < old(self)@.len() {
                old(self)@.subrange(0, len as int)
            } else {
                old(self)@
            },
            keys_distinct(final(self)@),
            reserved(*final(self)) == 0,
    {
        self.inner.truncate(len);
    }

    /// Split the map at given index.
    ///
    /// Calls `IndexMap::split_off`.
    ///
    /// # Returns
    /// Two maps will be returned. One contains `[0, at)` elements,
    /// while the other contains the remaining.
    ///
    /// # Panics
    /// It will panic if `at` > `len`.
    #[verifier::external_body]
    pub fn split_off(&mut self, at: usize) -> (rest: Self)
        requires
            at <= old(self)@.len(),
        ensures
            final(self)@ == old(self)@.subrange(0, at as int),
            rest@ == old(self)@.subrange(at as int, old(self)@.len() as int),
            keys_distinct(final(self)@),
            keys_distinct(rest@),
            reserved(*final(self)) == 0,
            reserved(rest) == 0,
    {
        Self { inner: self.inner.split_off(at) }
    }

    /// Insert a key-value pair, getting the element's index.
    ///
    /// Calls `IndexMap::insert_full`: an existing key keeps its place and
    /// takes the new value, the old one being handed back; a new key goes
    /// last. The index is the key's place.
    ///
    /// # Returns
    /// - `(usize, Some(v))` if key exists.
    /// - `(usize, None)` if key does not exist.
    #[verifier::external_body]
    pub fn insert_index(&mut self, key: String, value: Value) -> (r: (usize, Option<Value>))
        ensures
            final(self)@ == inserted(old(self)@, key@, value@),
            keys_distinct(final(self)@),
            reserved(*final(self)) == reserved(*old(self)),
            r.0 == key_index(final(self)@, key@),
            r.1 is Some <==> lookup(old(self)@, key@) is Some,
            r.1 matches Some(v) ==> v@ == lookup(old(self)@, key@)->Some_0,
    {
        self.inner.insert_full(key, value)
    }

    /// Get mutable entry by key.
    ///
    /// Calls `IndexMap::get_mut`: the value stored under `key`, if any, to be
    /// changed in place.
    ///
    /// # Returns
    /// If entry exists, `Some(&mut v)` will be returned.
    /// If does not exist, `None` will be returned.
    #[verifier::external_body]
    pub fn get_mut(&mut self, key: &str) -> (r: Option<&mut Value>)
        ensures
            r is Some <==> lookup(old(self)@, key@) is Some,
            r matches Some(v) ==> v@ == lookup(old(self)@, key@)->Some_0 && final(self)@ == inserted(
                old(self)@,
                key@,
                final(v)@,
            ),
            r is None ==> final(self)@ == old(self)@,
            keys_distinct(final(self)@),
            reserved(*final(self)) == reserved(*old(self)),
    {
        self.inner.get_mut(key)
    }

    /// Swap and remove an entry by key.
    ///
    /// Calls `IndexMap::swap_remove`: the last entry takes the place of the
    /// removed one.
    ///
    /// # Returns
    /// If entry exists, `Some(v)` will be returned.
    /// If does not exist, `None` will be returned.
    #[verifier::external_body]
    pub fn swap_remove(&mut self, key: &str) -> (r: Option<Value>)
        ensures
            r is Some <==> lookup(old(self)@, key@) is Some,
            r matches Some(v) ==> v@ == lookup(old(self)@, key@)->Some_0,
            final(self)@ == swap_removed(old(self)@, key@),
            keys_distinct(final(self)@),
            reserved(*final(self)) == 0,
    {
        self.inner.swap_remove(key)
    }

    /// Build a map from key-value pairs, in their order.
    ///
    /// Calls `IndexMap::from_iter`, which inserts each pair in turn: a
    /// repeated key keeps its first place and takes the last value.
    #[verifier::external_body]
    pub fn from_entries(pairs: Vec<(String, Value)>) -> (m: Self)
        ensures
            m@ == inserted_all(Seq::empty(), pairs@),
            keys_distinct(m@),
            reserved(m) == 0,
    {
        Self { inner: pairs.into_iter().collect() }
    }

    /// Get the value of `key`, which the map must hold.
    ///
    /// # Panics
    /// It will panic if `key` does not exist.
    pub fn index(&self, key: &str) -> (r: &Value)
        requires
            lookup(self@, key@) is Some,
        ensures
            r@ == lookup(self@, key@)->Some_0,
    {
        self.get(key).unwrap()
    }

    /// Get the value of `key`, which the map must hold, to change it in
    /// place.
    ///
    /// # Panics
    /// It will panic if `key` does not exist.
    pub fn index_mut(&mut self, key: &str) -> (r: &mut Value)
        requires
            lookup(old(self)@, key@) is Some,
        ensures
            r@ == lookup(old(self)@, key@)->Some_0,
            final(self)@ == inserted(old(self)@, key@, final(r)@),
            reserved(*final(self)) == reserved(*old(self)),
    {
        self.get_mut(key).unwrap()
    }

    /// The entries of the map in their order, keys and values by reference.
    ///
    /// Calls `IndexMap::iter`, which walks the entries in their order.
    #[verifier::external_body]
    pub fn iter(&self) -> (v: Vec<(&String, &Value)>)
        ensures
            v@.len() == self@.len(),
            forall|i: int|
                0 <= i < v@.len() ==> (#[trigger] v@[i]).0@ == self@[i].0 && v@[i].1@ == self@[i].1,
            forall|i: int, j: int| 0 <= i < j < v@.len() ==> v@[i].0@ != v@[j].0@,
    {
        self.inner.iter().collect()
    }

    /// Consume the map, handing out its entries in their order.
    ///
    /// Calls `IndexMap::into_iter`, which yields the entries in their order.
    #[verifier::external_body]
    pub fn into_entries(self) -> (v: Vec<(String, Value)>)
        ensures
            v@.len() == object_entries(self).len(),
            forall|i: int|
                0 <= i < v@.len() ==> (#[trigger] v@[i]).0@ == object_entries(self)[i].0 && v@[i].1@
                    == object_entries(self)[i].1,
            forall|i: int, j: int| 0 <= i < j < v@.len() ==> v@[i].0@ != v@[j].0@,
    {
        self.inner.into_iter().collect()
    }
}

impl Default for ObjectMap {
    /// Calls `IndexMap::new`, which creates an empty map.
    #[verifier::external_body]
    fn default() -> (m: Self)
        ensures
            m@ == Seq::<(Seq<char>, SpecValue)>::empty(),
            reserved(m) == 0,
    {
        Self { inner: indexmap::IndexMap::new() }
    }
}

impl Clone for ObjectMap {
    /// Calls `IndexMap::clone`, which clones every entry.
    #[verifier::external_body]
    fn clone(&self) -> (r: Self)
        ensures
            object_entries(r) == object_entries(*self),
            keys_distinct(object_entries(r)),
            reserved(r) == 0,
    {
        ObjectMap { inner: self.inner.clone() }
    }
}

} // verus!
