//! A map that keeps up to `C` entries inline and moves them, once, to a
//! hash-indexed form when a new key would exceed that number.

use indexmap::IndexMap;
use indexmap::IndexSet;
use vstd::prelude::*;
use vstd::std_specs::cmp::PartialEqSpec;

use crate::ordered_index::index_map_capacity;
use crate::ordered_index::index_map_into_entries;
use crate::ordered_index::index_set_get_index;
use crate::ordered_index::index_set_get_index_of;
use crate::ordered_index::index_set_insert_full;
use crate::ordered_index::index_set_items;
use crate::ordered_index::index_set_len;
use crate::ordered_index::index_set_new;

verus! {

/// No key occurs twice in `s`.
pub open spec fn keys_distinct<V>(s: Seq<(usize, V)>) -> bool {
    forall|i: int, j: int| 0 <= i < j < s.len() ==> s[i].0 != s[j].0
}

/// Some entry of `s` has key `k`.
pub open spec fn has_key<V>(s: Seq<(usize, V)>, k: usize) -> bool {
    exists|i: int| 0 <= i < s.len() && s[i].0 == k
}

/// The position of the entry of `s` with key `k`, where there is one.
pub open spec fn key_index<V>(s: Seq<(usize, V)>, k: usize) -> int {
    choose|i: int| 0 <= i < s.len() && s[i].0 == k
}

/// The keys of `s`, in order.
pub open spec fn key_seq<V>(s: Seq<(usize, V)>) -> Seq<usize> {
    s.map_values(|e: (usize, V)| e.0)
}

/// The entries after add-or-update of `(k, v)`: an existing key keeps its
/// position and takes the new value; a new key is appended.
pub open spec fn inserted<V>(s: Seq<(usize, V)>, k: usize, v: V) -> Seq<(usize, V)> {
    if has_key(s, k) {
        s.update(key_index(s, k), (k, v))
    } else {
        s.push((k, v))
    }
}

/// The value stored for `k` in `s`, if any.
pub open spec fn value_of<V>(s: Seq<(usize, V)>, k: usize) -> Option<V> {
    if has_key(s, k) {
        Some(s[key_index(s, k)].1)
    } else {
        None
    }
}

/// Whether a map held inline (`inline`) with entries `s` is still held inline
/// after an insert of key `k`: it is, unless the key is new and the buffer
/// already holds `c` entries.
pub open spec fn stays_inline<V>(inline: bool, s: Seq<(usize, V)>, k: usize, c: nat) -> bool {
    inline && (has_key(s, k) || s.len() < c)
}

/// In a sequence with distinct keys, the entry at `i` is the one `key_index`
/// finds for its key.
pub proof fn lemma_key_index_unique<V>(s: Seq<(usize, V)>, i: int)
    requires
        keys_distinct(s),
        0 <= i < s.len(),
    ensures
        has_key(s, s[i].0),
        key_index(s, s[i].0) == i,
{
    let k = s[i].0;
    assert(0 <= i < s.len() && s[i].0 == k);
    let j = key_index(s, k);
    if j != i {
        if j < i {
            assert(s[j].0 != s[i].0);
        } else {
            assert(s[i].0 != s[j].0);
        }
    }
}

/// The heap form: the keys in a hash-indexed ordered set, and the value of
/// the key at position `i` at position `i` of `values`.
#[derive(Debug)]
struct HeapEntries<V> {
    keys: IndexSet<usize>,
    values: Vec<V>,
}

impl<V> HeapEntries<V> {
    /// Each key once, and one value for each key.
    spec fn wf(&self) -> bool {
        &&& index_set_items(self.keys).no_duplicates()
        &&& index_set_items(self.keys).len() == self.values@.len()
    }

    /// The entries, as far as both the keys and the values reach.
    spec fn entries(&self) -> Seq<(usize, V)> {
        let n = if self.values@.len() <= index_set_items(self.keys).len() {
            self.values@.len()
        } else {
            index_set_items(self.keys).len()
        };
        Seq::new(n, |i: int| (index_set_items(self.keys)[i], self.values@[i]))
    }

    /// The number of entries.
    fn len(&self) -> (r: usize)
        ensures
            r == self.entries().len(),
    {
        let n = index_set_len(&self.keys);
        if self.values.len() <= n {
            self.values.len()
        } else {
            n
        }
    }

    /// The keys of the entries are those of the set, each once.
    proof fn lemma_entries(&self)
        requires
            self.wf(),
        ensures
            keys_distinct(self.entries()),
            key_seq(self.entries()) == index_set_items(self.keys),
    {
        let items = index_set_items(self.keys);
        assert forall|i: int, j: int| 0 <= i < j < self.entries().len() implies
            self.entries()[i].0 != self.entries()[j].0 by {
            assert(items[i] != items[j]);
        }
        assert(key_seq(self.entries()) =~= items);
    }

    /// An empty heap form.
    fn new() -> (r: Self)
        ensures
            r.wf(),
            r.entries() == Seq::<(usize, V)>::empty(),
    {
        let r = HeapEntries { keys: index_set_new(), values: Vec::new() };
        assert(r.entries() =~= Seq::<(usize, V)>::empty());
        r
    }

    /// Add-or-update through the hash index: a new key is appended with its
    /// value, an existing key's value is replaced in place.
    fn insert(&mut self, key: usize, value: V) -> (r: Option<V>)
        requires
            old(self).wf(),
        ensures
            final(self).wf(),
            final(self).entries() == inserted(old(self).entries(), key, value),
            r == value_of(old(self).entries(), key),
    {
        proof {
            self.lemma_entries();
        }
        let ghost s = self.entries();
        let ghost items = index_set_items(self.keys);
        let (i, added) = index_set_insert_full(&mut self.keys, key);
        if added {
            self.values.push(value);
            proof {
                if has_key(s, key) {
                    let j = choose|j: int| 0 <= j < s.len() && s[j].0 == key;
                    assert(items[j] == key);
                }
                assert(self.entries() =~= s.push((key, value)));
                assert forall|a: int, b: int| 0 <= a < b < index_set_items(self.keys).len() implies
                    index_set_items(self.keys)[a] != index_set_items(self.keys)[b] by {
                    if b == items.len() {
                        assert(items[a] == index_set_items(self.keys)[a]);
                    }
                }
            }
            None
        } else {
            let mut v = value;
            let slot = &mut self.values[i];
            std::mem::swap(slot, &mut v);
            proof {
                assert(s[i as int].0 == key);
                lemma_key_index_unique(s, i as int);
                assert(self.entries() =~= s.update(i as int, (key, value)));
            }
            Some(v)
        }
    }

    /// The entries, in order, as one vector.
    fn into_entries(self) -> (r: Vec<(usize, V)>)
        requires
            self.wf(),
        ensures
            r@ == self.entries(),
    {
        let ghost s = self.entries();
        let keys = self.keys;
        let mut values = self.values;
        let mut rev: Vec<(usize, V)> = Vec::new();
        while values.len() > 0
            invariant
                index_set_items(keys).len() == s.len(),
                values@.len() + rev@.len() == s.len(),
                forall|j: int| 0 <= j < values@.len() ==> values@[j] == s[j].1,
                forall|j: int| 0 <= j < s.len() ==> s[j].0 == index_set_items(keys)[j],
                forall|j: int| 0 <= j < rev@.len() ==> rev@[j] == s[s.len() - 1 - j],
            decreases values@.len(),
        {
            let v = values.pop().unwrap();
            let n = values.len();
            let k = match index_set_get_index(&keys, n) {
                Some(k) => *k,
                None => 0,
            };
            rev.push((k, v));
        }
        let mut r: Vec<(usize, V)> = Vec::new();
        while rev.len() > 0
            invariant
                r@.len() + rev@.len() == s.len(),
                r@ == s.subrange(0, r@.len() as int),
                forall|j: int| 0 <= j < rev@.len() ==> rev@[j] == s[s.len() - 1 - j],
            decreases rev@.len(),
        {
            let e = rev.pop().unwrap();
            r.push(e);
            assert(r@ =~= s.subrange(0, r@.len() as int));
        }
        assert(r@ =~= s);
        r
    }
}

#[derive(Debug)]
enum MapData<V, const C: usize> {
    Inline(Vec<(usize, V)>),
    Heap(HeapEntries<V>),
}

/// A map from `usize` keys to values that remembers the order in which keys
/// were first inserted. Up to `C` entries are kept in a plain buffer and
/// found by a linear scan; the insert of a new key beyond that moves every
/// entry, in order, to a hash-indexed form, which the map keeps from then on.
#[derive(Debug)]
pub struct SmallMap<V, const C: usize> {
    data: MapData<V, C>,
}

impl<V, const C: usize> View for SmallMap<V, C> {
    type V = Seq<(usize, V)>;

    closed spec fn view(&self) -> Seq<(usize, V)> {
        match &self.data {
            MapData::Inline(entries) => entries@,
            MapData::Heap(heap) => heap.entries(),
        }
    }
}

impl<V, const C: usize> SmallMap<V, C> {
    /// Whether the entries are held in the inline buffer.
    pub closed spec fn inline(&self) -> bool {
        self.data is Inline
    }

    pub closed spec fn data_wf(&self) -> bool {
        match &self.data {
            MapData::Inline(entries) => true,
            MapData::Heap(heap) => heap.wf(),
        }
    }

    /// Well-formedness: keys are unique, and the inline buffer never holds
    /// more than `C` entries.
    pub open spec fn wf(&self) -> bool {
        &&& self.data_wf()
        &&& keys_distinct(self@)
        &&& (self.inline() ==> self@.len() <= C)
    }

    /// Creates an empty map, held inline.
    pub fn new() -> (r: Self)
        requires
            C > 0,
        ensures
            r.wf(),
            r@ == Seq::<(usize, V)>::empty(),
            r.inline(),
    {
        SmallMap { data: MapData::Inline(Vec::new()) }
    }

    /// The number of entries.
    pub fn len(&self) -> (r: usize)
        ensures
            r == self@.len(),
    {
        match &self.data {
            MapData::Inline(entries) => entries.len(),
            MapData::Heap(heap) => heap.len(),
        }
    }

    /// Whether the map has no entries.
    pub fn is_empty(&self) -> (r: bool)
        ensures
            r == (self@.len() == 0),
    {
        self.len() == 0
    }

    /// The number of entries that can be held inline.
    pub fn inline_capacity(&self) -> (r: usize)
        ensures
            r == C,
    {
        C
    }

    /// Whether the entries are held inline (`true`) or in the heap form.
    pub fn is_inline(&self) -> (r: bool)
        ensures
            r == self.inline(),
    {
        match &self.data {
            MapData::Inline(_) => true,
            MapData::Heap(_) => false,
        }
    }

    /// The position of `key` in insertion order, if it is present.
    pub fn get_index_of(&self, key: &usize) -> (r: Option<usize>)
        requires
            self.wf(),
        ensures
            match r {
                Some(i) => i < self@.len() && self@[i as int].0 == *key,
                None => !has_key(self@, *key),
            },
    {
        match &self.data {
            MapData::Inline(entries) => {
                let mut i: usize = 0;
                while i < entries.len()
                    invariant
                        self@ == entries@,
                        0 <= i <= entries@.len(),
                        forall|j: int| 0 <= j < i ==> entries@[j].0 != *key,
                    decreases entries@.len() - i,
                {
                    if entries[i].0 == *key {
                        return Some(i);
                    }
                    i = i + 1;
                }
                None
            },
            MapData::Heap(heap) => {
                let r = index_set_get_index_of(&heap.keys, key);
                proof {
                    heap.lemma_entries();
                    if r is None && has_key(self@, *key) {
                        let j = choose|j: int| 0 <= j < self@.len() && self@[j].0 == *key;
                        assert(index_set_items(heap.keys)[j] == *key);
                    }
                }
                r
            },
        }
    }

    /// Add-or-update. An existing key keeps its position and takes the new
    /// value, and the old value is returned; a new key is appended. A new key
    /// that would take the inline buffer past `C` entries first moves all
    /// entries, in order, to the heap form.
    pub fn insert(&mut self, key: usize, value: V) -> (r: Option<V>)
        requires
            old(self).wf(),
        ensures
            final(self).wf(),
            final(self)@ == inserted(old(self)@, key, value),
            r == value_of(old(self)@, key),
            final(self).inline() == stays_inline(old(self).inline(), old(self)@, key, C as nat),
    {
        let found = self.get_index_of(&key);
        let ghost s = self@;
        match &mut self.data {
            MapData::Inline(entries) => {
                match found {
                    Some(i) => {
                        let mut v = value;
                        let slot = &mut entries[i];
                        std::mem::swap(&mut slot.1, &mut v);
                        proof {
                            lemma_key_index_unique(s, i as int);
                            assert(entries@ =~= s.update(i as int, (key, value)));
                        }
                        return Some(v);
                    },
                    None => {
                        if entries.len() < C {
                            entries.push((key, value));
                            return None;
                        }
                    },
                }
            },
            MapData::Heap(heap) => {
                return heap.insert(key, value);
            },
        }
        let mut taken = MapData::Inline(Vec::new());
        std::mem::swap(&mut self.data, &mut taken);
        let mut heap = match taken {
            MapData::Inline(entries) => Self::move_to_heap(entries),
            MapData::Heap(heap) => heap,
        };
        let r = heap.insert(key, value);
        self.data = MapData::Heap(heap);
        proof {
            heap.lemma_entries();
        }
        r
    }

    /// The value stored for `key`, if it is present.
    pub fn get(&self, key: &usize) -> (r: Option<&V>)
        requires
            self.wf(),
        ensures
            match r {
                Some(v) => value_of(self@, *key) == Some(*v),
                None => value_of(self@, *key) is None,
            },
    {
        match self.get_index_of(key) {
            Some(i) => {
                proof {
                    lemma_key_index_unique(self@, i as int);
                }
                match self.get_index(i) {
                    Some(kv) => Some(kv.1),
                    None => None,
                }
            },
            None => None,
        }
    }

    /// A mutable reference to the value stored for `key`, if it is present.
    /// Writing through it changes that value and nothing else.
    pub fn get_mut(&mut self, key: &usize) -> (r: Option<&mut V>)
        requires
            old(self).wf(),
        ensures
            match r {
                Some(v) => {
                    &&& value_of(old(self)@, *key) == Some(*v)
                    &&& final(self)@ == old(self)@.update(
                        key_index(old(self)@, *key),
                        (*key, *final(v)),
                    )
                    &&& final(self).wf()
                    &&& final(self).inline() == old(self).inline()
                },
                None => {
                    &&& value_of(old(self)@, *key) is None
                    &&& *final(self) == *old(self)
                },
            },
    {
        match self.get_index_of(key) {
            Some(i) => {
                proof {
                    lemma_key_index_unique(self@, i as int);
                }
                Some(self.value_mut_at(i))
            },
            None => None,
        }
    }

    /// The key and value at position `index` in insertion order, if in
    /// bounds.
    pub fn get_index(&self, index: usize) -> (r: Option<(&usize, &V)>)
        ensures
            match r {
                Some(kv) => index < self@.len() && (*kv.0, *kv.1) == self@[index as int],
                None => index >= self@.len(),
            },
    {
        match &self.data {
            MapData::Inline(entries) => {
                if index < entries.len() {
                    let e = &entries[index];
                    Some((&e.0, &e.1))
                } else {
                    None
                }
            },
            MapData::Heap(heap) => {
                if index < heap.len() {
                    match index_set_get_index(&heap.keys, index) {
                        Some(k) => Some((k, &heap.values[index])),
                        None => None,
                    }
                } else {
                    None
                }
            },
        }
    }

    /// The key and a mutable reference to the value at position `index` in
    /// insertion order, if in bounds. Writing through it changes that value
    /// and nothing else.
    pub fn get_index_mut(&mut self, index: usize) -> (r: Option<(&usize, &mut V)>)
        requires
            old(self).wf(),
        ensures
            match r {
                Some(kv) => {
                    &&& index < old(self)@.len()
                    &&& (*kv.0, *kv.1) == old(self)@[index as int]
                    &&& final(self)@ == old(self)@.update(
                        index as int,
                        (*kv.0, *final(kv.1)),
                    )
                    &&& final(self).wf()
                    &&& final(self).inline() == old(self).inline()
                },
                None => {
                    &&& index >= old(self)@.len()
                    &&& *final(self) == *old(self)
                },
            },
    {
        match &mut self.data {
            MapData::Inline(entries) => {
                if index < entries.len() {
                    let e = &mut entries[index];
                    Some((&e.0, &mut e.1))
                } else {
                    None
                }
            },
            MapData::Heap(heap) => {
                if index < heap.len() {
                    match index_set_get_index(&heap.keys, index) {
                        Some(k) => Some((k, &mut heap.values[index])),
                        None => None,
                    }
                } else {
                    None
                }
            },
        }
    }

    /// A mutable reference to the value at position `i`.
    fn value_mut_at(&mut self, i: usize) -> (r: &mut V)
        requires
            old(self).wf(),
            i < old(self)@.len(),
        ensures
            *r == old(self)@[i as int].1,
            final(self)@ == old(self)@.update(i as int, (old(self)@[i as int].0, *final(r))),
            final(self).wf(),
            final(self).inline() == old(self).inline(),
    {
        match &mut self.data {
            MapData::Inline(entries) => {
                let e = &mut entries[i];
                &mut e.1
            },
            MapData::Heap(heap) => &mut heap.values[i],
        }
    }

    /// The entry for `key`: occupied, with the position of `key`, if it is
    /// present; vacant, with `key`, if not. Whatever is done through the
    /// entry is what the map holds afterwards.
    pub fn entry(&mut self, key: usize) -> (r: Entry<'_, V, C>)
        requires
            old(self).wf(),
        ensures
            match r {
                Entry::Occupied(m, i) => {
                    &&& *m == *old(self)
                    &&& i < old(self)@.len()
                    &&& old(self)@[i as int].0 == key
                },
                Entry::Vacant(m, k) => {
                    &&& *m == *old(self)
                    &&& k == key
                    &&& !has_key(old(self)@, key)
                },
            },
            *final(self) == *final(r.map_ref()),
    {
        match self.get_index_of(&key) {
            Some(index) => Entry::Occupied(self, index),
            None => Entry::Vacant(self, key),
        }
    }

    /// A map whose inline buffer is `inline`, taken as it is: its keys must
    /// be distinct and fit the inline capacity.
    pub fn from_const(inline: Vec<(usize, V)>) -> (r: Self)
        requires
            keys_distinct(inline@),
            inline@.len() <= C,
        ensures
            r.wf(),
            r@ == inline@,
            r.inline(),
    {
        SmallMap { data: MapData::Inline(inline) }
    }

    /// A map holding `entries`, in order, built from a heap map whose
    /// allocated capacity was `capacity`: it is held inline when that
    /// capacity, and the entries, fit in `C`, and in the heap form otherwise.
    pub fn from_entries(capacity: usize, entries: Vec<(usize, V)>) -> (r: Self)
        requires
            keys_distinct(entries@),
        ensures
            r.wf(),
            r@ == entries@,
            r.inline() == (capacity <= C && entries@.len() <= C),
    {
        if capacity <= C && entries.len() <= C {
            SmallMap { data: MapData::Inline(entries) }
        } else {
            let heap = Self::move_to_heap(entries);
            proof {
                heap.lemma_entries();
            }
            SmallMap { data: MapData::Heap(heap) }
        }
    }

    /// A map holding the entries of `map`, in its order. Whether it is held
    /// inline depends on how much `map` had allocated (see `from_entries`).
    pub fn from_map(map: IndexMap<usize, V>) -> (r: Self)
        ensures
            r.wf(),
    {
        let capacity = index_map_capacity(&map);
        let entries = index_map_into_entries(map);
        Self::from_entries(capacity, entries)
    }

    /// A cursor over the entries in insertion order.
    pub fn iter(&self) -> (r: Iter<'_, V, C>)
        requires
            self.wf(),
        ensures
            r.map == self,
            r.pos == 0,
    {
        Iter { map: self, pos: 0 }
    }

    /// The entries, taken out of the map in insertion order.
    pub fn into_iter(self) -> (r: IntoIter<V>)
        requires
            self.wf(),
        ensures
            r@ == self@,
    {
        let ghost s = self@;
        let mut rest = match self.data {
            MapData::Inline(entries) => entries,
            MapData::Heap(heap) => heap.into_entries(),
        };
        let mut rev: Vec<(usize, V)> = Vec::new();
        while rest.len() > 0
            invariant
                rest@.len() + rev@.len() == s.len(),
                rest@ == s.subrange(0, rest@.len() as int),
                forall|j: int| 0 <= j < rev@.len() ==> rev@[j] == s[s.len() - 1 - j],
            decreases rest@.len(),
        {
            let e = rest.pop().unwrap();
            rev.push(e);
            assert(rest@ =~= s.subrange(0, rest@.len() as int));
        }
        let r = IntoIter { rev };
        assert(r@ =~= s);
        r
    }

    /// Moves inline entries, in order, into a new heap form.
    fn move_to_heap(entries: Vec<(usize, V)>) -> (r: HeapEntries<V>)
        requires
            keys_distinct(entries@),
        ensures
            r.wf(),
            r.entries() == entries@,
    {
        let ghost s = entries@;
        let mut heap = HeapEntries::new();
        let mut front = entries;
        let mut rest: Vec<(usize, V)> = Vec::new();
        while front.len() > 0
            invariant
                front@.len() + rest@.len() == s.len(),
                front@ == s.subrange(0, front@.len() as int),
                forall|j: int| 0 <= j < rest@.len() ==> rest@[j] == s[s.len() - 1 - j],
            decreases front@.len(),
        {
            let e = front.pop().unwrap();
            rest.push(e);
            assert(front@ =~= s.subrange(0, front@.len() as int));
        }
        while rest.len() > 0
            invariant
                heap.wf(),
                rest@.len() <= s.len(),
                heap.entries() == s.subrange(0, s.len() - rest@.len()),
                forall|j: int| 0 <= j < rest@.len() ==> rest@[j] == s[s.len() - 1 - j],
                keys_distinct(s),
            decreases rest@.len(),
        {
            let ghost n = s.len() - rest@.len();
            let (k, v) = rest.pop().unwrap();
            assert(k == s[n].0);
            proof {
                if has_key(heap.entries(), k) {
                    let j = choose|j: int| 0 <= j < heap.entries().len() && heap.entries()[j].0 == k;
                    assert(s[j].0 == s[n].0);
                }
            }
            heap.insert(k, v);
            assert(heap.entries() =~= s.subrange(0, n + 1));
        }
        assert(s.subrange(0, s.len() as int) =~= s);
        heap
    }
}

impl<V, const C: usize> Default for SmallMap<V, C> {
    /// An empty map, held inline.
    fn default() -> (r: Self)
        ensures
            r.wf(),
            r@ == Seq::<(usize, V)>::empty(),
            r.inline(),
    {
        SmallMap { data: MapData::Inline(Vec::new()) }
    }
}

/// The entries after inserting each of `ops`, in order, into entries `s`.
pub open spec fn entries_after<V>(s: Seq<(usize, V)>, ops: Seq<(usize, V)>) -> Seq<(usize, V)>
    decreases ops.len(),
{
    if ops.len() == 0 {
        s
    } else {
        let last = ops.last();
        inserted(entries_after(s, ops.drop_last()), last.0, last.1)
    }
}

/// Whether a map that starts with entries `s`, held inline or not as
/// `inline` says, is held inline after inserting each of `ops`, in order.
pub open spec fn inline_after<V>(inline: bool, s: Seq<(usize, V)>, ops: Seq<(usize, V)>, c: nat) -> bool
    decreases ops.len(),
{
    if ops.len() == 0 {
        inline
    } else {
        let prev = ops.drop_last();
        stays_inline(inline_after(inline, s, prev, c), entries_after(s, prev), ops.last().0, c)
    }
}

/// Inserting entries with distinct keys, one by one, into an empty map
/// leaves exactly those entries in that order, however often the map
/// changed form on the way; and it is still held inline exactly when their
/// number does not exceed the inline capacity `c`.
pub proof fn law_distinct_inserts<V>(ops: Seq<(usize, V)>, c: nat)
    requires
        keys_distinct(ops),
    ensures
        entries_after(Seq::<(usize, V)>::empty(), ops) == ops,
        inline_after(true, Seq::<(usize, V)>::empty(), ops, c) == (ops.len() <= c),
    decreases ops.len(),
{
    if ops.len() > 0 {
        let prev = ops.drop_last();
        assert(keys_distinct(prev));
        law_distinct_inserts(prev, c);
        let last = ops.last();
        if has_key(prev, last.0) {
            let j = choose|j: int| 0 <= j < prev.len() && prev[j].0 == last.0;
            assert(ops[j].0 != ops[ops.len() - 1].0);
        }
        assert(prev.push(last) =~= ops);
    }
}

/// The insert of a key that is already present keeps the number of entries,
/// the key's position and every other entry, stores the new value there,
/// returns the value it replaced, and leaves the form of the map as it was.
pub proof fn law_update_in_place<V>(s: Seq<(usize, V)>, inline: bool, k: usize, v: V, c: nat)
    requires
        keys_distinct(s),
        has_key(s, k),
    ensures
        inserted(s, k, v).len() == s.len(),
        inserted(s, k, v)[key_index(s, k)] == (k, v),
        forall|i: int| 0 <= i < s.len() && i != key_index(s, k) ==> #[trigger] inserted(s, k, v)[i] == s[i],
        key_seq(inserted(s, k, v)) == key_seq(s),
        value_of(s, k) == Some(s[key_index(s, k)].1),
        stays_inline(inline, s, k, c) == inline,
{
    let i = key_index(s, k);
    assert(key_seq(inserted(s, k, v)) =~= key_seq(s));
}

/// In a well-formed map, a present key stands at exactly one position, the
/// one `get_index_of` reports, and the entry at that position, which
/// `get_index` returns, has that key; whichever form the map is held in.
pub proof fn law_index_key_consistency<V, const C: usize>(m: &SmallMap<V, C>, k: usize)
    requires
        m.wf(),
        has_key(m@, k),
    ensures
        0 <= key_index(m@, k) < m@.len(),
        m@[key_index(m@, k)].0 == k,
        forall|i: int| 0 <= i < m@.len() && #[trigger] m@[i].0 == k ==> i == key_index(m@, k),
{
    assert forall|i: int| 0 <= i < m@.len() && #[trigger] m@[i].0 == k implies i == key_index(m@, k) by {
        lemma_key_index_unique(m@, i);
    }
}

/// An empty map holds no key: `get`, `get_mut` and `get_index_of` find
/// nothing, and no position is in bounds for `get_index`.
pub proof fn law_empty_lookups<V, const C: usize>(m: &SmallMap<V, C>, k: usize, index: usize)
    requires
        m.wf(),
        m@.len() == 0,
    ensures
        !has_key(m@, k),
        value_of(m@, k) is None,
        index >= m@.len(),
{
}

/// Two maps are equal when they hold equal entries in the same insertion
/// order, whichever form each of them is held in.
pub open spec fn same_entries<V: PartialEq>(a: Seq<(usize, V)>, b: Seq<(usize, V)>) -> bool {
    &&& a.len() == b.len()
    &&& forall|i: int| #![trigger a[i], b[i]] 0 <= i < a.len() ==> a[i].0 == b[i].0 && a[i].1.eq_spec(&b[i].1)
}

impl<V: PartialEq, const C: usize> PartialEq for SmallMap<V, C> {
    fn eq(&self, other: &Self) -> (r: bool) {
        let n = self.len();
        if n != other.len() {
            return false;
        }
        let mut i: usize = 0;
        while i < n
            invariant
                n == self@.len(),
                n == other@.len(),
                i <= n,
                forall|j: int| #![trigger self@[j], other@[j]] 0 <= j < i ==> self@[j].0 == other@[j].0,
                V::obeys_eq_spec() ==> forall|j: int| #![trigger self@[j], other@[j]] 0 <= j < i
                    ==> self@[j].1.eq_spec(&other@[j].1),
            decreases n - i,
        {
            match (self.get_index(i), other.get_index(i)) {
                (Some(a), Some(b)) => {
                    if *a.0 != *b.0 || !a.1.eq(b.1) {
                        proof {
                            if V::obeys_eq_spec() {
                                assert(!(self@[i as int].0 == other@[i as int].0
                                    && self@[i as int].1.eq_spec(&other@[i as int].1)));
                                assert(!same_entries(self@, other@));
                            }
                        }
                        return false;
                    }
                },
                _ => {
                    return false;
                },
            }
            i = i + 1;
        }
        true
    }
}

impl<V: PartialEq, const C: usize> vstd::std_specs::cmp::PartialEqSpecImpl for SmallMap<V, C> {
    open spec fn obeys_eq_spec() -> bool {
        V::obeys_eq_spec()
    }

    open spec fn eq_spec(&self, other: &SmallMap<V, C>) -> bool {
        same_entries(self@, other@)
    }
}

/// A handle on the place of one key in a map: occupied, with the position of
/// the key, or vacant, with the key that was looked up.
pub enum Entry<'a, V, const C: usize> {
    Occupied(&'a mut SmallMap<V, C>, usize),
    Vacant(&'a mut SmallMap<V, C>, usize),
}

impl<'a, V, const C: usize> Entry<'a, V, C> {
    /// The map the entry belongs to.
    pub open spec fn map_ref(&self) -> &'a mut SmallMap<V, C> {
        match self {
            Entry::Occupied(m, _) => *m,
            Entry::Vacant(m, _) => *m,
        }
    }

    /// The entry is what `SmallMap::entry` hands out: occupied at the
    /// position of a present key, or vacant with an absent key.
    pub open spec fn wf(&self) -> bool {
        match self {
            Entry::Occupied(m, i) => m.wf() && *i < m@.len(),
            Entry::Vacant(m, k) => m.wf() && !has_key(m@, *k),
        }
    }

    /// On an occupied entry, applies `f` to the value in place and returns
    /// the same entry; a vacant entry is returned as it is.
    pub fn and_modify<F: FnOnce(&mut V)>(self, f: F) -> (r: Self)
        requires
            self.wf(),
            forall|x: &mut V| #[trigger] f.requires((x,)),
        ensures
            match self {
                Entry::Occupied(m, i) => match r {
                    Entry::Occupied(m2, i2) => {
                        &&& i2 == i
                        &&& m2.wf()
                        &&& m2.inline() == m.inline()
                        &&& *final(m) == *final(m2)
                        &&& exists|x: &mut V| {
                            &&& *x == m@[i as int].1
                            &&& f.ensures((x,), ())
                            &&& m2@ == m@.update(i as int, (m@[i as int].0, *final(x)))
                        }
                    },
                    Entry::Vacant(_, _) => false,
                },
                Entry::Vacant(_, _) => r == self,
            },
    {
        match self {
            Entry::Occupied(map, index) => {
                let v = map.value_mut_at(index);
                f(v);
                Entry::Occupied(map, index)
            },
            x => x,
        }
    }

    /// On a vacant entry, inserts its key with `default`; on an occupied one,
    /// does nothing.
    pub fn or_insert(self, default: V)
        requires
            self.wf(),
        ensures
            match self {
                Entry::Occupied(m, _) => *final(m) == *m,
                Entry::Vacant(m, k) => {
                    &&& final(m).wf()
                    &&& final(m)@ == m@.push((k, default))
                    &&& final(m).inline() == stays_inline(m.inline(), m@, k, C as nat)
                },
            },
    {
        match self {
            Entry::Vacant(map, key) => {
                map.insert(key, default);
            },
            Entry::Occupied(_, _) => {},
        }
    }
}

/// A cursor over the entries of a map in insertion order.
pub struct Iter<'a, V, const C: usize> {
    pub map: &'a SmallMap<V, C>,
    pub pos: usize,
}

impl<'a, V, const C: usize> Iter<'a, V, C> {
    /// The entries not yet visited.
    pub open spec fn remaining(&self) -> Seq<(usize, V)> {
        self.map@.subrange(self.pos as int, self.map@.len() as int)
    }

    /// The next entry in insertion order, if any.
    pub fn next(&mut self) -> (r: Option<(&'a usize, &'a V)>)
        requires
            old(self).map.wf(),
            old(self).pos <= old(self).map@.len(),
        ensures
            final(self).map == old(self).map,
            final(self).pos <= final(self).map@.len(),
            match r {
                Some(kv) => {
                    &&& old(self).remaining().len() > 0
                    &&& (*kv.0, *kv.1) == old(self).remaining()[0]
                    &&& final(self).remaining() == old(self).remaining().drop_first()
                },
                None => {
                    &&& old(self).remaining().len() == 0
                    &&& final(self).pos == old(self).pos
                },
            },
    {
        let n = self.map.len();
        let r = self.map.get_index(self.pos);
        if self.pos < n {
            self.pos = self.pos + 1;
            assert(final(self).remaining() =~= old(self).remaining().drop_first());
        }
        r
    }

    /// The number of entries not yet visited.
    pub fn len(&self) -> (r: usize)
        requires
            self.map.wf(),
            self.pos <= self.map@.len(),
        ensures
            r == self.remaining().len(),
    {
        self.map.len() - self.pos
    }
}

/// The entries of a map, taken out in insertion order.
pub struct IntoIter<V> {
    rev: Vec<(usize, V)>,
}

impl<V> View for IntoIter<V> {
    type V = Seq<(usize, V)>;

    /// The entries still to come, in order.
    closed spec fn view(&self) -> Seq<(usize, V)> {
        self.rev@.reverse()
    }
}

impl<V> IntoIter<V> {
    /// Takes out the next entry, if any.
    pub fn next(&mut self) -> (r: Option<(usize, V)>)
        ensures
            match r {
                Some(e) => old(self)@.len() > 0 && e == old(self)@[0]
                    && final(self)@ == old(self)@.drop_first(),
                None => old(self)@.len() == 0 && final(self)@ == old(self)@,
            },
    {
        let r = self.rev.pop();
        proof {
            if r is Some {
                assert(self@ =~= old(self)@.drop_first());
            }
        }
        r
    }

    /// The number of entries still to come.
    pub fn len(&self) -> (r: usize)
        ensures
            r == self@.len(),
    {
        self.rev.len()
    }
}

} // verus!
