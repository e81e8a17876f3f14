//! A set built on [`SmallMap`] with no values: the same inline and heap
//! forms, the same one-way move between them, and insertion order.

use vstd::prelude::*;

use crate::small_map::has_key;
use crate::small_map::inserted;
use crate::small_map::key_index;
use crate::small_map::key_seq;
use crate::small_map::keys_distinct;
use crate::small_map::Iter as MapIter;
use crate::small_map::SmallMap;

verus! {

/// The distinct values of `s`, each where it first occurs.
pub open spec fn first_occurrences(s: Seq<usize>) -> Seq<usize>
    decreases s.len(),
{
    if s.len() == 0 {
        s
    } else {
        let prev = first_occurrences(s.drop_last());
        if prev.contains(s.last()) {
            prev
        } else {
            prev.push(s.last())
        }
    }
}

/// The text of a decimal digit.
pub open spec fn digit_char(d: nat) -> char {
    if d == 0 { '0' }
    else if d == 1 { '1' }
    else if d == 2 { '2' }
    else if d == 3 { '3' }
    else if d == 4 { '4' }
    else if d == 5 { '5' }
    else if d == 6 { '6' }
    else if d == 7 { '7' }
    else if d == 8 { '8' }
    else { '9' }
}

/// The decimal text of `n`, without leading zeros.
pub open spec fn decimal(n: nat) -> Seq<char>
    decreases n,
{
    if n < 10 {
        seq![digit_char(n)]
    } else {
        decimal(n / 10).push(digit_char(n % 10))
    }
}

/// The values of `s` in decimal, separated by `", "`.
pub open spec fn joined(s: Seq<usize>) -> Seq<char>
    decreases s.len(),
{
    if s.len() == 0 {
        Seq::empty()
    } else if s.len() == 1 {
        decimal(s[0] as nat)
    } else {
        joined(s.drop_last()) + seq![',', ' '] + decimal(s.last() as nat)
    }
}

/// Relies on `usize::to_string`: the decimal text of the number.
#[verifier::external_body]
fn decimal_text(n: usize) -> (r: String)
    ensures
        r@ == decimal(n as nat),
{
    n.to_string()
}

/// Keys without values whose first-insertion order is kept. Up to `C` values
/// are held inline; the insert of a new value beyond that moves them all, in
/// order, to a hash-indexed form for good.
#[derive(Debug)]
pub struct SmallSet<const C: usize> {
    data: SmallMap<(), C>,
}

impl<const C: usize> View for SmallSet<C> {
    type V = Seq<usize>;

    closed spec fn view(&self) -> Seq<usize> {
        key_seq(self.data@)
    }
}

/// The keys of `s` occur in order in `key_seq(s)`, and `has_key` is
/// membership there.
proof fn lemma_key_seq<V>(s: Seq<(usize, V)>, k: usize)
    ensures
        key_seq(s).len() == s.len(),
        has_key(s, k) == key_seq(s).contains(k),
        keys_distinct(s) == key_seq(s).no_duplicates(),
{
    if has_key(s, k) {
        let i = choose|i: int| 0 <= i < s.len() && s[i].0 == k;
        assert(key_seq(s)[i] == k);
    }
    if key_seq(s).contains(k) {
        let i = choose|i: int| 0 <= i < key_seq(s).len() && key_seq(s)[i] == k;
        assert(s[i].0 == k);
    }
    if keys_distinct(s) {
        assert forall|i: int, j: int| 0 <= i < key_seq(s).len() && 0 <= j < key_seq(s).len() && i != j
            implies key_seq(s)[i] != key_seq(s)[j] by {
            if i < j {
                assert(s[i].0 != s[j].0);
            } else {
                assert(s[j].0 != s[i].0);
            }
        }
    }
    if key_seq(s).no_duplicates() {
        assert forall|i: int, j: int| 0 <= i < j < s.len() implies s[i].0 != s[j].0 by {
            assert(key_seq(s)[i] != key_seq(s)[j]);
        }
    }
}

/// Adding `k` to entries with keys `s` adds it to the keys at the end, unless
/// it is already there.
proof fn lemma_key_seq_inserted<V>(s: Seq<(usize, V)>, k: usize, v: V)
    requires
        keys_distinct(s),
    ensures
        key_seq(inserted(s, k, v)) == (if key_seq(s).contains(k) { key_seq(s) } else { key_seq(s).push(k) }),
{
    lemma_key_seq(s, k);
    if has_key(s, k) {
        let i = key_index(s, k);
        assert(key_seq(inserted(s, k, v)) =~= key_seq(s));
    } else {
        assert(key_seq(inserted(s, k, v)) =~= key_seq(s).push(k));
    }
}

impl<const C: usize> SmallSet<C> {
    /// Well-formedness of the underlying map.
    pub open spec fn wf(&self) -> bool {
        self.map().wf()
    }

    /// The underlying map.
    pub closed spec fn map(&self) -> SmallMap<(), C> {
        self.data
    }

    /// Whether the values are held inline.
    pub open spec fn inline(&self) -> bool {
        self.map().inline()
    }

    proof fn lemma_view(&self)
        requires
            self.wf(),
        ensures
            self@ == key_seq(self.map()@),
            self@.len() == self.map()@.len(),
            self@.no_duplicates(),
            self.inline() ==> self@.len() <= C,
    {
        lemma_key_seq(self.data@, 0);
    }

    /// Creates an empty set, held inline.
    pub fn new() -> (r: Self)
        requires
            C > 0,
        ensures
            r.wf(),
            r@ == Seq::<usize>::empty(),
            r.inline(),
    {
        let r = SmallSet { data: SmallMap::new() };
        assert(r@ =~= Seq::<usize>::empty());
        r
    }

    /// The number of values.
    pub fn len(&self) -> (r: usize)
        requires
            self.wf(),
        ensures
            r == self@.len(),
    {
        proof {
            self.lemma_view();
        }
        self.data.len()
    }

    /// Whether the set has no values.
    pub fn is_empty(&self) -> (r: bool)
        requires
            self.wf(),
        ensures
            r == (self@.len() == 0),
    {
        proof {
            self.lemma_view();
        }
        self.data.is_empty()
    }

    /// The number of values that can be held inline.
    pub fn inline_capacity(&self) -> (r: usize)
        ensures
            r == C,
    {
        self.data.inline_capacity()
    }

    /// Whether the values are held inline (`true`) or in the heap form.
    pub fn is_inline(&self) -> (r: bool)
        ensures
            r == self.inline(),
    {
        self.data.is_inline()
    }

    /// A cursor over the values in insertion order.
    pub fn iter(&self) -> (r: Iter<'_, C>)
        requires
            self.wf(),
        ensures
            r.inner.map == self.map(),
            r.inner.pos == 0,
    {
        Iter { inner: self.data.iter() }
    }

    /// A set whose inline buffer is `inline`, taken as it is: its values must
    /// be distinct and fit the inline capacity.
    pub fn from_const_unchecked(inline: Vec<(usize, ())>) -> (r: Self)
        requires
            keys_distinct(inline@),
            inline@.len() <= C,
        ensures
            r.wf(),
            r@ == key_seq(inline@),
            r.inline(),
    {
        SmallSet { data: SmallMap::from_const(inline) }
    }

    /// Adds `value` at the end, unless it is already present, in which case
    /// nothing changes. A new value beyond the inline capacity moves the set
    /// to the heap form first.
    pub fn insert(&mut self, value: usize)
        requires
            old(self).wf(),
        ensures
            final(self).wf(),
            final(self)@ == (if old(self)@.contains(value) { old(self)@ } else { old(self)@.push(value) }),
            final(self).inline() == (old(self).inline() && (old(self)@.contains(value)
                || old(self)@.len() < C)),
    {
        proof {
            lemma_key_seq_inserted(self.data@, value, ());
            lemma_key_seq(self.data@, value);
        }
        self.data.insert(value, ());
    }

    /// The set of the keys of `map`.
    pub fn from_keys(map: SmallMap<(), C>) -> (r: Self)
        requires
            map.wf(),
        ensures
            r.wf(),
            r.map() == map,
            r@ == key_seq(map@),
    {
        SmallSet { data: map }
    }

    /// A set of `values`, built by inserting them in order into a new set:
    /// a repeated value is kept once, where it first occurs.
    pub fn from_iter(values: Vec<usize>) -> (r: Self)
        requires
            C > 0,
        ensures
            r.wf(),
            r@ == first_occurrences(values@),
            r.inline() == (first_occurrences(values@).len() <= C),
    {
        let mut set = Self::new();
        let mut i: usize = 0;
        while i < values.len()
            invariant
                i <= values@.len(),
                set.wf(),
                set@ == first_occurrences(values@.subrange(0, i as int)),
                set.inline() == (set@.len() <= C),
            decreases values@.len() - i,
        {
            proof {
                set.lemma_view();
                let sub = values@.subrange(0, i as int + 1);
                assert(sub.drop_last() =~= values@.subrange(0, i as int));
            }
            set.insert(values[i]);
            i = i + 1;
        }
        assert(values@.subrange(0, values@.len() as int) =~= values@);
        set
    }

    /// The values in braces, in insertion order, each in decimal and
    /// separated by `", "`: `{0, 1, 2}`.
    pub fn to_debug_string(&self) -> (r: String)
        requires
            self.wf(),
        ensures
            r@ == seq!['{'] + joined(self@) + seq!['}'],
    {
        proof {
            self.lemma_view();
        }
        let mut out = String::from_str("{");
        proof {
            reveal_strlit("{");
        }
        let n = self.len();
        let mut i: usize = 0;
        while i < n
            invariant
                n == self@.len(),
                self@ == key_seq(self.map()@),
                i <= n,
                out@ == seq!['{'] + joined(self@.subrange(0, i as int)),
            decreases n - i,
        {
            let ghost prev = self@.subrange(0, i as int);
            let k = match self.data.get_index(i) {
                Some(kv) => *kv.0,
                None => 0,
            };
            if i > 0 {
                out.append(", ");
            }
            out.append(decimal_text(k).as_str());
            proof {
                let next = self@.subrange(0, i as int + 1);
                assert(next.drop_last() =~= prev);
                assert(next.last() == k);
                if i == 0 {
                    assert(out@ =~= seq!['{'] + joined(next));
                } else {
                    reveal_strlit(", ");
                    assert(", "@ =~= seq![',', ' ']);
                    assert(joined(next) == joined(prev) + seq![',', ' '] + decimal(k as nat));
                    assert(out@ =~= seq!['{'] + joined(next));
                }
            }
            i = i + 1;
        }
        out.append("}");
        proof {
            reveal_strlit("}");
        }
        assert(self@.subrange(0, n as int) =~= self@);
        out
    }
}

impl<const C: usize> Default for SmallSet<C> {
    /// An empty set, held inline.
    fn default() -> (r: Self)
        ensures
            r.wf(),
            r@ == Seq::<usize>::empty(),
            r.inline(),
    {
        let r = SmallSet { data: SmallMap::default() };
        assert(r@ =~= Seq::<usize>::empty());
        r
    }
}

impl<const C: usize> PartialEq for SmallSet<C> {
    fn eq(&self, other: &Self) -> (r: bool) {
        let n = self.data.len();
        if n != other.data.len() {
            return false;
        }
        let mut i: usize = 0;
        while i < n
            invariant
                n == self.data@.len(),
                n == other.data@.len(),
                i <= n,
                forall|j: int| 0 <= j < i ==> #[trigger] self.data@[j].0 == other.data@[j].0,
            decreases n - i,
        {
            match (self.data.get_index(i), other.data.get_index(i)) {
                (Some(a), Some(b)) => {
                    if *a.0 != *b.0 {
                        proof {
                            assert(key_seq(self.data@)[i as int] != key_seq(other.data@)[i as int]);
                        }
                        return false;
                    }
                },
                _ => {
                    return false;
                },
            }
            i = i + 1;
        }
        assert(key_seq(self.data@) =~= key_seq(other.data@));
        true
    }
}

impl<const C: usize> vstd::std_specs::cmp::PartialEqSpecImpl for SmallSet<C> {
    open spec fn obeys_eq_spec() -> bool {
        true
    }

    /// Equal values in the same insertion order, whichever form each set is
    /// held in.
    open spec fn eq_spec(&self, other: &SmallSet<C>) -> bool {
        self@ == other@
    }
}

/// A cursor over the values of a set in insertion order.
pub struct Iter<'a, const C: usize> {
    pub inner: MapIter<'a, (), C>,
}

impl<'a, const C: usize> Iter<'a, C> {
    /// The values not yet visited.
    pub open spec fn remaining(&self) -> Seq<usize> {
        key_seq(self.inner.remaining())
    }

    /// The next value in insertion order, if any.
    pub fn next(&mut self) -> (r: Option<&'a usize>)
        requires
            old(self).inner.map.wf(),
            old(self).inner.pos <= old(self).inner.map@.len(),
        ensures
            final(self).inner.map == old(self).inner.map,
            final(self).inner.pos <= final(self).inner.map@.len(),
            match r {
                Some(v) => {
                    &&& old(self).remaining().len() > 0
                    &&& *v == old(self).remaining()[0]
                    &&& final(self).remaining() == old(self).remaining().drop_first()
                },
                None => old(self).remaining().len() == 0,
            },
    {
        let r = self.inner.next();
        match r {
            Some(kv) => {
                assert(final(self).remaining() =~= old(self).remaining().drop_first());
                Some(kv.0)
            },
            None => None,
        }
    }

    /// The number of values not yet visited.
    pub fn len(&self) -> (r: usize)
        requires
            self.inner.map.wf(),
            self.inner.pos <= self.inner.map@.len(),
        ensures
            r == self.remaining().len(),
    {
        self.inner.len()
    }
}

/// A set of distinct values holds each of them once: built by repeated
/// inserts, it holds the distinct values of what was inserted, each once,
/// in the order of first insertion.
pub proof fn law_first_occurrences(s: Seq<usize>)
    ensures
        first_occurrences(s).no_duplicates(),
        forall|x: usize| first_occurrences(s).contains(x) <==> s.contains(x),
    decreases s.len(),
{
    if s.len() > 0 {
        let prev = s.drop_last();
        let l = s.last();
        law_first_occurrences(prev);
        let p = first_occurrences(prev);
        let f = first_occurrences(s);
        assert(s =~= prev.push(l));
        assert forall|x: usize| f.contains(x) <==> s.contains(x) by {
            if s.contains(x) {
                let i = choose|i: int| 0 <= i < s.len() && s[i] == x;
                if i < prev.len() {
                    assert(prev[i] == x);
                }
            }
            if prev.contains(x) {
                let i = choose|i: int| 0 <= i < prev.len() && prev[i] == x;
                assert(s[i] == x);
            }
            if f.contains(x) {
                let i = choose|i: int| 0 <= i < f.len() && f[i] == x;
                if !p.contains(l) && i < p.len() {
                    assert(p[i] == x);
                }
            }
            if x == l && !p.contains(l) {
                assert(f[p.len() as int] == l);
            }
            if p.contains(x) {
                let i = choose|i: int| 0 <= i < p.len() && p[i] == x;
                assert(f[i] == x);
            }
            assert(s[s.len() - 1] == l);
        }
        if !p.contains(l) {
            assert forall|i: int, j: int| 0 <= i < f.len() && 0 <= j < f.len() && i != j
                implies f[i] != f[j] by {
                if i < p.len() && j < p.len() {
                    assert(p[i] != p[j]);
                } else if i < p.len() {
                    assert(p[i] == f[i]);
                } else {
                    assert(p[j] == f[j]);
                }
            }
        }
    }
}

} // verus!
