//! Ordered maps over keys that carry an integer code.

use crate::value::Value;
use vstd::prelude::*;

verus! {

/// A key type with a total order, given by an injective integer code.
pub trait Key: Value {
    /// The position of the key in the order.
    spec fn code(self) -> int;

    /// An exclusive upper bound of all codes.
    spec fn bound() -> int;

    proof fn code_in_range(self)
        ensures
            0 <= self.code() < Self::bound(),
    ;

    proof fn code_injective(self, other: Self)
        ensures
            self.code() == other.code() ==> self == other,
    ;

    /// Whether `self` comes strictly before `other`.
    fn precedes(&self, other: &Self) -> (b: bool)
        ensures
            b == (self.code() < other.code()),
    ;
}

impl Key for u8 {
    open spec fn code(self) -> int {
        self as int
    }

    open spec fn bound() -> int {
        0x100
    }

    proof fn code_in_range(self) {
    }

    proof fn code_injective(self, other: Self) {
    }

    fn precedes(&self, other: &Self) -> (b: bool) {
        *self < *other
    }
}

impl Key for u16 {
    open spec fn code(self) -> int {
        self as int
    }

    open spec fn bound() -> int {
        0x1_0000
    }

    proof fn code_in_range(self) {
    }

    proof fn code_injective(self, other: Self) {
    }

    fn precedes(&self, other: &Self) -> (b: bool) {
        *self < *other
    }
}

impl Key for u32 {
    open spec fn code(self) -> int {
        self as int
    }

    open spec fn bound() -> int {
        0x1_0000_0000
    }

    proof fn code_in_range(self) {
    }

    proof fn code_injective(self, other: Self) {
    }

    fn precedes(&self, other: &Self) -> (b: bool) {
        *self < *other
    }
}

impl Key for u64 {
    open spec fn code(self) -> int {
        self as int
    }

    open spec fn bound() -> int {
        0x1_0000_0000_0000_0000
    }

    proof fn code_in_range(self) {
    }

    proof fn code_injective(self, other: Self) {
    }

    fn precedes(&self, other: &Self) -> (b: bool) {
        *self < *other
    }
}

/// Two-digit codes compare lexicographically.
pub proof fn lemma_digits(a: int, b: int, c: int, d: int, m: int)
    by (nonlinear_arith)
    requires
        0 <= b < m,
        0 <= d < m,
    ensures
        (a * m + b < c * m + d) == (a < c || (a == c && b < d)),
        (a * m + b == c * m + d) == (a == c && b == d),
{
}

proof fn lemma_pair_range(a: int, b: int, n: int, m: int)
    by (nonlinear_arith)
    requires
        0 <= a < n,
        0 <= b < m,
    ensures
        0 <= a * m + b < n * m,
{
}

impl<A: Key, B: Key> Key for (A, B) {
    open spec fn code(self) -> int {
        self.0.code() * B::bound() + self.1.code()
    }

    open spec fn bound() -> int {
        A::bound() * B::bound()
    }

    proof fn code_in_range(self) {
        self.0.code_in_range();
        self.1.code_in_range();
        lemma_pair_range(self.0.code(), self.1.code(), A::bound(), B::bound());
    }

    proof fn code_injective(self, other: Self) {
        self.1.code_in_range();
        other.1.code_in_range();
        lemma_digits(self.0.code(), self.1.code(), other.0.code(), other.1.code(), B::bound());
        self.0.code_injective(other.0);
        self.1.code_injective(other.1);
    }

    fn precedes(&self, other: &Self) -> (b: bool) {
        proof {
            self.1.code_in_range();
            other.1.code_in_range();
            lemma_digits(self.0.code(), self.1.code(), other.0.code(), other.1.code(), B::bound());
        }
        if self.0.precedes(&other.0) {
            true
        } else if other.0.precedes(&self.0) {
            false
        } else {
            self.1.precedes(&other.1)
        }
    }
}

/// Entries in strictly increasing key order.
pub open spec fn ordered<K: Key, V>(s: Seq<(K, V)>) -> bool {
    forall|i: int, j: int| 0 <= i < j < s.len() ==> (#[trigger] s[i]).0.code() < (#[trigger] s[j]).0.code()
}

/// Whether some entry has key `k`.
pub open spec fn has_key<K, V>(s: Seq<(K, V)>, k: K) -> bool {
    exists|i: int| 0 <= i < s.len() && (#[trigger] s[i]).0 == k
}

/// The position of key `k`.
pub open spec fn key_index<K, V>(s: Seq<(K, V)>, k: K) -> int {
    choose|i: int| 0 <= i < s.len() && (#[trigger] s[i]).0 == k
}

/// The finite map that the entries represent.
pub open spec fn map_of<K, V>(s: Seq<(K, V)>) -> Map<K, V> {
    Map::new(|k: K| has_key(s, k), |k: K| s[key_index(s, k)].1)
}

/// What a map holds under `k`.
pub open spec fn lookup<K, V>(m: Map<K, V>, k: K) -> Option<V> {
    if m.contains_key(k) {
        Some(m[k])
    } else {
        None
    }
}

/// Whether a map is what some ordered map holds.
pub open spec fn is_table<K: Key, V>(m: Map<K, V>) -> bool {
    ordered(sorted(m)) && map_of(sorted(m)) == m
}

/// In ordered entries every position is found under its own key.
pub proof fn lemma_entry<K: Key, V>(s: Seq<(K, V)>, i: int)
    requires
        ordered(s),
        0 <= i < s.len(),
    ensures
        map_of(s).contains_key(s[i].0),
        map_of(s)[s[i].0] == s[i].1,
        key_index(s, s[i].0) == i,
{
    assert(has_key(s, s[i].0));
    let j = key_index(s, s[i].0);
    if j < i {
        assert(s[j].0.code() < s[i].0.code());
    }
    if i < j {
        assert(s[i].0.code() < s[j].0.code());
    }
}

/// Every key of the map has a position.
pub proof fn lemma_key_position<K: Key, V>(s: Seq<(K, V)>, k: K) -> (i: int)
    requires
        map_of(s).contains_key(k),
    ensures
        0 <= i < s.len(),
        s[i].0 == k,
        map_of(s)[k] == s[i].1,
{
    assert(has_key(s, k));
    key_index(s, k)
}

/// The entries of a map in key order.
pub open spec fn sorted<K: Key, V>(m: Map<K, V>) -> Seq<(K, V)> {
    choose|s: Seq<(K, V)>| ordered(s) && #[trigger] map_of(s) == m
}

/// Ordered entries are determined by the map they represent.
pub proof fn lemma_ordered_unique<K: Key, V>(s: Seq<(K, V)>, t: Seq<(K, V)>)
    requires
        ordered(s),
        ordered(t),
        map_of(s) == map_of(t),
    ensures
        s == t,
    decreases s.len(),
{
    if s.len() == 0 {
        if t.len() > 0 {
            lemma_entry(t, 0);
            let i = lemma_key_position(s, t[0].0);
        }
        assert(s =~= t);
    } else {
        let last = s.len() - 1;
        lemma_entry(s, last);
        let j = lemma_key_position(t, s[last].0);
        lemma_entry(t, t.len() - 1);
        let i = lemma_key_position(s, t[t.len() - 1].0);
        if j < t.len() - 1 {
            assert(t[j].0.code() < t[t.len() - 1].0.code());
            if i < last {
                assert(s[i].0.code() < s[last].0.code());
            }
        }
        assert(j == t.len() - 1);
        lemma_remove(s, last);
        lemma_remove(t, j);
        lemma_ordered_unique(s.remove(last), t.remove(j));
        assert(s =~= s.remove(last).push(s[last]));
        assert(t =~= t.remove(j).push(t[j]));
        lemma_entry(t, j);
    }
}

/// Ordered entries are the sorted entries of their map.
pub proof fn lemma_sorted<K: Key, V>(s: Seq<(K, V)>)
    requires
        ordered(s),
    ensures
        sorted(map_of(s)) == s,
{
    let t = sorted(map_of(s));
    assert(ordered(t) && map_of(t) == map_of(s));
    lemma_ordered_unique(s, t);
}

proof fn lemma_insert<K: Key, V>(s: Seq<(K, V)>, at: int, k: K, v: V)
    requires
        ordered(s),
        0 <= at <= s.len(),
        forall|i: int| 0 <= i < at ==> (#[trigger] s[i]).0.code() < k.code(),
        forall|i: int| at <= i < s.len() ==> k.code() < (#[trigger] s[i]).0.code(),
    ensures
        ordered(s.insert(at, (k, v))),
        map_of(s.insert(at, (k, v))) == map_of(s).insert(k, v),
        !map_of(s).contains_key(k),
{
    let t = s.insert(at, (k, v));
    assert(ordered(t));
    assert forall|q: K| map_of(t).contains_key(q) == map_of(s).insert(k, v).contains_key(q) by {
        if has_key(t, q) {
            let i = key_index(t, q);
            if i < at {
                assert(s[i] == t[i]);
            } else if i > at {
                assert(s[i - 1] == t[i]);
            }
        }
        if has_key(s, q) {
            let i = key_index(s, q);
            if i < at {
                assert(t[i] == s[i]);
            } else {
                assert(t[i + 1] == s[i]);
            }
        }
        assert(t[at].0 == k);
    }
    assert forall|q: K| #[trigger] map_of(t).contains_key(q) implies map_of(t)[q] == map_of(s).insert(
        k,
        v,
    )[q] by {
        let i = lemma_key_position(t, q);
        lemma_entry(t, i);
        if i < at {
            assert(s[i] == t[i]);
            lemma_entry(s, i);
        } else if i > at {
            assert(s[i - 1] == t[i]);
            lemma_entry(s, i - 1);
        }
    }
    assert(map_of(t) =~= map_of(s).insert(k, v));
}

proof fn lemma_remove<K: Key, V>(s: Seq<(K, V)>, at: int)
    requires
        ordered(s),
        0 <= at < s.len(),
    ensures
        ordered(s.remove(at)),
        map_of(s.remove(at)) == map_of(s).remove(s[at].0),
{
    let t = s.remove(at);
    let k = s[at].0;
    assert(ordered(t));
    assert forall|q: K| map_of(t).contains_key(q) == map_of(s).remove(k).contains_key(q) by {
        if has_key(t, q) {
            let i = key_index(t, q);
            if i < at {
                assert(s[i] == t[i]);
            } else {
                assert(s[i + 1] == t[i]);
            }
        }
        if has_key(s, q) && q != k {
            let i = key_index(s, q);
            if i < at {
                assert(t[i] == s[i]);
            } else {
                assert(t[i - 1] == s[i]);
            }
        }
    }
    assert forall|q: K| #[trigger] map_of(t).contains_key(q) implies map_of(t)[q] == map_of(s)[q] by {
        let i = lemma_key_position(t, q);
        lemma_entry(t, i);
        if i < at {
            assert(s[i] == t[i]);
            lemma_entry(s, i);
        } else {
            assert(s[i + 1] == t[i]);
            lemma_entry(s, i + 1);
        }
    }
    assert(map_of(t) =~= map_of(s).remove(k));
}

proof fn lemma_replace<K: Key, V>(s: Seq<(K, V)>, at: int, v: V)
    requires
        ordered(s),
        0 <= at < s.len(),
    ensures
        ordered(s.update(at, (s[at].0, v))),
        map_of(s.update(at, (s[at].0, v))) == map_of(s).insert(s[at].0, v),
{
    let t = s.update(at, (s[at].0, v));
    let k = s[at].0;
    assert forall|i: int| 0 <= i < s.len() implies (#[trigger] t[i]).0 == s[i].0 by {}
    assert(ordered(t));
    assert forall|q: K| map_of(t).contains_key(q) == map_of(s).insert(k, v).contains_key(q) by {
        if has_key(t, q) {
            let i = key_index(t, q);
            assert(s[i].0 == t[i].0);
        }
        if has_key(s, q) {
            let i = key_index(s, q);
            assert(s[i].0 == t[i].0);
        }
        assert(t[at].0 == k);
    }
    assert forall|q: K| #[trigger] map_of(t).contains_key(q) implies map_of(t)[q] == map_of(s).insert(
        k,
        v,
    )[q] by {
        let i = lemma_key_position(t, q);
        lemma_entry(t, i);
        lemma_entry(s, i);
    }
    assert(map_of(t) =~= map_of(s).insert(k, v));
}

/// The first position of ordered entries whose key is not before `k`.
proof fn lemma_slot<K: Key, V>(s: Seq<(K, V)>, k: K) -> (at: int)
    requires
        ordered(s),
    ensures
        0 <= at <= s.len(),
        forall|i: int| 0 <= i < at ==> (#[trigger] s[i]).0.code() < k.code(),
        forall|i: int| at <= i < s.len() ==> k.code() <= (#[trigger] s[i]).0.code(),
    decreases s.len(),
{
    if s.len() == 0 {
        0
    } else {
        let front = s.drop_last();
        if s.last().0.code() < k.code() {
            assert forall|i: int| 0 <= i < s.len() implies (#[trigger] s[i]).0.code()
                < k.code() by {
                if i < s.len() - 1 {
                    assert(s[i].0.code() < s[s.len() - 1].0.code());
                }
            }
            s.len() as int
        } else {
            assert(ordered(front));
            let at = lemma_slot(front, k);
            assert forall|i: int| 0 <= i < at implies (#[trigger] s[i]).0.code() < k.code() by {
                assert(front[i] == s[i]);
            }
            assert forall|i: int| at <= i < s.len() implies k.code() <= (
            #[trigger] s[i]).0.code() by {
                if i < s.len() - 1 {
                    assert(front[i] == s[i]);
                }
            }
            at
        }
    }
}

/// A table stays one when an entry is put into it.
pub proof fn lemma_table_insert<K: Key, V>(m: Map<K, V>, k: K, v: V)
    requires
        is_table(m),
    ensures
        is_table(m.insert(k, v)),
{
    let s = sorted(m);
    if m.contains_key(k) {
        let i = lemma_key_position(s, k);
        lemma_replace(s, i, v);
        lemma_sorted(s.update(i, (k, v)));
    } else {
        let at = lemma_slot(s, k);
        assert forall|i: int| at <= i < s.len() implies k.code() < (#[trigger] s[i]).0.code() by {
            k.code_injective(s[i].0);
            lemma_entry(s, i);
        }
        lemma_insert(s, at, k, v);
        lemma_sorted(s.insert(at, (k, v)));
    }
}

/// A table stays one when an entry is removed from it.
pub proof fn lemma_table_remove<K: Key, V>(m: Map<K, V>, k: K)
    requires
        is_table(m),
    ensures
        is_table(m.remove(k)),
{
    let s = sorted(m);
    if m.contains_key(k) {
        let i = lemma_key_position(s, k);
        lemma_remove(s, i);
        lemma_sorted(s.remove(i));
    } else {
        assert(m.remove(k) =~= m);
    }
}

/// Taking one entry more adds exactly its key.
pub proof fn lemma_take_step<K: Key, V>(s: Seq<(K, V)>, i: int)
    requires
        ordered(s),
        0 <= i < s.len(),
    ensures
        map_of(s.take(i + 1)) == map_of(s.take(i)).insert(s[i].0, s[i].1),
        !map_of(s.take(i)).contains_key(s[i].0),
        ordered(s.take(i)),
        ordered(s.take(i + 1)),
{
    let a = s.take(i);
    let b = s.take(i + 1);
    assert(ordered(a));
    assert(ordered(b));
    lemma_entry(b, i);
    if map_of(a).contains_key(s[i].0) {
        let j = lemma_key_position(a, s[i].0);
        assert(a[j] == s[j]);
        assert(s[j].0.code() < s[i].0.code());
    }
    assert forall|k: K| map_of(b).contains_key(k) == map_of(a).insert(
        s[i].0,
        s[i].1,
    ).contains_key(k) by {
        if map_of(a).contains_key(k) {
            let j = lemma_key_position(a, k);
            assert(b[j] == a[j]);
        }
        if map_of(b).contains_key(k) {
            let j = lemma_key_position(b, k);
            if j < i {
                assert(a[j] == b[j]);
            }
        }
    }
    assert forall|k: K| #[trigger] map_of(b).contains_key(k) implies map_of(b)[k] == map_of(
        a,
    ).insert(s[i].0, s[i].1)[k] by {
        let j = lemma_key_position(b, k);
        lemma_entry(b, j);
        if j < i {
            assert(a[j] == b[j]);
            lemma_entry(a, j);
        }
    }
    assert(map_of(b) =~= map_of(a).insert(s[i].0, s[i].1));
}

/// A map kept in key order.
pub struct OrdMap<K: Key, V> {
    entries: Vec<(K, V)>,
}

impl<K: Key, V> OrdMap<K, V> {
    #[verifier::type_invariant]
    spec fn inv(self) -> bool {
        ordered(self.entries@)
    }

    /// The entries in key order.
    pub closed spec fn entries(&self) -> Seq<(K, V)> {
        self.entries@
    }

    /// The map represented.
    pub open spec fn view(&self) -> Map<K, V> {
        map_of(self.entries())
    }

    /// The empty map.
    pub fn new() -> (r: Self)
        ensures
            r.entries() == Seq::<(K, V)>::empty(),
            r@ == Map::<K, V>::empty(),
    {
        let r = OrdMap { entries: Vec::new() };
        assert(r@ =~= Map::<K, V>::empty());
        r
    }

    /// The number of entries.
    pub fn len(&self) -> (n: usize)
        ensures
            n == self.entries().len(),
            ordered(self.entries()),
            self.entries() == sorted(self@),
    {
        proof {
            use_type_invariant(self);
            lemma_sorted(self.entries@);
        }
        self.entries.len()
    }

    /// Whether the map is empty.
    pub fn is_empty(&self) -> (b: bool)
        ensures
            b == (self.entries().len() == 0),
            b == (self@ == Map::<K, V>::empty()),
    {
        proof {
            use_type_invariant(self);
            if self.entries@.len() > 0 {
                lemma_entry(self.entries@, 0);
                assert(self@.contains_key(self.entries@[0].0));
            } else {
                assert(self@ =~= Map::<K, V>::empty());
            }
        }
        self.entries.len() == 0
    }

    /// The key at position `i`.
    pub fn key_at(&self, i: usize) -> (k: K)
        requires
            i < self.entries().len(),
        ensures
            k == self.entries()[i as int].0,
            self@.contains_key(k),
            self@[k] == self.entries()[i as int].1,
    {
        proof {
            use_type_invariant(self);
            lemma_entry(self.entries@, i as int);
        }
        self.entries[i].0.dup()
    }

    /// The value at position `i`.
    pub fn value_at(&self, i: usize) -> (v: &V)
        requires
            i < self.entries().len(),
        ensures
            *v == self.entries()[i as int].1,
    {
        &self.entries[i].1
    }

    /// The first position whose key is not before `k`.
    fn lower_bound(&self, k: &K) -> (at: usize)
        ensures
            at <= self.entries@.len(),
            ordered(self.entries@),
            forall|i: int| 0 <= i < at ==> (#[trigger] self.entries@[i]).0.code() < k.code(),
            forall|i: int|
                at <= i < self.entries@.len() ==> k.code() <= (#[trigger] self.entries@[i]).0.code(),
    {
        proof {
            use_type_invariant(self);
        }
        let mut lo: usize = 0;
        let mut hi: usize = self.entries.len();
        while lo < hi
            invariant
                ordered(self.entries@),
                lo <= hi <= self.entries@.len(),
                forall|i: int| 0 <= i < lo ==> (#[trigger] self.entries@[i]).0.code() < k.code(),
                forall|i: int|
                    hi <= i < self.entries@.len() ==> k.code() <= (
                    #[trigger] self.entries@[i]).0.code(),
            decreases hi - lo,
        {
            let mid: usize = lo + (hi - lo) / 2;
            if self.entries[mid].0.precedes(k) {
                assert forall|i: int| 0 <= i < mid + 1 implies (
                #[trigger] self.entries@[i]).0.code() < k.code() by {
                    if i < mid {
                        assert(self.entries@[i].0.code() < self.entries@[mid as int].0.code());
                    }
                }
                lo = mid + 1;
            } else {
                assert forall|i: int| mid <= i < self.entries@.len() implies k.code() <= (
                #[trigger] self.entries@[i]).0.code() by {
                    if i > mid {
                        assert(self.entries@[mid as int].0.code() < self.entries@[i].0.code());
                    }
                }
                hi = mid;
            }
        }
        lo
    }

    /// The position of `k`, when present.
    fn find(&self, k: &K) -> (r: Option<usize>)
        ensures
            ordered(self.entries@),
            match r {
                Some(i) => i < self.entries@.len() && self.entries@[i as int].0 == *k
                    && self@.contains_key(*k) && self@[*k] == self.entries@[i as int].1,
                None => !self@.contains_key(*k),
            },
    {
        let at: usize = self.lower_bound(k);
        if at < self.entries.len() && !k.precedes(&self.entries[at].0) {
            proof {
                k.code_injective(self.entries@[at as int].0);
                lemma_entry(self.entries@, at as int);
            }
            Some(at)
        } else {
            proof {
                if self@.contains_key(*k) {
                    let i = lemma_key_position(self.entries@, *k);
                    assert(self.entries@[i].0.code() == k.code());
                    if at < self.entries@.len() {
                        if i > at {
                            assert(self.entries@[at as int].0.code() < self.entries@[i].0.code());
                        }
                    }
                }
            }
            None
        }
    }

    /// Whether `k` is present.
    pub fn contains_key(&self, k: &K) -> (b: bool)
        ensures
            b == self@.contains_key(*k),
    {
        self.find(k).is_some()
    }

    /// The value under `k`.
    pub fn get(&self, k: &K) -> (r: Option<&V>)
        ensures
            match r {
                Some(v) => self@.contains_key(*k) && *v == self@[*k],
                None => !self@.contains_key(*k),
            },
    {
        match self.find(k) {
            Some(i) => Some(&self.entries[i].1),
            None => None,
        }
    }

    /// Puts `v` under `k`, replacing what was there.
    pub fn insert(&mut self, k: K, v: V) -> (prev: Option<V>)
        ensures
            final(self)@ == old(self)@.insert(k, v),
            prev == (if old(self)@.contains_key(k) {
                Some(old(self)@[k])
            } else {
                None
            }),
    {
        let found: Option<usize> = self.find(&k);
        let at: usize = self.lower_bound(&k);
        let mut entries: Vec<(K, V)> = Vec::new();
        std::mem::swap(&mut entries, &mut self.entries);
        match found {
            Some(i) => {
                proof {
                    lemma_replace(entries@, i as int, v);
                }
                let ghost before = entries@;
                let removed: (K, V) = entries.remove(i);
                entries.insert(i, (k, v));
                assert(entries@ =~= before.update(i as int, (k, v)));
                self.entries = entries;
                Some(removed.1)
            },
            None => {
                proof {
                    assert forall|j: int| at <= j < entries@.len() implies k.code() < (
                    #[trigger] entries@[j]).0.code() by {
                        if k.code() == entries@[j].0.code() {
                            k.code_injective(entries@[j].0);
                            lemma_entry(entries@, j);
                        }
                    }
                    lemma_insert(entries@, at as int, k, v);
                }
                entries.insert(at, (k, v));
                self.entries = entries;
                None
            },
        }
    }

    /// Removes the entry under `k`.
    pub fn remove(&mut self, k: &K) -> (prev: Option<V>)
        ensures
            final(self)@ == old(self)@.remove(*k),
            prev == (if old(self)@.contains_key(*k) {
                Some(old(self)@[*k])
            } else {
                None
            }),
            !old(self)@.contains_key(*k) ==> *final(self) == *old(self),
    {
        match self.find(k) {
            Some(i) => {
                let mut entries: Vec<(K, V)> = Vec::new();
                std::mem::swap(&mut entries, &mut self.entries);
                proof {
                    lemma_remove(entries@, i as int);
                }
                let removed: (K, V) = entries.remove(i);
                self.entries = entries;
                Some(removed.1)
            },
            None => {
                assert(self@.remove(*k) =~= self@);
                None
            },
        }
    }
}

/// Entries stand in ascending order of their keys.
pub proof fn entries_ascend<V>(m: Map<u32, V>, n: Map<u64, V>, i: int, j: int)
    ensures
        is_table(m) && 0 <= i < j < sorted(m).len() ==> sorted(m)[i].0 < sorted(m)[j].0,
        is_table(n) && 0 <= i < j < sorted(n).len() ==> sorted(n)[i].0 < sorted(n)[j].0,
{
}

/// Pairs are ordered by their first part, then by their second.
pub proof fn pairs_are_ordered_lexicographically<A: Key, B: Key>(a: (A, B), b: (A, B))
    ensures
        a.0.code() < b.0.code() ==> a.code() < b.code(),
        a.0 == b.0 && a.1.code() < b.1.code() ==> a.code() < b.code(),
{
    a.1.code_in_range();
    b.1.code_in_range();
    lemma_digits(a.0.code(), a.1.code(), b.0.code(), b.1.code(), B::bound());
}

} // verus!
