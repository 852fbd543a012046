//! Picking entries of ordered maps by their keys.

use crate::ordmap::{lookup, map_of, ordered, sorted, Key, OrdMap};
use crate::ordmap::{lemma_entry, lemma_key_position, lemma_take_step};
use crate::seqs::{gather, gather_includes, gather_source, gather_step, gather_whole, one_if};
use crate::value::Value;
use vstd::prelude::*;

verus! {

/// A test on keys.
pub trait KeyTest<K> {
    /// Whether the test accepts a key.
    spec fn accepts(&self, k: K) -> bool;

    /// Whether the test accepts a key.
    fn test(&self, k: &K) -> (b: bool)
        ensures
            b == self.accepts(*k),
    ;
}

/// The key of an entry, when accepted.
pub open spec fn accepted_key<K, V, T: KeyTest<K>>(t: T) -> spec_fn((K, V)) -> Seq<K> {
    |e: (K, V)| one_if(t.accepts(e.0), e.0)
}

/// The value of an entry, when its key is accepted.
pub open spec fn accepted_value<K, V, T: KeyTest<K>>(t: T) -> spec_fn((K, V)) -> Seq<V> {
    |e: (K, V)| one_if(t.accepts(e.0), e.1)
}

/// The accepted keys of a map, in order.
pub open spec fn keys_where<K: Key, V, T: KeyTest<K>>(m: Map<K, V>, t: T) -> Seq<K> {
    gather(sorted(m), accepted_key::<K, V, T>(t))
}

/// The values under accepted keys, in key order.
pub open spec fn values_where<K: Key, V, T: KeyTest<K>>(m: Map<K, V>, t: T) -> Seq<V> {
    gather(sorted(m), accepted_value::<K, V, T>(t))
}

/// The map without the accepted keys.
pub open spec fn without<K, V, T: KeyTest<K>>(m: Map<K, V>, t: T) -> Map<K, V> {
    Map::new(|k: K| m.contains_key(k) && !t.accepts(k), |k: K| m[k])
}

/// Whether some key is accepted.
pub open spec fn any_key<K, V, T: KeyTest<K>>(m: Map<K, V>, t: T) -> bool {
    exists|k: K| #[trigger] m.contains_key(k) && t.accepts(k)
}

/// Lists the accepted keys.
pub fn find_keys<K: Key, V, T: KeyTest<K>>(m: &OrdMap<K, V>, t: &T) -> (r: Vec<K>)
    ensures
        r@ == keys_where(m@, *t),
{
    let mut r: Vec<K> = Vec::new();
    let n: usize = m.len();
    let mut i: usize = 0;
    let ghost f = accepted_key::<K, V, T>(*t);
    proof {
        gather_whole(m.entries(), f);
    }
    while i < n
        invariant
            i <= n == m.entries().len(),
            f == accepted_key::<K, V, T>(*t),
            r@ == gather(m.entries().take(i as int), f),
        decreases n - i,
    {
        proof {
            gather_step(m.entries(), i as int, f);
        }
        let k = m.key_at(i);
        if t.test(&k) {
            r.push(k);
        }
        i = i + 1;
    }
    r
}

/// Copies the values under accepted keys.
pub fn find_values<K: Key, V: Value, T: KeyTest<K>>(m: &OrdMap<K, V>, t: &T) -> (r: Vec<V>)
    ensures
        r@ == values_where(m@, *t),
{
    let mut r: Vec<V> = Vec::new();
    let n: usize = m.len();
    let mut i: usize = 0;
    let ghost f = accepted_value::<K, V, T>(*t);
    proof {
        gather_whole(m.entries(), f);
    }
    while i < n
        invariant
            i <= n == m.entries().len(),
            f == accepted_value::<K, V, T>(*t),
            r@ == gather(m.entries().take(i as int), f),
        decreases n - i,
    {
        proof {
            gather_step(m.entries(), i as int, f);
        }
        let k = m.key_at(i);
        if t.test(&k) {
            r.push(m.value_at(i).dup());
        }
        i = i + 1;
    }
    r
}

/// Whether some key is accepted.
pub fn has_accepted<K: Key, V, T: KeyTest<K>>(m: &OrdMap<K, V>, t: &T) -> (b: bool)
    ensures
        b == any_key(m@, *t),
{
    let n: usize = m.len();
    let mut i: usize = 0;
    while i < n
        invariant
            i <= n == m.entries().len(),
            ordered(m.entries()),
            forall|j: int| 0 <= j < i ==> !t.accepts((#[trigger] m.entries()[j]).0),
        decreases n - i,
    {
        let k = m.key_at(i);
        if t.test(&k) {
            return true;
        }
        i = i + 1;
    }
    proof {
        if any_key(m@, *t) {
            let k = choose|k: K| #[trigger] m@.contains_key(k) && t.accepts(k);
            let j = lemma_key_position(m.entries(), k);
        }
    }
    false
}

/// A key is listed exactly when the map holds it and the test accepts it.
pub proof fn lemma_keys_where<K: Key, V, T: KeyTest<K>>(s: Seq<(K, V)>, t: T, k: K)
    requires
        ordered(s),
    ensures
        keys_where(map_of(s), t).contains(k) == (map_of(s).contains_key(k) && t.accepts(k)),
{
    crate::ordmap::lemma_sorted(s);
    let f = accepted_key::<K, V, T>(t);
    if keys_where(map_of(s), t).contains(k) {
        let i = gather_source(s, f, k);
        lemma_entry(s, i);
    }
    if map_of(s).contains_key(k) && t.accepts(k) {
        let i = lemma_key_position(s, k);
        assert(f(s[i]) == seq![k]);
        assert(f(s[i])[0] == k);
        gather_includes(s, f, i, k);
    }
}

/// The map without the given keys.
pub open spec fn excluding<K, V>(m: Map<K, V>, keys: Seq<K>) -> Map<K, V> {
    Map::new(|k: K| m.contains_key(k) && !keys.contains(k), |k: K| m[k])
}

/// Removes the given keys.
pub fn remove_keys<K: Key, V>(m: &mut OrdMap<K, V>, keys: &Vec<K>)
    ensures
        final(m)@ == excluding(old(m)@, keys@),
{
    let ghost start = m@;
    let mut i: usize = 0;
    while i < keys.len()
        invariant
            i <= keys@.len(),
            start == old(m)@,
            forall|k: K|
                #![trigger m@.contains_key(k)]
                m@.contains_key(k) == (start.contains_key(k) && !keys@.take(i as int).contains(
                    k,
                )),
            forall|k: K| #![trigger m@[k]] m@.contains_key(k) ==> m@[k] == start[k],
        decreases keys@.len() - i,
    {
        let ghost before = m@;
        m.remove(&keys[i]);
        proof {
            let a = keys@.take(i as int);
            let b = keys@.take(i + 1);
            let x = keys@[i as int];
            assert forall|k: K| #![trigger m@.contains_key(k)] m@.contains_key(k) == (
            start.contains_key(k) && !b.contains(k)) by {
                assert(before.contains_key(k) == (start.contains_key(k) && !a.contains(k)));
                assert(b == a.push(x));
                if a.contains(k) {
                    let j = choose|j: int| 0 <= j < a.len() && a[j] == k;
                    assert(b[j] == k);
                }
                assert(b[i as int] == x);
                if b.contains(k) && k != x {
                    let j = choose|j: int| 0 <= j < b.len() && b[j] == k;
                    assert(a[j] == k);
                }
            }
            assert forall|k: K| #![trigger m@[k]] m@.contains_key(k) implies m@[k] == start[k] by {
                assert(before.contains_key(k));
                assert(before[k] == start[k]);
            }
        }
        i = i + 1;
    }
    assert(keys@.take(keys@.len() as int) == keys@);
    assert(m@ =~= excluding(start, keys@));
}

/// Removes the accepted keys.
pub fn drop_keys<K: Key, V, T: KeyTest<K>>(m: &mut OrdMap<K, V>, t: &T)
    ensures
        final(m)@ == without(old(m)@, *t),
{
    let keys = find_keys(m, t);
    let n: usize = m.len();
    let ghost start = m@;
    let ghost s = m.entries();
    remove_keys(m, &keys);
    proof {
        assert forall|k: K| m@.contains_key(k) == without(start, *t).contains_key(k) by {
            lemma_keys_where(s, *t, k);
        }
        assert(m@ =~= without(start, *t));
    }
}

/// A decision on entries: each is dropped or kept with a new value.
pub trait Fate<K, V> {
    /// What becomes of an entry.
    spec fn fate(&self, k: K, v: V) -> Option<V>;

    /// What becomes of an entry.
    fn decide(&self, k: &K, v: &V) -> (r: Option<V>)
        ensures
            r == self.fate(*k, *v),
    ;
}

/// The map after a decision on each entry.
pub open spec fn reshaped<K, V, T: Fate<K, V>>(m: Map<K, V>, t: T) -> Map<K, V> {
    Map::new(
        |k: K| m.contains_key(k) && t.fate(k, m[k]) is Some,
        |k: K| t.fate(k, m[k])->Some_0,
    )
}

/// What becomes of an entry that may be there.
pub open spec fn fate_at<K, V, T: Fate<K, V>>(t: T, k: K, v: Option<V>) -> Option<V> {
    match v {
        Some(x) => t.fate(k, x),
        None => None,
    }
}

/// Decides on each entry.
pub fn reshape<K: Key, V, T: Fate<K, V>>(m: &OrdMap<K, V>, t: &T) -> (r: OrdMap<K, V>)
    ensures
        r@ == reshaped(m@, *t),
{
    let mut r: OrdMap<K, V> = OrdMap::new();
    let n: usize = m.len();
    let mut i: usize = 0;
    assert(map_of(m.entries().take(0)) =~= Map::<K, V>::empty());
    while i < n
        invariant
            i <= n == m.entries().len(),
            ordered(m.entries()),
            forall|k: K|
                #![trigger lookup(r@, k)]
                lookup(r@, k) == fate_at(*t, k, lookup(map_of(m.entries().take(i as int)), k)),
        decreases n - i,
    {
        let ghost before = r@;
        let ghost s = m.entries();
        let k = m.key_at(i);
        let ghost here = k;
        if let Some(v) = t.decide(&k, m.value_at(i)) {
            r.insert(k, v);
        }
        proof {
            lemma_take_step(s, i as int);
            assert forall|k: K| #![trigger lookup(r@, k)] lookup(r@, k) == fate_at(
                *t,
                k,
                lookup(map_of(s.take(i + 1)), k),
            ) by {
                assert(lookup(before, k) == fate_at(*t, k, lookup(map_of(s.take(i as int)), k)));
            }
        }
        i = i + 1;
    }
    proof {
        assert(m.entries().take(n as int) == m.entries());
        assert forall|k: K| r@.contains_key(k) == reshaped(m@, *t).contains_key(k) by {
            assert(lookup(r@, k) == fate_at(*t, k, lookup(map_of(m.entries()), k)));
        }
        assert forall|k: K| #[trigger] r@.contains_key(k) implies r@[k] == reshaped(m@, *t)[k] by {
            assert(lookup(r@, k) == fate_at(*t, k, lookup(map_of(m.entries()), k)));
        }
        assert(r@ =~= reshaped(m@, *t));
    }
    r
}

} // verus!
