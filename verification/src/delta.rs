//! Differences between successive route tables.

use crate::ordmap::{lookup, map_of, ordered, Key, OrdMap};
use crate::ordmap::{lemma_entry, lemma_key_position};
use crate::route::{Route, RouteKey};
use crate::value::Value;
use vstd::prelude::*;

verus! {

/// Routes to install into and keys to withdraw from the Loc-RIB.
#[derive(Debug)]
pub struct RuntimeDelta {
    pub installed: Vec<Route>,
    pub withdrawn: Vec<RouteKey>,
}

/// The routes of `current` that `published` lacks or holds differently, in
/// key order.
pub open spec fn changed_routes(
    current: Seq<(RouteKey, Route)>,
    published: Map<RouteKey, Route>,
) -> Seq<Route>
    decreases current.len(),
{
    if current.len() == 0 {
        Seq::empty()
    } else {
        let rest = changed_routes(current.drop_last(), published);
        if lookup(published, current.last().0) == Some(current.last().1) {
            rest
        } else {
            rest.push(current.last().1)
        }
    }
}

/// The keys of `published` that `current` lacks, in key order.
pub open spec fn gone_keys(
    published: Seq<(RouteKey, Route)>,
    current: Map<RouteKey, Route>,
) -> Seq<RouteKey>
    decreases published.len(),
{
    if published.len() == 0 {
        Seq::empty()
    } else {
        let rest = gone_keys(published.drop_last(), current);
        if current.contains_key(published.last().0) {
            rest
        } else {
            rest.push(published.last().0)
        }
    }
}

/// Compares a fresh table with the published one: what is new or different
/// is installed, what disappeared is withdrawn.
pub fn diff_tables(
    published: &OrdMap<RouteKey, Route>,
    current: &OrdMap<RouteKey, Route>,
) -> (d: RuntimeDelta)
    ensures
        d.installed@ == changed_routes(current.entries(), published@),
        d.withdrawn@ == gone_keys(published.entries(), current@),
{
    let mut installed: Vec<Route> = Vec::new();
    let mut i: usize = 0;
    let n: usize = current.len();
    while i < n
        invariant
            i <= n == current.entries().len(),
            installed@ == changed_routes(current.entries().take(i as int), published@),
        decreases n - i,
    {
        let ghost upto = current.entries().take(i + 1);
        assert(upto.drop_last() == current.entries().take(i as int));
        let key = current.key_at(i);
        let route = current.value_at(i);
        let unchanged: bool = match published.get(&key) {
            Some(prev) => prev.same(route),
            None => false,
        };
        if !unchanged {
            installed.push(route.dup());
        }
        i = i + 1;
    }
    assert(current.entries().take(n as int) == current.entries());
    let mut withdrawn: Vec<RouteKey> = Vec::new();
    let mut j: usize = 0;
    let m: usize = published.len();
    while j < m
        invariant
            j <= m == published.entries().len(),
            withdrawn@ == gone_keys(published.entries().take(j as int), current@),
        decreases m - j,
    {
        let ghost upto = published.entries().take(j + 1);
        assert(upto.drop_last() == published.entries().take(j as int));
        let key = published.key_at(j);
        if !current.contains_key(&key) {
            withdrawn.push(key);
        }
        j = j + 1;
    }
    assert(published.entries().take(m as int) == published.entries());
    RuntimeDelta { installed, withdrawn }
}

/// A table after installing routes under their own keys.
pub open spec fn install_all(m: Map<RouteKey, Route>, routes: Seq<Route>) -> Map<RouteKey, Route>
    decreases routes.len(),
{
    if routes.len() == 0 {
        m
    } else {
        install_all(m, routes.drop_last()).insert(routes.last().key, routes.last())
    }
}

/// A table after withdrawing keys.
pub open spec fn withdraw_all(m: Map<RouteKey, Route>, keys: Seq<RouteKey>) -> Map<RouteKey, Route>
    decreases keys.len(),
{
    if keys.len() == 0 {
        m
    } else {
        withdraw_all(m, keys.drop_last()).remove(keys.last())
    }
}

proof fn lemma_installed(
    current: Seq<(RouteKey, Route)>,
    published: Map<RouteKey, Route>,
    k: RouteKey,
)
    requires
        ordered(current),
        forall|i: int| 0 <= i < current.len() ==> (#[trigger] current[i]).1.key == current[i].0,
    ensures
        lookup(install_all(published, changed_routes(current, published)), k) == (if map_of(
            current,
        ).contains_key(k) {
            Some(map_of(current)[k])
        } else {
            lookup(published, k)
        }),
    decreases current.len(),
{
    if current.len() == 0 {
        assert(!map_of(current).contains_key(k));
    } else {
        let front = current.drop_last();
        let (key, route) = current.last();
        assert forall|i: int| 0 <= i < front.len() implies (#[trigger] front[i]).1.key
            == front[i].0 by {
            assert(front[i] == current[i]);
        }
        lemma_installed(front, published, k);
        let rest = changed_routes(front, published);
        assert(rest.push(route).drop_last() == rest);
        lemma_entry(current, current.len() - 1);
        if k == key {
            if map_of(front).contains_key(k) {
                let i = lemma_key_position(front, k);
                assert(front[i] == current[i]);
                assert(current[i].0.code() < current[current.len() - 1].0.code());
            }
        } else {
            if map_of(front).contains_key(k) {
                let i = lemma_key_position(front, k);
                assert(front[i] == current[i]);
                lemma_entry(current, i);
                lemma_entry(front, i);
            } else if map_of(current).contains_key(k) {
                let i = lemma_key_position(current, k);
                assert(front[i] == current[i]);
            }
        }
    }
}

proof fn lemma_withdrawn(
    m: Map<RouteKey, Route>,
    published: Seq<(RouteKey, Route)>,
    current: Map<RouteKey, Route>,
    k: RouteKey,
)
    ensures
        lookup(withdraw_all(m, gone_keys(published, current)), k) == (if map_of(
            published,
        ).contains_key(k) && !current.contains_key(k) {
            None
        } else {
            lookup(m, k)
        }),
    decreases published.len(),
{
    if published.len() == 0 {
        assert(!map_of(published).contains_key(k));
    } else {
        let front = published.drop_last();
        let key = published.last().0;
        lemma_withdrawn(m, front, current, k);
        let rest = gone_keys(front, current);
        assert(rest.push(key).drop_last() == rest);
        assert(published[published.len() - 1].0 == key);
        if map_of(front).contains_key(k) {
            let i = lemma_key_position(front, k);
            assert(published[i] == front[i]);
        } else if map_of(published).contains_key(k) && k != key {
            let i = lemma_key_position(published, k);
            assert(published[i] == front[i]);
        }
    }
}

/// Applying a difference to the published table yields the current one:
/// nothing is missing from it and nothing is left behind.
pub proof fn delta_reaches_current(
    published: Seq<(RouteKey, Route)>,
    current: Seq<(RouteKey, Route)>,
)
    requires
        ordered(published),
        ordered(current),
        forall|i: int| 0 <= i < current.len() ==> (#[trigger] current[i]).1.key == current[i].0,
    ensures
        withdraw_all(
            install_all(map_of(published), changed_routes(current, map_of(published))),
            gone_keys(published, map_of(current)),
        ) == map_of(current),
{
    let mid = install_all(map_of(published), changed_routes(current, map_of(published)));
    let after = withdraw_all(mid, gone_keys(published, map_of(current)));
    assert forall|k: RouteKey| lookup(after, k) == lookup(map_of(current), k) by {
        lemma_installed(current, map_of(published), k);
        lemma_withdrawn(mid, published, map_of(current), k);
    }
    assert forall|k: RouteKey| after.contains_key(k) == map_of(current).contains_key(k) by {
        assert(lookup(after, k) == lookup(map_of(current), k));
    }
    assert forall|k: RouteKey| #[trigger] after.contains_key(k) implies after[k] == map_of(
        current,
    )[k] by {
        assert(lookup(after, k) == lookup(map_of(current), k));
    }
    assert(after =~= map_of(current));
}

/// Publishing an unchanged table changes nothing.
pub proof fn unchanged_table_has_no_delta(table: Seq<(RouteKey, Route)>)
    requires
        ordered(table),
    ensures
        changed_routes(table, map_of(table)) == Seq::<Route>::empty(),
        gone_keys(table, map_of(table)) == Seq::<RouteKey>::empty(),
{
    lemma_no_delta(table, table.len() as int);
    assert(table.take(table.len() as int) == table);
}

proof fn lemma_no_delta(table: Seq<(RouteKey, Route)>, n: int)
    requires
        ordered(table),
        0 <= n <= table.len(),
    ensures
        changed_routes(table.take(n), map_of(table)) == Seq::<Route>::empty(),
        gone_keys(table.take(n), map_of(table)) == Seq::<RouteKey>::empty(),
    decreases n,
{
    if n > 0 {
        lemma_no_delta(table, n - 1);
        assert(table.take(n).drop_last() == table.take(n - 1));
        lemma_entry(table, n - 1);
    }
}

} // verus!
