//! The count of a session's contribution is exact.

use crate::ordmap::{
    is_table, lemma_entry, lemma_take_step, map_of, ordered, sorted, Key,
};
use crate::route::{Route, RouteKey, RouteOrigin};
use crate::router::import::{after_hooks, after_purge, after_remove_path, limit_of};
use crate::router::paths::OfBgpPeer;
use crate::router::restart::{
    after_cleanup, after_enter_llgr, dropped_key, stale_fate,
};
use crate::router::{PathKey, RouterState};
use crate::select::{accepted_key, keys_where, without, KeyTest};
use crate::seqs::{gather, gather_step, gather_whole, one_if};
use vstd::prelude::*;

verus! {

/// Paths of a session.
pub open spec fn of_session(session: u64) -> spec_fn(PathKey) -> bool {
    |k: PathKey| k.0.peer == session
}

/// How many paths a session contributes.
pub open spec fn contribution(adj_in: Map<PathKey, Route>, session: u64) -> nat {
    adj_in.dom().filter(of_session(session)).len()
}

/// Whether the count kept for a session is its contribution.
pub open spec fn count_is_exact(st: RouterState, session: u64) -> bool {
    &&& st.adj_in.dom().finite()
    &&& limit_of(st.limits, session).count == contribution(st.adj_in, session)
}

proof fn lemma_insert(m: Map<PathKey, Route>, k: PathKey, r: Route, session: u64)
    requires
        m.dom().finite(),
    ensures
        m.insert(k, r).dom().finite(),
        contribution(m.insert(k, r), session) == contribution(m, session) + (if k.0.peer == session
            && !m.contains_key(k) {
            1int
        } else {
            0int
        }),
{
    let f = of_session(session);
    let a = m.dom().filter(f);
    let b = m.insert(k, r).dom().filter(f);
    m.dom().lemma_len_filter(f);
    if k.0.peer == session {
        assert(b =~= a.insert(k));
    } else {
        assert(b =~= a);
    }
}

proof fn lemma_remove(m: Map<PathKey, Route>, k: PathKey, session: u64)
    requires
        m.dom().finite(),
        m.contains_key(k),
    ensures
        m.remove(k).dom().finite(),
        contribution(m.remove(k), session) == contribution(m, session) - (if k.0.peer == session {
            1int
        } else {
            0int
        }),
{
    let f = of_session(session);
    let a = m.dom().filter(f);
    let b = m.remove(k).dom().filter(f);
    m.dom().lemma_len_filter(f);
    if k.0.peer == session {
        assert(a.contains(k));
        assert(b =~= a.remove(k));
    } else {
        assert(b =~= a);
    }
}

/// Admitting a path keeps every session's count exact, up to the largest
/// count there is.
pub proof fn admission_keeps_counts(st: RouterState, raw: Route, route: Route, session: u64)
    requires
        count_is_exact(st, session),
        contribution(st.adj_in, session) < u32::MAX,
    ensures
        count_is_exact(after_hooks(st, raw, Some(route), false), session),
{
    lemma_insert(st.adj_in, (route.origin, (route.key, route.path_id)), route, session);
}

/// Withdrawing a path keeps every session's count exact.
pub proof fn withdrawal_keeps_counts(
    st: RouterState,
    origin: RouteOrigin,
    key: RouteKey,
    path_id: u32,
    session: u64,
)
    requires
        count_is_exact(st, session),
    ensures
        count_is_exact(after_remove_path(st, origin, key, path_id), session),
{
    let path = (origin, (key, path_id));
    if st.adj_in.contains_key(path) {
        lemma_remove(st.adj_in, path, session);
        lemma_counted(st.adj_in, path);
    }
}

proof fn lemma_counted(m: Map<PathKey, Route>, k: PathKey)
    requires
        m.dom().finite(),
        m.contains_key(k),
    ensures
        contribution(m, k.0.peer) > 0,
{
    let f = of_session(k.0.peer);
    let a = m.dom().filter(f);
    m.dom().lemma_len_filter(f);
    assert(a.contains(k));
    if a.len() == 0 {
        a.lemma_len0_is_empty();
    }
}

/// Purging a path keeps every session's count exact.
pub proof fn purge_keeps_counts(
    st: RouterState,
    origin: RouteOrigin,
    key: RouteKey,
    path_id: u32,
    session: u64,
)
    requires
        count_is_exact(st, session),
        st.adj_in.contains_key((origin, (key, path_id))),
    ensures
        count_is_exact(after_purge(st, origin, key, path_id), session),
{
    let path = (origin, (key, path_id));
    lemma_remove(st.adj_in, path, session);
    lemma_counted(st.adj_in, path);
}

/// Listing the keys of chosen entries lists each of them once.
proof fn lemma_listed<K: Key, V>(
    s: Seq<(K, V)>,
    f: spec_fn((K, V)) -> Seq<K>,
    p: spec_fn(K) -> bool,
    n: int,
)
    requires
        ordered(s),
        0 <= n <= s.len(),
        forall|i: int| 0 <= i < s.len() ==> #[trigger] f(s[i]) == one_if(p(s[i].0), s[i].0),
    ensures
        map_of(s.take(n)).dom().finite(),
        map_of(s.take(n)).dom().filter(p).finite(),
        gather(s.take(n), f).len() == map_of(s.take(n)).dom().filter(p).len(),
    decreases n,
{
    if n == 0 {
        let m = map_of(s.take(0));
        assert(m.dom() =~= Set::<K>::empty());
        assert(m.dom().filter(p) =~= Set::<K>::empty());
        gather_whole(s, f);
    } else {
        let i = n - 1;
        lemma_listed(s, f, p, i);
        lemma_take_step(s, i);
        gather_step(s, i, f);
        let a = map_of(s.take(i)).dom();
        let b = map_of(s.take(n)).dom();
        assert(b =~= a.insert(s[i].0));
        assert(f(s[i]) == one_if(p(s[i].0), s[i].0));
        if p(s[i].0) {
            assert(b.filter(p) =~= a.filter(p).insert(s[i].0));
        } else {
            assert(b.filter(p) =~= a.filter(p));
        }
    }
}

/// A session that is purged has the count of nothing, if all it contributed
/// was external or internal.
pub proof fn cleanup_keeps_counts(st: RouterState, session: u64)
    requires
        is_table(st.adj_in),
        count_is_exact(st, session),
        forall|k: PathKey| #[trigger]
            st.adj_in.contains_key(k) && k.0.peer == session ==> OfBgpPeer(session).accepts(k),
    ensures
        count_is_exact(after_cleanup(st, session), session),
        contribution(after_cleanup(st, session).adj_in, session) == 0,
{
    let t = OfBgpPeer(session);
    let s = sorted(st.adj_in);
    let f = accepted_key::<PathKey, Route, OfBgpPeer>(t);
    let p = |k: PathKey| t.accepts(k);
    assert forall|i: int| 0 <= i < s.len() implies #[trigger] f(s[i]) == one_if(
        p(s[i].0),
        s[i].0,
    ) by {}
    lemma_listed(s, f, p, s.len() as int);
    assert(s.take(s.len() as int) == s);
    let dom = st.adj_in.dom();
    assert(dom.filter(p) =~= dom.filter(of_session(session))) by {
        assert forall|k: PathKey| dom.filter(p).contains(k) == dom.filter(
            of_session(session),
        ).contains(k) by {
            if dom.contains(k) {
                assert(st.adj_in.contains_key(k));
            }
        }
    }
    let keys = keys_where(st.adj_in, t);
    assert(keys.len() == contribution(st.adj_in, session));
    let after = after_cleanup(st, session);
    if keys.len() > 0 {
        assert(after.adj_in == without(st.adj_in, t));
        assert(after.adj_in.dom() =~= dom.difference(dom.filter(p)));
        assert(after.adj_in.dom().filter(of_session(session)) =~= Set::<PathKey>::empty()) by {
            assert forall|k: PathKey| !after.adj_in.dom().filter(of_session(session)).contains(
                k,
            ) by {
                if st.adj_in.contains_key(k) {}
            }
        }
    }
}

/// The beginning of long-lived retention keeps the count exact.
pub proof fn staleness_keeps_counts(st: RouterState, session: u64)
    requires
        is_table(st.adj_in),
        count_is_exact(st, session),
    ensures
        count_is_exact(after_enter_llgr(st, session), session),
{
    let s = sorted(st.adj_in);
    let f = dropped_key(st.refreshed, st.deadlines, session);
    let p = |k: PathKey|
        stale_fate(st.refreshed, st.deadlines, session, k, st.adj_in[k]) is None;
    assert forall|i: int| 0 <= i < s.len() implies #[trigger] f(s[i]) == one_if(
        p(s[i].0),
        s[i].0,
    ) by {
        lemma_entry(s, i);
    }
    lemma_listed(s, f, p, s.len() as int);
    assert(s.take(s.len() as int) == s);
    let dom = st.adj_in.dom();
    let own = of_session(session);
    let after = after_enter_llgr(st, session).adj_in.dom();
    assert(after =~= dom.difference(dom.filter(p)));
    dom.lemma_len_filter(own);
    let mine = dom.filter(own);
    let gone = dom.filter(p);
    assert(gone.subset_of(mine));
    assert(after.filter(own) =~= mine.difference(gone));
    vstd::set_lib::lemma_len_subset(gone, mine);
    assert(mine =~= after.filter(own).union(gone));
    assert(after.filter(own).disjoint(gone));
    vstd::set_lib::lemma_set_disjoint_lens(after.filter(own), gone);
}

} // verus!
