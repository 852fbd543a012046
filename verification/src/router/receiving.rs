//! What becomes of received routes, and which paths are in force.

use crate::addr::{IpAddr, NlriFamily, Prefix};
use crate::events::{LogEntry, MaxPrefixAction, RouterEvent, Violation};
use crate::list::List;
use crate::ordmap::{is_table, lookup, sorted};
use crate::ordmap::{lemma_entry, lemma_key_position};
use crate::route::{AsSegment, Protocol, RecordKind, RecordStore, Route, RouteKey, RouteOrigin};
use crate::router::import::{
    after_check_limit, after_drop_records, after_hooks, after_import, after_limit, after_purge,
    after_records, after_remove_path, after_safety, after_screen, after_warning, after_withdraw,
    asn_count, denies_import, first_as, forget, path_count, records_of, retains, unless_asked,
};
use crate::router::paths::ToKey;
use crate::router::selection::{
    after_apply, after_monitor, after_peer_down, after_peer_up, after_ranked, after_reselect,
    candidates, monitored, named, peer_header, ranking, rule_for,
};
use crate::router::telling::lemma_few;
use crate::router::{PathKey, RouterState};
use crate::select::{accepted_value, values_where};
use crate::seqs::{gather, gather_includes, gather_source};
use crate::session::{BgpSession, Session};
use crate::task::{BmpMessage, PeerEvent, PeerHeader, Task};
use vstd::prelude::*;

verus! {

/// What a session sends is discarded exactly where external sessions need a
/// policy, it is external, and no import policy was declared for it.
pub proof fn import_needs_a_policy(st: RouterState, session: u64, b: BgpSession)
    requires
        st.sessions.contains_key(session),
        st.sessions[session] == Session::Bgp(b),
    ensures
        denies_import(st, session) <==> {
            &&& st.settings.ebgp_requires_policy
            &&& b.config.external
            &&& !(st.policy.contains_key(session) && st.policy[session].has_import)
        },
{
}

/// A received route goes on to the safety net where there is one, else to the
/// screening, unless its session is denied import. Where the session retains
/// what it receives, the route is kept as received in either case, and counts
/// as not screened yet.
pub proof fn received_routes_go_on(st: RouterState, route: Route)
    ensures
        ({
            let next = after_import(st, route);
            let path = (route.origin, (route.key, route.path_id));
            &&& !denies_import(st, route.origin.peer) ==> next.agenda == st.agenda.push(
                if st.settings.safety {
                    Task::CheckSafety { route }
                } else {
                    Task::Screen { route }
                },
            )
            &&& denies_import(st, route.origin.peer) ==> next.agenda == st.agenda
            &&& next.adj_in == st.adj_in
            &&& match lookup(st.sessions, route.origin.peer) {
                Some(Session::Bgp(b)) if b.config.soft_reconfig_inbound => {
                    &&& next.pre_policy == st.pre_policy.insert(path, route)
                    &&& next.screened == st.screened.remove(path)
                },
                _ => next.pre_policy == st.pre_policy && next.screened == st.screened,
            }
        }),
{
    let t = if st.settings.safety {
        Task::CheckSafety { route }
    } else {
        Task::Screen { route }
    };
    lemma_few(st, t, t, t, t);
}

/// How often an AS number occurs in a sequence.
pub proof fn as_numbers_are_counted(s: Seq<u32>, asn: u32)
    ensures
        asn_count(s, asn) == s.to_multiset().count(asn),
    decreases s.len(),
{
    broadcast use vstd::seq_lib::group_to_multiset_ensures;

    if s.len() == 0 {
        assert(s =~= Seq::<u32>::empty());
        assert(s.to_multiset().len() == 0);
        assert(s.to_multiset().count(asn) == 0);
    } else {
        let rest = s.drop_first();
        as_numbers_are_counted(rest, asn);
        assert(rest =~= s.remove(0));
        assert(s.remove(0).to_multiset() =~= s.to_multiset().remove(s[0]));
        assert(s.contains(s[0]));
        assert(s.to_multiset().count(s[0]) > 0);
    }
}

/// An AS number counts in every segment of a path, whatever its kind.
pub proof fn every_segment_counts(first: AsSegment, rest: Seq<AsSegment>, asn: u32)
    ensures
        path_count(seq![first] + rest, asn) == first.asns.seq().to_multiset().count(asn)
            + path_count(rest, asn),
        path_count(Seq::empty(), asn) == 0,
{
    as_numbers_are_counted(first.asns.seq(), asn);
    assert((seq![first] + rest).drop_first() =~= rest);
}

/// The first AS of a path stands at the head of its leftmost ordered segment
/// that is not empty; a set on the left hides it.
pub proof fn first_as_stands_at_the_head(first: AsSegment, rest: Seq<AsSegment>)
    ensures
        ({
            let path = seq![first] + rest;
            let orderly = first.kind == 2 || first.kind == 3;
            &&& orderly && first.asns.seq().len() > 0 ==> first_as(path) == Some(
                first.asns.seq()[0],
            )
            &&& orderly && first.asns.seq().len() == 0 ==> first_as(path) == first_as(rest)
            &&& !orderly ==> first_as(path) is None
            &&& first_as(Seq::empty()) is None
        }),
{
    assert((seq![first] + rest).drop_first() =~= rest);
}

/// A route that the safety net passes is screened next. One it refuses is
/// not, with one exception: a loop through the local AS is tolerated from an
/// external peer as often as its session allows.
pub proof fn violations_stop_a_route(st: RouterState, route: Route, v: Violation)
    ensures
        after_safety(st, route, None).agenda == st.agenda.push(Task::Screen { route }),
        ({
            let next = after_safety(st, route, Some(v));
            let tolerated = v is AsLoop && route.protocol is Bgp && route.origin.proto == 0
                && match (lookup(st.sessions, route.origin.peer), route.attributes.as_path) {
                (Some(Session::Bgp(b)), Some(path)) => b.config.local_as_tolerance > 0
                    && path_count(path.seq(), b.config.local_as) <= b.config.local_as_tolerance,
                (Some(Session::Bgp(b)), None) => b.config.local_as_tolerance > 0,
                _ => false,
            };
            &&& tolerated ==> next.agenda == st.agenda.push(Task::Screen { route })
                && next.events == st.events
            &&& (match (lookup(st.sessions, route.origin.peer), route.attributes.as_path) {
                (Some(Session::Bgp(b)), Some(path)) => path_count(
                    path.seq(),
                    b.config.local_as,
                ) <= u32::MAX,
                _ => true,
            }) && !tolerated ==> next.agenda == st.agenda && next.events.len() == st.events.len()
                + 1
        }),
{
    let t = Task::Screen { route };
    lemma_few(st, t, t, t, t);
}

/// A route of an external peer whose path does not begin with the peer's AS
/// stops here where that is enforced; any other goes to the import hooks, with
/// the time of its arrival.
pub proof fn first_as_is_enforced(st: RouterState, route: Route)
    ensures
        ({
            let next = after_screen(st, route);
            let forged = st.settings.enforce_first_as && route.protocol is Bgp
                && route.origin.proto == 0 && match (
                lookup(st.sessions, route.origin.peer),
                route.attributes.as_path,
            ) {
                (Some(Session::Bgp(b)), Some(path)) => first_as(path.seq()) is Some && first_as(
                    path.seq(),
                )->0 != b.config.peer_as,
                _ => false,
            };
            &&& forged ==> next.agenda == st.agenda && next.screened == st.screened
            &&& !forged ==> next.agenda == st.agenda.push(
                Task::RunImport { route: Route { age_ms: st.now_ms, ..route }, reconfig: false },
            ) && next.events == st.events
        }),
{
    let t = Task::RunImport { route: Route { age_ms: st.now_ms, ..route }, reconfig: false };
    lemma_few(st, t, t, t, t);
}

/// A route that the hooks pass is in the Adj-RIB-In as they left it; its
/// destination is selected anew, then the session's limit looked at, then the
/// records of the route noted. A path that is new counts toward the limit. A
/// route that the hooks refuse changes nothing.
pub proof fn passed_routes_are_admitted(st: RouterState, raw: Route, route: Route)
    ensures
        ({
            let next = after_hooks(st, raw, Some(route), false);
            let session = route.origin.peer;
            let path = (route.origin, (route.key, route.path_id));
            let counted = if st.limits.contains_key(session) {
                st.limits[session].count as int
            } else {
                0
            };
            &&& next.adj_in == st.adj_in.insert(path, route)
            &&& next.agenda == st.agenda.push(
                Task::NoteRecords { session, key: route.key, store: raw.attributes.records },
            ).push(Task::CheckLimit { session }).push(Task::Reselect { key: route.key })
            &&& !st.adj_in.contains_key(path) && counted < u32::MAX ==> next.limits.contains_key(
                session,
            ) && next.limits[session].count == counted + 1
            &&& st.windows.contains_key(session) ==> next.refreshed.contains_key(
                (session, (route.key, route.path_id)),
            )
            &&& after_hooks(st, raw, None, false) == st
            &&& after_hooks(st, raw, None, true) == st
        }),
{
    let session = route.origin.peer;
    let a = Task::Reselect { key: route.key };
    let b = Task::CheckLimit { session };
    let c = Task::NoteRecords { session, key: route.key, store: raw.attributes.records };
    lemma_few(st, a, b, c, a);
}

/// A re-evaluated route that the hooks pass is admitted as they left it, and
/// its destination remembered for the selection that follows.
pub proof fn reevaluated_routes_are_admitted(st: RouterState, raw: Route, route: Route)
    ensures
        ({
            let next = after_hooks(st, raw, Some(route), true);
            &&& next.adj_in == st.adj_in.insert((route.origin, (route.key, route.path_id)), route)
            &&& next.touched == st.touched.insert(route.key, ())
            &&& next.agenda == st.agenda
            &&& next.limits == st.limits
        }),
{
}

/// The early warning comes, once, when the contribution has reached its share
/// of the limit and is still below the limit.
pub proof fn warnings_come_at_their_share(st: RouterState, session: u64, limit: u32, pct: u8)
    requires
        st.limits.contains_key(session),
        0 < pct <= 100,
    ensures
        ({
            let l = st.limits[session];
            let next = after_warning(st, session, limit, pct);
            &&& !l.warned && 0 < l.count < limit && l.count * 100 >= limit * pct ==> {
                &&& next.events == st.events.push(
                    RouterEvent::MaxPrefixThreshold { session, count: l.count, limit, pct },
                )
                &&& next.limits[session].warned
                &&& next.limits[session].count == l.count
                &&& next.limits[session].exceeded == l.exceeded
            }
            &&& l.warned || l.count >= limit || l.count * 100 <= limit * pct - 100 ==> next == st
        }),
{
    let l = st.limits[session];
    let share = limit as int * pct as int / 100;
    assert(limit as int * pct as int <= limit as int * 100) by (nonlinear_arith)
        requires
            0 <= limit as int,
            pct as int <= 100,
    ;
    assert(0 <= limit as int * pct as int) by (nonlinear_arith)
        requires
            0 <= limit as int,
            0 <= pct as int,
    ;
    assert(0 <= share < 0x1_0000_0000);
}

/// A limit takes effect as soon as, and only when, the contribution is above
/// it: that is reported, and anything but a warning closes the session.
pub proof fn limits_take_effect_above(
    st: RouterState,
    session: u64,
    limit: u32,
    action: MaxPrefixAction,
)
    requires
        st.limits.contains_key(session),
    ensures
        ({
            let l = st.limits[session];
            let next = after_limit(st, session, limit, action);
            &&& l.count > limit && !l.exceeded ==> {
                &&& next.limits[session].exceeded
                &&& next.limits[session].count == l.count
                &&& next.events == st.events.push(
                    RouterEvent::MaxPrefixExceeded { session, count: l.count, limit, action },
                ).push(
                    RouterEvent::Log(
                        LogEntry::PrefixLimit { session, count: l.count, limit, action },
                    ),
                )
                &&& action is Warn ==> next.agenda == st.agenda
                &&& !(action is Warn) ==> next.agenda.len() >= 2 && next.agenda.last() == (
                Task::Notify { session, subcode: 1 }) && next.agenda[next.agenda.len() - 2] == (
                Task::StepPeer { session, event: PeerEvent::Stop })
            }
            &&& l.count <= limit ==> next == st
        }),
{
    let a = Task::Notify { session, subcode: 1 };
    let b = Task::StepPeer { session, event: PeerEvent::Stop };
    let rest = RouterState { agenda: gather(st.agenda, unless_asked(session)), ..st };
    lemma_few(rest, a, b, a, a);
    let next = after_limit(st, session, limit, action);
    let l = st.limits[session];
    if l.count > limit && !l.exceeded && !(action is Warn) {
        assert(next.agenda =~= rest.schedule(seq![a, b]).agenda);
    }
}

/// Sessions without a configured limit may contribute what they like.
pub proof fn no_limit_no_consequences(st: RouterState, session: u64, b: BgpSession)
    requires
        st.sessions.contains_key(session),
        st.sessions[session] == Session::Bgp(b),
        b.config.maximum_prefix is None,
    ensures
        after_check_limit(st, session) == st,
{
}

/// Forgetting a prefix leaves the records of all others as they were.
pub proof fn forgetting_spares_other_prefixes(
    l: List<(Prefix, RecordStore)>,
    prefix: Prefix,
    e: (Prefix, RecordStore),
)
    ensures
        forget(l, prefix).seq().contains(e) <==> l.seq().contains(e) && e.0 != prefix,
    decreases l,
{
    match l {
        List::Nil => {},
        List::Cons(x, rest) => {
            forgetting_spares_other_prefixes(*rest, prefix, e);
            let s = l.seq();
            let t = rest.seq();
            assert(s[0] == x);
            assert(s.drop_first() =~= t);
            if t.contains(e) {
                let j = choose|j: int| 0 <= j < t.len() && t[j] == e;
                assert(s[j + 1] == e);
            }
            if s.contains(e) && e != x {
                let j = choose|j: int| 0 <= j < s.len() && s[j] == e;
                assert(t[j - 1] == e);
            }
            let f = forget(l, prefix).seq();
            let g = forget(*rest, prefix).seq();
            if x.0 != prefix {
                assert(f == seq![x] + g);
                assert(f[0] == x);
                if g.contains(e) {
                    let j = choose|j: int| 0 <= j < g.len() && g[j] == e;
                    assert(f[j + 1] == e);
                }
                if f.contains(e) && e != x {
                    let j = choose|j: int| 0 <= j < f.len() && f[j] == e;
                    assert(g[j - 1] == e);
                }
            }
        },
    }
}

/// A verified record set is the session's most recent, and the only one of
/// its prefix; raw material is only counted, and other stores are ignored.
pub proof fn verified_records_come_first(
    st: RouterState,
    session: u64,
    key: RouteKey,
    s: RecordStore,
)
    ensures
        ({
            let next = after_records(st, session, key, Some(s));
            match s.kind {
                RecordKind::Verified { records } => {
                    &&& next.records.contains_key(session)
                    &&& match next.records[session] {
                        List::Cons(first, rest) => first == (key.prefix, s) && *rest == forget(
                            records_of(st.records, session),
                            key.prefix,
                        ),
                        List::Nil => false,
                    }
                    &&& next.events == st.events.push(
                        RouterEvent::Log(LogEntry::Records { session, prefix: key.prefix, records }),
                    )
                },
                RecordKind::PartialRaw => {
                    &&& next.records == st.records
                    &&& next.partial_transit.contains_key(session)
                    &&& !st.partial_transit.contains_key(session) ==> next.partial_transit[session]
                        == 1
                    &&& st.partial_transit.contains_key(session)
                        && st.partial_transit[session] < u64::MAX
                        ==> next.partial_transit[session] == st.partial_transit[session] + 1
                },
                RecordKind::Other => next == st,
            }
        }),
        after_records(st, session, key, None) == st,
        st.records.contains_key(session) ==> after_drop_records(
            st,
            session,
            key.prefix,
        ).records[session] == forget(st.records[session], key.prefix),
{
}

/// A withdrawal is told to the import hooks, then carried out: the path
/// leaves the tables, the session's count falls by one and the destination is
/// selected anew if the path was admitted.
pub proof fn withdrawals_are_carried_out(
    st: RouterState,
    origin: RouteOrigin,
    key: RouteKey,
    path_id: u32,
    p: PathKey,
)
    ensures
        ({
            let path = (origin, (key, path_id));
            let next = after_remove_path(st, origin, key, path_id);
            &&& after_withdraw(st, origin, key, path_id).agenda == st.agenda.push(
                Task::RemovePath { origin, key, path_id },
            ).push(Task::TellWithdrawn { key, secs: (st.now_ms / 1000) as u64 })
            &&& !next.adj_in.contains_key(path)
            &&& !next.pre_policy.contains_key(path)
            &&& !next.screened.contains_key(path)
            &&& p != path ==> lookup(next.adj_in, p) == lookup(st.adj_in, p) && lookup(
                next.pre_policy,
                p,
            ) == lookup(st.pre_policy, p) && lookup(next.screened, p) == lookup(st.screened, p)
            &&& st.adj_in.contains_key(path) ==> next.agenda == st.agenda.push(
                Task::DropRecords { session: origin.peer, prefix: key.prefix },
            ).push(Task::Reselect { key })
            &&& !st.adj_in.contains_key(path) ==> next.agenda == st.agenda.push(
                Task::DropRecords { session: origin.peer, prefix: key.prefix },
            ) && next.limits == st.limits
            &&& st.adj_in.contains_key(path) && st.limits.contains_key(origin.peer)
                && st.limits[origin.peer].count > 0 ==> next.limits[origin.peer].count
                == st.limits[origin.peer].count - 1
        }),
{
    let a = Task::TellWithdrawn { key, secs: (st.now_ms / 1000) as u64 };
    let b = Task::RemovePath { origin, key, path_id };
    let c = Task::Reselect { key };
    let d = Task::DropRecords { session: origin.peer, prefix: key.prefix };
    lemma_few(st, a, b, c, d);
    lemma_few(st, c, d, c, d);
    lemma_few(st, d, d, c, d);
}

/// A purged path leaves, its session's count falls by one, and its destination
/// is selected anew.
pub proof fn purged_paths_leave(st: RouterState, origin: RouteOrigin, key: RouteKey, path_id: u32)
    ensures
        ({
            let next = after_purge(st, origin, key, path_id);
            &&& next.adj_in == st.adj_in.remove((origin, (key, path_id)))
            &&& next.agenda == st.agenda.push(Task::Reselect { key })
            &&& st.limits.contains_key(origin.peer) && st.limits[origin.peer].count > 0
                ==> next.limits[origin.peer].count == st.limits[origin.peer].count - 1
        }),
{
    let a = Task::Reselect { key };
    lemma_few(st, a, a, a, a);
}

/// Exactly the admitted paths of all peers to a destination compete for it,
/// together with the originated, the direct and the static route.
pub proof fn every_contribution_competes(st: RouterState, key: RouteKey, r: Route)
    requires
        is_table(st.adj_in),
    ensures
        candidates(st, key).contains(r) <==> {
            ||| exists|p: PathKey| #[trigger]
                st.adj_in.contains_key(p) && p.1.0 == key && st.adj_in[p] == r
            ||| st.originated.contains_key(key) && st.originated[key] == r
            ||| st.direct.contains_key(key) && st.direct[key] == r
            ||| st.statics.contains_key(key) && st.statics[key] == r
        },
{
    let s = sorted(st.adj_in);
    let f = accepted_value::<PathKey, Route, ToKey>(ToKey(key));
    let a = values_where(st.adj_in, ToKey(key));
    let b = crate::router::selection::held(st.originated, key);
    let c = crate::router::selection::held(st.direct, key);
    let d = crate::router::selection::held(st.statics, key);
    let all = candidates(st, key);
    if exists|p: PathKey| #[trigger]
        st.adj_in.contains_key(p) && p.1.0 == key && st.adj_in[p] == r {
        let p = choose|p: PathKey| #[trigger]
            st.adj_in.contains_key(p) && p.1.0 == key && st.adj_in[p] == r;
        let i = lemma_key_position(s, p);
        assert(f(s[i])[0] == r);
        assert(f(s[i]).contains(r));
        gather_includes(s, f, i, r);
        let j = choose|j: int| 0 <= j < a.len() && a[j] == r;
        assert(all[j] == r);
    }
    if st.originated.contains_key(key) && st.originated[key] == r {
        assert(b[0] == r);
        assert(all[a.len() as int] == r);
    }
    if st.direct.contains_key(key) && st.direct[key] == r {
        assert(c[0] == r);
        assert(all[(a.len() + b.len()) as int] == r);
    }
    if st.statics.contains_key(key) && st.statics[key] == r {
        assert(d[0] == r);
        assert(all[(a.len() + b.len() + c.len()) as int] == r);
    }
    if all.contains(r) {
        let j = choose|j: int| 0 <= j < all.len() && all[j] == r;
        if j < a.len() {
            assert(a[j] == r);
            let i = gather_source(s, f, r);
            lemma_entry(s, i);
            assert(st.adj_in.contains_key(s[i].0));
        } else if j < a.len() + b.len() {
            assert(b[j - a.len()] == r);
        } else if j < a.len() + b.len() + c.len() {
            assert(c[j - a.len() - b.len()] == r);
        } else {
            assert(d[j - a.len() - b.len() - c.len()] == r);
        }
    }
}

/// Paths of BGP alone are ranked by its own decision process, a mixture by
/// the preference between protocols.
pub proof fn mixtures_are_ranked_across_protocols(s: Seq<Route>)
    ensures
        (exists|i: int| 0 <= i < s.len() && !((#[trigger] s[i]).protocol is Bgp)) ==> rule_for(s)
            is AcrossProtocols,
        (forall|i: int| 0 <= i < s.len() ==> (#[trigger] s[i]).protocol is Bgp) ==> rule_for(s)
            is BestPath,
{
    if exists|i: int| 0 <= i < s.len() && !((#[trigger] s[i]).protocol is Bgp) {
        let i = choose|i: int| 0 <= i < s.len() && !((#[trigger] s[i]).protocol is Bgp);
        assert(s[i].protocol != Protocol::Bgp);
    }
}

proof fn lemma_named(s: Seq<Route>, picks: Seq<usize>)
    requires
        forall|i: int| 0 <= i < picks.len() ==> (#[trigger] picks[i]) < s.len(),
    ensures
        gather(picks, named(s)).len() == picks.len(),
        forall|i: int|
            0 <= i < picks.len() ==> #[trigger] gather(picks, named(s))[i] == s[picks[i] as int],
    decreases picks.len(),
{
    if picks.len() > 0 {
        let front = picks.drop_last();
        assert forall|i: int| 0 <= i < front.len() implies (#[trigger] front[i]) < s.len() by {
            assert(front[i] == picks[i]);
        }
        lemma_named(s, front);
        assert(picks[picks.len() - 1] == picks.last());
        let all = gather(picks, named(s));
        assert(all == gather(front, named(s)).push(s[picks.last() as int]));
        assert forall|i: int| 0 <= i < picks.len() implies #[trigger] all[i] == s[picks[i] as int] by {
            if i < front.len() {
                assert(all[i] == gather(front, named(s))[i]);
                assert(front[i] == picks[i]);
            }
        }
    }
}

/// A ranking comes into force in the order in which it is given: so many of
/// the best as are kept, or the single best where protocols mix.
pub proof fn rankings_keep_their_order(s: Seq<Route>, picks: Seq<usize>, max_paths: usize, i: int)
    requires
        forall|j: int| 0 <= j < picks.len() ==> (#[trigger] picks[j]) < s.len(),
    ensures
        ({
            let kept = ranking(s, picks, max_paths);
            let mixed = exists|j: int| 0 <= j < s.len() && !((#[trigger] s[j]).protocol is Bgp);
            &&& 0 <= i < kept.len() ==> kept[i] == s[picks[i] as int]
            &&& mixed && picks.len() > 0 ==> kept.len() == 1
            &&& !mixed && picks.len() <= max_paths ==> kept.len() == picks.len()
            &&& !mixed && picks.len() > max_paths ==> kept.len() == max_paths
        }),
{
    lemma_named(s, picks);
    if exists|j: int| 0 <= j < s.len() && !((#[trigger] s[j]).protocol is Bgp) {
        let j = choose|j: int| 0 <= j < s.len() && !((#[trigger] s[j]).protocol is Bgp);
        assert(s[j].protocol != Protocol::Bgp);
        assert(!crate::router::selection::all_bgp(s));
    } else {
        assert forall|j: int| 0 <= j < s.len() implies (#[trigger] s[j]).protocol
            == Protocol::Bgp by {
            assert(s[j].protocol is Bgp);
        }
        assert(crate::router::selection::all_bgp(s));
    }
}

/// A destination is selected anew among its candidates; without any, it has
/// no path.
pub proof fn selections_ask_for_a_ranking(st: RouterState, key: RouteKey, picks: Seq<usize>)
    ensures
        ({
            let s = candidates(st, key);
            let next = after_reselect(st, key).agenda;
            &&& next.len() == st.agenda.len() + 1
            &&& next.drop_last() == st.agenda
            &&& s.len() == 0 ==> next.last() == (Task::Apply { key, ranked: List::Nil })
            &&& s.len() > 0 ==> match next.last() {
                Task::Rank { key: k, candidates: c, rule } => k == key && c.seq() == s && rule
                    == rule_for(s),
                _ => false,
            }
            &&& match after_ranked(st, key, s, picks).agenda.last() {
                Task::Apply { key: k, ranked } => k == key && ranked.seq() == ranking(
                    s,
                    picks,
                    st.settings.max_paths,
                ),
                _ => false,
            }
        }),
{
    let s = candidates(st, key);
    List::<Route>::seq_of(s);
    List::<Route>::seq_of(ranking(s, picks, st.settings.max_paths));
    let next = after_reselect(st, key).agenda;
    assert(next.drop_last() =~= st.agenda);
}

/// A ranking comes into force: the table holds it, a new best path is
/// reported, redistributed and mirrored, and peers are told in any case. An
/// empty one takes the destination out of the table, which is reported, and
/// withdraws it and its redistributed copy. The aggregates are reconsidered
/// each time; other destinations stay as they are.
pub proof fn rankings_come_into_force(
    st: RouterState,
    key: RouteKey,
    best: Route,
    rest: List<Route>,
    other: RouteKey,
)
    ensures
        ({
            let ranked = List::Cons(best, Box::new(rest));
            let next = after_apply(st, key, ranked);
            let same = match lookup(st.loc, key) {
                Some(List::Cons(b, _)) => b == best,
                _ => false,
            };
            &&& lookup(next.loc, key) == Some(ranked)
            &&& other != key ==> lookup(next.loc, other) == lookup(st.loc, other)
            &&& same ==> next.events == st.events && next.agenda == st.agenda.push(
                Task::Aggregates,
            ).push(Task::Export { key, ranked })
            &&& !same ==> next.events == st.events.push(RouterEvent::RouteInstalled(best))
                && next.agenda == st.agenda.push(Task::Aggregates).push(
                Task::Export { key, ranked },
            ).push(Task::Monitor { route: best }).push(Task::Redistribute { route: best })
        }),
        ({
            let next = after_apply(st, key, List::Nil);
            &&& !next.loc.contains_key(key)
            &&& other != key ==> lookup(next.loc, other) == lookup(st.loc, other)
            &&& next.events == st.events.push(RouterEvent::RouteWithdrawn(key))
            &&& next.agenda == st.agenda.push(Task::Aggregates).push(
                Task::Unredistribute { key },
            ).push(Task::PropagateWithdrawal { key })
        }),
{
    let ranked = List::Cons(best, Box::new(rest));
    let e = Task::Export { key, ranked };
    let g = Task::Aggregates;
    lemma_few(st, Task::Redistribute { route: best }, Task::Monitor { route: best }, e, g);
    lemma_few(st, e, g, e, g);
    lemma_few(st, Task::PropagateWithdrawal { key }, Task::Unredistribute { key }, g, g);
}

/// Monitoring messages about a session carry the identifier and AS from its
/// OPEN and the time in seconds; before the OPEN there are none.
pub proof fn monitoring_names_the_peer(st: RouterState, session: u64)
    ensures
        match (lookup(st.sessions, session), peer_header(st, session)) {
            (Some(Session::Bgp(b)), Some(h)) => {
                &&& b.status.peer_bgp_id == Some(h.peer_bgp_id)
                &&& b.status.peer_as == Some(h.peer_as)
                &&& h.peer_address == h.peer_bgp_id as u128
                &&& h.timestamp_secs as int == (st.now_ms as int / 1000) % 0x1_0000_0000
            },
            (Some(Session::Bgp(b)), None) => b.status.peer_bgp_id is None
                || b.status.peer_as is None,
            (_, Some(_)) => false,
            _ => true,
        },
{
}

/// Where monitoring is on, a session's coming and going and every new best
/// path of a peer are mirrored, a path with its own attributes, in the legacy
/// form only for IPv4 unicast; where it is off, nothing is.
pub proof fn changes_are_mirrored(
    st: RouterState,
    session: u64,
    route: Route,
    parting: PeerHeader,
)
    ensures
        !st.settings.bmp ==> after_peer_up(st, session) == st && after_peer_down(
            st,
            Some(parting),
        ) == st && after_monitor(st, route) == st,
        st.settings.bmp ==> {
            &&& match peer_header(st, session) {
                Some(header) => after_peer_up(st, session).agenda == st.agenda.push(
                    Task::Mirror(BmpMessage::PeerUp { header }),
                ),
                None => after_peer_up(st, session) == st,
            }
            &&& after_peer_down(st, Some(parting)).agenda == st.agenda.push(
                Task::Mirror(BmpMessage::PeerDown { header: parting }),
            )
            &&& match peer_header(st, route.origin.peer) {
                Some(header) => after_monitor(st, route).agenda == st.agenda.push(
                    Task::Mirror(BmpMessage::RouteMonitoring { header, update: monitored(route) }),
                ),
                None => after_monitor(st, route) == st,
            }
        },
        ({
            let u = monitored(route);
            &&& u.prefix == route.key.prefix
            &&& u.path_id == route.path_id
            &&& u.attributes == route.attributes
            &&& u.reach is None <==> route.key.family == (NlriFamily { afi: 1, safi: 1 })
            &&& match u.reach {
                Some((family, hop)) => family == route.key.family && (match route.next_hop {
                    Some(h) => hop == h,
                    None => hop == IpAddr::V6(0),
                }),
                None => true,
            }
        }),
{
    if let Some(header) = peer_header(st, session) {
        let t = Task::Mirror(BmpMessage::PeerUp { header });
        lemma_few(st, t, t, t, t);
    }
    let t = Task::Mirror(BmpMessage::PeerDown { header: parting });
    lemma_few(st, t, t, t, t);
    if let Some(header) = peer_header(st, route.origin.peer) {
        let t = Task::Mirror(BmpMessage::RouteMonitoring { header, update: monitored(route) });
        lemma_few(st, t, t, t, t);
    }
}

/// A session that is closed for its limit loses what it still asked for, and
/// nothing else leaves the agenda.
pub proof fn limits_spare_other_tasks(
    st: RouterState,
    session: u64,
    limit: u32,
    action: MaxPrefixAction,
    i: int,
)
    requires
        0 <= i < st.agenda.len(),
        match st.agenda[i] {
            Task::Act { session: s, .. } => s != session,
            Task::NoteRecords { session: s, .. } => s != session,
            _ => true,
        },
    ensures
        after_limit(st, session, limit, action).agenda.contains(st.agenda[i]),
{
    let t = st.agenda[i];
    let f = unless_asked(session);
    assert(f(t)[0] == t);
    assert(f(t).contains(t));
    gather_includes(st.agenda, f, i, t);
    let rest = gather(st.agenda, f);
    let j = choose|j: int| 0 <= j < rest.len() && rest[j] == t;
    let next = after_limit(st, session, limit, action).agenda;
    if next != st.agenda {
        assert(next[j] == t);
    } else {
        assert(next[i] == t);
    }
}

} // verus!
