//! The export pipeline: from a ranking to what each peer is sent.

use crate::addr::NlriFamily;
use crate::events::{BgpState, LogEntry, RouterEvent};
use crate::list::List;
use crate::ordmap::{is_table, lookup, sorted, OrdMap};
use crate::ordmap::{lemma_entry, lemma_key_position, lemma_table_insert, lemma_table_remove};
use crate::route::{Protocol, Route, RouteKey};
use crate::router::import::{denies_export, policy_of};
use crate::router::origination::{alone, copied_from, made_of};
use crate::router::paths::{peer_origin, OfSessionFamily, PathsIn, PathsTo};
use crate::router::restart::LLGR_STALE;
use crate::router::{DefaultRouter, PathKey, PendingUpdate, RouterState, SessionPolicy};
use crate::select::{drop_keys, excluding, remove_keys, without, KeyTest};
use crate::seqs::{
    gather, gather_first, gather_includes, gather_source, gather_step, gather_whole, one_if,
};
use crate::session::{bgp_of, is_up, sends_paths, Session};
use crate::task::{Occasion, Task};
use crate::value::Value;
use vstd::prelude::*;

verus! {

/// Advertisements to one destination that wait for their interval.
#[derive(Clone, Copy, Debug, PartialEq, Eq, Structural)]
pub struct ToDestination(pub RouteKey);

impl KeyTest<(u64, RouteKey)> for ToDestination {
    open spec fn accepts(&self, k: (u64, RouteKey)) -> bool {
        k.1 == self.0
    }

    fn test(&self, k: &(u64, RouteKey)) -> (b: bool) {
        k.1 == self.0
    }
}

/// Whether a route is long-lived stale.
pub open spec fn stale(route: Route) -> bool {
    route.attributes.communities.seq().contains(LLGR_STALE)
}

/// Whether a session is told stale routes: its peer retains them.
pub open spec fn takes_stale(s: Option<Session>) -> bool {
    match bgp_of(s) {
        Some(b) => b.status.long_lived,
        None => false,
    }
}

/// Whether a path may be told to a session at all: BGP paths that were not
/// learned from it, stale ones only if it takes them.
pub open spec fn exportable(route: Route, session: u64, stale_too: bool) -> bool {
    route.protocol == Protocol::Bgp && route.origin.peer != session && (stale_too || !stale(route))
}

/// The BGP route of this router's own that stands for a path that is no BGP
/// path: the one originated for the destination, else the copy that a pipe
/// made of the path.
pub open spec fn own_voice(st: RouterState, key: RouteKey, best: Route) -> Option<Route> {
    match (lookup(st.originated, key), lookup(st.redistributed, key)) {
        (Some(r), _) => Some(r),
        (None, Some(copy)) => if made_of(copy, best) {
            Some(copy)
        } else {
            None
        },
        (None, None) => None,
    }
}

/// The ranking that peers are told of. Where the best path is no BGP path, a
/// BGP route of this router's own may stand for it.
pub open spec fn voiced(st: RouterState, key: RouteKey, l: List<Route>) -> List<Route> {
    match l {
        List::Cons(best, _) => if best.protocol == Protocol::Bgp {
            l
        } else {
            match own_voice(st, key, best) {
                Some(own) => alone(own),
                None => l,
            }
        },
        List::Nil => l,
    }
}

/// The identifier under which the path at a rank is sent.
pub open spec fn slot_id(slot: int) -> u32 {
    ((slot + 1) % 0x1_0000_0000) as u32
}

/// All paths of a ranking for a session, identified by rank.
pub open spec fn ranked_offers(l: List<Route>, session: u64, stale_too: bool, slot: int) -> Seq<
    Route,
>
    decreases l,
{
    match l {
        List::Nil => Seq::empty(),
        List::Cons(r, rest) => one_if(
            exportable(r, session, stale_too),
            Route { path_id: slot_id(slot), ..r },
        ) + ranked_offers(*rest, session, stale_too, slot + 1),
    }
}

/// The best path of a ranking for a session, without identifier.
pub open spec fn plain_offer(l: List<Route>, session: u64, stale_too: bool) -> Seq<Route> {
    match l {
        List::Nil => Seq::empty(),
        List::Cons(r, _) => one_if(exportable(r, session, stale_too), Route { path_id: 0, ..r }),
    }
}

/// What a ranking offers a session before its filters.
pub open spec fn offers(st: RouterState, session: u64, key: RouteKey, l: List<Route>) -> Seq<
    Route,
> {
    let told = voiced(st, key, l);
    let stale_too = takes_stale(st.session(session));
    if denies_export(st, session) {
        Seq::empty()
    } else if sends_paths(st.session(session), key.family) {
        ranked_offers(told, session, stale_too, 0)
    } else {
        plain_offer(told, session, stale_too)
    }
}

/// The task that brings an established session in line with a ranking.
pub open spec fn export_task(key: RouteKey, ranked: List<Route>) -> spec_fn((u64, Session)) -> Seq<
    Task,
> {
    |e: (u64, Session)|
        one_if(is_up(Some(e.1)), Task::ExportTo { session: e.0, key, ranked })
}

/// Every established session is brought in line with a ranking.
pub open spec fn after_export(st: RouterState, key: RouteKey, ranked: List<Route>) -> RouterState {
    st.schedule(gather(sorted(st.sessions), export_task(key, ranked)))
}

/// One session is brought in line with a ranking.
pub open spec fn after_export_to(
    st: RouterState,
    session: u64,
    key: RouteKey,
    ranked: List<Route>,
) -> RouterState {
    if is_up(st.session(session)) {
        st.schedule(
            seq![
                Task::Filter {
                    session,
                    key,
                    todo: List::of(offers(st, session, key, ranked)),
                    kept: List::Nil,
                },
            ],
        )
    } else {
        st
    }
}

/// A filter decided on the first route: it is kept when the hooks pass it and
/// its communities allow it.
pub open spec fn after_filtered(
    st: RouterState,
    session: u64,
    key: RouteKey,
    todo: List<Route>,
    kept: List<Route>,
    route: Option<Route>,
    allowed: bool,
) -> RouterState {
    match todo {
        List::Nil => st,
        List::Cons(_, rest) => st.schedule(
            seq![
                Task::Filter {
                    session,
                    key,
                    todo: *rest,
                    kept: match route {
                        Some(r) => if allowed {
                            kept.appended(r)
                        } else {
                            kept
                        },
                        None => kept,
                    },
                },
            ],
        ),
    }
}

/// The first route with a path identifier.
pub open spec fn with_id(s: Seq<Route>, id: u32) -> Option<Route>
    decreases s.len(),
{
    if s.len() == 0 {
        None
    } else if s[0].path_id == id {
        Some(s[0])
    } else {
        with_id(s.drop_first(), id)
    }
}

/// The identifier of an advertised path that is no longer desired.
pub open spec fn undesired(session: u64, key: RouteKey, desired: Seq<Route>) -> spec_fn(
    (PathKey, Route),
) -> Seq<u32> {
    |e: (PathKey, Route)|
        one_if(
            PathsTo(peer_origin(session), key).accepts(e.0) && with_id(desired, e.0.1.1) is None,
            e.0.1.1,
        )
}

/// The desired path that replaces an advertised one, if it differs.
pub open spec fn replacement(session: u64, key: RouteKey, desired: Seq<Route>) -> spec_fn(
    (PathKey, Route),
) -> Seq<Route> {
    |e: (PathKey, Route)|
        match with_id(desired, e.0.1.1) {
            Some(new) => one_if(
                PathsTo(peer_origin(session), key).accepts(e.0) && new != e.1,
                new,
            ),
            None => Seq::empty(),
        }
}

/// A desired path that is not advertised in any form.
pub open spec fn addition(
    adj_out: Map<PathKey, Route>,
    session: u64,
    key: RouteKey,
) -> spec_fn(Route) -> Seq<Route> {
    |r: Route|
        one_if(!adj_out.contains_key((peer_origin(session), (key, r.path_id))), r)
}

/// The identifiers to withdraw from a session.
pub open spec fn to_retract(
    adj_out: Map<PathKey, Route>,
    session: u64,
    key: RouteKey,
    desired: Seq<Route>,
) -> Seq<u32> {
    gather(sorted(adj_out), undesired(session, key, desired))
}

/// The paths to send to a session: changed ones, then new ones.
pub open spec fn to_advertise(
    adj_out: Map<PathKey, Route>,
    session: u64,
    key: RouteKey,
    desired: Seq<Route>,
) -> Seq<Route> {
    gather(sorted(adj_out), replacement(session, key, desired)) + gather(
        desired,
        addition(adj_out, session, key),
    )
}

/// The filters have decided on everything: the difference to what the session
/// was sent is put on its way. It supersedes whatever waited for this
/// destination.
pub open spec fn after_filter(
    st: RouterState,
    session: u64,
    key: RouteKey,
    desired: Seq<Route>,
) -> RouterState {
    let ids = to_retract(st.adj_out, session, key, desired);
    let routes = to_advertise(st.adj_out, session, key, desired);
    (RouterState { mrai_pending: st.mrai_pending.remove((session, key)), ..st }).schedule(
        one_if(ids.len() > 0, Task::Retract { session, key, ids: List::of(ids) }) + one_if(
            routes.len() > 0,
            Task::Advertise { session, routes: List::of(routes) },
        ),
    )
}

/// The sum of two times, capped.
pub open spec fn later(t: u64, d: u64) -> u64 {
    if t + d > u64::MAX {
        u64::MAX
    } else {
        (t + d) as u64
    }
}

/// When the interval of a destination toward a session ends, if one runs.
pub open spec fn due_at(st: RouterState, session: u64, key: RouteKey) -> Option<u64> {
    match (lookup(st.mrai_interval, session), lookup(st.mrai_last, (session, key))) {
        (Some(interval), Some(last)) => if interval != 0 && st.now_ms < later(last, interval) {
            Some(later(last, interval))
        } else {
            None
        },
        _ => None,
    }
}

/// An advertisement is transmitted, or waits while the interval of its
/// destination runs.
pub open spec fn after_advertise(st: RouterState, session: u64, routes: List<Route>) -> RouterState {
    match routes {
        List::Nil => st,
        List::Cons(first, _) => match due_at(st, session, first.key) {
            Some(due_ms) => RouterState {
                mrai_pending: st.mrai_pending.insert(
                    (session, first.key),
                    PendingUpdate { routes, due_ms },
                ),
                ..st
            },
            None => st.schedule(
                seq![Task::Transmit { session, routes, occasion: Occasion::Update }],
            ),
        },
    }
}

/// The Adj-RIB-Out after sending routes to a session.
pub open spec fn advertised(
    adj_out: Map<PathKey, Route>,
    session: u64,
    routes: List<Route>,
) -> Map<PathKey, Route>
    decreases routes,
{
    match routes {
        List::Nil => adj_out,
        List::Cons(r, rest) => advertised(
            adj_out.insert((peer_origin(session), (r.key, r.path_id)), r),
            session,
            *rest,
        ),
    }
}

/// The Adj-RIB-Out after withdrawing paths from a session.
pub open spec fn suppressed(
    adj_out: Map<PathKey, Route>,
    session: u64,
    key: RouteKey,
    ids: List<u32>,
) -> Map<PathKey, Route>
    decreases ids,
{
    match ids {
        List::Nil => adj_out,
        List::Cons(id, rest) => suppressed(
            adj_out.remove((peer_origin(session), (key, id))),
            session,
            key,
            *rest,
        ),
    }
}

/// A peer took routes, or did not. An update starts the interval of its
/// destination; a dump is not reported.
pub open spec fn after_transmit(
    st: RouterState,
    session: u64,
    routes: List<Route>,
    occasion: Occasion,
    sent: bool,
) -> RouterState {
    match routes {
        List::Cons(first, _) => if sent {
            let out = RouterState { adj_out: advertised(st.adj_out, session, routes), ..st };
            match occasion {
                Occasion::Dump => out,
                Occasion::Refresh => out.report(RouterEvent::PrefixAdvertised(first.key.prefix)),
                Occasion::Update => (RouterState {
                    mrai_last: st.mrai_last.insert((session, first.key), st.now_ms),
                    ..out
                }).report(RouterEvent::PrefixAdvertised(first.key.prefix)),
            }
        } else {
            st
        },
        List::Nil => st,
    }
}

/// A peer took a withdrawal, or did not.
pub open spec fn after_retract(
    st: RouterState,
    session: u64,
    key: RouteKey,
    ids: List<u32>,
    sent: bool,
) -> RouterState {
    if sent {
        (RouterState {
            mrai_last: st.mrai_last.insert((session, key), st.now_ms),
            adj_out: suppressed(st.adj_out, session, key, ids),
            ..st
        }).report(RouterEvent::PrefixRetracted(key.prefix))
    } else {
        st
    }
}

/// The key of a waiting advertisement whose interval ended.
pub open spec fn due_key(now_ms: u64) -> spec_fn(((u64, RouteKey), PendingUpdate)) -> Seq<
    (u64, RouteKey),
> {
    |e: ((u64, RouteKey), PendingUpdate)| one_if(e.1.due_ms <= now_ms, e.0)
}

/// The transmission of a waiting advertisement whose interval ended.
pub open spec fn due_task(now_ms: u64) -> spec_fn(((u64, RouteKey), PendingUpdate)) -> Seq<Task> {
    |e: ((u64, RouteKey), PendingUpdate)|
        one_if(
            e.1.due_ms <= now_ms,
            Task::Transmit { session: e.0.0, routes: e.1.routes, occasion: Occasion::Update },
        )
}

/// What waited for its interval is transmitted once that ended.
pub open spec fn after_flush_mrai(st: RouterState) -> RouterState {
    (RouterState {
        mrai_pending: excluding(
            st.mrai_pending,
            gather(sorted(st.mrai_pending), due_key(st.now_ms)),
        ),
        ..st
    }).schedule(gather(sorted(st.mrai_pending), due_task(st.now_ms)))
}

/// The identifier of a path to a destination.
pub open spec fn path_id_to(session: u64, key: RouteKey) -> spec_fn((PathKey, Route)) -> Seq<u32> {
    |e: (PathKey, Route)| one_if(PathsTo(peer_origin(session), key).accepts(e.0), e.0.1.1)
}

/// The identifiers under which a destination was sent to a session.
pub open spec fn sent_ids(adj_out: Map<PathKey, Route>, session: u64, key: RouteKey) -> Seq<u32> {
    gather(sorted(adj_out), path_id_to(session, key))
}

/// The withdrawal of a destination from an established session, if it was sent
/// anything.
pub open spec fn retraction(adj_out: Map<PathKey, Route>, key: RouteKey) -> spec_fn(
    (u64, Session),
) -> Seq<Task> {
    |e: (u64, Session)|
        one_if(
            is_up(Some(e.1)) && sent_ids(adj_out, e.0, key).len() > 0,
            Task::Retract { session: e.0, key, ids: List::of(sent_ids(adj_out, e.0, key)) },
        )
}

/// The identifier of a stale path to a destination.
pub open spec fn stale_id_to(session: u64, key: RouteKey) -> spec_fn((PathKey, Route)) -> Seq<
    u32,
> {
    |e: (PathKey, Route)|
        one_if(PathsTo(peer_origin(session), key).accepts(e.0) && stale(e.1), e.0.1.1)
}

/// The identifiers under which stale paths to a destination were sent to a
/// session.
pub open spec fn stale_ids(adj_out: Map<PathKey, Route>, session: u64, key: RouteKey) -> Seq<u32> {
    gather(sorted(adj_out), stale_id_to(session, key))
}

/// The withdrawal of stale paths to a destination from an established session
/// that does not take them, if it was sent any.
pub open spec fn stale_retraction(adj_out: Map<PathKey, Route>, key: RouteKey) -> spec_fn(
    (u64, Session),
) -> Seq<Task> {
    |e: (u64, Session)|
        one_if(
            is_up(Some(e.1)) && !takes_stale(Some(e.1)) && stale_ids(adj_out, e.0, key).len() > 0,
            Task::Retract { session: e.0, key, ids: List::of(stale_ids(adj_out, e.0, key)) },
        )
}

/// A destination left the Loc-RIB: it is withdrawn from every session, and
/// nothing waits for it any longer.
pub open spec fn after_propagate(st: RouterState, key: RouteKey) -> RouterState {
    (RouterState { mrai_pending: without(st.mrai_pending, ToDestination(key)), ..st }).schedule(
        gather(sorted(st.sessions), retraction(st.adj_out, key)),
    )
}

/// A destination has stale paths: they are withdrawn from the sessions without
/// long-lived retention. Fresh paths to it stay.
pub open spec fn after_withdraw_stale(st: RouterState, key: RouteKey) -> RouterState {
    st.schedule(gather(sorted(st.sessions), stale_retraction(st.adj_out, key)))
}

/// One offer per path of a table entry in a family.
pub open spec fn table_offers(
    st: RouterState,
    session: u64,
    family: NlriFamily,
    occasion: Occasion,
) -> spec_fn((RouteKey, List<Route>)) -> Seq<Task> {
    let stale_too = takes_stale(st.session(session));
    |e: (RouteKey, List<Route>)|
        if e.0.family == family {
            gather(
                if sends_paths(st.session(session), family) {
                    ranked_offers(voiced(st, e.0, e.1), session, stale_too, 0)
                } else {
                    plain_offer(voiced(st, e.0, e.1), session, stale_too)
                },
                offer_task(session, occasion),
            )
        } else {
            Seq::empty()
        }
}

/// The offer of a route.
pub open spec fn offer_task(session: u64, occasion: Occasion) -> spec_fn(Route) -> Seq<Task> {
    |r: Route| seq![Task::Offer { session, route: r, occasion }]
}

/// The withdrawal of an advertised path ahead of a refresh.
pub open spec fn clearing(session: u64, family: NlriFamily) -> spec_fn((PathKey, Route)) -> Seq<
    Task,
> {
    |e: (PathKey, Route)|
        one_if(
            PathsIn(peer_origin(session), family).accepts(e.0),
            Task::Clear {
                session,
                key: e.0.1.0,
                ids: List::Cons(e.0.1.1, Box::new(List::Nil)),
            },
        )
}

/// A peer asked for a family anew: nothing waits for it any longer, and the
/// refresh is announced.
pub open spec fn after_reannounce(st: RouterState, session: u64, family: NlriFamily) -> RouterState {
    if is_up(st.session(session)) {
        (RouterState {
            mrai_pending: without(st.mrai_pending, OfSessionFamily(session, family)),
            ..st
        }).schedule(seq![Task::BeginRefresh { session, family }])
    } else {
        st
    }
}

/// A refresh was announced: everything sent in the family is withdrawn, and
/// the table offered again.
pub open spec fn after_begin_refresh(
    st: RouterState,
    session: u64,
    family: NlriFamily,
    demarcated: bool,
) -> RouterState {
    (RouterState {
        adj_out: without(st.adj_out, PathsIn(peer_origin(session), family)),
        ..st
    }).schedule(
        gather(sorted(st.adj_out), clearing(session, family)) + (if denies_export(st, session) {
            Seq::empty()
        } else {
            gather(
                sorted(st.loc),
                table_offers(st, session, family, Occasion::Refresh),
            )
        }) + seq![Task::EndRefresh { session, family, demarcated }],
    )
}

/// The export hooks decided on an offered route.
pub open spec fn after_offer(
    st: RouterState,
    session: u64,
    occasion: Occasion,
    hooked: Option<Route>,
) -> RouterState {
    match hooked {
        Some(r) => st.schedule(
            seq![
                Task::Transmit {
                    session,
                    routes: List::Cons(r, Box::new(List::Nil)),
                    occasion,
                },
            ],
        ),
        None => st,
    }
}

/// IPv4 unicast and the families of a list, each once.
pub open spec fn spoken(families: Seq<NlriFamily>) -> Seq<NlriFamily>
    decreases families.len(),
{
    if families.len() == 0 {
        seq![NlriFamily::ipv4_unicast()]
    } else {
        let front = spoken(families.drop_last());
        if front.contains(families.last()) {
            front
        } else {
            front.push(families.last())
        }
    }
}

/// The offers of the table in one family.
pub open spec fn family_offers(st: RouterState, session: u64) -> spec_fn(NlriFamily) -> Seq<Task> {
    |family: NlriFamily|
        gather(
            sorted(st.loc),
            table_offers(st, session, family, Occasion::Dump),
        )
}

/// The table is offered to a newly established peer, followed by the
/// end-of-RIB markers. Want of a policy leaves only the markers, and is
/// reported once.
pub open spec fn after_dump(st: RouterState, session: u64) -> RouterState {
    match bgp_of(st.session(session)) {
        None => st,
        Some(b) => if denies_export(st, session) {
            let p = policy_of(st.policy, session);
            let told = if p.warned_export {
                st
            } else {
                (RouterState {
                    policy: st.policy.insert(session, SessionPolicy { warned_export: true, ..p }),
                    ..st
                }).log(LogEntry::NoExportPolicy { session })
            };
            told.schedule(seq![Task::SendEndOfRib { session }])
        } else {
            st.schedule(
                gather(spoken(b.config.mp_families.seq()), family_offers(st, session))
                    + seq![Task::SendEndOfRib { session }],
            )
        },
    }
}

/// Whether a session is established.
pub fn session_up(s: &Session) -> (b: bool)
    ensures
        b == is_up(Some(*s)),
{
    match s {
        Session::Bgp(x) => x.status.state == BgpState::Established,
        _ => false,
    }
}

/// Whether a route is long-lived stale.
pub fn is_stale(route: &Route) -> (b: bool)
    ensures
        b == stale(*route),
{
    route.attributes.communities.contains(&LLGR_STALE)
}

fn may_export(route: &Route, session: u64, stale_too: bool) -> (b: bool)
    ensures
        b == exportable(*route, session, stale_too),
{
    route.protocol == Protocol::Bgp && route.origin.peer != session && (stale_too || !is_stale(
        route,
    ))
}

/// Lists all paths of a ranking for a session.
pub fn offer_ranked(l: &List<Route>, session: u64, stale_too: bool) -> (v: Vec<Route>)
    ensures
        v@ == ranked_offers(*l, session, stale_too, 0),
{
    let mut v: Vec<Route> = Vec::new();
    let mut cur: &List<Route> = l;
    let mut id: u32 = 1;
    let ghost mut slot: int = 0;
    loop
        invariant_except_break
            slot >= 0,
            id == slot_id(slot),
            v@ + ranked_offers(*cur, session, stale_too, slot) == ranked_offers(*l, session, stale_too, 0),
        ensures
            v@ == ranked_offers(*l, session, stale_too, 0),
        decreases *cur,
    {
        match cur {
            List::Nil => {
                assert(v@ + Seq::<Route>::empty() == v@);
                break;
            },
            List::Cons(r, rest) => {
                let ghost before = v@;
                if may_export(r, session, stale_too) {
                    let mut c = r.dup();
                    c.path_id = id;
                    v.push(c);
                }
                assert(before + ranked_offers(*cur, session, stale_too, slot) =~= v@ + ranked_offers(
                    **rest,
                    session,
                    stale_too,
                    slot + 1,
                ));
                proof {
                    slot = slot + 1;
                }
                id = if id == u32::MAX {
                    0
                } else {
                    id + 1
                };
                cur = rest;
            },
        }
    }
    v
}

/// Lists the best path of a ranking for a session, without identifier.
fn offer_plain(l: &List<Route>, session: u64, stale_too: bool) -> (v: Vec<Route>)
    ensures
        v@ == plain_offer(*l, session, stale_too),
{
    let mut v: Vec<Route> = Vec::new();
    if let List::Cons(r, _) = l {
        if may_export(r, session, stale_too) {
            let mut c = r.dup();
            c.path_id = 0;
            v.push(c);
        }
    }
    assert(v@ =~= plain_offer(*l, session, stale_too));
    v
}

/// Finds the first route with a path identifier.
fn find_id(s: &Vec<Route>, id: u32) -> (r: Option<usize>)
    ensures
        match r {
            Some(i) => i < s@.len() && with_id(s@, id) == Some(s@[i as int]),
            None => with_id(s@, id) is None,
        },
{
    let mut i: usize = 0;
    assert(s@.skip(0) == s@);
    while i < s.len()
        invariant
            i <= s@.len(),
            with_id(s@, id) == with_id(s@.skip(i as int), id),
        decreases s@.len() - i,
    {
        assert(s@.skip(i as int)[0] == s@[i as int]);
        assert(s@.skip(i as int).drop_first() == s@.skip(i + 1));
        if s[i].path_id == id {
            return Some(i);
        }
        i = i + 1;
    }
    None
}

/// Works out what to withdraw from and what to send to a session.
pub fn export_difference(
    adj_out: &OrdMap<PathKey, Route>,
    session: u64,
    key: RouteKey,
    desired: &Vec<Route>,
) -> (r: (Vec<Route>, Vec<u32>))
    ensures
        r.0@ == to_advertise(adj_out@, session, key, desired@),
        r.1@ == to_retract(adj_out@, session, key, desired@),
{
    let mut routes: Vec<Route> = Vec::new();
    let mut ids: Vec<u32> = Vec::new();
    let test = PathsTo(peer_origin(session), key);
    let ghost f = undesired(session, key, desired@);
    let ghost g = replacement(session, key, desired@);
    let n: usize = adj_out.len();
    proof {
        gather_whole(adj_out.entries(), f);
        gather_whole(adj_out.entries(), g);
    }
    let mut i: usize = 0;
    while i < n
        invariant
            i <= n == adj_out.entries().len(),
            f == undesired(session, key, desired@),
            g == replacement(session, key, desired@),
            test == PathsTo(peer_origin(session), key),
            ids@ == gather(adj_out.entries().take(i as int), f),
            routes@ == gather(adj_out.entries().take(i as int), g),
        decreases n - i,
    {
        proof {
            gather_step(adj_out.entries(), i as int, f);
            gather_step(adj_out.entries(), i as int, g);
        }
        let k = adj_out.key_at(i);
        if test.test(&k) {
            let id: u32 = k.1.1;
            match find_id(desired, id) {
                None => {
                    ids.push(id);
                },
                Some(j) => {
                    if !desired[j].same(adj_out.value_at(i)) {
                        routes.push(desired[j].dup());
                    }
                },
            }
        }
        i = i + 1;
    }
    let ghost changed = routes@;
    let ghost h = addition(adj_out@, session, key);
    proof {
        gather_whole(desired@, h);
        assert(changed + Seq::<Route>::empty() == changed);
    }
    let mut i: usize = 0;
    while i < desired.len()
        invariant
            i <= desired@.len(),
            h == addition(adj_out@, session, key),
            routes@ == changed + gather(desired@.take(i as int), h),
        decreases desired@.len() - i,
    {
        proof {
            gather_step(desired@, i as int, h);
        }
        if !adj_out.contains_key(&(peer_origin(session), (key, desired[i].path_id))) {
            routes.push(desired[i].dup());
        }
        assert(routes@ =~= changed + gather(desired@.take(i + 1), h));
        i = i + 1;
    }
    (routes, ids)
}

/// Lists the identifiers under which a destination was sent to a session.
pub fn tx_path_ids(adj_out: &OrdMap<PathKey, Route>, session: u64, key: RouteKey) -> (ids: Vec<u32>)
    ensures
        ids@ == sent_ids(adj_out@, session, key),
{
    let mut ids: Vec<u32> = Vec::new();
    let test = PathsTo(peer_origin(session), key);
    let ghost f = path_id_to(session, key);
    let n: usize = adj_out.len();
    proof {
        gather_whole(adj_out.entries(), f);
    }
    let mut i: usize = 0;
    while i < n
        invariant
            i <= n == adj_out.entries().len(),
            f == path_id_to(session, key),
            test == PathsTo(peer_origin(session), key),
            ids@ == gather(adj_out.entries().take(i as int), f),
        decreases n - i,
    {
        proof {
            gather_step(adj_out.entries(), i as int, f);
        }
        let k = adj_out.key_at(i);
        if test.test(&k) {
            ids.push(k.1.1);
        }
        i = i + 1;
    }
    ids
}

/// Lists the identifiers under which stale paths to a destination were sent to
/// a session.
fn stale_tx_ids(adj_out: &OrdMap<PathKey, Route>, session: u64, key: RouteKey) -> (ids: Vec<u32>)
    ensures
        ids@ == stale_ids(adj_out@, session, key),
{
    let mut ids: Vec<u32> = Vec::new();
    let test = PathsTo(peer_origin(session), key);
    let ghost f = stale_id_to(session, key);
    let n: usize = adj_out.len();
    proof {
        gather_whole(adj_out.entries(), f);
    }
    let mut i: usize = 0;
    while i < n
        invariant
            i <= n == adj_out.entries().len(),
            f == stale_id_to(session, key),
            test == PathsTo(peer_origin(session), key),
            ids@ == gather(adj_out.entries().take(i as int), f),
        decreases n - i,
    {
        proof {
            gather_step(adj_out.entries(), i as int, f);
        }
        let k = adj_out.key_at(i);
        if test.test(&k) && is_stale(adj_out.value_at(i)) {
            ids.push(k.1.1);
        }
        i = i + 1;
    }
    ids
}

/// Records routes as sent.
fn record_sent(adj_out: &mut OrdMap<PathKey, Route>, session: u64, routes: &List<Route>)
    ensures
        final(adj_out)@ == advertised(old(adj_out)@, session, *routes),
    decreases *routes,
{
    if let List::Cons(r, rest) = routes {
        adj_out.insert((peer_origin(session), (r.key, r.path_id)), r.dup());
        record_sent(adj_out, session, rest);
    }
}

/// Records paths as withdrawn.
fn record_retracted(
    adj_out: &mut OrdMap<PathKey, Route>,
    session: u64,
    key: RouteKey,
    ids: &List<u32>,
)
    ensures
        final(adj_out)@ == suppressed(old(adj_out)@, session, key, *ids),
    decreases *ids,
{
    if let List::Cons(id, rest) = ids {
        adj_out.remove(&(peer_origin(session), (key, *id)));
        record_retracted(adj_out, session, key, rest);
    }
}

/// Lists IPv4 unicast and the families of a list, each once.
fn speak(families: &Vec<NlriFamily>) -> (v: Vec<NlriFamily>)
    ensures
        v@ == spoken(families@),
{
    let mut v: Vec<NlriFamily> = vec![NlriFamily::ipv4_unicast()];
    let mut i: usize = 0;
    assert(families@.take(0) == Seq::<NlriFamily>::empty());
    while i < families.len()
        invariant
            i <= families@.len(),
            v@ == spoken(families@.take(i as int)),
        decreases families@.len() - i,
    {
        let mut known: bool = false;
        let mut j: usize = 0;
        while j < v.len()
            invariant
                i < families@.len(),
                j <= v@.len(),
                known == exists|k: int| 0 <= k < j && v@[k] == families@[i as int],
            decreases v@.len() - j,
        {
            if v[j] == families[i] {
                known = true;
            }
            j = j + 1;
        }
        assert(families@.take(i + 1).drop_last() == families@.take(i as int));
        if !known {
            v.push(families[i]);
        }
        i = i + 1;
    }
    assert(families@.take(families@.len() as int) == families@);
    v
}

impl DefaultRouter {
    /// Brings every session in line with a ranking.
    pub fn export_selection(&mut self, key: RouteKey, ranked: &List<Route>)
        ensures
            final(self)@ == after_export(old(self)@, key, *ranked),
    {
        let mut tasks: Vec<Task> = Vec::new();
        let ghost f = export_task(key, *ranked);
        let n: usize = self.sessions.len();
        proof {
            gather_whole(self.sessions.entries(), f);
        }
        let mut i: usize = 0;
        while i < n
            invariant
                i <= n == self.sessions.entries().len(),
                f == export_task(key, *ranked),
                tasks@ == gather(self.sessions.entries().take(i as int), f),
            decreases n - i,
        {
            proof {
                gather_step(self.sessions.entries(), i as int, f);
            }
            if session_up(self.sessions.value_at(i)) {
                let session: u64 = self.sessions.key_at(i);
                tasks.push(Task::ExportTo { session, key, ranked: ranked.dup() });
            }
            i = i + 1;
        }
        self.schedule(tasks);
    }

    /// Whether a session is established.
    pub(crate) fn up(&self, session: u64) -> (b: bool)
        ensures
            b == is_up(self@.session(session)),
    {
        match self.sessions.get(&session) {
            Some(s) => session_up(s),
            None => false,
        }
    }

    /// Whether several paths per prefix of a family may be sent on a session.
    pub(crate) fn add_path_tx(&self, session: u64, family: NlriFamily) -> (b: bool)
        ensures
            b == sends_paths(self@.session(session), family),
    {
        match self.bgp(session) {
            Some(b) => b.status.add_path_tx.contains(&family),
            None => false,
        }
    }

    /// Whether a session is told stale routes.
    fn takes_stale_routes(&self, session: u64) -> (b: bool)
        ensures
            b == takes_stale(self@.session(session)),
    {
        match self.bgp(session) {
            Some(b) => b.status.long_lived,
            None => false,
        }
    }

    /// The ranking that peers are told of.
    fn voice(&self, key: RouteKey, l: &List<Route>) -> (r: List<Route>)
        ensures
            r == voiced(self@, key, *l),
    {
        if let List::Cons(best, _) = l {
            if best.protocol != Protocol::Bgp {
                if let Some(own) = self.originated.get(&key) {
                    return List::Cons(own.dup(), Box::new(List::Nil));
                }
                if let Some(copy) = self.redistributed.get(&key) {
                    if copied_from(copy, best) {
                        return List::Cons(copy.dup(), Box::new(List::Nil));
                    }
                }
            }
        }
        l.dup()
    }

    /// Lists what a ranking offers a session before its filters.
    pub fn export_offers(&self, session: u64, key: RouteKey, ranked: &List<Route>) -> (v: Vec<
        Route,
    >)
        ensures
            v@ == offers(self@, session, key, *ranked),
    {
        let (_, denied) = self.rfc8212_denies(session);
        if denied {
            return Vec::new();
        }
        let stale_too: bool = self.takes_stale_routes(session);
        let told = self.voice(key, ranked);
        if self.add_path_tx(session, key.family) {
            offer_ranked(&told, session, stale_too)
        } else {
            offer_plain(&told, session, stale_too)
        }
    }

    /// Brings one session in line with a ranking.
    pub fn export_to(&mut self, session: u64, key: RouteKey, ranked: &List<Route>)
        ensures
            final(self)@ == after_export_to(old(self)@, session, key, *ranked),
    {
        if self.up(session) {
            let v = self.export_offers(session, key, ranked);
            self.schedule(
                vec![Task::Filter { session, key, todo: List::from_vec(v), kept: List::Nil }],
            );
        }
    }

    /// Takes the filters' decision on the first route.
    pub fn filtered(
        &mut self,
        session: u64,
        key: RouteKey,
        todo: List<Route>,
        kept: List<Route>,
        route: Option<Route>,
        allowed: bool,
    )
        ensures
            final(self)@ == after_filtered(
                old(self)@,
                session,
                key,
                todo,
                kept,
                route,
                allowed,
            ),
    {
        if let List::Cons(_, rest) = todo {
            let kept = match route {
                Some(r) => {
                    if allowed {
                        kept.append(r)
                    } else {
                        kept
                    }
                },
                None => kept,
            };
            self.schedule(vec![Task::Filter { session, key, todo: *rest, kept }]);
        }
    }

    /// Puts the difference to what a session was sent on its way.
    pub fn export_work_for(&mut self, session: u64, key: RouteKey, desired: &List<Route>)
        ensures
            final(self)@ == after_filter(old(self)@, session, key, desired.seq()),
    {
        let v = desired.to_vec();
        let (routes, ids) = export_difference(&self.adj_out, session, key, &v);
        self.mrai_pending.remove(&(session, key));
        let ghost (a, b) = (routes@, ids@);
        let mut tasks: Vec<Task> = Vec::new();
        if ids.len() > 0 {
            tasks.push(Task::Retract { session, key, ids: List::from_vec(ids) });
        }
        if routes.len() > 0 {
            tasks.push(Task::Advertise { session, routes: List::from_vec(routes) });
        }
        assert(tasks@ =~= one_if(
            b.len() > 0,
            Task::Retract { session, key, ids: List::of(b) },
        ) + one_if(a.len() > 0, Task::Advertise { session, routes: List::of(a) }));
        self.schedule(tasks);
    }

    /// Advertises routes now or when the interval allows it.
    pub fn queue_or_send_advertisement(&mut self, session: u64, routes: List<Route>)
        ensures
            final(self)@ == after_advertise(old(self)@, session, routes),
    {
        let first: Option<RouteKey> = match &routes {
            List::Cons(r, _) => Some(r.key),
            List::Nil => None,
        };
        if let Some(key) = first {
            let due: Option<u64> = match (
                self.mrai_interval.get(&session),
                self.mrai_last.get(&(session, key)),
            ) {
                (Some(interval), Some(last)) => {
                    let t: u64 = if *interval > u64::MAX - *last {
                        u64::MAX
                    } else {
                        *last + *interval
                    };
                    if *interval != 0 && self.now_ms < t {
                        Some(t)
                    } else {
                        None
                    }
                },
                _ => None,
            };
            match due {
                Some(due_ms) => {
                    self.mrai_pending.insert((session, key), PendingUpdate { routes, due_ms });
                },
                None => {
                    self.schedule(
                        vec![Task::Transmit { session, routes, occasion: Occasion::Update }],
                    );
                },
            }
        }
    }

    /// Takes note of whether a peer took routes.
    pub fn send_advertisement_set(
        &mut self,
        session: u64,
        routes: &List<Route>,
        occasion: Occasion,
        sent: bool,
    )
        ensures
            final(self)@ == after_transmit(old(self)@, session, *routes, occasion, sent),
    {
        if let List::Cons(first, _) = routes {
            if sent {
                record_sent(&mut self.adj_out, session, routes);
                match occasion {
                    Occasion::Dump => {},
                    Occasion::Refresh => {
                        self.report(RouterEvent::PrefixAdvertised(first.key.prefix));
                    },
                    Occasion::Update => {
                        self.mrai_last.insert((session, first.key), self.now_ms);
                        self.report(RouterEvent::PrefixAdvertised(first.key.prefix));
                    },
                }
            }
        }
    }

    /// Takes note of whether a peer took a withdrawal.
    pub fn send_withdrawal(&mut self, session: u64, key: RouteKey, ids: &List<u32>, sent: bool)
        ensures
            final(self)@ == after_retract(old(self)@, session, key, *ids, sent),
    {
        if sent {
            self.mrai_last.insert((session, key), self.now_ms);
            record_retracted(&mut self.adj_out, session, key, ids);
            self.report(RouterEvent::PrefixRetracted(key.prefix));
        }
    }

    /// Transmits what waited for an interval that ended.
    pub fn flush_mrai(&mut self)
        ensures
            final(self)@ == after_flush_mrai(old(self)@),
    {
        let mut keys: Vec<(u64, RouteKey)> = Vec::new();
        let mut tasks: Vec<Task> = Vec::new();
        let now: u64 = self.now_ms;
        let ghost f = due_key(now);
        let ghost g = due_task(now);
        let n: usize = self.mrai_pending.len();
        proof {
            gather_whole(self.mrai_pending.entries(), f);
            gather_whole(self.mrai_pending.entries(), g);
        }
        let mut i: usize = 0;
        while i < n
            invariant
                i <= n == self.mrai_pending.entries().len(),
                f == due_key(now),
                g == due_task(now),
                keys@ == gather(self.mrai_pending.entries().take(i as int), f),
                tasks@ == gather(self.mrai_pending.entries().take(i as int), g),
            decreases n - i,
        {
            proof {
                gather_step(self.mrai_pending.entries(), i as int, f);
                gather_step(self.mrai_pending.entries(), i as int, g);
            }
            let p = self.mrai_pending.value_at(i);
            if p.due_ms <= now {
                let k = self.mrai_pending.key_at(i);
                tasks.push(
                    Task::Transmit {
                        session: k.0,
                        routes: p.routes.dup(),
                        occasion: Occasion::Update,
                    },
                );
                keys.push(k);
            }
            i = i + 1;
        }
        remove_keys(&mut self.mrai_pending, &keys);
        self.schedule(tasks);
    }

    /// Withdraws a destination from every session.
    pub fn propagate_withdrawal(&mut self, key: RouteKey)
        ensures
            final(self)@ == after_propagate(old(self)@, key),
    {
        let mut tasks: Vec<Task> = Vec::new();
        let ghost f = retraction(self@.adj_out, key);
        let n: usize = self.sessions.len();
        proof {
            gather_whole(self.sessions.entries(), f);
        }
        let mut i: usize = 0;
        while i < n
            invariant
                i <= n == self.sessions.entries().len(),
                f == retraction(self@.adj_out, key),
                tasks@ == gather(self.sessions.entries().take(i as int), f),
            decreases n - i,
        {
            proof {
                gather_step(self.sessions.entries(), i as int, f);
            }
            if session_up(self.sessions.value_at(i)) {
                let session: u64 = self.sessions.key_at(i);
                let ids = tx_path_ids(&self.adj_out, session, key);
                if ids.len() > 0 {
                    tasks.push(Task::Retract { session, key, ids: List::from_vec(ids) });
                }
            }
            i = i + 1;
        }
        drop_keys(&mut self.mrai_pending, &ToDestination(key));
        self.schedule(tasks);
    }

    /// Withdraws stale paths to a destination from sessions without long-lived
    /// retention.
    pub fn withdraw_stale_from_non_llgr_sessions(&mut self, key: RouteKey)
        ensures
            final(self)@ == after_withdraw_stale(old(self)@, key),
    {
        let mut tasks: Vec<Task> = Vec::new();
        let ghost f = stale_retraction(self@.adj_out, key);
        let n: usize = self.sessions.len();
        proof {
            gather_whole(self.sessions.entries(), f);
        }
        let mut i: usize = 0;
        while i < n
            invariant
                i <= n == self.sessions.entries().len(),
                f == stale_retraction(self@.adj_out, key),
                tasks@ == gather(self.sessions.entries().take(i as int), f),
            decreases n - i,
        {
            proof {
                gather_step(self.sessions.entries(), i as int, f);
            }
            let retains: bool = match self.sessions.value_at(i) {
                Session::Bgp(b) => b.status.long_lived,
                _ => false,
            };
            if session_up(self.sessions.value_at(i)) && !retains {
                let session: u64 = self.sessions.key_at(i);
                let ids = stale_tx_ids(&self.adj_out, session, key);
                if ids.len() > 0 {
                    tasks.push(Task::Retract { session, key, ids: List::from_vec(ids) });
                }
            }
            i = i + 1;
        }
        self.schedule(tasks);
    }

    /// Appends the offers of the table in a family.
    fn offer_table(
        &self,
        tasks: &mut Vec<Task>,
        session: u64,
        family: NlriFamily,
        occasion: Occasion,
    )
        ensures
            final(tasks)@ == old(tasks)@ + gather(
                sorted(self@.loc),
                table_offers(self@, session, family, occasion),
            ),
    {
        let ghost start = tasks@;
        let ghost f = table_offers(self@, session, family, occasion);
        let all_paths: bool = self.add_path_tx(session, family);
        let stale_too: bool = self.takes_stale_routes(session);
        let ghost g = offer_task(session, occasion);
        let n: usize = self.loc.len();
        proof {
            gather_whole(self.loc.entries(), f);
            assert(start + Seq::<Task>::empty() == start);
        }
        let mut i: usize = 0;
        while i < n
            invariant
                i <= n == self.loc.entries().len(),
                f == table_offers(self@, session, family, occasion),
                all_paths == sends_paths(self@.session(session), family),
                stale_too == takes_stale(self@.session(session)),
                g == offer_task(session, occasion),
                tasks@ == start + gather(self.loc.entries().take(i as int), f),
            decreases n - i,
        {
            proof {
                gather_step(self.loc.entries(), i as int, f);
            }
            let key = self.loc.key_at(i);
            if key.family == family {
                let told = self.voice(key, self.loc.value_at(i));
                let routes = if all_paths {
                    offer_ranked(&told, session, stale_too)
                } else {
                    offer_plain(&told, session, stale_too)
                };
                let ghost before = tasks@;
                let mut j: usize = 0;
                proof {
                    gather_whole(routes@, g);
                    assert(before + Seq::<Task>::empty() == before);
                }
                while j < routes.len()
                    invariant
                        j <= routes@.len(),
                        g == offer_task(session, occasion),
                        tasks@ == before + gather(routes@.take(j as int), g),
                    decreases routes@.len() - j,
                {
                    proof {
                        gather_step(routes@, j as int, g);
                    }
                    tasks.push(Task::Offer { session, route: routes[j].dup(), occasion });
                    assert(tasks@ =~= before + gather(routes@.take(j + 1), g));
                    j = j + 1;
                }
                assert(tasks@ == before + f(self.loc.entries()[i as int]));
            } else {
                assert(f(self.loc.entries()[i as int]) == Seq::<Task>::empty());
            }
            assert(tasks@ =~= start + gather(self.loc.entries().take(i + 1), f));
            i = i + 1;
        }
    }

    /// Answers a route refresh.
    pub fn reannounce_to_session(&mut self, session: u64, family: NlriFamily)
        ensures
            final(self)@ == after_reannounce(old(self)@, session, family),
    {
        if self.up(session) {
            drop_keys(&mut self.mrai_pending, &OfSessionFamily(session, family));
            self.schedule(vec![Task::BeginRefresh { session, family }]);
        }
    }

    /// Goes on with an announced refresh.
    pub fn refresh_begun(&mut self, session: u64, family: NlriFamily, demarcated: bool)
        ensures
            final(self)@ == after_begin_refresh(old(self)@, session, family, demarcated),
    {
        let mut tasks: Vec<Task> = Vec::new();
        let test = PathsIn(peer_origin(session), family);
        let ghost f = clearing(session, family);
        let n: usize = self.adj_out.len();
        proof {
            gather_whole(self.adj_out.entries(), f);
        }
        let mut i: usize = 0;
        while i < n
            invariant
                i <= n == self.adj_out.entries().len(),
                test == PathsIn(peer_origin(session), family),
                f == clearing(session, family),
                tasks@ == gather(self.adj_out.entries().take(i as int), f),
            decreases n - i,
        {
            proof {
                gather_step(self.adj_out.entries(), i as int, f);
            }
            let k = self.adj_out.key_at(i);
            if test.test(&k) {
                tasks.push(
                    Task::Clear {
                        session,
                        key: k.1.0,
                        ids: List::Cons(k.1.1, Box::new(List::Nil)),
                    },
                );
            }
            i = i + 1;
        }
        let ghost cleared = tasks@;
        let (_, denied) = self.rfc8212_denies(session);
        if !denied {
            self.offer_table(&mut tasks, session, family, Occasion::Refresh);
        } else {
            assert(cleared + Seq::<Task>::empty() == cleared);
        }
        let ghost offered = tasks@;
        tasks.push(Task::EndRefresh { session, family, demarcated });
        assert(tasks@ =~= offered + seq![Task::EndRefresh { session, family, demarcated }]);
        drop_keys(&mut self.adj_out, &test);
        self.schedule(tasks);
    }

    /// Takes the export hooks' decision on an offered route.
    pub fn offered(&mut self, session: u64, occasion: Occasion, hooked: Option<Route>)
        ensures
            final(self)@ == after_offer(old(self)@, session, occasion, hooked),
    {
        if let Some(r) = hooked {
            self.schedule(
                vec![
                    Task::Transmit {
                        session,
                        routes: List::Cons(r, Box::new(List::Nil)),
                        occasion,
                    },
                ],
            );
        }
    }

    /// Offers the table to a newly established peer.
    pub fn on_bgp_established(&mut self, session: u64)
        ensures
            final(self)@ == after_dump(old(self)@, session),
    {
        let families: Option<Vec<NlriFamily>> = match self.bgp(session) {
            Some(b) => Some(speak(&b.config.mp_families.to_vec())),
            None => None,
        };
        if let Some(fams) = families {
            let (_, denied) = self.rfc8212_denies(session);
            if denied {
                let p = self.session_policy(session);
                if !p.warned_export {
                    self.policy.insert(session, SessionPolicy { warned_export: true, ..p });
                    self.log(LogEntry::NoExportPolicy { session });
                }
                self.schedule(vec![Task::SendEndOfRib { session }]);
            } else {
                let mut tasks: Vec<Task> = Vec::new();
                let ghost f = family_offers(self@, session);
                proof {
                    gather_whole(fams@, f);
                }
                let mut i: usize = 0;
                while i < fams.len()
                    invariant
                        i <= fams@.len(),
                        f == family_offers(self@, session),
                        tasks@ == gather(fams@.take(i as int), f),
                    decreases fams@.len() - i,
                {
                    proof {
                        gather_step(fams@, i as int, f);
                    }
                    self.offer_table(&mut tasks, session, fams[i], Occasion::Dump);
                    i = i + 1;
                }
                let ghost offered = tasks@;
                tasks.push(Task::SendEndOfRib { session });
                assert(tasks@ =~= offered + seq![Task::SendEndOfRib { session }]);
                self.schedule(tasks);
            }
        }
    }
}

/// Nothing is offered to a session that it contributed itself, that is no BGP
/// path, that is stale while the session takes no stale routes, or for want of
/// a policy.
pub proof fn offers_are_exportable(
    st: RouterState,
    session: u64,
    key: RouteKey,
    l: List<Route>,
    r: Route,
)
    requires
        offers(st, session, key, l).contains(r),
    ensures
        exportable(r, session, takes_stale(st.session(session))),
        !denies_export(st, session),
{
    if sends_paths(st.session(session), key.family) {
        lemma_ranked_offers(voiced(st, key, l), session, takes_stale(st.session(session)), 0, r);
    }
}

proof fn lemma_ranked_offers(l: List<Route>, session: u64, stale_too: bool, slot: int, r: Route)
    requires
        ranked_offers(l, session, stale_too, slot).contains(r),
    ensures
        exportable(r, session, stale_too),
    decreases l,
{
    let s = ranked_offers(l, session, stale_too, slot);
    let i = choose|i: int| 0 <= i < s.len() && s[i] == r;
    match l {
        List::Nil => {},
        List::Cons(x, rest) => {
            let head = one_if(exportable(x, session, stale_too), Route { path_id: slot_id(slot), ..x });
            if i < head.len() {
                assert(head[i] == r);
            } else {
                assert(ranked_offers(*rest, session, stale_too, slot + 1)[i - head.len()] == r);
                lemma_ranked_offers(*rest, session, stale_too, slot + 1, r);
            }
        },
    }
}

/// The initial dump and a refresh offer exactly what an evaluation of the
/// destination offers: never what the session contributed itself, nor paths that
/// are no BGP paths, nor stale ones that it does not take.
pub proof fn tables_offer_exportable_paths(
    st: RouterState,
    session: u64,
    family: NlriFamily,
    occasion: Occasion,
    e: (RouteKey, List<Route>),
    t: Task,
)
    requires
        table_offers(st, session, family, occasion)(e).contains(t),
    ensures
        t is Offer,
        t->Offer_session == session,
        exportable(t->Offer_route, session, takes_stale(st.session(session))),
        e.0.family == family,
        !denies_export(st, session) ==> table_offers(st, session, family, occasion)(e) == gather(
            offers(st, session, e.0, e.1),
            offer_task(session, occasion),
        ),
{
    let all_paths = sends_paths(st.session(session), family);
    let stale_too = takes_stale(st.session(session));
    let told = voiced(st, e.0, e.1);
    let routes = if all_paths {
        ranked_offers(told, session, stale_too, 0)
    } else {
        plain_offer(told, session, stale_too)
    };
    let i = crate::seqs::gather_source(routes, offer_task(session, occasion), t);
    let r = routes[i];
    assert(offer_task(session, occasion)(r)[0] == Task::Offer { session, route: r, occasion });
    assert(routes.contains(r));
    if all_paths {
        lemma_ranked_offers(told, session, stale_too, 0, r);
    }
}

/// A session without declared export policy is offered nothing, where one is
/// required: neither updates, nor a dump.
pub proof fn no_policy_no_export(
    st: RouterState,
    session: u64,
    key: RouteKey,
    l: List<Route>,
)
    requires
        denies_export(st, session),
    ensures
        offers(st, session, key, l).len() == 0,
        after_dump(st, session).agenda == st.agenda.push(Task::SendEndOfRib { session }),
{
    let one = seq![Task::SendEndOfRib { session }];
    assert(one.reverse() =~= one);
    assert(st.agenda + one =~= st.agenda.push(one[0]));
}

/// What no longer is to be sent is withdrawn at once, whatever interval runs.
pub proof fn withdrawals_are_immediate(
    st: RouterState,
    session: u64,
    key: RouteKey,
    desired: Seq<Route>,
)
    requires
        to_retract(st.adj_out, session, key, desired).len() > 0,
    ensures
        after_filter(st, session, key, desired).agenda.last() == (Task::Retract {
            session,
            key,
            ids: List::of(to_retract(st.adj_out, session, key, desired)),
        }),
{
    let ids = to_retract(st.adj_out, session, key, desired);
    let routes = to_advertise(st.adj_out, session, key, desired);
    let tasks = one_if(ids.len() > 0, Task::Retract { session, key, ids: List::of(ids) })
        + one_if(routes.len() > 0, Task::Advertise { session, routes: List::of(routes) });
    assert(tasks[0] == Task::Retract { session, key, ids: List::of(ids) });
    let r = tasks.reverse();
    assert((st.agenda + r)[st.agenda.len() + r.len() - 1] == tasks[0]);
}

/// Every path of a ranking is offered under its own identifier.
pub proof fn offers_have_distinct_ids(
    st: RouterState,
    session: u64,
    key: RouteKey,
    l: List<Route>,
)
    requires
        l.seq().len() < u32::MAX,
    ensures
        distinct_ids(offers(st, session, key, l)),
{
    if let List::Cons(best, _) = l {
        if let Some(own) = own_voice(st, key, best) {
            lemma_alone(own);
        }
    }
    lemma_slots(voiced(st, key, l), session, takes_stale(st.session(session)), 0);
}

proof fn lemma_slots(l: List<Route>, session: u64, stale_too: bool, slot: int)
    requires
        0 <= slot,
        slot + l.seq().len() < u32::MAX,
    ensures
        distinct_ids(ranked_offers(l, session, stale_too, slot)),
        forall|i: int|
            0 <= i < ranked_offers(l, session, stale_too, slot).len() ==> slot < (
            #[trigger] ranked_offers(l, session, stale_too, slot)[i]).path_id,
    decreases l,
{
    if let List::Cons(r, rest) = l {
        lemma_slots(*rest, session, stale_too, slot + 1);
        let head = one_if(exportable(r, session, stale_too), Route { path_id: slot_id(slot), ..r });
        let tail = ranked_offers(*rest, session, stale_too, slot + 1);
        let s = head + tail;
        assert(s == ranked_offers(l, session, stale_too, slot));
        assert(slot_id(slot) == slot + 1);
        assert forall|i: int| 0 <= i < s.len() implies slot < (#[trigger] s[i]).path_id by {
            if i >= head.len() {
                assert(s[i] == tail[i - head.len()]);
            }
        }
        assert forall|i: int, j: int| 0 <= i < j < s.len() implies (#[trigger] s[i]).path_id != (
        #[trigger] s[j]).path_id by {
            assert(s[j] == tail[j - head.len()]);
            if i >= head.len() {
                assert(s[i] == tail[i - head.len()]);
            }
        }
    }
}

/// Whether no two routes have the same path identifier.
pub open spec fn distinct_ids(s: Seq<Route>) -> bool {
    forall|i: int, j: int|
        0 <= i < j < s.len() ==> (#[trigger] s[i]).path_id != (#[trigger] s[j]).path_id
}

proof fn lemma_with_id(s: Seq<Route>, id: u32)
    ensures
        match with_id(s, id) {
            Some(r) => s.contains(r) && r.path_id == id,
            None => forall|i: int| 0 <= i < s.len() ==> (#[trigger] s[i]).path_id != id,
        },
    decreases s.len(),
{
    if s.len() > 0 && s[0].path_id != id {
        let t = s.drop_first();
        lemma_with_id(t, id);
        match with_id(t, id) {
            Some(r) => {
                let i = choose|i: int| 0 <= i < t.len() && t[i] == r;
                assert(s[i + 1] == r);
            },
            None => {
                assert forall|i: int| 0 <= i < s.len() implies (#[trigger] s[i]).path_id != id by {
                    if i > 0 {
                        assert(t[i - 1] == s[i]);
                    }
                }
            },
        }
    }
}

proof fn lemma_distinct(s: Seq<Route>, a: Route, b: Route)
    requires
        distinct_ids(s),
        s.contains(a),
        s.contains(b),
        a.path_id == b.path_id,
    ensures
        a == b,
{
    let i = choose|i: int| 0 <= i < s.len() && s[i] == a;
    let j = choose|j: int| 0 <= j < s.len() && s[j] == b;
    if i < j {
        assert(s[i].path_id != s[j].path_id);
    } else if j < i {
        assert(s[j].path_id != s[i].path_id);
    }
}

proof fn lemma_suppressed(
    m: Map<PathKey, Route>,
    session: u64,
    key: RouteKey,
    ids: List<u32>,
    p: PathKey,
)
    ensures
        lookup(suppressed(m, session, key, ids), p) == (if p.0 == peer_origin(session) && p.1.0
            == key && ids.seq().contains(p.1.1) {
            None
        } else {
            lookup(m, p)
        }),
    decreases ids,
{
    match ids {
        List::Nil => {},
        List::Cons(id, rest) => {
            lemma_suppressed(
                m.remove((peer_origin(session), (key, id))),
                session,
                key,
                *rest,
                p,
            );
            let s = ids.seq();
            let t = rest.seq();
            assert(s[0] == id);
            if t.contains(p.1.1) {
                let i = choose|i: int| 0 <= i < t.len() && t[i] == p.1.1;
                assert(s[i + 1] == p.1.1);
            }
            if s.contains(p.1.1) && p.1.1 != id {
                let i = choose|i: int| 0 <= i < s.len() && s[i] == p.1.1;
                assert(t[i - 1] == p.1.1);
            }
        },
    }
}

proof fn lemma_advertised(
    m: Map<PathKey, Route>,
    session: u64,
    key: RouteKey,
    routes: List<Route>,
    desired: Seq<Route>,
    p: PathKey,
)
    requires
        distinct_ids(desired),
        forall|r: Route| #[trigger]
            routes.seq().contains(r) ==> desired.contains(r) && r.key == key,
    ensures
        ({
            let here = p.0 == peer_origin(session) && p.1.0 == key && match with_id(
                desired,
                p.1.1,
            ) {
                Some(r) => routes.seq().contains(r),
                None => false,
            };
            lookup(advertised(m, session, routes), p) == (if here {
                with_id(desired, p.1.1)
            } else {
                lookup(m, p)
            })
        }),
    decreases routes,
{
    match routes {
        List::Nil => {},
        List::Cons(r, rest) => {
            let s = routes.seq();
            let t = rest.seq();
            assert(s[0] == r);
            assert(s.contains(r));
            assert forall|x: Route| #[trigger] t.contains(x) implies desired.contains(x) && x.key
                == key by {
                let i = choose|i: int| 0 <= i < t.len() && t[i] == x;
                assert(s[i + 1] == x);
                assert(s.contains(x));
            }
            let next = m.insert((peer_origin(session), (r.key, r.path_id)), r);
            lemma_advertised(next, session, key, *rest, desired, p);
            lemma_with_id(desired, p.1.1);
            match with_id(desired, p.1.1) {
                Some(w) => {
                    if r.path_id == p.1.1 {
                        lemma_distinct(desired, r, w);
                    }
                    if t.contains(w) {
                        let i = choose|i: int| 0 <= i < t.len() && t[i] == w;
                        assert(s[i + 1] == w);
                    }
                    if s.contains(w) && w != r {
                        let i = choose|i: int| 0 <= i < s.len() && s[i] == w;
                        assert(t[i - 1] == w);
                    }
                },
                None => {
                    if r.path_id == p.1.1 {
                        let i = choose|i: int| 0 <= i < desired.len() && desired[i] == r;
                        assert(desired[i].path_id != p.1.1);
                    }
                },
            }
        },
    }
}

proof fn lemma_to_retract(
    adj_out: Map<PathKey, Route>,
    session: u64,
    key: RouteKey,
    desired: Seq<Route>,
    id: u32,
)
    requires
        is_table(adj_out),
    ensures
        to_retract(adj_out, session, key, desired).contains(id) == (adj_out.contains_key(
            (peer_origin(session), (key, id)),
        ) && with_id(desired, id) is None),
{
    let f = undesired(session, key, desired);
    let s = sorted(adj_out);
    let path = (peer_origin(session), (key, id));
    if to_retract(adj_out, session, key, desired).contains(id) {
        let i = gather_source(s, f, id);
        assert(f(s[i]).contains(id));
        lemma_entry(s, i);
        assert(s[i].0 == path);
    }
    if adj_out.contains_key(path) && with_id(desired, id) is None {
        let i = lemma_key_position(s, path);
        assert(f(s[i]) == seq![id]);
        assert(f(s[i])[0] == id);
        gather_includes(s, f, i, id);
    }
}

proof fn lemma_to_advertise(
    adj_out: Map<PathKey, Route>,
    session: u64,
    key: RouteKey,
    desired: Seq<Route>,
    r: Route,
)
    requires
        is_table(adj_out),
        distinct_ids(desired),
    ensures
        to_advertise(adj_out, session, key, desired).contains(r) == (desired.contains(r) && lookup(
            adj_out,
            (peer_origin(session), (key, r.path_id)),
        ) != Some(r)),
{
    let f = replacement(session, key, desired);
    let g = addition(adj_out, session, key);
    let s = sorted(adj_out);
    let a = gather(s, f);
    let b = gather(desired, g);
    let path = (peer_origin(session), (key, r.path_id));
    lemma_with_id(desired, r.path_id);
    if (a + b).contains(r) {
        let j = choose|j: int| 0 <= j < (a + b).len() && (a + b)[j] == r;
        if j < a.len() {
            assert(a[j] == r);
            assert(a.contains(r));
            let i = gather_source(s, f, r);
            lemma_with_id(desired, s[i].0.1.1);
            assert(f(s[i]).contains(r));
            lemma_entry(s, i);
            assert(s[i].0 == path);
        } else {
            assert(b[j - a.len()] == r);
            assert(b.contains(r));
            let i = gather_source(desired, g, r);
            assert(g(desired[i]).contains(r));
            assert(desired[i] == r);
        }
    }
    if desired.contains(r) && lookup(adj_out, path) != Some(r) {
        let k = choose|k: int| 0 <= k < desired.len() && desired[k] == r;
        match with_id(desired, r.path_id) {
            Some(w) => {
                lemma_distinct(desired, r, w);
            },
            None => {
                assert(desired[k].path_id != r.path_id);
            },
        }
        if adj_out.contains_key(path) {
            let i = lemma_key_position(s, path);
            lemma_entry(s, i);
            assert(f(s[i]) == seq![r]);
            assert(f(s[i])[0] == r);
            gather_includes(s, f, i, r);
            let j = choose|j: int| 0 <= j < a.len() && a[j] == r;
            assert((a + b)[j] == r);
        } else {
            assert(g(desired[k]) == seq![r]);
            assert(g(desired[k])[0] == r);
            gather_includes(desired, g, k, r);
            let j = choose|j: int| 0 <= j < b.len() && b[j] == r;
            assert((a + b)[a.len() + j] == r);
        }
    }
}

/// Sending the difference brings what a session was sent to exactly what is
/// desired for the destination, and touches nothing else.
pub proof fn difference_reaches_desired(
    adj_out: Map<PathKey, Route>,
    session: u64,
    key: RouteKey,
    desired: Seq<Route>,
    p: PathKey,
)
    requires
        is_table(adj_out),
        distinct_ids(desired),
        forall|i: int| 0 <= i < desired.len() ==> (#[trigger] desired[i]).key == key,
    ensures
        ({
            let ids = List::of(to_retract(adj_out, session, key, desired));
            let routes = List::of(to_advertise(adj_out, session, key, desired));
            let after = advertised(
                suppressed(adj_out, session, key, ids),
                session,
                routes,
            );
            lookup(after, p) == (if p.0 == peer_origin(session) && p.1.0 == key {
                with_id(desired, p.1.1)
            } else {
                lookup(adj_out, p)
            })
        }),
{
    let gone = to_retract(adj_out, session, key, desired);
    let new = to_advertise(adj_out, session, key, desired);
    List::seq_of(gone);
    List::seq_of(new);
    let middle = suppressed(adj_out, session, key, List::of(gone));
    assert forall|r: Route| #[trigger] List::of(new).seq().contains(r) implies desired.contains(r)
        && r.key == key by {
        lemma_to_advertise(adj_out, session, key, desired, r);
    }
    lemma_suppressed(adj_out, session, key, List::of(gone), p);
    lemma_advertised(middle, session, key, List::of(new), desired, p);
    lemma_to_retract(adj_out, session, key, desired, p.1.1);
    lemma_with_id(desired, p.1.1);
    if let Some(w) = with_id(desired, p.1.1) {
        lemma_to_advertise(adj_out, session, key, desired, w);
    }
}

proof fn lemma_sent_table(
    m: Map<PathKey, Route>,
    session: u64,
    key: RouteKey,
    ids: List<u32>,
    routes: List<Route>,
)
    requires
        is_table(m),
    ensures
        is_table(suppressed(m, session, key, ids)),
        is_table(advertised(m, session, routes)),
    decreases ids, routes,
{
    if let List::Cons(id, rest) = ids {
        lemma_table_remove(m, (peer_origin(session), (key, id)));
        lemma_sent_table(
            m.remove((peer_origin(session), (key, id))),
            session,
            key,
            *rest,
            routes,
        );
    }
    if let List::Cons(r, rest) = routes {
        lemma_table_insert(m, (peer_origin(session), (r.key, r.path_id)), r);
        lemma_sent_table(
            m.insert((peer_origin(session), (r.key, r.path_id)), r),
            session,
            key,
            ids,
            *rest,
        );
    }
}

proof fn lemma_offer_source(
    l: List<Route>,
    session: u64,
    stale_too: bool,
    slot: int,
    r: Route,
)
    requires
        ranked_offers(l, session, stale_too, slot).contains(r),
    ensures
        exists|i: int|
            0 <= i < l.seq().len() && r == (Route {
                path_id: slot_id(slot + i),
                ..(#[trigger] l.seq()[i])
            }),
    decreases l,
{
    let s = ranked_offers(l, session, stale_too, slot);
    let j = choose|j: int| 0 <= j < s.len() && s[j] == r;
    if let List::Cons(x, rest) = l {
        let head = one_if(
            exportable(x, session, stale_too),
            Route { path_id: slot_id(slot), ..x },
        );
        let tail = ranked_offers(*rest, session, stale_too, slot + 1);
        assert(l.seq()[0] == x);
        if j < head.len() {
            assert(r == (Route { path_id: slot_id(slot + 0), ..l.seq()[0] }));
        } else {
            assert(tail[j - head.len()] == r);
            lemma_offer_source(*rest, session, stale_too, slot + 1, r);
            let i = choose|i: int|
                0 <= i < rest.seq().len() && r == (Route {
                    path_id: slot_id(slot + 1 + i),
                    ..(#[trigger] rest.seq()[i])
                });
            assert(l.seq()[i + 1] == rest.seq()[i]);
            assert(slot + (i + 1) == slot + 1 + i);
        }
    }
}

/// Whether two routes agree in what export hooks leave alone.
pub open spec fn agrees(a: Route, b: Route) -> bool {
    a.key == b.key && a.protocol == b.protocol && a.origin == b.origin && a.path_id == b.path_id
}

/// Whether hooks leave alone what identifies a route.
pub open spec fn faithful(hooks: spec_fn(Route) -> Option<Route>) -> bool {
    forall|r: Route| #[trigger] hooks(r) is Some ==> agrees(r, hooks(r)->Some_0)
}

/// What hooks make of a route.
pub open spec fn passed(hooks: spec_fn(Route) -> Option<Route>) -> spec_fn(Route) -> Seq<Route> {
    |r: Route|
        match hooks(r) {
            Some(x) => seq![x],
            None => Seq::empty(),
        }
}

/// Whether a route is what a session is told of one path of a ranking: under
/// its rank where several paths are sent, else the best without identifier.
pub open spec fn told_of(
    st: RouterState,
    session: u64,
    key: RouteKey,
    told: Seq<Route>,
    r: Route,
) -> bool {
    if sends_paths(st.session(session), key.family) {
        exists|i: int|
            0 <= i < told.len() && agrees(
                Route { path_id: slot_id(i), ..(#[trigger] told[i]) },
                r,
            )
    } else {
        told.len() > 0 && agrees(Route { path_id: 0, ..told[0] }, r)
    }
}

/// The filters keep what the hooks pass, as the hooks rewrote it: each step
/// leaves what is kept in the end as it was.
pub proof fn filters_keep_what_hooks_pass(
    st: RouterState,
    session: u64,
    key: RouteKey,
    first: Route,
    rest: List<Route>,
    kept: List<Route>,
    hooks: spec_fn(Route) -> Option<Route>,
)
    ensures
        ({
            let todo = List::Cons(first, Box::new(rest));
            let next = after_filtered(st, session, key, todo, kept, hooks(first), true);
            let task = next.agenda.last();
            &&& next.agenda.drop_last() == st.agenda
            &&& task is Filter
            &&& task->Filter_session == session
            &&& task->Filter_key == key
            &&& task->Filter_todo == rest
            &&& task->Filter_kept.seq() + gather(rest.seq(), passed(hooks)) == kept.seq() + gather(
                todo.seq(),
                passed(hooks),
            )
        }),
{
    let f = passed(hooks);
    let todo = List::Cons(first, Box::new(rest));
    let next = after_filtered(st, session, key, todo, kept, hooks(first), true);
    let one = seq![
        Task::Filter {
            session,
            key,
            todo: rest,
            kept: match hooks(first) {
                Some(r) => kept.appended(r),
                None => kept,
            },
        },
    ];
    assert(one.reverse() =~= one);
    assert(next.agenda =~= st.agenda.push(one[0]));
    assert(next.agenda.drop_last() =~= st.agenda);
    gather_first(first, rest.seq(), f);
    assert(todo.seq() == seq![first] + rest.seq());
    if let Some(r) = hooks(first) {
        List::seq_of(kept.seq().push(r));
        assert(kept.seq().push(r) + gather(rest.seq(), f) =~= kept.seq() + (seq![r] + gather(
            rest.seq(),
            f,
        )));
    } else {
        assert(kept.seq() + (Seq::<Route>::empty() + gather(rest.seq(), f)) =~= kept.seq() + gather(
            rest.seq(),
            f,
        ));
    }
}

proof fn lemma_passed(s: Seq<Route>, hooks: spec_fn(Route) -> Option<Route>)
    requires
        distinct_ids(s),
        faithful(hooks),
    ensures
        distinct_ids(gather(s, passed(hooks))),
    decreases s.len(),
{
    let f = passed(hooks);
    if s.len() > 0 {
        let front = s.drop_last();
        lemma_passed(front, hooks);
        let a = gather(front, f);
        let t = gather(s, f);
        assert forall|i: int, j: int| 0 <= i < j < t.len() implies (#[trigger] t[i]).path_id != (
        #[trigger] t[j]).path_id by {
            assert(t[i] == a[i]);
            if j < a.len() {
                assert(t[j] == a[j]);
            } else {
                assert(a.contains(a[i]));
                let k = gather_source(front, f, a[i]);
                assert(s[k].path_id != s[s.len() - 1].path_id);
            }
        }
    }
}

/// Exporting a destination to a session settles. Whatever deterministic hooks
/// make of the offers, the paths sent are none of the session's own and no
/// paths of other protocols, and carry the identifier of their rank; the
/// Adj-RIB-Out then holds exactly what was kept, and evaluating the same again
/// yields nothing to withdraw and nothing to send. A session that is not an
/// established BGP session is told nothing.
pub proof fn export_settles(
    st: RouterState,
    session: u64,
    key: RouteKey,
    l: List<Route>,
    hooks: spec_fn(Route) -> Option<Route>,
)
    requires
        is_table(st.adj_out),
        l.seq().len() < u32::MAX,
        forall|i: int| 0 <= i < l.seq().len() ==> (#[trigger] l.seq()[i]).key == key,
        st.originated.contains_key(key) ==> st.originated[key].key == key,
        st.redistributed.contains_key(key) ==> st.redistributed[key].key == key,
        faithful(hooks),
    ensures
        !is_up(st.session(session)) ==> after_export_to(st, session, key, l) == st,
        ({
            let desired = gather(offers(st, session, key, l), passed(hooks));
            let gone = to_retract(st.adj_out, session, key, desired);
            let new = to_advertise(st.adj_out, session, key, desired);
            let after = advertised(
                suppressed(st.adj_out, session, key, List::of(gone)),
                session,
                List::of(new),
            );
            &&& forall|r: Route| #[trigger]
                new.contains(r) ==> r.protocol == Protocol::Bgp && r.origin.peer != session
                    && r.key == key && told_of(st, session, key, voiced(st, key, l).seq(), r)
            &&& forall|p: PathKey| #[trigger]
                lookup(after, p) == (if p.0 == peer_origin(session) && p.1.0 == key {
                    with_id(desired, p.1.1)
                } else {
                    lookup(st.adj_out, p)
                })
            &&& to_retract(after, session, key, desired).len() == 0
            &&& to_advertise(after, session, key, desired).len() == 0
        }),
{
    let told = voiced(st, key, l);
    let stale_too = takes_stale(st.session(session));
    let all = offers(st, session, key, l);
    let f = passed(hooks);
    let desired = gather(all, f);
    lemma_voiced(st, key, l);
    offers_have_distinct_ids(st, session, key, l);
    lemma_passed(all, hooks);
    assert forall|r: Route| #[trigger] desired.contains(r) implies r.protocol == Protocol::Bgp
        && r.origin.peer != session && r.key == key && told_of(
        st,
        session,
        key,
        told.seq(),
        r,
    ) by {
        let k = gather_source(all, f, r);
        let o = all[k];
        assert(all.contains(o));
        assert(agrees(o, r));
        offers_are_exportable(st, session, key, l, o);
        if sends_paths(st.session(session), key.family) {
            lemma_offer_source(told, session, stale_too, 0, o);
            let i = choose|i: int|
                0 <= i < told.seq().len() && o == (Route {
                    path_id: slot_id(0 + i),
                    ..(#[trigger] told.seq()[i])
                });
            assert(told.seq()[i].key == key);
            assert(agrees(Route { path_id: slot_id(i), ..told.seq()[i] }, r));
        } else {
            assert(told is Cons);
            assert(told.seq()[0] == told->Cons_0);
        }
    }
    let gone = to_retract(st.adj_out, session, key, desired);
    let new = to_advertise(st.adj_out, session, key, desired);
    let middle = suppressed(st.adj_out, session, key, List::of(gone));
    let after = advertised(middle, session, List::of(new));
    lemma_sent_table(st.adj_out, session, key, List::of(gone), List::Nil);
    lemma_sent_table(middle, session, key, List::Nil, List::of(new));
    assert forall|r: Route| #[trigger] new.contains(r) implies desired.contains(r) by {
        lemma_to_advertise(st.adj_out, session, key, desired, r);
    }
    assert forall|i: int| 0 <= i < desired.len() implies (#[trigger] desired[i]).key == key by {
        assert(desired.contains(desired[i]));
    }
    assert forall|p: PathKey| #[trigger]
        lookup(after, p) == (if p.0 == peer_origin(session) && p.1.0 == key {
            with_id(desired, p.1.1)
        } else {
            lookup(st.adj_out, p)
        }) by {
        difference_reaches_desired(st.adj_out, session, key, desired, p);
    }
    let again = to_retract(after, session, key, desired);
    if again.len() > 0 {
        lemma_to_retract(after, session, key, desired, again[0]);
        assert(again.contains(again[0]));
        assert(lookup(after, (peer_origin(session), (key, again[0]))) == with_id(
            desired,
            again[0],
        ));
    }
    let more = to_advertise(after, session, key, desired);
    if more.len() > 0 {
        let r = more[0];
        lemma_to_advertise(after, session, key, desired, r);
        assert(more.contains(r));
        lemma_with_id(desired, r.path_id);
        assert(lookup(after, (peer_origin(session), (key, r.path_id))) == with_id(
            desired,
            r.path_id,
        ));
        match with_id(desired, r.path_id) {
            Some(w) => {
                lemma_distinct(desired, r, w);
            },
            None => {
                let i = choose|i: int| 0 <= i < desired.len() && desired[i] == r;
                assert(desired[i].path_id != r.path_id);
            },
        }
    }
}

proof fn lemma_voiced(st: RouterState, key: RouteKey, l: List<Route>)
    requires
        forall|i: int| 0 <= i < l.seq().len() ==> (#[trigger] l.seq()[i]).key == key,
        st.originated.contains_key(key) ==> st.originated[key].key == key,
        st.redistributed.contains_key(key) ==> st.redistributed[key].key == key,
    ensures
        forall|i: int|
            0 <= i < voiced(st, key, l).seq().len() ==> (
            #[trigger] voiced(st, key, l).seq()[i]).key == key,
{
    if let List::Cons(best, _) = l {
        if let Some(own) = own_voice(st, key, best) {
            lemma_alone(own);
        }
    }
}

proof fn lemma_alone(route: Route)
    ensures
        alone(route).seq() == seq![route],
{
    reveal_with_fuel(List::seq, 3);
    assert(alone(route).seq() =~= seq![route]);
}

/// Withdrawing what is stale spares fresh paths: a session that was sent a
/// path that is not stale is not told to forget it.
pub proof fn fresh_paths_are_not_withdrawn_as_stale(
    adj_out: Map<PathKey, Route>,
    session: u64,
    key: RouteKey,
    id: u32,
)
    requires
        is_table(adj_out),
    ensures
        stale_ids(adj_out, session, key).contains(id) == (match lookup(
            adj_out,
            (peer_origin(session), (key, id)),
        ) {
            Some(r) => stale(r),
            None => false,
        }),
{
    let f = stale_id_to(session, key);
    let s = sorted(adj_out);
    let path = (peer_origin(session), (key, id));
    if stale_ids(adj_out, session, key).contains(id) {
        let i = gather_source(s, f, id);
        assert(f(s[i]).contains(id));
        lemma_entry(s, i);
        assert(s[i].0 == path);
    }
    if adj_out.contains_key(path) && stale(adj_out[path]) {
        let i = lemma_key_position(s, path);
        lemma_entry(s, i);
        assert(f(s[i]) == seq![id]);
        assert(f(s[i])[0] == id);
        gather_includes(s, f, i, id);
    }
}

/// What a session holds unchanged is not sent again.
pub proof fn unchanged_paths_are_not_resent(
    adj_out: Map<PathKey, Route>,
    session: u64,
    key: RouteKey,
    desired: Seq<Route>,
    r: Route,
)
    requires
        is_table(adj_out),
        distinct_ids(desired),
        lookup(adj_out, (peer_origin(session), (key, r.path_id))) == Some(r),
    ensures
        !to_advertise(adj_out, session, key, desired).contains(r),
{
    lemma_to_advertise(adj_out, session, key, desired, r);
}

/// Every evaluation of a destination toward a session supersedes what waited
/// for it there: old routes and old policies are never sent later.
pub proof fn evaluation_supersedes_waiting(
    st: RouterState,
    session: u64,
    key: RouteKey,
    desired: Seq<Route>,
)
    ensures
        !after_filter(st, session, key, desired).mrai_pending.contains_key((session, key)),
{
}

/// What left the Loc-RIB waits for no session.
pub proof fn withdrawn_destinations_do_not_wait(st: RouterState, session: u64, key: RouteKey)
    ensures
        !after_propagate(st, key).mrai_pending.contains_key((session, key)),
{
}

/// A refresh leaves nothing waiting in its family.
pub proof fn refresh_supersedes_waiting(
    st: RouterState,
    session: u64,
    key: RouteKey,
)
    requires
        is_up(st.session(session)),
    ensures
        !after_reannounce(st, session, key.family).mrai_pending.contains_key((session, key)),
{
}

/// While the interval of a destination runs, an advertisement of it waits and
/// nothing is transmitted.
pub proof fn interval_is_respected(st: RouterState, session: u64, routes: List<Route>)
    requires
        routes is Cons,
        due_at(st, session, routes->Cons_0.key) is Some,
    ensures
        after_advertise(st, session, routes).agenda == st.agenda,
        after_advertise(st, session, routes).mrai_pending[(session, routes->Cons_0.key)]
            == (PendingUpdate {
            routes,
            due_ms: due_at(st, session, routes->Cons_0.key)->Some_0,
        }),
        due_at(st, session, routes->Cons_0.key)->Some_0 > st.now_ms,
{
}

/// Flushing transmits exactly what is due: nothing due waits any longer, and
/// nothing else leaves.
pub proof fn flush_sends_what_is_due(st: RouterState, k: (u64, RouteKey))
    requires
        is_table(st.mrai_pending),
    ensures
        lookup(after_flush_mrai(st).mrai_pending, k) == (match lookup(st.mrai_pending, k) {
            Some(u) => if u.due_ms <= st.now_ms {
                None
            } else {
                Some(u)
            },
            None => None,
        }),
{
    let f = due_key(st.now_ms);
    let s = sorted(st.mrai_pending);
    let keys = gather(s, f);
    if keys.contains(k) {
        let i = gather_source(s, f, k);
        assert(f(s[i]).contains(k));
        lemma_entry(s, i);
        assert(s[i].0 == k);
    }
    if st.mrai_pending.contains_key(k) {
        let i = lemma_key_position(s, k);
        lemma_entry(s, i);
        if s[i].1.due_ms <= st.now_ms {
            assert(f(s[i]) == seq![k]);
            assert(f(s[i])[0] == k);
            gather_includes(s, f, i, k);
        }
    }
}

} // verus!
