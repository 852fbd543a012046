//! Sessions that went down: retention, staleness and purging.

use crate::addr::NlriFamily;
use crate::events::{LogEntry, RouterError, RouterEvent, Violation};
use crate::list::List;
use crate::ordmap::{is_table, lookup, sorted, OrdMap};
use crate::ordmap::{lemma_entry, lemma_key_position};
use crate::route::{Attributes, Route, RouteKey};
use crate::router::export::later;
use crate::router::import::{after_import, after_safety, after_screen, retains};
use crate::router::paths::{peer_origin, OfBgpPeer, OfSession};
use crate::router::{DefaultRouter, LimitState, PathKey, RestartWindow, RouterState};
use crate::select::{
    accepted_value, any_key, drop_keys, find_keys, find_values, has_accepted, keys_where, reshape, values_where,
    without, Fate, KeyTest,
};
use crate::seqs::{
    gather, gather_includes, gather_source, gather_step, gather_whole, one_if,
};
use crate::session::{bgp_of, Session};
use crate::task::Task;
use crate::value::Value;
use vstd::prelude::*;

verus! {

/// Community of routes that are long-lived stale.
pub const LLGR_STALE: u32 = 0xFFFF_0006;

/// Community of routes that are never retained beyond the restart time.
pub const NO_LLGR: u32 = 0xFFFF_0007;

/// A stale time under a local cap.
pub open spec fn capped_stale(secs: u32, cap: Option<u32>) -> u32 {
    match cap {
        Some(c) => if secs < c {
            secs
        } else {
            c
        },
        None => secs,
    }
}

/// The deadlines of a session's families: restart time plus stale time from
/// now on.
pub open spec fn with_deadlines(
    deadlines: Map<(u64, NlriFamily), u64>,
    session: u64,
    restart_ends: u64,
    cap: Option<u32>,
    l: List<(NlriFamily, u32)>,
) -> Map<(u64, NlriFamily), u64>
    decreases l,
{
    match l {
        List::Nil => deadlines,
        List::Cons(e, rest) => with_deadlines(
            deadlines.insert(
                (session, e.0),
                later(restart_ends, (capped_stale(e.1, cap) as int * 1000) as u64),
            ),
            session,
            restart_ends,
            cap,
            *rest,
        ),
    }
}

/// A session's limits are reported anew.
pub open spec fn unlatched(limits: Map<u64, LimitState>, session: u64) -> Map<u64, LimitState> {
    if limits.contains_key(session) {
        limits.insert(
            session,
            LimitState { exceeded: false, warned: false, ..limits[session] },
        )
    } else {
        limits
    }
}

/// A session's contribution less `n`.
pub open spec fn less_by(limits: Map<u64, LimitState>, session: u64, n: nat) -> Map<
    u64,
    LimitState,
> {
    if limits.contains_key(session) {
        let l = limits[session];
        let m = n % 0x1_0000_0000;
        limits.insert(
            session,
            LimitState {
                count: if l.count >= m {
                    (l.count - m) as u32
                } else {
                    0
                },
                ..l
            },
        )
    } else {
        limits
    }
}

/// What a session was sent, and what waits for it, is forgotten; so are its
/// records. Its limits may be reported anew.
pub open spec fn outbound_cleared(st: RouterState, session: u64) -> RouterState {
    RouterState {
        mrai_last: without(st.mrai_last, OfSession(session)),
        mrai_pending: without(st.mrai_pending, OfSession(session)),
        adj_out: without(st.adj_out, OfBgpPeer(session)),
        limits: unlatched(st.limits, session),
        records: st.records.remove(session),
        partial_transit: st.partial_transit.remove(session),
        ..st
    }
}

/// When the restart time of a session ends if it goes down now.
pub open spec fn restart_end(st: RouterState, secs: u16) -> u64 {
    later(st.now_ms, (secs as int * 1000) as u64)
}

/// The stale times a session negotiated.
pub open spec fn stale_times(s: Option<Session>) -> List<(NlriFamily, u32)> {
    match bgp_of(s) {
        Some(b) => if b.status.long_lived {
            b.status.stale_secs
        } else {
            List::Nil
        },
        None => List::Nil,
    }
}

/// The restart time a session negotiated.
pub open spec fn restart_time(s: Option<Session>) -> u16 {
    match bgp_of(s) {
        Some(b) => b.status.restart_secs,
        None => 0,
    }
}

/// Whether a session's routes are retained when it goes down.
pub open spec fn retained(s: Option<Session>) -> bool {
    restart_time(s) > 0 || stale_times(s) is Cons
}

/// The family of a deadline.
pub open spec fn family_of() -> spec_fn((u64, NlriFamily)) -> Seq<NlriFamily> {
    |k: (u64, NlriFamily)| seq![k.1]
}

/// Whether a session is under retention that ends by itself: its restart time
/// runs, or a long-lived stale time.
pub open spec fn under_retention(st: RouterState, session: u64) -> bool {
    st.windows.contains_key(session) && (!st.windows[session].marked_stale || any_key(
        st.deadlines,
        OfSession(session),
    ))
}

/// A session goes down: its routes are retained as negotiated, or purged. One
/// that is retained already keeps its deadlines.
pub open spec fn after_teardown(st: RouterState, session: u64) -> RouterState {
    let s = st.session(session);
    let cleared = outbound_cleared(st, session);
    if !retained(s) {
        after_cleanup(cleared, session)
    } else if under_retention(st, session) {
        cleared
    } else {
        let ends = restart_end(st, restart_time(s));
        let deadlines = with_deadlines(
            without(st.deadlines, OfSession(session)),
            session,
            ends,
            lookup(st.llgr_caps, session),
            stale_times(s),
        );
        (RouterState {
            windows: st.windows.insert(
                session,
                RestartWindow { expires_ms: ends, marked_stale: false },
            ),
            deadlines,
            refreshed: without(st.refreshed, OfSession(session)),
            ..cleared
        }).log(
            LogEntry::RetentionEntered {
                session,
                restart_secs: restart_time(s) as u32,
                families: List::of(gather(keys_where(deadlines, OfSession(session)), family_of())),
            },
        )
    }
}

/// The reselection of a path's destination.
pub open spec fn reselection() -> spec_fn(PathKey) -> Seq<Task> {
    |k: PathKey| seq![Task::Reselect { key: k.1.0 }]
}

/// A session's routes leave, those retained as received too; the destinations
/// of those admitted are reselected.
pub open spec fn after_cleanup(st: RouterState, session: u64) -> RouterState {
    let affected = keys_where(st.adj_in, OfBgpPeer(session));
    let forgotten = RouterState {
        pre_policy: without(st.pre_policy, OfBgpPeer(session)),
        screened: without(st.screened, OfBgpPeer(session)),
        adj_out: without(st.adj_out, OfBgpPeer(session)),
        ..st
    };
    if affected.len() == 0 {
        forgotten
    } else {
        (RouterState {
            adj_in: without(st.adj_in, OfBgpPeer(session)),
            limits: less_by(st.limits, session, affected.len()),
            ..forgotten
        }).schedule(
            gather(affected, reselection()) + seq![
                Task::Report(RouterEvent::Log(LogEntry::SessionPurged { session })),
            ],
        )
    }
}

/// The attributes with a community.
pub open spec fn with_community(a: Attributes, community: u32) -> Attributes {
    if a.communities.seq().contains(community) {
        a
    } else {
        Attributes { communities: List::of(a.communities.seq().push(community)), ..a }
    }
}

/// Paths of a session that it did not advertise anew, by the state kept about
/// it.
pub open spec fn unrefreshed(
    refreshed: Map<(u64, (RouteKey, u32)), ()>,
    session: u64,
    k: PathKey,
) -> bool {
    OfBgpPeer(session).accepts(k) && !refreshed.contains_key((session, k.1))
}

/// What becomes of a path when its session's restart time ends: a path that
/// was not advertised anew becomes stale if its family is protected and the
/// path does not object, else it is dropped.
pub open spec fn stale_fate(
    refreshed: Map<(u64, (RouteKey, u32)), ()>,
    deadlines: Map<(u64, NlriFamily), u64>,
    session: u64,
    k: PathKey,
    r: Route,
) -> Option<Route> {
    if !unrefreshed(refreshed, session, k) {
        Some(r)
    } else if r.attributes.communities.seq().contains(NO_LLGR) || !deadlines.contains_key(
        (session, r.key.family),
    ) {
        None
    } else {
        Some(Route { attributes: with_community(r.attributes, LLGR_STALE), ..r })
    }
}

/// Paths of a session that it did not advertise anew.
pub struct Unrefreshed<'a> {
    pub session: u64,
    pub refreshed: &'a OrdMap<(u64, (RouteKey, u32)), ()>,
}

impl<'a> KeyTest<PathKey> for Unrefreshed<'a> {
    open spec fn accepts(&self, k: PathKey) -> bool {
        unrefreshed(self.refreshed@, self.session, k)
    }

    fn test(&self, k: &PathKey) -> (b: bool) {
        OfBgpPeer(self.session).test(k) && !self.refreshed.contains_key(&(self.session, k.1))
    }
}

/// The end of a session's restart time, for the paths it contributed.
pub struct Staleness<'a> {
    pub session: u64,
    pub refreshed: &'a OrdMap<(u64, (RouteKey, u32)), ()>,
    pub deadlines: &'a OrdMap<(u64, NlriFamily), u64>,
}

impl<'a> Fate<PathKey, Route> for Staleness<'a> {
    open spec fn fate(&self, k: PathKey, r: Route) -> Option<Route> {
        stale_fate(self.refreshed@, self.deadlines@, self.session, k, r)
    }

    fn decide(&self, k: &PathKey, r: &Route) -> (d: Option<Route>) {
        if !OfBgpPeer(self.session).test(k) || self.refreshed.contains_key(&(self.session, k.1)) {
            Some(r.dup())
        } else if r.attributes.communities.contains(&NO_LLGR) || !self.deadlines.contains_key(
            &(self.session, r.key.family),
        ) {
            None
        } else {
            let mut s = r.dup();
            if !s.attributes.communities.contains(&LLGR_STALE) {
                let mut v = s.attributes.communities.to_vec();
                v.push(LLGR_STALE);
                s.attributes.communities = List::from_vec(v);
            }
            Some(s)
        }
    }
}

/// The key of a path that was not advertised anew.
pub open spec fn stale_key(
    refreshed: Map<(u64, (RouteKey, u32)), ()>,
    session: u64,
) -> spec_fn((PathKey, Route)) -> Seq<PathKey> {
    |e: (PathKey, Route)| one_if(unrefreshed(refreshed, session, e.0), e.0)
}

/// A path that is dropped when its session's restart time ends.
pub open spec fn dropped_key(
    refreshed: Map<(u64, (RouteKey, u32)), ()>,
    deadlines: Map<(u64, NlriFamily), u64>,
    session: u64,
) -> spec_fn((PathKey, Route)) -> Seq<PathKey> {
    |e: (PathKey, Route)|
        one_if(stale_fate(refreshed, deadlines, session, e.0, e.1) is None, e.0)
}

/// The reselection of a stale path's destination, and its withdrawal from the
/// sessions that do not retain it.
pub open spec fn stale_tasks() -> spec_fn(PathKey) -> Seq<Task> {
    |k: PathKey|
        seq![Task::Reselect { key: k.1.0 }, Task::WithdrawStale { key: k.1.0 }]
}

/// A session's long-lived retention begins.
pub open spec fn after_enter_llgr(st: RouterState, session: u64) -> RouterState {
    let affected = gather(sorted(st.adj_in), stale_key(st.refreshed, session));
    let dropped = gather(sorted(st.adj_in), dropped_key(st.refreshed, st.deadlines, session));
    (RouterState {
        adj_in: Map::new(
            |k: PathKey|
                st.adj_in.contains_key(k) && stale_fate(
                    st.refreshed,
                    st.deadlines,
                    session,
                    k,
                    st.adj_in[k],
                ) is Some,
            |k: PathKey|
                stale_fate(st.refreshed, st.deadlines, session, k, st.adj_in[k])->Some_0,
        ),
        limits: less_by(st.limits, session, dropped.len()),
        ..st
    }).schedule(
        gather(affected, stale_tasks()) + one_if(
            affected.len() > 0,
            Task::Report(
                RouterEvent::Log(
                    LogEntry::StaleEntered { session, routes: affected.len() as usize },
                ),
            ),
        ),
    )
}

/// The purge of a path of a family that was not advertised anew.
pub open spec fn purge_task(
    refreshed: Map<(u64, (RouteKey, u32)), ()>,
    session: u64,
    family: NlriFamily,
) -> spec_fn((PathKey, Route)) -> Seq<Task> {
    |e: (PathKey, Route)|
        one_if(
            unrefreshed(refreshed, session, e.0) && e.0.1.0.family == family,
            Task::PurgePath { origin: e.0.0, key: e.0.1.0, path_id: e.0.1.1 },
        )
}

/// A path of another family that was not advertised anew.
pub open spec fn outstanding(
    refreshed: Map<(u64, (RouteKey, u32)), ()>,
    session: u64,
    family: NlriFamily,
) -> spec_fn((PathKey, Route)) -> Seq<PathKey> {
    |e: (PathKey, Route)|
        one_if(unrefreshed(refreshed, session, e.0) && e.0.1.0.family != family, e.0)
}

/// Whether retention goes on for a session when it ends for a family: another
/// one has a deadline, or paths that were not advertised anew.
pub open spec fn goes_on(st: RouterState, session: u64, family: NlriFamily) -> bool {
    any_key(st.deadlines.remove((session, family)), OfSession(session)) || gather(
        sorted(st.adj_in),
        outstanding(st.refreshed, session, family),
    ).len() > 0
}

/// Retention ends for a family of a session: what was not advertised anew is
/// purged. With its last family the session's retention ends.
pub open spec fn after_family_end(
    st: RouterState,
    session: u64,
    family: NlriFamily,
    entry: LogEntry,
) -> RouterState {
    if !st.windows.contains_key(session) {
        st
    } else {
        let deadlines = st.deadlines.remove((session, family));
        let purges = gather(sorted(st.adj_in), purge_task(st.refreshed, session, family));
        let ended = if goes_on(st, session, family) {
            RouterState { deadlines, ..st }
        } else {
            RouterState {
                deadlines,
                windows: st.windows.remove(session),
                refreshed: without(st.refreshed, OfSession(session)),
                ..st
            }
        };
        ended.schedule(
            purges + one_if(
                purges.len() > 0,
                Task::Report(
                    RouterEvent::Log(
                        LogEntry::Resynchronised { session, family, purged: purges.len() as usize },
                    ),
                ),
            ) + seq![Task::Report(RouterEvent::Log(entry))],
        )
    }
}

/// A peer finished sending a family.
pub open spec fn after_end_of_rib(st: RouterState, session: u64, family: NlriFamily) -> RouterState {
    after_family_end(st, session, family, LogEntry::EndOfRib { session, family })
}

/// A family's long-lived stale time ended.
pub open spec fn after_deadline(st: RouterState, session: u64, family: NlriFamily) -> RouterState {
    after_family_end(st, session, family, LogEntry::StaleExpired { session, family })
}

/// A restart window that ended.
pub open spec fn expired_window(now_ms: u64) -> spec_fn((u64, RestartWindow)) -> Seq<Task> {
    |e: (u64, RestartWindow)|
        one_if(
            !e.1.marked_stale && e.1.expires_ms <= now_ms,
            Task::WindowExpired { session: e.0 },
        )
}

/// Restart windows that ended are acted upon, then long-lived deadlines.
pub open spec fn after_windows(st: RouterState) -> RouterState {
    st.schedule(
        gather(sorted(st.windows), expired_window(st.now_ms)) + seq![Task::LongLivedDeadlines],
    )
}

/// Whether a session's establishment was acted upon.
pub open spec fn latched(s: Option<Session>) -> bool {
    match bgp_of(s) {
        Some(b) => b.established,
        None => false,
    }
}

/// A session's restart time ended. Without long-lived retention its routes
/// are purged, unless it is back and resynchronising; with it, they become
/// stale.
pub open spec fn after_window(st: RouterState, session: u64) -> RouterState {
    if !st.windows.contains_key(session) {
        st
    } else {
        let marked = RouterState {
            windows: st.windows.insert(
                session,
                RestartWindow { marked_stale: true, ..st.windows[session] },
            ),
            ..st
        };
        if any_key(st.deadlines, OfSession(session)) {
            after_enter_llgr(marked, session)
        } else if latched(st.session(session)) {
            marked
        } else {
            after_cleanup(
                (RouterState {
                    windows: st.windows.remove(session),
                    refreshed: without(st.refreshed, OfSession(session)),
                    ..st
                }).schedule(
                    seq![
                        Task::Report(RouterEvent::Log(LogEntry::RetentionExpired { session })),
                    ],
                ),
                session,
            )
        }
    }
}

/// A long-lived deadline that passed.
pub open spec fn expired_deadline(windows: Map<u64, RestartWindow>, now_ms: u64) -> spec_fn(
    ((u64, NlriFamily), u64),
) -> Seq<Task> {
    |e: ((u64, NlriFamily), u64)|
        one_if(
            windows.contains_key(e.0.0) && windows[e.0.0].marked_stale && e.1 <= now_ms,
            Task::DeadlineExpired { session: e.0.0, family: e.0.1 },
        )
}

/// Long-lived deadlines that passed are acted upon.
pub open spec fn after_deadlines(st: RouterState) -> RouterState {
    st.schedule(gather(sorted(st.deadlines), expired_deadline(st.windows, st.now_ms)))
}

/// The import hooks run again on a retained route.
pub open spec fn reimport(now_ms: u64) -> spec_fn(Route) -> Seq<Task> {
    |r: Route|
        seq![Task::RunImport { route: Route { age_ms: now_ms, ..r }, reconfig: true }]
}

/// Destinations added to those touched.
pub open spec fn touching(touched: Map<RouteKey, ()>, paths: Seq<PathKey>) -> Map<RouteKey, ()>
    decreases paths.len(),
{
    if paths.len() == 0 {
        touched
    } else {
        touching(touched, paths.drop_last()).insert(paths.last().1.0, ())
    }
}

/// The retained routes of a session replace its contribution: the import
/// hooks run again on each that reached them before. What the checks ahead of
/// the hooks refused stays refused.
pub open spec fn after_reconfig(st: RouterState, session: u64) -> RouterState {
    let raw = values_where(st.screened, OfBgpPeer(session));
    if !any_key(st.pre_policy, OfBgpPeer(session)) {
        st
    } else {
        (RouterState {
            touched: touching(
                st.touched,
                keys_where(st.adj_in, OfBgpPeer(session)),
            ),
            adj_in: without(st.adj_in, OfBgpPeer(session)),
            ..st
        }).schedule(
            gather(raw, reimport(st.now_ms)) + seq![
                Task::FinishReconfig { session, count: raw.len() as usize },
            ],
        )
    }
}

/// The reselection of a touched destination.
pub open spec fn touched_task() -> spec_fn((RouteKey, ())) -> Seq<Task> {
    |e: (RouteKey, ())| seq![Task::Reselect { key: e.0 }]
}

/// Everything a reconfiguration touched is reselected.
pub open spec fn after_finish_reconfig(st: RouterState, session: u64, routes: usize) -> RouterState {
    (RouterState { touched: Map::empty(), ..st }).schedule(
        gather(sorted(st.touched), touched_task()) + seq![Task::Recount { session, count: routes }],
    )
}

/// The size of a session's contribution is its count.
pub open spec fn after_recount(st: RouterState, session: u64, routes: usize) -> RouterState {
    let n = keys_where(st.adj_in, OfBgpPeer(session)).len();
    (RouterState {
        limits: if st.limits.contains_key(session) {
            st.limits.insert(
                session,
                LimitState { count: (n % 0x1_0000_0000) as u32, ..st.limits[session] },
            )
        } else {
            st.limits
        },
        ..st
    }).log(LogEntry::SoftReconfig { session, routes })
}

/// Adds the deadlines of a session's families.
fn add_deadlines(
    deadlines: &mut OrdMap<(u64, NlriFamily), u64>,
    session: u64,
    restart_ends: u64,
    cap: Option<u32>,
    l: &List<(NlriFamily, u32)>,
)
    ensures
        final(deadlines)@ == with_deadlines(old(deadlines)@, session, restart_ends, cap, *l),
    decreases *l,
{
    if let List::Cons(e, rest) = l {
        let secs: u32 = match cap {
            Some(c) => {
                if e.1 < c {
                    e.1
                } else {
                    c
                }
            },
            None => e.1,
        };
        let span: u64 = secs as u64 * 1000;
        let at: u64 = if span > u64::MAX - restart_ends {
            u64::MAX
        } else {
            restart_ends + span
        };
        deadlines.insert((session, e.0), at);
        add_deadlines(deadlines, session, restart_ends, cap, rest);
    }
}

/// Takes `n` off a session's contribution.
fn take_off(limits: &mut OrdMap<u64, LimitState>, session: u64, n: usize)
    ensures
        final(limits)@ == less_by(old(limits)@, session, n as nat),
{
    let found: Option<LimitState> = match limits.get(&session) {
        Some(l) => Some(*l),
        None => None,
    };
    if let Some(l) = found {
        let m: u32 = (n as u64 % 0x1_0000_0000) as u32;
        let count: u32 = if l.count >= m {
            l.count - m
        } else {
            0
        };
        limits.insert(session, LimitState { count, ..l });
    }
}

/// Lists what becomes of stale paths' destinations, and the report.
fn list_stale_tasks(session: u64, affected: &Vec<PathKey>) -> (tasks: Vec<Task>)
    ensures
        tasks@ == gather(affected@, stale_tasks()) + one_if(
            affected@.len() > 0,
            Task::Report(
                RouterEvent::Log(
                    LogEntry::StaleEntered { session, routes: affected@.len() as usize },
                ),
            ),
        ),
{
    let mut tasks: Vec<Task> = Vec::new();
    let ghost h = stale_tasks();
    proof {
        gather_whole(affected@, h);
    }
    let mut j: usize = 0;
    while j < affected.len()
        invariant
            j <= affected@.len(),
            h == stale_tasks(),
            tasks@ == gather(affected@.take(j as int), h),
        decreases affected@.len() - j,
    {
        proof {
            gather_step(affected@, j as int, h);
        }
        let ghost before = tasks@;
        tasks.push(Task::Reselect { key: affected[j].1.0 });
        tasks.push(Task::WithdrawStale { key: affected[j].1.0 });
        assert(tasks@ =~= before + h(affected@[j as int]));
        j = j + 1;
    }
    let ghost before = tasks@;
    let last = LogEntry::StaleEntered { session, routes: affected.len() };
    if affected.len() > 0 {
        tasks.push(Task::Report(RouterEvent::Log(last)));
    }
    assert(tasks@ =~= before + one_if(
        affected@.len() > 0,
        Task::Report(RouterEvent::Log(last)),
    ));
    tasks
}

impl DefaultRouter {
    /// A session goes down.
    pub fn teardown_bgp_session(&mut self, session: u64)
        ensures
            final(self)@ == after_teardown(old(self)@, session),
    {
        let ghost start = self@;
        drop_keys(&mut self.mrai_last, &OfSession(session));
        drop_keys(&mut self.mrai_pending, &OfSession(session));
        drop_keys(&mut self.adj_out, &OfBgpPeer(session));
        if let Some(l) = self.limits.get(&session) {
            let l = LimitState { exceeded: false, warned: false, count: l.count };
            self.limits.insert(session, l);
        }
        self.records.remove(&session);
        self.partial_transit.remove(&session);
        assert(self@ == outbound_cleared(start, session));
        let (secs, times): (u16, List<(NlriFamily, u32)>) = match self.bgp(session) {
            Some(b) => (
                b.status.restart_secs,
                if b.status.long_lived {
                    b.status.stale_secs.dup()
                } else {
                    List::Nil
                },
            ),
            None => (0, List::Nil),
        };
        if secs == 0 && times.is_empty() {
            self.session_down_cleanup(session);
            return;
        }
        if let Some(w) = self.windows.get(&session) {
            if !w.marked_stale || has_accepted(&self.deadlines, &OfSession(session)) {
                return;
            }
        }
        let span: u64 = secs as u64 * 1000;
        let ends: u64 = if span > u64::MAX - self.now_ms {
            u64::MAX
        } else {
            self.now_ms + span
        };
        let cap: Option<u32> = match self.llgr_caps.get(&session) {
            Some(c) => Some(*c),
            None => None,
        };
        drop_keys(&mut self.deadlines, &OfSession(session));
        add_deadlines(&mut self.deadlines, session, ends, cap, &times);
        drop_keys(&mut self.refreshed, &OfSession(session));
        self.windows.insert(session, RestartWindow { expires_ms: ends, marked_stale: false });
        let keys = find_keys(&self.deadlines, &OfSession(session));
        let mut families: Vec<NlriFamily> = Vec::new();
        let ghost f = family_of();
        proof {
            gather_whole(keys@, f);
        }
        let mut i: usize = 0;
        while i < keys.len()
            invariant
                i <= keys@.len(),
                f == family_of(),
                families@ == gather(keys@.take(i as int), f),
            decreases keys@.len() - i,
        {
            proof {
                gather_step(keys@, i as int, f);
            }
            families.push(keys[i].1);
            i = i + 1;
        }
        self.log(
            LogEntry::RetentionEntered {
                session,
                restart_secs: secs as u32,
                families: List::from_vec(families),
            },
        );
    }

    /// Purges a session's routes.
    pub fn session_down_cleanup(&mut self, session: u64)
        ensures
            final(self)@ == after_cleanup(old(self)@, session),
    {
        let affected = find_keys(&self.adj_in, &OfBgpPeer(session));
        drop_keys(&mut self.pre_policy, &OfBgpPeer(session));
        drop_keys(&mut self.screened, &OfBgpPeer(session));
        drop_keys(&mut self.adj_out, &OfBgpPeer(session));
        if affected.len() == 0 {
            return;
        }
        take_off(&mut self.limits, session, affected.len());
        drop_keys(&mut self.adj_in, &OfBgpPeer(session));
        let mut tasks: Vec<Task> = Vec::new();
        let ghost f = reselection();
        proof {
            gather_whole(affected@, f);
        }
        let mut i: usize = 0;
        while i < affected.len()
            invariant
                i <= affected@.len(),
                f == reselection(),
                tasks@ == gather(affected@.take(i as int), f),
            decreases affected@.len() - i,
        {
            proof {
                gather_step(affected@, i as int, f);
            }
            tasks.push(Task::Reselect { key: affected[i].1.0 });
            i = i + 1;
        }
        let ghost before = tasks@;
        let last = Task::Report(RouterEvent::Log(LogEntry::SessionPurged { session }));
        tasks.push(last);
        assert(tasks@ =~= before + seq![last]);
        self.schedule(tasks);
    }

    /// The paths of a session that it did not advertise anew, and how many of
    /// them are dropped when its restart time ends.
    fn stale_paths(&self, session: u64) -> (r: (Vec<PathKey>, usize))
        ensures
            r.0@ == gather(sorted(self@.adj_in), stale_key(self@.refreshed, session)),
            r.1 == gather(
                sorted(self@.adj_in),
                dropped_key(self@.refreshed, self@.deadlines, session),
            ).len(),
    {
        let mut affected: Vec<PathKey> = Vec::new();
        let mut dropped: usize = 0;
        let staleness = Staleness {
            session,
            refreshed: &self.refreshed,
            deadlines: &self.deadlines,
        };
        let test = Unrefreshed { session, refreshed: &self.refreshed };
        let ghost f = stale_key(self@.refreshed, session);
        let ghost g = dropped_key(self@.refreshed, self@.deadlines, session);
        let n: usize = self.adj_in.len();
        proof {
            gather_whole(self.adj_in.entries(), f);
            gather_whole(self.adj_in.entries(), g);
        }
        let mut i: usize = 0;
        while i < n
            invariant
                i <= n == self.adj_in.entries().len(),
                dropped <= i,
                f == stale_key(self@.refreshed, session),
                g == dropped_key(self@.refreshed, self@.deadlines, session),
                staleness.session == session,
                staleness.refreshed@ == self@.refreshed,
                staleness.deadlines@ == self@.deadlines,
                test.session == session,
                test.refreshed@ == self@.refreshed,
                affected@ == gather(self.adj_in.entries().take(i as int), f),
                dropped == gather(self.adj_in.entries().take(i as int), g).len(),
            decreases n - i,
        {
            proof {
                gather_step(self.adj_in.entries(), i as int, f);
                gather_step(self.adj_in.entries(), i as int, g);
            }
            let k = self.adj_in.key_at(i);
            if staleness.decide(&k, self.adj_in.value_at(i)).is_none() {
                dropped = dropped + 1;
            }
            if test.test(&k) {
                affected.push(k);
            }
            i = i + 1;
        }
        (affected, dropped)
    }

    /// Begins a session's long-lived retention.
    pub fn enter_llgr_period(&mut self, session: u64)
        ensures
            final(self)@ == after_enter_llgr(old(self)@, session),
    {
        let ghost start = self@;
        let (affected, dropped) = self.stale_paths(session);
        let staleness = Staleness {
            session,
            refreshed: &self.refreshed,
            deadlines: &self.deadlines,
        };
        let next = reshape(&self.adj_in, &staleness);
        assert(next@ =~= after_enter_llgr(start, session).adj_in);
        self.adj_in = next;
        take_off(&mut self.limits, session, dropped);
        let tasks = list_stale_tasks(session, &affected);
        self.schedule(tasks);
    }

    /// Ends retention for a family of a session.
    fn end_family(&mut self, session: u64, family: NlriFamily, entry: LogEntry)
        ensures
            final(self)@ == after_family_end(old(self)@, session, family, entry),
    {
        if !self.windows.contains_key(&session) {
            return;
        }
        let mut tasks: Vec<Task> = Vec::new();
        let ghost f = purge_task(self@.refreshed, session, family);
        let ghost g = outstanding(self@.refreshed, session, family);
        let n: usize = self.adj_in.len();
        proof {
            gather_whole(self.adj_in.entries(), f);
            gather_whole(self.adj_in.entries(), g);
        }
        let mut others: bool = false;
        let mut i: usize = 0;
        while i < n
            invariant
                i <= n == self.adj_in.entries().len(),
                f == purge_task(self@.refreshed, session, family),
                g == outstanding(self@.refreshed, session, family),
                tasks@ == gather(self.adj_in.entries().take(i as int), f),
                others == (gather(self.adj_in.entries().take(i as int), g).len() > 0),
            decreases n - i,
        {
            proof {
                gather_step(self.adj_in.entries(), i as int, f);
                gather_step(self.adj_in.entries(), i as int, g);
            }
            let k = self.adj_in.key_at(i);
            let test = Unrefreshed { session, refreshed: &self.refreshed };
            if test.test(&k) {
                if k.1.0.family == family {
                    tasks.push(Task::PurgePath { origin: k.0, key: k.1.0, path_id: k.1.1 });
                } else {
                    others = true;
                }
            }
            i = i + 1;
        }
        let ghost purges = tasks@;
        let purged: usize = tasks.len();
        let told = LogEntry::Resynchronised { session, family, purged };
        if purged > 0 {
            tasks.push(Task::Report(RouterEvent::Log(told)));
        }
        tasks.push(Task::Report(RouterEvent::Log(entry)));
        assert(tasks@ =~= purges + one_if(
            purges.len() > 0,
            Task::Report(RouterEvent::Log(told)),
        ) + seq![Task::Report(RouterEvent::Log(entry))]);
        self.deadlines.remove(&(session, family));
        if !others && !has_accepted(&self.deadlines, &OfSession(session)) {
            self.windows.remove(&session);
            drop_keys(&mut self.refreshed, &OfSession(session));
        }
        self.schedule(tasks);
    }

    /// A peer finished sending a family.
    pub fn on_end_of_rib(&mut self, session: u64, family: NlriFamily)
        ensures
            final(self)@ == after_end_of_rib(old(self)@, session, family),
    {
        self.end_family(session, family, LogEntry::EndOfRib { session, family });
    }

    /// A family's long-lived stale time ended.
    pub fn deadline_expired(&mut self, session: u64, family: NlriFamily)
        ensures
            final(self)@ == after_deadline(old(self)@, session, family),
    {
        self.end_family(session, family, LogEntry::StaleExpired { session, family });
    }

    /// Acts on restart windows that ended.
    pub fn process_graceful_restart(&mut self)
        ensures
            final(self)@ == after_windows(old(self)@),
    {
        let mut tasks: Vec<Task> = Vec::new();
        let now: u64 = self.now_ms;
        let ghost f = expired_window(now);
        let n: usize = self.windows.len();
        proof {
            gather_whole(self.windows.entries(), f);
        }
        let mut i: usize = 0;
        while i < n
            invariant
                i <= n == self.windows.entries().len(),
                f == expired_window(now),
                tasks@ == gather(self.windows.entries().take(i as int), f),
            decreases n - i,
        {
            proof {
                gather_step(self.windows.entries(), i as int, f);
            }
            let w = self.windows.value_at(i);
            if !w.marked_stale && w.expires_ms <= now {
                tasks.push(Task::WindowExpired { session: self.windows.key_at(i) });
            }
            i = i + 1;
        }
        let ghost before = tasks@;
        tasks.push(Task::LongLivedDeadlines);
        assert(tasks@ =~= before + seq![Task::LongLivedDeadlines]);
        self.schedule(tasks);
    }

    /// Acts on a restart window that ended.
    pub fn window_expired(&mut self, session: u64)
        ensures
            final(self)@ == after_window(old(self)@, session),
    {
        let found: Option<RestartWindow> = match self.windows.get(&session) {
            Some(w) => Some(*w),
            None => None,
        };
        if let Some(w) = found {
            let back: bool = match self.bgp(session) {
                Some(b) => b.established,
                None => false,
            };
            if has_accepted(&self.deadlines, &OfSession(session)) {
                self.windows.insert(session, RestartWindow { marked_stale: true, ..w });
                self.enter_llgr_period(session);
            } else if back {
                self.windows.insert(session, RestartWindow { marked_stale: true, ..w });
            } else {
                self.windows.remove(&session);
                drop_keys(&mut self.refreshed, &OfSession(session));
                self.schedule(
                    vec![Task::Report(RouterEvent::Log(LogEntry::RetentionExpired { session }))],
                );
                self.session_down_cleanup(session);
            }
        }
    }

    /// Acts on long-lived deadlines that passed.
    pub fn process_deadlines(&mut self)
        ensures
            final(self)@ == after_deadlines(old(self)@),
    {
        let mut tasks: Vec<Task> = Vec::new();
        let now: u64 = self.now_ms;
        let ghost f = expired_deadline(self@.windows, now);
        let n: usize = self.deadlines.len();
        proof {
            gather_whole(self.deadlines.entries(), f);
        }
        let mut i: usize = 0;
        while i < n
            invariant
                i <= n == self.deadlines.entries().len(),
                f == expired_deadline(self@.windows, now),
                tasks@ == gather(self.deadlines.entries().take(i as int), f),
            decreases n - i,
        {
            proof {
                gather_step(self.deadlines.entries(), i as int, f);
            }
            let k = self.deadlines.key_at(i);
            let stale: bool = match self.windows.get(&k.0) {
                Some(w) => w.marked_stale,
                None => false,
            };
            if stale && *self.deadlines.value_at(i) <= now {
                tasks.push(Task::DeadlineExpired { session: k.0, family: k.1 });
            }
            i = i + 1;
        }
        self.schedule(tasks);
    }

    /// Runs the import hooks again on what they were run on of the routes
    /// retained from a session, and tells how many routes that are.
    pub fn soft_reconfig_inbound(&mut self, session: u64) -> (n: Result<usize, RouterError>)
        ensures
            final(self)@ == after_reconfig(old(self)@, session),
            n == Ok::<usize, RouterError>(
                if any_key(old(self)@.pre_policy, OfBgpPeer(session)) {
                    values_where(
                        old(self)@.screened,
                        OfBgpPeer(session),
                    ).len() as usize
                } else {
                    0
                },
            ),
    {
        let test = OfBgpPeer(session);
        if !has_accepted(&self.pre_policy, &test) {
            return Ok(0);
        }
        let raw = find_values(&self.screened, &test);
        let affected = find_keys(&self.adj_in, &test);
        drop_keys(&mut self.adj_in, &test);
        let ghost start = self.touched@;
        let ghost others = self@;
        let mut i: usize = 0;
        assert(affected@.take(0) == Seq::<PathKey>::empty());
        while i < affected.len()
            invariant
                i <= affected@.len(),
                self@ == (RouterState { touched: self.touched@, ..others }),
                self.touched@ == touching(start, affected@.take(i as int)),
            decreases affected@.len() - i,
        {
            assert(affected@.take(i + 1).drop_last() == affected@.take(i as int));
            self.touched.insert(affected[i].1.0, ());
            i = i + 1;
        }
        assert(affected@.take(affected@.len() as int) == affected@);
        let mut tasks: Vec<Task> = Vec::new();
        let now: u64 = self.now_ms;
        let ghost f = reimport(now);
        proof {
            gather_whole(raw@, f);
        }
        let mut j: usize = 0;
        while j < raw.len()
            invariant
                j <= raw@.len(),
                f == reimport(now),
                tasks@ == gather(raw@.take(j as int), f),
            decreases raw@.len() - j,
        {
            proof {
                gather_step(raw@, j as int, f);
            }
            let mut r = raw[j].dup();
            r.age_ms = now;
            tasks.push(Task::RunImport { route: r, reconfig: true });
            j = j + 1;
        }
        let ghost before = tasks@;
        let last = Task::FinishReconfig { session, count: raw.len() };
        tasks.push(last);
        assert(tasks@ =~= before + seq![last]);
        self.schedule(tasks);
        Ok(raw.len())
    }

    /// Reselects everything a reconfiguration touched.
    pub fn finish_reconfig(&mut self, session: u64, routes: usize)
        ensures
            final(self)@ == after_finish_reconfig(old(self)@, session, routes),
    {
        let mut tasks: Vec<Task> = Vec::new();
        let ghost f = touched_task();
        let n: usize = self.touched.len();
        proof {
            gather_whole(self.touched.entries(), f);
        }
        let mut i: usize = 0;
        while i < n
            invariant
                i <= n == self.touched.entries().len(),
                f == touched_task(),
                tasks@ == gather(self.touched.entries().take(i as int), f),
            decreases n - i,
        {
            proof {
                gather_step(self.touched.entries(), i as int, f);
            }
            tasks.push(Task::Reselect { key: self.touched.key_at(i) });
            i = i + 1;
        }
        let ghost before = tasks@;
        tasks.push(Task::Recount { session, count: routes });
        assert(tasks@ =~= before + seq![Task::Recount { session, count: routes }]);
        self.touched = OrdMap::new();
        self.schedule(tasks);
    }

    /// Takes the size of a session's contribution as its count.
    pub fn recount(&mut self, session: u64, routes: usize)
        ensures
            final(self)@ == after_recount(old(self)@, session, routes),
    {
        let n: usize = find_keys(&self.adj_in, &OfBgpPeer(session)).len();
        let found: Option<LimitState> = match self.limits.get(&session) {
            Some(l) => Some(*l),
            None => None,
        };
        if let Some(l) = found {
            let count: u32 = (n as u64 % 0x1_0000_0000) as u32;
            self.limits.insert(session, LimitState { count, ..l });
        }
        self.log(LogEntry::SoftReconfig { session, routes });
    }

    /// The routes of a session as received.
    pub fn adj_rib_in_snapshot(&self, session: u64) -> (v: Vec<Route>)
        ensures
            v@ == values_where(self@.pre_policy, OfBgpPeer(session)),
    {
        find_values(&self.pre_policy, &OfBgpPeer(session))
    }
}

/// A session that is retained already keeps its window and deadlines when it
/// is reported down again.
pub proof fn retention_keeps_its_deadlines(st: RouterState, session: u64)
    requires
        retained(st.session(session)),
    ensures
        after_teardown(after_teardown(st, session), session).windows == after_teardown(
            st,
            session,
        ).windows,
        after_teardown(after_teardown(st, session), session).deadlines == after_teardown(
            st,
            session,
        ).deadlines,
        after_teardown(after_teardown(st, session), session).adj_in == st.adj_in,
{
}

/// A path that was advertised anew is neither purged nor made stale.
pub proof fn refreshed_paths_stay(
    st: RouterState,
    session: u64,
    k: PathKey,
)
    requires
        st.adj_in.contains_key(k),
        st.refreshed.contains_key((session, k.1)),
    ensures
        after_enter_llgr(st, session).adj_in.contains_key(k),
        after_enter_llgr(st, session).adj_in[k] == st.adj_in[k],
        forall|family: NlriFamily|
            #![trigger purge_task(st.refreshed, session, family)]
            purge_task(st.refreshed, session, family)((k, st.adj_in[k])).len() == 0,
{
}

/// When a peer has finished a family, every path of it that was not advertised
/// anew is on its way out, whatever other families ended before: retention lasts
/// until no family has such paths.
pub proof fn every_family_is_resynchronised(
    st: RouterState,
    session: u64,
    family: NlriFamily,
    k: PathKey,
)
    requires
        is_table(st.adj_in),
        st.windows.contains_key(session),
        st.adj_in.contains_key(k),
        unrefreshed(st.refreshed, session, k),
    ensures
        k.1.0.family == family ==> after_end_of_rib(st, session, family).agenda.contains(
            Task::PurgePath { origin: k.0, key: k.1.0, path_id: k.1.1 },
        ),
        k.1.0.family != family ==> after_end_of_rib(st, session, family).windows.contains_key(
            session,
        ),
        k.1.0.family != family ==> after_end_of_rib(st, session, family).refreshed == st.refreshed,
{
    let s = sorted(st.adj_in);
    let i = lemma_key_position(s, k);
    lemma_entry(s, i);
    if k.1.0.family == family {
        let f = purge_task(st.refreshed, session, family);
        let x = Task::PurgePath { origin: k.0, key: k.1.0, path_id: k.1.1 };
        assert(f(s[i])[0] == x);
        gather_includes(s, f, i, x);
        let purges = gather(s, f);
        let tasks = purges + one_if(
            purges.len() > 0,
            Task::Report(
                RouterEvent::Log(
                    LogEntry::Resynchronised { session, family, purged: purges.len() as usize },
                ),
            ),
        ) + seq![Task::Report(RouterEvent::Log(LogEntry::EndOfRib { session, family }))];
        let at = purges.index_of(x);
        assert(tasks[at] == x);
        let all = st.agenda + tasks.reverse();
        assert(all[st.agenda.len() + tasks.len() - 1 - at] == x);
        assert(after_end_of_rib(st, session, family).agenda == all);
    } else {
        let g = outstanding(st.refreshed, session, family);
        assert(g(s[i])[0] == k);
        gather_includes(s, g, i, k);
        assert(goes_on(st, session, family));
    }
}

/// Once a session's restart time has ended, every path of it that was not
/// advertised anew is marked stale, of a protected family, and does not
/// object to long-lived retention.
pub proof fn stale_paths_are_marked(st: RouterState, session: u64, k: PathKey)
    requires
        after_enter_llgr(st, session).adj_in.contains_key(k),
        unrefreshed(st.refreshed, session, k),
    ensures
        after_enter_llgr(st, session).adj_in[k].attributes.communities.seq().contains(LLGR_STALE),
        !st.adj_in[k].attributes.communities.seq().contains(NO_LLGR),
        st.deadlines.contains_key((session, st.adj_in[k].key.family)),
{
    let s = st.adj_in[k].attributes.communities.seq();
    List::seq_of(s.push(LLGR_STALE));
    assert(s.push(LLGR_STALE)[s.len() as int] == LLGR_STALE);
}

/// Without retention, nothing a session contributed survives it, and nothing
/// of what was received from it or sent to it is kept.
pub proof fn unretained_routes_are_purged(st: RouterState, session: u64, k: PathKey)
    requires
        !retained(st.session(session)),
        k.0 == peer_origin(session) || k.0 == crate::router::paths::internal_origin(session),
        is_table(st.adj_in),
    ensures
        !after_teardown(st, session).adj_in.contains_key(k),
        !after_teardown(st, session).pre_policy.contains_key(k),
        !after_teardown(st, session).screened.contains_key(k),
        !after_teardown(st, session).adj_out.contains_key(k),
{
    if st.adj_in.contains_key(k) {
        crate::select::lemma_keys_where(sorted(st.adj_in), OfBgpPeer(session), k);
        let keys = keys_where(st.adj_in, OfBgpPeer(session));
        assert(keys.contains(k));
    }
}

/// A route that a check ahead of the import hooks refused is not handed to
/// them by a reconfiguration either: every import it calls for is of a path
/// that reached the hooks since it was last received.
pub proof fn refused_routes_stay_refused(st: RouterState, session: u64, r: Route)
    requires
        is_table(st.screened),
        gather(
            values_where(st.screened, OfBgpPeer(session)),
            reimport(st.now_ms),
        ).contains(Task::RunImport { route: r, reconfig: true }),
    ensures
        exists|k: PathKey| #[trigger]
            st.screened.contains_key(k) && OfBgpPeer(session).accepts(k) && r == (Route {
                age_ms: st.now_ms,
                ..st.screened[k]
            }),
{
    let t = OfBgpPeer(session);
    let raw = values_where(st.screened, t);
    let f = reimport(st.now_ms);
    let i = gather_source(raw, f, Task::RunImport { route: r, reconfig: true });
    let g = accepted_value::<PathKey, Route, OfBgpPeer>(t);
    assert(raw.contains(raw[i]));
    let j = gather_source(sorted(st.screened), g, raw[i]);
    lemma_entry(sorted(st.screened), j);
    assert(st.screened.contains_key(sorted(st.screened)[j].0));
}

/// A received route is no longer taken for one that reached the import hooks
/// until it passes the checks again: what a check leaves off the agenda is not
/// marked.
pub proof fn received_routes_are_screened_anew(
    st: RouterState,
    route: Route,
    verdict: Option<Violation>,
)
    requires
        retains(st, route.origin.peer),
    ensures
        !after_import(st, route).screened.contains_key(
            (route.origin, (route.key, route.path_id)),
        ),
        after_import(st, route).pre_policy[(route.origin, (route.key, route.path_id))] == route,
        after_safety(st, route, verdict).screened == st.screened,
        after_screen(st, route).agenda == st.agenda ==> after_screen(st, route).screened
            == st.screened,
{
    let run = seq![
        Task::RunImport { route: Route { age_ms: st.now_ms, ..route }, reconfig: false },
    ];
    assert((st.agenda + run.reverse()).len() == st.agenda.len() + 1);
}

/// Restart windows are acted upon exactly when their time has come.
pub proof fn windows_end_on_time(st: RouterState, session: u64)
    requires
        is_table(st.windows),
    ensures
        gather(sorted(st.windows), expired_window(st.now_ms)).contains(
            Task::WindowExpired { session },
        ) == (st.windows.contains_key(session) && !st.windows[session].marked_stale
            && st.windows[session].expires_ms <= st.now_ms),
{
    let f = expired_window(st.now_ms);
    let s = sorted(st.windows);
    let t = Task::WindowExpired { session };
    if gather(s, f).contains(t) {
        let i = gather_source(s, f, t);
        assert(f(s[i]).contains(t));
        lemma_entry(s, i);
    }
    if st.windows.contains_key(session) {
        let i = lemma_key_position(s, session);
        lemma_entry(s, i);
        if f(s[i]).len() > 0 {
            assert(f(s[i])[0] == t);
            gather_includes(s, f, i, t);
        }
    }
}

/// Long-lived deadlines are acted upon exactly when their time has come, and
/// not before the restart time has ended.
pub proof fn deadlines_end_on_time(st: RouterState, session: u64, family: NlriFamily)
    requires
        is_table(st.deadlines),
    ensures
        gather(sorted(st.deadlines), expired_deadline(st.windows, st.now_ms)).contains(
            Task::DeadlineExpired { session, family },
        ) == (st.deadlines.contains_key((session, family)) && st.deadlines[(session, family)]
            <= st.now_ms && st.windows.contains_key(session)
            && st.windows[session].marked_stale),
{
    let f = expired_deadline(st.windows, st.now_ms);
    let s = sorted(st.deadlines);
    let t = Task::DeadlineExpired { session, family };
    if gather(s, f).contains(t) {
        let i = gather_source(s, f, t);
        assert(f(s[i]).contains(t));
        lemma_entry(s, i);
    }
    if st.deadlines.contains_key((session, family)) {
        let i = lemma_key_position(s, (session, family));
        lemma_entry(s, i);
        if f(s[i]).len() > 0 {
            assert(f(s[i])[0] == t);
            gather_includes(s, f, i, t);
        }
    }
}

} // verus!
