//! The import pipeline: from a received route to the Adj-RIB-In.

use crate::addr::Prefix;
use crate::events::{LogEntry, MaxPrefixAction, RouterEvent, Violation};
use crate::list::List;
use crate::ordmap::{lookup, OrdMap};
use crate::route::{AsSegment, Protocol, RecordKind, RecordStore, Route, RouteKey, RouteOrigin};
use crate::route::ORIGIN_EBGP;
use crate::router::{DefaultRouter, LimitState, RouterState, SessionPolicy};
use crate::seqs::{gather, gather_source, gather_step, gather_whole, one_if};
use crate::session::{bgp_of, BgpSession, Session};
use crate::task::{BgpAction, PeerEvent, Task};
use crate::value::Value;
use vstd::prelude::*;

verus! {

/// Subcode of a Cease notification: too many prefixes.
pub const CEASE_MAXIMUM_PREFIXES: u8 = 1;

/// Kind of an ordered AS path segment.
pub const AS_SEQUENCE: u8 = 2;

/// Kind of an ordered AS path segment inside a confederation.
pub const AS_CONFED_SEQUENCE: u8 = 3;

/// A session for which no policy was declared and nothing reported.
#[verifier::allow_in_spec]
pub fn no_policy() -> SessionPolicy
    returns
        (SessionPolicy {
            has_import: false,
            has_export: false,
            warned_import: false,
            warned_export: false,
            warned_first_as: false,
        }),
{
    SessionPolicy {
        has_import: false,
        has_export: false,
        warned_import: false,
        warned_export: false,
        warned_first_as: false,
    }
}

/// A session that contributed nothing yet.
#[verifier::allow_in_spec]
pub fn no_limit_state() -> LimitState
    returns
        (LimitState { exceeded: false, warned: false, count: 0 }),
{
    LimitState { exceeded: false, warned: false, count: 0 }
}

/// What is kept about a session's policy.
pub open spec fn policy_of(policy: Map<u64, SessionPolicy>, session: u64) -> SessionPolicy {
    match lookup(policy, session) {
        Some(p) => p,
        None => no_policy(),
    }
}

/// What is kept about a session's contribution.
pub open spec fn limit_of(limits: Map<u64, LimitState>, session: u64) -> LimitState {
    match lookup(limits, session) {
        Some(l) => l,
        None => no_limit_state(),
    }
}

/// Whether a session exchanges routes only under a declared policy.
pub open spec fn needs_policy(st: RouterState, session: u64) -> bool {
    st.settings.ebgp_requires_policy && match bgp_of(st.session(session)) {
        Some(b) => b.config.external,
        None => false,
    }
}

/// Whether everything a session sends is discarded for want of a policy.
pub open spec fn denies_import(st: RouterState, session: u64) -> bool {
    needs_policy(st, session) && !policy_of(st.policy, session).has_import
}

/// Whether a session is told nothing for want of a policy.
pub open spec fn denies_export(st: RouterState, session: u64) -> bool {
    needs_policy(st, session) && !policy_of(st.policy, session).has_export
}

/// Whether a route came from an external BGP peer.
pub open spec fn from_external(route: Route) -> bool {
    route.protocol == Protocol::Bgp && route.origin.proto == ORIGIN_EBGP
}

/// Whether routes of a session are retained as received.
pub open spec fn retains(st: RouterState, session: u64) -> bool {
    match bgp_of(st.session(session)) {
        Some(b) => b.config.soft_reconfig_inbound,
        None => false,
    }
}

/// How often `asn` occurs in a sequence of AS numbers.
pub open spec fn asn_count(s: Seq<u32>, asn: u32) -> nat
    decreases s.len(),
{
    if s.len() == 0 {
        0
    } else {
        asn_count(s.drop_first(), asn) + (if s[0] == asn {
            1nat
        } else {
            0nat
        })
    }
}

/// How often `asn` occurs in an AS path, in segments of every kind.
pub open spec fn path_count(path: Seq<AsSegment>, asn: u32) -> nat
    decreases path.len(),
{
    if path.len() == 0 {
        0
    } else {
        asn_count(path[0].asns.seq(), asn) + path_count(path.drop_first(), asn)
    }
}

/// A count capped to what a counter holds.
pub open spec fn counted(n: nat) -> u32 {
    if n > u32::MAX {
        u32::MAX
    } else {
        n as u32
    }
}

/// How often the local AS of its session occurs in a route's path.
pub open spec fn local_as_count(st: RouterState, route: Route) -> u32 {
    match (bgp_of(st.session(route.origin.peer)), route.attributes.as_path) {
        (Some(b), Some(path)) => counted(path_count(path.seq(), b.config.local_as)),
        _ => 0,
    }
}

/// The first AS of a path: that of its leftmost segment that is not an empty
/// sequence. A set on the left has no first AS.
pub open spec fn first_as(path: Seq<AsSegment>) -> Option<u32>
    decreases path.len(),
{
    if path.len() == 0 {
        None
    } else if path[0].kind != AS_SEQUENCE && path[0].kind != AS_CONFED_SEQUENCE {
        None
    } else if path[0].asns.seq().len() > 0 {
        Some(path[0].asns.seq()[0])
    } else {
        first_as(path.drop_first())
    }
}

/// The first AS of a route and its peer's AS, when they differ.
pub open spec fn forged_first_as(st: RouterState, route: Route) -> Option<(u32, u32)> {
    match (bgp_of(st.session(route.origin.peer)), route.attributes.as_path) {
        (Some(b), Some(path)) => match first_as(path.seq()) {
            Some(first) => if first == b.config.peer_as {
                None
            } else {
                Some((first, b.config.peer_as))
            },
            None => None,
        },
        _ => None,
    }
}

/// The first stage of import: retention as received, in place of an earlier
/// instance of the path, the policy requirement, then the safety net where
/// there is one.
pub open spec fn after_import(st: RouterState, route: Route) -> RouterState {
    let session = route.origin.peer;
    let kept = if retains(st, session) {
        RouterState {
            pre_policy: st.pre_policy.insert((route.origin, (route.key, route.path_id)), route),
            screened: st.screened.remove((route.origin, (route.key, route.path_id))),
            ..st
        }
    } else {
        st
    };
    if denies_import(st, session) {
        let p = policy_of(st.policy, session);
        if p.warned_import {
            kept
        } else {
            (RouterState {
                policy: st.policy.insert(session, SessionPolicy { warned_import: true, ..p }),
                ..kept
            }).log(LogEntry::NoImportPolicy { session, prefix: route.key.prefix })
        }
    } else if st.settings.safety {
        kept.schedule(seq![Task::CheckSafety { route }])
    } else {
        kept.schedule(seq![Task::Screen { route }])
    }
}

/// What the safety net's verdict leads to. A loop through the local AS is
/// tolerated from an external peer up to the peer's tolerance.
pub open spec fn after_safety(st: RouterState, route: Route, v: Option<Violation>) -> RouterState {
    let tolerance = match bgp_of(st.session(route.origin.peer)) {
        Some(b) => b.config.local_as_tolerance,
        None => 0,
    };
    match v {
        None => st.schedule(seq![Task::Screen { route }]),
        Some(violation) => if violation is AsLoop && from_external(route) && tolerance > 0 {
            let count = local_as_count(st, route);
            if count <= tolerance {
                st.schedule(seq![Task::Screen { route }])
            } else {
                st.log(
                    LogEntry::LocalAsExceeded { prefix: route.key.prefix, count, tolerance },
                )
            }
        } else {
            st.log(LogEntry::SafetyRejected { prefix: route.key.prefix, violation })
        },
    }
}

/// The check of the first AS, then the import hooks on the route with its age
/// set; where routes are retained, it is noted that this one got so far. A
/// refusal is reported once per session.
pub open spec fn after_screen(st: RouterState, route: Route) -> RouterState {
    let session = route.origin.peer;
    let forged = if st.settings.enforce_first_as && from_external(route) {
        forged_first_as(st, route)
    } else {
        None
    };
    match forged {
        Some((first, peer_as)) => {
            let p = policy_of(st.policy, session);
            if p.warned_first_as {
                st
            } else {
                (RouterState {
                    policy: st.policy.insert(session, SessionPolicy { warned_first_as: true, ..p }),
                    ..st
                }).log(
                    LogEntry::FirstAsRejected {
                        session,
                        prefix: route.key.prefix,
                        first,
                        peer_as,
                    },
                )
            }
        },
        None => (RouterState {
            screened: if retains(st, session) {
                st.screened.insert((route.origin, (route.key, route.path_id)), route)
            } else {
                st.screened
            },
            ..st
        }).schedule(
            seq![
                Task::RunImport { route: Route { age_ms: st.now_ms, ..route }, reconfig: false },
            ],
        ),
    }
}

/// A route enters the Adj-RIB-In as the import hooks left it. A path that was
/// there already is replaced and not counted twice.
pub open spec fn after_hooks(
    st: RouterState,
    raw: Route,
    hooked: Option<Route>,
    reconfig: bool,
) -> RouterState {
    match hooked {
        None => st,
        Some(route) => {
            let path = (route.origin, (route.key, route.path_id));
            let session = if reconfig {
                raw.origin.peer
            } else {
                route.origin.peer
            };
            let admitted = RouterState {
                refreshed: if st.windows.contains_key(session) {
                    st.refreshed.insert((session, (route.key, route.path_id)), ())
                } else {
                    st.refreshed
                },
                adj_in: st.adj_in.insert(path, route),
                ..st
            };
            if reconfig {
                RouterState { touched: st.touched.insert(route.key, ()), ..admitted }
            } else {
                let l = limit_of(st.limits, session);
                (RouterState {
                    limits: if st.adj_in.contains_key(path) {
                        st.limits
                    } else {
                        st.limits.insert(
                            session,
                            LimitState { count: counted(l.count as nat + 1), ..l },
                        )
                    },
                    ..admitted
                }).schedule(
                    seq![
                        Task::Reselect { key: route.key },
                        Task::CheckLimit { session },
                        Task::NoteRecords {
                            session,
                            key: route.key,
                            store: raw.attributes.records,
                        },
                    ],
                )
            }
        },
    }
}

/// The number of prefixes at which an early warning is due.
pub open spec fn warning_count(limit: u32, pct: u8) -> int {
    (limit as int * pct as int / 100) % 0x1_0000_0000
}

/// The early warning of a prefix limit, once.
pub open spec fn after_warning(st: RouterState, session: u64, limit: u32, pct: u8) -> RouterState {
    let l = limit_of(st.limits, session);
    if pct > 0 && l.count > 0 && l.count >= warning_count(limit, pct) && l.count < limit
        && !l.warned {
        (RouterState {
            limits: st.limits.insert(session, LimitState { warned: true, ..l }),
            ..st
        }).report(
            RouterEvent::MaxPrefixThreshold { session, count: l.count, limit, pct },
        )
    } else {
        st
    }
}

/// A task, unless it carries out what a session's state machine asked for.
pub open spec fn unless_asked(session: u64) -> spec_fn(Task) -> Seq<Task> {
    |t: Task|
        match t {
            Task::Act { session: s, .. } => one_if(s != session, t),
            Task::NoteRecords { session: s, .. } => one_if(s != session, t),
            _ => seq![t],
        }
}

/// The consequences of a prefix limit, once. Other actions than a warning
/// close the session with a Cease notification; what its state machine still
/// asks for is dropped.
pub open spec fn after_limit(
    st: RouterState,
    session: u64,
    limit: u32,
    action: MaxPrefixAction,
) -> RouterState {
    let l = limit_of(st.limits, session);
    if l.count > limit && !l.exceeded {
        let told = (RouterState {
            limits: st.limits.insert(session, LimitState { exceeded: true, ..l }),
            ..st
        }).report(RouterEvent::MaxPrefixExceeded { session, count: l.count, limit, action }).log(
            LogEntry::PrefixLimit { session, count: l.count, limit, action },
        );
        if action == MaxPrefixAction::Warn {
            told
        } else {
            (RouterState { agenda: gather(told.agenda, unless_asked(session)), ..told }).schedule(
                seq![
                    Task::Notify { session, subcode: CEASE_MAXIMUM_PREFIXES },
                    Task::StepPeer { session, event: PeerEvent::Stop },
                ],
            )
        }
    } else {
        st
    }
}

/// A session's prefix limit after its contribution changed.
pub open spec fn after_check_limit(st: RouterState, session: u64) -> RouterState {
    match bgp_of(st.session(session)) {
        Some(b) => match b.config.maximum_prefix {
            Some(limit) => after_limit(
                after_warning(st, session, limit, b.config.maximum_prefix_threshold),
                session,
                limit,
                b.config.maximum_prefix_action,
            ),
            None => st,
        },
        None => st,
    }
}

/// A list of record sets without those of a prefix.
pub open spec fn forget(
    l: List<(Prefix, RecordStore)>,
    prefix: Prefix,
) -> List<(Prefix, RecordStore)>
    decreases l,
{
    match l {
        List::Nil => List::Nil,
        List::Cons(e, rest) => if e.0 == prefix {
            forget(*rest, prefix)
        } else {
            List::Cons(e, Box::new(forget(*rest, prefix)))
        },
    }
}

/// The record sets of a session.
pub open spec fn records_of(
    records: Map<u64, List<(Prefix, RecordStore)>>,
    session: u64,
) -> List<(Prefix, RecordStore)> {
    match lookup(records, session) {
        Some(l) => l,
        None => List::Nil,
    }
}

/// The number of record sets of a session that crossed other speakers.
pub open spec fn partial_of(partial: Map<u64, u64>, session: u64) -> u64 {
    match lookup(partial, session) {
        Some(n) => n,
        None => 0,
    }
}

/// An admitted route's records become known: a verified set comes first and
/// replaces the one of the same prefix, other material is counted.
pub open spec fn after_records(
    st: RouterState,
    session: u64,
    key: RouteKey,
    store: Option<RecordStore>,
) -> RouterState {
    match store {
        None => st,
        Some(s) => match s.kind {
            RecordKind::Verified { records } => (RouterState {
                records: st.records.insert(
                    session,
                    List::Cons(
                        (key.prefix, s),
                        Box::new(forget(records_of(st.records, session), key.prefix)),
                    ),
                ),
                ..st
            }).log(LogEntry::Records { session, prefix: key.prefix, records }),
            RecordKind::PartialRaw => RouterState {
                partial_transit: st.partial_transit.insert(
                    session,
                    if partial_of(st.partial_transit, session) == u64::MAX {
                        u64::MAX
                    } else {
                        (partial_of(st.partial_transit, session) + 1) as u64
                    },
                ),
                ..st
            },
            RecordKind::Other => st,
        },
    }
}

/// The records of a prefix leave with the route that carried them.
pub open spec fn after_drop_records(st: RouterState, session: u64, prefix: Prefix) -> RouterState {
    if st.records.contains_key(session) {
        RouterState {
            records: st.records.insert(session, forget(st.records[session], prefix)),
            ..st
        }
    } else {
        st
    }
}

/// One less in a session's contribution.
pub open spec fn one_less(limits: Map<u64, LimitState>, session: u64) -> Map<u64, LimitState> {
    if limits.contains_key(session) && limits[session].count > 0 {
        limits.insert(
            session,
            LimitState { count: (limits[session].count - 1) as u32, ..limits[session] },
        )
    } else {
        limits
    }
}

/// A withdrawal is told to the import hooks whether or not the path was
/// admitted, and then carried out.
pub open spec fn after_withdraw(
    st: RouterState,
    origin: RouteOrigin,
    key: RouteKey,
    path_id: u32,
) -> RouterState {
    st.schedule(
        seq![
            Task::TellWithdrawn { key, secs: (st.now_ms / 1000) as u64 },
            Task::RemovePath { origin, key, path_id },
        ],
    )
}

/// A withdrawn path leaves both tables; its destination is reselected if the
/// path was admitted.
pub open spec fn after_remove_path(
    st: RouterState,
    origin: RouteOrigin,
    key: RouteKey,
    path_id: u32,
) -> RouterState {
    let path = (origin, (key, path_id));
    let gone = RouterState {
        pre_policy: st.pre_policy.remove(path),
        screened: st.screened.remove(path),
        ..st
    };
    let forget_records = Task::DropRecords { session: origin.peer, prefix: key.prefix };
    if st.adj_in.contains_key(path) {
        (RouterState {
            adj_in: st.adj_in.remove(path),
            limits: one_less(st.limits, origin.peer),
            ..gone
        }).schedule(seq![Task::Reselect { key }, forget_records])
    } else {
        gone.schedule(seq![forget_records])
    }
}

/// A path that was not advertised anew leaves, and its destination is
/// reselected.
pub open spec fn after_purge(
    st: RouterState,
    origin: RouteOrigin,
    key: RouteKey,
    path_id: u32,
) -> RouterState {
    (RouterState {
        adj_in: st.adj_in.remove((origin, (key, path_id))),
        limits: one_less(st.limits, origin.peer),
        ..st
    }).schedule(seq![Task::Reselect { key }])
}

/// Counts an AS number.
pub fn count_asn(s: &List<u32>, asn: u32) -> (n: u32)
    ensures
        n == counted(asn_count(s.seq(), asn)),
    decreases *s,
{
    match s {
        List::Nil => 0,
        List::Cons(x, rest) => {
            let n: u32 = count_asn(rest, asn);
            assert(s.seq().drop_first() == rest.seq());
            if *x == asn && n < u32::MAX {
                n + 1
            } else {
                n
            }
        },
    }
}

/// Counts an AS number in a path.
pub fn count_in_path(path: &List<AsSegment>, asn: u32) -> (n: u32)
    ensures
        n == counted(path_count(path.seq(), asn)),
    decreases *path,
{
    match path {
        List::Nil => 0,
        List::Cons(seg, rest) => {
            let m: u32 = count_asn(&seg.asns, asn);
            let n: u32 = count_in_path(rest, asn);
            assert(path.seq().drop_first() == rest.seq());
            if m > u32::MAX - n {
                u32::MAX
            } else {
                m + n
            }
        },
    }
}

/// Finds the first AS of a path.
pub fn find_first_as(path: &List<AsSegment>) -> (r: Option<u32>)
    ensures
        r == first_as(path.seq()),
    decreases *path,
{
    match path {
        List::Nil => None,
        List::Cons(seg, rest) => {
            assert(path.seq().drop_first() == rest.seq());
            if seg.kind == AS_SEQUENCE || seg.kind == AS_CONFED_SEQUENCE {
                match &seg.asns {
                    List::Cons(x, _) => Some(*x),
                    List::Nil => find_first_as(rest),
                }
            } else {
                None
            }
        },
    }
}

/// Takes the record sets of a prefix out of a list.
fn forget_records(l: List<(Prefix, RecordStore)>, prefix: Prefix) -> (r: List<
    (Prefix, RecordStore),
>)
    ensures
        r == forget(l, prefix),
    decreases l,
{
    match l {
        List::Nil => List::Nil,
        List::Cons(e, rest) => {
            let tail = forget_records(*rest, prefix);
            if e.0 == prefix {
                tail
            } else {
                List::Cons(e, Box::new(tail))
            }
        },
    }
}

/// Takes one off a session's contribution.
fn take_one(limits: &mut OrdMap<u64, LimitState>, session: u64)
    ensures
        final(limits)@ == one_less(old(limits)@, session),
{
    let found: Option<LimitState> = match limits.get(&session) {
        Some(l) => Some(*l),
        None => None,
    };
    if let Some(l) = found {
        if l.count > 0 {
            limits.insert(session, LimitState { count: l.count - 1, ..l });
        }
    }
}

impl DefaultRouter {
    /// The BGP session behind a handle.
    pub(crate) fn bgp(&self, session: u64) -> (r: Option<&BgpSession>)
        ensures
            r == (match bgp_of(self@.session(session)) {
                Some(b) => Some(&b),
                None => None,
            }),
    {
        match self.sessions.get(&session) {
            Some(Session::Bgp(b)) => Some(b),
            _ => None,
        }
    }

    pub(crate) fn session_policy(&self, session: u64) -> (p: SessionPolicy)
        ensures
            p == policy_of(self@.policy, session),
    {
        match self.policy.get(&session) {
            Some(p) => *p,
            None => no_policy(),
        }
    }

    pub(crate) fn limit_state(&self, session: u64) -> (l: LimitState)
        ensures
            l == limit_of(self@.limits, session),
    {
        match self.limits.get(&session) {
            Some(l) => *l,
            None => no_limit_state(),
        }
    }

    /// Which directions a session is denied: import, then export.
    pub(crate) fn rfc8212_denies(&self, session: u64) -> (r: (bool, bool))
        ensures
            r == (denies_import(self@, session), denies_export(self@, session)),
    {
        if !self.settings.ebgp_requires_policy {
            return (false, false);
        }
        match self.bgp(session) {
            Some(b) => {
                if b.config.external {
                    let p = self.session_policy(session);
                    (!p.has_import, !p.has_export)
                } else {
                    (false, false)
                }
            },
            None => (false, false),
        }
    }

    /// Whether routes of a session are retained as received.
    fn retains_received(&self, session: u64) -> (b: bool)
        ensures
            b == retains(self@, session),
    {
        match self.bgp(session) {
            Some(b) => b.config.soft_reconfig_inbound,
            None => false,
        }
    }

    /// Takes in a received route.
    pub fn import_route(&mut self, route: Route)
        ensures
            final(self)@ == after_import(old(self)@, route),
    {
        let session: u64 = route.origin.peer;
        let soft: bool = self.retains_received(session);
        let (denied, _) = self.rfc8212_denies(session);
        if soft {
            self.pre_policy.insert((route.origin, (route.key, route.path_id)), route.dup());
            self.screened.remove(&(route.origin, (route.key, route.path_id)));
        }
        if denied {
            let p = self.session_policy(session);
            if !p.warned_import {
                self.policy.insert(session, SessionPolicy { warned_import: true, ..p });
                self.log(LogEntry::NoImportPolicy { session, prefix: route.key.prefix });
            }
        } else if self.settings.safety {
            self.schedule(vec![Task::CheckSafety { route }]);
        } else {
            self.schedule(vec![Task::Screen { route }]);
        }
    }

    /// Counts the local AS in a route's path.
    pub fn count_local_as(&self, route: &Route) -> (n: u32)
        ensures
            n == local_as_count(self@, *route),
    {
        match self.bgp(route.origin.peer) {
            Some(b) => match &route.attributes.as_path {
                Some(path) => count_in_path(path, b.config.local_as),
                None => 0,
            },
            None => 0,
        }
    }

    /// Acts on the safety net's verdict.
    pub fn safety_checked(&mut self, route: Route, verdict: Option<Violation>)
        ensures
            final(self)@ == after_safety(old(self)@, route, verdict),
    {
        let tolerance: u32 = match self.bgp(route.origin.peer) {
            Some(b) => b.config.local_as_tolerance,
            None => 0,
        };
        match verdict {
            None => {
                self.schedule(vec![Task::Screen { route }]);
            },
            Some(violation) => {
                let external: bool = route.protocol == Protocol::Bgp && route.origin.proto
                    == ORIGIN_EBGP;
                let looped: bool = match violation {
                    Violation::AsLoop(_) => true,
                    Violation::Other(_) => false,
                };
                if looped && external && tolerance > 0 {
                    let count: u32 = self.count_local_as(&route);
                    if count <= tolerance {
                        self.schedule(vec![Task::Screen { route }]);
                    } else {
                        self.log(
                            LogEntry::LocalAsExceeded {
                                prefix: route.key.prefix,
                                count,
                                tolerance,
                            },
                        );
                    }
                } else {
                    self.log(LogEntry::SafetyRejected { prefix: route.key.prefix, violation });
                }
            },
        }
    }

    /// The first AS of a route and its peer's AS, when they differ.
    pub fn check_first_as(&self, route: &Route) -> (r: Option<(u32, u32)>)
        ensures
            r == forged_first_as(self@, *route),
    {
        match self.bgp(route.origin.peer) {
            Some(b) => match &route.attributes.as_path {
                Some(path) => match find_first_as(path) {
                    Some(first) => {
                        if first == b.config.peer_as {
                            None
                        } else {
                            Some((first, b.config.peer_as))
                        }
                    },
                    None => None,
                },
                None => None,
            },
            None => None,
        }
    }

    /// Checks the first AS and calls for the import hooks.
    pub fn screen_route(&mut self, route: Route)
        ensures
            final(self)@ == after_screen(old(self)@, route),
    {
        let session: u64 = route.origin.peer;
        let external: bool = route.protocol == Protocol::Bgp && route.origin.proto == ORIGIN_EBGP;
        let forged: Option<(u32, u32)> = if self.settings.enforce_first_as && external {
            self.check_first_as(&route)
        } else {
            None
        };
        match forged {
            Some((first, peer_as)) => {
                let p = self.session_policy(session);
                if !p.warned_first_as {
                    self.policy.insert(session, SessionPolicy { warned_first_as: true, ..p });
                    self.log(
                        LogEntry::FirstAsRejected {
                            session,
                            prefix: route.key.prefix,
                            first,
                            peer_as,
                        },
                    );
                }
            },
            None => {
                if self.retains_received(session) {
                    self.screened.insert(
                        (route.origin, (route.key, route.path_id)),
                        route.dup(),
                    );
                }
                let mut aged = route;
                aged.age_ms = self.now_ms;
                self.schedule(vec![Task::RunImport { route: aged, reconfig: false }]);
            },
        }
    }

    /// Admits a route as the import hooks left it.
    pub fn admit_route(&mut self, raw: Route, hooked: Option<Route>, reconfig: bool)
        ensures
            final(self)@ == after_hooks(old(self)@, raw, hooked, reconfig),
    {
        if let Some(route) = hooked {
            let key: RouteKey = route.key;
            let origin: RouteOrigin = route.origin;
            let path_id: u32 = route.path_id;
            let session: u64 = if reconfig {
                raw.origin.peer
            } else {
                origin.peer
            };
            if self.windows.contains_key(&session) {
                self.refreshed.insert((session, (key, path_id)), ());
            }
            let prev = self.adj_in.insert((origin, (key, path_id)), route);
            if reconfig {
                self.touched.insert(key, ());
            } else {
                if prev.is_none() {
                    let l = self.limit_state(session);
                    let count: u32 = if l.count < u32::MAX {
                        l.count + 1
                    } else {
                        l.count
                    };
                    self.limits.insert(session, LimitState { count, ..l });
                }
                self.schedule(
                    vec![
                        Task::Reselect { key },
                        Task::CheckLimit { session },
                        Task::NoteRecords { session, key, store: raw.attributes.records },
                    ],
                );
            }
        }
    }

    /// Looks at a session's prefix limit.
    pub fn check_max_prefix(&mut self, session: u64)
        ensures
            final(self)@ == after_check_limit(old(self)@, session),
    {
        let found: Option<(u32, (MaxPrefixAction, u8))> = match self.bgp(session) {
            Some(b) => match b.config.maximum_prefix {
                Some(limit) => Some(
                    (limit, (b.config.maximum_prefix_action, b.config.maximum_prefix_threshold)),
                ),
                None => None,
            },
            None => None,
        };
        if let Some((limit, (action, pct))) = found {
            let l = self.limit_state(session);
            assert(limit as int * pct as int <= u32::MAX as int * u8::MAX as int)
                by (nonlinear_arith)
                requires
                    limit <= u32::MAX,
                    pct <= u8::MAX,
                    limit >= 0,
                    pct >= 0,
            ;
            let wide: u64 = limit as u64 * pct as u64 / 100;
            let due: u64 = wide % 0x1_0000_0000;
            if pct > 0 && l.count > 0 && l.count as u64 >= due && l.count < limit && !l.warned {
                self.limits.insert(session, LimitState { warned: true, ..l });
                self.report(
                    RouterEvent::MaxPrefixThreshold { session, count: l.count, limit, pct },
                );
            }
            assert(self@ == after_warning(old(self)@, session, limit, pct));
            let l = self.limit_state(session);
            if l.count > limit && !l.exceeded {
                self.limits.insert(session, LimitState { exceeded: true, ..l });
                self.report(
                    RouterEvent::MaxPrefixExceeded { session, count: l.count, limit, action },
                );
                self.log(LogEntry::PrefixLimit { session, count: l.count, limit, action });
                if action != MaxPrefixAction::Warn {
                    self.drop_requests(session);
                    self.schedule(
                        vec![
                            Task::Notify { session, subcode: CEASE_MAXIMUM_PREFIXES },
                            Task::StepPeer { session, event: PeerEvent::Stop },
                        ],
                    );
                }
            }
        }
    }

    /// Drops what a session's state machine still asks for.
    fn drop_requests(&mut self, session: u64)
        ensures
            final(self)@ == (RouterState {
                agenda: gather(old(self)@.agenda, unless_asked(session)),
                ..old(self)@
            }),
    {
        let ghost all = self.agenda@;
        let ghost f = unless_asked(session);
        let mut turned: Vec<Task> = Vec::new();
        let mut rest: Vec<Task> = Vec::new();
        std::mem::swap(&mut rest, &mut self.agenda);
        while rest.len() > 0
            invariant
                rest@.len() <= all.len(),
                rest@ == all.take(rest@.len() as int),
                turned@ =~= all.skip(rest@.len() as int).reverse(),
            decreases rest@.len(),
        {
            if let Some(t) = rest.pop() {
                turned.push(t);
            }
        }
        let mut kept: Vec<Task> = Vec::new();
        proof {
            gather_whole(all, f);
        }
        assert(turned@ =~= all.reverse());
        let ghost mut i: int = 0;
        while turned.len() > 0
            invariant
                0 <= i <= all.len(),
                turned@ =~= all.skip(i).reverse(),
                f == unless_asked(session),
                kept@ == gather(all.take(i), f),
            decreases turned@.len(),
        {
            proof {
                gather_step(all, i, f);
            }
            let ghost before = kept@;
            assert(turned@.last() == all[i]);
            if let Some(t) = turned.pop() {
                let asked: bool = match &t {
                    Task::Act { session: s, .. } => *s == session,
                    Task::NoteRecords { session: s, .. } => *s == session,
                    _ => false,
                };
                if !asked {
                    kept.push(t);
                }
                assert(kept@ =~= before + f(all[i]));
            }
            proof {
                i = i + 1;
            }
        }
        assert(i == all.len());
        assert(all.take(i) =~= all);
        self.agenda = kept;
    }

    /// Notes the records an admitted route carried.
    pub fn consume_exchange_plane_store(
        &mut self,
        session: u64,
        key: RouteKey,
        store: Option<RecordStore>,
    )
        ensures
            final(self)@ == after_records(old(self)@, session, key, store),
    {
        if let Some(s) = store {
            match s.kind {
                RecordKind::Verified { records } => {
                    let known = match self.records.remove(&session) {
                        Some(l) => l,
                        None => List::Nil,
                    };
                    let rest = forget_records(known, key.prefix);
                    self.records.insert(session, List::Cons((key.prefix, s), Box::new(rest)));
                    self.log(LogEntry::Records { session, prefix: key.prefix, records });
                    assert(self@.records =~= after_records(
                        old(self)@,
                        session,
                        key,
                        store,
                    ).records);
                },
                RecordKind::PartialRaw => {
                    let n: u64 = match self.partial_transit.get(&session) {
                        Some(n) => *n,
                        None => 0,
                    };
                    let m: u64 = if n < u64::MAX {
                        n + 1
                    } else {
                        n
                    };
                    self.partial_transit.insert(session, m);
                },
                RecordKind::Other => {},
            }
        }
    }

    /// Forgets the records of a prefix.
    pub fn drop_records(&mut self, session: u64, prefix: Prefix)
        ensures
            final(self)@ == after_drop_records(old(self)@, session, prefix),
    {
        if let Some(l) = self.records.remove(&session) {
            self.records.insert(session, forget_records(l, prefix));
            assert(self@.records =~= after_drop_records(old(self)@, session, prefix).records);
        }
    }

    /// A contributor withdraws a path.
    pub fn withdraw_from_session(&mut self, origin: RouteOrigin, key: RouteKey, path_id: u32)
        ensures
            final(self)@ == after_withdraw(old(self)@, origin, key, path_id),
    {
        let secs: u64 = self.now_ms / 1000;
        self.schedule(
            vec![
                Task::TellWithdrawn { key, secs },
                Task::RemovePath { origin, key, path_id },
            ],
        );
    }

    /// Removes a withdrawn path.
    pub fn remove_path(&mut self, origin: RouteOrigin, key: RouteKey, path_id: u32)
        ensures
            final(self)@ == after_remove_path(old(self)@, origin, key, path_id),
    {
        let path = (origin, (key, path_id));
        let prefix: Prefix = key.prefix;
        self.pre_policy.remove(&path);
        self.screened.remove(&path);
        if self.adj_in.remove(&path).is_some() {
            take_one(&mut self.limits, origin.peer);
            self.schedule(
                vec![
                    Task::Reselect { key },
                    Task::DropRecords { session: origin.peer, prefix },
                ],
            );
        } else {
            assert(old(self)@.adj_in.remove(path) =~= old(self)@.adj_in);
            self.schedule(vec![Task::DropRecords { session: origin.peer, prefix }]);
        }
    }

    /// Drops a path that was not advertised anew.
    pub fn purge_path(&mut self, origin: RouteOrigin, key: RouteKey, path_id: u32)
        ensures
            final(self)@ == after_purge(old(self)@, origin, key, path_id),
    {
        self.adj_in.remove(&(origin, (key, path_id)));
        take_one(&mut self.limits, origin.peer);
        self.schedule(vec![Task::Reselect { key }]);
    }
}

/// Without a declared import policy, nothing an external peer sends gets past
/// the first stage while one is required.
pub proof fn no_policy_no_import(st: RouterState, route: Route)
    requires
        denies_import(st, route.origin.peer),
    ensures
        after_import(st, route).agenda == st.agenda,
        after_import(st, route).adj_in == st.adj_in,
        after_import(st, route).loc == st.loc,
{
}

/// A route that is refused for want of a policy is reported for the first
/// time only.
pub proof fn denial_is_reported_once(st: RouterState, a: Route, b: Route)
    requires
        denies_import(st, a.origin.peer),
        b.origin.peer == a.origin.peer,
    ensures
        after_import(after_import(st, a), b).events == after_import(st, a).events,
{
}

/// A forged first AS is reported once per session, and never admitted.
pub proof fn forgery_is_reported_once(st: RouterState, a: Route, b: Route)
    requires
        st.settings.enforce_first_as,
        from_external(a),
        from_external(b),
        forged_first_as(st, a) is Some,
        forged_first_as(st, b) is Some,
        b.origin.peer == a.origin.peer,
    ensures
        after_screen(st, a).agenda == st.agenda,
        after_screen(after_screen(st, a), b).events == after_screen(st, a).events,
{
}

/// A prefix limit takes effect once until it is cleared.
pub proof fn limit_takes_effect_once(st: RouterState, session: u64)
    ensures
        after_check_limit(after_check_limit(st, session), session) == after_check_limit(
            st,
            session,
        ),
{
}

/// A session that exceeds its limit is notified, then stopped, unless only a
/// warning is wanted; nothing more is taken from it.
pub proof fn exceeding_closes_the_session(
    st: RouterState,
    session: u64,
    limit: u32,
    action: MaxPrefixAction,
    asked: BgpAction,
)
    requires
        limit_of(st.limits, session).count > limit,
        !limit_of(st.limits, session).exceeded,
        action != MaxPrefixAction::Warn,
    ensures
        ({
            let closed = after_limit(st, session, limit, action).agenda;
            &&& closed.last() == Task::Notify { session, subcode: CEASE_MAXIMUM_PREFIXES }
            &&& closed.drop_last().last() == Task::StepPeer { session, event: PeerEvent::Stop }
            &&& !closed.contains(Task::Act { session, action: asked })
        }),
{
    let f = unless_asked(session);
    let rest = gather(st.agenda, f);
    let closed = after_limit(st, session, limit, action).agenda;
    let given = seq![
        Task::Notify { session, subcode: CEASE_MAXIMUM_PREFIXES },
        Task::StepPeer { session, event: PeerEvent::Stop },
    ];
    assert(given.reverse() =~= seq![given[1], given[0]]);
    assert(closed =~= rest.push(given[1]).push(given[0]));
    let t = Task::Act { session, action: asked };
    if closed.contains(t) {
        let i = choose|i: int| 0 <= i < closed.len() && closed[i] == t;
        assert(rest[i] == t);
        assert(rest.contains(t));
        let j = gather_source(st.agenda, f, t);
        assert(f(st.agenda[j]).contains(t));
    }
}

/// Announcing a path again replaces it without counting it twice.
pub proof fn replacement_is_not_counted(st: RouterState, raw: Route, route: Route)
    requires
        st.adj_in.contains_key((route.origin, (route.key, route.path_id))),
    ensures
        after_hooks(st, raw, Some(route), false).limits == st.limits,
{
}

} // verus!
