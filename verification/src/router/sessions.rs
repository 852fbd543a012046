//! The life of sessions: how they are added, configured, started, fed and
//! removed.

use crate::addr::{IpAddr, NlriFamily, Prefix};
use crate::events::{BgpState, RouterError, RouterEvent, SessionSetting};
use crate::list::List;
use crate::ordmap::{is_table, lookup, sorted, OrdMap};
use crate::ordmap::lemma_key_position;
use crate::ospf::adjacency::{value_or_zero, NeighborState, OspfRuntime};
use crate::ospf::area::OspfAreaType;
use crate::ospf::facts::AreaView;
use crate::ospf::lsa::Lsa;
use crate::ospf::plan::{ExternalDestination, V3ExternalDestination};
use crate::babel::{BabelBest, BabelRuntime};
use crate::route::{Protocol, RecordStore, Route, RouteKey};
use crate::router::import::{partial_of, policy_of, records_of};
use crate::router::intake::{after_babel, after_receive};
use crate::router::origination::after_withdraw_direct;
use crate::router::peers::after_feed;
use crate::router::paths::{OfBgpPeer, OfPeer, OfSession};
use crate::router::{
    DefaultRouter, OspfState, PathKey, PendingUpdate, RouterState, SessionPolicy, Settings,
};
use crate::select::{drop_keys, find_keys, keys_where, lemma_keys_where, without, KeyTest};
use crate::seqs::{gather, gather_includes, gather_step, gather_whole, one_if};
use crate::session::{
    bgp_of, is_up, BgpSession, PeerConfig, PeerStatus, Session, SessionConfig, SessionKind,
    SessionSummary, SummaryState,
};
use crate::task::{BgpAction, Occasion, PeerEvent, Task};
use crate::value::Value;
use vstd::prelude::*;

verus! {

/// The protocol version of an OSPF session.
pub open spec fn ospf_version(kind: SessionKind) -> Protocol {
    if kind == SessionKind::Ospfv3 {
        Protocol::Ospfv3
    } else {
        Protocol::Ospfv2
    }
}

/// Whether a session of this kind attaches an area.
pub open spec fn is_ospf(kind: SessionKind) -> bool {
    kind == SessionKind::Ospfv2 || kind == SessionKind::Ospfv3
}

/// Why an OSPF session is refused: another router identifier is in use, or
/// the area runs another version, has another type, or is the backbone and
/// not a regular area.
pub open spec fn ospf_refusal(st: RouterState, cfg: SessionConfig) -> Option<RouterError> {
    let id = cfg.peer.local_bgp_id;
    match (st.ospf.router_id, lookup(st.ospf.areas, cfg.area_id)) {
        (Some(existing), _) if existing != id => Some(
            RouterError::RouterIdMismatch { requested: id, existing },
        ),
        (_, Some(area)) if area.protocol != ospf_version(cfg.kind) => Some(
            RouterError::AreaProtocol {
                area: cfg.area_id,
                v3: area.protocol == Protocol::Ospfv3,
            },
        ),
        (_, Some(area)) if area.kind != cfg.area_type => Some(
            RouterError::AreaTypeMismatch {
                area: cfg.area_id,
                existing_type: area.kind,
                requested_type: cfg.area_type,
            },
        ),
        _ => if cfg.area_id == 0 && cfg.area_type != OspfAreaType::Normal {
            Some(RouterError::BackboneType)
        } else {
            None
        },
    }
}

/// A map with an entry where there is something to enter.
pub open spec fn entered<K, V>(m: Map<K, V>, k: K, v: Option<V>) -> Map<K, V> {
    match v {
        Some(x) => m.insert(k, x),
        None => m,
    }
}

/// A BGP session is added under the next handle; the first one brings the
/// safety net.
pub open spec fn after_add_bgp(st: RouterState, cfg: SessionConfig) -> RouterState {
    let h = st.next_handle;
    RouterState {
        next_handle: (h + 1) as u64,
        llgr_caps: entered(st.llgr_caps, h, cfg.llgr_max_stale_time),
        collision: entered(
            st.collision,
            h,
            match cfg.collision_group {
                Some(group) => Some((group, cfg.locally_initiated)),
                None => None,
            },
        ),
        sessions: st.sessions.insert(
            h,
            Session::Bgp(
                BgpSession {
                    config: PeerConfig { peer_id: h, exchange_plane: None, ..cfg.peer },
                    status: PeerStatus::fresh(),
                    established: false,
                },
            ),
        ),
        mrai_interval: st.mrai_interval.insert(h, cfg.mrai_ms),
        settings: Settings { safety: true, ..st.settings },
        ..st
    }
}

/// The origination of an OSPFv2 redistribution.
pub open spec fn external_task() -> spec_fn((u32, ExternalDestination)) -> Seq<Task> {
    |e: (u32, ExternalDestination)| seq![Task::OriginateExternal { network: e.0 }]
}

/// The origination of an OSPFv3 redistribution.
pub open spec fn external_task_v3() -> spec_fn((Prefix, V3ExternalDestination)) -> Seq<Task> {
    |e: (Prefix, V3ExternalDestination)| seq![Task::OriginateExternalV3 { prefix: e.0 }]
}

/// Every area is brought in line with every redistribution into OSPFv2.
pub open spec fn sync_tasks_v2(st: RouterState) -> Seq<Task> {
    gather(sorted(st.ospf.externals), external_task())
}

/// Every area is brought in line with every redistribution into OSPFv3.
pub open spec fn sync_tasks_v3(st: RouterState) -> Seq<Task> {
    gather(sorted(st.ospf.externals_v3), external_task_v3())
}

/// Every area is brought in line with every redistribution.
pub open spec fn sync_tasks(st: RouterState) -> Seq<Task> {
    sync_tasks_v2(st) + sync_tasks_v3(st)
}

/// What an attached area calls for: it catches up on the redistributions, and
/// virtual links through it may come up.
pub open spec fn attach_tasks(st: RouterState) -> Seq<Task> {
    sync_tasks(st) + seq![Task::OspfSettle, Task::EvalVirtualLinks, Task::OspfSettle]
}

/// An OSPF session is added, with its area where that is new; or refused. The
/// handle is used up either way, and the first session's identifier stays.
pub open spec fn after_add_ospf(
    st: RouterState,
    cfg: SessionConfig,
    area: AreaView,
) -> RouterState {
    let h = st.next_handle;
    let taken = RouterState { next_handle: (h + 1) as u64, ..st };
    let id = cfg.peer.local_bgp_id;
    match ospf_refusal(st, cfg) {
        Some(RouterError::RouterIdMismatch { .. }) => taken,
        Some(_) => RouterState {
            ospf: OspfState { router_id: Some(id), ..st.ospf },
            ..taken
        },
        None => (RouterState {
            ospf: OspfState {
                router_id: Some(id),
                areas: if st.ospf.areas.contains_key(cfg.area_id) {
                    st.ospf.areas
                } else {
                    st.ospf.areas.insert(cfg.area_id, area)
                },
                ..st.ospf
            },
            sessions: st.sessions.insert(
                h,
                Session::Ospf(
                    OspfRuntime {
                        router_id: id,
                        area_id: cfg.area_id,
                        protocol: ospf_version(cfg.kind),
                        iface_mtu: cfg.mtu,
                        network_type: cfg.network_type,
                        our_ip: value_or_zero(cfg.interface_ip),
                        neighbor_ip: value_or_zero(cfg.neighbor_ip),
                        dr: 0,
                        bdr: 0,
                        neighbor: NeighborState::Down,
                        exchange_started: false,
                    },
                ),
            ),
            ..taken
        }).schedule(attach_tasks(st)),
    }
}

/// The address a Babel session speaks from where none is configured:
/// 127.0.0.1.
pub const BABEL_FALLBACK_ADDRESS: u32 = 0x7f00_0001;

/// A Babel session is added.
pub open spec fn after_add_babel(st: RouterState, cfg: SessionConfig) -> RouterState {
    let h = st.next_handle;
    RouterState {
        next_handle: (h + 1) as u64,
        sessions: st.sessions.insert(
            h,
            Session::Babel(
                BabelRuntime {
                    address: match cfg.peer.local_address {
                        Some(a) => a,
                        None => IpAddr::V4(BABEL_FALLBACK_ADDRESS),
                    },
                    heard: false,
                    next_hop: None,
                    router_id: 0,
                    published: List::Nil,
                },
            ),
        ),
        ..st
    }
}

/// Whether a session belongs to an area.
pub open spec fn attached(s: Session, area: u32) -> bool {
    match s {
        Session::Ospf(r) => r.area_id == area,
        _ => false,
    }
}

/// Whether some session belongs to an area.
pub open spec fn area_attached(sessions: Map<u64, Session>, area: u32) -> bool {
    exists|h: u64| #[trigger] sessions.contains_key(h) && attached(sessions[h], area)
}

/// The withdrawal of a path.
pub open spec fn withdrawal_task() -> spec_fn(PathKey) -> Seq<Task> {
    |k: PathKey| seq![Task::WithdrawPath { origin: k.0, key: k.1.0, path_id: k.1.1 }]
}

/// Everything kept about a session is forgotten.
pub open spec fn forgotten(st: RouterState, h: u64) -> RouterState {
    RouterState {
        sessions: st.sessions.remove(h),
        mrai_interval: st.mrai_interval.remove(h),
        mrai_last: without(st.mrai_last, OfSession(h)),
        mrai_pending: without(st.mrai_pending, OfSession(h)),
        windows: st.windows.remove(h),
        deadlines: without(st.deadlines, OfSession(h)),
        refreshed: without(st.refreshed, OfSession(h)),
        policy: st.policy.remove(h),
        llgr_caps: st.llgr_caps.remove(h),
        limits: st.limits.remove(h),
        collision: st.collision.remove(h),
        records: st.records.remove(h),
        partial_transit: st.partial_transit.remove(h),
        adj_out: without(st.adj_out, OfBgpPeer(h)),
        pre_policy: without(st.pre_policy, OfBgpPeer(h)),
        screened: without(st.screened, OfBgpPeer(h)),
        ..st
    }
}

/// An area without sessions is detached, and with the last one the router
/// identifier is free again.
pub open spec fn detached(plane: OspfState, area: u32) -> OspfState {
    let areas = plane.areas.remove(area);
    OspfState {
        areas,
        router_id: if areas == Map::<u32, AreaView>::empty() {
            None
        } else {
            plane.router_id
        },
        ..plane
    }
}

/// The area that a session's removal leaves without sessions.
pub open spec fn orphaned_area(st: RouterState, h: u64) -> Option<u32> {
    match st.session(h) {
        Some(Session::Ospf(r)) => if area_attached(st.sessions.remove(h), r.area_id) {
            None
        } else {
            Some(r.area_id)
        },
        _ => None,
    }
}

/// The withdrawal of a direct route, where the route stands.
pub open spec fn direct_withdrawal(direct: Map<RouteKey, Route>) -> spec_fn(Route) -> Seq<Task> {
    |r: Route| one_if(lookup(direct, r.key) == Some(r), Task::WithdrawDirect { key: r.key })
}

/// What a session contributed directly.
pub open spec fn published_by(s: Option<Session>) -> Seq<Route> {
    match s {
        Some(Session::Babel(r)) => r.published.seq(),
        _ => Seq::empty(),
    }
}

/// The withdrawal of everything a session contributed.
pub open spec fn contribution_end(st: RouterState, h: u64) -> Seq<Task> {
    gather(keys_where(st.adj_in, OfPeer(h)), withdrawal_task()) + gather(
        published_by(st.session(h)),
        direct_withdrawal(st.direct),
    )
}

/// A session is removed: nothing kept about it outlives it, everything it
/// contributed is withdrawn, and the last session of an area takes the area and
/// its database along.
pub open spec fn after_remove_session(st: RouterState, h: u64) -> RouterState {
    let ends = contribution_end(st, h);
    match orphaned_area(st, h) {
        Some(area) => (RouterState { ospf: detached(st.ospf, area), ..forgotten(st, h) }).schedule(
            ends + seq![Task::ForgetArea { area }, Task::OspfChanged],
        ),
        None => forgotten(st, h).schedule(ends),
    }
}

/// A session is started: nothing waits for it, and a BGP peer's state machine
/// starts from scratch.
pub open spec fn after_start(st: RouterState, h: u64) -> RouterState {
    let cleared = RouterState {
        mrai_last: without(st.mrai_last, OfSession(h)),
        mrai_pending: without(st.mrai_pending, OfSession(h)),
        ..st
    };
    if bgp_of(st.session(h)) is Some {
        cleared.schedule(
            seq![
                Task::StepPeer { session: h, event: PeerEvent::Start },
                Task::ClearEstablished { session: h },
            ],
        )
    } else {
        cleared
    }
}

/// Expired timers.
pub open spec fn timer_task() -> spec_fn(u32) -> Seq<Task> {
    |t: u32| seq![Task::TimerExpired { timer: t }]
}

/// Time passes: timers first, then OSPF's retransmissions and ageing, then
/// what waits for an interval, then retention.
pub open spec fn after_tick(st: RouterState, now_ms: u64, expired: Seq<u32>) -> RouterState {
    (RouterState { now_ms, ..st }).schedule(
        gather(expired, timer_task()) + seq![Task::PollExchanges] + (
        if st.ospf.router_id is Some {
            seq![Task::AgeDatabases, Task::OspfSettle]
        } else {
            Seq::empty()
        }) + seq![Task::FlushMrai, Task::RestartWindows],
    )
}

/// The transmission of what waits for a session.
pub open spec fn waiting_task(h: u64) -> spec_fn(((u64, RouteKey), PendingUpdate)) -> Seq<Task> {
    |e: ((u64, RouteKey), PendingUpdate)|
        one_if(
            e.0.0 == h,
            Task::Transmit { session: h, routes: e.1.routes, occasion: Occasion::Update },
        )
}

/// A session's interval is set. Without interval nothing waits any longer.
pub open spec fn after_set_mrai(st: RouterState, h: u64, interval_ms: u64) -> RouterState {
    let set = RouterState { mrai_interval: st.mrai_interval.insert(h, interval_ms), ..st };
    if interval_ms == 0 {
        (RouterState { mrai_pending: without(st.mrai_pending, OfSession(h)), ..set }).schedule(
            gather(sorted(st.mrai_pending), waiting_task(h)),
        )
    } else {
        set
    }
}

/// The export of a table entry to a session.
pub open spec fn reexport_task(h: u64) -> spec_fn((RouteKey, List<Route>)) -> Seq<Task> {
    |e: (RouteKey, List<Route>)|
        seq![Task::ExportTo { session: h, key: e.0, ranked: e.1 }]
}

/// A session's policies are declared. When the export declaration changes,
/// every destination is reconsidered toward it.
pub open spec fn after_set_policy(
    st: RouterState,
    h: u64,
    import: bool,
    export: bool,
) -> RouterState {
    let p = policy_of(st.policy, h);
    let declared = RouterState {
        policy: st.policy.insert(
            h,
            SessionPolicy { has_import: import, has_export: export, ..p },
        ),
        ..st
    };
    if !st.policy.contains_key(h) || p.has_export != export {
        declared.schedule(gather(sorted(st.loc), reexport_task(h)))
    } else {
        declared
    }
}

/// Why a setting is refused: it is made on BGP sessions that are not
/// established.
pub open spec fn configuration_refusal(
    st: RouterState,
    h: u64,
    setting: SessionSetting,
) -> Option<RouterError> {
    match bgp_of(st.session(h)) {
        Some(b) => if is_up(st.session(h)) {
            Some(RouterError::AlreadyEstablished { session: h, setting })
        } else {
            None
        },
        None => Some(RouterError::NotBgp(h)),
    }
}

/// The router with a session's configuration replaced.
pub open spec fn with_config(st: RouterState, h: u64, config: PeerConfig) -> RouterState {
    match bgp_of(st.session(h)) {
        Some(b) => RouterState {
            sessions: st.sessions.insert(h, Session::Bgp(BgpSession { config, ..b })),
            ..st
        },
        None => st,
    }
}

/// The configuration of a session.
pub open spec fn config_of(st: RouterState, h: u64) -> PeerConfig {
    bgp_of(st.session(h))->Some_0.config
}

/// Whether a configuration request came out as it must: refused without
/// effect, or carried out.
pub open spec fn configured(
    before: RouterState,
    after: RouterState,
    h: u64,
    setting: SessionSetting,
    r: Result<(), RouterError>,
    config: PeerConfig,
) -> bool {
    match configuration_refusal(before, h, setting) {
        Some(e) => r == Err::<(), RouterError>(e) && after == before,
        None => r == Ok::<(), RouterError>(()) && after == with_config(before, h, config),
    }
}

/// What arrived on a session, as its protocol decodes it.
#[derive(Debug)]
pub enum SessionInput {
    /// The state of the peer's state machine before, its status after and
    /// what it asks for.
    Bgp { prev: BgpState, status: PeerStatus, actions: Vec<BgpAction> },
    /// The LSAs that were received.
    Ospf { lsas: Vec<Lsa> },
    /// The feasible routes that the frames left, and whether the neighbour
    /// was heard of.
    Babel { best: Vec<BabelBest>, heard: bool },
}

/// What arrived on a session is taken in. Input of another protocol than the
/// session's changes nothing.
pub open spec fn after_input(st: RouterState, h: u64, input: SessionInput) -> RouterState {
    match input {
        SessionInput::Bgp { prev, status, actions } => after_feed(st, h, prev, status, actions@),
        SessionInput::Ospf { lsas } => after_receive(st, h, lsas@),
        SessionInput::Babel { best, heard } => after_babel(st, h, best@, heard),
    }
}

/// The router after its events were taken.
pub open spec fn polled(st: RouterState) -> RouterState {
    RouterState { events: Seq::empty(), ..st }
}

/// The router after events were put back ahead of those reported since.
pub open spec fn requeued(st: RouterState, events: Seq<RouterEvent>) -> RouterState {
    RouterState { events: events + st.events, ..st }
}

/// The paths of a table, destination by destination.
pub open spec fn all_paths() -> spec_fn((RouteKey, List<Route>)) -> Seq<Route> {
    |e: (RouteKey, List<Route>)| e.1.seq()
}

/// The best paths of a table.
pub open spec fn best_paths() -> spec_fn((RouteKey, List<Route>)) -> Seq<Route> {
    |e: (RouteKey, List<Route>)|
        match e.1 {
            List::Cons(r, _) => seq![r],
            List::Nil => Seq::empty(),
        }
}

/// The overview of a session with `n` paths in the Adj-RIB-In.
pub open spec fn summary_of(h: u64, s: Session, n: usize) -> SessionSummary {
    match s {
        Session::Bgp(b) => SessionSummary {
            handle: h,
            kind: SessionKind::Bgp,
            local_as: b.config.local_as,
            peer_as: b.config.peer_as,
            state: SummaryState::Bgp(b.status.state),
            established: b.established,
            peer_bgp_id: b.status.peer_bgp_id,
            negotiated_hold_time: b.status.hold_time,
            adj_rib_in_len: n,
            updates_received: b.status.updates_received,
            updates_sent: b.status.updates_sent,
        },
        Session::Ospf(r) => SessionSummary {
            handle: h,
            kind: if r.protocol == Protocol::Ospfv3 {
                SessionKind::Ospfv3
            } else {
                SessionKind::Ospfv2
            },
            local_as: 0,
            peer_as: 0,
            state: SummaryState::Ospf(r.neighbor),
            established: r.neighbor == NeighborState::Full,
            peer_bgp_id: None,
            negotiated_hold_time: 0,
            adj_rib_in_len: n,
            updates_received: 0,
            updates_sent: 0,
        },
        Session::Babel(r) => SessionSummary {
            handle: h,
            kind: SessionKind::Babel,
            local_as: 0,
            peer_as: 0,
            state: SummaryState::Babel { up: r.heard },
            established: r.heard,
            peer_bgp_id: None,
            negotiated_hold_time: 0,
            adj_rib_in_len: n,
            updates_received: 0,
            updates_sent: 0,
        },
    }
}

/// The overview of a session.
pub open spec fn summarised(adj_in: Map<PathKey, Route>) -> spec_fn((u64, Session)) -> Seq<
    SessionSummary,
> {
    |e: (u64, Session)|
        seq![summary_of(e.0, e.1, keys_where(adj_in, OfPeer(e.0)).len() as usize)]
}

fn summarise(h: u64, s: &Session, n: usize) -> (r: SessionSummary)
    ensures
        r == summary_of(h, *s, n),
{
    match s {
        Session::Bgp(b) => SessionSummary {
            handle: h,
            kind: SessionKind::Bgp,
            local_as: b.config.local_as,
            peer_as: b.config.peer_as,
            state: SummaryState::Bgp(b.status.state),
            established: b.established,
            peer_bgp_id: b.status.peer_bgp_id,
            negotiated_hold_time: b.status.hold_time,
            adj_rib_in_len: n,
            updates_received: b.status.updates_received,
            updates_sent: b.status.updates_sent,
        },
        Session::Ospf(r) => SessionSummary {
            handle: h,
            kind: if r.protocol == Protocol::Ospfv3 {
                SessionKind::Ospfv3
            } else {
                SessionKind::Ospfv2
            },
            local_as: 0,
            peer_as: 0,
            state: SummaryState::Ospf(r.neighbor),
            established: r.neighbor == NeighborState::Full,
            peer_bgp_id: None,
            negotiated_hold_time: 0,
            adj_rib_in_len: n,
            updates_received: 0,
            updates_sent: 0,
        },
        Session::Babel(r) => SessionSummary {
            handle: h,
            kind: SessionKind::Babel,
            local_as: 0,
            peer_as: 0,
            state: SummaryState::Babel { up: r.heard },
            established: r.heard,
            peer_bgp_id: None,
            negotiated_hold_time: 0,
            adj_rib_in_len: n,
            updates_received: 0,
            updates_sent: 0,
        },
    }
}

fn enter<V>(m: &mut OrdMap<u64, V>, k: u64, v: Option<V>)
    ensures
        final(m)@ == entered(old(m)@, k, v),
{
    if let Some(x) = v {
        m.insert(k, x);
    }
}

fn belongs(s: &Session, area: u32) -> (b: bool)
    ensures
        b == attached(*s, area),
{
    match s {
        Session::Ospf(r) => r.area_id == area,
        _ => false,
    }
}

impl DefaultRouter {
    /// Adds a BGP session.
    fn add_bgp(&mut self, cfg: SessionConfig) -> (h: u64)
        requires
            old(self)@.next_handle < u64::MAX,
        ensures
            h == old(self)@.next_handle,
            final(self)@ == after_add_bgp(old(self)@, cfg),
    {
        let h: u64 = self.next_handle;
        self.next_handle = h + 1;
        enter(&mut self.llgr_caps, h, cfg.llgr_max_stale_time);
        let membership: Option<(u64, bool)> = match cfg.collision_group {
            Some(group) => Some((group, cfg.locally_initiated)),
            None => None,
        };
        enter(&mut self.collision, h, membership);
        self.mrai_interval.insert(h, cfg.mrai_ms);
        self.settings.safety = true;
        self.enter_bgp(h, cfg.peer);
        h
    }

    /// Enters a BGP session that has not spoken yet.
    fn enter_bgp(&mut self, h: u64, peer: PeerConfig)
        ensures
            final(self)@ == (RouterState {
                sessions: old(self)@.sessions.insert(
                    h,
                    Session::Bgp(
                        BgpSession {
                            config: PeerConfig { peer_id: h, exchange_plane: None, ..peer },
                            status: PeerStatus::fresh(),
                            established: false,
                        },
                    ),
                ),
                ..old(self)@
            }),
    {
        let mut config = peer;
        config.peer_id = h;
        config.exchange_plane = None;
        self.sessions.insert(
            h,
            Session::Bgp(BgpSession { config, status: PeerStatus::new(), established: false }),
        );
    }

    /// Why an OSPF session is refused.
    fn refuse_ospf(&self, cfg: &SessionConfig) -> (r: Option<RouterError>)
        ensures
            r == ospf_refusal(self@, *cfg),
    {
        let id: u32 = cfg.peer.local_bgp_id;
        if let Some(existing) = self.ospf.router_id {
            if existing != id {
                return Some(RouterError::RouterIdMismatch { requested: id, existing });
            }
        }
        let version = match cfg.kind {
            SessionKind::Ospfv3 => Protocol::Ospfv3,
            _ => Protocol::Ospfv2,
        };
        if let Some(area) = self.ospf.areas.get(&cfg.area_id) {
            if area.protocol != version {
                return Some(
                    RouterError::AreaProtocol {
                        area: cfg.area_id,
                        v3: area.protocol == Protocol::Ospfv3,
                    },
                );
            }
            if area.kind != cfg.area_type {
                return Some(
                    RouterError::AreaTypeMismatch {
                        area: cfg.area_id,
                        existing_type: area.kind,
                        requested_type: cfg.area_type,
                    },
                );
            }
        }
        if cfg.area_id == 0 && cfg.area_type != OspfAreaType::Normal {
            return Some(RouterError::BackboneType);
        }
        None
    }

    /// Lists what brings every area in line with every redistribution into
    /// OSPFv2.
    pub(crate) fn sync_externals_v2(&self) -> (tasks: Vec<Task>)
        ensures
            tasks@ == sync_tasks_v2(self@),
    {
        let mut tasks: Vec<Task> = Vec::new();
        let ghost f = external_task();
        let n: usize = self.ospf.externals.len();
        proof {
            gather_whole(self.ospf.externals.entries(), f);
        }
        let mut i: usize = 0;
        while i < n
            invariant
                i <= n == self.ospf.externals.entries().len(),
                f == external_task(),
                tasks@ == gather(self.ospf.externals.entries().take(i as int), f),
            decreases n - i,
        {
            proof {
                gather_step(self.ospf.externals.entries(), i as int, f);
            }
            tasks.push(Task::OriginateExternal { network: self.ospf.externals.key_at(i) });
            i = i + 1;
        }
        tasks
    }

    /// Lists what brings every area in line with every redistribution into
    /// OSPFv3.
    pub(crate) fn sync_externals_v3(&self) -> (tasks: Vec<Task>)
        ensures
            tasks@ == sync_tasks_v3(self@),
    {
        let mut tasks: Vec<Task> = Vec::new();
        let ghost f = external_task_v3();
        let n: usize = self.ospf.externals_v3.len();
        proof {
            gather_whole(self.ospf.externals_v3.entries(), f);
        }
        let mut i: usize = 0;
        while i < n
            invariant
                i <= n == self.ospf.externals_v3.entries().len(),
                f == external_task_v3(),
                tasks@ == gather(self.ospf.externals_v3.entries().take(i as int), f),
            decreases n - i,
        {
            proof {
                gather_step(self.ospf.externals_v3.entries(), i as int, f);
            }
            tasks.push(Task::OriginateExternalV3 { prefix: self.ospf.externals_v3.key_at(i) });
            i = i + 1;
        }
        tasks
    }

    /// Lists what brings every area in line with every redistribution.
    pub(crate) fn sync_externals(&self) -> (tasks: Vec<Task>)
        ensures
            tasks@ == sync_tasks(self@),
    {
        let mut tasks = self.sync_externals_v2();
        let mut more = self.sync_externals_v3();
        tasks.append(&mut more);
        tasks
    }

    /// Adds an OSPF session.
    fn add_ospf(&mut self, cfg: SessionConfig) -> (r: Result<u64, RouterError>)
        requires
            old(self)@.next_handle < u64::MAX,
        ensures
            r == (match ospf_refusal(old(self)@, cfg) {
                Some(e) => Err::<u64, RouterError>(e),
                None => Ok::<u64, RouterError>(old(self)@.next_handle),
            }),
            final(self)@ == after_add_ospf(
                old(self)@,
                cfg,
                final(self)@.ospf.areas[cfg.area_id],
            ),
            r is Ok && !old(self)@.ospf.areas.contains_key(cfg.area_id)
                ==> final(self)@.ospf.areas[cfg.area_id].blank(
                ospf_version(cfg.kind),
                cfg.area_type,
            ),
    {
        let h: u64 = self.next_handle;
        let refusal = self.refuse_ospf(&cfg);
        self.next_handle = h + 1;
        let id: u32 = cfg.peer.local_bgp_id;
        if let Some(e) = refusal {
            match e {
                RouterError::RouterIdMismatch { .. } => {},
                _ => {
                    self.ospf.router_id = Some(id);
                },
            }
            return Err(e);
        }
        let mut tasks = self.sync_externals();
        let ghost first = tasks@;
        tasks.push(Task::OspfSettle);
        tasks.push(Task::EvalVirtualLinks);
        tasks.push(Task::OspfSettle);
        assert(tasks@ =~= attach_tasks(old(self)@));
        self.ospf.router_id = Some(id);
        let v3: bool = match cfg.kind {
            SessionKind::Ospfv3 => true,
            _ => false,
        };
        if !self.ospf.areas.contains_key(&cfg.area_id) {
            let version = if v3 {
                Protocol::Ospfv3
            } else {
                Protocol::Ospfv2
            };
            self.ospf.areas.insert(cfg.area_id, AreaView::new(version, cfg.area_type));
        }
        let runtime = OspfRuntime::new(
            id,
            cfg.area_id,
            v3,
            cfg.mtu,
            cfg.network_type,
            cfg.interface_ip,
            cfg.neighbor_ip,
        );
        self.sessions.insert(h, Session::Ospf(runtime));
        self.schedule(tasks);
        Ok(h)
    }

    /// Adds a session; the handle counts on from 1.
    pub fn add_session(&mut self, cfg: SessionConfig) -> (r: Result<u64, RouterError>)
        requires
            old(self)@.next_handle < u64::MAX,
        ensures
            r == (if is_ospf(cfg.kind) && ospf_refusal(old(self)@, cfg) is Some {
                Err::<u64, RouterError>(ospf_refusal(old(self)@, cfg)->Some_0)
            } else {
                Ok::<u64, RouterError>(old(self)@.next_handle)
            }),
            cfg.kind == SessionKind::Bgp ==> final(self)@ == after_add_bgp(old(self)@, cfg),
            cfg.kind == SessionKind::Babel ==> final(self)@ == after_add_babel(old(self)@, cfg),
            is_ospf(cfg.kind) ==> final(self)@ == after_add_ospf(
                old(self)@,
                cfg,
                final(self)@.ospf.areas[cfg.area_id],
            ),
            is_ospf(cfg.kind) && r is Ok && !old(self)@.ospf.areas.contains_key(cfg.area_id)
                ==> final(self)@.ospf.areas[cfg.area_id].blank(
                ospf_version(cfg.kind),
                cfg.area_type,
            ),
    {
        match cfg.kind {
            SessionKind::Bgp => Ok(self.add_bgp(cfg)),
            SessionKind::Babel => {
                let h: u64 = self.next_handle;
                self.next_handle = h + 1;
                let address = match cfg.peer.local_address {
                    Some(a) => a,
                    None => IpAddr::V4(BABEL_FALLBACK_ADDRESS),
                };
                self.sessions.insert(h, Session::Babel(BabelRuntime::new(address)));
                Ok(h)
            },
            _ => self.add_ospf(cfg),
        }
    }

    /// Whether some session belongs to an area.
    fn still_attached(&self, area: u32) -> (b: bool)
        ensures
            b == area_attached(self@.sessions, area),
    {
        let n: usize = self.sessions.len();
        let mut i: usize = 0;
        while i < n
            invariant
                i <= n == self.sessions.entries().len(),
                forall|j: int|
                    0 <= j < i ==> !attached((#[trigger] self.sessions.entries()[j]).1, area),
            decreases n - i,
        {
            if belongs(self.sessions.value_at(i), area) {
                let ghost h = self.sessions.entries()[i as int].0;
                let k: u64 = self.sessions.key_at(i);
                assert(self@.sessions.contains_key(h) && attached(self@.sessions[h], area));
                return true;
            }
            i = i + 1;
        }
        proof {
            if area_attached(self@.sessions, area) {
                let h = choose|h: u64| #[trigger]
                    self@.sessions.contains_key(h) && attached(self@.sessions[h], area);
                let j = lemma_key_position(self.sessions.entries(), h);
                crate::ordmap::lemma_entry(self.sessions.entries(), j);
            }
        }
        false
    }

    /// Removes a session.
    pub fn remove_session(&mut self, h: u64) -> (r: Result<(), RouterError>)
        ensures
            r == (if old(self)@.sessions.contains_key(h) {
                Ok::<(), RouterError>(())
            } else {
                Err::<(), RouterError>(RouterError::UnknownSession(h))
            }),
            final(self)@ == (if r is Ok {
                after_remove_session(old(self)@, h)
            } else {
                old(self)@
            }),
    {
        let (area, published): (Option<u32>, Vec<Route>) = match self.sessions.remove(&h) {
            None => return Err(RouterError::UnknownSession(h)),
            Some(Session::Ospf(r)) => (Some(r.area_id), Vec::new()),
            Some(Session::Babel(r)) => (None, r.published.to_vec()),
            Some(Session::Bgp(_)) => (None, Vec::new()),
        };
        assert(published@ == published_by(old(self)@.session(h)));
        self.mrai_interval.remove(&h);
        drop_keys(&mut self.mrai_last, &OfSession(h));
        drop_keys(&mut self.mrai_pending, &OfSession(h));
        self.windows.remove(&h);
        drop_keys(&mut self.deadlines, &OfSession(h));
        drop_keys(&mut self.refreshed, &OfSession(h));
        self.policy.remove(&h);
        self.llgr_caps.remove(&h);
        self.limits.remove(&h);
        self.collision.remove(&h);
        self.records.remove(&h);
        self.partial_transit.remove(&h);
        drop_keys(&mut self.adj_out, &OfBgpPeer(h));
        drop_keys(&mut self.pre_policy, &OfBgpPeer(h));
        drop_keys(&mut self.screened, &OfBgpPeer(h));
        assert(self@ == forgotten(old(self)@, h));
        let paths = find_keys(&self.adj_in, &OfPeer(h));
        let mut tasks: Vec<Task> = Vec::new();
        let ghost f = withdrawal_task();
        proof {
            gather_whole(paths@, f);
        }
        let mut i: usize = 0;
        while i < paths.len()
            invariant
                i <= paths@.len(),
                f == withdrawal_task(),
                tasks@ == gather(paths@.take(i as int), f),
            decreases paths@.len() - i,
        {
            proof {
                gather_step(paths@, i as int, f);
            }
            let k = paths[i];
            tasks.push(Task::WithdrawPath { origin: k.0, key: k.1.0, path_id: k.1.1 });
            i = i + 1;
        }
        let ghost first = tasks@;
        let ghost g = direct_withdrawal(self@.direct);
        proof {
            gather_whole(published@, g);
            assert(first + Seq::<Task>::empty() == first);
        }
        let mut j: usize = 0;
        while j < published.len()
            invariant
                j <= published@.len(),
                g == direct_withdrawal(self@.direct),
                tasks@ == first + gather(published@.take(j as int), g),
            decreases published@.len() - j,
        {
            proof {
                gather_step(published@, j as int, g);
            }
            let ghost before = tasks@;
            let r = &published[j];
            if let Some(standing) = self.direct.get(&r.key) {
                if standing.same(r) {
                    tasks.push(Task::WithdrawDirect { key: r.key });
                }
            }
            assert(tasks@ =~= before + g(published@[j as int]));
            assert(tasks@ =~= first + gather(published@.take(j + 1), g));
            j = j + 1;
        }
        assert(tasks@ == contribution_end(old(self)@, h));
        if let Some(area_id) = area {
            if !self.still_attached(area_id) {
                self.ospf.areas.remove(&area_id);
                if self.ospf.areas.is_empty() {
                    self.ospf.router_id = None;
                }
                let ghost before = tasks@;
                tasks.push(Task::ForgetArea { area: area_id });
                tasks.push(Task::OspfChanged);
                assert(tasks@ =~= before + seq![
                    Task::ForgetArea { area: area_id },
                    Task::OspfChanged,
                ]);
            }
        }
        self.schedule(tasks);
        Ok(())
    }

    /// Starts a session.
    pub fn start_session(&mut self, h: u64) -> (r: Result<(), RouterError>)
        ensures
            r == (if old(self)@.sessions.contains_key(h) {
                Ok::<(), RouterError>(())
            } else {
                Err::<(), RouterError>(RouterError::UnknownSession(h))
            }),
            final(self)@ == after_start(old(self)@, h),
    {
        drop_keys(&mut self.mrai_last, &OfSession(h));
        drop_keys(&mut self.mrai_pending, &OfSession(h));
        if self.bgp(h).is_some() {
            self.schedule(
                vec![
                    Task::StepPeer { session: h, event: PeerEvent::Start },
                    Task::ClearEstablished { session: h },
                ],
            );
        }
        if self.sessions.contains_key(&h) {
            Ok(())
        } else {
            Err(RouterError::UnknownSession(h))
        }
    }

    /// Takes in what arrived on a session.
    pub fn feed_input_at(&mut self, h: u64, input: SessionInput) -> (r: Result<(), RouterError>)
        ensures
            r == (if old(self)@.sessions.contains_key(h) {
                Ok::<(), RouterError>(())
            } else {
                Err::<(), RouterError>(RouterError::UnknownSession(h))
            }),
            final(self)@ == (if r is Ok {
                after_input(old(self)@, h, input)
            } else {
                old(self)@
            }),
    {
        if !self.sessions.contains_key(&h) {
            return Err(RouterError::UnknownSession(h));
        }
        match input {
            SessionInput::Bgp { prev, status, actions } => {
                self.feed_bgp(h, prev, status, actions);
            },
            SessionInput::Ospf { lsas } => {
                self.receive_lsas(h, lsas);
            },
            SessionInput::Babel { best, heard } => {
                self.babel_changed(h, &best, heard);
            },
        }
        Ok(())
    }

    /// Reports a session's transport closed.
    pub fn close_session(&mut self, h: u64)
        ensures
            final(self)@ == (if bgp_of(old(self)@.session(h)) is Some {
                old(self)@.schedule(
                    seq![Task::StepPeer { session: h, event: PeerEvent::TransportClosed }],
                )
            } else {
                old(self)@
            }),
    {
        if self.bgp(h).is_some() {
            self.schedule(vec![Task::StepPeer { session: h, event: PeerEvent::TransportClosed }]);
        }
    }

    /// Lets time pass; `expired` are the timers that expired.
    pub fn tick(&mut self, now_ms: u64, expired: &Vec<u32>)
        ensures
            final(self)@ == after_tick(old(self)@, now_ms, expired@),
    {
        self.now_ms = now_ms;
        let mut tasks: Vec<Task> = Vec::new();
        let ghost f = timer_task();
        proof {
            gather_whole(expired@, f);
        }
        let mut i: usize = 0;
        while i < expired.len()
            invariant
                i <= expired@.len(),
                f == timer_task(),
                tasks@ == gather(expired@.take(i as int), f),
            decreases expired@.len() - i,
        {
            proof {
                gather_step(expired@, i as int, f);
            }
            tasks.push(Task::TimerExpired { timer: expired[i] });
            i = i + 1;
        }
        let ghost first = tasks@;
        tasks.push(Task::PollExchanges);
        let ospf: bool = self.ospf.router_id.is_some();
        if ospf {
            tasks.push(Task::AgeDatabases);
            tasks.push(Task::OspfSettle);
        }
        tasks.push(Task::FlushMrai);
        tasks.push(Task::RestartWindows);
        assert(tasks@ =~= first + seq![Task::PollExchanges] + (if ospf {
            seq![Task::AgeDatabases, Task::OspfSettle]
        } else {
            Seq::empty()
        }) + seq![Task::FlushMrai, Task::RestartWindows]);
        self.schedule(tasks);
    }

    /// Takes note of whether a peer accepted a request for a route refresh;
    /// tells whether the request is on its way.
    pub fn request_route_refresh(&mut self, h: u64, accepted: bool) -> (requested: bool)
        ensures
            requested == (accepted && bgp_of(old(self)@.session(h)) is Some),
            final(self)@ == (if requested {
                old(self)@.schedule(seq![Task::Flush { session: h }])
            } else {
                old(self)@
            }),
    {
        if accepted && self.bgp(h).is_some() {
            self.schedule(vec![Task::Flush { session: h }]);
            true
        } else {
            false
        }
    }

    /// Sets the least time between two advertisements of a prefix.
    pub fn set_mrai(&mut self, h: u64, interval_ms: u64) -> (r: Result<(), RouterError>)
        ensures
            r == (if bgp_of(old(self)@.session(h)) is Some {
                Ok::<(), RouterError>(())
            } else {
                Err::<(), RouterError>(RouterError::NotBgp(h))
            }),
            final(self)@ == (if r is Ok {
                after_set_mrai(old(self)@, h, interval_ms)
            } else {
                old(self)@
            }),
    {
        if self.bgp(h).is_none() {
            return Err(RouterError::NotBgp(h));
        }
        self.mrai_interval.insert(h, interval_ms);
        if interval_ms == 0 {
            let mut tasks: Vec<Task> = Vec::new();
            let ghost f = waiting_task(h);
            let n: usize = self.mrai_pending.len();
            proof {
                gather_whole(self.mrai_pending.entries(), f);
            }
            let mut i: usize = 0;
            while i < n
                invariant
                    i <= n == self.mrai_pending.entries().len(),
                    f == waiting_task(h),
                    tasks@ == gather(self.mrai_pending.entries().take(i as int), f),
                decreases n - i,
            {
                proof {
                    gather_step(self.mrai_pending.entries(), i as int, f);
                }
                if self.mrai_pending.key_at(i).0 == h {
                    let routes = self.mrai_pending.value_at(i).routes.dup();
                    tasks.push(Task::Transmit { session: h, routes, occasion: Occasion::Update });
                }
                i = i + 1;
            }
            drop_keys(&mut self.mrai_pending, &OfSession(h));
            self.schedule(tasks);
        }
        Ok(())
    }

    /// Declares which directions of a session carry a policy.
    pub fn set_session_policy(&mut self, h: u64, import: bool, export: bool) -> (r: Result<
        (),
        RouterError,
    >)
        ensures
            r == (if old(self)@.sessions.contains_key(h) {
                Ok::<(), RouterError>(())
            } else {
                Err::<(), RouterError>(RouterError::UnknownSession(h))
            }),
            final(self)@ == (if r is Ok {
                after_set_policy(old(self)@, h, import, export)
            } else {
                old(self)@
            }),
    {
        if !self.sessions.contains_key(&h) {
            return Err(RouterError::UnknownSession(h));
        }
        let known: bool = self.policy.contains_key(&h);
        let p = self.session_policy(h);
        self.policy.insert(h, SessionPolicy { has_import: import, has_export: export, ..p });
        if !known || p.has_export != export {
            let mut tasks: Vec<Task> = Vec::new();
            let ghost f = reexport_task(h);
            let n: usize = self.loc.len();
            proof {
                gather_whole(self.loc.entries(), f);
            }
            let mut i: usize = 0;
            while i < n
                invariant
                    i <= n == self.loc.entries().len(),
                    f == reexport_task(h),
                    tasks@ == gather(self.loc.entries().take(i as int), f),
                decreases n - i,
            {
                proof {
                    gather_step(self.loc.entries(), i as int, f);
                }
                tasks.push(
                    Task::ExportTo {
                        session: h,
                        key: self.loc.key_at(i),
                        ranked: self.loc.value_at(i).dup(),
                    },
                );
                i = i + 1;
            }
            self.schedule(tasks);
        }
        Ok(())
    }

    /// Why a setting is refused.
    fn refuse_configuration(&self, h: u64, setting: SessionSetting) -> (r: Option<RouterError>)
        ensures
            r == configuration_refusal(self@, h, setting),
    {
        match self.bgp(h) {
            Some(b) => {
                if b.status.state == BgpState::Established {
                    Some(RouterError::AlreadyEstablished { session: h, setting })
                } else {
                    None
                }
            },
            None => Some(RouterError::NotBgp(h)),
        }
    }

    /// Takes a BGP session out of the table.
    fn take_bgp(&mut self, h: u64) -> (b: BgpSession)
        requires
            bgp_of(old(self)@.session(h)) is Some,
        ensures
            Some(b) == bgp_of(old(self)@.session(h)),
            final(self)@ == (RouterState {
                sessions: old(self)@.sessions.remove(h),
                ..old(self)@
            }),
    {
        match self.sessions.remove(&h) {
            Some(Session::Bgp(b)) => b,
            _ => {
                proof {
                    assert(false);
                }
                vstd::pervasive::unreached()
            },
        }
    }

    /// Puts a BGP session back into the table.
    fn put_bgp(&mut self, h: u64, b: BgpSession)
        ensures
            final(self)@ == (RouterState {
                sessions: old(self)@.sessions.insert(h, Session::Bgp(b)),
                ..old(self)@
            }),
    {
        self.sessions.insert(h, Session::Bgp(b));
    }

    /// Enables or disables several paths per prefix on a session, before it is
    /// established.
    pub fn set_session_add_path(&mut self, h: u64, enabled: bool) -> (r: Result<(), RouterError>)
        ensures
            configured(
                old(self)@,
                final(self)@,
                h,
                SessionSetting::AddPath,
                r,
                PeerConfig { add_path: enabled, ..config_of(old(self)@, h) },
            ),
    {
        if let Some(e) = self.refuse_configuration(h, SessionSetting::AddPath) {
            return Err(e);
        }
        let mut b = self.take_bgp(h);
        b.config.add_path = enabled;
        self.put_bgp(h, b);
        assert(old(self)@.sessions.remove(h).insert(h, Session::Bgp(b)) =~= old(
            self,
        )@.sessions.insert(h, Session::Bgp(b)));
        Ok(())
    }

    /// Sets the extended next-hop tuples of a session, before it is
    /// established.
    pub fn set_session_extended_next_hop(&mut self, h: u64, tuples: List<(u16, (u8, u16))>) -> (r:
        Result<(), RouterError>)
        ensures
            configured(
                old(self)@,
                final(self)@,
                h,
                SessionSetting::ExtendedNextHop,
                r,
                PeerConfig { extended_next_hop: tuples, ..config_of(old(self)@, h) },
            ),
    {
        if let Some(e) = self.refuse_configuration(h, SessionSetting::ExtendedNextHop) {
            return Err(e);
        }
        let mut b = self.take_bgp(h);
        b.config.extended_next_hop = tuples;
        self.put_bgp(h, b);
        assert(old(self)@.sessions.remove(h).insert(h, Session::Bgp(b)) =~= old(
            self,
        )@.sessions.insert(h, Session::Bgp(b)));
        Ok(())
    }

    /// Sets the families of a session, before it is established.
    pub fn set_session_mp_families(&mut self, h: u64, families: List<NlriFamily>) -> (r: Result<
        (),
        RouterError,
    >)
        ensures
            configured(
                old(self)@,
                final(self)@,
                h,
                SessionSetting::MpFamilies,
                r,
                PeerConfig { mp_families: families, ..config_of(old(self)@, h) },
            ),
    {
        if let Some(e) = self.refuse_configuration(h, SessionSetting::MpFamilies) {
            return Err(e);
        }
        let mut b = self.take_bgp(h);
        b.config.mp_families = families;
        self.put_bgp(h, b);
        assert(old(self)@.sessions.remove(h).insert(h, Session::Bgp(b)) =~= old(
            self,
        )@.sessions.insert(h, Session::Bgp(b)));
        Ok(())
    }

    /// Sets the local address of a session, before it is established.
    pub fn set_session_local_address(&mut self, h: u64, addr: IpAddr) -> (r: Result<
        (),
        RouterError,
    >)
        ensures
            configured(
                old(self)@,
                final(self)@,
                h,
                SessionSetting::LocalAddress,
                r,
                PeerConfig { local_address: Some(addr), ..config_of(old(self)@, h) },
            ),
    {
        if let Some(e) = self.refuse_configuration(h, SessionSetting::LocalAddress) {
            return Err(e);
        }
        let mut b = self.take_bgp(h);
        b.config.local_address = Some(addr);
        self.put_bgp(h, b);
        assert(old(self)@.sessions.remove(h).insert(h, Session::Bgp(b)) =~= old(
            self,
        )@.sessions.insert(h, Session::Bgp(b)));
        Ok(())
    }

    /// Sets whether IPv4 unicast is active without being listed, before the
    /// session is established.
    pub fn set_session_default_ipv4_unicast(&mut self, h: u64, on: bool) -> (r: Result<
        (),
        RouterError,
    >)
        ensures
            configured(
                old(self)@,
                final(self)@,
                h,
                SessionSetting::DefaultIpv4Unicast,
                r,
                PeerConfig { default_ipv4_unicast: on, ..config_of(old(self)@, h) },
            ),
    {
        if let Some(e) = self.refuse_configuration(h, SessionSetting::DefaultIpv4Unicast) {
            return Err(e);
        }
        let mut b = self.take_bgp(h);
        b.config.default_ipv4_unicast = on;
        self.put_bgp(h, b);
        assert(old(self)@.sessions.remove(h).insert(h, Session::Bgp(b)) =~= old(
            self,
        )@.sessions.insert(h, Session::Bgp(b)));
        Ok(())
    }

    /// Sets how often the local AS may occur in a path from a session, before
    /// it is established.
    pub fn set_session_local_as_tolerance(&mut self, h: u64, tolerance: u32) -> (r: Result<
        (),
        RouterError,
    >)
        ensures
            configured(
                old(self)@,
                final(self)@,
                h,
                SessionSetting::LocalAsTolerance,
                r,
                PeerConfig { local_as_tolerance: tolerance, ..config_of(old(self)@, h) },
            ),
    {
        if let Some(e) = self.refuse_configuration(h, SessionSetting::LocalAsTolerance) {
            return Err(e);
        }
        let mut b = self.take_bgp(h);
        b.config.local_as_tolerance = tolerance;
        self.put_bgp(h, b);
        assert(old(self)@.sessions.remove(h).insert(h, Session::Bgp(b)) =~= old(
            self,
        )@.sessions.insert(h, Session::Bgp(b)));
        Ok(())
    }

    /// Sets whether routes of a session are retained as received, before it is
    /// established.
    pub fn set_session_soft_reconfig_inbound(&mut self, h: u64, on: bool) -> (r: Result<
        (),
        RouterError,
    >)
        ensures
            configured(
                old(self)@,
                final(self)@,
                h,
                SessionSetting::SoftReconfigInbound,
                r,
                PeerConfig { soft_reconfig_inbound: on, ..config_of(old(self)@, h) },
            ),
    {
        if let Some(e) = self.refuse_configuration(h, SessionSetting::SoftReconfigInbound) {
            return Err(e);
        }
        let mut b = self.take_bgp(h);
        b.config.soft_reconfig_inbound = on;
        self.put_bgp(h, b);
        assert(old(self)@.sessions.remove(h).insert(h, Session::Bgp(b)) =~= old(
            self,
        )@.sessions.insert(h, Session::Bgp(b)));
        Ok(())
    }

    /// Attaches an exchange-plane configuration to a session, before it is
    /// established.
    pub fn set_session_exchange_plane(&mut self, h: u64, plane: List<u8>) -> (r: Result<
        (),
        RouterError,
    >)
        ensures
            configured(
                old(self)@,
                final(self)@,
                h,
                SessionSetting::ExchangePlane,
                r,
                PeerConfig { exchange_plane: Some(plane), ..config_of(old(self)@, h) },
            ),
    {
        if let Some(e) = self.refuse_configuration(h, SessionSetting::ExchangePlane) {
            return Err(e);
        }
        let mut b = self.take_bgp(h);
        b.config.exchange_plane = Some(plane);
        self.put_bgp(h, b);
        assert(old(self)@.sessions.remove(h).insert(h, Session::Bgp(b)) =~= old(
            self,
        )@.sessions.insert(h, Session::Bgp(b)));
        Ok(())
    }

    /// The record sets a session sent, most recent first.
    pub fn exchange_plane_records(&self, h: u64) -> (v: Vec<(Prefix, RecordStore)>)
        ensures
            v@ == records_of(self@.records, h).seq(),
    {
        match self.records.get(&h) {
            Some(l) => l.to_vec(),
            None => Vec::new(),
        }
    }

    /// How many record sets of a session crossed speakers that do not know
    /// them.
    pub fn exchange_plane_partial_transit(&self, h: u64) -> (n: u64)
        ensures
            n == partial_of(self@.partial_transit, h),
    {
        match self.partial_transit.get(&h) {
            Some(n) => *n,
            None => 0,
        }
    }

    /// Installs a safety net.
    pub fn set_safety_net(&mut self)
        ensures
            final(self)@ == (RouterState {
                settings: Settings { safety: true, ..old(self)@.settings },
                ..old(self)@
            }),
    {
        self.settings.safety = true;
    }

    /// Requires a declared policy on external sessions, or not.
    pub fn set_ebgp_requires_policy(&mut self, on: bool)
        ensures
            final(self)@ == (RouterState {
                settings: Settings { ebgp_requires_policy: on, ..old(self)@.settings },
                ..old(self)@
            }),
    {
        self.settings.ebgp_requires_policy = on;
    }

    /// Requires the first AS of a path to be the external peer's, or not.
    pub fn set_enforce_first_as(&mut self, on: bool)
        ensures
            final(self)@ == (RouterState {
                settings: Settings { enforce_first_as: on, ..old(self)@.settings },
                ..old(self)@
            }),
    {
        self.settings.enforce_first_as = on;
    }

    /// Whether the first AS of a path must be the external peer's.
    pub fn enforce_first_as(&self) -> (b: bool)
        ensures
            b == self@.settings.enforce_first_as,
    {
        self.settings.enforce_first_as
    }

    /// Sets how many paths per destination are kept, at least one.
    pub fn set_add_path_max_paths(&mut self, max_paths: usize)
        ensures
            final(self)@ == (RouterState {
                settings: Settings {
                    max_paths: if max_paths < 1 {
                        1
                    } else {
                        max_paths
                    },
                    ..old(self)@.settings
                },
                ..old(self)@
            }),
    {
        self.settings.max_paths = if max_paths < 1 {
            1
        } else {
            max_paths
        };
    }

    /// How many paths per destination are kept.
    pub fn add_path_max_paths(&self) -> (n: usize)
        ensures
            n == self@.settings.max_paths,
    {
        self.settings.max_paths
    }

    /// Mirrors events from now on.
    pub fn set_bmp_sink(&mut self)
        ensures
            final(self)@ == (RouterState {
                settings: Settings { bmp: true, ..old(self)@.settings },
                ..old(self)@
            }),
    {
        self.settings.bmp = true;
    }

    /// Takes the events reported so far.
    pub fn poll_events(&mut self) -> (v: Vec<RouterEvent>)
        ensures
            v@ == old(self)@.events,
            final(self)@ == polled(old(self)@),
    {
        let mut v: Vec<RouterEvent> = Vec::new();
        std::mem::swap(&mut v, &mut self.events);
        v
    }

    /// Puts events back ahead of those reported since.
    pub fn requeue_events(&mut self, events: Vec<RouterEvent>)
        ensures
            final(self)@ == requeued(old(self)@, events@),
    {
        let mut all: Vec<RouterEvent> = events;
        let mut later: Vec<RouterEvent> = Vec::new();
        std::mem::swap(&mut later, &mut self.events);
        all.append(&mut later);
        self.events = all;
    }

    /// The best path of every destination.
    pub fn rib_snapshot(&self) -> (v: Vec<Route>)
        ensures
            v@ == gather(sorted(self@.loc), best_paths()),
    {
        let mut v: Vec<Route> = Vec::new();
        let ghost f = best_paths();
        let n: usize = self.loc.len();
        proof {
            gather_whole(self.loc.entries(), f);
        }
        let mut i: usize = 0;
        while i < n
            invariant
                i <= n == self.loc.entries().len(),
                f == best_paths(),
                v@ == gather(self.loc.entries().take(i as int), f),
            decreases n - i,
        {
            proof {
                gather_step(self.loc.entries(), i as int, f);
            }
            if let List::Cons(r, _) = self.loc.value_at(i) {
                v.push(r.dup());
            }
            i = i + 1;
        }
        v
    }

    /// Every path of every destination.
    pub fn rib_paths_snapshot(&self) -> (v: Vec<Route>)
        ensures
            v@ == gather(sorted(self@.loc), all_paths()),
    {
        let mut v: Vec<Route> = Vec::new();
        let ghost f = all_paths();
        let n: usize = self.loc.len();
        proof {
            gather_whole(self.loc.entries(), f);
        }
        let mut i: usize = 0;
        while i < n
            invariant
                i <= n == self.loc.entries().len(),
                f == all_paths(),
                v@ == gather(self.loc.entries().take(i as int), f),
            decreases n - i,
        {
            proof {
                gather_step(self.loc.entries(), i as int, f);
            }
            let mut paths = self.loc.value_at(i).to_vec();
            v.append(&mut paths);
            i = i + 1;
        }
        v
    }

    /// The number of destinations in the Loc-RIB.
    pub fn rib_len(&self) -> (n: usize)
        ensures
            n == sorted(self@.loc).len(),
    {
        self.loc.len()
    }

    /// The state of a BGP session's state machine.
    pub fn session_peer_state(&self, h: u64) -> (s: Option<BgpState>)
        ensures
            s == (match bgp_of(self@.session(h)) {
                Some(b) => Some(b.status.state),
                None => None,
            }),
    {
        match self.bgp(h) {
            Some(b) => Some(b.status.state),
            None => None,
        }
    }

    /// An overview of every session.
    pub fn session_summaries(&self) -> (v: Vec<SessionSummary>)
        ensures
            v@ == gather(sorted(self@.sessions), summarised(self@.adj_in)),
    {
        let mut v: Vec<SessionSummary> = Vec::new();
        let ghost f = summarised(self@.adj_in);
        let n: usize = self.sessions.len();
        proof {
            gather_whole(self.sessions.entries(), f);
        }
        let mut i: usize = 0;
        while i < n
            invariant
                i <= n == self.sessions.entries().len(),
                f == summarised(self@.adj_in),
                v@ == gather(self.sessions.entries().take(i as int), f),
            decreases n - i,
        {
            proof {
                gather_step(self.sessions.entries(), i as int, f);
            }
            let h: u64 = self.sessions.key_at(i);
            let count: usize = find_keys(&self.adj_in, &OfPeer(h)).len();
            v.push(summarise(h, self.sessions.value_at(i), count));
            i = i + 1;
        }
        v
    }
}

/// Nothing the router keeps about a session outlives it, and everything that
/// it contributed is on its way out.
pub proof fn nothing_outlives_a_session(st: RouterState, h: u64)
    ensures
        ({
            let t = after_remove_session(st, h);
            &&& !t.sessions.contains_key(h)
            &&& !t.mrai_interval.contains_key(h)
            &&& !t.windows.contains_key(h)
            &&& !t.policy.contains_key(h)
            &&& !t.llgr_caps.contains_key(h)
            &&& !t.limits.contains_key(h)
            &&& !t.collision.contains_key(h)
            &&& !t.records.contains_key(h)
            &&& !t.partial_transit.contains_key(h)
            &&& forall|k: RouteKey| !#[trigger] t.mrai_last.contains_key((h, k))
            &&& forall|k: RouteKey| !#[trigger] t.mrai_pending.contains_key((h, k))
            &&& forall|f: NlriFamily| !#[trigger] t.deadlines.contains_key((h, f))
            &&& forall|k: (RouteKey, u32)| !#[trigger] t.refreshed.contains_key((h, k))
            &&& forall|k: PathKey|
                OfBgpPeer(h).accepts(k) ==> !#[trigger] t.adj_out.contains_key(k)
                    && !t.pre_policy.contains_key(k) && !t.screened.contains_key(k)
            &&& forall|k: PathKey|
                #![trigger st.adj_in.contains_key(k)]
                is_table(st.adj_in) && st.adj_in.contains_key(k) && k.0.peer == h
                    ==> t.agenda.contains(
                    Task::WithdrawPath { origin: k.0, key: k.1.0, path_id: k.1.1 },
                )
            &&& forall|r: Route|
                #![trigger published_by(st.session(h)).contains(r)]
                published_by(st.session(h)).contains(r) && lookup(st.direct, r.key) == Some(r)
                    ==> t.agenda.contains(Task::WithdrawDirect { key: r.key })
                    && !after_withdraw_direct(t, r.key).direct.contains_key(r.key)
        }),
{
    let t = after_remove_session(st, h);
    let ends = contribution_end(st, h);
    let paths = keys_where(st.adj_in, OfPeer(h));
    let published = published_by(st.session(h));
    let (f, g) = (withdrawal_task(), direct_withdrawal(st.direct));
    let tasks = match orphaned_area(st, h) {
        Some(area) => ends + seq![Task::ForgetArea { area }, Task::OspfChanged],
        None => ends,
    };
    assert(t.agenda == st.agenda + tasks.reverse());
    assert forall|k: PathKey|
        #![trigger st.adj_in.contains_key(k)]
        is_table(st.adj_in) && st.adj_in.contains_key(k) && k.0.peer == h implies t.agenda.contains(
        Task::WithdrawPath { origin: k.0, key: k.1.0, path_id: k.1.1 },
    ) by {
        let x = Task::WithdrawPath { origin: k.0, key: k.1.0, path_id: k.1.1 };
        lemma_keys_where(sorted(st.adj_in), OfPeer(h), k);
        let i = paths.index_of(k);
        assert(f(paths[i])[0] == x);
        gather_includes(paths, f, i, x);
        let at = gather(paths, f).index_of(x);
        assert(tasks[at] == x);
        lemma_scheduled(st, tasks, at);
    }
    assert forall|r: Route|
        #![trigger published_by(st.session(h)).contains(r)]
        published_by(st.session(h)).contains(r) && lookup(st.direct, r.key) == Some(
            r,
        ) implies t.agenda.contains(Task::WithdrawDirect { key: r.key }) by {
        let x = Task::WithdrawDirect { key: r.key };
        let i = published.index_of(r);
        assert(g(published[i])[0] == x);
        gather_includes(published, g, i, x);
        let at = gather(published, g).index_of(x) + gather(paths, f).len();
        assert(tasks[at] == x);
        lemma_scheduled(st, tasks, at);
    }
}

proof fn lemma_scheduled(st: RouterState, tasks: Seq<Task>, at: int)
    requires
        0 <= at < tasks.len(),
    ensures
        (st.agenda + tasks.reverse()).contains(tasks[at]),
{
    let all = st.agenda + tasks.reverse();
    assert(all[st.agenda.len() + tasks.len() - 1 - at] == tasks[at]);
}

/// Other sessions are untouched when one is removed.
pub proof fn removal_spares_other_sessions(st: RouterState, h: u64, other: u64)
    requires
        other != h,
        st.sessions.contains_key(other),
    ensures
        after_remove_session(st, h).sessions.contains_key(other),
        after_remove_session(st, h).sessions[other] == st.sessions[other],
{
}

/// Events that were polled and put back are in their old order, ahead of
/// anything reported in between.
pub proof fn requeue_undoes_poll(st: RouterState, e: RouterEvent)
    ensures
        requeued(polled(st), st.events) == st,
        requeued(polled(st).report(e), st.events) == st.report(e),
{
    assert(st.events + Seq::<RouterEvent>::empty() =~= st.events);
    assert(st.events + Seq::<RouterEvent>::empty().push(e) =~= st.events.push(e));
}

/// Without interval, nothing waits for a session.
pub proof fn no_interval_no_waiting(st: RouterState, h: u64, k: RouteKey)
    ensures
        !after_set_mrai(st, h, 0).mrai_pending.contains_key((h, k)),
{
}

} // verus!
