//! The router: its state, its agenda and the steps that work it off.

use crate::addr::{NlriFamily, Prefix};
use crate::events::{LogEntry, RouterEvent};
use crate::list::List;
use crate::ordmap::{lookup, OrdMap};
use crate::ospf::facts::AreaView;
use crate::ospf::grace::{GraceRecord, OspfGraceEvent};
use crate::ospf::plan::{ExternalDestination, V3ExternalDestination};
use crate::route::{RecordStore, Route, RouteKey, RouteOrigin};
use crate::session::Session;
use crate::task::{RedistributionPipe, Task};
use vstd::prelude::*;

pub mod attending;
pub mod contributing;
pub mod counting;
pub mod engine;
pub mod export;
pub mod flows;
pub mod import;
pub mod instance;
pub mod intake;
pub mod order;
pub mod origination;
pub mod paths;
pub mod plane;
pub mod planning;
pub mod peers;
pub mod receiving;
pub mod restart;
pub mod retaining;
pub mod selection;
pub mod serving;
pub mod sessions;
pub mod telling;
pub mod working;

verus! {

/// A path in a per-peer table: contributor or destination peer, destination,
/// path identifier.
pub type PathKey = (RouteOrigin, (RouteKey, u32));

/// Which directions of a session carry a policy, and which refusals were
/// reported already.
#[derive(Clone, Copy, Debug, PartialEq, Eq, Structural)]
pub struct SessionPolicy {
    pub has_import: bool,
    pub has_export: bool,
    pub warned_import: bool,
    pub warned_export: bool,
    pub warned_first_as: bool,
}

/// A session's contribution to the Adj-RIB-In, and which of its prefix limits
/// were reported already.
#[derive(Clone, Copy, Debug, PartialEq, Eq, Structural)]
pub struct LimitState {
    pub exceeded: bool,
    pub warned: bool,
    pub count: u32,
}

/// Advertisements that wait for their interval.
#[derive(Debug)]
pub struct PendingUpdate {
    pub routes: List<Route>,
    pub due_ms: u64,
}

/// Retention of a session's routes after it went down. Once `marked_stale`,
/// its restart time has ended.
#[derive(Clone, Copy, Debug, PartialEq, Eq, Structural)]
pub struct RestartWindow {
    pub expires_ms: u64,
    pub marked_stale: bool,
}

/// A configured virtual link: the session that carries it while it is up.
#[derive(Clone, Copy, Debug, PartialEq, Eq, Structural)]
pub struct VirtualLink {
    pub session: Option<u64>,
}

/// The settings that switch behaviour on and off.
#[derive(Clone, Copy, Debug, PartialEq, Eq, Structural)]
pub struct Settings {
    /// Whether received routes pass a safety net.
    pub safety: bool,
    /// Whether events are mirrored to a monitoring sink.
    pub bmp: bool,
    /// How many paths per destination the decision process keeps.
    pub max_paths: usize,
    /// Whether external sessions without policy exchange nothing.
    pub ebgp_requires_policy: bool,
    /// Whether the first AS of a path must be the external peer's.
    pub enforce_first_as: bool,
    pub sr_receive: bool,
    pub srv6_receive: bool,
    pub v3_extended_lsas: bool,
}

/// OSPF: the attached areas and what the router keeps across them.
pub struct OspfPlane {
    pub router_id: Option<u32>,
    pub areas: OrdMap<u32, AreaView>,
    pub published: OrdMap<RouteKey, Route>,
    /// Destinations redistributed into OSPFv2, by network.
    pub externals: OrdMap<u32, ExternalDestination>,
    pub externals_v3: OrdMap<Prefix, V3ExternalDestination>,
    pub external_ids: OrdMap<Prefix, u32>,
    /// Identifiers of inter-area prefixes by area and prefix.
    pub summary_ids: OrdMap<(u32, Prefix), u32>,
    /// Translated type-7 LSAs by area, identifier and originator.
    pub translations: OrdMap<(u32, (u32, u32)), ()>,
    /// Virtual links by transit area and endpoint.
    pub vlinks: OrdMap<(u32, u32), VirtualLink>,
    pub grace_seen: OrdMap<(u32, u32), GraceRecord>,
    pub grace_events: Vec<OspfGraceEvent>,
    /// Whether a database changed since everything was last computed from the
    /// databases.
    pub dirty: bool,
}

/// A router. Work that needs the embedder is left on the agenda, a stack whose
/// last entry is the next one; see [`DefaultRouter::pending`] and
/// [`DefaultRouter::step`].
pub struct DefaultRouter {
    pub sessions: OrdMap<u64, Session>,
    pub next_handle: u64,
    pub now_ms: u64,
    pub settings: Settings,
    /// Routes that passed import.
    pub adj_in: OrdMap<PathKey, Route>,
    /// Routes as received, for sessions that retain them.
    pub pre_policy: OrdMap<PathKey, Route>,
    /// Those of them that were handed to the import hooks.
    pub screened: OrdMap<PathKey, Route>,
    /// Routes as advertised.
    pub adj_out: OrdMap<PathKey, Route>,
    /// The ranked paths in force.
    pub loc: OrdMap<RouteKey, List<Route>>,
    pub originated: OrdMap<RouteKey, Route>,
    pub statics: OrdMap<RouteKey, Route>,
    /// Copies that pipes put into BGP.
    pub redistributed: OrdMap<RouteKey, Route>,
    /// Routes contributed by OSPF and Babel.
    pub direct: OrdMap<RouteKey, Route>,
    pub mrai_interval: OrdMap<u64, u64>,
    pub mrai_last: OrdMap<(u64, RouteKey), u64>,
    pub mrai_pending: OrdMap<(u64, RouteKey), PendingUpdate>,
    pub windows: OrdMap<u64, RestartWindow>,
    pub deadlines: OrdMap<(u64, NlriFamily), u64>,
    /// Paths advertised anew by a session under retention.
    pub refreshed: OrdMap<(u64, (RouteKey, u32)), ()>,
    pub llgr_caps: OrdMap<u64, u32>,
    pub limits: OrdMap<u64, LimitState>,
    pub policy: OrdMap<u64, SessionPolicy>,
    /// Collision group of a session, and whether it was initiated here.
    pub collision: OrdMap<u64, (u64, bool)>,
    pub pipes: Vec<RedistributionPipe>,
    pub aggregates: OrdMap<Prefix, ()>,
    /// Destinations whose originated route an aggregate made.
    pub aggregated: OrdMap<RouteKey, ()>,
    /// Record sets of a session by prefix, most recent first.
    pub records: OrdMap<u64, List<(Prefix, RecordStore)>>,
    pub partial_transit: OrdMap<u64, u64>,
    /// Destinations touched by a reconfiguration in progress.
    pub touched: OrdMap<RouteKey, ()>,
    pub ospf: OspfPlane,
    pub events: Vec<RouterEvent>,
    pub agenda: Vec<Task>,
}

/// The OSPF plane as mathematical values.
#[verifier::ext_equal]
pub ghost struct OspfState {
    pub router_id: Option<u32>,
    pub areas: Map<u32, AreaView>,
    pub published: Map<RouteKey, Route>,
    pub externals: Map<u32, ExternalDestination>,
    pub externals_v3: Map<Prefix, V3ExternalDestination>,
    pub external_ids: Map<Prefix, u32>,
    pub summary_ids: Map<(u32, Prefix), u32>,
    pub translations: Map<(u32, (u32, u32)), ()>,
    pub vlinks: Map<(u32, u32), VirtualLink>,
    pub grace_seen: Map<(u32, u32), GraceRecord>,
    pub grace_events: Seq<OspfGraceEvent>,
    pub dirty: bool,
}

/// The router as mathematical values.
#[verifier::ext_equal]
pub ghost struct RouterState {
    pub sessions: Map<u64, Session>,
    pub next_handle: u64,
    pub now_ms: u64,
    pub settings: Settings,
    pub adj_in: Map<PathKey, Route>,
    pub pre_policy: Map<PathKey, Route>,
    pub screened: Map<PathKey, Route>,
    pub adj_out: Map<PathKey, Route>,
    pub loc: Map<RouteKey, List<Route>>,
    pub originated: Map<RouteKey, Route>,
    pub statics: Map<RouteKey, Route>,
    pub redistributed: Map<RouteKey, Route>,
    pub direct: Map<RouteKey, Route>,
    pub mrai_interval: Map<u64, u64>,
    pub mrai_last: Map<(u64, RouteKey), u64>,
    pub mrai_pending: Map<(u64, RouteKey), PendingUpdate>,
    pub windows: Map<u64, RestartWindow>,
    pub deadlines: Map<(u64, NlriFamily), u64>,
    pub refreshed: Map<(u64, (RouteKey, u32)), ()>,
    pub llgr_caps: Map<u64, u32>,
    pub limits: Map<u64, LimitState>,
    pub policy: Map<u64, SessionPolicy>,
    pub collision: Map<u64, (u64, bool)>,
    pub pipes: Seq<RedistributionPipe>,
    pub aggregates: Map<Prefix, ()>,
    pub aggregated: Map<RouteKey, ()>,
    pub records: Map<u64, List<(Prefix, RecordStore)>>,
    pub partial_transit: Map<u64, u64>,
    pub touched: Map<RouteKey, ()>,
    pub ospf: OspfState,
    pub events: Seq<RouterEvent>,
    pub agenda: Seq<Task>,
}

impl View for OspfPlane {
    type V = OspfState;

    open spec fn view(&self) -> OspfState {
        OspfState {
            router_id: self.router_id,
            areas: self.areas@,
            published: self.published@,
            externals: self.externals@,
            externals_v3: self.externals_v3@,
            external_ids: self.external_ids@,
            summary_ids: self.summary_ids@,
            translations: self.translations@,
            vlinks: self.vlinks@,
            grace_seen: self.grace_seen@,
            grace_events: self.grace_events@,
            dirty: self.dirty,
        }
    }
}

impl View for DefaultRouter {
    type V = RouterState;

    open spec fn view(&self) -> RouterState {
        RouterState {
            sessions: self.sessions@,
            next_handle: self.next_handle,
            now_ms: self.now_ms,
            settings: self.settings,
            adj_in: self.adj_in@,
            pre_policy: self.pre_policy@,
            screened: self.screened@,
            adj_out: self.adj_out@,
            loc: self.loc@,
            originated: self.originated@,
            statics: self.statics@,
            redistributed: self.redistributed@,
            direct: self.direct@,
            mrai_interval: self.mrai_interval@,
            mrai_last: self.mrai_last@,
            mrai_pending: self.mrai_pending@,
            windows: self.windows@,
            deadlines: self.deadlines@,
            refreshed: self.refreshed@,
            llgr_caps: self.llgr_caps@,
            limits: self.limits@,
            policy: self.policy@,
            collision: self.collision@,
            pipes: self.pipes@,
            aggregates: self.aggregates@,
            aggregated: self.aggregated@,
            records: self.records@,
            partial_transit: self.partial_transit@,
            touched: self.touched@,
            ospf: self.ospf@,
            events: self.events@,
            agenda: self.agenda@,
        }
    }
}

impl RouterState {
    /// A router without sessions, routes or settings.
    pub open spec fn fresh() -> RouterState {
        RouterState {
        sessions: Map::empty(),
        next_handle: 1,
        now_ms: 0,
        settings: Settings {
            safety: false,
            bmp: false,
            max_paths: 1,
            ebgp_requires_policy: false,
            enforce_first_as: false,
            sr_receive: false,
            srv6_receive: false,
            v3_extended_lsas: false,
        },
        adj_in: Map::empty(),
        pre_policy: Map::empty(),
        screened: Map::empty(),
        adj_out: Map::empty(),
        loc: Map::empty(),
        originated: Map::empty(),
        statics: Map::empty(),
        redistributed: Map::empty(),
        direct: Map::empty(),
        mrai_interval: Map::empty(),
        mrai_last: Map::empty(),
        mrai_pending: Map::empty(),
        windows: Map::empty(),
        deadlines: Map::empty(),
        refreshed: Map::empty(),
        llgr_caps: Map::empty(),
        limits: Map::empty(),
        policy: Map::empty(),
        collision: Map::empty(),
        pipes: Seq::empty(),
        aggregates: Map::empty(),
        aggregated: Map::empty(),
        records: Map::empty(),
        partial_transit: Map::empty(),
        touched: Map::empty(),
        ospf: OspfState {
            router_id: None,
            areas: Map::empty(),
            published: Map::empty(),
            externals: Map::empty(),
            externals_v3: Map::empty(),
            external_ids: Map::empty(),
            summary_ids: Map::empty(),
            translations: Map::empty(),
            vlinks: Map::empty(),
            grace_seen: Map::empty(),
            grace_events: Seq::empty(),
            dirty: false,
        },
        events: Seq::empty(),
        agenda: Seq::empty(),
    }
    }

    /// The router after reporting an event.
    pub open spec fn report(self, e: RouterEvent) -> RouterState {
        RouterState { events: self.events.push(e), ..self }
    }

    /// The router after reporting a log line.
    pub open spec fn log(self, e: LogEntry) -> RouterState {
        self.report(RouterEvent::Log(e))
    }

    /// The router with tasks put ahead of its agenda, the first of them next.
    pub open spec fn schedule(self, tasks: Seq<Task>) -> RouterState {
        RouterState { agenda: self.agenda + tasks.reverse(), ..self }
    }

    /// The session behind a handle.
    pub open spec fn session(self, h: u64) -> Option<Session> {
        lookup(self.sessions, h)
    }
}

impl OspfPlane {
    /// A plane without areas.
    pub fn new() -> (p: OspfPlane)
        ensures
            p@ == (OspfState {
                router_id: None,
                areas: Map::empty(),
                published: Map::empty(),
                externals: Map::empty(),
                externals_v3: Map::empty(),
                external_ids: Map::empty(),
                summary_ids: Map::empty(),
                translations: Map::empty(),
                vlinks: Map::empty(),
                grace_seen: Map::empty(),
                grace_events: Seq::empty(),
                dirty: false,
            }),
    {
        OspfPlane {
            router_id: None,
            areas: OrdMap::new(),
            published: OrdMap::new(),
            externals: OrdMap::new(),
            externals_v3: OrdMap::new(),
            external_ids: OrdMap::new(),
            summary_ids: OrdMap::new(),
            translations: OrdMap::new(),
            vlinks: OrdMap::new(),
            grace_seen: OrdMap::new(),
            grace_events: Vec::new(),
            dirty: false,
        }
    }
}

impl DefaultRouter {
    /// A router without sessions, routes or settings; the first session gets
    /// handle 1.
    pub fn new() -> (r: DefaultRouter)
        ensures
            r@ == RouterState::fresh(),
    {
        DefaultRouter {
            sessions: OrdMap::new(),
            next_handle: 1,
            now_ms: 0,
            settings: Settings {
                safety: false,
                bmp: false,
                max_paths: 1,
                ebgp_requires_policy: false,
                enforce_first_as: false,
                sr_receive: false,
                srv6_receive: false,
                v3_extended_lsas: false,
            },
            adj_in: OrdMap::new(),
            pre_policy: OrdMap::new(),
            screened: OrdMap::new(),
            adj_out: OrdMap::new(),
            loc: OrdMap::new(),
            originated: OrdMap::new(),
            statics: OrdMap::new(),
            redistributed: OrdMap::new(),
            direct: OrdMap::new(),
            mrai_interval: OrdMap::new(),
            mrai_last: OrdMap::new(),
            mrai_pending: OrdMap::new(),
            windows: OrdMap::new(),
            deadlines: OrdMap::new(),
            refreshed: OrdMap::new(),
            llgr_caps: OrdMap::new(),
            limits: OrdMap::new(),
            policy: OrdMap::new(),
            collision: OrdMap::new(),
            pipes: Vec::new(),
            aggregates: OrdMap::new(),
            aggregated: OrdMap::new(),
            records: OrdMap::new(),
            partial_transit: OrdMap::new(),
            touched: OrdMap::new(),
            ospf: OspfPlane::new(),
            events: Vec::new(),
            agenda: Vec::new(),
        }
    }

    /// Reports an event.
    pub(crate) fn report(&mut self, e: RouterEvent)
        ensures
            final(self)@ == old(self)@.report(e),
    {
        self.events.push(e);
    }

    /// Reports a log line.
    pub(crate) fn log(&mut self, e: LogEntry)
        ensures
            final(self)@ == old(self)@.log(e),
    {
        self.events.push(RouterEvent::Log(e));
    }

    /// Puts tasks ahead of the agenda, the first of them next.
    pub(crate) fn schedule(&mut self, tasks: Vec<Task>)
        ensures
            final(self)@ == old(self)@.schedule(tasks@),
    {
        let ghost all = tasks@;
        let ghost start = self.agenda@;
        let mut rest: Vec<Task> = tasks;
        while rest.len() > 0
            invariant
                rest@.len() <= all.len(),
                rest@ == all.take(rest@.len() as int),
                self@ == (RouterState { agenda: self.agenda@, ..old(self)@ }),
                self.agenda@ == start + all.skip(rest@.len() as int).reverse(),
                start == old(self).agenda@,
            decreases rest@.len(),
        {
            let ghost n = rest@.len() as int;
            let ghost before = self.agenda@;
            if let Some(t) = rest.pop() {
                self.agenda.push(t);
                assert(rest@ == all.take(n - 1));
                assert(all.skip(n - 1).reverse() == all.skip(n).reverse().push(all[n - 1]));
                assert(self.agenda@ == start + all.skip(n - 1).reverse());
            }
        }
        assert(all.skip(0) == all);
    }

    /// The task to be done next.
    pub fn pending(&self) -> (t: Option<&Task>)
        ensures
            t == (if self@.agenda.len() == 0 {
                None
            } else {
                Some(&self@.agenda.last())
            }),
    {
        if self.agenda.len() == 0 {
            None
        } else {
            Some(&self.agenda[self.agenda.len() - 1])
        }
    }
}

impl Default for DefaultRouter {
    fn default() -> (r: DefaultRouter)
        ensures
            r@ == RouterState::fresh(),
    {
        DefaultRouter::new()
    }
}

} // verus!
