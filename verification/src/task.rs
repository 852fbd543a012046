//! The agenda: what is to be done next, by the router itself or by its
//! embedder, and the answers the embedder gives.

use crate::addr::{IpAddr, NlriFamily, Prefix};
use crate::events::{RouterEvent, Violation};
use crate::list::List;
use crate::ospf::lsa::{InstallOutcome, Lsa, LsaKey};
use crate::ospf::plan::{AreaPlan, ExternalDestination, V3ExternalDestination};
use crate::route::{Attributes, Protocol, RecordStore, Route, RouteKey, RouteOrigin};
use crate::session::PeerStatus;
use vstd::prelude::*;

verus! {

/// A pipe that carries routes of one protocol into another. Its prefix filter
/// and metric policy are kept by the embedder under `id`.
#[derive(Clone, Copy, Debug, PartialEq, Eq, Structural)]
pub struct RedistributionPipe {
    pub id: u32,
    pub source: Protocol,
    pub target: Protocol,
    pub tag: u32,
}

/// An event for a peer's state machine.
#[derive(Clone, Copy, Debug, PartialEq, Eq, Structural)]
pub enum PeerEvent {
    /// Reset it, start it manually and report the transport open.
    Start,
    /// The transport went away.
    TransportClosed,
    /// Stop it manually.
    Stop,
    /// Drop what it has buffered, queue a Cease notification with this subcode,
    /// stop it manually.
    CollisionStop { subcode: u8 },
    /// The timer with this code expired.
    Timer(u8),
}

/// What a peer's state machine asks of the router.
#[derive(Debug)]
pub enum BgpAction {
    Send(List<u8>),
    SetTimer { timer: u32, millis: u64 },
    CancelTimer { timer: u32 },
    InstallRoute(Route),
    WithdrawRoute { key: RouteKey, path_id: u32 },
    RouteRefreshRequested(NlriFamily),
    EndOfRib(NlriFamily),
    Emit(RouterEvent),
    Close,
    Nothing,
}

/// The header of a monitoring message about one peer.
#[derive(Clone, Copy, Debug, PartialEq, Eq, Structural)]
pub struct PeerHeader {
    /// The peer's identifier stands in the low 32 bits.
    pub peer_address: u128,
    pub peer_as: u32,
    pub peer_bgp_id: u32,
    pub timestamp_secs: u32,
}

/// A monitored announcement: in the legacy section of an UPDATE without
/// `reach`, else in an MP_REACH_NLRI with that family and next hop.
#[derive(Debug)]
pub struct MonitoredUpdate {
    pub prefix: Prefix,
    pub path_id: u32,
    pub attributes: Attributes,
    pub reach: Option<(NlriFamily, IpAddr)>,
}

/// A monitoring message.
#[derive(Debug)]
pub enum BmpMessage {
    PeerUp { header: PeerHeader },
    PeerDown { header: PeerHeader },
    RouteMonitoring { header: PeerHeader, update: MonitoredUpdate },
}

/// On what occasion routes are transmitted.
#[derive(Clone, Copy, Debug, PartialEq, Eq, Structural)]
pub enum Occasion {
    /// The selection of a prefix changed.
    Update,
    /// The initial dump to a newly established peer.
    Dump,
    /// A route refresh.
    Refresh,
}

/// A link-state update packet.
#[derive(Debug)]
pub struct LsUpdate {
    pub version: u8,
    pub kind: u8,
    pub router_id: u32,
    pub area_id: u32,
    pub lsa_count: u32,
    pub lsas: List<Lsa>,
}

/// By which rule candidates are ranked.
#[derive(Clone, Copy, Debug, PartialEq, Eq, Structural)]
pub enum SelectionRule {
    /// The decision process of BGP.
    BestPath,
    /// The preference between protocols.
    AcrossProtocols,
}

/// How far the intake of received LSAs has come.
#[derive(Debug)]
pub struct LsaProgress {
    /// Not looked at yet.
    pub queue: List<Lsa>,
    /// Installed with a change.
    pub changed: List<Lsa>,
    /// Graceful-restart announcements.
    pub grace: List<Lsa>,
}

/// An entry of the agenda.
#[derive(Debug)]
pub enum Task {
    // ----- for the embedder -----
    /// Ask the safety net about a received route. Answer: `Safety`.
    CheckSafety { route: Route },
    /// Run the import hooks on a route. Answer: `Hooked`.
    RunImport { route: Route, reconfig: bool },
    /// Tell the import hooks of a withdrawal. Answer: `Done`.
    TellWithdrawn { key: RouteKey, secs: u64 },
    /// Rank candidates by a rule, best first. Answer: `Ranked`.
    Rank { key: RouteKey, candidates: List<Route>, rule: SelectionRule },
    /// Run the export hooks toward a session on the first route of `todo`, and
    /// test its communities. Answer: `Exported`.
    Filter { session: u64, key: RouteKey, todo: List<Route>, kept: List<Route> },
    /// Run the export hooks toward a session on a route. Answer: `Hooked`.
    Offer { session: u64, route: Route, occasion: Occasion },
    /// Hand routes to a peer for transmission. Answer: `Sent`, whether it took
    /// any.
    Transmit { session: u64, routes: List<Route>, occasion: Occasion },
    /// Hand a withdrawal to a peer. Answer: `Sent`.
    Retract { session: u64, key: RouteKey, ids: List<u32> },
    /// Hand the withdrawals that precede a refresh to a peer. Answer: `Done`.
    Clear { session: u64, key: RouteKey, ids: List<u32> },
    /// Announce a route refresh. Answer: `Sent`, whether it is demarcated.
    BeginRefresh { session: u64, family: NlriFamily },
    /// Send the end-of-RIB markers and, if demarcated, the end of the refresh.
    /// Answer: `Done`.
    EndRefresh { session: u64, family: NlriFamily, demarcated: bool },
    /// Send the end-of-RIB markers. Answer: `Done`.
    SendEndOfRib { session: u64 },
    /// Queue a Cease notification with this subcode. Answer: `Done`.
    Notify { session: u64, subcode: u8 },
    /// Step a peer's state machine. Answer: `Stepped`.
    StepPeer { session: u64, event: PeerEvent },
    /// Write bytes to a session's transport. Answer: `Done`.
    Write { session: u64, bytes: List<u8> },
    /// Arm a timer. Answer: `Done`.
    ArmTimer { timer: u32, millis: u64 },
    /// Cancel a timer. Answer: `Done`.
    DisarmTimer { timer: u32 },
    /// Move what a peer has buffered to its transport. Answer: `Done`.
    Flush { session: u64 },
    /// Hand a message to the monitoring sink. Answer: `Done`.
    Mirror(BmpMessage),
    /// Ask a pipe whether it takes a route. Answer: `Piped`.
    AskPipe { route: Route, pipe: RedistributionPipe },
    /// Retransmit what the database exchanges have outstanding. Answer: `Done`.
    PollExchanges,
    /// Refresh and age the link-state databases, and hand over the new views of
    /// the areas. Answer: `Changed`, whether an LSA aged out.
    AgeDatabases,
    /// Bring link-state databases in line with plans, flood what changed and
    /// hand over the new views of the areas. Answer: `Changed`.
    ApplyPlans { plans: List<AreaPlan> },
    /// Drop LSAs from an area's database and hand over its new view. Answer:
    /// `Done`.
    Discard { area: u32, keys: List<LsaKey> },
    /// Install a received LSA into an area's database and hand over its new
    /// view. Answer: `Installed`.
    InstallLsa {
        session: u64,
        area: u32,
        lsa: Lsa,
        progress: LsaProgress,
    },
    /// Install an LSA into the database of another area it is flooded to, and
    /// hand over its new view. Answer: `Installed`.
    MirrorLsa { area: u32, lsa: Lsa, queue: List<Lsa>, newly: List<Lsa> },
    /// Send a link-state update on a session. Answer: `Done`.
    SendLsas { session: u64, packet: LsUpdate },
    /// Discard an area's database. Answer: `Done`.
    ForgetArea { area: u32 },
    /// Discard a Babel session's table. Answer: `Done`.
    ForgetBabel { session: u64 },
    // ----- for the router -----
    /// Go on with a route that passed the safety net.
    Screen { route: Route },
    /// Look at a session's prefix limit.
    CheckLimit { session: u64 },
    /// Note the records a route carried.
    NoteRecords { session: u64, key: RouteKey, store: Option<RecordStore> },
    /// Forget the records of a prefix.
    DropRecords { session: u64, prefix: Prefix },
    /// A contributor withdraws a path.
    WithdrawPath { origin: RouteOrigin, key: RouteKey, path_id: u32 },
    /// Remove a withdrawn path.
    RemovePath { origin: RouteOrigin, key: RouteKey, path_id: u32 },
    /// Drop a path that was not refreshed.
    PurgePath { origin: RouteOrigin, key: RouteKey, path_id: u32 },
    /// Run the decision process for a destination.
    Reselect { key: RouteKey },
    /// Put a ranking into force.
    Apply { key: RouteKey, ranked: List<Route> },
    /// Bring every session in line with a ranking.
    Export { key: RouteKey, ranked: List<Route> },
    /// Bring one session in line with a ranking.
    ExportTo { session: u64, key: RouteKey, ranked: List<Route> },
    /// Advertise routes now or when the interval allows it.
    Advertise { session: u64, routes: List<Route> },
    /// Withdraw a destination from every session.
    PropagateWithdrawal { key: RouteKey },
    /// Withdraw a destination that is long-lived stale from sessions without
    /// long-lived retention.
    WithdrawStale { key: RouteKey },
    /// Mirror a route.
    Monitor { route: Route },
    /// Carry a route through the pipes.
    Redistribute { route: Route },
    /// Drop a redistributed copy.
    Unredistribute { key: RouteKey },
    /// Drop a redistributed copy whose source is gone.
    ReleaseCopy { key: RouteKey },
    /// Reconsider the aggregates.
    Aggregates,
    /// Originate or withdraw one aggregate.
    Aggregate { prefix: Prefix, wanted: bool, local_as: u32, bgp_id: u32 },
    /// Send a table to a session.
    DumpTo { session: u64 },
    /// Act on a state machine's request.
    Act { session: u64, action: BgpAction },
    /// Act on an expired timer.
    TimerExpired { timer: u32 },
    /// Forget that a session was established.
    ClearEstablished { session: u64 },
    /// Reselect what a reconfiguration touched and report it.
    FinishReconfig { session: u64, count: usize },
    /// Take the size of a session's contribution as its count.
    Recount { session: u64, count: usize },
    /// Transmit what waits for its interval.
    FlushMrai,
    /// Act on restart windows that ended.
    RestartWindows,
    /// Act on one restart window that ended.
    WindowExpired { session: u64 },
    /// Act on long-lived deadlines that passed.
    LongLivedDeadlines,
    /// Act on one long-lived deadline that passed.
    DeadlineExpired { session: u64, family: NlriFamily },
    /// Report an event.
    Report(RouterEvent),
    /// Put a directly contributed route into force.
    InstallDirect { route: Route },
    /// Remove a directly contributed route.
    WithdrawDirect { key: RouteKey },
    /// Redistribute a destination into OSPFv2.
    OspfExternal { dest: ExternalDestination },
    /// Redistribute a destination into OSPFv3.
    OspfExternalV3 { dest_v3: V3ExternalDestination },
    /// Bring areas in line with an OSPFv2 redistribution.
    OriginateExternal { network: u32 },
    /// Bring areas in line with an OSPFv3 redistribution.
    OriginateExternalV3 { prefix: Prefix },
    /// Reconsider everything computed from the databases.
    OspfChanged,
    /// Reconsider everything computed from the databases, if they changed.
    OspfSettle,
    /// Reconsider the virtual links.
    EvalVirtualLinks,
    /// Reconsider one virtual link.
    EvalLink { transit: u32, endpoint: u32 },
    /// Take note that something changed.
    MarkChanged,
    /// Bring areas in line with the redistributions, if virtual links changed.
    SyncAfterLinks,
    /// Run one step of the summaries.
    Summarize { step: u8 },
    /// Reconsider the translations.
    Translate,
    /// End a translation.
    EndTranslation { translation: (u32, (u32, u32)) },
    /// Maintain a translation.
    PutTranslation { translation: (u32, (u32, u32)), dest: ExternalDestination },
    /// Compute the table anew and publish the difference.
    Recompute,
    /// Take in received LSAs.
    TakeLsas { session: u64, area: u32, progress: LsaProgress },
    /// Flood LSAs to another area they belong to.
    MirrorLsas { area: u32, queue: List<Lsa>, newly: List<Lsa> },
}

/// What the embedder answers.
#[derive(Debug)]
pub enum Answer {
    Done,
    Safety(Option<Violation>),
    Hooked(Option<Route>),
    Ranked(Vec<usize>),
    Exported { route: Option<Route>, allowed: bool },
    Sent(bool),
    Stepped { status: PeerStatus, actions: Vec<BgpAction> },
    Piped(Option<u32>),
    Changed(bool),
    Installed(InstallOutcome),
}

} // verus!
