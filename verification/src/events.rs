//! What the router reports.

use crate::addr::{NlriFamily, Prefix};
use crate::list::List;
use crate::ospf::area::OspfAreaType;
use crate::route::{Protocol, Route, RouteKey};
use vstd::prelude::*;

verus! {

/// State of a BGP peer's state machine.
#[derive(Clone, Copy, Debug, PartialEq, Eq, Structural)]
pub enum BgpState {
    Idle,
    Connect,
    Active,
    OpenSent,
    OpenConfirm,
    Established,
}

impl BgpState {
    /// The state's name.
    pub fn name(&self) -> (s: &'static str)
        ensures
            s@ == (match *self {
                BgpState::Idle => "Idle"@,
                BgpState::Connect => "Connect"@,
                BgpState::Active => "Active"@,
                BgpState::OpenSent => "OpenSent"@,
                BgpState::OpenConfirm => "OpenConfirm"@,
                BgpState::Established => "Established"@,
            }),
    {
        match self {
            BgpState::Idle => "Idle",
            BgpState::Connect => "Connect",
            BgpState::Active => "Active",
            BgpState::OpenSent => "OpenSent",
            BgpState::OpenConfirm => "OpenConfirm",
            BgpState::Established => "Established",
        }
    }
}

/// What happens when a peer exceeds its prefix limit.
#[derive(Clone, Copy, Debug, PartialEq, Eq, Structural)]
pub enum MaxPrefixAction {
    Warn,
    Teardown,
    Restart,
}

/// Why the safety net refuses a route, in its own words.
#[derive(Debug, PartialEq, Eq)]
pub enum Violation {
    /// The AS path contains the local AS.
    AsLoop(String),
    /// Any other reason.
    Other(String),
}

/// Why a colliding connection was closed.
#[derive(Clone, Copy, Debug, PartialEq, Eq, Structural)]
pub enum CollisionReason {
    /// An established connection wins.
    EstablishedWins,
    /// The connection initiated by the higher identifier wins.
    HigherIdentifierWins,
}

/// A log line, as data.
#[derive(Debug, PartialEq, Eq)]
pub enum LogEntry {
    /// Routes of a session without import policy are discarded.
    NoImportPolicy { session: u64, prefix: Prefix },
    /// A session without export policy is told nothing.
    NoExportPolicy { session: u64 },
    /// The safety net refused a route.
    SafetyRejected { prefix: Prefix, violation: Violation },
    /// The local AS occurs more often than the peer is allowed.
    LocalAsExceeded { prefix: Prefix, count: u32, tolerance: u32 },
    /// The first AS of a path is not the peer's.
    FirstAsRejected { session: u64, prefix: Prefix, first: u32, peer_as: u32 },
    /// A session exceeded its prefix limit.
    PrefixLimit { session: u64, count: u32, limit: u32, action: MaxPrefixAction },
    /// Routes of a session were re-evaluated.
    SoftReconfig { session: u64, routes: usize },
    /// A session's record set for a prefix was verified.
    Records { session: u64, prefix: Prefix, records: usize },
    /// Identifiers of both ends are equal.
    EqualIdentifiers { identifier: u32 },
    /// A collision was resolved.
    Collision { loser: u64, winner: u64, reason: CollisionReason },
    /// A session entered retention, long-lived for some families.
    RetentionEntered { session: u64, restart_secs: u32, families: List<NlriFamily> },
    /// A session's retention ended without its return.
    RetentionExpired { session: u64 },
    /// Routes of a session became long-lived stale.
    StaleEntered { session: u64, routes: usize },
    /// A family of a session was resynchronised.
    Resynchronised { session: u64, family: NlriFamily, purged: usize },
    /// A peer finished sending a family.
    EndOfRib { session: u64, family: NlriFamily },
    /// A family's long-lived stale time ended.
    StaleExpired { session: u64, family: NlriFamily },
    /// A session's routes were purged.
    SessionPurged { session: u64 },
    /// A route was redistributed.
    Redistributed { prefix: Prefix, target: Protocol, metric: u32 },
    /// A redistributed copy was dropped.
    Unredistributed { prefix: Prefix },
    /// A graceful-restart announcement did not decode.
    MalformedGrace { router: u32, area: u32 },
    /// What a peer's state machine says, in its own words.
    Peer(String),
}

/// An event for the embedder.
#[derive(Debug)]
pub enum RouterEvent {
    RouteInstalled(Route),
    RouteWithdrawn(RouteKey),
    PeerStateChange { session: u64, state: BgpState },
    PrefixAdvertised(Prefix),
    PrefixRetracted(Prefix),
    MaxPrefixThreshold { session: u64, count: u32, limit: u32, pct: u8 },
    MaxPrefixExceeded { session: u64, count: u32, limit: u32, action: MaxPrefixAction },
    Log(LogEntry),
}

/// A setting of a BGP session that is made before the session is established.
#[derive(Clone, Copy, Debug, PartialEq, Eq, Structural)]
pub enum SessionSetting {
    AddPath,
    ExtendedNextHop,
    MpFamilies,
    LocalAddress,
    DefaultIpv4Unicast,
    LocalAsTolerance,
    SoftReconfigInbound,
    ExchangePlane,
}

/// Why a request was refused.
#[derive(Clone, Copy, Debug, PartialEq, Eq, Structural)]
pub enum RouterError {
    /// No session has this handle.
    UnknownSession(u64),
    /// No BGP session has this handle.
    NotBgp(u64),
    /// The session is no OSPF session.
    NotOspf(u64),
    /// The session is already established; the setting must precede its
    /// start.
    AlreadyEstablished { session: u64, setting: SessionSetting },
    /// Another router ID is in use.
    RouterIdMismatch { requested: u32, existing: u32 },
    /// The area runs another protocol version.
    AreaProtocol { area: u32, v3: bool },
    /// The area has another type.
    AreaTypeMismatch { area: u32, existing_type: OspfAreaType, requested_type: OspfAreaType },
    /// The backbone cannot be a stub or not-so-stubby area.
    BackboneType,
}

} // verus!
