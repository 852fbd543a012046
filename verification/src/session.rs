//! Sessions: how they are configured and what is known of them.

use crate::addr::{IpAddr, NlriFamily};
use crate::babel::BabelRuntime;
use crate::events::{BgpState, MaxPrefixAction};
use crate::list::List;
use crate::ospf::adjacency::{OspfNetworkType, OspfRuntime};
use crate::ospf::area::OspfAreaType;
use vstd::prelude::*;

verus! {

/// The protocol a session speaks.
#[derive(Clone, Copy, Debug, PartialEq, Eq, Structural)]
pub enum SessionKind {
    Bgp,
    Ospfv2,
    Ospfv3,
    Babel,
}

/// What a session is asked to be. The fields of the protocols other than
/// `kind` are not looked at.
#[derive(Debug)]
pub struct SessionConfig {
    pub kind: SessionKind,
    pub peer: PeerConfig,
    /// Upper bound in seconds on the long-lived stale time a peer may ask for.
    pub llgr_max_stale_time: Option<u32>,
    /// Sessions of one group reach the same peer.
    pub collision_group: Option<u64>,
    /// Whether this end opens the transport.
    pub locally_initiated: bool,
    /// Least time in milliseconds between two advertisements of a prefix.
    pub mrai_ms: u64,
    pub area_id: u32,
    pub area_type: OspfAreaType,
    pub mtu: u16,
    pub network_type: OspfNetworkType,
    pub interface_ip: Option<u32>,
    pub neighbor_ip: Option<u32>,
}

/// Configuration of a BGP peer. `peer_id` is the handle of its session;
/// `external` tells whether the peer belongs to another AS, or to another
/// member AS of the confederation.
#[derive(Debug)]
pub struct PeerConfig {
    pub peer_id: u64,
    pub local_as: u32,
    pub peer_as: u32,
    pub local_bgp_id: u32,
    pub external: bool,
    pub hold_time: u16,
    pub keepalive: u16,
    pub asn4: bool,
    pub route_refresh: bool,
    pub enhanced_route_refresh: bool,
    pub add_path: bool,
    pub graceful_restart: bool,
    pub graceful_restart_time: u16,
    pub long_lived: bool,
    pub long_lived_stale_time: u32,
    pub mp_families: List<NlriFamily>,
    pub default_ipv4_unicast: bool,
    pub local_as_tolerance: u32,
    pub soft_reconfig_inbound: bool,
    pub local_address: Option<IpAddr>,
    /// Address family, subsequent family and next-hop family of each tuple.
    pub extended_next_hop: List<(u16, (u8, u16))>,
    pub maximum_prefix: Option<u32>,
    pub maximum_prefix_action: MaxPrefixAction,
    pub maximum_prefix_threshold: u8,
    /// Configuration of the exchange plane in its encoded form.
    pub exchange_plane: Option<List<u8>>,
}

/// What a peer's state machine reports of itself after a step.
#[derive(Debug)]
pub struct PeerStatus {
    pub state: BgpState,
    /// Identifier and AS from the peer's OPEN.
    pub peer_bgp_id: Option<u32>,
    pub peer_as: Option<u32>,
    pub hold_time: u16,
    /// Families in which several paths per prefix may be sent.
    pub add_path_tx: List<NlriFamily>,
    /// Negotiated restart time in seconds, 0 without graceful restart.
    pub restart_secs: u16,
    /// Whether long-lived retention was negotiated.
    pub long_lived: bool,
    /// Negotiated long-lived stale times in seconds.
    pub stale_secs: List<(NlriFamily, u32)>,
    pub updates_received: u64,
    pub updates_sent: u64,
}

/// A BGP session. `established` is the state last acted upon; the peer's
/// state machine may be ahead of it.
#[derive(Debug)]
pub struct BgpSession {
    pub config: PeerConfig,
    pub status: PeerStatus,
    pub established: bool,
}

/// A session.
#[derive(Debug)]
pub enum Session {
    Bgp(BgpSession),
    Ospf(OspfRuntime),
    Babel(BabelRuntime),
}

/// One session in a management overview.
#[derive(Clone, Copy, Debug, PartialEq, Eq, Structural)]
pub struct SessionSummary {
    pub handle: u64,
    pub kind: SessionKind,
    pub local_as: u32,
    pub peer_as: u32,
    pub state: SummaryState,
    pub established: bool,
    pub peer_bgp_id: Option<u32>,
    pub negotiated_hold_time: u16,
    pub adj_rib_in_len: usize,
    pub updates_received: u64,
    pub updates_sent: u64,
}

/// The state of a session in a management overview.
#[derive(Clone, Copy, Debug, PartialEq, Eq, Structural)]
pub enum SummaryState {
    Bgp(BgpState),
    Ospf(crate::ospf::adjacency::NeighborState),
    Babel { up: bool },
}

impl PeerStatus {
    /// A peer that has not spoken yet.
    pub open spec fn fresh() -> PeerStatus {
        PeerStatus {
            state: BgpState::Idle,
            peer_bgp_id: None,
            peer_as: None,
            hold_time: 0,
            add_path_tx: List::Nil,
            restart_secs: 0,
            long_lived: false,
            stale_secs: List::Nil,
            updates_received: 0,
            updates_sent: 0,
        }
    }

    /// A peer that has not spoken yet.
    pub fn new() -> (s: PeerStatus)
        ensures
            s == PeerStatus::fresh(),
    {
        PeerStatus {
            state: BgpState::Idle,
            peer_bgp_id: None,
            peer_as: None,
            hold_time: 0,
            add_path_tx: List::Nil,
            restart_secs: 0,
            long_lived: false,
            stale_secs: List::Nil,
            updates_received: 0,
            updates_sent: 0,
        }
    }
}

/// Whether a session's peer is established.
pub open spec fn is_up(s: Option<Session>) -> bool {
    match s {
        Some(Session::Bgp(b)) => b.status.state == BgpState::Established,
        _ => false,
    }
}

/// Whether several paths per prefix of a family may be sent on a session.
pub open spec fn sends_paths(s: Option<Session>, family: NlriFamily) -> bool {
    match s {
        Some(Session::Bgp(b)) => b.status.add_path_tx.seq().contains(family),
        _ => false,
    }
}

/// The BGP session behind a handle, if it is one.
pub open spec fn bgp_of(s: Option<Session>) -> Option<BgpSession> {
    match s {
        Some(Session::Bgp(b)) => Some(b),
        _ => None,
    }
}

} // verus!
