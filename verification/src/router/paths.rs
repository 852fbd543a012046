//! Picking paths out of the per-peer tables.

use crate::addr::NlriFamily;
use crate::route::{RouteKey, RouteOrigin, ORIGIN_EBGP, ORIGIN_IBGP};
use crate::router::PathKey;
use crate::select::KeyTest;
use vstd::prelude::*;

verus! {

/// The class under which paths toward and from a peer are kept.
#[verifier::allow_in_spec]
pub fn peer_origin(session: u64) -> RouteOrigin
    returns
        (RouteOrigin { proto: ORIGIN_EBGP, peer: session }),
{
    RouteOrigin { proto: ORIGIN_EBGP, peer: session }
}

/// The class of internal paths from a peer.
#[verifier::allow_in_spec]
pub fn internal_origin(session: u64) -> RouteOrigin
    returns
        (RouteOrigin { proto: ORIGIN_IBGP, peer: session }),
{
    RouteOrigin { proto: ORIGIN_IBGP, peer: session }
}

/// Paths to a destination.
#[derive(Clone, Copy, Debug, PartialEq, Eq, Structural)]
pub struct ToKey(pub RouteKey);

impl KeyTest<PathKey> for ToKey {
    open spec fn accepts(&self, k: PathKey) -> bool {
        k.1.0 == self.0
    }

    fn test(&self, k: &PathKey) -> (b: bool) {
        k.1.0 == self.0
    }
}

/// Paths of a peer, whatever their class.
#[derive(Clone, Copy, Debug, PartialEq, Eq, Structural)]
pub struct OfPeer(pub u64);

impl KeyTest<PathKey> for OfPeer {
    open spec fn accepts(&self, k: PathKey) -> bool {
        k.0.peer == self.0
    }

    fn test(&self, k: &PathKey) -> (b: bool) {
        k.0.peer == self.0
    }
}

/// External and internal paths of a peer.
#[derive(Clone, Copy, Debug, PartialEq, Eq, Structural)]
pub struct OfBgpPeer(pub u64);

impl KeyTest<PathKey> for OfBgpPeer {
    open spec fn accepts(&self, k: PathKey) -> bool {
        k.0 == peer_origin(self.0) || k.0 == internal_origin(self.0)
    }

    fn test(&self, k: &PathKey) -> (b: bool) {
        k.0 == peer_origin(self.0) || k.0 == internal_origin(self.0)
    }
}

/// Paths of one contributor to one destination.
#[derive(Clone, Copy, Debug, PartialEq, Eq, Structural)]
pub struct PathsTo(pub RouteOrigin, pub RouteKey);

impl KeyTest<PathKey> for PathsTo {
    open spec fn accepts(&self, k: PathKey) -> bool {
        k.0 == self.0 && k.1.0 == self.1
    }

    fn test(&self, k: &PathKey) -> (b: bool) {
        k.0 == self.0 && k.1.0 == self.1
    }
}

/// Paths of one contributor in one family.
#[derive(Clone, Copy, Debug, PartialEq, Eq, Structural)]
pub struct PathsIn(pub RouteOrigin, pub NlriFamily);

impl KeyTest<PathKey> for PathsIn {
    open spec fn accepts(&self, k: PathKey) -> bool {
        k.0 == self.0 && k.1.0.family == self.1
    }

    fn test(&self, k: &PathKey) -> (b: bool) {
        k.0 == self.0 && k.1.0.family == self.1
    }
}

/// Entries of one session, in maps keyed by a session first.
#[derive(Clone, Copy, Debug, PartialEq, Eq, Structural)]
pub struct OfSession(pub u64);

impl<B> KeyTest<(u64, B)> for OfSession {
    open spec fn accepts(&self, k: (u64, B)) -> bool {
        k.0 == self.0
    }

    fn test(&self, k: &(u64, B)) -> (b: bool) {
        k.0 == self.0
    }
}

/// Entries of one session in one family.
#[derive(Clone, Copy, Debug, PartialEq, Eq, Structural)]
pub struct OfSessionFamily(pub u64, pub NlriFamily);

impl KeyTest<(u64, RouteKey)> for OfSessionFamily {
    open spec fn accepts(&self, k: (u64, RouteKey)) -> bool {
        k.0 == self.0 && k.1.family == self.1
    }

    fn test(&self, k: &(u64, RouteKey)) -> (b: bool) {
        k.0 == self.0 && k.1.family == self.1
    }
}

} // verus!
