//! Link-state advertisements as the router reasons about them.

use crate::addr::Prefix;
use crate::list::List;
use crate::ordmap::Key;
use crate::value::Value;
use vstd::prelude::*;

verus! {

/// OSPFv2 router-LSA.
pub const V2_ROUTER: u16 = 1;

/// OSPFv2 network-LSA.
pub const V2_NETWORK: u16 = 2;

/// OSPFv2 summary-LSA for a network.
pub const V2_SUMMARY: u16 = 3;

/// OSPFv2 summary-LSA for an AS boundary router.
pub const V2_SUMMARY_ASBR: u16 = 4;

/// OSPFv2 AS-external-LSA.
pub const V2_EXTERNAL: u16 = 5;

/// OSPFv2 NSSA external LSA.
pub const V2_NSSA: u16 = 7;

/// OSPFv2 link-local opaque LSA.
pub const V2_OPAQUE_LINK: u16 = 9;

/// OSPFv3 link-scoped Grace-LSA.
pub const V3_GRACE: u16 = 0x000b;

/// OSPFv3 router-LSA.
pub const V3_ROUTER: u16 = 0x2001;

/// OSPFv3 network-LSA.
pub const V3_NETWORK: u16 = 0x2002;

/// OSPFv3 inter-area-prefix-LSA.
pub const V3_INTER_PREFIX: u16 = 0x2003;

/// OSPFv3 inter-area-router-LSA.
pub const V3_INTER_ROUTER: u16 = 0x2004;

/// OSPFv3 intra-area-prefix-LSA.
pub const V3_INTRA_PREFIX: u16 = 0x2009;

/// OSPFv3 AS-external-LSA.
pub const V3_EXTERNAL: u16 = 0x4005;

/// OSPFv3 external LSA of a not-so-stubby area.
pub const V3_NSSA: u16 = 0x2007;

/// Extended router-LSA.
pub const E_ROUTER: u16 = 0xa021;

/// Extended network-LSA.
pub const E_NETWORK: u16 = 0xa022;

/// Extended inter-area-prefix-LSA.
pub const E_INTER_PREFIX: u16 = 0xa023;

/// Extended inter-area-router-LSA.
pub const E_INTER_ROUTER: u16 = 0xa024;

/// Extended AS-external-LSA.
pub const E_EXTERNAL: u16 = 0xc025;

/// Extended NSSA LSA.
pub const E_NSSA: u16 = 0xa027;

/// Extended intra-area-prefix-LSA.
pub const E_INTRA_PREFIX: u16 = 0xa029;

/// Opaque type of an OSPFv2 Grace-LSA.
pub const OPAQUE_GRACE: u32 = 3;

/// Age at which an LSA is flushed.
pub const MAX_AGE_SECS: u16 = 3600;

/// The header of an LSA.
#[derive(Clone, Copy, Debug, PartialEq, Eq, Structural)]
pub struct LsaHeader {
    pub ls_age: u16,
    pub options: u8,
    pub ls_type: u16,
    pub link_state_id: u32,
    pub advertising_router: u32,
    pub ls_sequence_number: u32,
    pub ls_checksum: u16,
    pub length: u16,
}

/// What an LSA's body says, as far as the router reads bodies.
#[derive(Clone, Copy, Debug, PartialEq, Eq, Structural)]
pub enum LsaContent {
    /// Nothing the router reads, or a body that did not decode.
    Opaque,
    /// A type-3 or type-4 summary.
    Summary { mask: u32, tos0_metric: Option<u32> },
    /// A type-5 or type-7 external; `prefix_len` is the length of `mask`.
    External {
        mask: u32,
        prefix_len: u8,
        type2: bool,
        metric: u32,
        forwarding_addr: u32,
        route_tag: u32,
    },
    /// An OSPFv3 inter-area prefix.
    InterPrefix { prefix_len: u8, prefix: Option<Prefix>, metric: u32 },
    /// An Extended inter-area prefix.
    ExtInterPrefix { prefix_len: u8 },
    /// An OSPFv3 inter-area router.
    InterRouter { metric: u32, options: u32 },
    /// An OSPFv3 AS-external.
    ExternalV3 {
        prefix_len: u8,
        prefix: Option<Prefix>,
        type2: bool,
        metric: u32,
        forwarding_v6: Option<u128>,
        tag: Option<u32>,
    },
    /// A graceful-restart announcement.
    Grace { period: u32, reason: u8, addr_v4: Option<u32>, addr_v6: Option<u128> },
}

/// One LSA: its header, its body's octets and what they say.
#[derive(Debug)]
pub struct Lsa {
    pub header: LsaHeader,
    pub body: List<u8>,
    pub content: LsaContent,
}

/// What identifies an LSA within an area.
#[derive(Clone, Copy, Debug, PartialEq, Eq, Structural)]
pub struct LsaKey {
    pub ls_type: u16,
    pub link_state_id: u32,
    pub advertising_router: u32,
}

/// What happened when an LSA was installed into a database.
#[derive(Clone, Copy, Debug, PartialEq, Eq, Structural)]
pub enum InstallOutcome {
    New,
    Replaced,
    Purged,
    Ignored,
}

impl Value for LsaKey {
    fn dup(&self) -> (r: Self) {
        *self
    }

    fn same(&self, other: &Self) -> (b: bool) {
        *self == *other
    }
}

impl Key for LsaKey {
    open spec fn code(self) -> int {
        (self.ls_type as int * 0x1_0000_0000 + self.link_state_id as int) * 0x1_0000_0000
            + self.advertising_router as int
    }

    open spec fn bound() -> int {
        0x1_0000_0000_0000_0000_0000
    }

    proof fn code_in_range(self) {
    }

    proof fn code_injective(self, other: Self) {
    }

    fn precedes(&self, other: &Self) -> (b: bool) {
        if self.ls_type != other.ls_type {
            self.ls_type < other.ls_type
        } else if self.link_state_id != other.link_state_id {
            self.link_state_id < other.link_state_id
        } else {
            self.advertising_router < other.advertising_router
        }
    }
}

impl Value for Lsa {
    fn dup(&self) -> (r: Self) {
        Lsa { header: self.header, body: self.body.dup(), content: self.content }
    }

    fn same(&self, other: &Self) -> (b: bool) {
        self.header == other.header && self.body.same(&other.body) && self.content
            == other.content
    }
}

impl Lsa {
    /// The identity of the LSA.
    pub open spec fn id(self) -> LsaKey {
        LsaKey {
            ls_type: self.header.ls_type,
            link_state_id: self.header.link_state_id,
            advertising_router: self.header.advertising_router,
        }
    }

    /// The identity of the LSA.
    pub fn key(&self) -> (k: LsaKey)
        ensures
            k == self.id(),
    {
        LsaKey {
            ls_type: self.header.ls_type,
            link_state_id: self.header.link_state_id,
            advertising_router: self.header.advertising_router,
        }
    }
}

/// The bit that asks a border router to translate a type-7 LSA.
pub open spec fn p_bit(options: u8) -> bool {
    (options / 8) % 2 == 1
}

/// Whether the translate bit is set in an LSA's options.
pub fn has_p_bit(options: u8) -> (b: bool)
    ensures
        b == p_bit(options),
{
    (options / 8) % 2 == 1
}

/// Whether an LSA announces a graceful restart: the OSPFv3 link-scoped type,
/// or an OSPFv2 link-local opaque LSA whose top octet is the Grace type.
pub open spec fn grace_lsa(h: LsaHeader) -> bool {
    ||| h.ls_type == V3_GRACE
    ||| h.ls_type == V2_OPAQUE_LINK && h.link_state_id / 0x100_0000 == OPAQUE_GRACE
}

/// Whether an LSA announces a graceful restart.
pub fn is_grace_lsa(lsa: &Lsa) -> (b: bool)
    ensures
        b == grace_lsa(lsa.header),
{
    lsa.header.ls_type == V3_GRACE || (lsa.header.ls_type == V2_OPAQUE_LINK
        && lsa.header.link_state_id / 0x100_0000 == OPAQUE_GRACE)
}

/// The types whose contents shape the computed topology.
pub open spec fn topology_type(t: u16) -> bool {
    ||| t == V2_ROUTER
    ||| t == V2_NETWORK
    ||| t == V2_SUMMARY
    ||| t == V2_SUMMARY_ASBR
    ||| t == V2_EXTERNAL
    ||| t == V2_NSSA
    ||| t == V3_ROUTER
    ||| t == V3_NETWORK
    ||| t == V3_INTER_PREFIX
    ||| t == V3_INTER_ROUTER
    ||| t == V3_EXTERNAL
    ||| t == V3_NSSA
    ||| t == V3_INTRA_PREFIX
    ||| t == E_ROUTER
    ||| t == E_NETWORK
    ||| t == E_INTER_PREFIX
    ||| t == E_INTER_ROUTER
    ||| t == E_EXTERNAL
    ||| t == E_NSSA
    ||| t == E_INTRA_PREFIX
}

/// Whether the contents of LSAs of a type shape the computed topology.
pub fn is_topology_type(t: u16) -> (b: bool)
    ensures
        b == topology_type(t),
{
    t == V2_ROUTER || t == V2_NETWORK || t == V2_SUMMARY || t
        == V2_SUMMARY_ASBR || t == V2_EXTERNAL || t == V2_NSSA || t == V3_ROUTER || t == V3_NETWORK
        || t == V3_INTER_PREFIX || t == V3_INTER_ROUTER || t == V3_EXTERNAL || t == V3_NSSA || t
        == V3_INTRA_PREFIX || t == E_ROUTER || t == E_NETWORK || t == E_INTER_PREFIX || t
        == E_INTER_ROUTER || t == E_EXTERNAL || t == E_NSSA || t == E_INTRA_PREFIX
}

/// Whether installing `new` over `prev` changed the topology: a topology LSA
/// that is new, purged, or replaced by one with another body or length. A
/// refresh that only moves age and sequence is no change.
pub open spec fn topology_change(prev: Option<Lsa>, new: Lsa, outcome: InstallOutcome) -> bool {
    topology_type(new.header.ls_type) && match outcome {
        InstallOutcome::New => true,
        InstallOutcome::Purged => true,
        InstallOutcome::Replaced => match prev {
            None => true,
            Some(p) => p.body != new.body || p.header.length != new.header.length,
        },
        InstallOutcome::Ignored => false,
    }
}

/// Whether installing `new` over `prev` changed the topology.
pub fn lsa_topology_changed(prev: &Option<Lsa>, new: &Lsa, outcome: InstallOutcome) -> (b: bool)
    ensures
        b == topology_change(*prev, *new, outcome),
{
    if !is_topology_type(new.header.ls_type) {
        return false;
    }
    match outcome {
        InstallOutcome::New => true,
        InstallOutcome::Purged => true,
        InstallOutcome::Replaced => match prev {
            None => true,
            Some(p) => !p.body.same(&new.body) || p.header.length != new.header.length,
        },
        InstallOutcome::Ignored => false,
    }
}

/// Whether an install left the database different.
pub fn outcome_changed(outcome: InstallOutcome) -> (b: bool)
    ensures
        b == (outcome != InstallOutcome::Ignored),
{
    outcome != InstallOutcome::Ignored
}

/// A refresh carrying the same contents never counts as a topology change.
pub proof fn refresh_is_no_topology_change(prev: Lsa, new: Lsa)
    requires
        prev.body == new.body,
        prev.header.length == new.header.length,
    ensures
        !topology_change(Some(prev), new, InstallOutcome::Replaced),
{
}

/// The translate bit is the fourth lowest of the options.
pub proof fn translate_bit_is_the_fourth(options: u8)
    ensures
        p_bit(options) <==> options & 8 != 0,
{
    assert(((options / 8) % 2 == 1) <==> (options & 8 != 0)) by (bit_vector);
}

/// A topology LSA counts when it appears, goes, or comes back with another
/// body or length, and never when it was ignored. LSAs that describe no
/// topology never count.
pub proof fn content_changes_count(prev: Option<Lsa>, new: Lsa, outcome: InstallOutcome)
    ensures
        topology_change(prev, new, outcome) ==> topology_type(new.header.ls_type) && outcome
            != InstallOutcome::Ignored,
        topology_type(new.header.ls_type) && (outcome is New || outcome is Purged)
            ==> topology_change(prev, new, outcome),
        topology_type(new.header.ls_type) && outcome is Replaced && (match prev {
            Some(p) => p.body != new.body || p.header.length != new.header.length,
            None => true,
        }) ==> topology_change(prev, new, outcome),
{
}

/// Routers, networks, summaries and externals of both versions shape the
/// topology, in plain and extended form; link-local, opaque and Grace LSAs do
/// not.
pub proof fn topology_types(t: u16)
    ensures
        t <= 5 || t == 7 ==> topology_type(t) == (t != 0),
        0x2001 <= t <= 0x2004 || t == 0x2007 || t == 0x2009 || t == 0x4005 ==> topology_type(t),
        0xa021 <= t <= 0xa024 || t == 0xa027 || t == 0xa029 || t == 0xc025 ==> topology_type(t),
        t == 6 || 8 <= t < 0x2001 || t == 0x2005 || t == 0x2006 || t == 0x2008 || 0x2009 < t
            < 0x4005 || 0x4005 < t < 0xa021 || t == 0xa025 || t == 0xa026 || t == 0xa028 || 0xa029
            < t < 0xc025 || 0xc025 < t ==> !topology_type(t),
{
}

/// A Grace-LSA is the OSPFv3 link-scoped type 11, or an OSPFv2 link-local
/// opaque LSA whose identifier starts with the octet 3.
pub proof fn grace_by_type(h: LsaHeader)
    ensures
        h.ls_type == 11 ==> grace_lsa(h),
        h.ls_type == 9 ==> (grace_lsa(h) <==> 0x0300_0000 <= h.link_state_id <= 0x03ff_ffff),
        h.ls_type != 9 && h.ls_type != 11 ==> !grace_lsa(h),
{
}

/// LSAs are ordered by type, then by link-state ID, then by originator.
pub proof fn lsas_are_ordered(a: LsaKey, b: LsaKey)
    ensures
        a.ls_type < b.ls_type ==> a.code() < b.code(),
        a.ls_type == b.ls_type && a.link_state_id < b.link_state_id ==> a.code() < b.code(),
        a.ls_type == b.ls_type && a.link_state_id == b.link_state_id && a.advertising_router
            < b.advertising_router ==> a.code() < b.code(),
{
}

} // verus!
