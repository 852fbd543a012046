//! Routes and their attributes.

use crate::addr::{IpAddr, NlriFamily, Prefix};
use crate::list::List;
use crate::ordmap::{lemma_digits, Key};
use crate::value::Value;
use vstd::prelude::*;

verus! {

/// The protocol that produced a route.
#[derive(Clone, Copy, Debug, PartialEq, Eq, Structural)]
pub enum Protocol {
    Connected,
    Static,
    Bgp,
    Ospfv2,
    Ospfv3,
    Babel,
}

impl Protocol {
    /// The administrative distance a protocol's routes start with.
    pub open spec fn distance(self) -> u8 {
        match self {
            Protocol::Connected => 0,
            Protocol::Static => 1,
            Protocol::Bgp => 20,
            Protocol::Ospfv2 => 110,
            Protocol::Ospfv3 => 110,
            Protocol::Babel => 120,
        }
    }

    /// The administrative distance a protocol's routes start with.
    pub fn default_admin_distance(self) -> (d: u8)
        ensures
            d == self.distance(),
    {
        match self {
            Protocol::Connected => 0,
            Protocol::Static => 1,
            Protocol::Bgp => 20,
            Protocol::Ospfv2 => 110,
            Protocol::Ospfv3 => 110,
            Protocol::Babel => 120,
        }
    }
}

/// A destination: a prefix in an address family, for packets from `source`
/// only where one is given.
#[derive(Clone, Copy, Debug, PartialEq, Eq, Structural)]
pub struct RouteKey {
    pub prefix: Prefix,
    pub family: NlriFamily,
    pub source: Option<Prefix>,
}

/// The unicast family of a prefix.
pub open spec fn unicast_family(p: Prefix) -> NlriFamily {
    match p.addr {
        IpAddr::V4(_) => NlriFamily::ipv4_unicast(),
        IpAddr::V6(_) => NlriFamily::ipv6_unicast(),
    }
}

impl RouteKey {
    /// The key of `prefix` in `family`.
    pub fn new(prefix: Prefix, family: NlriFamily) -> (k: RouteKey)
        ensures
            k == (RouteKey { prefix, family, source: None }),
    {
        RouteKey { prefix, family, source: None }
    }

    /// The key of `prefix` in the unicast family of its addresses.
    pub fn unicast(prefix: Prefix) -> (k: RouteKey)
        ensures
            k == (RouteKey { prefix, family: unicast_family(prefix), source: None }),
    {
        match prefix.addr {
            IpAddr::V4(_) => RouteKey::new(prefix, NlriFamily::ipv4_unicast()),
            IpAddr::V6(_) => RouteKey::new(prefix, NlriFamily::ipv6_unicast()),
        }
    }
}

/// Who contributed a route: an adjacency class and the peer within it.
#[derive(Clone, Copy, Debug, PartialEq, Eq, Structural)]
pub struct RouteOrigin {
    pub proto: u8,
    pub peer: u64,
}

/// Adjacency class of external BGP peers.
pub const ORIGIN_EBGP: u8 = 0;

/// Adjacency class of internal BGP peers.
pub const ORIGIN_IBGP: u8 = 1;

/// Class of locally originated routes.
pub const ORIGIN_LOCAL: u8 = 2;

/// Class of OSPF routes.
pub const ORIGIN_OSPF: u8 = 3;

/// Class of Babel routes.
pub const ORIGIN_BABEL: u8 = 4;

/// How a route ranks between protocols.
#[derive(Clone, Copy, Debug, PartialEq, Eq, Structural)]
pub struct Preference {
    pub admin_distance: u8,
    pub metric: u32,
}

/// One segment of an AS path.
#[derive(Debug)]
pub struct AsSegment {
    pub kind: u8,
    pub asns: List<u32>,
}

/// A path attribute that is carried through without being interpreted.
#[derive(Debug)]
pub struct RawAttribute {
    pub flags: u8,
    pub code: u8,
    pub value: List<u8>,
}

/// What kind of private record store a route carries.
#[derive(Clone, Copy, Debug, PartialEq, Eq, Structural)]
pub enum RecordKind {
    /// A verified record set of so many records.
    Verified { records: usize },
    /// Raw material that crossed a speaker which does not know the records.
    PartialRaw,
    /// Anything else.
    Other,
}

/// A private record store.
#[derive(Debug)]
pub struct RecordStore {
    pub kind: RecordKind,
    pub value: List<u8>,
}

/// The path attributes of a route.
#[derive(Debug)]
pub struct Attributes {
    pub origin: Option<u8>,
    pub as_path: Option<List<AsSegment>>,
    pub next_hop: Option<IpAddr>,
    pub atomic_aggregate: bool,
    pub aggregator: Option<(u32, u32)>,
    pub communities: List<u32>,
    pub labels: List<u32>,
    pub records: Option<RecordStore>,
    pub other: List<RawAttribute>,
}

/// One path to a destination.
#[derive(Debug)]
pub struct Route {
    pub key: RouteKey,
    pub origin: RouteOrigin,
    pub protocol: Protocol,
    pub preference: Preference,
    pub next_hop: Option<IpAddr>,
    pub attributes: Attributes,
    pub age_ms: u64,
    pub path_id: u32,
    pub tag: Option<u32>,
}

impl Attributes {
    /// No attribute at all.
    pub open spec fn none() -> Attributes {
        Attributes {
            origin: None,
            as_path: None,
            next_hop: None,
            atomic_aggregate: false,
            aggregator: None,
            communities: List::Nil,
            labels: List::Nil,
            records: None,
            other: List::Nil,
        }
    }

    /// The attributes of a locally originated path: origin IGP and an empty
    /// AS path.
    pub open spec fn local() -> Attributes {
        Attributes { origin: Some(0), as_path: Some(List::Nil), ..Attributes::none() }
    }

    /// No attribute at all.
    pub fn new() -> (a: Attributes)
        ensures
            a == Attributes::none(),
    {
        Attributes {
            origin: None,
            as_path: None,
            next_hop: None,
            atomic_aggregate: false,
            aggregator: None,
            communities: List::Nil,
            labels: List::Nil,
            records: None,
            other: List::Nil,
        }
    }

    /// The attributes of a locally originated path.
    pub fn new_local() -> (a: Attributes)
        ensures
            a == Attributes::local(),
    {
        let mut a = Attributes::new();
        a.origin = Some(0);
        a.as_path = Some(List::Nil);
        a
    }
}

impl Value for Protocol {
    fn dup(&self) -> (r: Self) {
        *self
    }

    fn same(&self, other: &Self) -> (b: bool) {
        *self == *other
    }
}

impl Value for RouteKey {
    fn dup(&self) -> (r: Self) {
        *self
    }

    fn same(&self, other: &Self) -> (b: bool) {
        *self == *other
    }
}

impl Value for RouteOrigin {
    fn dup(&self) -> (r: Self) {
        *self
    }

    fn same(&self, other: &Self) -> (b: bool) {
        *self == *other
    }
}

impl Value for AsSegment {
    fn dup(&self) -> (r: Self) {
        AsSegment { kind: self.kind, asns: self.asns.dup() }
    }

    fn same(&self, other: &Self) -> (b: bool) {
        self.kind == other.kind && self.asns.same(&other.asns)
    }
}

impl Value for RawAttribute {
    fn dup(&self) -> (r: Self) {
        RawAttribute { flags: self.flags, code: self.code, value: self.value.dup() }
    }

    fn same(&self, other: &Self) -> (b: bool) {
        self.flags == other.flags && self.code == other.code && self.value.same(&other.value)
    }
}

impl Value for RecordStore {
    fn dup(&self) -> (r: Self) {
        RecordStore { kind: self.kind, value: self.value.dup() }
    }

    fn same(&self, other: &Self) -> (b: bool) {
        self.kind == other.kind && self.value.same(&other.value)
    }
}

impl Value for Attributes {
    fn dup(&self) -> (r: Self) {
        Attributes {
            origin: self.origin,
            as_path: self.as_path.dup(),
            next_hop: self.next_hop,
            atomic_aggregate: self.atomic_aggregate,
            aggregator: self.aggregator,
            communities: self.communities.dup(),
            labels: self.labels.dup(),
            records: self.records.dup(),
            other: self.other.dup(),
        }
    }

    fn same(&self, other: &Self) -> (b: bool) {
        self.origin.same(&other.origin) && self.as_path.same(&other.as_path) && self.next_hop.same(
            &other.next_hop,
        ) && self.atomic_aggregate == other.atomic_aggregate && self.aggregator.same(
            &other.aggregator,
        ) && self.communities.same(&other.communities) && self.labels.same(&other.labels)
            && self.records.same(&other.records) && self.other.same(&other.other)
    }
}

impl Value for Route {
    fn dup(&self) -> (r: Self) {
        Route {
            key: self.key,
            origin: self.origin,
            protocol: self.protocol,
            preference: self.preference,
            next_hop: self.next_hop,
            attributes: self.attributes.dup(),
            age_ms: self.age_ms,
            path_id: self.path_id,
            tag: self.tag,
        }
    }

    fn same(&self, other: &Self) -> (b: bool) {
        self.key == other.key && self.origin == other.origin && self.protocol == other.protocol
            && self.preference == other.preference && self.next_hop.same(&other.next_hop)
            && self.attributes.same(&other.attributes) && self.age_ms == other.age_ms
            && self.path_id == other.path_id && self.tag.same(&other.tag)
    }
}

/// The position of an optional prefix: none comes first.
pub open spec fn source_code(p: Option<Prefix>) -> int {
    match p {
        None => 0,
        Some(q) => q.code() + 1,
    }
}

proof fn lemma_source_code(p: Option<Prefix>, q: Option<Prefix>)
    ensures
        0 <= source_code(p) < <Prefix as Key>::bound() + 1,
        0 <= source_code(q) < <Prefix as Key>::bound() + 1,
        source_code(p) == source_code(q) ==> p == q,
{
    match (p, q) {
        (Some(a), Some(b)) => {
            a.code_in_range();
            b.code_in_range();
            a.code_injective(b);
        },
        (Some(a), None) => {
            a.code_in_range();
        },
        (None, Some(b)) => {
            b.code_in_range();
        },
        (None, None) => {},
    }
}

impl Key for RouteKey {
    open spec fn code(self) -> int {
        (self.prefix.code() * 0x100_0000 + self.family.code()) * (<Prefix as Key>::bound() + 1)
            + source_code(self.source)
    }

    open spec fn bound() -> int {
        <Prefix as Key>::bound() * 0x100_0000 * (<Prefix as Key>::bound() + 1)
    }

    proof fn code_in_range(self) {
        self.prefix.code_in_range();
        self.family.code_in_range();
        lemma_source_code(self.source, self.source);
        let n = <Prefix as Key>::bound();
        let d = self.prefix.code() * 0x100_0000 + self.family.code();
        let s = source_code(self.source);
        assert(0 <= d * (n + 1) + s < (n * 0x100_0000) * (n + 1)) by (nonlinear_arith)
            requires
                0 <= d < n * 0x100_0000,
                0 <= s < n + 1,
        ;
    }

    proof fn code_injective(self, other: Self) {
        self.family.code_in_range();
        other.family.code_in_range();
        self.prefix.code_injective(other.prefix);
        self.family.code_injective(other.family);
        lemma_source_code(self.source, other.source);
        lemma_digits(
            self.prefix.code() * 0x100_0000 + self.family.code(),
            source_code(self.source),
            other.prefix.code() * 0x100_0000 + other.family.code(),
            source_code(other.source),
            <Prefix as Key>::bound() + 1,
        );
    }

    fn precedes(&self, other: &Self) -> (b: bool) {
        proof {
            self.family.code_in_range();
            other.family.code_in_range();
            lemma_source_code(self.source, other.source);
            lemma_digits(
                self.prefix.code() * 0x100_0000 + self.family.code(),
                source_code(self.source),
                other.prefix.code() * 0x100_0000 + other.family.code(),
                source_code(other.source),
                <Prefix as Key>::bound() + 1,
            );
        }
        if self.prefix.precedes(&other.prefix) {
            return true;
        }
        if other.prefix.precedes(&self.prefix) {
            return false;
        }
        if self.family.precedes(&other.family) {
            return true;
        }
        if other.family.precedes(&self.family) {
            return false;
        }
        match (self.source, other.source) {
            (Some(p), Some(q)) => p.precedes(&q),
            (None, Some(q)) => {
                proof {
                    q.code_in_range();
                }
                true
            },
            (Some(p), None) => {
                proof {
                    p.code_in_range();
                }
                false
            },
            (None, None) => false,
        }
    }
}

impl Key for RouteOrigin {
    open spec fn code(self) -> int {
        self.proto as int * 0x1_0000_0000_0000_0000 + self.peer as int
    }

    open spec fn bound() -> int {
        0x100_0000_0000_0000_0000
    }

    proof fn code_in_range(self) {
    }

    proof fn code_injective(self, other: Self) {
    }

    fn precedes(&self, other: &Self) -> (b: bool) {
        self.proto < other.proto || (self.proto == other.proto && self.peer < other.peer)
    }
}

/// Destinations are ordered by prefix, then by family, then by source, none
/// first; origins by protocol, then by peer.
pub proof fn destinations_are_ordered(a: RouteKey, b: RouteKey, o: RouteOrigin, p: RouteOrigin)
    ensures
        a.prefix.code() < b.prefix.code() ==> a.code() < b.code(),
        a.prefix == b.prefix && a.family.code() < b.family.code() ==> a.code() < b.code(),
        a.prefix == b.prefix && a.family == b.family ==> match (a.source, b.source) {
            (None, Some(_)) => a.code() < b.code(),
            (Some(x), Some(y)) => x.code() < y.code() ==> a.code() < b.code(),
            _ => true,
        },
        o.proto < p.proto ==> o.code() < p.code(),
        o.proto == p.proto && o.peer < p.peer ==> o.code() < p.code(),
{
    a.family.code_in_range();
    b.family.code_in_range();
    lemma_source_code(a.source, b.source);
    lemma_source_code(b.source, a.source);
    let n = <Prefix as Key>::bound() + 1;
    let x = a.prefix.code() * 0x100_0000 + a.family.code();
    let y = b.prefix.code() * 0x100_0000 + b.family.code();
    lemma_digits(x, source_code(a.source), y, source_code(b.source), n);
    if let (None, Some(s)) = (a.source, b.source) {
        s.code_in_range();
    }
}

} // verus!
