//! What the shortest-path calculation of an area found, as plain values.

use crate::addr::{IpAddr, Prefix};
use crate::ordmap::OrdMap;
use crate::ospf::area::OspfAreaType;
use crate::ospf::lsa::{Lsa, LsaKey};
use crate::ospf::table::ExternalMetricType;
use crate::route::Protocol;
use vstd::prelude::*;

verus! {

/// A network inside the area.
#[derive(Clone, Copy, Debug, PartialEq, Eq, Structural)]
pub struct IntraRoute {
    pub prefix: Prefix,
    pub metric: u64,
    pub next_hop: Option<IpAddr>,
}

/// A segment-routing locator inside the area.
#[derive(Clone, Copy, Debug, PartialEq, Eq, Structural)]
pub struct Locator {
    pub prefix: Prefix,
    pub metric: u64,
    pub next_hop: Option<IpAddr>,
    pub algorithm: u8,
}

/// A network of another area, learned from a summary.
#[derive(Clone, Copy, Debug, PartialEq, Eq, Structural)]
pub struct SummaryRoute {
    pub prefix: Prefix,
    pub metric: u64,
    pub border_router: Option<u32>,
    pub next_hop: Option<IpAddr>,
}

/// An external destination of an OSPFv2 area; a forwarding address of 0 stands
/// for the boundary router itself.
#[derive(Clone, Copy, Debug, PartialEq, Eq, Structural)]
pub struct ExternalRoute {
    pub prefix: Prefix,
    pub metric: u64,
    pub metric_type: ExternalMetricType,
    pub asbr: u32,
    pub forwarding_addr: u32,
    pub internal_cost: u64,
}

/// An external destination of an OSPFv3 area.
#[derive(Clone, Copy, Debug, PartialEq, Eq, Structural)]
pub struct ExternalRouteV3 {
    pub prefix: Prefix,
    pub metric: u64,
    pub metric_type: ExternalMetricType,
    pub asbr: u32,
    pub forwarding_addr: Option<IpAddr>,
    pub internal_cost: u64,
    pub next_hop: Option<IpAddr>,
}

/// The results of one area's calculation.
pub struct SpfFacts {
    /// Networks inside the area: OSPFv2 stub networks, then transit networks;
    /// or the OSPFv3 intra-area prefixes.
    pub intra: Vec<IntraRoute>,
    /// OSPFv3 locators.
    pub locators: Vec<Locator>,
    /// Networks learned from summaries.
    pub summaries: Vec<SummaryRoute>,
    /// OSPFv2 destinations learned from type-5 LSAs.
    pub externals: Vec<ExternalRoute>,
    /// OSPFv2 destinations learned from type-7 LSAs.
    pub nssa_externals: Vec<ExternalRoute>,
    /// OSPFv3 external destinations.
    pub externals_v3: Vec<ExternalRouteV3>,
    /// Routers reachable inside the area, with their distance.
    pub routers: OrdMap<u32, u64>,
    /// First hops toward those routers, where one was resolved.
    pub next_hops: OrdMap<u32, IpAddr>,
    /// Options from the OSPFv3 router-LSAs of those routers.
    pub router_options: OrdMap<u32, u32>,
    /// Labels of prefix segments, with the first hop toward their originator.
    pub labels: OrdMap<Prefix, (u32, IpAddr)>,
    /// Labels a mapping server assigned.
    pub mapping_labels: OrdMap<Prefix, u32>,
    /// Whether this router is the elected type-7 translator of the area.
    pub translator: bool,
}

impl SpfFacts {
    /// Whether nothing was found.
    pub open spec fn blank(self) -> bool {
        &&& self.intra@ == Seq::<IntraRoute>::empty()
        &&& self.locators@ == Seq::<Locator>::empty()
        &&& self.summaries@ == Seq::<SummaryRoute>::empty()
        &&& self.externals@ == Seq::<ExternalRoute>::empty()
        &&& self.nssa_externals@ == Seq::<ExternalRoute>::empty()
        &&& self.externals_v3@ == Seq::<ExternalRouteV3>::empty()
        &&& self.routers@ == Map::<u32, u64>::empty()
        &&& self.next_hops@ == Map::<u32, IpAddr>::empty()
        &&& self.router_options@ == Map::<u32, u32>::empty()
        &&& self.labels@ == Map::<Prefix, (u32, IpAddr)>::empty()
        &&& self.mapping_labels@ == Map::<Prefix, u32>::empty()
        &&& !self.translator
    }

    /// An area in which nothing was found.
    pub fn new() -> (f: SpfFacts)
        ensures
            f.blank(),
    {
        SpfFacts {
            intra: Vec::new(),
            locators: Vec::new(),
            summaries: Vec::new(),
            externals: Vec::new(),
            nssa_externals: Vec::new(),
            externals_v3: Vec::new(),
            routers: OrdMap::new(),
            next_hops: OrdMap::new(),
            router_options: OrdMap::new(),
            labels: OrdMap::new(),
            mapping_labels: OrdMap::new(),
            translator: false,
        }
    }
}

/// One attached area: its policy, its database and what was computed from it.
/// The topology version counts the changes of topology LSAs.
pub struct AreaView {
    pub protocol: Protocol,
    pub kind: OspfAreaType,
    pub topology_version: u64,
    pub lsdb: OrdMap<LsaKey, Lsa>,
    pub facts: SpfFacts,
}

impl AreaView {
    /// Whether the area was just attached: an empty database from which
    /// nothing was computed.
    pub open spec fn blank(self, protocol: Protocol, kind: OspfAreaType) -> bool {
        &&& self.protocol == protocol
        &&& self.kind == kind
        &&& self.topology_version == 0
        &&& self.lsdb@ == Map::<LsaKey, Lsa>::empty()
        &&& self.facts.blank()
    }

    /// An area that was just attached.
    pub fn new(protocol: Protocol, kind: OspfAreaType) -> (a: AreaView)
        ensures
            a.blank(protocol, kind),
    {
        AreaView {
            protocol,
            kind,
            topology_version: 0,
            lsdb: OrdMap::new(),
            facts: SpfFacts::new(),
        }
    }
}

} // verus!
