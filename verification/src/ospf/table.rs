//! Route tables: how the routes of one area and of all areas merge.

use crate::addr::IpAddr;
use vstd::prelude::*;

verus! {

/// The metric type of an external route.
#[derive(Clone, Copy, Debug, PartialEq, Eq, Structural)]
pub enum ExternalMetricType {
    Type1,
    Type2,
}

/// How a table entry was derived.
#[derive(Clone, Copy, Debug, PartialEq, Eq, Structural)]
pub enum OspfKind {
    Intra,
    Inter { border_router: u32 },
    External {
        metric_type: ExternalMetricType,
        asbr: u32,
        forwarding_addr: Option<IpAddr>,
        internal_cost: u64,
    },
}

/// One entry of a route table.
#[derive(Clone, Copy, Debug, PartialEq, Eq, Structural)]
pub struct OspfTableEntry {
    pub metric: u64,
    pub kind: OspfKind,
    pub label: Option<u32>,
    pub label_nh: Option<IpAddr>,
    pub next_hop: Option<IpAddr>,
}

impl OspfTableEntry {
    /// An entry of the given kind, without label or next hop.
    pub open spec fn plain(metric: u64, kind: OspfKind) -> OspfTableEntry {
        OspfTableEntry { metric, kind, label: None, label_nh: None, next_hop: None }
    }

    /// An intra-area entry.
    pub fn intra(metric: u64) -> (e: OspfTableEntry)
        ensures
            e == OspfTableEntry::plain(metric, OspfKind::Intra),
    {
        OspfTableEntry {
            metric,
            kind: OspfKind::Intra,
            label: None,
            label_nh: None,
            next_hop: None,
        }
    }

    /// An intra-area entry with its resolved next hop.
    pub fn intra_v3(metric: u64, next_hop: Option<IpAddr>) -> (e: OspfTableEntry)
        ensures
            e == (OspfTableEntry { next_hop, ..OspfTableEntry::plain(metric, OspfKind::Intra) }),
    {
        OspfTableEntry { metric, kind: OspfKind::Intra, label: None, label_nh: None, next_hop }
    }

    /// An inter-area entry; an unknown border router counts as 0.
    pub fn inter(metric: u64, border_router: Option<u32>) -> (e: OspfTableEntry)
        ensures
            e == OspfTableEntry::plain(
                metric,
                OspfKind::Inter { border_router: or_zero(border_router) },
            ),
    {
        let border_router: u32 = match border_router {
            Some(b) => b,
            None => 0,
        };
        OspfTableEntry {
            metric,
            kind: OspfKind::Inter { border_router },
            label: None,
            label_nh: None,
            next_hop: None,
        }
    }

    /// An external entry.
    pub fn external(
        metric: u64,
        metric_type: ExternalMetricType,
        asbr: u32,
        forwarding_addr: Option<IpAddr>,
        internal_cost: u64,
    ) -> (e: OspfTableEntry)
        ensures
            e == OspfTableEntry::plain(
                metric,
                OspfKind::External { metric_type, asbr, forwarding_addr, internal_cost },
            ),
    {
        OspfTableEntry {
            metric,
            kind: OspfKind::External { metric_type, asbr, forwarding_addr, internal_cost },
            label: None,
            label_nh: None,
            next_hop: None,
        }
    }

    /// Whether the entry is an intra-area route.
    pub fn is_intra(&self) -> (b: bool)
        ensures
            b == (self.kind is Intra),
    {
        match self.kind {
            OspfKind::Intra => true,
            _ => false,
        }
    }

    /// Whether the entry is an inter-area route advertised by `router_id`.
    pub open spec fn own_inter(self, router_id: u32) -> bool {
        self.kind == OspfKind::Inter { border_router: router_id }
    }

    /// Whether the entry is an inter-area route advertised by `router_id`.
    pub fn is_own_inter(&self, router_id: u32) -> (b: bool)
        ensures
            b == self.own_inter(router_id),
    {
        match self.kind {
            OspfKind::Inter { border_router } => border_router == router_id,
            _ => false,
        }
    }

    /// The path class: intra-area, inter-area, type-1 and type-2 external.
    pub open spec fn class(self) -> int {
        match self.kind {
            OspfKind::Intra => 0,
            OspfKind::Inter { .. } => 1,
            OspfKind::External { metric_type: ExternalMetricType::Type1, .. } => 2,
            OspfKind::External { metric_type: ExternalMetricType::Type2, .. } => 3,
        }
    }

    /// The boundary router of an external entry, 0 for the others.
    pub open spec fn boundary(self) -> int {
        match self.kind {
            OspfKind::External { asbr, .. } => asbr as int,
            _ => 0,
        }
    }

    /// The internal cost that breaks ties among type-2 externals, 0 for the
    /// others.
    pub open spec fn tie_cost(self) -> int {
        match self.kind {
            OspfKind::External {
                metric_type: ExternalMetricType::Type2,
                internal_cost,
                ..
            } => internal_cost as int,
            _ => 0,
        }
    }

    /// The preference order: the lower class wins, then the lower metric, then
    /// (among type-2 externals) the lower cost to the boundary router, then
    /// the lower boundary router.
    pub open spec fn preferred(self, prev: OspfTableEntry) -> bool {
        if self.class() != prev.class() {
            self.class() < prev.class()
        } else if self.metric != prev.metric {
            self.metric < prev.metric
        } else if self.tie_cost() != prev.tie_cost() {
            self.tie_cost() < prev.tie_cost()
        } else {
            self.boundary() < prev.boundary()
        }
    }

    /// Whether this entry replaces `prev` for the same prefix.
    pub fn beats(&self, prev: &OspfTableEntry) -> (b: bool)
        ensures
            b == self.preferred(*prev),
    {
        match (self.kind, prev.kind) {
            (OspfKind::Intra, OspfKind::Intra) => self.metric < prev.metric,
            (OspfKind::Intra, _) => true,
            (_, OspfKind::Intra) => false,
            (OspfKind::Inter { .. }, OspfKind::Inter { .. }) => self.metric < prev.metric,
            (OspfKind::Inter { .. }, _) => true,
            (_, OspfKind::Inter { .. }) => false,
            (
                OspfKind::External {
                    metric_type: t_self,
                    internal_cost: c_self,
                    asbr: a_self,
                    ..
                },
                OspfKind::External {
                    metric_type: t_prev,
                    internal_cost: c_prev,
                    asbr: a_prev,
                    ..
                },
            ) => {
                if t_self != t_prev {
                    return t_self == ExternalMetricType::Type1;
                }
                if self.metric != prev.metric {
                    return self.metric < prev.metric;
                }
                if t_self == ExternalMetricType::Type2 && c_self != c_prev {
                    return c_self < c_prev;
                }
                a_self < a_prev
            },
        }
    }
}

/// The value, or 0.
pub open spec fn or_zero(x: Option<u32>) -> u32 {
    match x {
        Some(v) => v,
        None => 0,
    }
}

/// The preference order is a strict order: nothing beats itself, two entries
/// never beat each other, and beating is transitive.
pub proof fn preference_is_a_strict_order(
    a: OspfTableEntry,
    b: OspfTableEntry,
    c: OspfTableEntry,
)
    ensures
        !a.preferred(a),
        !(a.preferred(b) && b.preferred(a)),
        a.preferred(b) && b.preferred(c) ==> a.preferred(c),
{
}

/// Intra-area routes beat inter-area routes, which beat type-1 externals,
/// which beat type-2 externals, whatever their metrics.
pub proof fn class_decides_before_metric(a: OspfTableEntry, b: OspfTableEntry)
    requires
        a.class() < b.class(),
    ensures
        a.preferred(b),
        !b.preferred(a),
{
}

/// Of two paths of the same kind the one with the lower metric wins. Type-2
/// externals of equal metric are told apart by the cost to their boundary
/// router, externals that still tie by the lower boundary router.
pub proof fn lower_metric_wins(a: OspfTableEntry, b: OspfTableEntry)
    requires
        match (a.kind, b.kind) {
            (OspfKind::Intra, OspfKind::Intra) => a.metric < b.metric,
            (OspfKind::Inter { .. }, OspfKind::Inter { .. }) => a.metric < b.metric,
            (
                OspfKind::External { metric_type: s, internal_cost: c, asbr: r, .. },
                OspfKind::External { metric_type: t, internal_cost: d, asbr: q, .. },
            ) => s == t && (a.metric < b.metric || a.metric == b.metric && (if s is Type2
                && c != d {
                c < d
            } else {
                r < q
            })),
            _ => false,
        },
    ensures
        a.preferred(b),
        !b.preferred(a),
{
}

/// The kind of a path decides first: a network of the area itself, then one
/// of another area, then a type-1 external, whatever the metrics are.
pub proof fn nearer_kinds_win(a: OspfTableEntry, b: OspfTableEntry)
    requires
        match (a.kind, b.kind) {
            (OspfKind::Intra, k) => k != OspfKind::Intra,
            (OspfKind::Inter { .. }, OspfKind::External { .. }) => true,
            (
                OspfKind::External { metric_type: s, .. },
                OspfKind::External { metric_type: t, .. },
            ) => s is Type1 && t is Type2,
            _ => false,
        },
    ensures
        a.preferred(b),
        !b.preferred(a),
{
}

/// Nothing but kind, metric, internal cost and boundary router tells entries
/// apart: next hops, labels, border routers and forwarding addresses never
/// decide.
pub proof fn only_the_path_decides(a: OspfTableEntry, b: OspfTableEntry)
    requires
        a.metric == b.metric,
        match (a.kind, b.kind) {
            (OspfKind::Intra, OspfKind::Intra) => true,
            (OspfKind::Inter { .. }, OspfKind::Inter { .. }) => true,
            (
                OspfKind::External { metric_type: s, internal_cost: c, asbr: r, .. },
                OspfKind::External { metric_type: t, internal_cost: d, asbr: q, .. },
            ) => s == t && r == q && (s is Type2 ==> c == d),
            _ => false,
        },
    ensures
        !a.preferred(b),
        !b.preferred(a),
{
}

} // verus!
