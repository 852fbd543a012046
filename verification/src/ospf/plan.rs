//! What a router does to the databases of its areas.

use crate::addr::Prefix;
use crate::list::List;
use crate::ospf::lsa::LsaKey;
use crate::ospf::table::ExternalMetricType;
use crate::value::Value;
use vstd::prelude::*;

verus! {

/// A destination redistributed into OSPFv2.
#[derive(Clone, Copy, Debug, PartialEq, Eq, Structural)]
pub struct ExternalDestination {
    pub prefix: Prefix,
    pub metric: u32,
    pub metric_type: ExternalMetricType,
    pub forwarding_addr: u32,
    pub route_tag: u32,
    pub p_bit: bool,
}

/// A destination redistributed into OSPFv3.
#[derive(Clone, Copy, Debug, PartialEq, Eq, Structural)]
pub struct V3ExternalDestination {
    pub prefix: Prefix,
    pub metric: u32,
    pub type2: bool,
    pub forwarding_addr: Option<u128>,
    pub route_tag: Option<u32>,
}

/// One change to an area's database. An origination continues from the
/// sequence number of the instance it replaces.
#[derive(Clone, Copy, Debug, PartialEq, Eq, Structural)]
pub enum LsaAction {
    /// A type-3 summary.
    Summary { prefix: Prefix, metric: u32, prev_seq: Option<u32> },
    /// An OSPFv3 inter-area prefix.
    InterAreaPrefix { ls_id: u32, prefix: Prefix, metric: u32, prev_seq: Option<u32> },
    /// A type-4 summary.
    SummaryAsbr { asbr: u32, metric: u32, prev_seq: Option<u32> },
    /// An OSPFv3 inter-area router.
    InterAreaRouter { asbr: u32, options: u32, metric: u32, prev_seq: Option<u32> },
    /// A border router's type-7 default.
    NssaDefault { metric: u32, prev_seq: Option<u32> },
    /// A type-5 external.
    External { dest: ExternalDestination, prev_seq: Option<u32> },
    /// A type-7 external.
    NssaExternal { dest: ExternalDestination, prev_seq: Option<u32> },
    /// An OSPFv3 external.
    ExternalV3 { ls_id: u32, dest_v3: V3ExternalDestination, prev_seq: Option<u32> },
    /// The end of an LSA.
    Flush { key: LsaKey },
}

/// Changes to one area that are flooded together.
#[derive(Debug)]
pub struct AreaPlan {
    pub area: u32,
    pub actions: List<LsaAction>,
}

impl Value for LsaAction {
    fn dup(&self) -> (r: Self) {
        *self
    }

    fn same(&self, other: &Self) -> (b: bool) {
        *self == *other
    }
}

impl Value for AreaPlan {
    fn dup(&self) -> (r: Self) {
        AreaPlan { area: self.area, actions: self.actions.dup() }
    }

    fn same(&self, other: &Self) -> (b: bool) {
        self.area == other.area && self.actions.same(&other.actions)
    }
}

/// A plan of one action.
pub open spec fn single(area: u32, action: LsaAction) -> AreaPlan {
    AreaPlan { area, actions: List::Cons(action, Box::new(List::Nil)) }
}

/// A plan of one action.
pub fn single_plan(area: u32, action: LsaAction) -> (p: AreaPlan)
    ensures
        p == single(area, action),
{
    AreaPlan { area, actions: List::Cons(action, Box::new(List::Nil)) }
}

/// The plan of several actions, if there are any.
pub open spec fn grouped(area: u32, actions: Seq<LsaAction>) -> Seq<AreaPlan> {
    if actions.len() == 0 {
        Seq::empty()
    } else {
        seq![AreaPlan { area, actions: List::of(actions) }]
    }
}

} // verus!
