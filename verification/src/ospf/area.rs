//! Area types and what they accept.

use crate::ospf::lsa::{
    Lsa, LsaContent, E_EXTERNAL, E_INTER_PREFIX, E_INTER_ROUTER, E_NSSA, V2_EXTERNAL, V2_NSSA,
    V2_SUMMARY, V2_SUMMARY_ASBR, V3_EXTERNAL, V3_INTER_PREFIX, V3_INTER_ROUTER,
};
use vstd::prelude::*;

verus! {

/// The type of an area.
#[derive(Clone, Copy, Debug, PartialEq, Eq, Structural)]
pub enum OspfAreaType {
    Normal,
    Stub { no_summary: bool, default_metric: u32 },
    Nssa { no_summary: bool, default_metric: u32 },
}

impl OspfAreaType {
    /// A stub area that imports summaries.
    pub fn stub(default_metric: u32) -> (k: OspfAreaType)
        ensures
            k == (OspfAreaType::Stub { no_summary: false, default_metric }),
    {
        OspfAreaType::Stub { no_summary: false, default_metric }
    }

    /// A not-so-stubby area that imports summaries.
    pub fn nssa(default_metric: u32) -> (k: OspfAreaType)
        ensures
            k == (OspfAreaType::Nssa { no_summary: false, default_metric }),
    {
        OspfAreaType::Nssa { no_summary: false, default_metric }
    }

    /// Whether external LSAs stay out of the area.
    pub open spec fn stubby(self) -> bool {
        self is Stub || self is Nssa
    }

    /// Whether the area imports no summary but the default.
    pub open spec fn suppresses_summaries(self) -> bool {
        match self {
            OspfAreaType::Normal => false,
            OspfAreaType::Stub { no_summary, .. } => no_summary,
            OspfAreaType::Nssa { no_summary, .. } => no_summary,
        }
    }

    /// The metric of the default a border router injects.
    pub open spec fn injected_metric(self) -> Option<u32> {
        match self {
            OspfAreaType::Normal => None,
            OspfAreaType::Stub { default_metric, .. } => Some(default_metric),
            OspfAreaType::Nssa { default_metric, .. } => Some(default_metric),
        }
    }

    /// Whether this is a stub area.
    pub fn is_stub(&self) -> (b: bool)
        ensures
            b == (*self is Stub),
    {
        match self {
            OspfAreaType::Stub { .. } => true,
            _ => false,
        }
    }

    /// Whether this is a not-so-stubby area.
    pub fn is_nssa(&self) -> (b: bool)
        ensures
            b == (*self is Nssa),
    {
        match self {
            OspfAreaType::Nssa { .. } => true,
            _ => false,
        }
    }

    /// Whether this is a stub or a not-so-stubby area.
    pub fn is_stubby(&self) -> (b: bool)
        ensures
            b == self.stubby(),
    {
        match self {
            OspfAreaType::Normal => false,
            _ => true,
        }
    }

    /// Whether the area imports no summary but the default.
    pub fn no_summary(&self) -> (b: bool)
        ensures
            b == self.suppresses_summaries(),
    {
        match self {
            OspfAreaType::Normal => false,
            OspfAreaType::Stub { no_summary, .. } => *no_summary,
            OspfAreaType::Nssa { no_summary, .. } => *no_summary,
        }
    }

    /// The metric of the default a border router injects.
    pub fn default_metric(&self) -> (m: Option<u32>)
        ensures
            m == self.injected_metric(),
    {
        match self {
            OspfAreaType::Normal => None,
            OspfAreaType::Stub { default_metric, .. } => Some(*default_metric),
            OspfAreaType::Nssa { default_metric, .. } => Some(*default_metric),
        }
    }
}

/// Types that describe destinations outside the routing domain, or where
/// their boundary routers are.
pub open spec fn external_class(t: u16) -> bool {
    ||| t == V2_EXTERNAL
    ||| t == V2_SUMMARY_ASBR
    ||| t == V3_EXTERNAL
    ||| t == V3_INTER_ROUTER
    ||| t == E_EXTERNAL
    ||| t == E_INTER_ROUTER
}

/// Types that only exist inside not-so-stubby areas.
pub open spec fn nssa_class(t: u16) -> bool {
    t == V2_NSSA || t == E_NSSA
}

/// Types that summarise another area's network.
pub open spec fn summary_class(t: u16) -> bool {
    t == V2_SUMMARY || t == V3_INTER_PREFIX || t == E_INTER_PREFIX
}

/// Whether a summary describes the default route. The OSPFv2 form says so by
/// a zero link-state ID, the others by a zero-length prefix in the body.
pub open spec fn default_summary(lsa: Lsa) -> bool {
    if lsa.header.ls_type == V2_SUMMARY {
        lsa.header.link_state_id == 0
    } else if lsa.header.ls_type == V3_INTER_PREFIX {
        match lsa.content {
            LsaContent::InterPrefix { prefix_len, .. } => prefix_len == 0,
            _ => false,
        }
    } else {
        match lsa.content {
            LsaContent::ExtInterPrefix { prefix_len } => prefix_len == 0,
            _ => false,
        }
    }
}

/// Whether an area of type `kind` accepts `lsa`.
pub open spec fn area_accepts(kind: OspfAreaType, lsa: Lsa) -> bool {
    let t = lsa.header.ls_type;
    if external_class(t) {
        !kind.stubby()
    } else if nssa_class(t) {
        kind is Nssa
    } else if summary_class(t) {
        !kind.suppresses_summaries() || default_summary(lsa)
    } else {
        true
    }
}

/// Whether an area of type `kind` accepts `lsa`.
pub fn ospf_area_accepts(kind: &OspfAreaType, lsa: &Lsa) -> (b: bool)
    ensures
        b == area_accepts(*kind, *lsa),
{
    let t: u16 = lsa.header.ls_type;
    if t == V2_EXTERNAL || t == V2_SUMMARY_ASBR || t == V3_EXTERNAL || t == V3_INTER_ROUTER || t
        == E_EXTERNAL || t == E_INTER_ROUTER {
        !kind.is_stubby()
    } else if t == V2_NSSA || t == E_NSSA {
        kind.is_nssa()
    } else if t == V2_SUMMARY || t == V3_INTER_PREFIX || t == E_INTER_PREFIX {
        if !kind.no_summary() {
            true
        } else if t == V2_SUMMARY {
            lsa.header.link_state_id == 0
        } else if t == V3_INTER_PREFIX {
            match lsa.content {
                LsaContent::InterPrefix { prefix_len, .. } => prefix_len == 0,
                _ => false,
            }
        } else {
            match lsa.content {
                LsaContent::ExtInterPrefix { prefix_len } => prefix_len == 0,
                _ => false,
            }
        }
    } else {
        true
    }
}

/// A stub area never holds external or NSSA LSAs, and a normal area never
/// holds NSSA LSAs.
pub proof fn area_boundaries(kind: OspfAreaType, lsa: Lsa)
    requires
        area_accepts(kind, lsa),
    ensures
        kind.stubby() ==> !external_class(lsa.header.ls_type),
        nssa_class(lsa.header.ls_type) ==> kind is Nssa,
        kind.suppresses_summaries() && summary_class(lsa.header.ls_type) ==> default_summary(lsa),
{
}

/// What an area's type decides, by LSA type: externals and the summaries and
/// inter-area-router LSAs that locate boundary routers stay out of stub and
/// not-so-stubby areas, type-7 LSAs out of all but the latter; an area that
/// suppresses summaries takes no network summary but the default. Everything
/// else is accepted everywhere.
pub proof fn areas_accept_by_type(kind: OspfAreaType, lsa: Lsa)
    ensures
        ({
            let t = lsa.header.ls_type;
            let bare = match kind {
                OspfAreaType::Normal => false,
                OspfAreaType::Stub { no_summary, .. } => no_summary,
                OspfAreaType::Nssa { no_summary, .. } => no_summary,
            };
            let accepted = area_accepts(kind, lsa);
            &&& t == 4 || t == 5 || t == 0x2004 || t == 0x4005 || t == 0xa024 || t == 0xc025
                ==> (accepted <==> kind is Normal)
            &&& t == 7 || t == 0xa027 ==> (accepted <==> kind is Nssa)
            &&& t == 3 ==> (accepted <==> !bare || lsa.header.link_state_id == 0)
            &&& t == 0x2003 ==> (accepted <==> !bare || match lsa.content {
                LsaContent::InterPrefix { prefix_len, .. } => prefix_len == 0,
                _ => false,
            })
            &&& t == 0xa023 ==> (accepted <==> !bare || match lsa.content {
                LsaContent::ExtInterPrefix { prefix_len } => prefix_len == 0,
                _ => false,
            })
            &&& t != 3 && t != 4 && t != 5 && t != 7 && t != 0x2003 && t != 0x2004 && t != 0x4005
                && t != 0xa023 && t != 0xa024 && t != 0xa027 && t != 0xc025 ==> accepted
        }),
{
}

} // verus!
