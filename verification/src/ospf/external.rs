//! External destinations: redistribution, translation and the defaults of
//! not-so-stubby areas.

use crate::addr::{mask_v4, prefix_len_to_mask, IpAddr, Prefix};
use crate::ordmap::{is_table, lookup, map_of, ordered, sorted, Key, OrdMap};
use crate::ordmap::{lemma_entry, lemma_key_position, lemma_take_step};
use crate::ospf::area::{area_accepts, ospf_area_accepts, OspfAreaType};
use crate::ospf::facts::AreaView;
use crate::ospf::lsa::{
    has_p_bit, p_bit, Lsa, LsaContent, LsaKey, V2_EXTERNAL, V2_NSSA, V3_EXTERNAL,
};
use crate::ospf::plan::{
    single, single_plan, AreaPlan, ExternalDestination, LsaAction, V3ExternalDestination,
};
use crate::ospf::summary::seq_of;
use crate::ospf::summary_v3::{lemma_lowest, lemma_lowest_holds, lowest};
use crate::ospf::table::ExternalMetricType;
use crate::route::Protocol;
use crate::seqs::{gather, gather_includes, gather_source, gather_step, gather_whole, one_if};
use vstd::prelude::*;

verus! {

/// Whether every area runs a protocol version.
pub open spec fn all_run(areas: Seq<(u32, AreaView)>, protocol: Protocol) -> bool {
    forall|i: int| 0 <= i < areas.len() ==> (#[trigger] areas[i]).1.protocol == protocol
}

/// Whether the router borders areas of a version: it has a router ID, the
/// backbone and at least one more area, and all of them run that version.
pub open spec fn border_router(
    router_id: Option<u32>,
    areas: Map<u32, AreaView>,
    protocol: Protocol,
) -> bool {
    &&& router_id is Some
    &&& sorted(areas).len() >= 2
    &&& areas.contains_key(0)
    &&& all_run(sorted(areas), protocol)
}

/// Whether the router borders areas of a version.
pub fn is_border_router(
    router_id: Option<u32>,
    areas: &OrdMap<u32, AreaView>,
    protocol: Protocol,
) -> (b: bool)
    ensures
        b == border_router(router_id, areas@, protocol),
{
    let n: usize = areas.len();
    if router_id.is_none() || n < 2 || !areas.contains_key(&0) {
        return false;
    }
    let mut i: usize = 0;
    while i < n
        invariant
            i <= n == areas.entries().len(),
            areas.entries() == sorted(areas@),
            forall|j: int|
                0 <= j < i ==> (#[trigger] areas.entries()[j]).1.protocol == protocol,
        decreases n - i,
    {
        if areas.value_at(i).protocol != protocol {
            assert(areas.entries()[i as int].1.protocol != protocol);
            return false;
        }
        i = i + 1;
    }
    true
}

/// The key of an LSA of this router.
pub open spec fn own_key(ls_type: u16, id: u32, router_id: u32) -> LsaKey {
    LsaKey { ls_type, link_state_id: id, advertising_router: router_id }
}

fn make_own_key(ls_type: u16, id: u32, router_id: u32) -> (k: LsaKey)
    ensures
        k == own_key(ls_type, id, router_id),
{
    LsaKey { ls_type, link_state_id: id, advertising_router: router_id }
}

/// Whether an instance's body says exactly what a destination calls for.
pub open spec fn body_matches(lsa: Lsa, dest: ExternalDestination) -> bool {
    match lsa.content {
        LsaContent::External { mask, type2, metric, forwarding_addr, route_tag, .. } => {
            &&& mask == mask_v4(dest.prefix.prefix_len)
            &&& type2 == (dest.metric_type is Type2)
            &&& metric == dest.metric
            &&& forwarding_addr == dest.forwarding_addr
            &&& route_tag == dest.route_tag
        },
        _ => false,
    }
}

fn matches_body(lsa: &Lsa, dest: &ExternalDestination) -> (b: bool)
    ensures
        b == body_matches(*lsa, *dest),
{
    match lsa.content {
        LsaContent::External { mask, type2, metric, forwarding_addr, route_tag, .. } => {
            mask == prefix_len_to_mask(dest.prefix.prefix_len) && type2 == (dest.metric_type
                == ExternalMetricType::Type2) && metric == dest.metric && forwarding_addr
                == dest.forwarding_addr && route_tag == dest.route_tag
        },
        _ => false,
    }
}

/// The metric an external body carries.
pub open spec fn external_metric(lsa: Lsa) -> Option<u32> {
    match lsa.content {
        LsaContent::External { metric, .. } => Some(metric),
        _ => None,
    }
}

/// The type-7 default of an OSPFv2 area: a border router owes it to the
/// not-so-stubby areas that import summaries; elsewhere its own default is
/// flushed. A redistributed default takes its place: the LSA is left to it.
pub open spec fn nssa_default_plan(router_id: u32, abr: bool, redistributed: bool) -> spec_fn(
    (u32, AreaView),
) -> Seq<AreaPlan> {
    |a: (u32, AreaView)|
        {
            let view = a.1;
            let key = own_key(V2_NSSA, 0, router_id);
            let existing = lookup(view.lsdb@, key);
            let metric = match view.kind.injected_metric() {
                Some(m) => m,
                None => 1u32,
            };
            if !(view.protocol is Ospfv2) || redistributed {
                Seq::empty()
            } else if abr && view.kind is Nssa && !view.kind.suppresses_summaries() {
                one_if(
                    !(existing is Some && external_metric(existing->0) == Some(metric)),
                    single(
                        a.0,
                        LsaAction::NssaDefault { metric, prev_seq: seq_of(existing) },
                    ),
                )
            } else {
                one_if(existing is Some, single(a.0, LsaAction::Flush { key }))
            }
        }
}

/// Plans the type-7 defaults of every area.
pub fn ospf_nssa_defaults(
    areas: &OrdMap<u32, AreaView>,
    router_id: u32,
    abr: bool,
    redistributed: bool,
) -> (plans: Vec<AreaPlan>)
    ensures
        plans@ == gather(sorted(areas@), nssa_default_plan(router_id, abr, redistributed)),
{
    let mut plans: Vec<AreaPlan> = Vec::new();
    let n: usize = areas.len();
    let mut i: usize = 0;
    let ghost f = nssa_default_plan(router_id, abr, redistributed);
    proof {
        gather_whole(areas.entries(), f);
    }
    while i < n
        invariant
            i <= n == areas.entries().len(),
            f == nssa_default_plan(router_id, abr, redistributed),
            plans@ == gather(areas.entries().take(i as int), f),
        decreases n - i,
    {
        proof {
            gather_step(areas.entries(), i as int, f);
        }
        let target = areas.key_at(i);
        let view = areas.value_at(i);
        if view.protocol == Protocol::Ospfv2 && !redistributed {
            let key = make_own_key(V2_NSSA, 0, router_id);
            let desired: bool = abr && view.kind.is_nssa() && !view.kind.no_summary();
            let metric: u32 = match view.kind.default_metric() {
                Some(m) => m,
                None => 1,
            };
            match view.lsdb.get(&key) {
                Some(lsa) => {
                    if desired {
                        let unchanged: bool = match lsa.content {
                            LsaContent::External { metric: m, .. } => m == metric,
                            _ => false,
                        };
                        if !unchanged {
                            plans.push(
                                single_plan(
                                    target,
                                    LsaAction::NssaDefault {
                                        metric,
                                        prev_seq: Some(lsa.header.ls_sequence_number),
                                    },
                                ),
                            );
                        }
                    } else {
                        plans.push(single_plan(target, LsaAction::Flush { key }));
                    }
                },
                None => {
                    if desired {
                        plans.push(
                            single_plan(target, LsaAction::NssaDefault { metric, prev_seq: None }),
                        );
                    }
                },
            }
        }
        i = i + 1;
    }
    plans
}

/// The source of a translation: area, then link-state ID and originator of
/// the type-7 LSA.
pub type TranslationKey = (u32, (u32, u32));

/// The type-5 destination a type-7 LSA of an area translates to: none for
/// defaults, LSAs without the translate bit or a forwarding address, and
/// networks this router redistributes itself.
pub open spec fn translated(
    lsa: Lsa,
    key: LsaKey,
    externals: Map<u32, ExternalDestination>,
) -> Option<ExternalDestination> {
    match lsa.content {
        LsaContent::External { mask, prefix_len, type2, metric, forwarding_addr, route_tag } => {
            if key.ls_type == V2_NSSA && p_bit(lsa.header.options) && forwarding_addr != 0 && mask
                != 0 && !externals.contains_key(key.link_state_id) {
                Some(
                    ExternalDestination {
                        prefix: Prefix {
                            addr: IpAddr::V4(lsa.header.link_state_id & mask),
                            prefix_len,
                        },
                        metric,
                        metric_type: if type2 {
                            ExternalMetricType::Type2
                        } else {
                            ExternalMetricType::Type1
                        },
                        forwarding_addr,
                        route_tag,
                        p_bit: false,
                    },
                )
            } else {
                None
            }
        },
        _ => None,
    }
}

/// The translation desired for a source, if any: the router borders areas,
/// the source lies in a not-so-stubby OSPFv2 area whose elected translator it
/// is, and the LSA is translatable.
pub open spec fn desired_at(
    abr: bool,
    areas: Map<u32, AreaView>,
    externals: Map<u32, ExternalDestination>,
    k: TranslationKey,
) -> Option<ExternalDestination> {
    let key = LsaKey { ls_type: V2_NSSA, link_state_id: k.1.0, advertising_router: k.1.1 };
    if abr && areas.contains_key(k.0) {
        let view = areas[k.0];
        if view.kind is Nssa && view.protocol is Ospfv2 && view.facts.translator
            && view.lsdb@.contains_key(key) {
            translated(view.lsdb@[key], key, externals)
        } else {
            None
        }
    } else {
        None
    }
}

/// All desired translations.
pub open spec fn desired_map(
    abr: bool,
    areas: Map<u32, AreaView>,
    externals: Map<u32, ExternalDestination>,
) -> Map<TranslationKey, ExternalDestination> {
    Map::new(
        |k: TranslationKey| desired_at(abr, areas, externals, k) is Some,
        |k: TranslationKey| desired_at(abr, areas, externals, k)->0,
    )
}

fn translate_lsa(lsa: &Lsa, key: &LsaKey, externals: &OrdMap<u32, ExternalDestination>) -> (d:
    Option<ExternalDestination>)
    ensures
        d == translated(*lsa, *key, externals@),
{
    match lsa.content {
        LsaContent::External { mask, prefix_len, type2, metric, forwarding_addr, route_tag } => {
            if key.ls_type == V2_NSSA && has_p_bit(lsa.header.options) && forwarding_addr != 0
                && mask != 0 && !externals.contains_key(&key.link_state_id) {
                let network: u32 = lsa.header.link_state_id & mask;
                Some(
                    ExternalDestination {
                        prefix: Prefix::new_v4(network, prefix_len),
                        metric,
                        metric_type: if type2 {
                            ExternalMetricType::Type2
                        } else {
                            ExternalMetricType::Type1
                        },
                        forwarding_addr,
                        route_tag,
                        p_bit: false,
                    },
                )
            } else {
                None
            }
        },
        _ => None,
    }
}

fn collect_area(
    out: &mut OrdMap<TranslationKey, ExternalDestination>,
    area: u32,
    lsdb: &OrdMap<LsaKey, Lsa>,
    externals: &OrdMap<u32, ExternalDestination>,
)
    ensures
        forall|k: TranslationKey|
            #![trigger lookup(final(out)@, k)]
            lookup(final(out)@, k) == ({
                let key = LsaKey {
                    ls_type: V2_NSSA,
                    link_state_id: k.1.0,
                    advertising_router: k.1.1,
                };
                if k.0 == area && lsdb@.contains_key(key) && translated(
                    lsdb@[key],
                    key,
                    externals@,
                ) is Some {
                    translated(lsdb@[key], key, externals@)
                } else {
                    lookup(old(out)@, k)
                }
            }),
{
    let ghost start = out@;
    let n: usize = lsdb.len();
    let mut i: usize = 0;
    assert(lsdb.entries().take(0) == Seq::<(LsaKey, Lsa)>::empty());
    while i < n
        invariant
            i <= n == lsdb.entries().len(),
            ordered(lsdb.entries()),
            start == old(out)@,
            forall|k: TranslationKey|
                #![trigger lookup(out@, k)]
                lookup(out@, k) == ({
                    let key = LsaKey {
                        ls_type: V2_NSSA,
                        link_state_id: k.1.0,
                        advertising_router: k.1.1,
                    };
                    let m = map_of(lsdb.entries().take(i as int));
                    if k.0 == area && m.contains_key(key) && translated(
                        m[key],
                        key,
                        externals@,
                    ) is Some {
                        translated(m[key], key, externals@)
                    } else {
                        lookup(start, k)
                    }
                }),
        decreases n - i,
    {
        let ghost before = out@;
        let key = lsdb.key_at(i);
        if let Some(dest) = translate_lsa(lsdb.value_at(i), &key, externals) {
            out.insert((area, (key.link_state_id, key.advertising_router)), dest);
        }
        proof {
            let s = lsdb.entries();
            lemma_take_step(s, i as int);
            let m0 = map_of(s.take(i as int));
            let m = map_of(s.take(i + 1));
            assert forall|k: TranslationKey| #![trigger lookup(out@, k)] lookup(out@, k) == ({
                let key = LsaKey {
                    ls_type: V2_NSSA,
                    link_state_id: k.1.0,
                    advertising_router: k.1.1,
                };
                if k.0 == area && m.contains_key(key) && translated(
                    m[key],
                    key,
                    externals@,
                ) is Some {
                    translated(m[key], key, externals@)
                } else {
                    lookup(start, k)
                }
            }) by {
                let kk = LsaKey {
                    ls_type: V2_NSSA,
                    link_state_id: k.1.0,
                    advertising_router: k.1.1,
                };
                assert(lookup(before, k) == (if k.0 == area && m0.contains_key(kk) && translated(
                    m0[kk],
                    kk,
                    externals@,
                ) is Some {
                    translated(m0[kk], kk, externals@)
                } else {
                    lookup(start, k)
                }));
            }
        }
        i = i + 1;
    }
    assert(lsdb.entries().take(n as int) == lsdb.entries());
}

/// Computes the desired translations.
pub fn desired_translations(
    abr: bool,
    areas: &OrdMap<u32, AreaView>,
    externals: &OrdMap<u32, ExternalDestination>,
) -> (desired: OrdMap<TranslationKey, ExternalDestination>)
    ensures
        desired@ == desired_map(abr, areas@, externals@),
{
    let mut out: OrdMap<TranslationKey, ExternalDestination> = OrdMap::new();
    if !abr {
        assert(out@ =~= desired_map(abr, areas@, externals@));
        return out;
    }
    let n: usize = areas.len();
    let mut i: usize = 0;
    assert(areas.entries().take(0) == Seq::<(u32, AreaView)>::empty());
    while i < n
        invariant
            i <= n == areas.entries().len(),
            ordered(areas.entries()),
            forall|k: TranslationKey|
                #![trigger lookup(out@, k)]
                lookup(out@, k) == desired_at(
                    true,
                    map_of(areas.entries().take(i as int)),
                    externals@,
                    k,
                ),
        decreases n - i,
    {
        let ghost before = out@;
        let area = areas.key_at(i);
        let view = areas.value_at(i);
        if view.kind.is_nssa() && view.protocol == Protocol::Ospfv2 && view.facts.translator {
            collect_area(&mut out, area, &view.lsdb, externals);
        }
        proof {
            let s = areas.entries();
            lemma_take_step(s, i as int);
            let m0 = map_of(s.take(i as int));
            let m = map_of(s.take(i + 1));
            assert forall|k: TranslationKey| #![trigger lookup(out@, k)] lookup(out@, k)
                == desired_at(true, m, externals@, k) by {
                assert(lookup(before, k) == desired_at(true, m0, externals@, k));
            }
        }
        i = i + 1;
    }
    assert(areas.entries().take(n as int) == areas.entries());
    proof {
        let spec_map = desired_map(abr, areas@, externals@);
        assert forall|k: TranslationKey| out@.contains_key(k) == spec_map.contains_key(k) by {
            assert(lookup(out@, k) == desired_at(true, areas@, externals@, k));
        }
        assert forall|k: TranslationKey| #[trigger] out@.contains_key(k) implies out@[k]
            == spec_map[k] by {
            assert(lookup(out@, k) == desired_at(true, areas@, externals@, k));
        }
        assert(out@ =~= spec_map);
    }
    out
}

/// Whether an area carries type-5 LSAs.
pub open spec fn regular(view: AreaView) -> bool {
    !view.kind.stubby() && view.protocol is Ospfv2
}

/// The flush of this router's type-5 LSA with an ID from a regular area.
pub open spec fn drop_external(router_id: u32, id: u32) -> spec_fn((u32, AreaView)) -> Seq<
    AreaPlan,
> {
    |a: (u32, AreaView)|
        one_if(
            regular(a.1) && a.1.lsdb@.contains_key(own_key(V2_EXTERNAL, id, router_id)),
            single(a.0, LsaAction::Flush { key: own_key(V2_EXTERNAL, id, router_id) }),
        )
}

/// The type-5 origination of a destination under an ID into a regular area,
/// unless its instance there already says the same.
pub open spec fn put_external(router_id: u32, id: u32, dest: ExternalDestination) -> spec_fn(
    (u32, AreaView),
) -> Seq<AreaPlan> {
    |a: (u32, AreaView)|
        {
            let prev = lookup(a.1.lsdb@, own_key(V2_EXTERNAL, id, router_id));
            one_if(
                regular(a.1) && !(prev is Some && body_matches(prev->0, dest)),
                single(a.0, LsaAction::External { dest, prev_seq: seq_of(prev) }),
            )
        }
}

/// Plans the end of a translation: its type-5 copy leaves every regular area,
/// unless this router redistributes the same network itself.
pub fn plan_translation_end(
    areas: &OrdMap<u32, AreaView>,
    router_id: u32,
    externals: &OrdMap<u32, ExternalDestination>,
    key: TranslationKey,
) -> (plans: Vec<AreaPlan>)
    ensures
        plans@ == (if externals@.contains_key(key.1.0) {
            Seq::empty()
        } else {
            gather(sorted(areas@), drop_external(router_id, key.1.0))
        }),
{
    let mut plans: Vec<AreaPlan> = Vec::new();
    if externals.contains_key(&key.1.0) {
        return plans;
    }
    let n: usize = areas.len();
    let mut i: usize = 0;
    let ghost f = drop_external(router_id, key.1.0);
    let own = make_own_key(V2_EXTERNAL, key.1.0, router_id);
    proof {
        gather_whole(areas.entries(), f);
    }
    while i < n
        invariant
            i <= n == areas.entries().len(),
            f == drop_external(router_id, key.1.0),
            own == own_key(V2_EXTERNAL, key.1.0, router_id),
            plans@ == gather(areas.entries().take(i as int), f),
        decreases n - i,
    {
        proof {
            gather_step(areas.entries(), i as int, f);
        }
        let area = areas.key_at(i);
        let view = areas.value_at(i);
        if !view.kind.is_stubby() && view.protocol == Protocol::Ospfv2 && view.lsdb.contains_key(
            &own,
        ) {
            plans.push(single_plan(area, LsaAction::Flush { key: own }));
        }
        i = i + 1;
    }
    plans
}

fn plan_external_in(
    area: u32,
    view: &AreaView,
    router_id: u32,
    id: u32,
    dest: &ExternalDestination,
) -> (plan: Option<AreaPlan>)
    requires
        regular(*view),
    ensures
        put_external(router_id, id, *dest)((area, *view)) == (match plan {
            Some(p) => seq![p],
            None => Seq::empty(),
        }),
{
    let own = make_own_key(V2_EXTERNAL, id, router_id);
    let mut prev_seq: Option<u32> = None;
    let mut unchanged: bool = false;
    if let Some(lsa) = view.lsdb.get(&own) {
        prev_seq = Some(lsa.header.ls_sequence_number);
        unchanged = matches_body(lsa, dest);
    }
    if unchanged {
        None
    } else {
        Some(single_plan(area, LsaAction::External { dest: *dest, prev_seq }))
    }
}

/// Plans a translation: its type-5 copy reaches every regular area.
pub fn plan_translation(
    areas: &OrdMap<u32, AreaView>,
    router_id: u32,
    key: TranslationKey,
    dest: &ExternalDestination,
) -> (plans: Vec<AreaPlan>)
    ensures
        plans@ == gather(sorted(areas@), put_external(router_id, key.1.0, *dest)),
{
    let mut plans: Vec<AreaPlan> = Vec::new();
    let n: usize = areas.len();
    let mut i: usize = 0;
    let ghost f = put_external(router_id, key.1.0, *dest);
    proof {
        gather_whole(areas.entries(), f);
    }
    while i < n
        invariant
            i <= n == areas.entries().len(),
            f == put_external(router_id, key.1.0, *dest),
            plans@ == gather(areas.entries().take(i as int), f),
        decreases n - i,
    {
        proof {
            gather_step(areas.entries(), i as int, f);
        }
        let area = areas.key_at(i);
        let view = areas.value_at(i);
        if !view.kind.is_stubby() && view.protocol == Protocol::Ospfv2 {
            if let Some(p) = plan_external_in(area, view, router_id, key.1.0, dest) {
                plans.push(p);
            }
        }
        i = i + 1;
    }
    plans
}

/// Whether a border router also sources type-5 LSAs into a regular area.
pub open spec fn sources_type5(abr: bool, areas: Seq<(u32, AreaView)>) -> bool {
    abr && exists|i: int| 0 <= i < areas.len() && regular((#[trigger] areas[i]).1)
}

/// What a redistributed network calls for in an OSPFv2 area: a type-5 LSA in
/// a regular area; in a not-so-stubby one a type-7 LSA, whose translate bit
/// is off where the router sources the type-5 LSA too; in a stub area the end
/// of a type-5 LSA left from before.
pub open spec fn external_plan(
    router_id: u32,
    network: u32,
    dest: ExternalDestination,
    type5_too: bool,
) -> spec_fn((u32, AreaView)) -> Seq<AreaPlan> {
    |a: (u32, AreaView)|
        {
            let view = a.1;
            if !(view.protocol is Ospfv2) {
                Seq::empty()
            } else if view.kind is Nssa {
                let nssa_dest = ExternalDestination {
                    p_bit: dest.p_bit && !type5_too,
                    ..dest
                };
                let prev = lookup(view.lsdb@, own_key(V2_NSSA, network, router_id));
                one_if(
                    !(prev is Some && p_bit(prev->0.header.options) == (nssa_dest.p_bit
                        && dest.forwarding_addr != 0) && body_matches(prev->0, dest)),
                    single(
                        a.0,
                        LsaAction::NssaExternal { dest: nssa_dest, prev_seq: seq_of(prev) },
                    ),
                )
            } else if view.kind is Stub {
                one_if(
                    view.lsdb@.contains_key(own_key(V2_EXTERNAL, network, router_id)),
                    single(
                        a.0,
                        LsaAction::Flush { key: own_key(V2_EXTERNAL, network, router_id) },
                    ),
                )
            } else {
                put_external(router_id, network, dest)(a)
            }
        }
}

fn find_type5(abr: bool, areas: &OrdMap<u32, AreaView>) -> (b: bool)
    ensures
        b == sources_type5(abr, sorted(areas@)),
{
    if !abr {
        return false;
    }
    let n: usize = areas.len();
    let mut i: usize = 0;
    while i < n
        invariant
            i <= n == areas.entries().len(),
            areas.entries() == sorted(areas@),
            abr,
            forall|j: int| 0 <= j < i ==> !regular((#[trigger] areas.entries()[j]).1),
        decreases n - i,
    {
        let view = areas.value_at(i);
        if view.protocol == Protocol::Ospfv2 && !view.kind.is_stubby() {
            assert(regular(areas.entries()[i as int].1));
            return true;
        }
        i = i + 1;
    }
    false
}

/// Plans the external LSAs of a redistributed network in every area.
pub fn plan_external(
    areas: &OrdMap<u32, AreaView>,
    router_id: u32,
    network: u32,
    dest: &ExternalDestination,
    abr: bool,
) -> (plans: Vec<AreaPlan>)
    ensures
        plans@ == gather(
            sorted(areas@),
            external_plan(router_id, network, *dest, sources_type5(abr, sorted(areas@))),
        ),
{
    let type5_too: bool = find_type5(abr, areas);
    let mut plans: Vec<AreaPlan> = Vec::new();
    let n: usize = areas.len();
    let mut i: usize = 0;
    let ghost f = external_plan(router_id, network, *dest, type5_too);
    proof {
        gather_whole(areas.entries(), f);
    }
    while i < n
        invariant
            i <= n == areas.entries().len(),
            f == external_plan(router_id, network, *dest, type5_too),
            plans@ == gather(areas.entries().take(i as int), f),
        decreases n - i,
    {
        proof {
            gather_step(areas.entries(), i as int, f);
        }
        let area = areas.key_at(i);
        let view = areas.value_at(i);
        if view.protocol == Protocol::Ospfv2 {
            if view.kind.is_nssa() {
                let mut nssa_dest = *dest;
                if type5_too {
                    nssa_dest.p_bit = false;
                }
                let own = make_own_key(V2_NSSA, network, router_id);
                let desired_p: bool = nssa_dest.p_bit && nssa_dest.forwarding_addr != 0;
                let mut prev_seq: Option<u32> = None;
                let mut unchanged: bool = false;
                if let Some(lsa) = view.lsdb.get(&own) {
                    prev_seq = Some(lsa.header.ls_sequence_number);
                    unchanged = has_p_bit(lsa.header.options) == desired_p && matches_body(
                        lsa,
                        dest,
                    );
                }
                if !unchanged {
                    plans.push(
                        single_plan(area, LsaAction::NssaExternal { dest: nssa_dest, prev_seq }),
                    );
                }
            } else if view.kind.is_stub() {
                let own = make_own_key(V2_EXTERNAL, network, router_id);
                if view.lsdb.contains_key(&own) {
                    plans.push(single_plan(area, LsaAction::Flush { key: own }));
                }
            } else {
                if let Some(p) = plan_external_in(area, view, router_id, network, dest) {
                    plans.push(p);
                }
            }
        }
        i = i + 1;
    }
    plans
}

/// The end of a redistributed network: this router's type-5 and type-7 LSAs
/// for it leave every area.
pub open spec fn end_external(router_id: u32, network: u32) -> spec_fn((u32, AreaView)) -> Seq<
    AreaPlan,
> {
    |a: (u32, AreaView)|
        one_if(
            a.1.lsdb@.contains_key(own_key(V2_EXTERNAL, network, router_id)),
            single(a.0, LsaAction::Flush { key: own_key(V2_EXTERNAL, network, router_id) }),
        ) + one_if(
            a.1.lsdb@.contains_key(own_key(V2_NSSA, network, router_id)),
            single(a.0, LsaAction::Flush { key: own_key(V2_NSSA, network, router_id) }),
        )
}

/// Plans the end of a redistributed network.
pub fn plan_external_end(areas: &OrdMap<u32, AreaView>, router_id: u32, network: u32) -> (plans:
    Vec<AreaPlan>)
    ensures
        plans@ == gather(sorted(areas@), end_external(router_id, network)),
{
    let mut plans: Vec<AreaPlan> = Vec::new();
    let n: usize = areas.len();
    let mut i: usize = 0;
    let ghost f = end_external(router_id, network);
    let own5 = make_own_key(V2_EXTERNAL, network, router_id);
    let own7 = make_own_key(V2_NSSA, network, router_id);
    proof {
        gather_whole(areas.entries(), f);
    }
    while i < n
        invariant
            i <= n == areas.entries().len(),
            f == end_external(router_id, network),
            own5 == own_key(V2_EXTERNAL, network, router_id),
            own7 == own_key(V2_NSSA, network, router_id),
            plans@ == gather(areas.entries().take(i as int), f),
        decreases n - i,
    {
        proof {
            gather_step(areas.entries(), i as int, f);
        }
        let area = areas.key_at(i);
        let view = areas.value_at(i);
        if view.lsdb.contains_key(&own5) {
            plans.push(single_plan(area, LsaAction::Flush { key: own5 }));
        }
        if view.lsdb.contains_key(&own7) {
            plans.push(single_plan(area, LsaAction::Flush { key: own7 }));
        }
        assert(plans@ =~= gather(areas.entries().take(i as int), f) + f(
            areas.entries()[i as int],
        ));
        i = i + 1;
    }
    plans
}

/// The prefix an OSPFv3 external body describes.
pub open spec fn described_external(lsa: Lsa) -> Option<Prefix> {
    match lsa.content {
        LsaContent::ExternalV3 { prefix, .. } => prefix,
        _ => None,
    }
}

/// Whether an ID is remembered for some external prefix.
pub open spec fn id_remembered(ids: Map<Prefix, u32>, id: u32) -> bool {
    exists|p: Prefix| #[trigger] ids.contains_key(p) && ids[p] == id
}

/// Whether this router's OSPFv3 external LSA with an ID in a database
/// describes `p`, and the ID belongs to no other prefix.
pub open spec fn describes_external(
    lsdb: Map<LsaKey, Lsa>,
    router_id: u32,
    ids: Map<Prefix, u32>,
    p: Prefix,
) -> spec_fn(u32) -> bool {
    |id: u32|
        lsdb.contains_key(own_key(V3_EXTERNAL, id, router_id)) && described_external(
            lsdb[own_key(V3_EXTERNAL, id, router_id)],
        ) == Some(p) && !id_remembered(ids, id)
}

/// The ID under which the first OSPFv3 area that knows `p` describes it.
pub open spec fn reused_id(
    areas: Seq<(u32, AreaView)>,
    router_id: u32,
    ids: Map<Prefix, u32>,
    p: Prefix,
) -> Option<u32>
    decreases areas.len(),
{
    if areas.len() == 0 {
        None
    } else {
        let view = areas[0].1;
        let here = lowest(describes_external(view.lsdb@, router_id, ids, p));
        if view.protocol is Ospfv3 && here is Some {
            here
        } else {
            reused_id(areas.drop_first(), router_id, ids, p)
        }
    }
}

/// Whether some OSPFv3 area holds this router's external LSA with an ID.
pub open spec fn id_taken(areas: Seq<(u32, AreaView)>, router_id: u32, id: u32) -> bool {
    exists|i: int|
        0 <= i < areas.len() && (#[trigger] areas[i]).1.protocol is Ospfv3
            && areas[i].1.lsdb@.contains_key(own_key(V3_EXTERNAL, id, router_id))
}

/// Whether an ID is free: in the database of no OSPFv3 area, and remembered
/// for no prefix.
pub open spec fn id_free(
    areas: Seq<(u32, AreaView)>,
    router_id: u32,
    ids: Map<Prefix, u32>,
) -> spec_fn(u32) -> bool {
    |id: u32| id >= 1 && !id_taken(areas, router_id, id) && !id_remembered(ids, id)
}

/// The ID of an external prefix: the one remembered, else that of an instance
/// that already describes it, else the lowest free one. There is none when all
/// are taken.
pub open spec fn external_id(
    areas: Seq<(u32, AreaView)>,
    router_id: u32,
    ids: Map<Prefix, u32>,
    p: Prefix,
) -> Option<u32> {
    match lookup(ids, p) {
        Some(id) => Some(id),
        None => match reused_id(areas, router_id, ids, p) {
            Some(id) => Some(id),
            None => lowest(id_free(areas, router_id, ids)),
        },
    }
}

/// Whether an OSPFv3 external instance says what a destination calls for.
pub open spec fn body_matches_v3(lsa: Lsa, dest: V3ExternalDestination) -> bool {
    match lsa.content {
        LsaContent::ExternalV3 { prefix_len, prefix, type2, metric, forwarding_v6, tag } => {
            &&& prefix == Some(dest.prefix)
            &&& type2 == dest.type2
            &&& metric == dest.metric
            &&& prefix_len == dest.prefix.prefix_len
            &&& forwarding_v6 == dest.forwarding_addr
            &&& tag == dest.route_tag
        },
        _ => false,
    }
}

/// The external LSA of a destination in an OSPFv3 area, unless its instance
/// there already says the same.
pub open spec fn external_plan_v3(router_id: u32, id: u32, dest: V3ExternalDestination) -> spec_fn(
    (u32, AreaView),
) -> Seq<AreaPlan> {
    |a: (u32, AreaView)|
        {
            let prev = lookup(a.1.lsdb@, own_key(V3_EXTERNAL, id, router_id));
            one_if(
                a.1.protocol is Ospfv3 && !(prev is Some && body_matches_v3(prev->0, dest)),
                single(
                    a.0,
                    LsaAction::ExternalV3 { ls_id: id, dest_v3: dest, prev_seq: seq_of(prev) },
                ),
            )
        }
}

fn check_remembered(ids: &OrdMap<Prefix, u32>, id: u32) -> (b: bool)
    ensures
        b == id_remembered(ids@, id),
{
    let n: usize = ids.len();
    let ghost s = ids.entries();
    let mut i: usize = 0;
    while i < n
        invariant
            i <= n == s.len(),
            s == ids.entries(),
            ordered(s),
            forall|j: int| 0 <= j < i ==> (#[trigger] s[j]).1 != id,
        decreases n - i,
    {
        if *ids.value_at(i) == id {
            proof {
                lemma_entry(s, i as int);
                assert(ids@.contains_key(s[i as int].0));
            }
            return true;
        }
        i = i + 1;
    }
    proof {
        if id_remembered(ids@, id) {
            let p = choose|p: Prefix| #[trigger] ids@.contains_key(p) && ids@[p] == id;
            let j = lemma_key_position(s, p);
        }
    }
    false
}

fn find_described_external(
    lsdb: &OrdMap<LsaKey, Lsa>,
    router_id: u32,
    ids: &OrdMap<Prefix, u32>,
    p: Prefix,
) -> (r: Option<u32>)
    ensures
        r == lowest(describes_external(lsdb@, router_id, ids@, p)),
{
    let n: usize = lsdb.len();
    let ghost f = describes_external(lsdb@, router_id, ids@, p);
    let ghost s = lsdb.entries();
    let mut i: usize = 0;
    while i < n
        invariant
            i <= n == s.len(),
            s == lsdb.entries(),
            ordered(s),
            f == describes_external(lsdb@, router_id, ids@, p),
            forall|x: int|
                0 <= x < i ==> !((#[trigger] s[x]).0.ls_type == V3_EXTERNAL
                    && s[x].0.advertising_router == router_id && described_external(s[x].1)
                    == Some(p) && !id_remembered(ids@, s[x].0.link_state_id)),
        decreases n - i,
    {
        let key = lsdb.key_at(i);
        if key.ls_type == V3_EXTERNAL && key.advertising_router == router_id {
            let said: Option<Prefix> = match lsdb.value_at(i).content {
                LsaContent::ExternalV3 { prefix, .. } => prefix,
                _ => None,
            };
            let hit: bool = match said {
                Some(q) => q == p,
                None => false,
            };
            if hit && !check_remembered(ids, key.link_state_id) {
                proof {
                    let id = key.link_state_id;
                    lemma_entry(s, i as int);
                    assert(f(id));
                    assert forall|j: u32| j < id implies !(#[trigger] f(j)) by {
                        if f(j) {
                            let x = lemma_key_position(s, own_key(V3_EXTERNAL, j, router_id));
                            if x > i {
                                assert(s[i as int].0.code() < s[x].0.code());
                            }
                            assert(x != i);
                        }
                    }
                    lemma_lowest(f, id);
                }
                return Some(key.link_state_id);
            }
        }
        i = i + 1;
    }
    proof {
        assert forall|j: u32| !(#[trigger] f(j)) by {
            if f(j) {
                let x = lemma_key_position(s, own_key(V3_EXTERNAL, j, router_id));
            }
        }
    }
    None
}

fn find_reused_id(
    areas: &OrdMap<u32, AreaView>,
    router_id: u32,
    ids: &OrdMap<Prefix, u32>,
    p: Prefix,
) -> (r: Option<u32>)
    ensures
        r == reused_id(sorted(areas@), router_id, ids@, p),
{
    let n: usize = areas.len();
    let ghost s = areas.entries();
    let mut i: usize = 0;
    assert(s.skip(0) == s);
    while i < n
        invariant
            i <= n == s.len(),
            s == areas.entries(),
            s == sorted(areas@),
            reused_id(s.skip(i as int), router_id, ids@, p) == reused_id(s, router_id, ids@, p),
        decreases n - i,
    {
        assert(s.skip(i as int).drop_first() == s.skip(i + 1));
        let view = areas.value_at(i);
        if view.protocol == Protocol::Ospfv3 {
            let here = find_described_external(&view.lsdb, router_id, ids, p);
            if here.is_some() {
                return here;
            }
        }
        i = i + 1;
    }
    None
}

fn check_taken(areas: &OrdMap<u32, AreaView>, router_id: u32, id: u32) -> (b: bool)
    ensures
        b == id_taken(sorted(areas@), router_id, id),
{
    let n: usize = areas.len();
    let own = make_own_key(V3_EXTERNAL, id, router_id);
    let mut i: usize = 0;
    while i < n
        invariant
            i <= n == areas.entries().len(),
            areas.entries() == sorted(areas@),
            own == own_key(V3_EXTERNAL, id, router_id),
            forall|j: int|
                0 <= j < i ==> !((#[trigger] areas.entries()[j]).1.protocol is Ospfv3
                    && areas.entries()[j].1.lsdb@.contains_key(own)),
        decreases n - i,
    {
        let view = areas.value_at(i);
        if view.protocol == Protocol::Ospfv3 && view.lsdb.contains_key(&own) {
            assert(areas.entries()[i as int].1.protocol is Ospfv3);
            return true;
        }
        i = i + 1;
    }
    false
}

/// Chooses the ID of an external prefix.
pub fn choose_external_id(
    areas: &OrdMap<u32, AreaView>,
    router_id: u32,
    ids: &OrdMap<Prefix, u32>,
    p: Prefix,
) -> (r: Option<u32>)
    ensures
        r == external_id(sorted(areas@), router_id, ids@, p),
{
    if let Some(id) = ids.get(&p) {
        return Some(*id);
    }
    if let Some(id) = find_reused_id(areas, router_id, ids, p) {
        return Some(id);
    }
    let ghost f = id_free(sorted(areas@), router_id, ids@);
    let mut id: u32 = 1;
    loop
        invariant
            id >= 1,
            lookup(ids@, p) is None,
            reused_id(sorted(areas@), router_id, ids@, p) is None,
            f == id_free(sorted(areas@), router_id, ids@),
            forall|j: u32| j < id ==> !(#[trigger] f(j)),
        decreases u32::MAX - id,
    {
        if !check_taken(areas, router_id, id) && !check_remembered(ids, id) {
            proof {
                assert(f(id));
                lemma_lowest(f, id);
            }
            return Some(id);
        }
        assert(!f(id));
        if id == u32::MAX {
            return None;
        }
        id = id + 1;
    }
}

/// Whether no two external prefixes have the same ID.
#[verifier::opaque]
pub open spec fn distinct_external_ids(ids: Map<Prefix, u32>) -> bool {
    forall|p: Prefix, q: Prefix|
        #![trigger ids.contains_key(p), ids.contains_key(q)]
        ids.contains_key(p) && ids.contains_key(q) && ids[p] == ids[q] ==> p == q
}

proof fn lemma_reused(
    areas: Seq<(u32, AreaView)>,
    router_id: u32,
    ids: Map<Prefix, u32>,
    p: Prefix,
)
    ensures
        match reused_id(areas, router_id, ids, p) {
            Some(id) => !id_remembered(ids, id),
            None => true,
        },
    decreases areas.len(),
{
    if areas.len() > 0 {
        lemma_lowest_holds(describes_external(areas[0].1.lsdb@, router_id, ids, p));
        lemma_reused(areas.drop_first(), router_id, ids, p);
    }
}

/// Two external prefixes never share an ID: the one chosen for a prefix, which
/// is remembered from then on, belongs to no other.
pub proof fn externals_never_share_an_id(
    areas: Seq<(u32, AreaView)>,
    router_id: u32,
    ids: Map<Prefix, u32>,
    p: Prefix,
)
    requires
        distinct_external_ids(ids),
        external_id(areas, router_id, ids, p) is Some,
    ensures
        distinct_external_ids(
            ids.insert(p, external_id(areas, router_id, ids, p)->Some_0),
        ),
{
    reveal(distinct_external_ids);
    let id = external_id(areas, router_id, ids, p)->Some_0;
    let next = ids.insert(p, id);
    lemma_reused(areas, router_id, ids, p);
    lemma_lowest_holds(id_free(areas, router_id, ids));
    assert forall|x: Prefix, y: Prefix|
        #![trigger next.contains_key(x), next.contains_key(y)]
        next.contains_key(x) && next.contains_key(y) && next[x] == next[y] implies x == y by {
        if ids.contains_key(p) {
            assert(next =~= ids);
        } else if (x == p) != (y == p) {
            let other = if x == p {
                y
            } else {
                x
            };
            assert(ids.contains_key(other));
            assert(id_remembered(ids, id));
        }
        if x != p && y != p {
            assert(ids.contains_key(x) && ids.contains_key(y));
        }
    }
}

/// Plans the external LSAs of an OSPFv3 destination in every area.
pub fn plan_external_v3(
    areas: &OrdMap<u32, AreaView>,
    router_id: u32,
    id: u32,
    dest: &V3ExternalDestination,
) -> (plans: Vec<AreaPlan>)
    ensures
        plans@ == gather(sorted(areas@), external_plan_v3(router_id, id, *dest)),
{
    let mut plans: Vec<AreaPlan> = Vec::new();
    let n: usize = areas.len();
    let mut i: usize = 0;
    let ghost f = external_plan_v3(router_id, id, *dest);
    let own = make_own_key(V3_EXTERNAL, id, router_id);
    proof {
        gather_whole(areas.entries(), f);
    }
    while i < n
        invariant
            i <= n == areas.entries().len(),
            f == external_plan_v3(router_id, id, *dest),
            own == own_key(V3_EXTERNAL, id, router_id),
            plans@ == gather(areas.entries().take(i as int), f),
        decreases n - i,
    {
        proof {
            gather_step(areas.entries(), i as int, f);
        }
        let area = areas.key_at(i);
        let view = areas.value_at(i);
        if view.protocol == Protocol::Ospfv3 {
            let mut prev_seq: Option<u32> = None;
            let mut unchanged: bool = false;
            if let Some(lsa) = view.lsdb.get(&own) {
                prev_seq = Some(lsa.header.ls_sequence_number);
                unchanged = match lsa.content {
                    LsaContent::ExternalV3 {
                        prefix_len,
                        prefix,
                        type2,
                        metric,
                        forwarding_v6,
                        tag,
                    } => prefix == Some(dest.prefix) && type2 == dest.type2 && metric == dest.metric && prefix_len
                        == dest.prefix.prefix_len && forwarding_v6 == dest.forwarding_addr && tag
                        == dest.route_tag,
                    _ => false,
                };
            }
            if !unchanged {
                plans.push(
                    single_plan(area, LsaAction::ExternalV3 { ls_id: id, dest_v3: *dest, prev_seq }),
                );
            }
        }
        i = i + 1;
    }
    plans
}

/// The end of an OSPFv3 external LSA in an area.
pub open spec fn end_external_v3(router_id: u32, id: u32) -> spec_fn((u32, AreaView)) -> Seq<
    AreaPlan,
> {
    |a: (u32, AreaView)|
        one_if(
            a.1.lsdb@.contains_key(own_key(V3_EXTERNAL, id, router_id)),
            single(a.0, LsaAction::Flush { key: own_key(V3_EXTERNAL, id, router_id) }),
        )
}

/// Plans the end of an OSPFv3 external LSA.
pub fn plan_external_end_v3(areas: &OrdMap<u32, AreaView>, router_id: u32, id: u32) -> (plans: Vec<
    AreaPlan,
>)
    ensures
        plans@ == gather(sorted(areas@), end_external_v3(router_id, id)),
{
    let mut plans: Vec<AreaPlan> = Vec::new();
    let n: usize = areas.len();
    let mut i: usize = 0;
    let ghost f = end_external_v3(router_id, id);
    let own = make_own_key(V3_EXTERNAL, id, router_id);
    proof {
        gather_whole(areas.entries(), f);
    }
    while i < n
        invariant
            i <= n == areas.entries().len(),
            f == end_external_v3(router_id, id),
            own == own_key(V3_EXTERNAL, id, router_id),
            plans@ == gather(areas.entries().take(i as int), f),
        decreases n - i,
    {
        proof {
            gather_step(areas.entries(), i as int, f);
        }
        let area = areas.key_at(i);
        if areas.value_at(i).lsdb.contains_key(&own) {
            plans.push(single_plan(area, LsaAction::Flush { key: own }));
        }
        i = i + 1;
    }
    plans
}

/// The LSAs of others that a changed area type refuses; they are dropped.
pub open spec fn dropped(kind: OspfAreaType, router_id: u32) -> spec_fn((LsaKey, Lsa)) -> Seq<
    LsaKey,
> {
    |e: (LsaKey, Lsa)|
        one_if(!area_accepts(kind, e.1) && e.0.advertising_router != router_id, e.0)
}

/// The LSAs of this router that a changed area type refuses; they are
/// flushed.
pub open spec fn retired(kind: OspfAreaType, router_id: u32) -> spec_fn((LsaKey, Lsa)) -> Seq<
    LsaAction,
> {
    |e: (LsaKey, Lsa)|
        one_if(
            !area_accepts(kind, e.1) && e.0.advertising_router == router_id,
            LsaAction::Flush { key: e.0 },
        )
}

/// Splits what a changed area type refuses into LSAs to drop and LSAs to
/// flush.
pub fn plan_conversion(lsdb: &OrdMap<LsaKey, Lsa>, kind: &OspfAreaType, router_id: u32) -> (r: (
    Vec<LsaKey>,
    Vec<LsaAction>,
))
    ensures
        r.0@ == gather(sorted(lsdb@), dropped(*kind, router_id)),
        r.1@ == gather(sorted(lsdb@), retired(*kind, router_id)),
{
    let mut drops: Vec<LsaKey> = Vec::new();
    let mut flushes: Vec<LsaAction> = Vec::new();
    let n: usize = lsdb.len();
    let mut i: usize = 0;
    let ghost f = dropped(*kind, router_id);
    let ghost g = retired(*kind, router_id);
    proof {
        gather_whole(lsdb.entries(), f);
        gather_whole(lsdb.entries(), g);
    }
    while i < n
        invariant
            i <= n == lsdb.entries().len(),
            f == dropped(*kind, router_id),
            g == retired(*kind, router_id),
            drops@ == gather(lsdb.entries().take(i as int), f),
            flushes@ == gather(lsdb.entries().take(i as int), g),
        decreases n - i,
    {
        proof {
            gather_step(lsdb.entries(), i as int, f);
            gather_step(lsdb.entries(), i as int, g);
        }
        let key = lsdb.key_at(i);
        if !ospf_area_accepts(kind, lsdb.value_at(i)) {
            if key.advertising_router == router_id {
                flushes.push(LsaAction::Flush { key });
            } else {
                drops.push(key);
            }
        }
        i = i + 1;
    }
    (drops, flushes)
}

/// Nothing external ever goes into a stub area: whatever is redistributed,
/// the plan for a stub area originates nothing.
pub proof fn stub_areas_get_no_externals(
    router_id: u32,
    network: u32,
    dest: ExternalDestination,
    type5_too: bool,
    area: u32,
    view: AreaView,
)
    requires
        view.kind is Stub,
    ensures
        forall|i: int|
            0 <= i < external_plan(router_id, network, dest, type5_too)((area, view)).len()
                ==> #[trigger] external_plan(router_id, network, dest, type5_too)((area, view))[i]
                == single(
                area,
                LsaAction::Flush { key: own_key(V2_EXTERNAL, network, router_id) },
            ),
{
}

/// A network this router redistributes itself is never translated.
pub proof fn own_networks_are_not_translated(
    abr: bool,
    areas: Map<u32, AreaView>,
    externals: Map<u32, ExternalDestination>,
    k: TranslationKey,
)
    requires
        externals.contains_key(k.1.0),
    ensures
        !desired_map(abr, areas, externals).contains_key(k),
{
}

/// A router that borders no areas translates nothing.
pub proof fn only_border_routers_translate(
    areas: Map<u32, AreaView>,
    externals: Map<u32, ExternalDestination>,
    k: TranslationKey,
)
    ensures
        !desired_map(false, areas, externals).contains_key(k),
{
}

/// A translation says what its type-7 source says: the network, metric and
/// metric type, forwarding address and tag are the source's. Translated is
/// every type-7 LSA that asks for it and names a network and a forwarding
/// address, unless this router redistributes the network itself.
pub proof fn translations_say_what_their_source_says(
    lsa: Lsa,
    key: LsaKey,
    externals: Map<u32, ExternalDestination>,
)
    ensures
        match (lsa.content, translated(lsa, key, externals)) {
            (
                LsaContent::External {
                    mask,
                    prefix_len,
                    type2,
                    metric,
                    forwarding_addr,
                    route_tag,
                },
                Some(d),
            ) => {
                &&& d.prefix.addr == IpAddr::V4(lsa.header.link_state_id & mask)
                &&& d.prefix.prefix_len == prefix_len
                &&& d.metric == metric
                &&& type2 <==> d.metric_type is Type2
                &&& d.forwarding_addr == forwarding_addr
                &&& d.route_tag == route_tag
                &&& mask == mask_v4(prefix_len) ==> body_matches(lsa, d)
                &&& key.ls_type == 7
                &&& lsa.header.options & 8 != 0
                &&& mask != 0
                &&& forwarding_addr != 0
                &&& !externals.contains_key(key.link_state_id)
            },
            (_, Some(_)) => false,
            (LsaContent::External { mask, forwarding_addr, .. }, None) => {
                ||| key.ls_type != 7
                ||| lsa.header.options & 8 == 0
                ||| mask == 0
                ||| forwarding_addr == 0
                ||| externals.contains_key(key.link_state_id)
            },
            (_, None) => true,
        },
{
    let o = lsa.header.options;
    assert(((o / 8) % 2 == 1) <==> (o & 8 != 0)) by (bit_vector);
}

/// A border router that is the elected translator of a not-so-stubby area
/// translates every type-7 LSA there that calls for it, and nothing else.
pub proof fn elected_translators_translate(
    abr: bool,
    areas: Map<u32, AreaView>,
    externals: Map<u32, ExternalDestination>,
    area: u32,
    id: u32,
    originator: u32,
)
    ensures
        ({
            let key = LsaKey { ls_type: 7, link_state_id: id, advertising_router: originator };
            let desired = desired_map(abr, areas, externals);
            let k = (area, (id, originator));
            let elected = abr && areas.contains_key(area) && areas[area].kind is Nssa
                && areas[area].protocol is Ospfv2 && areas[area].facts.translator
                && areas[area].lsdb@.contains_key(key);
            &&& desired.contains_key(k) ==> elected && translated(
                areas[area].lsdb@[key],
                key,
                externals,
            ) == Some(desired[k])
            &&& elected && translated(areas[area].lsdb@[key], key, externals) is Some
                ==> desired.contains_key(k)
        }),
{
}

/// A body matches a destination exactly when it is an external that agrees
/// with it in mask, metric, metric type, forwarding address and tag.
pub proof fn matching_bodies_agree(lsa: Lsa, dest: ExternalDestination)
    ensures
        match lsa.content {
            LsaContent::External { mask, type2, metric, forwarding_addr, route_tag, .. } => {
                let agree = mask == mask_v4(dest.prefix.prefix_len) && metric == dest.metric
                    && forwarding_addr == dest.forwarding_addr && route_tag == dest.route_tag;
                &&& body_matches(lsa, dest) ==> agree
                &&& body_matches(lsa, dest) && type2 ==> dest.metric_type == ExternalMetricType::Type2
                &&& body_matches(lsa, dest) && !type2 ==> dest.metric_type
                    == ExternalMetricType::Type1
                &&& agree && (if type2 {
                    dest.metric_type == ExternalMetricType::Type2
                } else {
                    dest.metric_type == ExternalMetricType::Type1
                }) ==> body_matches(lsa, dest)
            },
            _ => !body_matches(lsa, dest),
        },
{
}

/// Once its plan is carried out, a normal OSPFv2 area holds this router's
/// type-5 LSA for a redistributed network, saying what the destination calls
/// for: it does already, or the LSA is originated, continuing the sequence of
/// the instance it replaces. The same holds for a translation.
pub proof fn normal_areas_get_type_5(
    router_id: u32,
    network: u32,
    dest: ExternalDestination,
    type5_too: bool,
    area: u32,
    view: AreaView,
)
    requires
        view.kind is Normal,
        view.protocol is Ospfv2,
    ensures
        ({
            let key = LsaKey {
                ls_type: 5,
                link_state_id: network,
                advertising_router: router_id,
            };
            let plan = external_plan(router_id, network, dest, type5_too)((area, view));
            let current = view.lsdb@.contains_key(key) && body_matches(view.lsdb@[key], dest);
            &&& plan == put_external(router_id, network, dest)((area, view))
            &&& current ==> plan.len() == 0
            &&& !current ==> {
                &&& plan.len() == 1
                &&& plan[0].area == area
                &&& plan[0].actions.seq() == seq![
                    LsaAction::External {
                        dest,
                        prev_seq: if view.lsdb@.contains_key(key) {
                            Some(view.lsdb@[key].header.ls_sequence_number)
                        } else {
                            None
                        },
                    },
                ]
            }
        }),
{
    let key = LsaKey { ls_type: 5, link_state_id: network, advertising_router: router_id };
    let plan = external_plan(router_id, network, dest, type5_too)((area, view));
    let current = view.lsdb@.contains_key(key) && body_matches(view.lsdb@[key], dest);
    if !current {
        lemma_single(plan[0].actions);
        assert(plan[0].actions.seq() =~= seq![
            LsaAction::External { dest, prev_seq: seq_of(lookup(view.lsdb@, key)) },
        ]);
    }
}

proof fn lemma_single(l: crate::list::List<LsaAction>)
    ensures
        match l {
            crate::list::List::Cons(x, rest) => *rest == crate::list::List::<LsaAction>::Nil
                ==> l.seq() == seq![x],
            _ => true,
        },
{
    reveal_with_fuel(crate::list::List::seq, 2);
    match l {
        crate::list::List::Cons(x, rest) => {
            if *rest == crate::list::List::<LsaAction>::Nil {
                assert(l.seq() =~= seq![x]);
            }
        },
        _ => {},
    }
}

/// Once its plan is carried out, a not-so-stubby OSPFv2 area holds this
/// router's type-7 LSA for a redistributed network. The LSA asks to be
/// translated only where the destination does and no type-5 LSA of this
/// router stands for the network already; an LSA that differs in body or in
/// that bit is replaced.
pub proof fn not_so_stubby_areas_get_type_7(
    router_id: u32,
    network: u32,
    dest: ExternalDestination,
    type5_too: bool,
    area: u32,
    view: AreaView,
)
    requires
        view.kind is Nssa,
        view.protocol is Ospfv2,
    ensures
        ({
            let key = LsaKey {
                ls_type: 7,
                link_state_id: network,
                advertising_router: router_id,
            };
            let plan = external_plan(router_id, network, dest, type5_too)((area, view));
            let asks = dest.p_bit && !type5_too;
            let current = view.lsdb@.contains_key(key) && body_matches(view.lsdb@[key], dest) && (
            view.lsdb@[key].header.options & 8 != 0) == (asks && dest.forwarding_addr != 0);
            &&& current ==> plan.len() == 0
            &&& !current ==> {
                &&& plan.len() == 1
                &&& plan[0].area == area
                &&& plan[0].actions.seq().len() == 1
                &&& match plan[0].actions.seq()[0] {
                    LsaAction::NssaExternal { dest: d, prev_seq } => {
                        &&& d.prefix == dest.prefix
                        &&& d.metric == dest.metric
                        &&& d.metric_type == dest.metric_type
                        &&& d.forwarding_addr == dest.forwarding_addr
                        &&& d.route_tag == dest.route_tag
                        &&& d.p_bit == asks
                        &&& prev_seq is Some == view.lsdb@.contains_key(key)
                        &&& prev_seq is Some ==> prev_seq->0
                            == view.lsdb@[key].header.ls_sequence_number
                    },
                    _ => false,
                }
            }
        }),
{
    let key = LsaKey { ls_type: 7, link_state_id: network, advertising_router: router_id };
    let plan = external_plan(router_id, network, dest, type5_too)((area, view));
    if view.lsdb@.contains_key(key) {
        let o = view.lsdb@[key].header.options;
        assert(((o / 8) % 2 == 1) <==> (o & 8 != 0)) by (bit_vector);
    }
    if plan.len() > 0 {
        lemma_single(plan[0].actions);
    }
}

/// The end of a redistributed network ends every LSA of this router for it:
/// the type-5 and the type-7 LSA leave each area that holds them, and no
/// other LSA is touched.
pub proof fn ended_networks_leave_every_area(
    router_id: u32,
    network: u32,
    area: u32,
    view: AreaView,
    key: LsaKey,
)
    ensures
        end_external(router_id, network)((area, view)).contains(
            single(area, LsaAction::Flush { key }),
        ) <==> {
            &&& view.lsdb@.contains_key(key)
            &&& key.ls_type == 5 || key.ls_type == 7
            &&& key.link_state_id == network
            &&& key.advertising_router == router_id
        },
        forall|i: int|
            0 <= i < end_external(router_id, network)((area, view)).len() ==> {
                let p = #[trigger] end_external(router_id, network)((area, view))[i];
                &&& p.area == area
                &&& p.actions.seq().len() == 1
                &&& p.actions.seq()[0] is Flush
            },
{
    let s = end_external(router_id, network)((area, view));
    let five = own_key(V2_EXTERNAL, network, router_id);
    let seven = own_key(V2_NSSA, network, router_id);
    let a = single(area, LsaAction::Flush { key: five });
    let b = single(area, LsaAction::Flush { key: seven });
    lemma_single(a.actions);
    lemma_single(b.actions);
    let mine = single(area, LsaAction::Flush { key });
    if view.lsdb@.contains_key(five) {
        assert(s[0] == a);
        if view.lsdb@.contains_key(seven) {
            assert(s[1] == b);
        }
    } else if view.lsdb@.contains_key(seven) {
        assert(s[0] == b);
    }
    if key == five && view.lsdb@.contains_key(five) {
        assert(s.contains(a));
    }
    if key == seven && view.lsdb@.contains_key(seven) {
        assert(s.contains(b));
    }
    if s.contains(mine) {
        let i = choose|i: int| 0 <= i < s.len() && s[i] == mine;
        lemma_single(mine.actions);
        assert(mine == a || mine == b);
    }
}

/// The end of a translation ends this router's type-5 LSA under its ID in
/// every area that carries type-5 LSAs, and nowhere else.
pub proof fn ended_translations_leave_normal_areas(
    router_id: u32,
    id: u32,
    area: u32,
    view: AreaView,
)
    ensures
        ({
            let key = LsaKey { ls_type: 5, link_state_id: id, advertising_router: router_id };
            let plan = drop_external(router_id, id)((area, view));
            &&& view.kind is Normal && view.protocol is Ospfv2 && view.lsdb@.contains_key(key)
                ==> plan == seq![single(area, LsaAction::Flush { key })]
            &&& !(view.kind is Normal && view.protocol is Ospfv2 && view.lsdb@.contains_key(key))
                ==> plan.len() == 0
        }),
{
}

/// A translation reaches the areas that carry type-5 LSAs and no others.
pub proof fn translations_spare_stubby_areas(
    router_id: u32,
    id: u32,
    dest: ExternalDestination,
    area: u32,
    view: AreaView,
)
    requires
        !(view.kind is Normal) || view.protocol != Protocol::Ospfv2,
    ensures
        put_external(router_id, id, dest)((area, view)).len() == 0,
{
}

/// A border router owes its not-so-stubby areas that take summaries a type-7
/// default at the configured metric; unless it holds at that metric already,
/// it is originated. In every other OSPFv2 area a left default is flushed.
/// Where the default is redistributed, nothing is planned.
pub proof fn not_so_stubby_areas_get_a_default(
    router_id: u32,
    abr: bool,
    redistributed: bool,
    area: u32,
    view: AreaView,
)
    ensures
        ({
            let key = LsaKey { ls_type: 7, link_state_id: 0, advertising_router: router_id };
            let plan = nssa_default_plan(router_id, abr, redistributed)((area, view));
            let held = view.lsdb@.contains_key(key);
            match view.kind {
                OspfAreaType::Nssa { no_summary: false, default_metric } if abr && !redistributed
                    && view.protocol is Ospfv2 => {
                    let current = held && match view.lsdb@[key].content {
                        LsaContent::External { metric, .. } => metric == default_metric,
                        _ => false,
                    };
                    &&& current ==> plan.len() == 0
                    &&& !current ==> plan == seq![
                        single(
                            area,
                            LsaAction::NssaDefault {
                                metric: default_metric,
                                prev_seq: if held {
                                    Some(view.lsdb@[key].header.ls_sequence_number)
                                } else {
                                    None
                                },
                            },
                        ),
                    ]
                },
                _ => if redistributed || view.protocol != Protocol::Ospfv2 || !held {
                    plan.len() == 0
                } else {
                    plan == seq![single(area, LsaAction::Flush { key })]
                },
            }
        }),
{
}

/// Once its plan is carried out, an OSPFv3 area holds this router's external
/// LSA under the ID, saying what the destination calls for; areas of the other
/// version are left alone.
pub proof fn v3_areas_get_externals(
    router_id: u32,
    id: u32,
    dest: V3ExternalDestination,
    area: u32,
    view: AreaView,
)
    ensures
        ({
            let key = LsaKey {
                ls_type: 0x4005,
                link_state_id: id,
                advertising_router: router_id,
            };
            let plan = external_plan_v3(router_id, id, dest)((area, view));
            let held = view.lsdb@.contains_key(key);
            let current = held && view.lsdb@[key].content == (LsaContent::ExternalV3 {
                prefix_len: dest.prefix.prefix_len,
                prefix: Some(dest.prefix),
                type2: dest.type2,
                metric: dest.metric,
                forwarding_v6: dest.forwarding_addr,
                tag: dest.route_tag,
            });
            &&& (current || view.protocol != Protocol::Ospfv3) ==> plan.len() == 0
            &&& !current && view.protocol == Protocol::Ospfv3 ==> plan == seq![
                single(
                    area,
                    LsaAction::ExternalV3 {
                        ls_id: id,
                        dest_v3: dest,
                        prev_seq: if held {
                            Some(view.lsdb@[key].header.ls_sequence_number)
                        } else {
                            None
                        },
                    },
                ),
            ]
            &&& end_external_v3(router_id, id)((area, view)) == (if held {
                seq![single(area, LsaAction::Flush { key })]
            } else {
                Seq::empty()
            })
        }),
{
}

/// An external prefix keeps the ID it has. A prefix without one takes over
/// the ID under which an OSPFv3 area already describes it, provided no other
/// prefix has it, else the lowest ID from 1 on that no area and no prefix
/// uses.
pub proof fn external_ids_are_kept_or_free(
    areas: Seq<(u32, AreaView)>,
    router_id: u32,
    ids: Map<Prefix, u32>,
    p: Prefix,
)
    requires
        external_id(areas, router_id, ids, p) is Some,
    ensures
        ({
            let id = external_id(areas, router_id, ids, p)->Some_0;
            let key = LsaKey {
                ls_type: 0x4005,
                link_state_id: id,
                advertising_router: router_id,
            };
            &&& ids.contains_key(p) ==> id == ids[p]
            &&& !ids.contains_key(p) ==> forall|q: Prefix|
                #[trigger] ids.contains_key(q) ==> ids[q] != id
            &&& !ids.contains_key(p) ==> {
                ||| exists|i: int|
                    0 <= i < areas.len() && (#[trigger] areas[i]).1.protocol is Ospfv3
                        && areas[i].1.lsdb@.contains_key(key) && (
                    match areas[i].1.lsdb@[key].content {
                        LsaContent::ExternalV3 { prefix, .. } => prefix == Some(p),
                        _ => false,
                    })
                ||| {
                    &&& id >= 1
                    &&& forall|i: int|
                        0 <= i < areas.len() && (#[trigger] areas[i]).1.protocol is Ospfv3
                            ==> !areas[i].1.lsdb@.contains_key(key)
                    &&& forall|j: u32|
                        1 <= j < id ==> id_remembered(ids, j) || #[trigger] id_taken(
                            areas,
                            router_id,
                            j,
                        )
                }
            }
        }),
{
    let id = external_id(areas, router_id, ids, p)->Some_0;
    if !ids.contains_key(p) {
        if reused_id(areas, router_id, ids, p) is Some {
            let i = lemma_reused_at(areas, router_id, ids, p);
            assert(areas[i].1.protocol is Ospfv3);
        } else {
            let f = id_free(areas, router_id, ids);
            lemma_lowest_holds(f);
            assert(f(id));
            assert forall|j: u32| 1 <= j < id implies id_remembered(ids, j) || #[trigger] id_taken(
                areas,
                router_id,
                j,
            ) by {
                assert(!f(j));
            }
        }
    }
}

proof fn lemma_reused_at(
    areas: Seq<(u32, AreaView)>,
    router_id: u32,
    ids: Map<Prefix, u32>,
    p: Prefix,
) -> (i: int)
    requires
        reused_id(areas, router_id, ids, p) is Some,
    ensures
        ({
            let id = reused_id(areas, router_id, ids, p)->Some_0;
            let key = own_key(V3_EXTERNAL, id, router_id);
            &&& 0 <= i < areas.len()
            &&& areas[i].1.protocol is Ospfv3
            &&& areas[i].1.lsdb@.contains_key(key)
            &&& described_external(areas[i].1.lsdb@[key]) == Some(p)
            &&& !id_remembered(ids, id)
        }),
    decreases areas.len(),
{
    let view = areas[0].1;
    let f = describes_external(view.lsdb@, router_id, ids, p);
    if view.protocol is Ospfv3 && lowest(f) is Some {
        lemma_lowest_holds(f);
        0
    } else {
        let i = lemma_reused_at(areas.drop_first(), router_id, ids, p);
        assert(areas.drop_first()[i] == areas[i + 1]);
        i + 1
    }
}

/// A changed area type takes every LSA it refuses out of the database: those
/// of others are dropped, this router's own are flushed, and what the area
/// accepts stays.
pub proof fn conversions_clear_what_is_refused(
    lsdb: Map<LsaKey, Lsa>,
    kind: OspfAreaType,
    router_id: u32,
    key: LsaKey,
)
    requires
        is_table(lsdb),
    ensures
        gather(sorted(lsdb), dropped(kind, router_id)).contains(key) <==> {
            &&& lsdb.contains_key(key)
            &&& !area_accepts(kind, lsdb[key])
            &&& key.advertising_router != router_id
        },
        gather(sorted(lsdb), retired(kind, router_id)).contains(LsaAction::Flush { key }) <==> {
            &&& lsdb.contains_key(key)
            &&& !area_accepts(kind, lsdb[key])
            &&& key.advertising_router == router_id
        },
{
    let f = dropped(kind, router_id);
    let g = retired(kind, router_id);
    let end = LsaAction::Flush { key };
    if gather(sorted(lsdb), f).contains(key) {
        let i = gather_source(sorted(lsdb), f, key);
        lemma_entry(sorted(lsdb), i);
    }
    if gather(sorted(lsdb), g).contains(end) {
        let i = gather_source(sorted(lsdb), g, end);
        lemma_entry(sorted(lsdb), i);
    }
    if lsdb.contains_key(key) && !area_accepts(kind, lsdb[key]) {
        let i = lemma_key_position(sorted(lsdb), key);
        if key.advertising_router == router_id {
            assert(g(sorted(lsdb)[i])[0] == end);
            assert(g(sorted(lsdb)[i]).contains(end));
            gather_includes(sorted(lsdb), g, i, end);
        } else {
            assert(f(sorted(lsdb)[i])[0] == key);
            assert(f(sorted(lsdb)[i]).contains(key));
            gather_includes(sorted(lsdb), f, i, key);
        }
    }
}

/// A router borders areas when it has an ID, the backbone and another area,
/// and all its areas run the version.
pub proof fn border_routers_have_the_backbone(
    router_id: Option<u32>,
    areas: Map<u32, AreaView>,
    protocol: Protocol,
)
    requires
        is_table(areas),
    ensures
        border_router(router_id, areas, protocol) <==> {
            &&& router_id is Some
            &&& areas.contains_key(0)
            &&& exists|id: u32| id != 0 && #[trigger] areas.contains_key(id)
            &&& forall|id: u32| #[trigger] areas.contains_key(id) ==> areas[id].protocol == protocol
        },
{
    let s = sorted(areas);
    if s.len() >= 2 {
        lemma_entry(s, 0);
        lemma_entry(s, 1);
        assert(areas.contains_key(s[0].0));
        assert(areas.contains_key(s[1].0));
        assert(s[0].0 != s[1].0);
    }
    if areas.contains_key(0) && exists|id: u32| id != 0 && #[trigger] areas.contains_key(id) {
        let id = choose|id: u32| id != 0 && #[trigger] areas.contains_key(id);
        let i = lemma_key_position(s, 0);
        let j = lemma_key_position(s, id);
        assert(i != j);
    }
    if all_run(s, protocol) {
        assert forall|id: u32| #[trigger] areas.contains_key(id) implies areas[id].protocol
            == protocol by {
            let i = lemma_key_position(s, id);
            assert(s[i].1.protocol == protocol);
        }
    }
    if forall|id: u32| #[trigger] areas.contains_key(id) ==> areas[id].protocol == protocol {
        assert forall|i: int| 0 <= i < s.len() implies (#[trigger] s[i]).1.protocol == protocol by {
            lemma_entry(s, i);
        }
    }
}

/// A router that borders areas sources type-5 LSAs where it has a normal
/// OSPFv2 area.
pub proof fn type_5_needs_a_normal_area(abr: bool, areas: Seq<(u32, AreaView)>)
    ensures
        sources_type5(abr, areas) <==> abr && exists|i: int|
            0 <= i < areas.len() && (#[trigger] areas[i]).1.kind is Normal
                && areas[i].1.protocol is Ospfv2,
{
    if sources_type5(abr, areas) {
        let i = choose|i: int| 0 <= i < areas.len() && regular((#[trigger] areas[i]).1);
        assert(areas[i].1.kind is Normal);
    }
    if abr && exists|i: int|
        0 <= i < areas.len() && (#[trigger] areas[i]).1.kind is Normal
            && areas[i].1.protocol is Ospfv2 {
        let i = choose|i: int|
            0 <= i < areas.len() && (#[trigger] areas[i]).1.kind is Normal
                && areas[i].1.protocol is Ospfv2;
        assert(regular(areas[i].1));
    }
}

} // verus!
