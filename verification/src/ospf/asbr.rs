//! Summaries of AS boundary routers.

use crate::list::List;
use crate::ordmap::{is_table, lookup, map_of, ordered, sorted, OrdMap};
use crate::ordmap::{lemma_entry, lemma_key_position, lemma_take_step};
use crate::ospf::facts::AreaView;
use crate::ospf::lsa::{
    Lsa, LsaContent, LsaKey, V2_EXTERNAL, V2_SUMMARY_ASBR, V3_EXTERNAL, V3_INTER_ROUTER,
};
use crate::ospf::plan::{grouped, single, single_plan, AreaPlan, LsaAction};
use crate::ospf::summary::seq_of;
use crate::route::Protocol;
use crate::seqs::{gather, gather_includes, gather_source, gather_step, gather_whole, one_if};
use vstd::prelude::*;

verus! {

/// The highest metric an LSA can carry for a reachable boundary router.
pub const MAX_METRIC: u64 = 0x00ff_fffe;

/// A distance as an LSA metric.
pub open spec fn capped(d: u64) -> u32 {
    if d <= MAX_METRIC {
        d as u32
    } else {
        MAX_METRIC as u32
    }
}

/// Whether `router` originates external LSAs in a database.
pub open spec fn sources_externals(lsdb: Map<LsaKey, Lsa>, ls_type: u16, router: u32) -> bool {
    exists|k: LsaKey|
        #[trigger] lsdb.contains_key(k) && k.ls_type == ls_type && k.advertising_router == router
}

/// The boundary routers other than this one: those that originate external
/// LSAs in a database.
pub open spec fn boundary_routers(lsdb: Map<LsaKey, Lsa>, ls_type: u16, router_id: u32) -> Map<
    u32,
    (),
> {
    Map::new(
        |r: u32| r != router_id && sources_externals(lsdb, ls_type, r),
        |r: u32| (),
    )
}

/// The database the boundary routers are read from: external LSAs reach every
/// area, so the lowest area of the version serves.
pub open spec fn external_database(areas: Seq<(u32, AreaView)>, v3: bool) -> Map<LsaKey, Lsa>
    decreases areas.len(),
{
    if areas.len() == 0 {
        Map::empty()
    } else if v3 && !(areas[0].1.protocol is Ospfv3) {
        external_database(areas.drop_first(), v3)
    } else {
        areas[0].1.lsdb@
    }
}

/// A distance and the options that came with it.
#[derive(Clone, Copy, Debug, PartialEq, Eq, Structural)]
pub struct Reach {
    pub distance: u64,
    pub options: u32,
}

/// How an area reaches a router.
pub open spec fn reach_in(view: AreaView, asbr: u32) -> Option<Reach> {
    if view.facts.routers@.contains_key(asbr) {
        Some(
            Reach {
                distance: view.facts.routers@[asbr],
                options: match lookup(view.facts.router_options@, asbr) {
                    Some(o) => o,
                    None => 0,
                },
            },
        )
    } else {
        None
    }
}

/// The shortest way to a router through the areas other than the target; the
/// first of equals counts. In the OSPFv3 plane only OSPFv3 areas count.
pub open spec fn best_reach(
    areas: Seq<(u32, AreaView)>,
    v3: bool,
    target: u32,
    asbr: u32,
) -> Option<Reach>
    decreases areas.len(),
{
    if areas.len() == 0 {
        None
    } else {
        let rest = best_reach(areas.drop_last(), v3, target, asbr);
        let (id, view) = areas.last();
        if id == target || (v3 && !(view.protocol is Ospfv3)) {
            rest
        } else {
            match (rest, reach_in(view, asbr)) {
                (Some(a), Some(b)) => if b.distance < a.distance {
                    Some(b)
                } else {
                    Some(a)
                },
                (None, r) => r,
                (r, None) => r,
            }
        }
    }
}

/// How the target should learn of a boundary router: not at all when it
/// reaches it itself or nobody else does.
pub open spec fn summarised_reach(
    areas: Map<u32, AreaView>,
    v3: bool,
    target: u32,
    asbr: u32,
) -> Option<Reach> {
    if areas[target].facts.routers@.contains_key(asbr) {
        None
    } else {
        best_reach(sorted(areas), v3, target, asbr)
    }
}

/// The type of the LSA that locates a boundary router.
pub open spec fn locator_type(v3: bool) -> u16 {
    if v3 {
        V3_INTER_ROUTER
    } else {
        V2_SUMMARY_ASBR
    }
}

/// Whether an instance already says how a boundary router is reached.
pub open spec fn locates(prev: Option<Lsa>, v3: bool, r: Reach) -> bool {
    match prev {
        None => false,
        Some(lsa) => match lsa.content {
            LsaContent::Summary { tos0_metric, .. } => !v3 && tos0_metric == Some(
                capped(r.distance),
            ),
            LsaContent::InterRouter { metric, options } => v3 && metric == capped(r.distance)
                && options == r.options,
            _ => false,
        },
    }
}

/// The origination that locates a boundary router in the target area.
pub open spec fn locate_action(areas: Map<u32, AreaView>, v3: bool, router_id: u32, target: u32) -> spec_fn((u32, ())) -> Seq<LsaAction> {
    |e: (u32, ())|
        match summarised_reach(areas, v3, target, e.0) {
            Some(r) => {
                let prev = lookup(
                    areas[target].lsdb@,
                    LsaKey {
                        ls_type: locator_type(v3),
                        link_state_id: e.0,
                        advertising_router: router_id,
                    },
                );
                one_if(
                    !locates(prev, v3, r),
                    if v3 {
                        LsaAction::InterAreaRouter {
                            asbr: e.0,
                            options: r.options,
                            metric: capped(r.distance),
                            prev_seq: seq_of(prev),
                        }
                    } else {
                        LsaAction::SummaryAsbr {
                            asbr: e.0,
                            metric: capped(r.distance),
                            prev_seq: seq_of(prev),
                        }
                    },
                )
            },
            None => Seq::empty(),
        }
}

/// The flush of a self-originated locator whose router needs none.
pub open spec fn stale_locator(
    areas: Map<u32, AreaView>,
    v3: bool,
    router_id: u32,
    target: u32,
    routers: Map<u32, ()>,
) -> spec_fn((LsaKey, Lsa)) -> Seq<LsaAction> {
    |e: (LsaKey, Lsa)|
        one_if(
            e.0.ls_type == locator_type(v3) && e.0.advertising_router == router_id && !(
            routers.contains_key(e.0.link_state_id) && summarised_reach(
                areas,
                v3,
                target,
                e.0.link_state_id,
            ) is Some),
            LsaAction::Flush { key: e.0 },
        )
}

/// The flush of every self-originated LSA of a type, each on its own.
pub open spec fn flush_type(area: u32, ls_type: u16, router_id: u32) -> spec_fn(
    (LsaKey, Lsa),
) -> Seq<AreaPlan> {
    |e: (LsaKey, Lsa)|
        one_if(
            e.0.ls_type == ls_type && e.0.advertising_router == router_id,
            single(area, LsaAction::Flush { key: e.0 }),
        )
}

/// The locator changes of one area. Areas without externals lose every
/// locator.
pub open spec fn locator_plan_of(
    areas: Map<u32, AreaView>,
    v3: bool,
    router_id: u32,
    routers: Map<u32, ()>,
) -> spec_fn((u32, AreaView)) -> Seq<AreaPlan> {
    |a: (u32, AreaView)|
        if a.1.kind.stubby() || (v3 && !(a.1.protocol is Ospfv3)) {
            gather(sorted(a.1.lsdb@), flush_type(a.0, locator_type(v3), router_id))
        } else {
            grouped(
                a.0,
                gather(sorted(routers), locate_action(areas, v3, router_id, a.0)) + gather(
                    sorted(a.1.lsdb@),
                    stale_locator(areas, v3, router_id, a.0, routers),
                ),
            )
        }
}

/// The locator changes of every area.
pub open spec fn locator_plans(areas: Map<u32, AreaView>, v3: bool, router_id: u32) -> Seq<
    AreaPlan,
> {
    gather(
        sorted(areas),
        locator_plan_of(
            areas,
            v3,
            router_id,
            boundary_routers(
                external_database(sorted(areas), v3),
                if v3 {
                    V3_EXTERNAL
                } else {
                    V2_EXTERNAL
                },
                router_id,
            ),
        ),
    )
}

fn find_boundary_routers(lsdb: &OrdMap<LsaKey, Lsa>, ls_type: u16, router_id: u32) -> (r: OrdMap<
    u32,
    (),
>)
    ensures
        r@ == boundary_routers(lsdb@, ls_type, router_id),
{
    let mut out: OrdMap<u32, ()> = OrdMap::new();
    let n: usize = lsdb.len();
    let mut i: usize = 0;
    assert(lsdb.entries().take(0) == Seq::<(LsaKey, Lsa)>::empty());
    assert(out@ =~= boundary_routers(map_of(lsdb.entries().take(0)), ls_type, router_id));
    while i < n
        invariant
            i <= n == lsdb.entries().len(),
            ordered(lsdb.entries()),
            out@ == boundary_routers(map_of(lsdb.entries().take(i as int)), ls_type, router_id),
        decreases n - i,
    {
        let ghost before = out@;
        let key = lsdb.key_at(i);
        if key.ls_type == ls_type && key.advertising_router != router_id {
            out.insert(key.advertising_router, ());
        }
        proof {
            let s = lsdb.entries();
            lemma_take_step(s, i as int);
            let a = map_of(s.take(i as int));
            let b = map_of(s.take(i + 1));
            assert(b.contains_key(key));
            assert forall|r: u32| out@.contains_key(r) == boundary_routers(
                b,
                ls_type,
                router_id,
            ).contains_key(r) by {
                assert(before.contains_key(r) == (r != router_id && sources_externals(
                    a,
                    ls_type,
                    r,
                )));
                if sources_externals(a, ls_type, r) {
                    let k = choose|k: LsaKey|
                        #[trigger] a.contains_key(k) && k.ls_type == ls_type
                            && k.advertising_router == r;
                    assert(b.contains_key(k));
                }
                if sources_externals(b, ls_type, r) && !sources_externals(a, ls_type, r) {
                    let k = choose|k: LsaKey|
                        #[trigger] b.contains_key(k) && k.ls_type == ls_type
                            && k.advertising_router == r;
                    assert(k == key);
                }
            }
            assert(out@ =~= boundary_routers(b, ls_type, router_id));
        }
        i = i + 1;
    }
    assert(lsdb.entries().take(n as int) == lsdb.entries());
    out
}

fn find_all_boundary_routers(areas: &OrdMap<u32, AreaView>, v3: bool, router_id: u32) -> (r: OrdMap<
    u32,
    (),
>)
    ensures
        r@ == boundary_routers(
            external_database(sorted(areas@), v3),
            if v3 {
                V3_EXTERNAL
            } else {
                V2_EXTERNAL
            },
            router_id,
        ),
{
    let n: usize = areas.len();
    let mut i: usize = 0;
    let ghost s = areas.entries();
    assert(s.skip(0) == s);
    let ls_type: u16 = if v3 {
        V3_EXTERNAL
    } else {
        V2_EXTERNAL
    };
    while i < n
        invariant
            i <= n == s.len(),
            s == areas.entries(),
            external_database(s.skip(i as int), v3) == external_database(s, v3),
            s == sorted(areas@),
            ls_type == (if v3 {
                V3_EXTERNAL
            } else {
                V2_EXTERNAL
            }),
        decreases n - i,
    {
        assert(s.skip(i as int).drop_first() == s.skip(i + 1));
        let view = areas.value_at(i);
        if !v3 || view.protocol == Protocol::Ospfv3 {
            return find_boundary_routers(&view.lsdb, ls_type, router_id);
        }
        i = i + 1;
    }
    let empty: OrdMap<LsaKey, Lsa> = OrdMap::new();
    find_boundary_routers(&empty, ls_type, router_id)
}

fn find_reach(view: &AreaView, asbr: u32) -> (r: Option<Reach>)
    ensures
        r == reach_in(*view, asbr),
{
    match view.facts.routers.get(&asbr) {
        Some(d) => {
            let options: u32 = match view.facts.router_options.get(&asbr) {
                Some(o) => *o,
                None => 0,
            };
            Some(Reach { distance: *d, options })
        },
        None => None,
    }
}

fn find_summarised_reach(
    areas: &OrdMap<u32, AreaView>,
    v3: bool,
    target: u32,
    view: &AreaView,
    asbr: u32,
) -> (r: Option<Reach>)
    requires
        *view == areas@[target],
    ensures
        r == summarised_reach(areas@, v3, target, asbr),
{
    if view.facts.routers.contains_key(&asbr) {
        return None;
    }
    let n: usize = areas.len();
    let mut i: usize = 0;
    let mut best: Option<Reach> = None;
    let ghost s = areas.entries();
    while i < n
        invariant
            i <= n == s.len(),
            s == areas.entries(),
            best == best_reach(s.take(i as int), v3, target, asbr),
        decreases n - i,
    {
        assert(s.take(i + 1).drop_last() == s.take(i as int));
        let id = areas.key_at(i);
        let other = areas.value_at(i);
        if id != target && (!v3 || other.protocol == Protocol::Ospfv3) {
            if let Some(b) = find_reach(other, asbr) {
                best = match best {
                    Some(a) => if b.distance < a.distance {
                        Some(b)
                    } else {
                        Some(a)
                    },
                    None => Some(b),
                };
            }
        }
        i = i + 1;
    }
    assert(s.take(n as int) == s);
    best
}

fn cap_metric(d: u64) -> (m: u32)
    ensures
        m == capped(d),
{
    if d <= MAX_METRIC {
        d as u32
    } else {
        MAX_METRIC as u32
    }
}

/// Plans the flush of every self-originated LSA of a type in one area.
pub fn plan_flush_type(
    area: u32,
    lsdb: &OrdMap<LsaKey, Lsa>,
    ls_type: u16,
    router_id: u32,
) -> (plans: Vec<AreaPlan>)
    ensures
        plans@ == gather(sorted(lsdb@), flush_type(area, ls_type, router_id)),
{
    let mut plans: Vec<AreaPlan> = Vec::new();
    let m: usize = lsdb.len();
    let mut j: usize = 0;
    let ghost g = flush_type(area, ls_type, router_id);
    proof {
        gather_whole(lsdb.entries(), g);
    }
    while j < m
        invariant
            j <= m == lsdb.entries().len(),
            g == flush_type(area, ls_type, router_id),
            plans@ == gather(lsdb.entries().take(j as int), g),
        decreases m - j,
    {
        proof {
            gather_step(lsdb.entries(), j as int, g);
        }
        let key = lsdb.key_at(j);
        if key.ls_type == ls_type && key.advertising_router == router_id {
            plans.push(single_plan(area, LsaAction::Flush { key }));
        }
        j = j + 1;
    }
    plans
}

fn plan_locators(
    areas: &OrdMap<u32, AreaView>,
    v3: bool,
    router_id: u32,
    target: u32,
    view: &AreaView,
    routers: &OrdMap<u32, ()>,
) -> (actions: Vec<LsaAction>)
    requires
        *view == areas@[target],
    ensures
        actions@ == gather(sorted(routers@), locate_action(areas@, v3, router_id, target))
            + gather(
            sorted(view.lsdb@),
            stale_locator(areas@, v3, router_id, target, routers@),
        ),
{
    let ls_type: u16 = if v3 {
        V3_INTER_ROUTER
    } else {
        V2_SUMMARY_ASBR
    };
    let mut actions: Vec<LsaAction> = Vec::new();
    let n: usize = routers.len();
    let mut i: usize = 0;
    let ghost f = locate_action(areas@, v3, router_id, target);
    proof {
        gather_whole(routers.entries(), f);
    }
    while i < n
        invariant
            i <= n == routers.entries().len(),
            f == locate_action(areas@, v3, router_id, target),
            *view == areas@[target],
            ls_type == locator_type(v3),
            actions@ == gather(routers.entries().take(i as int), f),
        decreases n - i,
    {
        proof {
            gather_step(routers.entries(), i as int, f);
        }
        let asbr = routers.key_at(i);
        assert(routers.entries()[i as int] == (asbr, ()));
        if let Some(r) = find_summarised_reach(areas, v3, target, view, asbr) {
            let metric: u32 = cap_metric(r.distance);
            let key = LsaKey {
                ls_type,
                link_state_id: asbr,
                advertising_router: router_id,
            };
            let mut prev_seq: Option<u32> = None;
            let mut unchanged: bool = false;
            if let Some(lsa) = view.lsdb.get(&key) {
                prev_seq = Some(lsa.header.ls_sequence_number);
                unchanged = match lsa.content {
                    LsaContent::Summary { tos0_metric, .. } => match tos0_metric {
                        Some(m) => !v3 && m == metric,
                        None => false,
                    },
                    LsaContent::InterRouter { metric: m, options } => v3 && m == metric && options
                        == r.options,
                    _ => false,
                };
            }
            if !unchanged {
                if v3 {
                    actions.push(
                        LsaAction::InterAreaRouter { asbr, options: r.options, metric, prev_seq },
                    );
                } else {
                    actions.push(LsaAction::SummaryAsbr { asbr, metric, prev_seq });
                }
            }
        }
        i = i + 1;
    }
    let ghost first = actions@;
    let m: usize = view.lsdb.len();
    let mut j: usize = 0;
    let ghost g = stale_locator(areas@, v3, router_id, target, routers@);
    proof {
        gather_whole(view.lsdb.entries(), g);
    }
    assert(first + gather(view.lsdb.entries().take(0), g) == first);
    while j < m
        invariant
            j <= m == view.lsdb.entries().len(),
            g == stale_locator(areas@, v3, router_id, target, routers@),
            *view == areas@[target],
            ls_type == locator_type(v3),
            actions@ == first + gather(view.lsdb.entries().take(j as int), g),
        decreases m - j,
    {
        proof {
            gather_step(view.lsdb.entries(), j as int, g);
        }
        let key = view.lsdb.key_at(j);
        if key.ls_type == ls_type && key.advertising_router == router_id {
            let kept: bool = routers.contains_key(&key.link_state_id) && find_summarised_reach(
                areas,
                v3,
                target,
                view,
                key.link_state_id,
            ).is_some();
            if !kept {
                actions.push(LsaAction::Flush { key });
            }
        }
        assert(actions@ == first + (gather(view.lsdb.entries().take(j as int), g) + g(
            view.lsdb.entries()[j as int],
        )));
        j = j + 1;
    }
    actions
}

/// Plans the boundary-router summaries of every area of a border router.
pub fn summarize_asbrs(areas: &OrdMap<u32, AreaView>, v3: bool, router_id: u32) -> (plans: Vec<
    AreaPlan,
>)
    ensures
        plans@ == locator_plans(areas@, v3, router_id),
{
    let routers = find_all_boundary_routers(areas, v3, router_id);
    let ls_type: u16 = if v3 {
        V3_INTER_ROUTER
    } else {
        V2_SUMMARY_ASBR
    };
    let mut plans: Vec<AreaPlan> = Vec::new();
    let n: usize = areas.len();
    let mut i: usize = 0;
    let ghost f = locator_plan_of(areas@, v3, router_id, routers@);
    proof {
        gather_whole(areas.entries(), f);
    }
    while i < n
        invariant
            i <= n == areas.entries().len(),
            f == locator_plan_of(areas@, v3, router_id, routers@),
            ls_type == locator_type(v3),
            plans@ == gather(areas.entries().take(i as int), f),
        decreases n - i,
    {
        proof {
            gather_step(areas.entries(), i as int, f);
        }
        let target = areas.key_at(i);
        let view = areas.value_at(i);
        if view.kind.is_stubby() || (v3 && view.protocol != Protocol::Ospfv3) {
            let mut flushes = plan_flush_type(target, &view.lsdb, ls_type, router_id);
            plans.append(&mut flushes);
        } else {
            let actions = plan_locators(areas, v3, router_id, target, view, &routers);
            if actions.len() > 0 {
                plans.push(AreaPlan { area: target, actions: List::from_vec(actions) });
            }
        }
        i = i + 1;
    }
    plans
}

/// Plans the type-4 summaries of an OSPFv2 border router.
pub fn ospf_summarize_asbrs(areas: &OrdMap<u32, AreaView>, router_id: u32) -> (plans: Vec<AreaPlan>)
    ensures
        plans@ == locator_plans(areas@, false, router_id),
{
    summarize_asbrs(areas, false, router_id)
}

/// Plans the inter-area router LSAs of an OSPFv3 border router.
pub fn ospf_summarize_asbrs_v3(areas: &OrdMap<u32, AreaView>, router_id: u32) -> (plans: Vec<
    AreaPlan,
>)
    ensures
        plans@ == locator_plans(areas@, true, router_id),
{
    summarize_asbrs(areas, true, router_id)
}

/// A boundary router that the target area reaches by itself is not
/// summarised into it.
pub proof fn reachable_routers_need_no_summary(
    areas: Map<u32, AreaView>,
    v3: bool,
    router_id: u32,
    target: u32,
    asbr: u32,
)
    requires
        areas[target].facts.routers@.contains_key(asbr),
    ensures
        locate_action(areas, v3, router_id, target)((asbr, ())) == Seq::<LsaAction>::empty(),
{
}

proof fn lemma_best_reach(areas: Seq<(u32, AreaView)>, v3: bool, target: u32, asbr: u32)
    ensures
        forall|i: int|
            0 <= i < areas.len() && (#[trigger] areas[i]).0 != target && (v3
                ==> areas[i].1.protocol is Ospfv3) && areas[i].1.facts.routers@.contains_key(asbr)
                ==> best_reach(areas, v3, target, asbr) is Some && best_reach(
                areas,
                v3,
                target,
                asbr,
            )->0.distance <= areas[i].1.facts.routers@[asbr],
        best_reach(areas, v3, target, asbr) is Some ==> exists|i: int|
            0 <= i < areas.len() && (#[trigger] areas[i]).0 != target && (v3
                ==> areas[i].1.protocol is Ospfv3) && areas[i].1.facts.routers@.contains_key(asbr)
                && areas[i].1.facts.routers@[asbr] == best_reach(
                areas,
                v3,
                target,
                asbr,
            )->0.distance && best_reach(areas, v3, target, asbr)->0.options == (
            if areas[i].1.facts.router_options@.contains_key(asbr) {
                areas[i].1.facts.router_options@[asbr]
            } else {
                0
            }),
    decreases areas.len(),
{
    if areas.len() > 0 {
        let n = areas.len() - 1;
        let front = areas.drop_last();
        lemma_best_reach(front, v3, target, asbr);
        assert(areas[n] == areas.last());
        assert forall|i: int|
            0 <= i < areas.len() && (#[trigger] areas[i]).0 != target && (v3
                ==> areas[i].1.protocol is Ospfv3) && areas[i].1.facts.routers@.contains_key(
                asbr,
            ) implies best_reach(areas, v3, target, asbr) is Some && best_reach(
            areas,
            v3,
            target,
            asbr,
        )->0.distance <= areas[i].1.facts.routers@[asbr] by {
            if i < n {
                assert(front[i] == areas[i]);
            }
        }
        if best_reach(areas, v3, target, asbr) is Some {
            let r = best_reach(areas, v3, target, asbr)->0;
            if best_reach(front, v3, target, asbr) == Some(r) {
                let i = choose|i: int|
                    0 <= i < front.len() && (#[trigger] front[i]).0 != target && (v3
                        ==> front[i].1.protocol is Ospfv3)
                        && front[i].1.facts.routers@.contains_key(asbr)
                        && front[i].1.facts.routers@[asbr] == r.distance && r.options == (
                    if front[i].1.facts.router_options@.contains_key(asbr) {
                        front[i].1.facts.router_options@[asbr]
                    } else {
                        0
                    });
                assert(areas[i] == front[i]);
            } else {
                assert(areas[n].0 != target);
            }
        }
    }
}

/// A boundary router is located in an area that does not reach it itself by
/// the shortest way another area has to it, with the options it announces
/// there; and it is located whenever another area reaches it.
pub proof fn boundary_routers_are_located_by_the_shortest_way(
    areas: Map<u32, AreaView>,
    v3: bool,
    target: u32,
    asbr: u32,
    from: u32,
)
    requires
        is_table(areas),
        !areas[target].facts.routers@.contains_key(asbr),
    ensures
        areas.contains_key(from) && from != target && (v3 ==> areas[from].protocol is Ospfv3)
            && areas[from].facts.routers@.contains_key(asbr) ==> summarised_reach(
            areas,
            v3,
            target,
            asbr,
        ) is Some && summarised_reach(areas, v3, target, asbr)->0.distance
            <= areas[from].facts.routers@[asbr],
        summarised_reach(areas, v3, target, asbr) is Some ==> exists|a: u32|
            a != target && #[trigger] areas.contains_key(a) && (v3 ==> areas[a].protocol is Ospfv3)
                && areas[a].facts.routers@.contains_key(asbr) && areas[a].facts.routers@[asbr]
                == summarised_reach(areas, v3, target, asbr)->0.distance,
{
    let s = sorted(areas);
    lemma_best_reach(s, v3, target, asbr);
    if areas.contains_key(from) {
        let i = lemma_key_position(s, from);
        assert(s[i].0 == from);
    }
    if summarised_reach(areas, v3, target, asbr) is Some {
        let d = summarised_reach(areas, v3, target, asbr)->0.distance;
        let i = choose|i: int|
            0 <= i < s.len() && (#[trigger] s[i]).0 != target && (v3
                ==> s[i].1.protocol is Ospfv3) && s[i].1.facts.routers@.contains_key(asbr)
                && s[i].1.facts.routers@[asbr] == d;
        lemma_entry(s, i);
        assert(areas.contains_key(s[i].0));
    }
}

/// The metric of a located boundary router is its distance, as far as an LSA
/// can say it.
pub proof fn distances_are_capped(d: u64)
    ensures
        d <= 0xff_fffe ==> capped(d) == d,
        d > 0xff_fffe ==> capped(d) == 0xff_fffe,
{
}

/// Once a plan is carried out, a boundary router that is to be located in an
/// area has this router's LSA there with the right metric: a type-4 summary,
/// or in OSPFv3 an inter-area-router LSA, which carries the options too.
pub proof fn located_routers_are_advertised(
    areas: Map<u32, AreaView>,
    v3: bool,
    router_id: u32,
    target: u32,
    asbr: u32,
)
    requires
        summarised_reach(areas, v3, target, asbr) is Some,
        summarised_reach(areas, v3, target, asbr)->0.distance <= 0xff_fffe,
    ensures
        ({
            let r = summarised_reach(areas, v3, target, asbr)->0;
            let metric = r.distance as u32;
            let key = LsaKey {
                ls_type: if v3 {
                    0x2004
                } else {
                    4
                },
                link_state_id: asbr,
                advertising_router: router_id,
            };
            let lsdb = areas[target].lsdb@;
            let prev_seq = if lsdb.contains_key(key) {
                Some(lsdb[key].header.ls_sequence_number)
            } else {
                None
            };
            let current = lsdb.contains_key(key) && match lsdb[key].content {
                LsaContent::Summary { tos0_metric, .. } => !v3 && tos0_metric == Some(metric),
                LsaContent::InterRouter { metric: m, options } => v3 && m == metric && options
                    == r.options,
                _ => false,
            };
            let actions = locate_action(areas, v3, router_id, target)((asbr, ()));
            &&& current ==> actions.len() == 0
            &&& !current && !v3 ==> actions == seq![
                LsaAction::SummaryAsbr { asbr, metric, prev_seq },
            ]
            &&& !current && v3 ==> actions == seq![
                LsaAction::InterAreaRouter { asbr, options: r.options, metric, prev_seq },
            ]
        }),
{
}

/// This router's locators are flushed where the boundary router is gone, or
/// the area reaches it itself, or nobody else does; the others stay.
pub proof fn needless_locators_are_flushed(
    areas: Map<u32, AreaView>,
    v3: bool,
    router_id: u32,
    target: u32,
    routers: Map<u32, ()>,
    key: LsaKey,
    lsa: Lsa,
)
    ensures
        ({
            let own = key.ls_type == (if v3 {
                0x2004u16
            } else {
                4u16
            }) && key.advertising_router == router_id;
            let needed = routers.contains_key(key.link_state_id)
                && !areas[target].facts.routers@.contains_key(key.link_state_id)
                && summarised_reach(areas, v3, target, key.link_state_id) is Some;
            let actions = stale_locator(areas, v3, router_id, target, routers)((key, lsa));
            &&& own && !needed ==> actions == seq![LsaAction::Flush { key }]
            &&& !own || needed ==> actions.len() == 0
        }),
{
}

/// The boundary routers are the originators of external LSAs other than this
/// router itself.
pub proof fn boundary_routers_originate_externals(
    lsdb: Map<LsaKey, Lsa>,
    ls_type: u16,
    router_id: u32,
    k: LsaKey,
)
    ensures
        lsdb.contains_key(k) && k.ls_type == ls_type && k.advertising_router != router_id
            ==> boundary_routers(lsdb, ls_type, router_id).contains_key(k.advertising_router),
        !boundary_routers(lsdb, ls_type, router_id).contains_key(router_id),
        forall|r: u32| #[trigger]
            boundary_routers(lsdb, ls_type, router_id).contains_key(r) ==> exists|q: LsaKey|
                #[trigger] lsdb.contains_key(q) && q.ls_type == ls_type && q.advertising_router
                    == r,
{
    if lsdb.contains_key(k) && k.ls_type == ls_type && k.advertising_router != router_id {
        assert(sources_externals(lsdb, ls_type, k.advertising_router));
    }
}

/// External LSAs are read from the database of the lowest area, in OSPFv3
/// from that of the lowest area of that version.
pub proof fn externals_are_read_from_the_lowest_area(areas: Seq<(u32, AreaView)>, v3: bool, i: int)
    requires
        0 <= i < areas.len(),
        v3 ==> areas[i].1.protocol is Ospfv3,
        v3 ==> forall|j: int| 0 <= j < i ==> !((#[trigger] areas[j]).1.protocol is Ospfv3),
        !v3 ==> i == 0,
    ensures
        external_database(areas, v3) == areas[i].1.lsdb@,
    decreases areas.len(),
{
    if i > 0 {
        let rest = areas.drop_first();
        assert(!(areas[0].1.protocol is Ospfv3));
        assert(rest[i - 1] == areas[i]);
        assert forall|j: int| 0 <= j < i - 1 implies !((#[trigger] rest[j]).1.protocol is Ospfv3) by {
            assert(rest[j] == areas[j + 1]);
        }
        externals_are_read_from_the_lowest_area(rest, v3, i - 1);
    }
}

/// Stub and not-so-stubby areas keep no locator: this router's are flushed
/// there.
pub proof fn stubby_areas_keep_no_locators(
    areas: Map<u32, AreaView>,
    v3: bool,
    router_id: u32,
    routers: Map<u32, ()>,
    area: u32,
    view: AreaView,
    key: LsaKey,
)
    requires
        is_table(view.lsdb@),
        !(view.kind is Normal),
        view.lsdb@.contains_key(key),
        key.advertising_router == router_id,
        v3 ==> key.ls_type == 0x2004,
        !v3 ==> key.ls_type == 4,
    ensures
        locator_plan_of(areas, v3, router_id, routers)((area, view)).contains(
            single(area, LsaAction::Flush { key }),
        ),
{
    let f = flush_type(area, locator_type(v3), router_id);
    let s = sorted(view.lsdb@);
    let i = lemma_key_position(s, key);
    let x = single(area, LsaAction::Flush { key });
    assert(f(s[i])[0] == x);
    assert(f(s[i]).contains(x));
    gather_includes(s, f, i, x);
}

/// Nothing but this router's LSAs is flushed in a stub or not-so-stubby area,
/// and nothing originated.
pub proof fn stubby_areas_get_no_locators(
    areas: Map<u32, AreaView>,
    v3: bool,
    router_id: u32,
    routers: Map<u32, ()>,
    area: u32,
    view: AreaView,
    i: int,
) -> (k: LsaKey)
    requires
        is_table(view.lsdb@),
        !(view.kind is Normal),
        0 <= i < locator_plan_of(areas, v3, router_id, routers)((area, view)).len(),
    ensures
        view.lsdb@.contains_key(k),
        k.advertising_router == router_id,
        locator_plan_of(areas, v3, router_id, routers)((area, view))[i] == single(
            area,
            LsaAction::Flush { key: k },
        ),
{
    let f = flush_type(area, locator_type(v3), router_id);
    let s = sorted(view.lsdb@);
    let plans = locator_plan_of(areas, v3, router_id, routers)((area, view));
    assert(plans == gather(s, f));
    assert(plans.contains(plans[i]));
    let j = gather_source(s, f, plans[i]);
    lemma_entry(s, j);
    s[j].0
}

} // verus!
