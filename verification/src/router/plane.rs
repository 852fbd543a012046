//! The OSPF plane: what a change of the link-state databases sets in motion.

use crate::addr::{mask_v4, prefix_len_to_mask, IpAddr, Prefix};
use crate::delta::{changed_routes, diff_tables, gone_keys};
use crate::list::List;
use crate::ordmap::{is_table, lemma_entry, lemma_key_position, lookup, sorted, OrdMap};
use crate::ospf::area::OspfAreaType;
use crate::ospf::asbr::{
    flush_type, locator_plans, ospf_summarize_asbrs, ospf_summarize_asbrs_v3, plan_flush_type,
};
use crate::ospf::adjacency::{NeighborState, OspfNetworkType, OspfRuntime};
use crate::ospf::external::{
    border_router, choose_external_id, desired_map, desired_translations, drop_external, dropped,
    end_external, end_external_v3, external_id, external_plan, external_plan_v3, is_border_router,
    nssa_default_plan, ospf_nssa_defaults, own_key, plan_conversion, plan_external, plan_external_end,
    plan_external_end_v3, plan_external_v3, plan_translation, plan_translation_end, put_external,
    retired, sources_type5, TranslationKey,
};
use crate::ospf::facts::{AreaView, SpfFacts};
use crate::ospf::lsa::{Lsa, LsaKey};
use crate::ospf::lsa::{
    V2_EXTERNAL, V2_NSSA, V2_SUMMARY, V2_SUMMARY_ASBR, V3_INTER_PREFIX, V3_INTER_ROUTER,
};
use crate::ospf::merge::{compute_merged_table, merged_table};
use crate::ospf::plan::{
    single, AreaPlan, ExternalDestination, LsaAction, V3ExternalDestination,
};
use crate::ospf::summary::{ospf_summarize_areas_v2, summary_plan_of};
use crate::ospf::summary_v3::{ospf_summarize_areas_v3, prefix_plans};
use crate::ospf::topology::{count_changes, refreshed};
use crate::route::Protocol;
use crate::router::origination::after_delta;
use crate::router::sessions::{
    after_remove_session, external_task, external_task_v3, sync_tasks, sync_tasks_v2,
    sync_tasks_v3,
};
use crate::router::{DefaultRouter, OspfState, RouterState, Settings, VirtualLink};
use crate::select::KeyTest;
use crate::select::{any_key, has_accepted};
use crate::seqs::{gather, gather_includes, gather_step, gather_whole, one_if};
use crate::session::Session;
use crate::task::Task;
use vstd::prelude::*;

verus! {

/// The router with another OSPF plane.
pub open spec fn with_plane(st: RouterState, ospf: OspfState) -> RouterState {
    RouterState { ospf, ..st }
}

/// Plans are handed to the embedder, if there are any.
pub open spec fn planned(st: RouterState, plans: Seq<AreaPlan>) -> RouterState {
    st.schedule(one_if(plans.len() > 0, Task::ApplyPlans { plans: List::of(plans) }))
}

/// Whether the router borders OSPFv2 areas.
pub open spec fn abr(st: RouterState) -> bool {
    border_router(st.ospf.router_id, st.ospf.areas, Protocol::Ospfv2)
}

/// Whether the router borders OSPFv3 areas.
pub open spec fn abr_v3(st: RouterState) -> bool {
    border_router(st.ospf.router_id, st.ospf.areas, Protocol::Ospfv3)
}

/// Databases were brought up to date.
pub open spec fn after_changed(st: RouterState, changed: bool) -> RouterState {
    with_plane(st, OspfState { dirty: st.ospf.dirty || changed, ..st.ospf })
}

/// Everything computed from the databases is reconsidered, if they changed.
pub open spec fn after_settle(st: RouterState) -> RouterState {
    if st.ospf.dirty {
        with_plane(st, OspfState { dirty: false, ..st.ospf }).schedule(seq![Task::OspfChanged])
    } else {
        st
    }
}

/// Everything computed from the databases is reconsidered: virtual links
/// first, as they decide who is a border router, then summaries, then
/// translations, and last the table.
pub open spec fn after_ospf_changed(st: RouterState) -> RouterState {
    with_plane(st, OspfState { dirty: false, ..st.ospf }).schedule(
        seq![
            Task::EvalVirtualLinks,
            Task::Summarize { step: 0 },
            Task::Summarize { step: 1 },
            Task::Summarize { step: 2 },
            Task::Summarize { step: 3 },
            Task::Summarize { step: 4 },
            Task::Translate,
            Task::Recompute,
        ],
    )
}

/// The flush of this router's LSAs of two types from an area.
pub open spec fn flush_types(a: u16, b: u16, router_id: u32) -> spec_fn((u32, AreaView)) -> Seq<
    AreaPlan,
> {
    |e: (u32, AreaView)|
        gather(sorted(e.1.lsdb@), flush_type(e.0, a, router_id)) + gather(
            sorted(e.1.lsdb@),
            flush_type(e.0, b, router_id),
        )
}

/// One step of the summaries: OSPFv2 summaries, the defaults of not-so-stubby
/// areas, OSPFv2 boundary routers, OSPFv3 prefixes, OSPFv3 boundary routers.
/// Who is no border router flushes its summaries.
pub open spec fn after_summarize(st: RouterState, step: u8) -> RouterState {
    match st.ospf.router_id {
        None => st,
        Some(id) => if step == 0 {
            planned(
                st,
                if abr(st) {
                    gather(sorted(st.ospf.areas), summary_plan_of(st.ospf.areas, id))
                } else {
                    gather(
                        sorted(st.ospf.areas),
                        flush_types(V2_SUMMARY, V2_SUMMARY_ASBR, id),
                    )
                },
            )
        } else if step == 1 {
            planned(
                st,
                gather(
                    sorted(st.ospf.areas),
                    nssa_default_plan(id, abr(st), st.ospf.externals.contains_key(0)),
                ),
            )
        } else if step == 2 {
            if abr(st) {
                planned(st, locator_plans(st.ospf.areas, false, id))
            } else {
                st
            }
        } else if step == 3 {
            if abr_v3(st) {
                let (ids, plans) = prefix_plans(
                    st.ospf.areas,
                    id,
                    st.ospf.summary_ids,
                    sorted(st.ospf.areas),
                );
                planned(with_plane(st, OspfState { summary_ids: ids, ..st.ospf }), plans)
            } else {
                planned(
                    with_plane(st, OspfState { summary_ids: Map::empty(), ..st.ospf }),
                    gather(
                        sorted(st.ospf.areas),
                        flush_types(V3_INTER_PREFIX, V3_INTER_ROUTER, id),
                    ),
                )
            }
        } else if step == 4 && abr_v3(st) {
            planned(st, locator_plans(st.ospf.areas, true, id))
        } else {
            st
        },
    }
}

/// The end of a translation that is no longer desired.
pub open spec fn end_task(desired: Map<TranslationKey, ExternalDestination>) -> spec_fn(
    (TranslationKey, ()),
) -> Seq<Task> {
    |e: (TranslationKey, ())|
        one_if(!desired.contains_key(e.0), Task::EndTranslation { translation: e.0 })
}

/// The upkeep of a desired translation.
pub open spec fn put_task() -> spec_fn((TranslationKey, ExternalDestination)) -> Seq<Task> {
    |e: (TranslationKey, ExternalDestination)|
        seq![Task::PutTranslation { translation: e.0, dest: e.1 }]
}

/// Exactly the desired translations are maintained from now on.
pub open spec fn after_translate(st: RouterState) -> RouterState {
    if st.ospf.router_id is None {
        st
    } else {
        let desired = desired_map(abr(st), st.ospf.areas, st.ospf.externals);
        with_plane(
            st,
            OspfState { translations: Map::new(|k: TranslationKey| desired.contains_key(k), |
                k: TranslationKey,
            | ()), ..st.ospf },
        ).schedule(
            gather(sorted(st.ospf.translations), end_task(desired)) + gather(
                sorted(desired),
                put_task(),
            ),
        )
    }
}

/// A translation ends.
pub open spec fn after_end_translation(st: RouterState, key: TranslationKey) -> RouterState {
    match st.ospf.router_id {
        None => st,
        Some(id) => planned(
            st,
            if st.ospf.externals.contains_key(key.1.0) {
                Seq::empty()
            } else {
                gather(sorted(st.ospf.areas), drop_external(id, key.1.0))
            },
        ),
    }
}

/// A translation is maintained.
pub open spec fn after_put_translation(
    st: RouterState,
    key: TranslationKey,
    dest: ExternalDestination,
) -> RouterState {
    match st.ospf.router_id {
        None => st,
        Some(id) => planned(st, gather(sorted(st.ospf.areas), put_external(id, key.1.0, dest))),
    }
}

/// The table is computed anew, and its difference to what was published is
/// put into force.
pub open spec fn after_recompute(st: RouterState) -> RouterState {
    let current = merged_table(
        st.ospf.router_id,
        st.ospf.areas,
        st.settings.sr_receive,
        st.settings.srv6_receive,
    );
    after_delta(
        with_plane(st, OspfState { published: current, dirty: false, ..st.ospf }),
        changed_routes(sorted(current), st.ospf.published),
        gone_keys(sorted(st.ospf.published), current),
    )
}

/// The network of an IPv4 prefix.
pub open spec fn network_v4(p: Prefix) -> Option<u32> {
    match p.addr {
        IpAddr::V4(a) => Some(a & mask_v4(p.prefix_len)),
        IpAddr::V6(_) => None,
    }
}

/// A destination is redistributed into OSPFv2, replacing the one of the same
/// network.
pub open spec fn after_external(st: RouterState, dest: ExternalDestination) -> RouterState {
    match network_v4(dest.prefix) {
        None => st,
        Some(network) => with_plane(
            st,
            OspfState { externals: st.ospf.externals.insert(network, dest), ..st.ospf },
        ).schedule(seq![Task::OriginateExternal { network }, Task::OspfSettle]),
    }
}

/// Areas are brought in line with an OSPFv2 redistribution.
pub open spec fn after_originate_external(st: RouterState, network: u32) -> RouterState {
    match (st.ospf.router_id, lookup(st.ospf.externals, network)) {
        (Some(id), Some(dest)) => planned(
            st,
            gather(
                sorted(st.ospf.areas),
                external_plan(id, network, dest, sources_type5(abr(st), sorted(st.ospf.areas))),
            ),
        ),
        _ => st,
    }
}

/// The value, or 0.
pub open spec fn or_zero(id: Option<u32>) -> u32 {
    match id {
        Some(x) => x,
        None => 0,
    }
}

/// A redistribution into OSPFv2 ends.
pub open spec fn after_external_end(st: RouterState, network: u32) -> RouterState {
    if st.ospf.externals.contains_key(network) {
        planned(
            with_plane(
                st,
                OspfState { externals: st.ospf.externals.remove(network), ..st.ospf },
            ).schedule(seq![Task::OspfSettle]),
            gather(sorted(st.ospf.areas), end_external(or_zero(st.ospf.router_id), network)),
        )
    } else {
        st
    }
}

/// An IPv6 prefix without host bits; none for other prefixes.
pub open spec fn normal_v6(p: Prefix) -> Option<Prefix> {
    match p.network_of() {
        IpAddr::V6(a) => Some(Prefix { addr: IpAddr::V6(a), prefix_len: p.prefix_len }),
        IpAddr::V4(_) => None,
    }
}

/// Whether a forwarding address is not global: unspecified or link-local.
pub open spec fn illegal_forwarding(a: u128) -> bool {
    a == 0 || a >> 118 == 0x3fa
}

/// The destination that an OSPFv3 redistribution records, if it is legal.
pub open spec fn recorded_v3(dest: V3ExternalDestination) -> Option<V3ExternalDestination> {
    match normal_v6(dest.prefix) {
        Some(p) => match dest.forwarding_addr {
            Some(fa) => if illegal_forwarding(fa) {
                None
            } else {
                Some(V3ExternalDestination { prefix: p, ..dest })
            },
            None => Some(V3ExternalDestination { prefix: p, ..dest }),
        },
        None => None,
    }
}

/// A destination is redistributed into OSPFv3.
pub open spec fn after_external_v3(st: RouterState, dest: V3ExternalDestination) -> RouterState {
    match recorded_v3(dest) {
        None => st,
        Some(d) => with_plane(
            st,
            OspfState { externals_v3: st.ospf.externals_v3.insert(d.prefix, d), ..st.ospf },
        ).schedule(seq![Task::OriginateExternalV3 { prefix: d.prefix }, Task::OspfSettle]),
    }
}

/// Areas are brought in line with an OSPFv3 redistribution. Its identifier is
/// chosen once; without one left, nothing is originated.
pub open spec fn after_originate_external_v3(st: RouterState, prefix: Prefix) -> RouterState {
    match (st.ospf.router_id, lookup(st.ospf.externals_v3, prefix)) {
        (Some(id), Some(dest)) => {
            match external_id(sorted(st.ospf.areas), id, st.ospf.external_ids, prefix) {
                Some(lsid) => planned(
                    with_plane(
                        st,
                        OspfState {
                            external_ids: st.ospf.external_ids.insert(prefix, lsid),
                            ..st.ospf
                        },
                    ),
                    gather(sorted(st.ospf.areas), external_plan_v3(id, lsid, dest)),
                ),
                None => st,
            }
        },
        _ => st,
    }
}

/// A redistribution into OSPFv3 ends.
pub open spec fn after_external_end_v3(st: RouterState, prefix: Prefix) -> RouterState {
    if st.ospf.externals_v3.contains_key(prefix) {
        let gone = with_plane(
            st,
            OspfState {
                externals_v3: st.ospf.externals_v3.remove(prefix),
                external_ids: st.ospf.external_ids.remove(prefix),
                ..st.ospf
            },
        ).schedule(seq![Task::OspfSettle]);
        match lookup(st.ospf.external_ids, prefix) {
            Some(lsid) => planned(
                gone,
                gather(
                    sorted(st.ospf.areas),
                    end_external_v3(or_zero(st.ospf.router_id), lsid),
                ),
            ),
            None => gone,
        }
    } else {
        st
    }
}

/// Whether an area's type can be changed: the area is attached, the type is
/// another one, and the backbone stays regular.
pub open spec fn convertible(st: RouterState, area: u32, kind: OspfAreaType) -> bool {
    &&& st.ospf.router_id is Some
    &&& st.ospf.areas.contains_key(area)
    &&& st.ospf.areas[area].kind != kind
    &&& !(area == 0 && kind != OspfAreaType::Normal)
}

/// How areas catch up on the redistributions after one became of a type. A
/// type that refuses external LSAs lets no OSPFv3 area catch up on anything.
pub open spec fn catching_up(st: RouterState, kind: OspfAreaType) -> Seq<Task> {
    sync_tasks_v2(st) + if kind.stubby() {
        Seq::empty()
    } else {
        sync_tasks_v3(st)
    }
}

/// An area's type changes: LSAs it refuses now are flushed if they are this
/// router's, else dropped; areas catch up on the redistributions as their types
/// call for, and everything is reconsidered.
pub open spec fn after_conversion(st: RouterState, area: u32, kind: OspfAreaType) -> RouterState {
    let view = st.ospf.areas[area];
    let id = or_zero(st.ospf.router_id);
    let keys = gather(sorted(view.lsdb@), dropped(kind, id));
    let actions = gather(sorted(view.lsdb@), retired(kind, id));
    with_plane(
        st,
        OspfState {
            areas: st.ospf.areas.insert(area, AreaView { kind, ..view }),
            ..st.ospf
        },
    ).schedule(
        one_if(keys.len() > 0, Task::Discard { area, keys: List::of(keys) }) + one_if(
            actions.len() > 0,
            Task::ApplyPlans {
                plans: List::Cons(
                    AreaPlan { area, actions: List::of(actions) },
                    Box::new(List::Nil),
                ),
            },
        ) + catching_up(st, kind) + seq![Task::OspfChanged],
    )
}

/// The reconsideration of a virtual link.
pub open spec fn link_task() -> spec_fn(((u32, u32), VirtualLink)) -> Seq<Task> {
    |e: ((u32, u32), VirtualLink)|
        seq![Task::EvalLink { transit: e.0.0, endpoint: e.0.1 }]
}

/// Every virtual link is reconsidered.
pub open spec fn after_eval_links(st: RouterState) -> RouterState {
    if st.ospf.router_id is Some {
        st.schedule(gather(sorted(st.ospf.vlinks), link_task()) + seq![Task::SyncAfterLinks])
    } else {
        st
    }
}

/// Whether a virtual link can be up: its endpoint is reachable inside its
/// transit area.
pub open spec fn link_viable(st: RouterState, transit: u32, endpoint: u32) -> bool {
    match lookup(st.ospf.areas, transit) {
        Some(area) => area.protocol == Protocol::Ospfv2 && area.facts.routers@.contains_key(
            endpoint,
        ),
        None => false,
    }
}

/// The session that carries a virtual link, unless it was removed.
pub open spec fn link_session(st: RouterState, transit: u32, endpoint: u32) -> Option<u64> {
    match lookup(st.ospf.vlinks, (transit, endpoint)) {
        Some(v) => match v.session {
            Some(h) => if st.sessions.contains_key(h) {
                Some(h)
            } else {
                None
            },
            None => None,
        },
        None => None,
    }
}

/// The backbone session of a virtual link.
pub open spec fn backbone_session(router_id: u32) -> Session {
    Session::Ospf(
        OspfRuntime {
            router_id,
            area_id: 0,
            protocol: Protocol::Ospfv2,
            iface_mtu: 1500,
            network_type: OspfNetworkType::PointToPoint,
            our_ip: 0,
            neighbor_ip: 0,
            dr: 0,
            bdr: 0,
            neighbor: NeighborState::Down,
            exchange_started: false,
        },
    )
}

/// The router with the session of a virtual link replaced.
pub open spec fn with_link(
    st: RouterState,
    transit: u32,
    endpoint: u32,
    session: Option<u64>,
) -> RouterState {
    with_plane(
        st,
        OspfState {
            vlinks: st.ospf.vlinks.insert((transit, endpoint), VirtualLink { session }),
            ..st.ospf
        },
    )
}

/// A virtual link is reconsidered. Coming up it gets a backbone session, and
/// attaches the backbone if need be; going down it loses its session.
pub open spec fn after_eval_link(
    st: RouterState,
    transit: u32,
    endpoint: u32,
    backbone: AreaView,
) -> RouterState {
    match (st.ospf.router_id, lookup(st.ospf.vlinks, (transit, endpoint))) {
        (Some(id), Some(_)) => match (
            link_viable(st, transit, endpoint),
            link_session(st, transit, endpoint),
        ) {
            (true, None) => if st.next_handle == u64::MAX {
                with_link(st, transit, endpoint, None)
            } else {
                let h = st.next_handle;
                let linked = with_link(st, transit, endpoint, Some(h));
                RouterState {
                    next_handle: (h + 1) as u64,
                    sessions: st.sessions.insert(h, backbone_session(id)),
                    ospf: OspfState {
                        areas: if st.ospf.areas.contains_key(0) {
                            st.ospf.areas
                        } else {
                            st.ospf.areas.insert(0, backbone)
                        },
                        dirty: true,
                        ..linked.ospf
                    },
                    ..linked
                }
            },
            (false, Some(h)) => after_remove_session(
                with_link(st, transit, endpoint, None).schedule(seq![Task::MarkChanged]),
                h,
            ),
            (_, session) => with_link(st, transit, endpoint, session),
        },
        _ => st,
    }
}

/// Areas catch up on the redistributions, if virtual links changed.
pub open spec fn after_sync_links(st: RouterState) -> RouterState {
    if st.ospf.dirty {
        st.schedule(sync_tasks(st))
    } else {
        st
    }
}

/// Whether a virtual link may be configured: OSPF is active, the endpoint is
/// another router, the link is new, and the transit area is an attached
/// regular OSPFv2 area.
pub open spec fn link_allowed(st: RouterState, transit: u32, endpoint: u32) -> bool {
    &&& st.ospf.router_id is Some
    &&& st.ospf.router_id != Some(endpoint)
    &&& !st.ospf.vlinks.contains_key((transit, endpoint))
    &&& st.ospf.areas.contains_key(transit)
    &&& st.ospf.areas[transit].protocol == Protocol::Ospfv2
    &&& !st.ospf.areas[transit].kind.stubby()
}

/// A virtual link is configured.
pub open spec fn after_add_link(st: RouterState, transit: u32, endpoint: u32) -> RouterState {
    with_link(st, transit, endpoint, None).schedule(
        seq![Task::EvalVirtualLinks, Task::OspfSettle],
    )
}

/// A virtual link is removed, with the session that carries it.
pub open spec fn after_remove_link(st: RouterState, transit: u32, endpoint: u32) -> RouterState {
    match lookup(st.ospf.vlinks, (transit, endpoint)) {
        None => st,
        Some(_) => {
            let gone = with_plane(
                st,
                OspfState { vlinks: st.ospf.vlinks.remove((transit, endpoint)), ..st.ospf },
            );
            match link_session(st, transit, endpoint) {
                Some(h) => after_remove_session(gone, h),
                None => gone,
            }
        },
    }
}

/// Virtual links through an area.
#[derive(Clone, Copy, Debug, PartialEq, Eq, Structural)]
pub struct Through(pub u32);

impl KeyTest<(u32, u32)> for Through {
    open spec fn accepts(&self, k: (u32, u32)) -> bool {
        k.0 == self.0
    }

    fn test(&self, k: &(u32, u32)) -> (b: bool) {
        k.0 == self.0
    }
}

/// The flags of a router-LSA.
#[derive(Clone, Copy, Debug, PartialEq, Eq, Structural)]
pub struct RouterLsaFlags {
    pub virtual_link: bool,
    pub asbr: bool,
    pub border: bool,
}

/// Whether anything is redistributed into OSPF.
pub open spec fn asbr(st: RouterState) -> bool {
    st.ospf.externals != Map::<u32, ExternalDestination>::empty() || st.ospf.externals_v3
        != Map::<Prefix, V3ExternalDestination>::empty()
}

/// An OSPFv2 area.
pub open spec fn v2_area() -> spec_fn((u32, AreaView)) -> Seq<u32> {
    |e: (u32, AreaView)| one_if(e.1.protocol == Protocol::Ospfv2, e.0)
}

impl DefaultRouter {
    /// Whether the router borders areas of a version.
    pub fn ospf_is_abr_for(&self, protocol: Protocol) -> (b: bool)
        ensures
            b == border_router(self@.ospf.router_id, self@.ospf.areas, protocol),
    {
        is_border_router(self.ospf.router_id, &self.ospf.areas, protocol)
    }

    /// Whether the router borders OSPFv2 areas.
    pub fn ospf_is_abr(&self) -> (b: bool)
        ensures
            b == abr(self@),
    {
        self.ospf_is_abr_for(Protocol::Ospfv2)
    }

    /// Hands plans to the embedder, if there are any.
    fn plan(&mut self, plans: Vec<AreaPlan>)
        ensures
            final(self)@ == planned(old(self)@, plans@),
    {
        let ghost given = plans@;
        let mut tasks: Vec<Task> = Vec::new();
        if plans.len() > 0 {
            tasks.push(Task::ApplyPlans { plans: List::from_vec(plans) });
        }
        assert(tasks@ =~= one_if(
            given.len() > 0,
            Task::ApplyPlans { plans: List::of(given) },
        ));
        self.schedule(tasks);
    }

    /// Takes an area's new view over from the embedder; tells whether the area
    /// is attached. Every topology LSA whose contents differ from the view
    /// before raises the area's topology version.
    pub fn refresh_area(&mut self, area: u32, lsdb: OrdMap<LsaKey, Lsa>, facts: SpfFacts) -> (known:
        bool)
        ensures
            known == old(self)@.ospf.areas.contains_key(area),
            final(self)@ == (if known {
                with_plane(
                    old(self)@,
                    OspfState {
                        areas: old(self)@.ospf.areas.insert(
                            area,
                            refreshed(old(self)@.ospf.areas[area], lsdb, facts),
                        ),
                        ..old(self)@.ospf
                    },
                )
            } else {
                old(self)@
            }),
    {
        match self.ospf.areas.remove(&area) {
            Some(v) => {
                let topology_version: u64 = count_changes(v.topology_version, &v.lsdb, &lsdb);
                self.ospf.areas.insert(
                    area,
                    AreaView { protocol: v.protocol, kind: v.kind, topology_version, lsdb, facts },
                );
                assert(self@.ospf.areas =~= old(self)@.ospf.areas.insert(
                    area,
                    refreshed(old(self)@.ospf.areas[area], lsdb, facts),
                ));
                true
            },
            None => false,
        }
    }

    /// Takes note of whether databases changed.
    pub fn databases_changed(&mut self, changed: bool)
        ensures
            final(self)@ == after_changed(old(self)@, changed),
    {
        self.ospf.dirty = self.ospf.dirty || changed;
    }

    /// Reconsiders everything computed from the databases, if they changed.
    pub fn ospf_settle(&mut self)
        ensures
            final(self)@ == after_settle(old(self)@),
    {
        if self.ospf.dirty {
            self.ospf.dirty = false;
            self.schedule(vec![Task::OspfChanged]);
        }
    }

    /// Reconsiders everything computed from the databases.
    pub fn ospf_on_lsdb_change(&mut self)
        ensures
            final(self)@ == after_ospf_changed(old(self)@),
    {
        self.ospf.dirty = false;
        self.schedule(
            vec![
                Task::EvalVirtualLinks,
                Task::Summarize { step: 0 },
                Task::Summarize { step: 1 },
                Task::Summarize { step: 2 },
                Task::Summarize { step: 3 },
                Task::Summarize { step: 4 },
                Task::Translate,
                Task::Recompute,
            ],
        );
    }

    /// Plans the flush of this router's LSAs of two types.
    fn ospf_flush_self_lsa_types(&self, a: u16, b: u16, router_id: u32) -> (plans: Vec<AreaPlan>)
        ensures
            plans@ == gather(sorted(self@.ospf.areas), flush_types(a, b, router_id)),
    {
        let mut plans: Vec<AreaPlan> = Vec::new();
        let ghost f = flush_types(a, b, router_id);
        let n: usize = self.ospf.areas.len();
        proof {
            gather_whole(self.ospf.areas.entries(), f);
        }
        let mut i: usize = 0;
        while i < n
            invariant
                i <= n == self.ospf.areas.entries().len(),
                f == flush_types(a, b, router_id),
                plans@ == gather(self.ospf.areas.entries().take(i as int), f),
            decreases n - i,
        {
            proof {
                gather_step(self.ospf.areas.entries(), i as int, f);
            }
            let ghost before = plans@;
            let area: u32 = self.ospf.areas.key_at(i);
            let view = self.ospf.areas.value_at(i);
            let mut x = plan_flush_type(area, &view.lsdb, a, router_id);
            let mut y = plan_flush_type(area, &view.lsdb, b, router_id);
            let ghost (p, q) = (x@, y@);
            plans.append(&mut x);
            plans.append(&mut y);
            assert(plans@ =~= before + (p + q));
            i = i + 1;
        }
        plans
    }

    /// Runs one step of the summaries.
    pub fn ospf_summarize_areas(&mut self, step: u8)
        ensures
            final(self)@ == after_summarize(old(self)@, step),
    {
        let id: u32 = match self.ospf.router_id {
            Some(id) => id,
            None => return,
        };
        if step <= 2 {
            let border: bool = self.ospf_is_abr();
            if step == 0 {
                let plans = if border {
                    ospf_summarize_areas_v2(&self.ospf.areas, id)
                } else {
                    self.ospf_flush_self_lsa_types(V2_SUMMARY, V2_SUMMARY_ASBR, id)
                };
                self.plan(plans);
            } else if step == 1 {
                let redistributed: bool = self.ospf.externals.contains_key(&0);
                let plans = ospf_nssa_defaults(&self.ospf.areas, id, border, redistributed);
                self.plan(plans);
            } else if border {
                let plans = ospf_summarize_asbrs(&self.ospf.areas, id);
                self.plan(plans);
            }
        } else {
            let border: bool = self.ospf_is_abr_for(Protocol::Ospfv3);
            if step == 3 {
                if border {
                    let plans = ospf_summarize_areas_v3(
                        &self.ospf.areas,
                        id,
                        &mut self.ospf.summary_ids,
                    );
                    self.plan(plans);
                } else {
                    let plans = self.ospf_flush_self_lsa_types(
                        V3_INTER_PREFIX,
                        V3_INTER_ROUTER,
                        id,
                    );
                    self.ospf.summary_ids = OrdMap::new();
                    self.plan(plans);
                }
            } else if step == 4 && border {
                let plans = ospf_summarize_asbrs_v3(&self.ospf.areas, id);
                self.plan(plans);
            }
        }
    }

    /// Reconsiders the translations.
    pub fn ospf_translate_nssa(&mut self)
        ensures
            final(self)@ == after_translate(old(self)@),
    {
        if self.ospf.router_id.is_none() {
            return;
        }
        let border: bool = self.ospf_is_abr();
        let desired = desired_translations(border, &self.ospf.areas, &self.ospf.externals);
        let mut tasks: Vec<Task> = Vec::new();
        let ghost f = end_task(desired@);
        let n: usize = self.ospf.translations.len();
        proof {
            gather_whole(self.ospf.translations.entries(), f);
        }
        let mut i: usize = 0;
        while i < n
            invariant
                i <= n == self.ospf.translations.entries().len(),
                f == end_task(desired@),
                tasks@ == gather(self.ospf.translations.entries().take(i as int), f),
            decreases n - i,
        {
            proof {
                gather_step(self.ospf.translations.entries(), i as int, f);
            }
            let k = self.ospf.translations.key_at(i);
            if !desired.contains_key(&k) {
                tasks.push(Task::EndTranslation { translation: k });
            }
            i = i + 1;
        }
        let ghost first = tasks@;
        let ghost g = put_task();
        let m: usize = desired.len();
        let mut kept: OrdMap<TranslationKey, ()> = OrdMap::new();
        proof {
            gather_whole(desired.entries(), g);
            assert(first + Seq::<Task>::empty() == first);
            assert(crate::ordmap::map_of(desired.entries().take(0)).dom() =~= kept@.dom());
        }
        let mut j: usize = 0;
        while j < m
            invariant
                j <= m == desired.entries().len(),
                crate::ordmap::ordered(desired.entries()),
                g == put_task(),
                tasks@ == first + gather(desired.entries().take(j as int), g),
                kept@.dom() == crate::ordmap::map_of(desired.entries().take(j as int)).dom(),
            decreases m - j,
        {
            proof {
                gather_step(desired.entries(), j as int, g);
                crate::ordmap::lemma_take_step(desired.entries(), j as int);
            }
            let k = desired.key_at(j);
            kept.insert(k, ());
            assert(kept@.dom() =~= crate::ordmap::map_of(desired.entries().take(j + 1)).dom());
            tasks.push(Task::PutTranslation { translation: k, dest: *desired.value_at(j) });
            assert(tasks@ =~= first + gather(desired.entries().take(j + 1), g));
            j = j + 1;
        }
        assert(desired.entries().take(m as int) == desired.entries());
        assert(kept@ =~= Map::new(
            |k: TranslationKey| desired@.contains_key(k),
            |k: TranslationKey| (),
        )) by {
            assert forall|k: TranslationKey| kept@.contains_key(k) == desired@.contains_key(k) by {
                assert(kept@.dom().contains(k) == desired@.dom().contains(k));
            }
        }
        self.ospf.translations = kept;
        self.schedule(tasks);
    }

    /// Ends a translation.
    pub fn end_translation(&mut self, key: TranslationKey)
        ensures
            final(self)@ == after_end_translation(old(self)@, key),
    {
        if let Some(id) = self.ospf.router_id {
            let plans = plan_translation_end(&self.ospf.areas, id, &self.ospf.externals, key);
            self.plan(plans);
        }
    }

    /// Maintains a translation.
    pub fn put_translation(&mut self, key: TranslationKey, dest: ExternalDestination)
        ensures
            final(self)@ == after_put_translation(old(self)@, key, dest),
    {
        if let Some(id) = self.ospf.router_id {
            let plans = plan_translation(&self.ospf.areas, id, key, &dest);
            self.plan(plans);
        }
    }

    /// Computes the table anew and publishes the difference.
    pub fn ospf_recompute(&mut self)
        ensures
            final(self)@ == after_recompute(old(self)@),
    {
        let current = compute_merged_table(
            self.ospf.router_id,
            &self.ospf.areas,
            self.settings.sr_receive,
            self.settings.srv6_receive,
        );
        let n: usize = current.len();
        let m: usize = self.ospf.published.len();
        let delta = diff_tables(&self.ospf.published, &current);
        self.ospf.published = current;
        self.ospf.dirty = false;
        self.apply_runtime_delta(&delta);
    }

    /// Redistributes a destination into OSPFv2; refuses destinations that are
    /// not IPv4.
    pub fn ospf_redistribute(&mut self, dest: ExternalDestination) -> (accepted: bool)
        ensures
            accepted == (dest.prefix.addr is V4),
            final(self)@ == after_external(old(self)@, dest),
    {
        match dest.prefix.addr {
            IpAddr::V4(a) => {
                let network: u32 = a & prefix_len_to_mask(dest.prefix.prefix_len);
                self.ospf.externals.insert(network, dest);
                self.schedule(vec![Task::OriginateExternal { network }, Task::OspfSettle]);
                true
            },
            IpAddr::V6(_) => false,
        }
    }

    /// Brings areas in line with an OSPFv2 redistribution.
    pub fn ospf_originate_externals(&mut self, network: u32)
        ensures
            final(self)@ == after_originate_external(old(self)@, network),
    {
        if let Some(id) = self.ospf.router_id {
            let found: Option<ExternalDestination> = match self.ospf.externals.get(&network) {
                Some(d) => Some(*d),
                None => None,
            };
            if let Some(dest) = found {
                let border: bool = self.ospf_is_abr();
                let plans = plan_external(&self.ospf.areas, id, network, &dest, border);
                self.plan(plans);
            }
        }
    }

    /// Ends a redistribution; tells whether there was one.
    pub fn ospf_unredistribute(&mut self, prefix: Prefix) -> (existed: bool)
        ensures
            match network_v4(prefix) {
                Some(network) => {
                    &&& existed == old(self)@.ospf.externals.contains_key(network)
                    &&& final(self)@ == after_external_end(old(self)@, network)
                },
                None => {
                    let p = normal_v6(prefix)->Some_0;
                    &&& existed == old(self)@.ospf.externals_v3.contains_key(p)
                    &&& final(self)@ == after_external_end_v3(old(self)@, p)
                },
            },
    {
        match prefix.addr {
            IpAddr::V4(a) => {
                let network: u32 = a & prefix_len_to_mask(prefix.prefix_len);
                if self.ospf.externals.remove(&network).is_none() {
                    return false;
                }
                let id: u32 = match self.ospf.router_id {
                    Some(id) => id,
                    None => 0,
                };
                let plans = plan_external_end(&self.ospf.areas, id, network);
                self.schedule(vec![Task::OspfSettle]);
                self.plan(plans);
                true
            },
            IpAddr::V6(_) => self.ospf_unredistribute_v3(prefix),
        }
    }

    /// Redistributes a destination into OSPFv3; refuses destinations that are
    /// not IPv6, and forwarding addresses that are not global.
    pub fn ospf_redistribute_v3(&mut self, dest: V3ExternalDestination) -> (accepted: bool)
        ensures
            accepted == recorded_v3(dest) is Some,
            final(self)@ == after_external_v3(old(self)@, dest),
    {
        let net = match dest.prefix.network() {
            IpAddr::V6(a) => a,
            IpAddr::V4(_) => return false,
        };
        if let Some(fa) = dest.forwarding_addr {
            if fa == 0 || fa >> 118 == 0x3fa {
                return false;
            }
        }
        let prefix = Prefix::new_v6(net, dest.prefix.prefix_len);
        let mut d = dest;
        d.prefix = prefix;
        self.ospf.externals_v3.insert(prefix, d);
        self.schedule(vec![Task::OriginateExternalV3 { prefix }, Task::OspfSettle]);
        true
    }

    /// Brings areas in line with an OSPFv3 redistribution.
    pub fn ospf_originate_externals_v3(&mut self, prefix: Prefix)
        ensures
            final(self)@ == after_originate_external_v3(old(self)@, prefix),
    {
        if let Some(id) = self.ospf.router_id {
            let found: Option<V3ExternalDestination> = match self.ospf.externals_v3.get(&prefix) {
                Some(d) => Some(*d),
                None => None,
            };
            if let Some(dest) = found {
                let chosen = choose_external_id(
                    &self.ospf.areas,
                    id,
                    &self.ospf.external_ids,
                    prefix,
                );
                if let Some(lsid) = chosen {
                    let plans = plan_external_v3(&self.ospf.areas, id, lsid, &dest);
                    self.ospf.external_ids.insert(prefix, lsid);
                    self.plan(plans);
                }
            }
        }
    }

    /// Ends a redistribution into OSPFv3; tells whether there was one.
    pub fn ospf_unredistribute_v3(&mut self, prefix: Prefix) -> (existed: bool)
        ensures
            match normal_v6(prefix) {
                Some(p) => {
                    &&& existed == old(self)@.ospf.externals_v3.contains_key(p)
                    &&& final(self)@ == after_external_end_v3(old(self)@, p)
                },
                None => !existed && final(self)@ == old(self)@,
            },
    {
        let net = match prefix.network() {
            IpAddr::V6(a) => a,
            IpAddr::V4(_) => return false,
        };
        let p = Prefix::new_v6(net, prefix.prefix_len);
        if self.ospf.externals_v3.remove(&p).is_none() {
            return false;
        }
        let id: u32 = match self.ospf.router_id {
            Some(id) => id,
            None => 0,
        };
        let lsid = self.ospf.external_ids.remove(&p);
        self.schedule(vec![Task::OspfSettle]);
        if let Some(x) = lsid {
            let plans = plan_external_end_v3(&self.ospf.areas, id, x);
            self.plan(plans);
        }
        true
    }

    /// Changes an area's type; tells whether it was changed.
    pub fn ospf_set_area_type(&mut self, area: u32, kind: OspfAreaType) -> (changed: bool)
        ensures
            changed == convertible(old(self)@, area, kind),
            final(self)@ == (if changed {
                after_conversion(old(self)@, area, kind)
            } else {
                old(self)@
            }),
    {
        let id: u32 = match self.ospf.router_id {
            Some(id) => id,
            None => return false,
        };
        let (keys, actions) = match self.ospf.areas.get(&area) {
            None => return false,
            Some(v) => {
                if v.kind == kind || (area == 0 && kind != OspfAreaType::Normal) {
                    return false;
                }
                plan_conversion(&v.lsdb, &kind, id)
            },
        };
        if let Some(v) = self.ospf.areas.remove(&area) {
            let ghost before = v;
            self.ospf.areas.insert(
                area,
                AreaView {
                    protocol: v.protocol,
                    kind,
                    topology_version: v.topology_version,
                    lsdb: v.lsdb,
                    facts: v.facts,
                },
            );
            assert(self@.ospf.areas =~= old(self)@.ospf.areas.insert(
                area,
                AreaView { kind, ..before },
            ));
        }
        let ghost (a, b) = (keys@, actions@);
        let mut tasks: Vec<Task> = Vec::new();
        if keys.len() > 0 {
            tasks.push(Task::Discard { area, keys: List::from_vec(keys) });
        }
        if actions.len() > 0 {
            tasks.push(
                Task::ApplyPlans {
                    plans: List::Cons(
                        AreaPlan { area, actions: List::from_vec(actions) },
                        Box::new(List::Nil),
                    ),
                },
            );
        }
        let mut more = self.sync_externals_v2();
        tasks.append(&mut more);
        if !kind.is_stubby() {
            let mut more_v3 = self.sync_externals_v3();
            tasks.append(&mut more_v3);
        }
        tasks.push(Task::OspfChanged);
        assert(tasks@ =~= one_if(a.len() > 0, Task::Discard { area, keys: List::of(a) }) + one_if(
            b.len() > 0,
            Task::ApplyPlans {
                plans: List::Cons(
                    AreaPlan { area, actions: List::of(b) },
                    Box::new(List::Nil),
                ),
            },
        ) + catching_up(old(self)@, kind) + seq![Task::OspfChanged]);
        self.schedule(tasks);
        true
    }

    /// Reconsiders the virtual links.
    pub fn ospf_eval_virtual_links(&mut self)
        ensures
            final(self)@ == after_eval_links(old(self)@),
    {
        if self.ospf.router_id.is_none() {
            return;
        }
        let mut tasks: Vec<Task> = Vec::new();
        let ghost f = link_task();
        let n: usize = self.ospf.vlinks.len();
        proof {
            gather_whole(self.ospf.vlinks.entries(), f);
        }
        let mut i: usize = 0;
        while i < n
            invariant
                i <= n == self.ospf.vlinks.entries().len(),
                f == link_task(),
                tasks@ == gather(self.ospf.vlinks.entries().take(i as int), f),
            decreases n - i,
        {
            proof {
                gather_step(self.ospf.vlinks.entries(), i as int, f);
            }
            let k = self.ospf.vlinks.key_at(i);
            tasks.push(Task::EvalLink { transit: k.0, endpoint: k.1 });
            i = i + 1;
        }
        let ghost before = tasks@;
        tasks.push(Task::SyncAfterLinks);
        assert(tasks@ =~= before + seq![Task::SyncAfterLinks]);
        self.schedule(tasks);
    }

    /// Whether a virtual link is up by the transit area.
    fn viable(&self, transit: u32, endpoint: u32) -> (b: bool)
        ensures
            b == link_viable(self@, transit, endpoint),
    {
        match self.ospf.areas.get(&transit) {
            Some(area) => area.protocol == Protocol::Ospfv2 && area.facts.routers.contains_key(
                &endpoint,
            ),
            None => false,
        }
    }

    /// The session that carries a virtual link, unless it was removed.
    fn carrier(&self, transit: u32, endpoint: u32) -> (h: Option<u64>)
        ensures
            h == link_session(self@, transit, endpoint),
    {
        match self.ospf.vlinks.get(&(transit, endpoint)) {
            Some(v) => match v.session {
                Some(h) => {
                    if self.sessions.contains_key(&h) {
                        Some(h)
                    } else {
                        None
                    }
                },
                None => None,
            },
            None => None,
        }
    }

    /// Replaces the session of a virtual link.
    fn set_link(&mut self, transit: u32, endpoint: u32, session: Option<u64>)
        ensures
            final(self)@ == with_link(old(self)@, transit, endpoint, session),
    {
        self.ospf.vlinks.insert((transit, endpoint), VirtualLink { session });
    }

    /// Reconsiders a virtual link.
    pub fn ospf_eval_virtual_link(&mut self, transit: u32, endpoint: u32)
        ensures
            final(self)@ == after_eval_link(
                old(self)@,
                transit,
                endpoint,
                final(self)@.ospf.areas[0],
            ),
            !old(self)@.ospf.areas.contains_key(0) && final(self)@.ospf.areas.contains_key(0)
                ==> final(self)@.ospf.areas[0].blank(Protocol::Ospfv2, OspfAreaType::Normal),
    {
        let id: u32 = match self.ospf.router_id {
            Some(id) => id,
            None => return,
        };
        if !self.ospf.vlinks.contains_key(&(transit, endpoint)) {
            return;
        }
        let up: bool = self.viable(transit, endpoint);
        let current = self.carrier(transit, endpoint);
        match (up, current) {
            (true, None) => {
                if self.next_handle == u64::MAX {
                    self.set_link(transit, endpoint, None);
                    return;
                }
                let h: u64 = self.next_handle;
                self.next_handle = h + 1;
                self.set_link(transit, endpoint, Some(h));
                if !self.ospf.areas.contains_key(&0) {
                    self.ospf.areas.insert(
                        0,
                        AreaView::new(Protocol::Ospfv2, OspfAreaType::Normal),
                    );
                }
                let runtime = OspfRuntime::new(
                    id,
                    0,
                    false,
                    1500,
                    OspfNetworkType::PointToPoint,
                    None,
                    None,
                );
                self.sessions.insert(h, Session::Ospf(runtime));
                self.ospf.dirty = true;
            },
            (false, Some(h)) => {
                self.set_link(transit, endpoint, None);
                self.schedule(vec![Task::MarkChanged]);
                let done = self.remove_session(h);
            },
            (_, session) => {
                self.set_link(transit, endpoint, session);
            },
        }
    }

    /// Brings areas in line with the redistributions, if virtual links
    /// changed.
    pub fn ospf_sync_externals(&mut self)
        ensures
            final(self)@ == after_sync_links(old(self)@),
    {
        if self.ospf.dirty {
            let tasks = self.sync_externals();
            self.schedule(tasks);
        }
    }

    /// Configures a virtual link; tells whether it is allowed.
    pub fn ospf_add_virtual_link(&mut self, transit: u32, endpoint: u32) -> (added: bool)
        ensures
            added == link_allowed(old(self)@, transit, endpoint),
            final(self)@ == (if added {
                after_add_link(old(self)@, transit, endpoint)
            } else {
                old(self)@
            }),
    {
        match self.ospf.router_id {
            Some(id) => {
                if id == endpoint {
                    return false;
                }
            },
            None => return false,
        }
        if self.ospf.vlinks.contains_key(&(transit, endpoint)) {
            return false;
        }
        match self.ospf.areas.get(&transit) {
            Some(area) => {
                if area.protocol != Protocol::Ospfv2 || area.kind.is_stubby() {
                    return false;
                }
            },
            None => return false,
        }
        self.set_link(transit, endpoint, None);
        self.schedule(vec![Task::EvalVirtualLinks, Task::OspfSettle]);
        true
    }

    /// Removes a virtual link; tells whether there was one.
    pub fn ospf_remove_virtual_link(&mut self, transit: u32, endpoint: u32) -> (existed: bool)
        ensures
            existed == old(self)@.ospf.vlinks.contains_key((transit, endpoint)),
            final(self)@ == after_remove_link(old(self)@, transit, endpoint),
    {
        let carrier = self.carrier(transit, endpoint);
        if self.ospf.vlinks.remove(&(transit, endpoint)).is_none() {
            return false;
        }
        if let Some(h) = carrier {
            let done = self.remove_session(h);
        }
        true
    }

    /// Whether a virtual link is up.
    pub fn ospf_virtual_link_up(&self, transit: u32, endpoint: u32) -> (b: bool)
        ensures
            b == (match lookup(self@.ospf.vlinks, (transit, endpoint)) {
                Some(v) => v.session is Some,
                None => false,
            }),
    {
        match self.ospf.vlinks.get(&(transit, endpoint)) {
            Some(v) => v.session.is_some(),
            None => false,
        }
    }

    /// The session that carries a virtual link while it is up.
    pub fn ospf_virtual_link_session(&self, transit: u32, endpoint: u32) -> (h: Option<u64>)
        ensures
            h == (match lookup(self@.ospf.vlinks, (transit, endpoint)) {
                Some(v) => v.session,
                None => None,
            }),
    {
        match self.ospf.vlinks.get(&(transit, endpoint)) {
            Some(v) => v.session,
            None => None,
        }
    }

    /// The flags of this router's router-LSA in an area.
    pub fn ospf_router_lsa_flags(&self, area: u32) -> (f: RouterLsaFlags)
        ensures
            f == (RouterLsaFlags {
                virtual_link: any_key(self@.ospf.vlinks, Through(area)),
                asbr: asbr(self@),
                border: gather(sorted(self@.ospf.areas), v2_area()).len() > 1,
            }),
    {
        let mut count: usize = 0;
        let ghost f = v2_area();
        let n: usize = self.ospf.areas.len();
        proof {
            gather_whole(self.ospf.areas.entries(), f);
        }
        let mut i: usize = 0;
        while i < n
            invariant
                i <= n == self.ospf.areas.entries().len(),
                f == v2_area(),
                count <= i,
                count == gather(self.ospf.areas.entries().take(i as int), f).len(),
            decreases n - i,
        {
            proof {
                gather_step(self.ospf.areas.entries(), i as int, f);
            }
            if self.ospf.areas.value_at(i).protocol == Protocol::Ospfv2 {
                count = count + 1;
            }
            i = i + 1;
        }
        RouterLsaFlags {
            virtual_link: has_accepted(&self.ospf.vlinks, &Through(area)),
            asbr: self.ospf_is_asbr(),
            border: count > 1,
        }
    }

    /// Whether anything is redistributed into OSPF.
    pub fn ospf_is_asbr(&self) -> (b: bool)
        ensures
            b == asbr(self@),
    {
        !self.ospf.externals.is_empty() || !self.ospf.externals_v3.is_empty()
    }

    /// The topology version of an area: it rises with every change of a
    /// topology LSA in the area's database, and not with mere refreshes.
    pub fn ospf_area_topology_version(&self, area: u32) -> (v: Option<u64>)
        ensures
            v == (match lookup(self@.ospf.areas, area) {
                Some(a) => Some(a.topology_version),
                None => None,
            }),
    {
        match self.ospf.areas.get(&area) {
            Some(a) => Some(a.topology_version),
            None => None,
        }
    }

    /// An LSA of an area.
    pub fn ospf_area_lsa(&self, area: u32, ls_type: u16, ls_id: u32, adv: u32) -> (l: Option<&Lsa>)
        ensures
            l == (match lookup(self@.ospf.areas, area) {
                Some(a) => {
                    let key = LsaKey { ls_type, link_state_id: ls_id, advertising_router: adv };
                    if a.lsdb@.contains_key(key) {
                        Some(&a.lsdb@[key])
                    } else {
                        None
                    }
                },
                None => None,
            }),
    {
        match self.ospf.areas.get(&area) {
            Some(a) => a.lsdb.get(
                &LsaKey { ls_type, link_state_id: ls_id, advertising_router: adv },
            ),
            None => None,
        }
    }

    /// Receives segment-routing labels, or not.
    pub fn set_ospf_sr_receive(&mut self, on: bool)
        ensures
            final(self)@ == (RouterState {
                settings: Settings { sr_receive: on, ..old(self)@.settings },
                ..old(self)@
            }),
    {
        self.settings.sr_receive = on;
    }

    /// Whether segment-routing labels are received.
    pub fn ospf_sr_receive(&self) -> (b: bool)
        ensures
            b == self@.settings.sr_receive,
    {
        self.settings.sr_receive
    }

    /// Receives segment-routing locators, or not.
    pub fn set_ospf_srv6_receive(&mut self, on: bool)
        ensures
            final(self)@ == (RouterState {
                settings: Settings { srv6_receive: on, ..old(self)@.settings },
                ..old(self)@
            }),
    {
        self.settings.srv6_receive = on;
    }

    /// Whether segment-routing locators are received.
    pub fn ospf_srv6_receive(&self) -> (b: bool)
        ensures
            b == self@.settings.srv6_receive,
    {
        self.settings.srv6_receive
    }

    /// Prefers extended LSAs, or not.
    pub fn set_ospf_v3_extended_lsas(&mut self, on: bool)
        ensures
            final(self)@ == (RouterState {
                settings: Settings { v3_extended_lsas: on, ..old(self)@.settings },
                ..old(self)@
            }),
    {
        self.settings.v3_extended_lsas = on;
    }

    /// Whether extended LSAs are preferred.
    pub fn ospf_v3_extended_lsas(&self) -> (b: bool)
        ensures
            b == self@.settings.v3_extended_lsas,
    {
        self.settings.v3_extended_lsas
    }
}

/// When an area changes its type, areas catch up on every redistribution into
/// OSPFv2, and on every one into OSPFv3 where the new type takes external LSAs.
pub proof fn conversions_catch_up(
    st: RouterState,
    area: u32,
    kind: OspfAreaType,
    network: u32,
    prefix: Prefix,
)
    requires
        is_table(st.ospf.externals),
        is_table(st.ospf.externals_v3),
    ensures
        st.ospf.externals.contains_key(network) ==> after_conversion(
            st,
            area,
            kind,
        ).agenda.contains(Task::OriginateExternal { network }),
        st.ospf.externals_v3.contains_key(prefix) && !kind.stubby() ==> after_conversion(
            st,
            area,
            kind,
        ).agenda.contains(Task::OriginateExternalV3 { prefix }),
{
    let view = st.ospf.areas[area];
    let id = or_zero(st.ospf.router_id);
    let keys = gather(sorted(view.lsdb@), dropped(kind, id));
    let actions = gather(sorted(view.lsdb@), retired(kind, id));
    let first = one_if(keys.len() > 0, Task::Discard { area, keys: List::of(keys) }) + one_if(
        actions.len() > 0,
        Task::ApplyPlans {
            plans: List::Cons(AreaPlan { area, actions: List::of(actions) }, Box::new(List::Nil)),
        },
    );
    let tasks = first + catching_up(st, kind) + seq![Task::OspfChanged];
    let all = st.agenda + tasks.reverse();
    assert(after_conversion(st, area, kind).agenda == all);
    let v2 = sync_tasks_v2(st);
    if st.ospf.externals.contains_key(network) {
        let s = sorted(st.ospf.externals);
        let x = Task::OriginateExternal { network };
        let i = lemma_key_position(s, network);
        assert(external_task()(s[i])[0] == x);
        gather_includes(s, external_task(), i, x);
        let at = first.len() + v2.index_of(x);
        assert(tasks[at] == x);
        assert(all[st.agenda.len() + tasks.len() - 1 - at] == x);
    }
    if st.ospf.externals_v3.contains_key(prefix) && !kind.stubby() {
        let s = sorted(st.ospf.externals_v3);
        let x = Task::OriginateExternalV3 { prefix };
        let i = lemma_key_position(s, prefix);
        assert(external_task_v3()(s[i])[0] == x);
        gather_includes(s, external_task_v3(), i, x);
        let at = first.len() + v2.len() + sync_tasks_v3(st).index_of(x);
        assert(tasks[at] == x);
        assert(all[st.agenda.len() + tasks.len() - 1 - at] == x);
    }
}

/// A redistributed network is planned for an area that lacks it as the area's
/// type calls for: as a type-5 LSA in a regular area, as a type-7 LSA in a
/// not-so-stubby one.
pub proof fn redistributions_follow_the_area_type(st: RouterState, network: u32, area: u32)
    requires
        is_table(st.ospf.areas),
        st.ospf.router_id is Some,
        st.ospf.externals.contains_key(network),
        st.ospf.areas.contains_key(area),
        st.ospf.areas[area].protocol is Ospfv2,
        !(st.ospf.areas[area].kind is Stub),
        !st.ospf.areas[area].lsdb@.contains_key(
            own_key(
                if st.ospf.areas[area].kind is Nssa {
                    V2_NSSA
                } else {
                    V2_EXTERNAL
                },
                network,
                st.ospf.router_id->Some_0,
            ),
        ),
    ensures
        ({
            let dest = st.ospf.externals[network];
            let task = after_originate_external(st, network).agenda.last();
            let elsewhere = sources_type5(abr(st), sorted(st.ospf.areas));
            &&& after_originate_external(st, network).agenda.drop_last() == st.agenda
            &&& task is ApplyPlans
            &&& task->plans.seq().contains(
                single(
                    area,
                    if st.ospf.areas[area].kind is Nssa {
                        LsaAction::NssaExternal {
                            dest: ExternalDestination { p_bit: dest.p_bit && !elsewhere, ..dest },
                            prev_seq: None,
                        }
                    } else {
                        LsaAction::External { dest, prev_seq: None }
                    },
                ),
            )
        }),
{
    let id = st.ospf.router_id->Some_0;
    let dest = st.ospf.externals[network];
    let s = sorted(st.ospf.areas);
    let f = external_plan(id, network, dest, sources_type5(abr(st), s));
    let plans = gather(s, f);
    let i = lemma_key_position(s, area);
    lemma_entry(s, i);
    assert(f(s[i]).len() == 1);
    assert(f(s[i]).contains(f(s[i])[0]));
    gather_includes(s, f, i, f(s[i])[0]);
    List::seq_of(plans);
    let one = seq![Task::ApplyPlans { plans: List::of(plans) }];
    assert(one.reverse() =~= one);
    assert(st.agenda + one =~= st.agenda.push(one[0]));
    assert(after_originate_external(st, network).agenda.drop_last() =~= st.agenda);
}

} // verus!
