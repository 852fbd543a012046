//! Summaries a border router originates into its areas.

use crate::addr::{prefix_len_to_mask, IpAddr, Prefix};
use crate::list::List;
use crate::ordmap::{is_table, lookup, map_of, ordered, sorted, OrdMap};
use crate::ordmap::{lemma_entry, lemma_key_position, lemma_take_step};
use crate::ospf::area::OspfAreaType;
use crate::ospf::facts::AreaView;
use crate::ospf::lsa::{Lsa, LsaContent, LsaKey, V2_SUMMARY};
use crate::ospf::plan::{grouped, AreaPlan, LsaAction};
use crate::ospf::table::{OspfKind, OspfTableEntry};
use crate::ospf::tables::{
    internal_entries_were_found, internal_table_v3, intra_area_networks_are_in_the_table,
    ospf_area_table, ospf_internal_table_v3, summaries_are_in_the_table, table_entries_were_found,
    table_v2, Table,
};
use crate::route::Protocol;
use crate::seqs::{gather, gather_includes, gather_source, gather_step, gather_whole, one_if};
use vstd::prelude::*;

verus! {

/// The table that summaries are drawn from.
pub open spec fn summary_table(view: AreaView, v3: bool) -> Map<Prefix, OspfTableEntry> {
    if v3 {
        internal_table_v3(view.kind, view.facts, false)
    } else {
        table_v2(view.kind, view.facts)
    }
}

/// Whether an area takes part in the summaries of a protocol version.
pub open spec fn in_plane(view: AreaView, v3: bool) -> bool {
    v3 ==> view.protocol is Ospfv3
}

/// The smaller of two metrics, where there are any.
pub open spec fn opt_min(a: Option<u64>, b: Option<u64>) -> Option<u64> {
    match (a, b) {
        (Some(x), Some(y)) => if x <= y {
            a
        } else {
            b
        },
        (None, _) => b,
        (_, None) => a,
    }
}

/// The metric of an intra-area entry for `p`.
pub open spec fn intra_metric(t: Map<Prefix, OspfTableEntry>, p: Prefix) -> Option<u64> {
    if t.contains_key(p) && t[p].kind is Intra {
        Some(t[p].metric)
    } else {
        None
    }
}

/// The lowest intra-area metric for `p` over the non-backbone areas other
/// than the target.
pub open spec fn others_min(
    areas: Seq<(u32, AreaView)>,
    v3: bool,
    target: u32,
    p: Prefix,
) -> Option<u64>
    decreases areas.len(),
{
    if areas.len() == 0 {
        None
    } else {
        let (id, view) = areas.last();
        let rest = others_min(areas.drop_last(), v3, target, p);
        if id == 0 || id == target || !in_plane(view, v3) {
            rest
        } else {
            opt_min(rest, intra_metric(summary_table(view, v3), p))
        }
    }
}

/// What the backbone knows of `p`: its own networks, and inter-area routes
/// that other border routers put there. This router's own summaries and
/// external routes do not count.
pub open spec fn backbone_metric(
    t: Map<Prefix, OspfTableEntry>,
    router_id: u32,
    p: Prefix,
) -> Option<u64> {
    if t.contains_key(p) && !(t[p].kind is External) && !t[p].own_inter(router_id) {
        Some(t[p].metric)
    } else {
        None
    }
}

/// The backbone's summary table, empty where no backbone takes part.
pub open spec fn backbone_table(areas: Map<u32, AreaView>, v3: bool) -> Map<
    Prefix,
    OspfTableEntry,
> {
    if areas.contains_key(0) && in_plane(areas[0], v3) {
        summary_table(areas[0], v3)
    } else {
        Map::empty()
    }
}

/// The default prefix of a protocol version.
pub open spec fn default_prefix(v3: bool) -> Prefix {
    Prefix {
        addr: if v3 {
            IpAddr::V6(0)
        } else {
            IpAddr::V4(0)
        },
        prefix_len: 0,
    }
}

/// The metric of the default injected into the target as a summary: into
/// stub areas and not-so-stubby ones, but in OSPFv2 only into those of the
/// latter that suppress summaries.
pub open spec fn injected_default(kind: OspfAreaType, target: u32, v3: bool) -> Option<u32> {
    if target != 0 && (kind is Stub || (kind is Nssa && (v3 || kind.suppresses_summaries()))) {
        kind.injected_metric()
    } else {
        None
    }
}

/// The metric at which `p` is summarised into the target area, if it is.
pub open spec fn source(
    areas: Map<u32, AreaView>,
    v3: bool,
    router_id: u32,
    target: u32,
    p: Prefix,
) -> Option<u64> {
    let view = areas[target];
    let default = injected_default(view.kind, target, v3);
    if intra_metric(summary_table(view, v3), p) is Some {
        None
    } else if p == default_prefix(v3) && default is Some {
        Some(default->0 as u64)
    } else if target == 0 {
        others_min(sorted(areas), v3, target, p)
    } else if view.kind.suppresses_summaries() {
        None
    } else {
        opt_min(
            backbone_metric(backbone_table(areas, v3), router_id, p),
            others_min(sorted(areas), v3, target, p),
        )
    }
}

/// Everything that is summarised into the target area.
pub open spec fn source_map(
    areas: Map<u32, AreaView>,
    v3: bool,
    router_id: u32,
    target: u32,
) -> Map<Prefix, u64> {
    Map::new(
        |p: Prefix| source(areas, v3, router_id, target, p) is Some,
        |p: Prefix| source(areas, v3, router_id, target, p)->0,
    )
}

/// The tables of all areas that take part, by area.
pub open spec fn all_tables(
    areas: Map<u32, AreaView>,
    v3: bool,
    tables: Map<u32, Table>,
) -> bool {
    &&& forall|id: u32|
        #![trigger tables.contains_key(id)]
        tables.contains_key(id) == (areas.contains_key(id) && in_plane(areas[id], v3))
    &&& forall|id: u32|
        #![trigger tables[id]]
        tables.contains_key(id) ==> tables[id]@ == summary_table(areas[id], v3)
}

/// Builds the summary tables of all areas.
pub fn summary_tables(areas: &OrdMap<u32, AreaView>, v3: bool) -> (tables: OrdMap<u32, Table>)
    ensures
        all_tables(areas@, v3, tables@),
{
    let mut tables: OrdMap<u32, Table> = OrdMap::new();
    let n: usize = areas.len();
    let mut i: usize = 0;
    assert(areas.entries().take(0) == Seq::<(u32, AreaView)>::empty());
    while i < n
        invariant
            i <= n == areas.entries().len(),
            ordered(areas.entries()),
            all_tables(map_of(areas.entries().take(i as int)), v3, tables@),
        decreases n - i,
    {
        proof {
            lemma_take_step(areas.entries(), i as int);
        }
        let id = areas.key_at(i);
        let view = areas.value_at(i);
        if v3 {
            if view.protocol == Protocol::Ospfv3 {
                tables.insert(id, ospf_internal_table_v3(&view.kind, &view.facts, false));
            }
        } else {
            tables.insert(id, ospf_area_table(&view.kind, &view.facts));
        }
        i = i + 1;
    }
    assert(areas.entries().take(n as int) == areas.entries());
    tables
}

fn min_into(sources: &mut OrdMap<Prefix, u64>, p: Prefix, metric: u64)
    ensures
        final(sources)@ == old(sources)@.insert(
            p,
            opt_min(lookup(old(sources)@, p), Some(metric))->0,
        ),
{
    let m: u64 = match sources.get(&p) {
        Some(prev) => if *prev <= metric {
            *prev
        } else {
            metric
        },
        None => metric,
    };
    sources.insert(p, m);
}

/// Adds the intra-area networks of a table, keeping the lower metric.
fn absorb_intra(sources: &mut OrdMap<Prefix, u64>, table: &Table)
    ensures
        forall|p: Prefix|
            #![trigger lookup(final(sources)@, p)]
            lookup(final(sources)@, p) == opt_min(
                lookup(old(sources)@, p),
                intra_metric(table@, p),
            ),
{
    let ghost start = sources@;
    let n: usize = table.len();
    let mut i: usize = 0;
    assert(table.entries().take(0) == Seq::<(Prefix, OspfTableEntry)>::empty());
    while i < n
        invariant
            i <= n == table.entries().len(),
            ordered(table.entries()),
            start == old(sources)@,
            forall|p: Prefix|
                #![trigger lookup(sources@, p)]
                lookup(sources@, p) == opt_min(
                    lookup(start, p),
                    intra_metric(map_of(table.entries().take(i as int)), p),
                ),
        decreases n - i,
    {
        let ghost before = sources@;
        let p = table.key_at(i);
        let e = table.value_at(i);
        if e.is_intra() {
            min_into(sources, p, e.metric);
        }
        proof {
            lemma_take_step(table.entries(), i as int);
            let next = map_of(table.entries().take(i + 1));
            assert forall|q: Prefix| #![trigger lookup(sources@, q)] lookup(sources@, q)
                == opt_min(lookup(start, q), intra_metric(next, q)) by {
                assert(lookup(before, q) == opt_min(
                    lookup(start, q),
                    intra_metric(map_of(table.entries().take(i as int)), q),
                ));
            }
        }
        i = i + 1;
    }
    assert(table.entries().take(n as int) == table.entries());
}

/// Starts from what the backbone knows.
fn backbone_sources(table: &Table, router_id: u32) -> (sources: OrdMap<Prefix, u64>)
    ensures
        forall|p: Prefix|
            #![trigger lookup(sources@, p)]
            lookup(sources@, p) == backbone_metric(table@, router_id, p),
{
    let mut sources: OrdMap<Prefix, u64> = OrdMap::new();
    let n: usize = table.len();
    let mut i: usize = 0;
    assert(table.entries().take(0) == Seq::<(Prefix, OspfTableEntry)>::empty());
    while i < n
        invariant
            i <= n == table.entries().len(),
            ordered(table.entries()),
            forall|p: Prefix|
                #![trigger lookup(sources@, p)]
                lookup(sources@, p) == backbone_metric(
                    map_of(table.entries().take(i as int)),
                    router_id,
                    p,
                ),
        decreases n - i,
    {
        let ghost before = sources@;
        let p = table.key_at(i);
        let e = table.value_at(i);
        let external: bool = match e.kind {
            OspfKind::External { .. } => true,
            _ => false,
        };
        if e.is_intra() || (!e.is_own_inter(router_id) && !external) {
            sources.insert(p, e.metric);
        }
        proof {
            lemma_take_step(table.entries(), i as int);
            assert forall|q: Prefix| #![trigger lookup(sources@, q)] lookup(sources@, q)
                == backbone_metric(map_of(table.entries().take(i + 1)), router_id, q) by {
                assert(lookup(before, q) == backbone_metric(
                    map_of(table.entries().take(i as int)),
                    router_id,
                    q,
                ));
            }
        }
        i = i + 1;
    }
    assert(table.entries().take(n as int) == table.entries());
    sources
}

/// Removes the intra-area networks of a table.
fn drop_intra(sources: &mut OrdMap<Prefix, u64>, table: &Table)
    ensures
        forall|p: Prefix|
            #![trigger lookup(final(sources)@, p)]
            lookup(final(sources)@, p) == (if intra_metric(table@, p) is Some {
                None
            } else {
                lookup(old(sources)@, p)
            }),
{
    let ghost start = sources@;
    let n: usize = table.len();
    let mut i: usize = 0;
    assert(table.entries().take(0) == Seq::<(Prefix, OspfTableEntry)>::empty());
    while i < n
        invariant
            i <= n == table.entries().len(),
            ordered(table.entries()),
            start == old(sources)@,
            forall|p: Prefix|
                #![trigger lookup(sources@, p)]
                lookup(sources@, p) == (if intra_metric(
                    map_of(table.entries().take(i as int)),
                    p,
                ) is Some {
                    None
                } else {
                    lookup(start, p)
                }),
        decreases n - i,
    {
        let ghost before = sources@;
        let p = table.key_at(i);
        if table.value_at(i).is_intra() {
            sources.remove(&p);
        }
        proof {
            lemma_take_step(table.entries(), i as int);
            assert forall|q: Prefix| #![trigger lookup(sources@, q)] lookup(sources@, q) == (
            if intra_metric(map_of(table.entries().take(i + 1)), q) is Some {
                None
            } else {
                lookup(start, q)
            }) by {
                assert(lookup(before, q) == (if intra_metric(
                    map_of(table.entries().take(i as int)),
                    q,
                ) is Some {
                    None
                } else {
                    lookup(start, q)
                }));
            }
        }
        i = i + 1;
    }
    assert(table.entries().take(n as int) == table.entries());
}

/// Adds the intra-area networks of every other non-backbone area.
fn absorb_others(
    sources: &mut OrdMap<Prefix, u64>,
    areas: &OrdMap<u32, AreaView>,
    tables: &OrdMap<u32, Table>,
    v3: bool,
    target: u32,
)
    requires
        all_tables(areas@, v3, tables@),
    ensures
        forall|p: Prefix|
            #![trigger lookup(final(sources)@, p)]
            lookup(final(sources)@, p) == opt_min(
                lookup(old(sources)@, p),
                others_min(sorted(areas@), v3, target, p),
            ),
{
    let ghost start = sources@;
    let n: usize = areas.len();
    let mut i: usize = 0;
    while i < n
        invariant
            i <= n == areas.entries().len(),
            areas.entries() == sorted(areas@),
            all_tables(areas@, v3, tables@),
            start == old(sources)@,
            forall|p: Prefix|
                #![trigger lookup(sources@, p)]
                lookup(sources@, p) == opt_min(
                    lookup(start, p),
                    others_min(areas.entries().take(i as int), v3, target, p),
                ),
        decreases n - i,
    {
        let ghost before = sources@;
        let ghost s = areas.entries();
        assert(s.take(i + 1).drop_last() == s.take(i as int));
        let id = areas.key_at(i);
        if id != 0 && id != target {
            if let Some(t) = tables.get(&id) {
                absorb_intra(sources, t);
            }
        }
        assert forall|q: Prefix| #![trigger lookup(sources@, q)] lookup(sources@, q) == opt_min(
            lookup(start, q),
            others_min(s.take(i + 1), v3, target, q),
        ) by {
            assert(lookup(before, q) == opt_min(
                lookup(start, q),
                others_min(s.take(i as int), v3, target, q),
            ));
        }
        i = i + 1;
    }
    assert(areas.entries().take(n as int) == areas.entries());
}

/// Computes what is summarised into the target area.
pub fn summary_sources(
    areas: &OrdMap<u32, AreaView>,
    tables: &OrdMap<u32, Table>,
    v3: bool,
    router_id: u32,
    target: u32,
) -> (sources: OrdMap<Prefix, u64>)
    requires
        all_tables(areas@, v3, tables@),
        tables@.contains_key(target),
    ensures
        sources@ == source_map(areas@, v3, router_id, target),
{
    let mut sources: OrdMap<Prefix, u64> = OrdMap::new();
    let kind = match areas.get(&target) {
        Some(view) => view.kind,
        None => OspfAreaType::Normal,
    };
    if target == 0 {
        absorb_others(&mut sources, areas, tables, v3, target);
    } else if !kind.no_summary() {
        let zero: u32 = 0;
        if let Some(t) = tables.get(&zero) {
            sources = backbone_sources(t, router_id);
        }
        absorb_others(&mut sources, areas, tables, v3, target);
    }
    let ghost learned = sources@;
    if target != 0 {
        if let Some(metric) = kind.default_metric() {
            if v3 {
                sources.insert(Prefix::new_v6(0, 0), metric as u64);
            } else if !kind.is_nssa() || kind.no_summary() {
                sources.insert(Prefix::new_v4(0, 0), metric as u64);
            }
        }
    }
    let ghost with_default = sources@;
    if let Some(t) = tables.get(&target) {
        drop_intra(&mut sources, t);
    }
    proof {
        let spec_map = source_map(areas@, v3, router_id, target);
        assert forall|p: Prefix| #![trigger lookup(sources@, p)] lookup(sources@, p) == source(
            areas@,
            v3,
            router_id,
            target,
            p,
        ) by {
            assert(lookup(with_default, p) == (if p == default_prefix(v3) && injected_default(
                kind,
                target,
                v3,
            ) is Some {
                Some(injected_default(kind, target, v3)->0 as u64)
            } else {
                lookup(learned, p)
            }));
        }
        assert forall|p: Prefix| sources@.contains_key(p) == spec_map.contains_key(p) by {
            assert(lookup(sources@, p) == source(areas@, v3, router_id, target, p));
        }
        assert forall|p: Prefix| #[trigger] sources@.contains_key(p) implies sources@[p]
            == spec_map[p] by {
            assert(lookup(sources@, p) == source(areas@, v3, router_id, target, p));
        }
        assert(sources@ =~= spec_map);
    }
    sources
}

/// The link-state ID of a type-3 summary: the masked network.
pub open spec fn network_id(p: Prefix) -> Option<u32> {
    match p.addr {
        IpAddr::V4(a) => Some(a & crate::addr::mask_v4(p.prefix_len)),
        IpAddr::V6(_) => None,
    }
}

/// The masked network of an IPv4 prefix.
pub fn masked_network(p: &Prefix) -> (n: Option<u32>)
    ensures
        n == network_id(*p),
{
    match p.addr {
        IpAddr::V4(a) => Some(a & prefix_len_to_mask(p.prefix_len)),
        IpAddr::V6(_) => None,
    }
}

/// The sequence number of an instance, where there is one.
pub open spec fn seq_of(prev: Option<Lsa>) -> Option<u32> {
    match prev {
        Some(lsa) => Some(lsa.header.ls_sequence_number),
        None => None,
    }
}

/// Whether an instance already advertises a network at a metric.
pub open spec fn advertises(prev: Option<Lsa>, mask: u32, metric: u32) -> bool {
    match prev {
        Some(lsa) => lsa.content == LsaContent::Summary { mask, tos0_metric: Some(metric) },
        None => false,
    }
}

/// A metric as the low 32 bits that fit an LSA.
pub open spec fn low32(m: u64) -> u32 {
    (m % 0x1_0000_0000) as u32
}

/// The type-3 origination a summarised network calls for: none when the
/// current instance already says the same.
pub open spec fn summary_action(lsdb: Map<LsaKey, Lsa>, router_id: u32) -> spec_fn(
    (Prefix, u64),
) -> Seq<LsaAction> {
    |e: (Prefix, u64)|
        match network_id(e.0) {
            Some(network) => {
                let prev = lookup(
                    lsdb,
                    LsaKey {
                        ls_type: V2_SUMMARY,
                        link_state_id: network,
                        advertising_router: router_id,
                    },
                );
                one_if(
                    !advertises(prev, crate::addr::mask_v4(e.0.prefix_len), low32(e.1)),
                    LsaAction::Summary {
                        prefix: e.0,
                        metric: low32(e.1),
                        prev_seq: seq_of(prev),
                    },
                )
            },
            None => Seq::empty(),
        }
}

/// Whether some summarised network has link-state ID `id`.
pub open spec fn network_used(sources: Map<Prefix, u64>, id: u32) -> bool {
    exists|p: Prefix| #[trigger] sources.contains_key(p) && network_id(p) == Some(id)
}

/// The flush of a self-originated type-3 summary that nothing justifies any
/// more.
pub open spec fn stale_summary(sources: Map<Prefix, u64>, router_id: u32) -> spec_fn(
    (LsaKey, Lsa),
) -> Seq<LsaAction> {
    |e: (LsaKey, Lsa)|
        one_if(
            e.0.ls_type == V2_SUMMARY && e.0.advertising_router == router_id && !network_used(
                sources,
                e.0.link_state_id,
            ),
            LsaAction::Flush { key: e.0 },
        )
}

/// All changes to an OSPFv2 area's summaries.
pub open spec fn summary_actions(
    lsdb: Map<LsaKey, Lsa>,
    router_id: u32,
    sources: Map<Prefix, u64>,
) -> Seq<LsaAction> {
    gather(sorted(sources), summary_action(lsdb, router_id)) + gather(
        sorted(lsdb),
        stale_summary(sources, router_id),
    )
}

/// The summary changes of every area, in area order.
pub open spec fn summary_plan_of(areas: Map<u32, AreaView>, router_id: u32) -> spec_fn(
    (u32, AreaView),
) -> Seq<AreaPlan> {
    |a: (u32, AreaView)|
        grouped(
            a.0,
            summary_actions(
                a.1.lsdb@,
                router_id,
                source_map(areas, false, router_id, a.0),
            ),
        )
}

fn used_networks(sources: &OrdMap<Prefix, u64>) -> (used: OrdMap<u32, ()>)
    ensures
        forall|id: u32|
            #![trigger used@.contains_key(id)]
            used@.contains_key(id) == network_used(sources@, id),
{
    let mut used: OrdMap<u32, ()> = OrdMap::new();
    let n: usize = sources.len();
    let mut i: usize = 0;
    assert(sources.entries().take(0) == Seq::<(Prefix, u64)>::empty());
    while i < n
        invariant
            i <= n == sources.entries().len(),
            ordered(sources.entries()),
            forall|id: u32|
                #![trigger used@.contains_key(id)]
                used@.contains_key(id) == network_used(
                    map_of(sources.entries().take(i as int)),
                    id,
                ),
        decreases n - i,
    {
        let ghost before = used@;
        let p = sources.key_at(i);
        if let Some(network) = masked_network(&p) {
            used.insert(network, ());
        }
        proof {
            let s = sources.entries();
            lemma_take_step(s, i as int);
            let a = map_of(s.take(i as int));
            let b = map_of(s.take(i + 1));
            assert(b.contains_key(p));
            assert forall|id: u32| #![trigger used@.contains_key(id)] used@.contains_key(id)
                == network_used(b, id) by {
                assert(before.contains_key(id) == network_used(a, id));
                if network_used(a, id) {
                    let q = choose|q: Prefix|
                        #[trigger] a.contains_key(q) && network_id(q) == Some(id);
                    assert(b.contains_key(q));
                }
                if network_used(b, id) && !network_used(a, id) {
                    let q = choose|q: Prefix|
                        #[trigger] b.contains_key(q) && network_id(q) == Some(id);
                    assert(q == p);
                }
            }
        }
        i = i + 1;
    }
    assert(sources.entries().take(n as int) == sources.entries());
    used
}

/// Plans the summary changes of one OSPFv2 area.
pub fn plan_summaries(
    lsdb: &OrdMap<LsaKey, Lsa>,
    router_id: u32,
    sources: &OrdMap<Prefix, u64>,
) -> (actions: Vec<LsaAction>)
    ensures
        actions@ == summary_actions(lsdb@, router_id, sources@),
{
    let mut actions: Vec<LsaAction> = Vec::new();
    let n: usize = sources.len();
    let mut i: usize = 0;
    let ghost f = summary_action(lsdb@, router_id);
    proof {
        gather_whole(sources.entries(), f);
    }
    while i < n
        invariant
            i <= n == sources.entries().len(),
            f == summary_action(lsdb@, router_id),
            actions@ == gather(sources.entries().take(i as int), f),
        decreases n - i,
    {
        proof {
            gather_step(sources.entries(), i as int, f);
        }
        let prefix = sources.key_at(i);
        let metric: u32 = (*sources.value_at(i) % 0x1_0000_0000) as u32;
        if let Some(network) = masked_network(&prefix) {
            let mask: u32 = prefix_len_to_mask(prefix.prefix_len);
            let key = LsaKey {
                ls_type: V2_SUMMARY,
                link_state_id: network,
                advertising_router: router_id,
            };
            let mut prev_seq: Option<u32> = None;
            let mut unchanged: bool = false;
            if let Some(lsa) = lsdb.get(&key) {
                prev_seq = Some(lsa.header.ls_sequence_number);
                unchanged = lsa.content == LsaContent::Summary { mask, tos0_metric: Some(metric) };
            }
            if !unchanged {
                actions.push(LsaAction::Summary { prefix, metric, prev_seq });
            }
        }
        i = i + 1;
    }
    let ghost first = actions@;
    let used = used_networks(sources);
    let m: usize = lsdb.len();
    let mut j: usize = 0;
    let ghost g = stale_summary(sources@, router_id);
    proof {
        gather_whole(lsdb.entries(), g);
    }
    assert(first + gather(lsdb.entries().take(0), g) == first);
    while j < m
        invariant
            j <= m == lsdb.entries().len(),
            g == stale_summary(sources@, router_id),
            forall|id: u32|
                #![trigger used@.contains_key(id)]
                used@.contains_key(id) == network_used(sources@, id),
            actions@ == first + gather(lsdb.entries().take(j as int), g),
        decreases m - j,
    {
        proof {
            gather_step(lsdb.entries(), j as int, g);
        }
        let key = lsdb.key_at(j);
        if key.ls_type == V2_SUMMARY && key.advertising_router == router_id
            && !used.contains_key(&key.link_state_id) {
            actions.push(LsaAction::Flush { key });
        }
        assert(actions@ == first + (gather(lsdb.entries().take(j as int), g) + g(
            lsdb.entries()[j as int],
        )));
        j = j + 1;
    }
    actions
}

/// Plans the type-3 summaries of every area of an OSPFv2 border router.
pub fn ospf_summarize_areas_v2(areas: &OrdMap<u32, AreaView>, router_id: u32) -> (plans: Vec<
    AreaPlan,
>)
    ensures
        plans@ == gather(sorted(areas@), summary_plan_of(areas@, router_id)),
{
    let tables = summary_tables(areas, false);
    let mut plans: Vec<AreaPlan> = Vec::new();
    let n: usize = areas.len();
    let mut i: usize = 0;
    let ghost f = summary_plan_of(areas@, router_id);
    proof {
        gather_whole(areas.entries(), f);
    }
    while i < n
        invariant
            i <= n == areas.entries().len(),
            f == summary_plan_of(areas@, router_id),
            all_tables(areas@, false, tables@),
            plans@ == gather(areas.entries().take(i as int), f),
        decreases n - i,
    {
        proof {
            gather_step(areas.entries(), i as int, f);
        }
        let target = areas.key_at(i);
        let view = areas.value_at(i);
        assert(tables@.contains_key(target));
        let sources = summary_sources(areas, &tables, false, router_id, target);
        let actions = plan_summaries(&view.lsdb, router_id, &sources);
        if actions.len() > 0 {
            plans.push(AreaPlan { area: target, actions: List::from_vec(actions) });
        }
        i = i + 1;
    }
    plans
}

/// A network inside the target area is never summarised back into it.
pub proof fn own_networks_are_not_summarised(
    areas: Map<u32, AreaView>,
    v3: bool,
    router_id: u32,
    target: u32,
    p: Prefix,
)
    requires
        intra_metric(summary_table(areas[target], v3), p) is Some,
    ensures
        !source_map(areas, v3, router_id, target).contains_key(p),
{
}

proof fn lemma_others_source(areas: Seq<(u32, AreaView)>, v3: bool, target: u32, p: Prefix) -> (i:
    int)
    requires
        others_min(areas, v3, target, p) is Some,
    ensures
        0 <= i < areas.len(),
        areas[i].0 != 0 && areas[i].0 != target,
        intra_metric(summary_table(areas[i].1, v3), p) == others_min(areas, v3, target, p),
    decreases areas.len(),
{
    let last = areas.len() - 1;
    let front = areas.drop_last();
    let rest = others_min(front, v3, target, p);
    if rest == others_min(areas, v3, target, p) {
        let i = lemma_others_source(front, v3, target, p);
        assert(front[i] == areas[i]);
        i
    } else {
        last
    }
}

/// Every summarised network but an injected default is justified: by an
/// intra-area route of another non-backbone area, or by a backbone route that
/// is neither external nor this router's own summary. External destinations
/// are therefore never summarised.
pub proof fn summaries_are_justified(
    areas: Map<u32, AreaView>,
    v3: bool,
    router_id: u32,
    target: u32,
    p: Prefix,
)
    requires
        source_map(areas, v3, router_id, target).contains_key(p),
        p != default_prefix(v3) || injected_default(areas[target].kind, target, v3) is None,
    ensures
        (target != 0 && backbone_metric(backbone_table(areas, v3), router_id, p) == Some(
            source_map(areas, v3, router_id, target)[p],
        )) || (exists|i: int|
            0 <= i < sorted(areas).len() && (#[trigger] sorted(areas)[i]).0 != 0 && sorted(
                areas,
            )[i].0 != target && intra_metric(summary_table(sorted(areas)[i].1, v3), p) == Some(
                source_map(areas, v3, router_id, target)[p],
            )),
{
    let o = others_min(sorted(areas), v3, target, p);
    if o is Some {
        let i = lemma_others_source(sorted(areas), v3, target, p);
        assert(sorted(areas)[i].0 != 0);
    }
}

/// Into an area that suppresses summaries goes nothing but an injected
/// default.
pub proof fn suppressed_areas_get_only_the_default(
    areas: Map<u32, AreaView>,
    v3: bool,
    router_id: u32,
    target: u32,
    p: Prefix,
)
    requires
        target != 0,
        areas[target].kind.suppresses_summaries(),
        source_map(areas, v3, router_id, target).contains_key(p),
    ensures
        p == default_prefix(v3),
        injected_default(areas[target].kind, target, v3) is Some,
{
}

/// A summary table has an intra-area entry exactly for the networks found in
/// the area, at their lowest metric.
proof fn lemma_summary_table(view: AreaView, v3: bool, p: Prefix)
    ensures
        forall|i: int|
            #![trigger view.facts.intra@[i]]
            0 <= i < view.facts.intra@.len() && view.facts.intra@[i].prefix == p ==> (
            match intra_metric(summary_table(view, v3), p) {
                Some(m) => m <= view.facts.intra@[i].metric,
                None => false,
            }),
        intra_metric(summary_table(view, v3), p) is Some ==> exists|i: int|
            #![trigger view.facts.intra@[i]]
            0 <= i < view.facts.intra@.len() && view.facts.intra@[i].prefix == p && Some(
                view.facts.intra@[i].metric,
            ) == intra_metric(summary_table(view, v3), p),
{
    assert forall|i: int|
        #![trigger view.facts.intra@[i]]
        0 <= i < view.facts.intra@.len() && view.facts.intra@[i].prefix == p implies (
    match intra_metric(summary_table(view, v3), p) {
        Some(m) => m <= view.facts.intra@[i].metric,
        None => false,
    }) by {
        intra_area_networks_are_in_the_table(view.kind, view.facts, false, i);
    }
    if intra_metric(summary_table(view, v3), p) is Some {
        let i = if v3 {
            internal_entries_were_found(view.kind, view.facts, p)
        } else {
            table_entries_were_found(view.kind, view.facts, p)
        };
        assert(view.facts.intra@[i].prefix == p);
    }
}

proof fn lemma_others_least(
    areas: Seq<(u32, AreaView)>,
    v3: bool,
    target: u32,
    p: Prefix,
    i: int,
)
    requires
        0 <= i < areas.len(),
        areas[i].0 != 0,
        areas[i].0 != target,
        in_plane(areas[i].1, v3),
        intra_metric(summary_table(areas[i].1, v3), p) is Some,
    ensures
        others_min(areas, v3, target, p) is Some,
        others_min(areas, v3, target, p)->0 <= intra_metric(
            summary_table(areas[i].1, v3),
            p,
        )->0,
    decreases areas.len(),
{
    if i < areas.len() - 1 {
        assert(areas.drop_last()[i] == areas[i]);
        lemma_others_least(areas.drop_last(), v3, target, p, i);
    }
}

/// Whether an area takes the summaries of other areas: the backbone does, and
/// so does every area whose type does not suppress them.
pub open spec fn takes_summaries(target: u32, kind: OspfAreaType) -> bool {
    target == 0 || match kind {
        OspfAreaType::Normal => true,
        OspfAreaType::Stub { no_summary, .. } => !no_summary,
        OspfAreaType::Nssa { no_summary, .. } => !no_summary,
    }
}

/// A network of a non-backbone area is summarised into every other area that
/// takes summaries and does not hold the network itself, at a metric no
/// higher than any route to it has.
pub proof fn area_networks_are_summarised(
    areas: Map<u32, AreaView>,
    v3: bool,
    router_id: u32,
    target: u32,
    from: u32,
    i: int,
)
    requires
        is_table(areas),
        areas.contains_key(target),
        areas.contains_key(from),
        from != 0,
        from != target,
        v3 ==> areas[from].protocol is Ospfv3,
        0 <= i < areas[from].facts.intra@.len(),
        takes_summaries(target, areas[target].kind),
        forall|j: int|
            0 <= j < areas[target].facts.intra@.len() ==> (
            #[trigger] areas[target].facts.intra@[j]).prefix
                != areas[from].facts.intra@[i].prefix,
        target == 0 || areas[target].kind is Normal
            || areas[from].facts.intra@[i].prefix.prefix_len != 0,
    ensures
        source_map(areas, v3, router_id, target).contains_key(
            areas[from].facts.intra@[i].prefix,
        ),
        source_map(areas, v3, router_id, target)[areas[from].facts.intra@[i].prefix]
            <= areas[from].facts.intra@[i].metric,
{
    let p = areas[from].facts.intra@[i].prefix;
    let k = lemma_key_position(sorted(areas), from);
    lemma_summary_table(areas[from], v3, p);
    lemma_summary_table(areas[target], v3, p);
    assert(intra_metric(summary_table(areas[from], v3), p) is Some);
    lemma_others_least(sorted(areas), v3, target, p, k);
}

/// A network of the backbone is summarised into every other area that takes
/// summaries and does not hold the network itself, at a metric no higher than
/// any route to it has.
pub proof fn backbone_networks_are_summarised(
    areas: Map<u32, AreaView>,
    v3: bool,
    router_id: u32,
    target: u32,
    i: int,
)
    requires
        areas.contains_key(target),
        target != 0,
        areas.contains_key(0),
        v3 ==> areas[0].protocol is Ospfv3,
        0 <= i < areas[0].facts.intra@.len(),
        takes_summaries(target, areas[target].kind),
        forall|j: int|
            0 <= j < areas[target].facts.intra@.len() ==> (
            #[trigger] areas[target].facts.intra@[j]).prefix != areas[0].facts.intra@[i].prefix,
        areas[target].kind is Normal || areas[0].facts.intra@[i].prefix.prefix_len != 0,
    ensures
        source_map(areas, v3, router_id, target).contains_key(areas[0].facts.intra@[i].prefix),
        source_map(areas, v3, router_id, target)[areas[0].facts.intra@[i].prefix]
            <= areas[0].facts.intra@[i].metric,
{
    let p = areas[0].facts.intra@[i].prefix;
    lemma_summary_table(areas[0], v3, p);
    lemma_summary_table(areas[target], v3, p);
}

/// A network that other border routers summarise into the backbone goes on
/// into every other area that takes summaries, at a metric no higher than any
/// of theirs.
pub proof fn backbone_summaries_go_on(
    areas: Map<u32, AreaView>,
    v3: bool,
    router_id: u32,
    target: u32,
    i: int,
)
    requires
        areas.contains_key(target),
        target != 0,
        areas.contains_key(0),
        areas[0].kind is Normal,
        v3 ==> areas[0].protocol is Ospfv3,
        0 <= i < areas[0].facts.summaries@.len(),
        takes_summaries(target, areas[target].kind),
        forall|j: int|
            0 <= j < areas[target].facts.intra@.len() ==> (
            #[trigger] areas[target].facts.intra@[j]).prefix
                != areas[0].facts.summaries@[i].prefix,
        forall|j: int|
            0 <= j < areas[0].facts.intra@.len() ==> (#[trigger] areas[0].facts.intra@[j]).prefix
                != areas[0].facts.summaries@[i].prefix,
        router_id != 0,
        forall|j: int|
            0 <= j < areas[0].facts.summaries@.len() && (
            #[trigger] areas[0].facts.summaries@[j]).prefix == areas[0].facts.summaries@[i].prefix
                ==> areas[0].facts.summaries@[j].border_router != Some(router_id),
        areas[target].kind is Normal || areas[0].facts.summaries@[i].prefix.prefix_len != 0,
    ensures
        source_map(areas, v3, router_id, target).contains_key(
            areas[0].facts.summaries@[i].prefix,
        ),
        source_map(areas, v3, router_id, target)[areas[0].facts.summaries@[i].prefix]
            <= areas[0].facts.summaries@[i].metric,
{
    let p = areas[0].facts.summaries@[i].prefix;
    let view = areas[0];
    lemma_summary_table(view, v3, p);
    lemma_summary_table(areas[target], v3, p);
    summaries_are_in_the_table(view.kind, view.facts, false, i);
    let j = if v3 {
        internal_entries_were_found(view.kind, view.facts, p)
    } else {
        table_entries_were_found(view.kind, view.facts, p)
    };
    let e = summary_table(view, v3)[p];
    if e.kind is Intra {
        assert(view.facts.intra@[j].prefix == p);
    } else {
        assert(view.facts.summaries@[j].prefix == p);
    }
}

/// Every summarised network but an injected default is known: as a network of
/// another area, or of the backbone, or from the summary that another border
/// router put into the backbone. The metric is that of the route it is known
/// by, and the target area does not hold the network itself.
pub proof fn summarised_networks_are_known(
    areas: Map<u32, AreaView>,
    v3: bool,
    router_id: u32,
    target: u32,
    p: Prefix,
) -> (r: (u32, int))
    requires
        is_table(areas),
        areas.contains_key(target),
        source_map(areas, v3, router_id, target).contains_key(p),
        p.prefix_len != 0 || target == 0 || match areas[target].kind {
            OspfAreaType::Normal => true,
            OspfAreaType::Stub { .. } => false,
            OspfAreaType::Nssa { no_summary, .. } => !v3 && !no_summary,
        },
    ensures
        ({
            let (from, i) = r;
            let facts = areas[from].facts;
            let metric = source_map(areas, v3, router_id, target)[p];
            &&& areas.contains_key(from)
            &&& from != target
            &&& takes_summaries(target, areas[target].kind)
            &&& v3 ==> areas[from].protocol is Ospfv3
            &&& forall|j: int|
                0 <= j < areas[target].facts.intra@.len() ==> (
                #[trigger] areas[target].facts.intra@[j]).prefix != p
            &&& {
                ||| 0 <= i < facts.intra@.len() && facts.intra@[i].prefix == p
                    && facts.intra@[i].metric == metric
                ||| from == 0 && 0 <= i < facts.summaries@.len() && facts.summaries@[i].prefix
                    == p && facts.summaries@[i].metric == metric
                    && facts.summaries@[i].border_router != Some(router_id)
            }
        }),
{
    let metric = source_map(areas, v3, router_id, target)[p];
    lemma_summary_table(areas[target], v3, p);
    assert(source(areas, v3, router_id, target, p) == Some(metric));
    assert(intra_metric(summary_table(areas[target], v3), p) is None);
    assert(injected_default(areas[target].kind, target, v3) is None || p != default_prefix(v3));
    let o = others_min(sorted(areas), v3, target, p);
    if o == Some(metric) {
        let k = lemma_others_at(sorted(areas), v3, target, p);
        lemma_entry(sorted(areas), k);
        let from = sorted(areas)[k].0;
        lemma_summary_table(areas[from], v3, p);
        let i = choose|i: int|
            #![trigger areas[from].facts.intra@[i]]
            0 <= i < areas[from].facts.intra@.len() && areas[from].facts.intra@[i].prefix == p
                && Some(areas[from].facts.intra@[i].metric) == Some(metric);
        (from, i)
    } else {
        let view = areas[0];
        assert(target != 0);
        assert(backbone_metric(backbone_table(areas, v3), router_id, p) == Some(metric));
        let i = if v3 {
            internal_entries_were_found(view.kind, view.facts, p)
        } else {
            table_entries_were_found(view.kind, view.facts, p)
        };
        (0, i)
    }
}

proof fn lemma_others_at(areas: Seq<(u32, AreaView)>, v3: bool, target: u32, p: Prefix) -> (i: int)
    requires
        others_min(areas, v3, target, p) is Some,
    ensures
        0 <= i < areas.len(),
        areas[i].0 != 0 && areas[i].0 != target,
        v3 ==> areas[i].1.protocol is Ospfv3,
        intra_metric(summary_table(areas[i].1, v3), p) == others_min(areas, v3, target, p),
    decreases areas.len(),
{
    let front = areas.drop_last();
    if others_min(front, v3, target, p) == others_min(areas, v3, target, p) {
        let i = lemma_others_at(front, v3, target, p);
        assert(front[i] == areas[i]);
        i
    } else {
        areas.len() - 1
    }
}

/// Stub areas receive a default at their configured metric, and so do the
/// not-so-stubby areas that take no summaries, in OSPFv3 all of them; unless
/// the area has a default of its own.
pub proof fn stubby_areas_receive_a_default(
    areas: Map<u32, AreaView>,
    v3: bool,
    router_id: u32,
    target: u32,
)
    requires
        target != 0,
        forall|j: int|
            0 <= j < areas[target].facts.intra@.len() ==> (
            #[trigger] areas[target].facts.intra@[j]).prefix.prefix_len != 0,
        !(areas[target].kind is Normal),
        areas[target].kind is Nssa && !v3 ==> !takes_summaries(target, areas[target].kind),
    ensures
        ({
            let any = if v3 {
                Prefix { addr: IpAddr::V6(0), prefix_len: 0 }
            } else {
                Prefix { addr: IpAddr::V4(0), prefix_len: 0 }
            };
            let metric = match areas[target].kind {
                OspfAreaType::Normal => 0u32,
                OspfAreaType::Stub { default_metric, .. } => default_metric,
                OspfAreaType::Nssa { default_metric, .. } => default_metric,
            };
            &&& source_map(areas, v3, router_id, target).contains_key(any)
            &&& source_map(areas, v3, router_id, target)[any] == metric
        }),
{
    lemma_summary_table(areas[target], v3, default_prefix(v3));
}

/// After a plan is carried out every summarised network has a type-3 LSA with
/// its mask and metric: there is one already, or it is originated, continuing
/// the sequence of the instance it replaces.
pub proof fn summarised_networks_are_advertised(
    lsdb: Map<LsaKey, Lsa>,
    router_id: u32,
    sources: Map<Prefix, u64>,
    addr: u32,
    prefix_len: u8,
)
    requires
        is_table(sources),
        sources.contains_key((Prefix { addr: IpAddr::V4(addr), prefix_len })),
        sources[(Prefix { addr: IpAddr::V4(addr), prefix_len })] <= u32::MAX,
    ensures
        ({
            let p = Prefix { addr: IpAddr::V4(addr), prefix_len };
            let mask = crate::addr::mask_v4(prefix_len);
            let key = LsaKey {
                ls_type: 3,
                link_state_id: addr & mask,
                advertising_router: router_id,
            };
            let metric = sources[p] as u32;
            &&& lsdb.contains_key(key) && lsdb[key].content == (LsaContent::Summary {
                mask,
                tos0_metric: Some(metric),
            }) || summary_actions(lsdb, router_id, sources).contains(
                LsaAction::Summary {
                    prefix: p,
                    metric,
                    prev_seq: if lsdb.contains_key(key) {
                        Some(lsdb[key].header.ls_sequence_number)
                    } else {
                        None
                    },
                },
            )
            &&& !summary_actions(lsdb, router_id, sources).contains(LsaAction::Flush { key })
        }),
{
    let p = Prefix { addr: IpAddr::V4(addr), prefix_len };
    let mask = crate::addr::mask_v4(prefix_len);
    let key = LsaKey { ls_type: 3, link_state_id: addr & mask, advertising_router: router_id };
    let f = summary_action(lsdb, router_id);
    let g = stale_summary(sources, router_id);
    let a = gather(sorted(sources), f);
    let b = gather(sorted(lsdb), g);
    let all = summary_actions(lsdb, router_id, sources);
    let k = lemma_key_position(sorted(sources), p);
    let metric = sources[p] as u32;
    assert(low32(sources[p]) == metric);
    let act = LsaAction::Summary { prefix: p, metric, prev_seq: seq_of(lookup(lsdb, key)) };
    if !advertises(lookup(lsdb, key), mask, metric) {
        assert(f(sorted(sources)[k])[0] == act);
        assert(f(sorted(sources)[k]).contains(act));
        gather_includes(sorted(sources), f, k, act);
        let j = choose|j: int| 0 <= j < a.len() && a[j] == act;
        assert(all[j] == act);
    }
    let end = LsaAction::Flush { key };
    if all.contains(end) {
        let j = choose|j: int| 0 <= j < all.len() && all[j] == end;
        if j < a.len() {
            assert(a[j] == end);
            let i = gather_source(sorted(sources), f, end);
        } else {
            assert(b[j - a.len()] == end);
            let i = gather_source(sorted(lsdb), g, end);
            assert(network_id(p) == Some(addr & mask));
        }
    }
}

/// A plan for summaries does nothing without a reason: it originates only
/// networks that are summarised, at their metric, leaves alone what is
/// already said, and ends exactly this router's type-3 LSAs for which no
/// summarised network is left.
pub proof fn summary_changes_have_a_reason(
    lsdb: Map<LsaKey, Lsa>,
    router_id: u32,
    sources: Map<Prefix, u64>,
    action: LsaAction,
)
    requires
        is_table(sources),
        is_table(lsdb),
        summary_actions(lsdb, router_id, sources).contains(action),
    ensures
        match action {
            LsaAction::Summary { prefix, metric, prev_seq } => {
                &&& sources.contains_key(prefix)
                &&& metric as int == sources[prefix] as int % 0x1_0000_0000
                &&& match prefix.addr {
                    IpAddr::V4(addr) => {
                        let mask = crate::addr::mask_v4(prefix.prefix_len);
                        let key = LsaKey {
                            ls_type: 3,
                            link_state_id: addr & mask,
                            advertising_router: router_id,
                        };
                        &&& prev_seq is Some == lsdb.contains_key(key)
                        &&& lsdb.contains_key(key) ==> prev_seq == Some(
                            lsdb[key].header.ls_sequence_number,
                        )
                        &&& !(lsdb.contains_key(key) && lsdb[key].content
                            == LsaContent::Summary { mask, tos0_metric: Some(metric) })
                    },
                    IpAddr::V6(_) => false,
                }
            },
            LsaAction::Flush { key } => {
                &&& lsdb.contains_key(key)
                &&& key.ls_type == 3
                &&& key.advertising_router == router_id
                &&& forall|addr: u32, prefix_len: u8|
                    #![trigger sources.contains_key((Prefix { addr: IpAddr::V4(addr), prefix_len }))]
                    sources.contains_key((Prefix { addr: IpAddr::V4(addr), prefix_len })) ==> addr
                        & crate::addr::mask_v4(prefix_len) != key.link_state_id
            },
            _ => false,
        },
{
    let f = summary_action(lsdb, router_id);
    let g = stale_summary(sources, router_id);
    let a = gather(sorted(sources), f);
    let b = gather(sorted(lsdb), g);
    let all = summary_actions(lsdb, router_id, sources);
    let j = choose|j: int| 0 <= j < all.len() && all[j] == action;
    if j < a.len() {
        assert(a[j] == action);
        let i = gather_source(sorted(sources), f, action);
        lemma_entry(sorted(sources), i);
    } else {
        assert(b[j - a.len()] == action);
        let i = gather_source(sorted(lsdb), g, action);
        lemma_entry(sorted(lsdb), i);
        let key = sorted(lsdb)[i].0;
        assert forall|addr: u32, prefix_len: u8|
            #![trigger sources.contains_key((Prefix { addr: IpAddr::V4(addr), prefix_len }))]
            sources.contains_key((Prefix { addr: IpAddr::V4(addr), prefix_len })) implies addr
            & crate::addr::mask_v4(prefix_len) != key.link_state_id by {
            let p = Prefix { addr: IpAddr::V4(addr), prefix_len };
            assert(network_id(p) == Some(addr & crate::addr::mask_v4(prefix_len)));
        }
    }
}

/// A type-3 LSA of this router that no summarised network justifies any more
/// is flushed.
pub proof fn stale_summaries_are_flushed(
    lsdb: Map<LsaKey, Lsa>,
    router_id: u32,
    sources: Map<Prefix, u64>,
    id: u32,
)
    requires
        is_table(lsdb),
        lsdb.contains_key(
            (LsaKey { ls_type: 3, link_state_id: id, advertising_router: router_id }),
        ),
        forall|addr: u32, prefix_len: u8|
            #![trigger sources.contains_key((Prefix { addr: IpAddr::V4(addr), prefix_len }))]
            sources.contains_key((Prefix { addr: IpAddr::V4(addr), prefix_len })) ==> addr
                & crate::addr::mask_v4(prefix_len) != id,
    ensures
        summary_actions(lsdb, router_id, sources).contains(
            LsaAction::Flush {
                key: LsaKey { ls_type: 3, link_state_id: id, advertising_router: router_id },
            },
        ),
{
    let key = LsaKey { ls_type: 3, link_state_id: id, advertising_router: router_id };
    let g = stale_summary(sources, router_id);
    let b = gather(sorted(lsdb), g);
    let a = gather(sorted(sources), summary_action(lsdb, router_id));
    let i = lemma_key_position(sorted(lsdb), key);
    let end = LsaAction::Flush { key };
    if network_used(sources, id) {
        let p = choose|p: Prefix|
            #[trigger] sources.contains_key(p) && network_id(p) == Some(id);
        match p.addr {
            IpAddr::V4(addr) => {
                assert(p == Prefix { addr: IpAddr::V4(addr), prefix_len: p.prefix_len });
            },
            IpAddr::V6(_) => {},
        }
    }
    assert(g(sorted(lsdb)[i])[0] == end);
    assert(g(sorted(lsdb)[i]).contains(end));
    gather_includes(sorted(lsdb), g, i, end);
    let j = choose|j: int| 0 <= j < b.len() && b[j] == end;
    assert(summary_actions(lsdb, router_id, sources)[a.len() + j] == end);
}

} // verus!
