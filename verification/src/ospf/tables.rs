//! Route tables of single areas.

use crate::addr::{IpAddr, Prefix};
use crate::ordmap::{lookup, OrdMap};
use crate::ospf::area::OspfAreaType;
use crate::ospf::facts::{
    AreaView, ExternalRoute, ExternalRouteV3, IntraRoute, Locator, SpfFacts, SummaryRoute,
};
use crate::ospf::table::{or_zero, ExternalMetricType, OspfKind, OspfTableEntry};
use crate::seqs::{gather, gather_includes, gather_source, gather_step, gather_whole, one_if};
use vstd::prelude::*;

verus! {

/// A route table.
pub type Table = OrdMap<Prefix, OspfTableEntry>;

/// A table after entering entries in order; one replaces an earlier one of its
/// prefix only if it beats it.
pub open spec fn enter_all(
    m: Map<Prefix, OspfTableEntry>,
    s: Seq<(Prefix, OspfTableEntry)>,
) -> Map<Prefix, OspfTableEntry>
    decreases s.len(),
{
    if s.len() == 0 {
        m
    } else {
        let rest = enter_all(m, s.drop_last());
        if rest.contains_key(s.last().0) && !s.last().1.preferred(rest[s.last().0]) {
            rest
        } else {
            rest.insert(s.last().0, s.last().1)
        }
    }
}

/// A table after filling in entries in order where none is yet.
pub open spec fn fill_all(
    m: Map<Prefix, OspfTableEntry>,
    s: Seq<(Prefix, OspfTableEntry)>,
) -> Map<Prefix, OspfTableEntry>
    decreases s.len(),
{
    if s.len() == 0 {
        m
    } else {
        let rest = fill_all(m, s.drop_last());
        if rest.contains_key(s.last().0) {
            rest
        } else {
            rest.insert(s.last().0, s.last().1)
        }
    }
}

fn enter_entries(table: &mut Table, s: &Vec<(Prefix, OspfTableEntry)>)
    ensures
        final(table)@ == enter_all(old(table)@, s@),
{
    let mut i: usize = 0;
    while i < s.len()
        invariant
            i <= s@.len(),
            table@ == enter_all(old(table)@, s@.take(i as int)),
        decreases s@.len() - i,
    {
        assert(s@.take(i + 1).drop_last() == s@.take(i as int));
        let stays: bool = match table.get(&s[i].0) {
            Some(prev) => !s[i].1.beats(prev),
            None => false,
        };
        if !stays {
            table.insert(s[i].0, s[i].1);
        }
        i = i + 1;
    }
    assert(s@.take(s@.len() as int) == s@);
}

fn fill_entries(table: &mut Table, s: &Vec<(Prefix, OspfTableEntry)>)
    ensures
        final(table)@ == fill_all(old(table)@, s@),
{
    let mut i: usize = 0;
    while i < s.len()
        invariant
            i <= s@.len(),
            table@ == fill_all(old(table)@, s@.take(i as int)),
        decreases s@.len() - i,
    {
        assert(s@.take(i + 1).drop_last() == s@.take(i as int));
        if !table.contains_key(&s[i].0) {
            table.insert(s[i].0, s[i].1);
        }
        i = i + 1;
    }
    assert(s@.take(s@.len() as int) == s@);
}

/// The forwarding address of an OSPFv2 external, 0 meaning none.
pub open spec fn forwarding(addr: u32) -> Option<IpAddr> {
    if addr == 0 {
        None
    } else {
        Some(IpAddr::V4(addr))
    }
}

/// Entry of an OSPFv2 intra-area network.
pub open spec fn intra_entry() -> spec_fn(IntraRoute) -> Seq<(Prefix, OspfTableEntry)> {
    |r: IntraRoute| seq![(r.prefix, OspfTableEntry::plain(r.metric, OspfKind::Intra))]
}

/// Entry of an OSPFv3 intra-area prefix, which carries its next hop.
pub open spec fn intra_v3_entry() -> spec_fn(IntraRoute) -> Seq<(Prefix, OspfTableEntry)> {
    |r: IntraRoute|
        seq![
            (
                r.prefix,
                OspfTableEntry {
                    next_hop: r.next_hop,
                    ..OspfTableEntry::plain(r.metric, OspfKind::Intra)
                },
            ),
        ]
}

/// Entry of a locator; only algorithm 0 is supported.
pub open spec fn locator_entry() -> spec_fn(Locator) -> Seq<(Prefix, OspfTableEntry)> {
    |r: Locator|
        one_if(
            r.algorithm == 0,
            (
                r.prefix,
                OspfTableEntry {
                    next_hop: r.next_hop,
                    ..OspfTableEntry::plain(r.metric, OspfKind::Intra)
                },
            ),
        )
}

/// Entry of a summary in an OSPFv2 area; where summaries are suppressed only
/// the default counts.
pub open spec fn inter_entry(kind: OspfAreaType) -> spec_fn(SummaryRoute) -> Seq<
    (Prefix, OspfTableEntry),
> {
    |r: SummaryRoute|
        one_if(
            !(kind.suppresses_summaries() && r.prefix.prefix_len != 0),
            (
                r.prefix,
                OspfTableEntry::plain(
                    r.metric,
                    OspfKind::Inter { border_router: or_zero(r.border_router) },
                ),
            ),
        )
}

/// Entry of a summary in an OSPFv3 area, which carries its next hop.
pub open spec fn inter_v3_entry(kind: OspfAreaType) -> spec_fn(SummaryRoute) -> Seq<
    (Prefix, OspfTableEntry),
> {
    |r: SummaryRoute|
        one_if(
            !(kind.suppresses_summaries() && r.prefix.prefix_len != 0),
            (
                r.prefix,
                OspfTableEntry {
                    next_hop: r.next_hop,
                    ..OspfTableEntry::plain(
                        r.metric,
                        OspfKind::Inter { border_router: or_zero(r.border_router) },
                    )
                },
            ),
        )
}

/// Entry of an OSPFv2 external destination.
pub open spec fn external_entry() -> spec_fn(ExternalRoute) -> Seq<(Prefix, OspfTableEntry)> {
    |r: ExternalRoute|
        seq![
            (
                r.prefix,
                OspfTableEntry::plain(
                    r.metric,
                    OspfKind::External {
                        metric_type: r.metric_type,
                        asbr: r.asbr,
                        forwarding_addr: forwarding(r.forwarding_addr),
                        internal_cost: r.internal_cost,
                    },
                ),
            ),
        ]
}

/// Entry of an OSPFv3 external destination.
pub open spec fn external_v3_entry() -> spec_fn(ExternalRouteV3) -> Seq<(Prefix, OspfTableEntry)> {
    |r: ExternalRouteV3|
        seq![
            (
                r.prefix,
                OspfTableEntry {
                    next_hop: r.next_hop,
                    ..OspfTableEntry::plain(
                        r.metric,
                        OspfKind::External {
                            metric_type: r.metric_type,
                            asbr: r.asbr,
                            forwarding_addr: r.forwarding_addr,
                            internal_cost: r.internal_cost,
                        },
                    )
                },
            ),
        ]
}

/// The external destinations an OSPFv2 area contributes: from type-5 LSAs in
/// a normal area, from type-7 LSAs in a not-so-stubby one, none in a stub.
pub open spec fn area_externals(kind: OspfAreaType, facts: SpfFacts) -> Seq<ExternalRoute> {
    match kind {
        OspfAreaType::Normal => facts.externals@,
        OspfAreaType::Nssa { .. } => facts.nssa_externals@,
        OspfAreaType::Stub { .. } => Seq::empty(),
    }
}

/// Everything that competes for the table of an OSPFv2 area: intra-area
/// networks, then summaries, then externals.
pub open spec fn candidates_v2(kind: OspfAreaType, facts: SpfFacts) -> Seq<
    (Prefix, OspfTableEntry),
> {
    gather(facts.intra@, intra_entry()) + gather(facts.summaries@, inter_entry(kind)) + gather(
        area_externals(kind, facts),
        external_entry(),
    )
}

/// The table of an OSPFv2 area: of the candidates for a prefix, the first that
/// no other beats.
pub open spec fn table_v2(kind: OspfAreaType, facts: SpfFacts) -> Map<Prefix, OspfTableEntry> {
    enter_all(Map::empty(), candidates_v2(kind, facts))
}

/// The intra- and inter-area part of an OSPFv3 area's table. Locators only
/// fill prefixes without an intra-area route, whatever their metric.
pub open spec fn internal_table_v3(
    kind: OspfAreaType,
    facts: SpfFacts,
    locators: bool,
) -> Map<Prefix, OspfTableEntry> {
    let prefixes = enter_all(Map::empty(), gather(facts.intra@, intra_v3_entry()));
    let located = if locators {
        fill_all(prefixes, gather(facts.locators@, locator_entry()))
    } else {
        prefixes
    };
    enter_all(located, gather(facts.summaries@, inter_v3_entry(kind)))
}

/// The table of an OSPFv3 area.
pub open spec fn table_v3(
    kind: OspfAreaType,
    facts: SpfFacts,
    locators: bool,
) -> Map<Prefix, OspfTableEntry> {
    enter_all(
        internal_table_v3(kind, facts, locators),
        gather(facts.externals_v3@, external_v3_entry()),
    )
}

/// Whether locators of an algorithm are installed.
pub fn ospf_srv6_algorithm_supported(algorithm: u8) -> (b: bool)
    ensures
        b == (algorithm == 0),
{
    algorithm == 0
}

fn intra_entries(routes: &Vec<IntraRoute>, v3: bool) -> (r: Vec<(Prefix, OspfTableEntry)>)
    ensures
        r@ == gather(routes@, if v3 {
            intra_v3_entry()
        } else {
            intra_entry()
        }),
{
    let ghost f = if v3 {
        intra_v3_entry()
    } else {
        intra_entry()
    };
    let mut r: Vec<(Prefix, OspfTableEntry)> = Vec::new();
    let mut i: usize = 0;
    proof {
        gather_whole(routes@, f);
    }
    while i < routes.len()
        invariant
            i <= routes@.len(),
            f == (if v3 {
                intra_v3_entry()
            } else {
                intra_entry()
            }),
            r@ == gather(routes@.take(i as int), f),
        decreases routes@.len() - i,
    {
        proof {
            gather_step(routes@, i as int, f);
        }
        let x = routes[i];
        if v3 {
            r.push((x.prefix, OspfTableEntry::intra_v3(x.metric, x.next_hop)));
        } else {
            r.push((x.prefix, OspfTableEntry::intra(x.metric)));
        }
        i = i + 1;
    }
    r
}

fn locator_entries(routes: &Vec<Locator>) -> (r: Vec<(Prefix, OspfTableEntry)>)
    ensures
        r@ == gather(routes@, locator_entry()),
{
    let mut r: Vec<(Prefix, OspfTableEntry)> = Vec::new();
    let mut i: usize = 0;
    proof {
        gather_whole(routes@, locator_entry());
    }
    while i < routes.len()
        invariant
            i <= routes@.len(),
            r@ == gather(routes@.take(i as int), locator_entry()),
        decreases routes@.len() - i,
    {
        proof {
            gather_step(routes@, i as int, locator_entry());
        }
        let x = routes[i];
        if ospf_srv6_algorithm_supported(x.algorithm) {
            r.push((x.prefix, OspfTableEntry::intra_v3(x.metric, x.next_hop)));
        }
        i = i + 1;
    }
    r
}

fn summary_entries(kind: &OspfAreaType, routes: &Vec<SummaryRoute>, v3: bool) -> (r: Vec<
    (Prefix, OspfTableEntry),
>)
    ensures
        r@ == gather(routes@, if v3 {
            inter_v3_entry(*kind)
        } else {
            inter_entry(*kind)
        }),
{
    let ghost f = if v3 {
        inter_v3_entry(*kind)
    } else {
        inter_entry(*kind)
    };
    let mut r: Vec<(Prefix, OspfTableEntry)> = Vec::new();
    let mut i: usize = 0;
    proof {
        gather_whole(routes@, f);
    }
    while i < routes.len()
        invariant
            i <= routes@.len(),
            f == (if v3 {
                inter_v3_entry(*kind)
            } else {
                inter_entry(*kind)
            }),
            r@ == gather(routes@.take(i as int), f),
        decreases routes@.len() - i,
    {
        proof {
            gather_step(routes@, i as int, f);
        }
        let x = routes[i];
        if !(kind.no_summary() && x.prefix.prefix_len != 0) {
            let mut e = OspfTableEntry::inter(x.metric, x.border_router);
            if v3 {
                e.next_hop = x.next_hop;
            }
            r.push((x.prefix, e));
        }
        i = i + 1;
    }
    r
}

fn external_entries(routes: &Vec<ExternalRoute>) -> (r: Vec<(Prefix, OspfTableEntry)>)
    ensures
        r@ == gather(routes@, external_entry()),
{
    let mut r: Vec<(Prefix, OspfTableEntry)> = Vec::new();
    let mut i: usize = 0;
    proof {
        gather_whole(routes@, external_entry());
    }
    while i < routes.len()
        invariant
            i <= routes@.len(),
            r@ == gather(routes@.take(i as int), external_entry()),
        decreases routes@.len() - i,
    {
        proof {
            gather_step(routes@, i as int, external_entry());
        }
        let x = routes[i];
        let fa = if x.forwarding_addr != 0 {
            Some(IpAddr::V4(x.forwarding_addr))
        } else {
            None
        };
        r.push(
            (
                x.prefix,
                OspfTableEntry::external(x.metric, x.metric_type, x.asbr, fa, x.internal_cost),
            ),
        );
        i = i + 1;
    }
    r
}

fn external_v3_entries(routes: &Vec<ExternalRouteV3>) -> (r: Vec<(Prefix, OspfTableEntry)>)
    ensures
        r@ == gather(routes@, external_v3_entry()),
{
    let mut r: Vec<(Prefix, OspfTableEntry)> = Vec::new();
    let mut i: usize = 0;
    proof {
        gather_whole(routes@, external_v3_entry());
    }
    while i < routes.len()
        invariant
            i <= routes@.len(),
            r@ == gather(routes@.take(i as int), external_v3_entry()),
        decreases routes@.len() - i,
    {
        proof {
            gather_step(routes@, i as int, external_v3_entry());
        }
        let x = routes[i];
        let mut e = OspfTableEntry::external(
            x.metric,
            x.metric_type,
            x.asbr,
            x.forwarding_addr,
            x.internal_cost,
        );
        e.next_hop = x.next_hop;
        r.push((x.prefix, e));
        i = i + 1;
    }
    r
}

/// Builds the table of an OSPFv2 area.
pub fn ospf_area_table(kind: &OspfAreaType, facts: &SpfFacts) -> (table: Table)
    ensures
        table@ == table_v2(*kind, *facts),
{
    let mut table: Table = OrdMap::new();
    let mut all = intra_entries(&facts.intra, false);
    all.append(&mut summary_entries(kind, &facts.summaries, false));
    match kind {
        OspfAreaType::Normal => {
            all.append(&mut external_entries(&facts.externals));
        },
        OspfAreaType::Nssa { .. } => {
            all.append(&mut external_entries(&facts.nssa_externals));
        },
        OspfAreaType::Stub { .. } => {
            proof {
                gather_whole(Seq::<ExternalRoute>::empty(), external_entry());
            }
        },
    }
    assert(all@ =~= candidates_v2(*kind, *facts));
    enter_entries(&mut table, &all);
    table
}

/// Builds the intra- and inter-area part of an OSPFv3 area's table.
pub fn ospf_internal_table_v3(kind: &OspfAreaType, facts: &SpfFacts, locators: bool) -> (table:
    Table)
    ensures
        table@ == internal_table_v3(*kind, *facts, locators),
{
    let mut table: Table = OrdMap::new();
    enter_entries(&mut table, &intra_entries(&facts.intra, true));
    if locators {
        fill_entries(&mut table, &locator_entries(&facts.locators));
    }
    enter_entries(&mut table, &summary_entries(kind, &facts.summaries, true));
    table
}

/// Builds the table of an OSPFv3 area.
pub fn ospf_area_table_v3(kind: &OspfAreaType, facts: &SpfFacts, locators: bool) -> (table: Table)
    ensures
        table@ == table_v3(*kind, *facts, locators),
{
    let mut table = ospf_internal_table_v3(kind, facts, locators);
    enter_entries(&mut table, &external_v3_entries(&facts.externals_v3));
    table
}

/// The first intra-area route to `p` of the lowest metric.
pub open spec fn best_intra(routes: Seq<IntraRoute>, p: Prefix) -> Option<IntraRoute>
    decreases routes.len(),
{
    if routes.len() == 0 {
        None
    } else {
        let last = routes.last();
        match best_intra(routes.drop_last(), p) {
            Some(r) => if last.prefix == p && last.metric < r.metric {
                Some(last)
            } else {
                Some(r)
            },
            None => if last.prefix == p {
                Some(last)
            } else {
                None
            },
        }
    }
}

/// The next hop of the best intra-area route to `p`.
pub open spec fn intra_next_hop(routes: Seq<IntraRoute>, p: Prefix) -> Option<IpAddr> {
    match best_intra(routes, p) {
        Some(r) => r.next_hop,
        None => None,
    }
}

fn find_intra_next_hop(routes: &Vec<IntraRoute>, p: Prefix) -> (nh: Option<IpAddr>)
    ensures
        nh == intra_next_hop(routes@, p),
{
    let mut best: Option<IntraRoute> = None;
    let mut i: usize = 0;
    while i < routes.len()
        invariant
            i <= routes@.len(),
            best == best_intra(routes@.take(i as int), p),
        decreases routes@.len() - i,
    {
        assert(routes@.take(i + 1).drop_last() == routes@.take(i as int));
        let x = routes[i];
        let better: bool = match best {
            Some(r) => x.metric < r.metric,
            None => true,
        };
        if x.prefix == p && better {
            best = Some(x);
        }
        i = i + 1;
    }
    assert(routes@.take(routes@.len() as int) == routes@);
    match best {
        Some(r) => r.next_hop,
        None => None,
    }
}

/// An entry with the label its prefix resolves to. A prefix segment brings
/// its own first hop; a mapping-server label rides the route's own path, that
/// is toward the border router of an inter-area entry. External entries carry
/// no label.
pub open spec fn labelled(facts: SpfFacts, p: Prefix, e: OspfTableEntry) -> OspfTableEntry {
    if e.kind is External {
        e
    } else if facts.labels@.contains_key(p) {
        OspfTableEntry {
            label: Some(facts.labels@[p].0),
            label_nh: Some(facts.labels@[p].1),
            ..e
        }
    } else if facts.mapping_labels@.contains_key(p) {
        OspfTableEntry {
            label: Some(facts.mapping_labels@[p]),
            label_nh: match e.kind {
                OspfKind::Inter { border_router } => lookup(facts.next_hops@, border_router),
                _ => intra_next_hop(facts.intra@, p),
            },
            ..e
        }
    } else {
        e
    }
}

/// A table with every entry labelled.
pub open spec fn labelled_table(
    facts: SpfFacts,
    m: Map<Prefix, OspfTableEntry>,
) -> Map<Prefix, OspfTableEntry> {
    Map::new(|p: Prefix| m.contains_key(p), |p: Prefix| labelled(facts, p, m[p]))
}

/// The labelled form of one entry.
pub fn label_entry(facts: &SpfFacts, p: Prefix, e: OspfTableEntry) -> (r: OspfTableEntry)
    ensures
        r == labelled(*facts, p, e),
{
    match e.kind {
        OspfKind::External { .. } => {
            return e;
        },
        _ => {},
    }
    if let Some((label, nh)) = facts.labels.get(&p) {
        let mut r = e;
        r.label = Some(*label);
        r.label_nh = Some(*nh);
        return r;
    }
    if let Some(label) = facts.mapping_labels.get(&p) {
        let mut r = e;
        r.label = Some(*label);
        r.label_nh = match e.kind {
            OspfKind::Inter { border_router } => match facts.next_hops.get(&border_router) {
                Some(nh) => Some(*nh),
                None => None,
            },
            _ => find_intra_next_hop(&facts.intra, p),
        };
        return r;
    }
    e
}

/// Attaches labels to the entries of a table; which routes are in it and how
/// they compare is untouched.
pub fn ospf_attach_sr_labels(table: Table, facts: &SpfFacts) -> (r: Table)
    ensures
        r@ == labelled_table(*facts, table@),
{
    let mut out: Table = OrdMap::new();
    let n: usize = table.len();
    let mut i: usize = 0;
    while i < n
        invariant
            i <= n == table.entries().len(),
            crate::ordmap::ordered(table.entries()),
            forall|p: Prefix|
                #![trigger out@.contains_key(p)]
                out@.contains_key(p) == crate::ordmap::has_key(table.entries().take(i as int), p),
            forall|p: Prefix|
                #![trigger out@[p]]
                out@.contains_key(p) ==> out@[p] == labelled(*facts, p, table@[p]),
        decreases n - i,
    {
        let p = table.key_at(i);
        let e = label_entry(facts, p, *table.value_at(i));
        let ghost before = out@;
        out.insert(p, e);
        assert forall|q: Prefix| #![trigger out@.contains_key(q)] out@.contains_key(q)
            == crate::ordmap::has_key(table.entries().take(i + 1), q) by {
            let s = table.entries();
            if crate::ordmap::has_key(s.take(i as int), q) {
                let j = crate::ordmap::key_index(s.take(i as int), q);
                assert(s.take(i + 1)[j].0 == q);
            }
            if crate::ordmap::has_key(s.take(i + 1), q) && q != p {
                let j = crate::ordmap::key_index(s.take(i + 1), q);
                assert(s.take(i as int)[j].0 == q);
            }
            assert(s.take(i + 1)[i as int].0 == p);
            assert(before.contains_key(q) == crate::ordmap::has_key(s.take(i as int), q));
        }
        i = i + 1;
    }
    assert(table.entries().take(n as int) == table.entries());
    assert forall|p: Prefix| out@.contains_key(p) == table@.contains_key(p) by {
        assert(out@.contains_key(p) == crate::ordmap::has_key(table.entries(), p));
    }
    assert(out@ =~= labelled_table(*facts, table@));
    out
}

proof fn lemma_enter_all(
    m: Map<Prefix, OspfTableEntry>,
    s: Seq<(Prefix, OspfTableEntry)>,
    p: Prefix,
)
    ensures
        enter_all(m, s).contains_key(p) ==> (m.contains_key(p) && enter_all(m, s)[p] == m[p])
            || s.contains((p, enter_all(m, s)[p])),
        m.contains_key(p) ==> enter_all(m, s).contains_key(p) && !m[p].preferred(
            enter_all(m, s)[p],
        ),
        forall|i: int|
            0 <= i < s.len() && (#[trigger] s[i]).0 == p ==> enter_all(m, s).contains_key(p)
                && !s[i].1.preferred(enter_all(m, s)[p]),
    decreases s.len(),
{
    if s.len() > 0 {
        let front = s.drop_last();
        lemma_enter_all(m, front, p);
        let rest = enter_all(m, front);
        assert(s[s.len() - 1] == s.last());
        if front.contains((p, rest[p])) {
            let j = choose|j: int| 0 <= j < front.len() && front[j] == (p, rest[p]);
            assert(s[j] == (p, rest[p]));
        }
        assert forall|i: int| 0 <= i < s.len() && (#[trigger] s[i]).0 == p implies enter_all(
            m,
            s,
        ).contains_key(p) && !s[i].1.preferred(enter_all(m, s)[p]) by {
            if i < s.len() - 1 {
                assert(front[i] == s[i]);
            }
        }
    }
}

/// The table of an OSPFv2 area holds the best candidate of each prefix: the
/// entry is one of the candidates, and no candidate for its prefix beats it.
pub proof fn tables_hold_the_best(kind: OspfAreaType, facts: SpfFacts, p: Prefix)
    ensures
        table_v2(kind, facts).contains_key(p) ==> candidates_v2(kind, facts).contains(
            (p, table_v2(kind, facts)[p]),
        ),
        forall|i: int|
            0 <= i < candidates_v2(kind, facts).len() && (#[trigger] candidates_v2(
                kind,
                facts,
            )[i]).0 == p ==> table_v2(kind, facts).contains_key(p) && !candidates_v2(
                kind,
                facts,
            )[i].1.preferred(table_v2(kind, facts)[p]),
{
    lemma_enter_all(Map::empty(), candidates_v2(kind, facts), p);
}

/// Labelling never changes how two entries compare.
pub proof fn labels_do_not_affect_preference(
    facts: SpfFacts,
    p: Prefix,
    a: OspfTableEntry,
    b: OspfTableEntry,
)
    ensures
        labelled(facts, p, a).preferred(b) == a.preferred(b),
        b.preferred(labelled(facts, p, a)) == b.preferred(a),
{
}

/// The table one area contributes to the merged view. Labels are attached in
/// OSPFv2 areas when segment routing is received; locators are considered in
/// OSPFv3 areas when their reception is on.
pub open spec fn contributed(
    view: AreaView,
    sr_receive: bool,
    srv6_receive: bool,
) -> Map<Prefix, OspfTableEntry> {
    if view.protocol is Ospfv3 {
        table_v3(view.kind, view.facts, srv6_receive)
    } else if sr_receive {
        labelled_table(view.facts, table_v2(view.kind, view.facts))
    } else {
        table_v2(view.kind, view.facts)
    }
}

/// Builds the table one area contributes.
pub fn contributed_table(view: &AreaView, sr_receive: bool, srv6_receive: bool) -> (t: Table)
    ensures
        t@ == contributed(*view, sr_receive, srv6_receive),
{
    if view.protocol == crate::route::Protocol::Ospfv3 {
        ospf_area_table_v3(&view.kind, &view.facts, srv6_receive)
    } else {
        let t = ospf_area_table(&view.kind, &view.facts);
        if sr_receive {
            ospf_attach_sr_labels(t, &view.facts)
        } else {
            t
        }
    }
}

/// Everything an OSPFv2 area may enter into its table, by where it comes from.
proof fn lemma_candidates_v2(kind: OspfAreaType, facts: SpfFacts)
    ensures
        forall|i: int|
            #![trigger facts.intra@[i]]
            0 <= i < facts.intra@.len() ==> candidates_v2(kind, facts).contains(
                intra_entry()(facts.intra@[i])[0],
            ),
        forall|i: int|
            #![trigger facts.summaries@[i]]
            0 <= i < facts.summaries@.len() && inter_entry(kind)(facts.summaries@[i]).len() > 0
                ==> candidates_v2(kind, facts).contains(inter_entry(kind)(facts.summaries@[i])[0]),
        forall|i: int|
            #![trigger area_externals(kind, facts)[i]]
            0 <= i < area_externals(kind, facts).len() ==> candidates_v2(kind, facts).contains(
                external_entry()(area_externals(kind, facts)[i])[0],
            ),
{
    let a = gather(facts.intra@, intra_entry());
    let b = gather(facts.summaries@, inter_entry(kind));
    let ext = area_externals(kind, facts);
    let c = gather(ext, external_entry());
    let all = candidates_v2(kind, facts);
    assert forall|x: (Prefix, OspfTableEntry)|
        a.contains(x) || b.contains(x) || c.contains(x) implies #[trigger] all.contains(x) by {
        if a.contains(x) {
            let j = choose|j: int| 0 <= j < a.len() && a[j] == x;
            assert(all[j] == x);
        } else if b.contains(x) {
            let j = choose|j: int| 0 <= j < b.len() && b[j] == x;
            assert(all[a.len() + j] == x);
        } else {
            let j = choose|j: int| 0 <= j < c.len() && c[j] == x;
            assert(all[a.len() + b.len() + j] == x);
        }
    }
    assert forall|i: int| #![trigger facts.intra@[i]] 0 <= i < facts.intra@.len() implies
        all.contains(intra_entry()(facts.intra@[i])[0]) by {
        let x = intra_entry()(facts.intra@[i])[0];
        assert(intra_entry()(facts.intra@[i]).contains(x));
        gather_includes(facts.intra@, intra_entry(), i, x);
    }
    assert forall|i: int|
        #![trigger facts.summaries@[i]]
        0 <= i < facts.summaries@.len() && inter_entry(kind)(facts.summaries@[i]).len()
            > 0 implies all.contains(inter_entry(kind)(facts.summaries@[i])[0]) by {
        let x = inter_entry(kind)(facts.summaries@[i])[0];
        assert(inter_entry(kind)(facts.summaries@[i]).contains(x));
        gather_includes(facts.summaries@, inter_entry(kind), i, x);
    }
    assert forall|i: int| #![trigger ext[i]] 0 <= i < ext.len() implies all.contains(
        external_entry()(ext[i])[0],
    ) by {
        let x = external_entry()(ext[i])[0];
        assert(external_entry()(ext[i]).contains(x));
        gather_includes(ext, external_entry(), i, x);
    }
}

/// A network inside an area is in the area's table as such, at the lowest
/// metric any of its routes has, whatever summaries and externals say.
pub proof fn intra_area_networks_are_in_the_table(
    kind: OspfAreaType,
    facts: SpfFacts,
    locators: bool,
    i: int,
)
    requires
        0 <= i < facts.intra@.len(),
    ensures
        ({
            let r = facts.intra@[i];
            &&& table_v2(kind, facts).contains_key(r.prefix)
            &&& table_v2(kind, facts)[r.prefix].kind is Intra
            &&& table_v2(kind, facts)[r.prefix].metric <= r.metric
            &&& table_v3(kind, facts, locators).contains_key(r.prefix)
            &&& table_v3(kind, facts, locators)[r.prefix].kind is Intra
            &&& table_v3(kind, facts, locators)[r.prefix].metric <= r.metric
            &&& internal_table_v3(kind, facts, locators).contains_key(r.prefix)
            &&& internal_table_v3(kind, facts, locators)[r.prefix].kind is Intra
            &&& internal_table_v3(kind, facts, locators)[r.prefix].metric <= r.metric
        }),
{
    let p = facts.intra@[i].prefix;
    lemma_candidates_v2(kind, facts);
    lemma_enter_all(Map::empty(), candidates_v2(kind, facts), p);
    let x = intra_entry()(facts.intra@[i])[0];
    let j = choose|j: int|
        0 <= j < candidates_v2(kind, facts).len() && candidates_v2(kind, facts)[j] == x;
    assert(candidates_v2(kind, facts)[j].0 == p);
    lemma_stages_v3(kind, facts, locators, p);
    let s = gather(facts.intra@, intra_v3_entry());
    let y = intra_v3_entry()(facts.intra@[i])[0];
    assert(intra_v3_entry()(facts.intra@[i]).contains(y));
    gather_includes(facts.intra@, intra_v3_entry(), i, y);
    let k = choose|k: int| 0 <= k < s.len() && s[k] == y;
    assert(s[k].0 == p);
}

proof fn lemma_fill_all(
    m: Map<Prefix, OspfTableEntry>,
    s: Seq<(Prefix, OspfTableEntry)>,
    p: Prefix,
)
    ensures
        m.contains_key(p) ==> fill_all(m, s).contains_key(p) && fill_all(m, s)[p] == m[p],
        !m.contains_key(p) && fill_all(m, s).contains_key(p) ==> s.contains(
            (p, fill_all(m, s)[p]),
        ),
        forall|i: int|
            0 <= i < s.len() && (#[trigger] s[i]).0 == p ==> fill_all(m, s).contains_key(p),
    decreases s.len(),
{
    if s.len() > 0 {
        let front = s.drop_last();
        lemma_fill_all(m, front, p);
        let rest = fill_all(m, front);
        assert(s[s.len() - 1] == s.last());
        if front.contains((p, rest[p])) {
            let j = choose|j: int| 0 <= j < front.len() && front[j] == (p, rest[p]);
            assert(s[j] == (p, rest[p]));
        }
        assert forall|i: int| 0 <= i < s.len() && (#[trigger] s[i]).0 == p implies fill_all(
            m,
            s,
        ).contains_key(p) by {
            if i < s.len() - 1 {
                assert(front[i] == s[i]);
            }
        }
    }
}

/// How the entry of an OSPFv3 table passes its stages.
proof fn lemma_stages_v3(kind: OspfAreaType, facts: SpfFacts, locators: bool, p: Prefix)
    ensures
        ({
            let s = gather(facts.intra@, intra_v3_entry());
            let l = gather(facts.locators@, locator_entry());
            let b = gather(facts.summaries@, inter_v3_entry(kind));
            let c = gather(facts.externals_v3@, external_v3_entry());
            let first = enter_all(Map::empty(), s);
            let located = if locators {
                fill_all(first, l)
            } else {
                first
            };
            let inner = internal_table_v3(kind, facts, locators);
            let whole = table_v3(kind, facts, locators);
            &&& first.contains_key(p) ==> s.contains((p, first[p])) && located.contains_key(p)
                && located[p] == first[p]
            &&& forall|i: int|
                0 <= i < s.len() && (#[trigger] s[i]).0 == p ==> first.contains_key(p)
                    && !s[i].1.preferred(first[p])
            &&& located.contains_key(p) && !first.contains_key(p) ==> locators && l.contains(
                (p, located[p]),
            )
            &&& located.contains_key(p) ==> inner.contains_key(p) && !located[p].preferred(
                inner[p],
            )
            &&& inner.contains_key(p) ==> b.contains((p, inner[p])) || (located.contains_key(p)
                && inner[p] == located[p])
            &&& forall|i: int|
                0 <= i < b.len() && (#[trigger] b[i]).0 == p ==> inner.contains_key(p)
                    && !b[i].1.preferred(inner[p])
            &&& inner.contains_key(p) ==> whole.contains_key(p) && !inner[p].preferred(whole[p])
            &&& whole.contains_key(p) ==> c.contains((p, whole[p])) || (inner.contains_key(p)
                && whole[p] == inner[p])
            &&& forall|i: int|
                0 <= i < c.len() && (#[trigger] c[i]).0 == p ==> whole.contains_key(p)
                    && !c[i].1.preferred(whole[p])
            &&& locators ==> forall|i: int|
                0 <= i < l.len() && (#[trigger] l[i]).0 == p ==> located.contains_key(p)
        }),
{
    let s = gather(facts.intra@, intra_v3_entry());
    let l = gather(facts.locators@, locator_entry());
    let b = gather(facts.summaries@, inter_v3_entry(kind));
    let c = gather(facts.externals_v3@, external_v3_entry());
    let first = enter_all(Map::empty(), s);
    let located = if locators {
        fill_all(first, l)
    } else {
        first
    };
    lemma_enter_all(Map::empty(), s, p);
    lemma_fill_all(first, l, p);
    lemma_enter_all(located, b, p);
    lemma_enter_all(internal_table_v3(kind, facts, locators), c, p);
}

/// A network of another area is in the table of an area that takes its
/// summary, unless the network is the area's own: of several summaries the
/// one of the lowest metric counts, whatever externals say. An area without
/// summaries takes the default alone.
pub proof fn summaries_are_in_the_table(
    kind: OspfAreaType,
    facts: SpfFacts,
    locators: bool,
    i: int,
)
    requires
        0 <= i < facts.summaries@.len(),
        match kind {
            OspfAreaType::Normal => true,
            OspfAreaType::Stub { no_summary, .. } => !no_summary,
            OspfAreaType::Nssa { no_summary, .. } => !no_summary,
        } || facts.summaries@[i].prefix.prefix_len == 0,
    ensures
        ({
            let r = facts.summaries@[i];
            let t = table_v2(kind, facts);
            let u = table_v3(kind, facts, locators);
            let v = internal_table_v3(kind, facts, locators);
            &&& t.contains_key(r.prefix) && !(t[r.prefix].kind is External)
            &&& t[r.prefix].kind is Inter ==> t[r.prefix].metric <= r.metric
            &&& u.contains_key(r.prefix) && !(u[r.prefix].kind is External)
            &&& u[r.prefix].kind is Inter ==> u[r.prefix].metric <= r.metric
            &&& v.contains_key(r.prefix) && !(v[r.prefix].kind is External)
            &&& v[r.prefix].kind is Inter ==> v[r.prefix].metric <= r.metric
        }),
{
    let r = facts.summaries@[i];
    let p = r.prefix;
    lemma_candidates_v2(kind, facts);
    lemma_enter_all(Map::empty(), candidates_v2(kind, facts), p);
    let x = inter_entry(kind)(r)[0];
    assert(candidates_v2(kind, facts).contains(x));
    let j = choose|j: int|
        0 <= j < candidates_v2(kind, facts).len() && candidates_v2(kind, facts)[j] == x;
    assert(candidates_v2(kind, facts)[j].0 == p);
    lemma_stages_v3(kind, facts, locators, p);
    let b = gather(facts.summaries@, inter_v3_entry(kind));
    let y = inter_v3_entry(kind)(r)[0];
    assert(inter_v3_entry(kind)(r).contains(y));
    gather_includes(facts.summaries@, inter_v3_entry(kind), i, y);
    let k = choose|k: int| 0 <= k < b.len() && b[k] == y;
    assert(b[k].0 == p);
}

/// Whether external route data are no better than an entry: the entry is no
/// external, or of a nearer metric type, or of the same at no higher metric
/// and, for type-2 externals of equal metric, at no higher internal cost.
pub open spec fn external_loses(
    metric_type: ExternalMetricType,
    metric: u64,
    internal_cost: u64,
    e: OspfTableEntry,
) -> bool {
    match e.kind {
        OspfKind::External { metric_type: t, internal_cost: c, .. } => if t == metric_type {
            e.metric < metric || e.metric == metric && (t is Type2 ==> c <= internal_cost)
        } else {
            t is Type1
        },
        _ => true,
    }
}

/// An external destination is in the table of an area that carries it, at its
/// nearest path: the type-5 destinations in normal OSPFv2 areas, the type-7
/// destinations in not-so-stubby ones, the destinations of every OSPFv3 area.
pub proof fn externals_are_in_the_table(
    kind: OspfAreaType,
    facts: SpfFacts,
    locators: bool,
    i: int,
)
    ensures
        kind is Normal && 0 <= i < facts.externals@.len() ==> ({
            let r = facts.externals@[i];
            &&& table_v2(kind, facts).contains_key(r.prefix)
            &&& external_loses(
                r.metric_type,
                r.metric,
                r.internal_cost,
                table_v2(kind, facts)[r.prefix],
            )
        }),
        kind is Nssa && 0 <= i < facts.nssa_externals@.len() ==> ({
            let r = facts.nssa_externals@[i];
            &&& table_v2(kind, facts).contains_key(r.prefix)
            &&& external_loses(
                r.metric_type,
                r.metric,
                r.internal_cost,
                table_v2(kind, facts)[r.prefix],
            )
        }),
        0 <= i < facts.externals_v3@.len() ==> ({
            let r = facts.externals_v3@[i];
            &&& table_v3(kind, facts, locators).contains_key(r.prefix)
            &&& external_loses(
                r.metric_type,
                r.metric,
                r.internal_cost,
                table_v3(kind, facts, locators)[r.prefix],
            )
        }),
{
    let ext = area_externals(kind, facts);
    if 0 <= i < ext.len() {
        let p = ext[i].prefix;
        lemma_candidates_v2(kind, facts);
        lemma_enter_all(Map::empty(), candidates_v2(kind, facts), p);
        let x = external_entry()(ext[i])[0];
        assert(candidates_v2(kind, facts).contains(x));
        let j = choose|j: int|
            0 <= j < candidates_v2(kind, facts).len() && candidates_v2(kind, facts)[j] == x;
        assert(candidates_v2(kind, facts)[j].0 == p);
    }
    if 0 <= i < facts.externals_v3@.len() {
        let r = facts.externals_v3@[i];
        lemma_stages_v3(kind, facts, locators, r.prefix);
        let c = gather(facts.externals_v3@, external_v3_entry());
        let y = external_v3_entry()(r)[0];
        assert(external_v3_entry()(r).contains(y));
        gather_includes(facts.externals_v3@, external_v3_entry(), i, y);
        let k = choose|k: int| 0 <= k < c.len() && c[k] == y;
        assert(c[k].0 == r.prefix);
    }
}

/// Every entry of an OSPFv2 table is one of the routes that were found: a
/// network of the area, a summary the area takes, or an external destination
/// it carries, with that route's metric and origin.
pub proof fn table_entries_were_found(kind: OspfAreaType, facts: SpfFacts, p: Prefix) -> (i: int)
    requires
        table_v2(kind, facts).contains_key(p),
    ensures
        ({
            let e = table_v2(kind, facts)[p];
            &&& e.label is None && e.label_nh is None && e.next_hop is None
            &&& match e.kind {
                OspfKind::Intra => {
                    &&& 0 <= i < facts.intra@.len()
                    &&& facts.intra@[i].prefix == p
                    &&& facts.intra@[i].metric == e.metric
                },
                OspfKind::Inter { border_router } => {
                    &&& 0 <= i < facts.summaries@.len()
                    &&& facts.summaries@[i].prefix == p
                    &&& facts.summaries@[i].metric == e.metric
                    &&& facts.summaries@[i].border_router == Some(border_router)
                        || facts.summaries@[i].border_router is None && border_router == 0
                    &&& match kind {
                        OspfAreaType::Normal => true,
                        OspfAreaType::Stub { no_summary, .. } => no_summary ==> p.prefix_len == 0,
                        OspfAreaType::Nssa { no_summary, .. } => no_summary ==> p.prefix_len == 0,
                    }
                },
                OspfKind::External { metric_type, asbr, forwarding_addr, internal_cost } => {
                    let from = if kind is Nssa {
                        facts.nssa_externals@
                    } else {
                        facts.externals@
                    };
                    &&& !(kind is Stub)
                    &&& 0 <= i < from.len()
                    &&& from[i].prefix == p
                    &&& from[i].metric == e.metric
                    &&& from[i].metric_type == metric_type
                    &&& from[i].asbr == asbr
                    &&& from[i].internal_cost == internal_cost
                    &&& match forwarding_addr {
                        Some(a) => a == IpAddr::V4(from[i].forwarding_addr)
                            && from[i].forwarding_addr != 0,
                        None => from[i].forwarding_addr == 0,
                    }
                },
            }
        }),
{
    let all = candidates_v2(kind, facts);
    lemma_enter_all(Map::empty(), all, p);
    let x = (p, table_v2(kind, facts)[p]);
    assert(all.contains(x));
    let j = choose|j: int| 0 <= j < all.len() && all[j] == x;
    let a = gather(facts.intra@, intra_entry());
    let b = gather(facts.summaries@, inter_entry(kind));
    let ext = area_externals(kind, facts);
    let c = gather(ext, external_entry());
    if j < a.len() {
        assert(a[j] == x);
        gather_source(facts.intra@, intra_entry(), x)
    } else if j < a.len() + b.len() {
        assert(b[j - a.len()] == x);
        gather_source(facts.summaries@, inter_entry(kind), x)
    } else {
        assert(c[j - a.len() - b.len()] == x);
        gather_source(ext, external_entry(), x)
    }
}

/// Every entry of an OSPFv3 table is one of the routes that were found, with
/// that route's metric, origin and next hop. A locator of algorithm 0 stands
/// in, where locators count, for a network the area does not know itself.
pub proof fn table_entries_v3_were_found(
    kind: OspfAreaType,
    facts: SpfFacts,
    locators: bool,
    p: Prefix,
) -> (i: int)
    requires
        table_v3(kind, facts, locators).contains_key(p),
    ensures
        ({
            let e = table_v3(kind, facts, locators)[p];
            &&& e.label is None && e.label_nh is None
            &&& match e.kind {
                OspfKind::Intra => {
                    ||| {
                        &&& 0 <= i < facts.intra@.len()
                        &&& facts.intra@[i].prefix == p
                        &&& facts.intra@[i].metric == e.metric
                        &&& facts.intra@[i].next_hop == e.next_hop
                    }
                    ||| {
                        &&& locators
                        &&& forall|j: int|
                            0 <= j < facts.intra@.len() ==> (#[trigger] facts.intra@[j]).prefix
                                != p
                        &&& 0 <= i < facts.locators@.len()
                        &&& facts.locators@[i].algorithm == 0
                        &&& facts.locators@[i].prefix == p
                        &&& facts.locators@[i].metric == e.metric
                        &&& facts.locators@[i].next_hop == e.next_hop
                    }
                },
                OspfKind::Inter { border_router } => {
                    &&& 0 <= i < facts.summaries@.len()
                    &&& facts.summaries@[i].prefix == p
                    &&& facts.summaries@[i].metric == e.metric
                    &&& facts.summaries@[i].next_hop == e.next_hop
                    &&& facts.summaries@[i].border_router == Some(border_router)
                        || facts.summaries@[i].border_router is None && border_router == 0
                    &&& match kind {
                        OspfAreaType::Normal => true,
                        OspfAreaType::Stub { no_summary, .. } => no_summary ==> p.prefix_len == 0,
                        OspfAreaType::Nssa { no_summary, .. } => no_summary ==> p.prefix_len == 0,
                    }
                },
                OspfKind::External { metric_type, asbr, forwarding_addr, internal_cost } => {
                    &&& 0 <= i < facts.externals_v3@.len()
                    &&& facts.externals_v3@[i].prefix == p
                    &&& facts.externals_v3@[i].metric == e.metric
                    &&& facts.externals_v3@[i].metric_type == metric_type
                    &&& facts.externals_v3@[i].asbr == asbr
                    &&& facts.externals_v3@[i].internal_cost == internal_cost
                    &&& facts.externals_v3@[i].forwarding_addr == forwarding_addr
                    &&& facts.externals_v3@[i].next_hop == e.next_hop
                },
            }
        }),
{
    let e = table_v3(kind, facts, locators)[p];
    let x = (p, e);
    lemma_stages_v3(kind, facts, locators, p);
    let s = gather(facts.intra@, intra_v3_entry());
    let l = gather(facts.locators@, locator_entry());
    let b = gather(facts.summaries@, inter_v3_entry(kind));
    let c = gather(facts.externals_v3@, external_v3_entry());
    let first = enter_all(Map::empty(), s);
    if c.contains(x) {
        gather_source(facts.externals_v3@, external_v3_entry(), x)
    } else if b.contains(x) {
        gather_source(facts.summaries@, inter_v3_entry(kind), x)
    } else if first.contains_key(p) {
        gather_source(facts.intra@, intra_v3_entry(), x)
    } else {
        assert forall|j: int| 0 <= j < facts.intra@.len() implies (#[trigger] facts.intra@[j]).prefix
            != p by {
            let y = intra_v3_entry()(facts.intra@[j])[0];
            assert(intra_v3_entry()(facts.intra@[j]).contains(y));
            gather_includes(facts.intra@, intra_v3_entry(), j, y);
            let k = choose|k: int| 0 <= k < s.len() && s[k] == y;
            assert(s[k].0 == y.0);
        }
        gather_source(facts.locators@, locator_entry(), x)
    }
}

/// A locator of algorithm 0 is reachable as a network of its area where
/// locators count.
pub proof fn locators_are_in_the_table(kind: OspfAreaType, facts: SpfFacts, i: int)
    requires
        0 <= i < facts.locators@.len(),
        facts.locators@[i].algorithm == 0,
    ensures
        table_v3(kind, facts, true).contains_key(facts.locators@[i].prefix),
        table_v3(kind, facts, true)[facts.locators@[i].prefix].kind is Intra,
{
    let r = facts.locators@[i];
    let p = r.prefix;
    lemma_stages_v3(kind, facts, true, p);
    let s = gather(facts.intra@, intra_v3_entry());
    let l = gather(facts.locators@, locator_entry());
    let first = enter_all(Map::empty(), s);
    let located = fill_all(first, l);
    let y = locator_entry()(r)[0];
    assert(locator_entry()(r).contains(y));
    gather_includes(facts.locators@, locator_entry(), i, y);
    let k = choose|k: int| 0 <= k < l.len() && l[k] == y;
    assert(l[k].0 == p);
    if first.contains_key(p) {
        let j = gather_source(facts.intra@, intra_v3_entry(), (p, first[p]));
        assert(first[p].kind is Intra);
    } else {
        let j = gather_source(facts.locators@, locator_entry(), (p, located[p]));
        assert(located[p].kind is Intra);
    }
}

proof fn lemma_best_intra(routes: Seq<IntraRoute>, p: Prefix)
    ensures
        best_intra(routes, p) is Some ==> routes.contains(best_intra(routes, p)->0) && best_intra(
            routes,
            p,
        )->0.prefix == p,
        forall|i: int|
            0 <= i < routes.len() && (#[trigger] routes[i]).prefix == p ==> best_intra(
                routes,
                p,
            ) is Some && best_intra(routes, p)->0.metric <= routes[i].metric,
    decreases routes.len(),
{
    if routes.len() > 0 {
        let front = routes.drop_last();
        lemma_best_intra(front, p);
        assert(routes[routes.len() - 1] == routes.last());
        if best_intra(front, p) is Some {
            let r = best_intra(front, p)->0;
            let j = choose|j: int| 0 <= j < front.len() && front[j] == r;
            assert(routes[j] == r);
        }
        assert forall|i: int| 0 <= i < routes.len() && (#[trigger] routes[i]).prefix
            == p implies best_intra(routes, p) is Some && best_intra(routes, p)->0.metric
            <= routes[i].metric by {
            if i < routes.len() - 1 {
                assert(front[i] == routes[i]);
            }
        }
    }
}

/// A label never changes the path: metric, kind and next hop of an entry stay.
/// The label is the prefix segment's own, with the first hop toward its
/// originator, else the one the mapping server assigned, over the path the
/// route itself takes: toward its border router, or over the nearest route to
/// a network of the area. Externals and unlabelled prefixes stay as they are.
pub proof fn labels_ride_the_path(facts: SpfFacts, p: Prefix, e: OspfTableEntry)
    ensures
        labelled(facts, p, e).metric == e.metric,
        labelled(facts, p, e).kind == e.kind,
        labelled(facts, p, e).next_hop == e.next_hop,
        e.kind is External ==> labelled(facts, p, e) == e,
        !facts.labels@.contains_key(p) && !facts.mapping_labels@.contains_key(p) ==> labelled(
            facts,
            p,
            e,
        ) == e,
        !(e.kind is External) && facts.labels@.contains_key(p) ==> (
        labelled(facts, p, e).label->0,
        labelled(facts, p, e).label_nh->0,
        ) == facts.labels@[p] && labelled(facts, p, e).label is Some && labelled(
            facts,
            p,
            e,
        ).label_nh is Some,
        !(e.kind is External) && !facts.labels@.contains_key(p)
            && facts.mapping_labels@.contains_key(p) ==> labelled(facts, p, e).label == Some(
            facts.mapping_labels@[p],
        ),
        !facts.labels@.contains_key(p) && facts.mapping_labels@.contains_key(p) ==> match e.kind {
            OspfKind::Inter { border_router } => labelled(facts, p, e).label_nh == (
            if facts.next_hops@.contains_key(border_router) {
                Some(facts.next_hops@[border_router])
            } else {
                None
            }),
            OspfKind::Intra => forall|i: int|
                0 <= i < facts.intra@.len() && (#[trigger] facts.intra@[i]).prefix == p ==> exists|
                    j: int,
                |
                    0 <= j < facts.intra@.len() && (#[trigger] facts.intra@[j]).prefix == p
                        && facts.intra@[j].metric <= facts.intra@[i].metric
                        && facts.intra@[j].next_hop == labelled(facts, p, e).label_nh,
            OspfKind::External { .. } => true,
        },
{
    lemma_best_intra(facts.intra@, p);
    if e.kind is Intra {
        assert forall|i: int| 0 <= i < facts.intra@.len() && (#[trigger] facts.intra@[i]).prefix
            == p && !facts.labels@.contains_key(p) && facts.mapping_labels@.contains_key(
            p,
        ) implies exists|j: int|
            0 <= j < facts.intra@.len() && (#[trigger] facts.intra@[j]).prefix == p
                && facts.intra@[j].metric <= facts.intra@[i].metric && facts.intra@[j].next_hop
                == labelled(facts, p, e).label_nh by {
            let r = best_intra(facts.intra@, p)->0;
            let j = choose|j: int| 0 <= j < facts.intra@.len() && facts.intra@[j] == r;
            assert(facts.intra@[j].prefix == p);
        }
    }
}

/// Every entry of the intra- and inter-area part of an OSPFv3 table, locators
/// aside, is a network of the area or a summary that was found.
pub proof fn internal_entries_were_found(kind: OspfAreaType, facts: SpfFacts, p: Prefix) -> (i: int)
    requires
        internal_table_v3(kind, facts, false).contains_key(p),
    ensures
        ({
            let e = internal_table_v3(kind, facts, false)[p];
            match e.kind {
                OspfKind::Intra => {
                    &&& 0 <= i < facts.intra@.len()
                    &&& facts.intra@[i].prefix == p
                    &&& facts.intra@[i].metric == e.metric
                },
                OspfKind::Inter { border_router } => {
                    &&& 0 <= i < facts.summaries@.len()
                    &&& facts.summaries@[i].prefix == p
                    &&& facts.summaries@[i].metric == e.metric
                    &&& facts.summaries@[i].border_router == Some(border_router)
                        || facts.summaries@[i].border_router is None && border_router == 0
                },
                OspfKind::External { .. } => false,
            }
        }),
{
    let x = (p, internal_table_v3(kind, facts, false)[p]);
    lemma_stages_v3(kind, facts, false, p);
    if gather(facts.summaries@, inter_v3_entry(kind)).contains(x) {
        gather_source(facts.summaries@, inter_v3_entry(kind), x)
    } else {
        gather_source(facts.intra@, intra_v3_entry(), x)
    }
}

/// What an area contributes is what its own protocol's table holds, path for
/// path. Labels are only attached to OSPFv2 tables, and only where segment
/// routing is received.
pub proof fn areas_contribute_their_tables(
    view: AreaView,
    sr_receive: bool,
    srv6_receive: bool,
    p: Prefix,
)
    ensures
        ({
            let c = contributed(view, sr_receive, srv6_receive);
            let t = if view.protocol is Ospfv3 {
                table_v3(view.kind, view.facts, srv6_receive)
            } else {
                table_v2(view.kind, view.facts)
            };
            &&& c.contains_key(p) == t.contains_key(p)
            &&& c.contains_key(p) ==> {
                &&& c[p].kind == t[p].kind
                &&& c[p].metric == t[p].metric
                &&& c[p].next_hop == t[p].next_hop
                &&& (view.protocol is Ospfv3 || !sr_receive) ==> c[p].label is None
                    && c[p].label_nh is None
                &&& sr_receive && !(view.protocol is Ospfv3) && !(t[p].kind is External)
                    && view.facts.labels@.contains_key(p) ==> c[p].label == Some(
                    view.facts.labels@[p].0,
                )
            }
        }),
{
    let t = if view.protocol is Ospfv3 {
        table_v3(view.kind, view.facts, srv6_receive)
    } else {
        table_v2(view.kind, view.facts)
    };
    if t.contains_key(p) {
        if view.protocol is Ospfv3 {
            let i = table_entries_v3_were_found(view.kind, view.facts, srv6_receive, p);
        } else {
            let i = table_entries_were_found(view.kind, view.facts, p);
        }
    }
}

} // verus!
