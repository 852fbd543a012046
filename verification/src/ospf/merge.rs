//! The merged view across all areas.

use crate::addr::{NlriFamily, Prefix};
use crate::list::List;
use crate::ordmap::{lookup, map_of, ordered, sorted, OrdMap};
use crate::ordmap::{lemma_entry, lemma_take_step};
use crate::ospf::facts::AreaView;
use crate::ospf::table::{OspfKind, OspfTableEntry};
use crate::ospf::tables::{contributed, contributed_table, Table};
use crate::route::{
    Attributes, Preference, Protocol, Route, RouteKey, RouteOrigin, ORIGIN_OSPF,
};
use crate::value::Value;
use vstd::prelude::*;

verus! {

/// The winning entry for a prefix and the area it comes from.
#[derive(Clone, Copy, Debug, PartialEq, Eq, Structural)]
pub struct Best {
    pub entry: OspfTableEntry,
    pub area: u32,
    pub protocol: Protocol,
}

/// The better of what was found so far and what an area offers; the earlier
/// one stays on a full tie.
pub open spec fn merged(
    prev: Option<Best>,
    offer: Option<OspfTableEntry>,
    area: u32,
    protocol: Protocol,
) -> Option<Best> {
    match (prev, offer) {
        (_, None) => prev,
        (None, Some(e)) => Some(Best { entry: e, area, protocol }),
        (Some(b), Some(e)) => if e.preferred(b.entry) {
            Some(Best { entry: e, area, protocol })
        } else {
            prev
        },
    }
}

/// The winning entry for `p` over areas in ascending order.
pub open spec fn best_at(
    areas: Seq<(u32, AreaView)>,
    sr_receive: bool,
    srv6_receive: bool,
    p: Prefix,
) -> Option<Best>
    decreases areas.len(),
{
    if areas.len() == 0 {
        None
    } else {
        let (id, view) = areas.last();
        merged(
            best_at(areas.drop_last(), sr_receive, srv6_receive, p),
            lookup(contributed(view, sr_receive, srv6_receive), p),
            id,
            view.protocol,
        )
    }
}

/// The family OSPF routes of a protocol version live in.
pub open spec fn ospf_family(p: Protocol) -> NlriFamily {
    if p is Ospfv3 {
        NlriFamily::ipv6_unicast()
    } else {
        NlriFamily::ipv4_unicast()
    }
}

/// The route that the winning entry for a prefix becomes. A labelled entry
/// forwards to the label's first hop, an external one to its forwarding
/// address where it has one.
pub open spec fn ospf_route(p: Prefix, b: Best) -> Route {
    let plain_hop = match b.entry.kind {
        OspfKind::External { forwarding_addr: Some(fa), .. } => Some(fa),
        _ => b.entry.next_hop,
    };
    let labelled = b.entry.label is Some && b.entry.label_nh is Some;
    Route {
        key: RouteKey { prefix: p, family: ospf_family(b.protocol), source: None },
        origin: RouteOrigin { proto: ORIGIN_OSPF, peer: b.area as u64 },
        protocol: b.protocol,
        preference: Preference {
            admin_distance: b.protocol.distance(),
            metric: (b.entry.metric % 0x1_0000_0000) as u32,
        },
        next_hop: if labelled {
            b.entry.label_nh
        } else {
            plain_hop
        },
        attributes: if labelled {
            Attributes {
                labels: List::Cons(b.entry.label->0, Box::new(List::Nil)),
                ..Attributes::none()
            }
        } else {
            Attributes::none()
        },
        age_ms: 0,
        path_id: 0,
        tag: None,
    }
}

/// The route published for key `k`.
pub open spec fn published_at(
    areas: Seq<(u32, AreaView)>,
    sr_receive: bool,
    srv6_receive: bool,
    k: RouteKey,
) -> Option<Route> {
    match best_at(areas, sr_receive, srv6_receive, k.prefix) {
        Some(b) => if ospf_family(b.protocol) == k.family && k.source is None {
            Some(ospf_route(k.prefix, b))
        } else {
            None
        },
        None => None,
    }
}

/// The whole merged table. Without a router ID there is none.
pub open spec fn merged_table(
    router_id: Option<u32>,
    areas: Map<u32, AreaView>,
    sr_receive: bool,
    srv6_receive: bool,
) -> Map<RouteKey, Route> {
    Map::new(
        |k: RouteKey|
            router_id is Some && published_at(sorted(areas), sr_receive, srv6_receive, k) is Some,
        |k: RouteKey| published_at(sorted(areas), sr_receive, srv6_receive, k)->0,
    )
}

impl Value for Best {
    fn dup(&self) -> (r: Self) {
        *self
    }

    fn same(&self, other: &Self) -> (b: bool) {
        *self == *other
    }
}

fn merge_table(global: &mut OrdMap<Prefix, Best>, table: &Table, area: u32, protocol: Protocol)
    ensures
        forall|p: Prefix|
            #![trigger lookup(final(global)@, p)]
            lookup(final(global)@, p) == merged(
                lookup(old(global)@, p),
                lookup(table@, p),
                area,
                protocol,
            ),
{
    let n: usize = table.len();
    let mut i: usize = 0;
    let ghost start = global@;
    assert(table.entries().take(0) == Seq::<(Prefix, OspfTableEntry)>::empty());
    while i < n
        invariant
            i <= n == table.entries().len(),
            ordered(table.entries()),
            start == old(global)@,
            forall|p: Prefix|
                #![trigger lookup(global@, p)]
                lookup(global@, p) == merged(
                    lookup(start, p),
                    lookup(map_of(table.entries().take(i as int)), p),
                    area,
                    protocol,
                ),
        decreases n - i,
    {
        let ghost before = global@;
        let ghost s = table.entries();
        let prefix = table.key_at(i);
        let entry = *table.value_at(i);
        let better: bool = match global.get(&prefix) {
            None => true,
            Some(b) => entry.beats(&b.entry),
        };
        if better {
            global.insert(prefix, Best { entry, area, protocol });
        }
        proof {
            lemma_take_step(s, i as int);
            assert forall|p: Prefix| #![trigger lookup(global@, p)] lookup(global@, p) == merged(
                lookup(start, p),
                lookup(map_of(s.take(i + 1)), p),
                area,
                protocol,
            ) by {
                assert(lookup(before, p) == merged(
                    lookup(start, p),
                    lookup(map_of(s.take(i as int)), p),
                    area,
                    protocol,
                ));
            }
        }
        i = i + 1;
    }
    assert(table.entries().take(n as int) == table.entries());
}

/// Builds the route a winning entry becomes.
pub fn make_route(prefix: Prefix, b: &Best) -> (r: Route)
    ensures
        r == ospf_route(prefix, *b),
{
    let family = if b.protocol == Protocol::Ospfv3 {
        NlriFamily::ipv6_unicast()
    } else {
        NlriFamily::ipv4_unicast()
    };
    let mut next_hop = match b.entry.kind {
        OspfKind::External { forwarding_addr: Some(fa), .. } => Some(fa),
        _ => b.entry.next_hop,
    };
    let mut attributes = Attributes::new();
    if let (Some(label), Some(nh)) = (b.entry.label, b.entry.label_nh) {
        attributes.labels = List::Cons(label, Box::new(List::Nil));
        next_hop = Some(nh);
    }
    Route {
        key: RouteKey::new(prefix, family),
        origin: RouteOrigin { proto: ORIGIN_OSPF, peer: b.area as u64 },
        protocol: b.protocol,
        preference: Preference {
            admin_distance: b.protocol.default_admin_distance(),
            metric: (b.entry.metric % 0x1_0000_0000) as u32,
        },
        next_hop,
        attributes,
        age_ms: 0,
        path_id: 0,
        tag: None,
    }
}

/// Computes the merged table across all areas.
pub fn compute_merged_table(
    router_id: Option<u32>,
    areas: &OrdMap<u32, AreaView>,
    sr_receive: bool,
    srv6_receive: bool,
) -> (current: OrdMap<RouteKey, Route>)
    ensures
        current@ == merged_table(router_id, areas@, sr_receive, srv6_receive),
        forall|i: int|
            0 <= i < current.entries().len() ==> (#[trigger] current.entries()[i]).1.key
                == current.entries()[i].0,
{
    let mut current: OrdMap<RouteKey, Route> = OrdMap::new();
    if router_id.is_none() {
        assert(current@ =~= merged_table(router_id, areas@, sr_receive, srv6_receive));
        return current;
    }
    let mut global: OrdMap<Prefix, Best> = OrdMap::new();
    let n: usize = areas.len();
    let mut i: usize = 0;
    while i < n
        invariant
            i <= n == areas.entries().len(),
            forall|p: Prefix|
                #![trigger lookup(global@, p)]
                lookup(global@, p) == best_at(
                    areas.entries().take(i as int),
                    sr_receive,
                    srv6_receive,
                    p,
                ),
        decreases n - i,
    {
        let ghost before = global@;
        assert(areas.entries().take(i + 1).drop_last() == areas.entries().take(i as int));
        let id = areas.key_at(i);
        let view = areas.value_at(i);
        let table = contributed_table(view, sr_receive, srv6_receive);
        merge_table(&mut global, &table, id, view.protocol);
        assert forall|p: Prefix| #![trigger lookup(global@, p)] lookup(global@, p) == best_at(
            areas.entries().take(i + 1),
            sr_receive,
            srv6_receive,
            p,
        ) by {
            assert(lookup(before, p) == best_at(
                areas.entries().take(i as int),
                sr_receive,
                srv6_receive,
                p,
            ));
        }
        i = i + 1;
    }
    assert(areas.entries().take(n as int) == areas.entries());
    let ghost all = areas.entries();
    let m: usize = global.len();
    let mut j: usize = 0;
    assert(global.entries().take(0) == Seq::<(Prefix, Best)>::empty());
    while j < m
        invariant
            j <= m == global.entries().len(),
            ordered(global.entries()),
            forall|k: RouteKey|
                #![trigger lookup(current@, k)]
                lookup(current@, k) == (match lookup(
                    map_of(global.entries().take(j as int)),
                    k.prefix,
                ) {
                    Some(b) => if ospf_family(b.protocol) == k.family && k.source is None {
                        Some(ospf_route(k.prefix, b))
                    } else {
                        None
                    },
                    None => None,
                }),
        decreases m - j,
    {
        let ghost before = current@;
        let ghost s = global.entries();
        let prefix = global.key_at(j);
        let route = make_route(prefix, global.value_at(j));
        let key = route.key;
        current.insert(key, route);
        proof {
            lemma_take_step(s, j as int);
            assert forall|k: RouteKey| #![trigger lookup(current@, k)] lookup(current@, k) == (
            match lookup(map_of(s.take(j + 1)), k.prefix) {
                Some(b) => if ospf_family(b.protocol) == k.family && k.source is None {
                    Some(ospf_route(k.prefix, b))
                } else {
                    None
                },
                None => None,
            }) by {
                assert(lookup(before, k) == (match lookup(map_of(s.take(j as int)), k.prefix) {
                    Some(b) => if ospf_family(b.protocol) == k.family && k.source is None {
                        Some(ospf_route(k.prefix, b))
                    } else {
                        None
                    },
                    None => None,
                }));
            }
        }
        j = j + 1;
    }
    assert(global.entries().take(m as int) == global.entries());
    assert forall|k: RouteKey| #![trigger lookup(current@, k)] lookup(current@, k) == published_at(
        all,
        sr_receive,
        srv6_receive,
        k,
    ) by {
        assert(lookup(global@, k.prefix) == best_at(all, sr_receive, srv6_receive, k.prefix));
    }
    let total: usize = current.len();
    proof {
        let spec_map = merged_table(router_id, areas@, sr_receive, srv6_receive);
        assert forall|k: RouteKey| current@.contains_key(k) == spec_map.contains_key(k) by {
            assert(lookup(current@, k) == published_at(all, sr_receive, srv6_receive, k));
        }
        assert forall|k: RouteKey| #[trigger] current@.contains_key(k) implies current@[k]
            == spec_map[k] by {
            assert(lookup(current@, k) == published_at(all, sr_receive, srv6_receive, k));
        }
        assert(current@ =~= spec_map);
        assert forall|x: int| 0 <= x < current.entries().len() implies (
        #[trigger] current.entries()[x]).1.key == current.entries()[x].0 by {
            lemma_entry(current.entries(), x);
            let k = current.entries()[x].0;
            assert(lookup(current@, k) == published_at(all, sr_receive, srv6_receive, k));
        }
    }
    current
}

/// No area offers a path to a prefix that beats the one published: whatever
/// an area's table holds for `p`, the merged view has an entry that it does
/// not beat.
pub proof fn nothing_beats_the_merged_entry(
    areas: Seq<(u32, AreaView)>,
    sr_receive: bool,
    srv6_receive: bool,
    p: Prefix,
    i: int,
)
    requires
        0 <= i < areas.len(),
        contributed(areas[i].1, sr_receive, srv6_receive).contains_key(p),
    ensures
        best_at(areas, sr_receive, srv6_receive, p) is Some,
        !contributed(areas[i].1, sr_receive, srv6_receive)[p].preferred(
            best_at(areas, sr_receive, srv6_receive, p)->0.entry,
        ),
    decreases areas.len(),
{
    let front = areas.drop_last();
    if i < areas.len() - 1 {
        assert(front[i] == areas[i]);
        nothing_beats_the_merged_entry(front, sr_receive, srv6_receive, p, i);
    }
}

/// The published entry is offered by the area it is attributed to.
pub proof fn merged_entry_is_offered(
    areas: Seq<(u32, AreaView)>,
    sr_receive: bool,
    srv6_receive: bool,
    p: Prefix,
)
    requires
        best_at(areas, sr_receive, srv6_receive, p) is Some,
    ensures
        exists|i: int|
            0 <= i < areas.len() && (#[trigger] areas[i]).0 == best_at(
                areas,
                sr_receive,
                srv6_receive,
                p,
            )->0.area && lookup(contributed(areas[i].1, sr_receive, srv6_receive), p) == Some(
                best_at(areas, sr_receive, srv6_receive, p)->0.entry,
            ),
    decreases areas.len(),
{
    let front = areas.drop_last();
    let before = best_at(front, sr_receive, srv6_receive, p);
    let after = best_at(areas, sr_receive, srv6_receive, p);
    let last = areas.len() - 1;
    if after == before {
        merged_entry_is_offered(front, sr_receive, srv6_receive, p);
        let i = choose|i: int|
            0 <= i < front.len() && (#[trigger] front[i]).0 == before->0.area && lookup(
                contributed(front[i].1, sr_receive, srv6_receive),
                p,
            ) == Some(before->0.entry);
        assert(areas[i] == front[i]);
    } else {
        assert(areas[last].0 == after->0.area);
    }
}

/// A network inside some area is reached as such in the merged view, at a
/// metric no higher than any area's route to it.
pub proof fn intra_area_routes_are_published(
    areas: Seq<(u32, AreaView)>,
    sr_receive: bool,
    srv6_receive: bool,
    a: int,
    i: int,
)
    requires
        0 <= a < areas.len(),
        0 <= i < areas[a].1.facts.intra@.len(),
    ensures
        ({
            let r = areas[a].1.facts.intra@[i];
            let b = best_at(areas, sr_receive, srv6_receive, r.prefix);
            &&& b is Some
            &&& b->0.entry.kind is Intra
            &&& b->0.entry.metric <= r.metric
        }),
{
    let view = areas[a].1;
    let r = view.facts.intra@[i];
    crate::ospf::tables::intra_area_networks_are_in_the_table(
        view.kind,
        view.facts,
        srv6_receive,
        i,
    );
    crate::ospf::tables::areas_contribute_their_tables(view, sr_receive, srv6_receive, r.prefix);
    nothing_beats_the_merged_entry(areas, sr_receive, srv6_receive, r.prefix, a);
}

/// A network that some area learns from a summary it takes is reached in the
/// merged view: as a network of an area, or by an inter-area path at a metric
/// no higher than that summary's.
pub proof fn summarised_routes_are_published(
    areas: Seq<(u32, AreaView)>,
    sr_receive: bool,
    srv6_receive: bool,
    a: int,
    i: int,
)
    requires
        0 <= a < areas.len(),
        0 <= i < areas[a].1.facts.summaries@.len(),
        areas[a].1.kind is Normal,
    ensures
        ({
            let r = areas[a].1.facts.summaries@[i];
            let b = best_at(areas, sr_receive, srv6_receive, r.prefix);
            &&& b is Some
            &&& !(b->0.entry.kind is External)
            &&& b->0.entry.kind is Inter ==> b->0.entry.metric <= r.metric
        }),
{
    let view = areas[a].1;
    let r = view.facts.summaries@[i];
    crate::ospf::tables::summaries_are_in_the_table(view.kind, view.facts, srv6_receive, i);
    crate::ospf::tables::areas_contribute_their_tables(view, sr_receive, srv6_receive, r.prefix);
    nothing_beats_the_merged_entry(areas, sr_receive, srv6_receive, r.prefix, a);
}

/// Of two areas that offer equally good paths the lower one is taken.
pub proof fn earlier_areas_win_ties(
    areas: Seq<(u32, AreaView)>,
    sr_receive: bool,
    srv6_receive: bool,
    p: Prefix,
    i: int,
)
    requires
        0 <= i < areas.len(),
        contributed(areas[i].1, sr_receive, srv6_receive).contains_key(p),
        forall|j: int|
            0 <= j < areas.len() && contributed(
                (#[trigger] areas[j]).1,
                sr_receive,
                srv6_receive,
            ).contains_key(p) ==> !contributed(areas[j].1, sr_receive, srv6_receive)[p].preferred(
                contributed(areas[i].1, sr_receive, srv6_receive)[p],
            ),
        forall|j: int|
            0 <= j < i && contributed(
                (#[trigger] areas[j]).1,
                sr_receive,
                srv6_receive,
            ).contains_key(p) ==> contributed(areas[i].1, sr_receive, srv6_receive)[p].preferred(
                contributed(areas[j].1, sr_receive, srv6_receive)[p],
            ),
    ensures
        best_at(areas, sr_receive, srv6_receive, p) == Some(
            Best {
                entry: contributed(areas[i].1, sr_receive, srv6_receive)[p],
                area: areas[i].0,
                protocol: areas[i].1.protocol,
            },
        ),
    decreases areas.len(),
{
    let n = areas.len() - 1;
    let front = areas.drop_last();
    let e = contributed(areas[i].1, sr_receive, srv6_receive)[p];
    if i < n {
        assert(front[i] == areas[i]);
        assert forall|j: int|
            0 <= j < front.len() && contributed(
                (#[trigger] front[j]).1,
                sr_receive,
                srv6_receive,
            ).contains_key(p) implies !contributed(
            front[j].1,
            sr_receive,
            srv6_receive,
        )[p].preferred(e) by {
            assert(front[j] == areas[j]);
        }
        assert forall|j: int|
            0 <= j < i && contributed(
                (#[trigger] front[j]).1,
                sr_receive,
                srv6_receive,
            ).contains_key(p) implies e.preferred(
            contributed(front[j].1, sr_receive, srv6_receive)[p],
        ) by {
            assert(front[j] == areas[j]);
        }
        earlier_areas_win_ties(front, sr_receive, srv6_receive, p, i);
        assert(areas[n] == areas.last());
    } else if best_at(front, sr_receive, srv6_receive, p) is Some {
        merged_entry_is_offered(front, sr_receive, srv6_receive, p);
        let b = best_at(front, sr_receive, srv6_receive, p)->0;
        let j = choose|j: int|
            0 <= j < front.len() && (#[trigger] front[j]).0 == b.area && lookup(
                contributed(front[j].1, sr_receive, srv6_receive),
                p,
            ) == Some(b.entry);
        assert(front[j] == areas[j]);
        assert(e.preferred(b.entry));
    }
}

/// The published route leads where the winning entry does: at its metric and
/// OSPF's distance, in the unicast family of its version, attributed to its
/// area; through the label's first hop where it is labelled, else through an
/// external's forwarding address, else through the entry's own next hop.
pub proof fn published_routes_follow_the_entry(p: Prefix, b: Best)
    ensures
        ({
            let r = ospf_route(p, b);
            let labelled = b.entry.label is Some && b.entry.label_nh is Some;
            &&& r.key.prefix == p && r.key.source is None
            &&& r.key.family.safi == 1
            &&& r.key.family.afi == (if b.protocol is Ospfv3 {
                2
            } else {
                1int
            })
            &&& r.protocol == b.protocol
            &&& r.origin.proto == 3 && r.origin.peer == b.area
            &&& r.preference.metric as int == b.entry.metric as int % 0x1_0000_0000
            &&& b.protocol is Ospfv2 || b.protocol is Ospfv3 ==> r.preference.admin_distance == 110
            &&& labelled ==> r.next_hop == b.entry.label_nh && r.attributes.labels.seq() == seq![
                b.entry.label->0,
            ]
            &&& !labelled ==> r.attributes.labels.seq().len() == 0
            &&& !labelled ==> match b.entry.kind {
                OspfKind::External { forwarding_addr: Some(fa), .. } => r.next_hop == Some(fa),
                _ => r.next_hop == b.entry.next_hop,
            }
        }),
{
    let r = ospf_route(p, b);
    reveal_with_fuel(List::seq, 2);
    if b.entry.label is Some && b.entry.label_nh is Some {
        assert(r.attributes.labels.seq() =~= seq![b.entry.label->0]);
    }
}

/// What is published for a prefix is its winning entry, under the key of that
/// entry's version; without a router ID nothing is published.
pub proof fn winning_entries_are_published(
    router_id: Option<u32>,
    areas: Map<u32, AreaView>,
    sr_receive: bool,
    srv6_receive: bool,
    p: Prefix,
    k: RouteKey,
)
    ensures
        ({
            let t = merged_table(router_id, areas, sr_receive, srv6_receive);
            let b = best_at(sorted(areas), sr_receive, srv6_receive, p);
            &&& router_id is None ==> !t.contains_key(k)
            &&& router_id is Some && b is Some ==> {
                let key = ospf_route(p, b->0).key;
                &&& t.contains_key(key)
                &&& t[key] == ospf_route(p, b->0)
            }
            &&& t.contains_key(k) ==> t[k].key == k
        }),
{
}

} // verus!
