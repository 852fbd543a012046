//! Inter-area prefixes a border router originates into its OSPFv3 areas.

use crate::addr::Prefix;
use crate::list::List;
use crate::ordmap::{lookup, ordered, sorted, Key, OrdMap};
use crate::ordmap::{lemma_entry, lemma_key_position};
use crate::ospf::facts::AreaView;
use crate::ospf::lsa::{Lsa, LsaContent, LsaKey, V3_INTER_PREFIX};
use crate::ospf::plan::{grouped, AreaPlan, LsaAction};
use crate::ospf::summary::{
    all_tables, low32, seq_of, source_map, summary_sources, summary_tables,
};
use crate::route::Protocol;
use crate::seqs::{gather, gather_step, gather_whole, one_if};
use vstd::prelude::*;

verus! {

/// The lowest number with a property, where there is one.
pub open spec fn lowest(f: spec_fn(u32) -> bool) -> Option<u32> {
    if exists|i: u32| #[trigger] f(i) {
        Some(choose|i: u32| #[trigger] f(i) && forall|j: u32| j < i ==> !(#[trigger] f(j)))
    } else {
        None
    }
}

/// A number with a property below which nothing has it is the lowest.
pub proof fn lemma_lowest(f: spec_fn(u32) -> bool, i: u32)
    requires
        f(i),
        forall|j: u32| j < i ==> !(#[trigger] f(j)),
    ensures
        lowest(f) == Some(i),
{
    let c = choose|c: u32| #[trigger] f(c) && forall|j: u32| j < c ==> !(#[trigger] f(j));
    assert(f(c) && forall|j: u32| j < c ==> !(#[trigger] f(j)));
    if c < i {
        assert(!f(c));
    }
    if i < c {
        assert(!f(i));
    }
}

/// The key of this router's inter-area prefix LSA with an ID.
pub open spec fn inter_key(router_id: u32, id: u32) -> LsaKey {
    LsaKey { ls_type: V3_INTER_PREFIX, link_state_id: id, advertising_router: router_id }
}

/// The prefix an LSA's body describes.
pub open spec fn described(lsa: Lsa) -> Option<Prefix> {
    match lsa.content {
        LsaContent::InterPrefix { prefix, .. } => prefix,
        _ => None,
    }
}

/// Whether an ID is remembered for some prefix of an area.
pub open spec fn remembered(ids: Map<(u32, Prefix), u32>, area: u32, id: u32) -> bool {
    exists|p: Prefix| #[trigger] ids.contains_key((area, p)) && ids[(area, p)] == id
}

/// Whether this router's LSA with an ID describes `p`, and the ID belongs to no
/// other prefix.
pub open spec fn describes(
    lsdb: Map<LsaKey, Lsa>,
    router_id: u32,
    ids: Map<(u32, Prefix), u32>,
    area: u32,
    p: Prefix,
) -> spec_fn(u32) -> bool {
    |id: u32|
        lsdb.contains_key(inter_key(router_id, id)) && described(lsdb[inter_key(router_id, id)])
            == Some(p) && !remembered(ids, area, id)
}

/// Whether an ID is neither in the database nor remembered for a prefix.
pub open spec fn unused(
    lsdb: Map<LsaKey, Lsa>,
    router_id: u32,
    ids: Map<(u32, Prefix), u32>,
    area: u32,
) -> spec_fn(u32) -> bool {
    |id: u32|
        id >= 1 && !lsdb.contains_key(inter_key(router_id, id)) && !remembered(ids, area, id)
}

/// The ID of a prefix: the one remembered for it, else that of an instance
/// that already describes it, else the lowest unused one. There is none when
/// all are taken.
pub open spec fn id_for(
    lsdb: Map<LsaKey, Lsa>,
    router_id: u32,
    ids: Map<(u32, Prefix), u32>,
    area: u32,
    p: Prefix,
) -> Option<u32> {
    match lookup(ids, (area, p)) {
        Some(id) => Some(id),
        None => match lowest(describes(lsdb, router_id, ids, area, p)) {
            Some(id) => Some(id),
            None => lowest(unused(lsdb, router_id, ids, area)),
        },
    }
}

/// Whether an instance already advertises a prefix at a metric.
pub open spec fn advertises_prefix(prev: Option<Lsa>, p: Prefix, metric: u32) -> bool {
    match prev {
        Some(lsa) => lsa.content == LsaContent::InterPrefix {
            prefix_len: p.prefix_len,
            prefix: Some(p),
            metric,
        },
        None => false,
    }
}

/// Progress of one area's pass.
pub struct Pass {
    pub ids: Map<(u32, Prefix), u32>,
    pub used: Map<u32, ()>,
    pub actions: Seq<LsaAction>,
}

/// The pass over the summarised prefixes of an area, in order: each gets its
/// ID and, unless its instance already says the same, an origination. A prefix
/// for which no ID is left is passed over.
pub open spec fn pass(
    lsdb: Map<LsaKey, Lsa>,
    router_id: u32,
    area: u32,
    ids: Map<(u32, Prefix), u32>,
    sources: Seq<(Prefix, u64)>,
) -> Pass
    decreases sources.len(),
{
    if sources.len() == 0 {
        Pass { ids, used: Map::empty(), actions: Seq::empty() }
    } else {
        let done = pass(lsdb, router_id, area, ids, sources.drop_last());
        let (p, m) = sources.last();
        match id_for(lsdb, router_id, done.ids, area, p) {
            Some(id) => {
                let prev = lookup(lsdb, inter_key(router_id, id));
                Pass {
                    ids: done.ids.insert((area, p), id),
                    used: done.used.insert(id, ()),
                    actions: done.actions + one_if(
                        !advertises_prefix(prev, p, low32(m)),
                        LsaAction::InterAreaPrefix {
                            ls_id: id,
                            prefix: p,
                            metric: low32(m),
                            prev_seq: seq_of(prev),
                        },
                    ),
                }
            },
            None => done,
        }
    }
}

/// The flush of a self-originated inter-area prefix LSA whose ID is not in
/// use.
pub open spec fn stale_prefix(used: Map<u32, ()>, router_id: u32) -> spec_fn((LsaKey, Lsa)) -> Seq<
    LsaAction,
> {
    |e: (LsaKey, Lsa)|
        one_if(
            e.0.ls_type == V3_INTER_PREFIX && e.0.advertising_router == router_id
                && !used.contains_key(e.0.link_state_id),
            LsaAction::Flush { key: e.0 },
        )
}

/// All changes to one area, and the IDs remembered afterwards.
pub open spec fn prefix_actions(
    lsdb: Map<LsaKey, Lsa>,
    router_id: u32,
    area: u32,
    ids: Map<(u32, Prefix), u32>,
    sources: Map<Prefix, u64>,
) -> (Map<(u32, Prefix), u32>, Seq<LsaAction>) {
    let done = pass(lsdb, router_id, area, ids, sorted(sources));
    (done.ids, done.actions + gather(sorted(lsdb), stale_prefix(done.used, router_id)))
}

/// The changes of the areas `todo` in order, threading the remembered IDs.
/// Areas of another protocol version are passed over.
pub open spec fn prefix_plans(
    areas: Map<u32, AreaView>,
    router_id: u32,
    ids: Map<(u32, Prefix), u32>,
    todo: Seq<(u32, AreaView)>,
) -> (Map<(u32, Prefix), u32>, Seq<AreaPlan>)
    decreases todo.len(),
{
    if todo.len() == 0 {
        (ids, Seq::empty())
    } else {
        let (before, plans) = prefix_plans(areas, router_id, ids, todo.drop_last());
        let (area, view) = todo.last();
        if view.protocol is Ospfv3 {
            let (after, actions) = prefix_actions(
                view.lsdb@,
                router_id,
                area,
                before,
                source_map(areas, true, router_id, area),
            );
            (after, plans + grouped(area, actions))
        } else {
            (before, plans)
        }
    }
}

/// Whether `taken` holds exactly the IDs remembered for an area.
spec fn all_taken(taken: Map<u32, ()>, ids: Map<(u32, Prefix), u32>, area: u32) -> bool {
    forall|id: u32| #[trigger] taken.contains_key(id) == remembered(ids, area, id)
}

/// Finds the lowest ID of an instance that describes `p`.
fn find_described(
    lsdb: &OrdMap<LsaKey, Lsa>,
    router_id: u32,
    taken: &OrdMap<u32, ()>,
    Ghost(ids): Ghost<Map<(u32, Prefix), u32>>,
    Ghost(area): Ghost<u32>,
    p: Prefix,
) -> (r: Option<u32>)
    requires
        all_taken(taken@, ids, area),
    ensures
        r == lowest(describes(lsdb@, router_id, ids, area, p)),
{
    let n: usize = lsdb.len();
    let ghost f = describes(lsdb@, router_id, ids, area, p);
    let ghost s = lsdb.entries();
    let mut i: usize = 0;
    while i < n
        invariant
            i <= n == s.len(),
            s == lsdb.entries(),
            ordered(s),
            all_taken(taken@, ids, area),
            f == describes(lsdb@, router_id, ids, area, p),
            forall|x: int|
                0 <= x < i ==> !((#[trigger] s[x]).0.ls_type == V3_INTER_PREFIX
                    && s[x].0.advertising_router == router_id && described(s[x].1) == Some(p)
                    && !remembered(ids, area, s[x].0.link_state_id)),
        decreases n - i,
    {
        let key = lsdb.key_at(i);
        if key.ls_type == V3_INTER_PREFIX && key.advertising_router == router_id
            && !taken.contains_key(&key.link_state_id) {
            let said: Option<Prefix> = match lsdb.value_at(i).content {
                LsaContent::InterPrefix { prefix, .. } => prefix,
                _ => None,
            };
            let hit: bool = match said {
                Some(q) => q == p,
                None => false,
            };
            if hit {
                proof {
                    let id = key.link_state_id;
                    lemma_entry(s, i as int);
                    assert(f(id));
                    assert forall|j: u32| j < id implies !(#[trigger] f(j)) by {
                        if f(j) {
                            let x = lemma_key_position(s, inter_key(router_id, j));
                            if x > i {
                                assert(s[i as int].0.code() < s[x].0.code());
                            }
                            assert(x != i);
                        }
                    }
                    lemma_lowest(f, id);
                }
                return Some(key.link_state_id);
            }
        }
        i = i + 1;
    }
    proof {
        assert forall|j: u32| !(#[trigger] f(j)) by {
            if f(j) {
                let x = lemma_key_position(s, inter_key(router_id, j));
            }
        }
    }
    None
}

/// Finds the lowest unused ID.
fn find_unused(
    lsdb: &OrdMap<LsaKey, Lsa>,
    router_id: u32,
    taken: &OrdMap<u32, ()>,
    Ghost(ids): Ghost<Map<(u32, Prefix), u32>>,
    Ghost(area): Ghost<u32>,
) -> (r: Option<u32>)
    requires
        all_taken(taken@, ids, area),
    ensures
        r == lowest(unused(lsdb@, router_id, ids, area)),
{
    let ghost f = unused(lsdb@, router_id, ids, area);
    let mut id: u32 = 1;
    loop
        invariant
            id >= 1,
            all_taken(taken@, ids, area),
            f == unused(lsdb@, router_id, ids, area),
            forall|j: u32| j < id ==> !(#[trigger] f(j)),
        decreases u32::MAX - id,
    {
        let key = LsaKey {
            ls_type: V3_INTER_PREFIX,
            link_state_id: id,
            advertising_router: router_id,
        };
        if !lsdb.contains_key(&key) && !taken.contains_key(&id) {
            proof {
                assert(f(id));
                lemma_lowest(f, id);
            }
            return Some(id);
        }
        if id == u32::MAX {
            assert(!f(id));
            return None;
        }
        assert(!f(id));
        id = id + 1;
    }
}

/// Lists the IDs remembered for an area.
fn taken_ids(ids: &OrdMap<(u32, Prefix), u32>, area: u32) -> (taken: OrdMap<u32, ()>)
    ensures
        all_taken(taken@, ids@, area),
{
    let mut taken: OrdMap<u32, ()> = OrdMap::new();
    let ghost s = ids.entries();
    let n: usize = ids.len();
    let mut i: usize = 0;
    while i < n
        invariant
            i <= n == s.len(),
            s == ids.entries(),
            ordered(s),
            forall|id: u32| #[trigger]
                taken@.contains_key(id) ==> remembered(ids@, area, id),
            forall|x: int|
                0 <= x < i && (#[trigger] s[x]).0.0 == area ==> taken@.contains_key(s[x].1),
        decreases n - i,
    {
        let k = ids.key_at(i);
        if k.0 == area {
            proof {
                lemma_entry(s, i as int);
                assert(ids@.contains_key((area, k.1)));
            }
            taken.insert(*ids.value_at(i), ());
        }
        i = i + 1;
    }
    proof {
        assert forall|id: u32| #[trigger] taken@.contains_key(id) == remembered(ids@, area, id) by {
            if remembered(ids@, area, id) {
                let p = choose|p: Prefix| #[trigger]
                    ids@.contains_key((area, p)) && ids@[(area, p)] == id;
                let x = lemma_key_position(s, (area, p));
                assert(s[x].0.0 == area);
            }
        }
    }
    taken
}

proof fn lemma_taken(
    taken: Map<u32, ()>,
    ids: Map<(u32, Prefix), u32>,
    area: u32,
    p: Prefix,
    id: u32,
)
    requires
        all_taken(taken, ids, area),
        lookup(ids, (area, p)) is None || lookup(ids, (area, p)) == Some(id),
    ensures
        all_taken(taken.insert(id, ()), ids.insert((area, p), id), area),
{
    let next = ids.insert((area, p), id);
    assert forall|x: u32| #[trigger] taken.insert(id, ()).contains_key(x) == remembered(
        next,
        area,
        x,
    ) by {
        if remembered(next, area, x) {
            let q = choose|q: Prefix| #[trigger]
                next.contains_key((area, q)) && next[(area, q)] == x;
            if q != p {
                assert(ids.contains_key((area, q)));
                assert(remembered(ids, area, x));
                assert(taken.contains_key(x));
            }
        }
        if x == id {
            assert(next.contains_key((area, p)));
        } else if taken.contains_key(x) {
            let q = choose|q: Prefix| #[trigger]
                ids.contains_key((area, q)) && ids[(area, q)] == x;
            assert(next.contains_key((area, q)));
            assert(next[(area, q)] == x);
        }
    }
}

/// Plans the changes of one OSPFv3 area and remembers the IDs handed out.
pub fn plan_prefixes(
    lsdb: &OrdMap<LsaKey, Lsa>,
    router_id: u32,
    area: u32,
    ids: &mut OrdMap<(u32, Prefix), u32>,
    sources: &OrdMap<Prefix, u64>,
) -> (actions: Vec<LsaAction>)
    ensures
        (final(ids)@, actions@) == prefix_actions(lsdb@, router_id, area, old(ids)@, sources@),
{
    let mut actions: Vec<LsaAction> = Vec::new();
    let mut used: OrdMap<u32, ()> = OrdMap::new();
    let mut taken = taken_ids(ids, area);
    let n: usize = sources.len();
    let mut i: usize = 0;
    let ghost start = ids@;
    while i < n
        invariant
            i <= n == sources.entries().len(),
            all_taken(taken@, ids@, area),
            ids@ == pass(lsdb@, router_id, area, start, sources.entries().take(i as int)).ids,
            used@ == pass(lsdb@, router_id, area, start, sources.entries().take(i as int)).used,
            actions@ == pass(
                lsdb@,
                router_id,
                area,
                start,
                sources.entries().take(i as int),
            ).actions,
        decreases n - i,
    {
        assert(sources.entries().take(i + 1).drop_last() == sources.entries().take(i as int));
        let prefix = sources.key_at(i);
        let metric: u32 = (*sources.value_at(i) % 0x1_0000_0000) as u32;
        let known: Option<u32> = match ids.get(&(area, prefix)) {
            Some(id) => Some(*id),
            None => None,
        };
        let chosen: Option<u32> = match known {
            Some(id) => Some(id),
            None => match find_described(
                lsdb,
                router_id,
                &taken,
                Ghost(ids@),
                Ghost(area),
                prefix,
            ) {
                Some(id) => Some(id),
                None => find_unused(lsdb, router_id, &taken, Ghost(ids@), Ghost(area)),
            },
        };
        if let Some(id) = chosen {
            proof {
                lemma_taken(taken@, ids@, area, prefix, id);
            }
            ids.insert((area, prefix), id);
            taken.insert(id, ());
            used.insert(id, ());
            let key = LsaKey {
                ls_type: V3_INTER_PREFIX,
                link_state_id: id,
                advertising_router: router_id,
            };
            let mut prev_seq: Option<u32> = None;
            let mut unchanged: bool = false;
            if let Some(lsa) = lsdb.get(&key) {
                prev_seq = Some(lsa.header.ls_sequence_number);
                unchanged = lsa.content == LsaContent::InterPrefix {
                    prefix_len: prefix.prefix_len,
                    prefix: Some(prefix),
                    metric,
                };
            }
            if !unchanged {
                actions.push(LsaAction::InterAreaPrefix { ls_id: id, prefix, metric, prev_seq });
            }
        }
        i = i + 1;
    }
    assert(sources.entries().take(n as int) == sources.entries());
    let ghost first = actions@;
    let m: usize = lsdb.len();
    let mut j: usize = 0;
    let ghost g = stale_prefix(used@, router_id);
    proof {
        gather_whole(lsdb.entries(), g);
    }
    assert(first + gather(lsdb.entries().take(0), g) == first);
    while j < m
        invariant
            j <= m == lsdb.entries().len(),
            g == stale_prefix(used@, router_id),
            actions@ == first + gather(lsdb.entries().take(j as int), g),
        decreases m - j,
    {
        proof {
            gather_step(lsdb.entries(), j as int, g);
        }
        let key = lsdb.key_at(j);
        if key.ls_type == V3_INTER_PREFIX && key.advertising_router == router_id
            && !used.contains_key(&key.link_state_id) {
            actions.push(LsaAction::Flush { key });
        }
        assert(actions@ == first + (gather(lsdb.entries().take(j as int), g) + g(
            lsdb.entries()[j as int],
        )));
        j = j + 1;
    }
    actions
}

/// Plans the inter-area prefixes of every area of an OSPFv3 border router.
pub fn ospf_summarize_areas_v3(
    areas: &OrdMap<u32, AreaView>,
    router_id: u32,
    ids: &mut OrdMap<(u32, Prefix), u32>,
) -> (plans: Vec<AreaPlan>)
    ensures
        (final(ids)@, plans@) == prefix_plans(areas@, router_id, old(ids)@, sorted(areas@)),
{
    let tables = summary_tables(areas, true);
    let mut plans: Vec<AreaPlan> = Vec::new();
    let n: usize = areas.len();
    let mut i: usize = 0;
    let ghost start = ids@;
    while i < n
        invariant
            i <= n == areas.entries().len(),
            all_tables(areas@, true, tables@),
            (ids@, plans@) == prefix_plans(
                areas@,
                router_id,
                start,
                areas.entries().take(i as int),
            ),
        decreases n - i,
    {
        assert(areas.entries().take(i + 1).drop_last() == areas.entries().take(i as int));
        let target = areas.key_at(i);
        let view = areas.value_at(i);
        if view.protocol == Protocol::Ospfv3 {
            assert(tables@.contains_key(target));
            let sources = summary_sources(areas, &tables, true, router_id, target);
            let actions = plan_prefixes(&view.lsdb, router_id, target, ids, &sources);
            if actions.len() > 0 {
                plans.push(AreaPlan { area: target, actions: List::from_vec(actions) });
            }
        }
        i = i + 1;
    }
    assert(areas.entries().take(n as int) == areas.entries());
    plans
}

/// Whether no two prefixes of an area have the same ID.
#[verifier::opaque]
pub open spec fn distinct(ids: Map<(u32, Prefix), u32>) -> bool {
    forall|a: u32, p: Prefix, q: Prefix|
        #![trigger ids.contains_key((a, p)), ids.contains_key((a, q))]
        ids.contains_key((a, p)) && ids.contains_key((a, q)) && ids[(a, p)] == ids[(a, q)] ==> p
            == q
}

/// An ID once remembered for a prefix stays: no pass gives it another one.
pub proof fn ids_are_stable(
    lsdb: Map<LsaKey, Lsa>,
    router_id: u32,
    area: u32,
    ids: Map<(u32, Prefix), u32>,
    sources: Seq<(Prefix, u64)>,
    k: (u32, Prefix),
)
    requires
        ids.contains_key(k),
    ensures
        pass(lsdb, router_id, area, ids, sources).ids.contains_key(k),
        pass(lsdb, router_id, area, ids, sources).ids[k] == ids[k],
    decreases sources.len(),
{
    if sources.len() > 0 {
        ids_are_stable(lsdb, router_id, area, ids, sources.drop_last(), k);
    }
}

/// A prefix that is given an ID shares it with no other prefix of its area,
/// whatever came and went before.
pub proof fn passes_keep_ids_distinct(
    lsdb: Map<LsaKey, Lsa>,
    router_id: u32,
    area: u32,
    ids: Map<(u32, Prefix), u32>,
    sources: Seq<(Prefix, u64)>,
)
    requires
        distinct(ids),
    ensures
        distinct(pass(lsdb, router_id, area, ids, sources).ids),
    decreases sources.len(),
{
    reveal(distinct);
    if sources.len() > 0 {
        passes_keep_ids_distinct(lsdb, router_id, area, ids, sources.drop_last());
        let done = pass(lsdb, router_id, area, ids, sources.drop_last());
        let p = sources.last().0;
        if let Some(id) = id_for(lsdb, router_id, done.ids, area, p) {
            let next = done.ids.insert((area, p), id);
            if !done.ids.contains_key((area, p)) {
                lemma_lowest_holds(describes(lsdb, router_id, done.ids, area, p));
                lemma_lowest_holds(unused(lsdb, router_id, done.ids, area));
                assert(!remembered(done.ids, area, id));
            }
            assert forall|a: u32, x: Prefix, y: Prefix|
                #![trigger next.contains_key((a, x)), next.contains_key((a, y))]
                next.contains_key((a, x)) && next.contains_key((a, y)) && next[(a, x)] == next[(
                    a,
                    y,
                )] implies x == y by {
                if !done.ids.contains_key((area, p)) && a == area && (x == p) != (y == p) {
                    let other = if x == p {
                        y
                    } else {
                        x
                    };
                    assert(done.ids.contains_key((area, other)));
                    assert(remembered(done.ids, area, id));
                }
                if a != area || (x != p && y != p) {
                    assert(done.ids.contains_key((a, x)) && done.ids.contains_key((a, y)));
                }
                if done.ids.contains_key((area, p)) {
                    assert(next =~= done.ids);
                }
            }
        }
    }
}

/// The lowest number has the property, and without one nothing has it.
pub proof fn lemma_lowest_holds(f: spec_fn(u32) -> bool)
    ensures
        lowest(f) is Some ==> f(lowest(f)->Some_0),
        lowest(f) is Some ==> forall|j: u32| j < lowest(f)->Some_0 ==> !(#[trigger] f(j)),
        lowest(f) is None ==> forall|i: u32| !(#[trigger] f(i)),
{
    if exists|i: u32| #[trigger] f(i) {
        let i = choose|i: u32| #[trigger] f(i);
        lemma_has_lowest(f, i);
    }
}

proof fn lemma_has_lowest(f: spec_fn(u32) -> bool, i: u32)
    requires
        f(i),
    ensures
        lowest(f) is Some,
        f(lowest(f)->Some_0),
        forall|j: u32| j < lowest(f)->Some_0 ==> !(#[trigger] f(j)),
    decreases i,
{
    if forall|j: u32| j < i ==> !(#[trigger] f(j)) {
        lemma_lowest(f, i);
    } else {
        let j = choose|j: u32| j < i && #[trigger] f(j);
        lemma_has_lowest(f, j);
    }
}

/// Two prefixes summarised into the same area never share an ID, after any
/// number of passes over any areas.
pub proof fn prefixes_never_share_an_id(
    areas: Map<u32, AreaView>,
    router_id: u32,
    ids: Map<(u32, Prefix), u32>,
    todo: Seq<(u32, AreaView)>,
)
    requires
        distinct(ids),
    ensures
        distinct(prefix_plans(areas, router_id, ids, todo).0),
    decreases todo.len(),
{
    if todo.len() > 0 {
        prefixes_never_share_an_id(areas, router_id, ids, todo.drop_last());
        let before = prefix_plans(areas, router_id, ids, todo.drop_last()).0;
        let (area, view) = todo.last();
        passes_keep_ids_distinct(
            view.lsdb@,
            router_id,
            area,
            before,
            sorted(source_map(areas, true, router_id, area)),
        );
    }
}

/// After a pass every summarised prefix has an ID of its own, unless all are
/// taken. Its LSA is in the database as it should be or is originated, and it
/// is not flushed.
pub proof fn summarised_prefixes_are_kept(
    lsdb: Map<LsaKey, Lsa>,
    router_id: u32,
    area: u32,
    ids: Map<(u32, Prefix), u32>,
    sources: Seq<(Prefix, u64)>,
    i: int,
)
    requires
        0 <= i < sources.len(),
        forall|x: int, y: int|
            0 <= x < y < sources.len() ==> (#[trigger] sources[x]).0 != (#[trigger] sources[y]).0,
    ensures
        ({
            let done = pass(lsdb, router_id, area, ids, sources);
            let (p, m) = sources[i];
            if done.ids.contains_key((area, p)) {
                let id = done.ids[(area, p)];
                let prev = lookup(lsdb, inter_key(router_id, id));
                &&& done.used.contains_key(id)
                &&& advertises_prefix(prev, p, low32(m)) || done.actions.contains(
                    LsaAction::InterAreaPrefix {
                        ls_id: id,
                        prefix: p,
                        metric: low32(m),
                        prev_seq: seq_of(prev),
                    },
                )
            } else {
                forall|id: u32|
                    id >= 1 ==> lsdb.contains_key(#[trigger] inter_key(router_id, id))
                        || remembered(done.ids, area, id)
            }
        }),
    decreases sources.len(),
{
    let front = sources.drop_last();
    let before = pass(lsdb, router_id, area, ids, front);
    let done = pass(lsdb, router_id, area, ids, sources);
    let (p, m) = sources[i];
    if i < sources.len() - 1 {
        assert forall|x: int, y: int| 0 <= x < y < front.len() implies (#[trigger] front[x]).0 != (
        #[trigger] front[y]).0 by {
            assert(front[x] == sources[x] && front[y] == sources[y]);
        }
        summarised_prefixes_are_kept(lsdb, router_id, area, ids, front, i);
        assert(front[i] == sources[i]);
        assert(sources[i].0 != sources[sources.len() - 1].0);
        let q = sources.last().0;
        if before.ids.contains_key((area, p)) {
            let act = LsaAction::InterAreaPrefix {
                ls_id: before.ids[(area, p)],
                prefix: p,
                metric: low32(m),
                prev_seq: seq_of(lookup(lsdb, inter_key(router_id, before.ids[(area, p)]))),
            };
            if before.actions.contains(act) {
                let j = choose|j: int| 0 <= j < before.actions.len() && before.actions[j] == act;
                assert(done.actions[j] == act);
            }
        } else {
            lemma_all_taken_stays(lsdb, router_id, area, before.ids, q);
        }
    } else {
        lemma_lowest_holds(unused(lsdb, router_id, before.ids, area));
        if let Some(id) = id_for(lsdb, router_id, before.ids, area, p) {
            let act = LsaAction::InterAreaPrefix {
                ls_id: id,
                prefix: p,
                metric: low32(m),
                prev_seq: seq_of(lookup(lsdb, inter_key(router_id, id))),
            };
            if !advertises_prefix(lookup(lsdb, inter_key(router_id, id)), p, low32(m)) {
                assert(done.actions.last() == act);
            }
        } else {
            let f = unused(lsdb, router_id, before.ids, area);
            assert forall|id: u32| id >= 1 implies lsdb.contains_key(
                #[trigger] inter_key(router_id, id),
            ) || remembered(done.ids, area, id) by {
                assert(!f(id));
            }
        }
    }
}

proof fn lemma_all_taken_stays(
    lsdb: Map<LsaKey, Lsa>,
    router_id: u32,
    area: u32,
    ids: Map<(u32, Prefix), u32>,
    q: Prefix,
)
    requires
        forall|id: u32|
            id >= 1 ==> lsdb.contains_key(#[trigger] inter_key(router_id, id)) || remembered(
                ids,
                area,
                id,
            ),
    ensures
        forall|x: u32, id: u32|
            id >= 1 && (lookup(ids, (area, q)) is None || lookup(ids, (area, q)) == Some(x))
                ==> lsdb.contains_key(#[trigger] inter_key(router_id, id)) || #[trigger] remembered(
                ids.insert((area, q), x),
                area,
                id,
            ),
{
    assert forall|x: u32, id: u32|
        id >= 1 && (lookup(ids, (area, q)) is None || lookup(ids, (area, q)) == Some(
            x,
        )) implies lsdb.contains_key(#[trigger] inter_key(router_id, id)) || #[trigger] remembered(
        ids.insert((area, q), x),
        area,
        id,
    ) by {
        if !lsdb.contains_key(inter_key(router_id, id)) {
            let w = choose|w: Prefix| #[trigger]
                ids.contains_key((area, w)) && ids[(area, w)] == id;
            assert(ids.insert((area, q), x).contains_key((area, w)));
            assert(ids.insert((area, q), x)[(area, w)] == id);
        }
    }
}

/// What a pass originates is summarised: each inter-area prefix it announces
/// is one of the area's, under the ID kept for it and at its metric, and
/// continues the instance it replaces.
pub proof fn announced_prefixes_are_summarised(
    lsdb: Map<LsaKey, Lsa>,
    router_id: u32,
    area: u32,
    ids: Map<(u32, Prefix), u32>,
    sources: Seq<(Prefix, u64)>,
    a: LsaAction,
)
    requires
        pass(lsdb, router_id, area, ids, sources).actions.contains(a),
    ensures
        match a {
            LsaAction::InterAreaPrefix { ls_id, prefix, metric, prev_seq } => {
                let key = LsaKey {
                    ls_type: 0x2003,
                    link_state_id: ls_id,
                    advertising_router: router_id,
                };
                &&& exists|i: int|
                    0 <= i < sources.len() && (#[trigger] sources[i]).0 == prefix && metric as int
                        == sources[i].1 as int % 0x1_0000_0000
                &&& pass(lsdb, router_id, area, ids, sources).ids.contains_key((area, prefix))
                &&& pass(lsdb, router_id, area, ids, sources).ids[(area, prefix)] == ls_id
                &&& prev_seq is Some <==> lsdb.contains_key(key)
                &&& lsdb.contains_key(key) ==> prev_seq == Some(
                    lsdb[key].header.ls_sequence_number,
                )
            },
            _ => false,
        },
    decreases sources.len(),
{
    let all = pass(lsdb, router_id, area, ids, sources);
    if sources.len() > 0 {
        let n = sources.len() - 1;
        let front = sources.drop_last();
        let done = pass(lsdb, router_id, area, ids, front);
        assert(sources[n] == sources.last());
        let j = choose|j: int| 0 <= j < all.actions.len() && all.actions[j] == a;
        if j < done.actions.len() {
            assert(done.actions[j] == a);
            announced_prefixes_are_summarised(lsdb, router_id, area, ids, front, a);
            if let LsaAction::InterAreaPrefix { ls_id, prefix, metric, prev_seq } = a {
                let i = choose|i: int|
                    0 <= i < front.len() && (#[trigger] front[i]).0 == prefix && metric as int
                        == front[i].1 as int % 0x1_0000_0000;
                assert(sources[i] == front[i]);
            }
        } else {
            assert(sources[n].0 == sources.last().0);
        }
    }
}

/// A summarised prefix that has an ID after a pass has an LSA that says its
/// length and metric under that ID, in the database already or originated;
/// the ID counts as used.
pub proof fn summarised_prefixes_are_announced(
    lsdb: Map<LsaKey, Lsa>,
    router_id: u32,
    area: u32,
    ids: Map<(u32, Prefix), u32>,
    sources: Seq<(Prefix, u64)>,
    i: int,
)
    requires
        0 <= i < sources.len(),
        forall|x: int, y: int|
            0 <= x < y < sources.len() ==> (#[trigger] sources[x]).0 != (#[trigger] sources[y]).0,
        sources[i].1 <= u32::MAX,
        pass(lsdb, router_id, area, ids, sources).ids.contains_key((area, sources[i].0)),
    ensures
        ({
            let done = pass(lsdb, router_id, area, ids, sources);
            let p = sources[i].0;
            let metric = sources[i].1 as u32;
            let id = done.ids[(area, p)];
            let key = LsaKey {
                ls_type: 0x2003,
                link_state_id: id,
                advertising_router: router_id,
            };
            &&& done.used.contains_key(id)
            &&& {
                ||| lsdb.contains_key(key) && lsdb[key].content == (LsaContent::InterPrefix {
                    prefix_len: p.prefix_len,
                    prefix: Some(p),
                    metric,
                })
                ||| done.actions.contains(
                    LsaAction::InterAreaPrefix {
                        ls_id: id,
                        prefix: p,
                        metric,
                        prev_seq: if lsdb.contains_key(key) {
                            Some(lsdb[key].header.ls_sequence_number)
                        } else {
                            None
                        },
                    },
                )
            }
        }),
{
    summarised_prefixes_are_kept(lsdb, router_id, area, ids, sources, i);
    assert(low32(sources[i].1) == sources[i].1 as u32);
}

/// A prefix without ID takes over the ID of this router's LSA that already
/// describes it, provided no other prefix of the area has it; else it gets the
/// lowest ID from 1 on that is neither in the database nor kept for a prefix.
/// A prefix with an ID keeps it.
pub proof fn prefixes_get_free_ids(
    lsdb: Map<LsaKey, Lsa>,
    router_id: u32,
    ids: Map<(u32, Prefix), u32>,
    area: u32,
    p: Prefix,
)
    requires
        id_for(lsdb, router_id, ids, area, p) is Some,
    ensures
        ({
            let id = id_for(lsdb, router_id, ids, area, p)->Some_0;
            let key = LsaKey {
                ls_type: 0x2003,
                link_state_id: id,
                advertising_router: router_id,
            };
            &&& ids.contains_key((area, p)) ==> id == ids[(area, p)]
            &&& !ids.contains_key((area, p)) ==> {
                &&& forall|q: Prefix| #[trigger] ids.contains_key((area, q)) ==> ids[(area, q)] != id
                &&& {
                    ||| lsdb.contains_key(key) && match lsdb[key].content {
                        LsaContent::InterPrefix { prefix, .. } => prefix == Some(p),
                        _ => false,
                    }
                    ||| id >= 1 && !lsdb.contains_key(key) && forall|j: u32|
                        1 <= j < id ==> lsdb.contains_key(
                            (LsaKey {
                                ls_type: 0x2003,
                                link_state_id: j,
                                advertising_router: router_id,
                            }),
                        ) || #[trigger] remembered(ids, area, j)
                }
            }
        }),
{
    if !ids.contains_key((area, p)) {
        let d = describes(lsdb, router_id, ids, area, p);
        let u = unused(lsdb, router_id, ids, area);
        lemma_lowest_holds(d);
        lemma_lowest_holds(u);
        let id = id_for(lsdb, router_id, ids, area, p)->Some_0;
        if lowest(d) is Some {
            assert(d(id));
        } else {
            assert(u(id));
            assert forall|j: u32| 1 <= j < id implies lsdb.contains_key(
                (LsaKey { ls_type: 0x2003, link_state_id: j, advertising_router: router_id }),
            ) || #[trigger] remembered(ids, area, j) by {
                assert(!u(j));
                assert(inter_key(router_id, j) == LsaKey {
                    ls_type: 0x2003,
                    link_state_id: j,
                    advertising_router: router_id,
                });
            }
        }
        assert(!remembered(ids, area, id));
    }
}

/// This router's inter-area-prefix LSAs are flushed exactly where no
/// summarised prefix uses their ID.
pub proof fn unused_prefixes_are_flushed(
    used: Map<u32, ()>,
    router_id: u32,
    key: LsaKey,
    lsa: Lsa,
)
    ensures
        ({
            let actions = stale_prefix(used, router_id)((key, lsa));
            let stale = key.ls_type == 0x2003 && key.advertising_router == router_id
                && !used.contains_key(key.link_state_id);
            &&& stale ==> actions == seq![LsaAction::Flush { key }]
            &&& !stale ==> actions.len() == 0
        }),
{
}

/// The areas are planned one after the other, each from what is summarised
/// into it; areas of the other version change nothing.
pub proof fn areas_are_planned_in_turn(
    areas: Map<u32, AreaView>,
    router_id: u32,
    ids: Map<(u32, Prefix), u32>,
    todo: Seq<(u32, AreaView)>,
    area: u32,
    view: AreaView,
)
    ensures
        ({
            let (before, plans) = prefix_plans(areas, router_id, ids, todo);
            let (after, more) = prefix_plans(areas, router_id, ids, todo.push((area, view)));
            &&& !(view.protocol is Ospfv3) ==> after == before && more == plans
            &&& view.protocol is Ospfv3 ==> {
                let done = pass(
                    view.lsdb@,
                    router_id,
                    area,
                    before,
                    sorted(source_map(areas, true, router_id, area)),
                );
                &&& after == done.ids
                &&& more.len() == plans.len() || more.len() == plans.len() + 1
                &&& more.take(plans.len() as int) == plans
                &&& done.actions.len() > 0 ==> more.len() == plans.len() + 1 && more.last().area
                    == area && more.last().actions.seq().take(done.actions.len() as int)
                    == done.actions
            }
        }),
{
    let next = todo.push((area, view));
    assert(next.drop_last() =~= todo);
    assert(next.last() == (area, view));
    let (before, plans) = prefix_plans(areas, router_id, ids, todo);
    let (after, more) = prefix_plans(areas, router_id, ids, next);
    if view.protocol is Ospfv3 {
        let sources = source_map(areas, true, router_id, area);
        let (x, actions) = prefix_actions(view.lsdb@, router_id, area, before, sources);
        let done = pass(view.lsdb@, router_id, area, before, sorted(sources));
        List::<LsaAction>::seq_of(actions);
        assert(more.take(plans.len() as int) =~= plans);
        assert(actions.take(done.actions.len() as int) =~= done.actions);
    }
}

} // verus!
