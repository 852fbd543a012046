//! What this router itself, its pipes and its other protocols contribute.

use crate::addr::{IpAddr, NlriFamily, Prefix};
use crate::events::{LogEntry, RouterEvent};
use crate::list::List;
use crate::ordmap::{is_table, lookup, sorted};
use crate::ordmap::{lemma_entry, lemma_key_position};
use crate::ospf::table::ExternalMetricType;
use crate::route::{Attributes, Protocol, Route, RouteKey, RouteOrigin};
use crate::router::origination::{
    after_add_pipe, after_aggregate, after_aggregates, after_delta, after_install_direct,
    after_originate, after_pipe_bgp, after_piped, after_redistribute, after_release,
    after_remove_aggregate, after_remove_pipe, after_static, after_unoriginate,
    after_unredistribute, after_unstatic, after_withdraw_direct, aggregate_task, carried, copy_of,
    family_route, install_task, is_copy, labeled_route, made_of, other_pipe, pipe_task,
    piped_external, piped_external_v3, piped_report, scan_task, sourced_by, speaker, static_route,
    unscan_task, withdraw_task, with_next_hop, MoreSpecific,
};
use crate::router::paths::ToKey;
use crate::router::selection::{candidates, held, rule_for};
use crate::router::telling::{lemma_few, lemma_on_agenda};
use crate::router::{PathKey, RouterState};
use crate::select::KeyTest;
use crate::select::{accepted_value, any_key, values_where};
use crate::seqs::{gather, gather_includes, gather_source, one_if};
use crate::session::Session;
use crate::task::{RedistributionPipe, Task};
use vstd::prelude::*;

verus! {

/// An originated route is a BGP route of this router with origin IGP and an
/// empty AS path. Only in IPv4 unicast its next hop is an attribute too;
/// given attributes keep a next hop they have. Labels are carried in labelled
/// families alone.
pub proof fn originated_routes_are_local(
    prefix: Prefix,
    family: NlriFamily,
    next_hop: Option<IpAddr>,
    attributes: Attributes,
    labels: List<u32>,
)
    ensures
        ({
            let r = family_route(prefix, family, next_hop);
            &&& r.key.prefix == prefix && r.key.family == family && r.key.source is None
            &&& r.protocol == Protocol::Bgp
            &&& r.origin == (RouteOrigin { proto: 2, peer: 0 })
            &&& r.preference.admin_distance == 20 && r.preference.metric == 0
            &&& r.next_hop == next_hop
            &&& r.attributes.origin == Some(0u8)
            &&& match r.attributes.as_path {
                Some(p) => p.seq().len() == 0,
                None => false,
            }
            &&& r.attributes.communities.seq().len() == 0
            &&& family == (NlriFamily { afi: 1, safi: 1 }) ==> r.attributes.next_hop == next_hop
            &&& family != (NlriFamily { afi: 1, safi: 1 }) ==> r.attributes.next_hop is None
            &&& r.path_id == 0
        }),
        ({
            let a = with_next_hop(attributes, next_hop);
            &&& attributes.next_hop is Some ==> a.next_hop == attributes.next_hop
            &&& attributes.next_hop is None ==> a.next_hop == next_hop
            &&& a.as_path == attributes.as_path && a.communities == attributes.communities
                && a.origin == attributes.origin && a.labels == attributes.labels && a.aggregator
                == attributes.aggregator && a.other == attributes.other && a.records
                == attributes.records
        }),
        ({
            let r = labeled_route(prefix, family, labels, next_hop);
            let carries = (family.afi == 1 || family.afi == 2) && family.safi == 4;
            &&& r.key.prefix == prefix && r.key.family == family
            &&& r.next_hop == next_hop
            &&& carries ==> r.attributes.labels == labels
            &&& !carries ==> r.attributes.labels.seq().len() == 0
        }),
{
}

/// An originated route is kept; where no static route is in its way it is in
/// force at once, alone, which is reported; else both compete.
pub proof fn originated_routes_come_into_force(st: RouterState, route: Route)
    ensures
        ({
            let next = after_originate(st, route);
            let ranked = List::Cons(route, Box::new(List::Nil));
            &&& lookup(next.originated, route.key) == Some(route)
            &&& !next.aggregated.contains_key(route.key)
            &&& !st.statics.contains_key(route.key) ==> {
                &&& lookup(next.loc, route.key) == Some(ranked)
                &&& next.events == st.events.push(RouterEvent::RouteInstalled(route))
                &&& next.agenda == st.agenda.push(Task::Aggregates).push(
                    Task::Redistribute { route },
                ).push(Task::Export { key: route.key, ranked })
            }
            &&& st.statics.contains_key(route.key) ==> next.loc == st.loc && next.agenda
                == st.agenda.push(Task::Reselect { key: route.key })
        }),
{
    let ranked = List::Cons(route, Box::new(List::Nil));
    let e = Task::Export { key: route.key, ranked };
    lemma_few(st, e, Task::Redistribute { route }, Task::Aggregates, e);
    let r = Task::Reselect { key: route.key };
    lemma_few(st, r, r, r, r);
}

/// A withdrawn originated route or static route is gone, the copy made of it
/// is let go and the destination selected anew.
pub proof fn local_routes_are_withdrawn(st: RouterState, key: RouteKey)
    ensures
        ({
            let a = after_unoriginate(st, key);
            let b = after_unstatic(st, key);
            &&& !a.originated.contains_key(key)
            &&& st.originated.contains_key(key) ==> a.agenda == st.agenda.push(
                Task::Reselect { key },
            ).push(Task::ReleaseCopy { key })
            &&& !b.statics.contains_key(key)
            &&& st.statics.contains_key(key) ==> b.agenda == st.agenda.push(
                Task::Reselect { key },
            ).push(Task::ReleaseCopy { key })
            &&& !st.statics.contains_key(key) ==> b == st
        }),
{
    let r = Task::Reselect { key };
    lemma_few(st, Task::ReleaseCopy { key }, r, r, r);
    if !st.statics.contains_key(key) {
        assert(after_unstatic(st, key) == st);
    }
}

/// A static route has the distance of static routes, the given metric, tag
/// and next hop, and is in force at once.
pub proof fn static_routes_come_into_force(
    st: RouterState,
    key: RouteKey,
    next_hop: Option<IpAddr>,
    metric: u32,
    tag: Option<u32>,
)
    ensures
        ({
            let r = static_route(key, next_hop, metric, tag);
            let next = after_static(st, r);
            &&& r.key == key && r.protocol == Protocol::Static
            &&& r.preference.admin_distance == 1 && r.preference.metric == metric
            &&& r.next_hop == next_hop && r.tag == tag
            &&& lookup(next.statics, key) == Some(r)
            &&& lookup(next.loc, key) == Some(List::Cons(r, Box::new(List::Nil)))
            &&& next.events == st.events.push(RouterEvent::RouteInstalled(r))
        }),
{
}

/// Protocols are preferred in the order connected, static, BGP, OSPF, Babel,
/// at their customary distances.
pub proof fn protocols_are_ordered()
    ensures
        Protocol::Connected.distance() == 0,
        Protocol::Static.distance() == 1,
        Protocol::Bgp.distance() == 20,
        Protocol::Ospfv2.distance() == 110,
        Protocol::Babel.distance() == 120,
        Protocol::Connected.distance() < Protocol::Static.distance(),
        Protocol::Static.distance() < Protocol::Bgp.distance(),
        Protocol::Bgp.distance() < Protocol::Ospfv2.distance(),
        Protocol::Ospfv2.distance() == Protocol::Ospfv3.distance(),
        Protocol::Ospfv3.distance() < Protocol::Babel.distance(),
{
}

/// Every aggregate is reconsidered: it is wanted exactly when a destination
/// in the table lies inside it and is longer. Its route names this router's
/// first BGP session as aggregator.
pub proof fn aggregates_are_wanted_for_more_specifics(st: RouterState, prefix: Prefix)
    requires
        is_table(st.aggregates),
        st.aggregates.contains_key(prefix),
    ensures
        ({
            let wanted = exists|k: RouteKey| #[trigger]
                st.loc.contains_key(k) && prefix.covers(k.prefix) && k.prefix.prefix_len
                    > prefix.prefix_len;
            let (local_as, bgp_id) = speaker(sorted(st.sessions));
            after_aggregates(st).agenda.contains(
                Task::Aggregate { prefix, wanted, local_as, bgp_id },
            )
        }),
{
    let (local_as, bgp_id) = speaker(sorted(st.sessions));
    let wanted = exists|k: RouteKey| #[trigger]
        st.loc.contains_key(k) && prefix.covers(k.prefix) && k.prefix.prefix_len
            > prefix.prefix_len;
    if wanted {
        let k = choose|k: RouteKey| #[trigger]
            st.loc.contains_key(k) && prefix.covers(k.prefix) && k.prefix.prefix_len
                > prefix.prefix_len;
        assert(MoreSpecific(prefix).accepts(k));
        assert(any_key(st.loc, MoreSpecific(prefix)));
    }
    if any_key(st.loc, MoreSpecific(prefix)) {
        let k = choose|k: RouteKey| #[trigger]
            st.loc.contains_key(k) && MoreSpecific(prefix).accepts(k);
        assert(prefix.covers(k.prefix));
    }
    let f = aggregate_task(st.loc, local_as, bgp_id);
    let s = sorted(st.aggregates);
    let i = lemma_key_position(s, prefix);
    let t = Task::Aggregate { prefix, wanted, local_as, bgp_id };
    assert(f(s[i])[0] == t);
    assert(f(s[i]).contains(t));
    gather_includes(s, f, i, t);
    let tasks = gather(s, f);
    let j = choose|j: int| 0 <= j < tasks.len() && tasks[j] == t;
    lemma_on_agenda(st, tasks, j);
}

/// The speaker is the first BGP session in handle order.
pub proof fn first_bgp_session_speaks(sessions: Seq<(u64, Session)>, i: int)
    requires
        0 <= i < sessions.len(),
        sessions[i].1 is Bgp,
        forall|j: int| 0 <= j < i ==> !((#[trigger] sessions[j]).1 is Bgp),
    ensures
        speaker(sessions) == (
            sessions[i].1->Bgp_0.config.local_as,
            sessions[i].1->Bgp_0.config.local_bgp_id,
        ),
    decreases sessions.len(),
{
    if i > 0 {
        let rest = sessions.drop_first();
        assert(!(sessions[0].1 is Bgp));
        assert(rest[i - 1] == sessions[i]);
        assert forall|j: int| 0 <= j < i - 1 implies !((#[trigger] rest[j]).1 is Bgp) by {
            assert(rest[j] == sessions[j + 1]);
        }
        first_bgp_session_speaks(rest, i - 1);
    }
}

/// A wanted aggregate is originated with an empty AS path, marked as
/// aggregated here; one that is not wanted any longer is withdrawn, and
/// removing it from the configuration withdraws it too.
pub proof fn aggregates_are_marked(
    st: RouterState,
    prefix: Prefix,
    local_as: u32,
    bgp_id: u32,
)
    ensures
        ({
            let key = RouteKey {
                prefix,
                family: if prefix.addr is V4 {
                    NlriFamily { afi: 1, safi: 1 }
                } else {
                    NlriFamily { afi: 2, safi: 1 }
                },
                source: None,
            };
            let made = after_aggregate(st, prefix, true, local_as, bgp_id);
            let unmade = after_aggregate(st, prefix, false, local_as, bgp_id);
            let removed = after_remove_aggregate(st, prefix);
            &&& !st.originated.contains_key(key) ==> {
                &&& made.originated.contains_key(key)
                &&& made.aggregated.contains_key(key)
                &&& made.originated[key].attributes.atomic_aggregate
                &&& made.originated[key].attributes.aggregator == Some((local_as, bgp_id))
                &&& match made.originated[key].attributes.as_path {
                    Some(p) => p.seq().len() == 0,
                    None => false,
                }
                &&& made.originated[key].protocol == Protocol::Bgp
            }
            &&& st.aggregated.contains_key(key) && st.originated.contains_key(key)
                ==> !unmade.originated.contains_key(key) && !unmade.aggregated.contains_key(key)
            &&& !removed.aggregates.contains_key(prefix)
            &&& st.aggregates.contains_key(prefix) && st.aggregated.contains_key(key)
                ==> !removed.originated.contains_key(key)
        }),
{
}

/// A route is handed to every pipe of its protocol and to no other, unless it
/// is itself the copy that a pipe made.
pub proof fn routes_meet_the_pipes_of_their_protocol(st: RouterState, route: Route, i: int)
    requires
        0 <= i < st.pipes.len(),
        !is_copy(st, route),
    ensures
        st.pipes[i].source == route.protocol ==> after_redistribute(st, route).agenda.contains(
            Task::AskPipe { route, pipe: st.pipes[i] },
        ),
        forall|j: int|
            st.agenda.len() <= j < after_redistribute(st, route).agenda.len() ==> {
                let t = #[trigger] after_redistribute(st, route).agenda[j];
                &&& t is AskPipe
                &&& t->AskPipe_route == route
                &&& t->AskPipe_pipe.source == route.protocol
            },
{
    let f = pipe_task(route);
    let tasks = gather(st.pipes, f);
    if st.pipes[i].source == route.protocol {
        let t = Task::AskPipe { route, pipe: st.pipes[i] };
        assert(f(st.pipes[i])[0] == t);
        assert(f(st.pipes[i]).contains(t));
        gather_includes(st.pipes, f, i, t);
        let j = choose|j: int| 0 <= j < tasks.len() && tasks[j] == t;
        lemma_on_agenda(st, tasks, j);
    }
    assert forall|j: int|
        st.agenda.len() <= j < after_redistribute(st, route).agenda.len() implies ({
        let t = #[trigger] after_redistribute(st, route).agenda[j];
        &&& t is AskPipe
        &&& t->AskPipe_route == route
        &&& t->AskPipe_pipe.source == route.protocol
    }) by {
        let n = tasks.len() - 1 - (j - st.agenda.len());
        lemma_on_agenda(st, tasks, n);
        assert(tasks.contains(tasks[n]));
        let m = gather_source(st.pipes, f, tasks[n]);
    }
}

/// The copy that a pipe puts into BGP goes to the same destination through
/// the same next hop, at the pipe's metric, as a local route that keeps the
/// peer of its source.
pub proof fn copies_lead_where_their_source_does(route: Route, metric: u32, now_ms: u64, copy: Route)
    ensures
        ({
            let c = copy_of(route, metric, now_ms);
            &&& c.key == route.key
            &&& c.next_hop == route.next_hop
            &&& c.protocol == Protocol::Bgp
            &&& c.origin.proto == 2 && c.origin.peer == route.origin.peer
            &&& c.preference.admin_distance == 20 && c.preference.metric == metric
            &&& c.attributes.origin == Some(0u8)
            &&& c.age_ms == now_ms
            &&& made_of(c, route)
        }),
        made_of(copy, route) ==> copy.origin.proto == 2 && copy.origin.peer == route.origin.peer
            && copy.next_hop == route.next_hop,
{
}

/// A pipe into BGP that takes a unicast route makes a copy, which competes
/// with every admitted path of a peer and with a static route. Other families
/// are not carried.
pub proof fn copies_compete(st: RouterState, route: Route, metric: u32, r: Route)
    requires
        is_table(st.adj_in),
        !st.redistributed.contains_key(route.key),
    ensures
        ({
            let next = after_pipe_bgp(st, route, metric);
            let unicast = route.key.family.safi == 1 && (route.key.family.afi == 1
                || route.key.family.afi == 2);
            &&& !unicast ==> next == st
            &&& unicast ==> {
                &&& lookup(next.redistributed, route.key) == Some(
                    copy_of(route, metric, st.now_ms),
                )
                &&& next.loc == st.loc
                &&& next.agenda.len() == st.agenda.len() + 2
                &&& next.agenda[st.agenda.len() as int] == Task::Report(
                    RouterEvent::Log(
                        LogEntry::Redistributed {
                            prefix: route.key.prefix,
                            target: Protocol::Bgp,
                            metric,
                        },
                    ),
                )
                &&& match next.agenda.last() {
                    Task::Rank { key, candidates: c, rule } => {
                        &&& key == route.key
                        &&& rule == rule_for(c.seq())
                        &&& c.seq().contains(r) <==> {
                            ||| r == copy_of(route, metric, st.now_ms)
                            ||| st.statics.contains_key(key) && st.statics[key] == r
                            ||| exists|p: PathKey| #[trigger]
                                st.adj_in.contains_key(p) && p.1.0 == key && st.adj_in[p] == r
                        }
                    },
                    _ => false,
                }
            }
        }),
{
    let copy = copy_of(route, metric, st.now_ms);
    let a = values_where(st.adj_in, ToKey(route.key));
    let d = held(st.statics, route.key);
    let rivals = a.push(copy) + d;
    List::<Route>::seq_of(rivals);
    let t = Task::Rank {
        key: route.key,
        candidates: List::of(rivals),
        rule: rule_for(rivals),
    };
    lemma_few(st, t, piped_report(route, Protocol::Bgp, metric), t, t);
    let s = sorted(st.adj_in);
    let f = accepted_value::<PathKey, Route, ToKey>(ToKey(route.key));
    assert(rivals[a.len() as int] == copy);
    if exists|p: PathKey| #[trigger]
        st.adj_in.contains_key(p) && p.1.0 == route.key && st.adj_in[p] == r {
        let p = choose|p: PathKey| #[trigger]
            st.adj_in.contains_key(p) && p.1.0 == route.key && st.adj_in[p] == r;
        let i = lemma_key_position(s, p);
        assert(f(s[i])[0] == r);
        assert(f(s[i]).contains(r));
        gather_includes(s, f, i, r);
        let j = choose|j: int| 0 <= j < a.len() && a[j] == r;
        assert(rivals[j] == r);
    }
    if st.statics.contains_key(route.key) && st.statics[route.key] == r {
        assert(rivals[a.len() as int + 1] == r);
    }
    if rivals.contains(r) {
        let j = choose|j: int| 0 <= j < rivals.len() && rivals[j] == r;
        if j < a.len() {
            assert(a[j] == r);
            let i = gather_source(s, f, r);
            lemma_entry(s, i);
            assert(st.adj_in.contains_key(s[i].0));
        } else if j > a.len() {
            assert(d[j - a.len() - 1] == r);
        }
    }
}

/// What a pipe takes goes where the pipe leads: into BGP, or as an external
/// destination with the pipe's metric and tag into the OSPF version of its
/// addresses; never into the other version, and nowhere if it is not taken.
pub proof fn pipes_lead_to_their_target(
    st: RouterState,
    route: Route,
    pipe: RedistributionPipe,
    metric: u32,
)
    ensures
        after_piped(st, route, pipe, None) == st,
        pipe.target == Protocol::Bgp ==> after_piped(st, route, pipe, Some(metric))
            == after_pipe_bgp(st, route, metric),
        pipe.target == Protocol::Ospfv2 && route.key.prefix.addr is V4 ==> {
            let next = after_piped(st, route, pipe, Some(metric)).agenda;
            &&& next.len() == st.agenda.len() + 2
            &&& match next.last() {
                Task::OspfExternal { dest } => {
                    &&& dest.prefix == route.key.prefix
                    &&& dest.metric == metric
                    &&& dest.metric_type == ExternalMetricType::Type1
                    &&& dest.route_tag == pipe.tag
                    &&& dest.forwarding_addr == 0
                    &&& dest.p_bit
                },
                _ => false,
            }
        },
        pipe.target == Protocol::Ospfv3 && route.key.prefix.addr is V6 ==> {
            let next = after_piped(st, route, pipe, Some(metric)).agenda;
            &&& next.len() == st.agenda.len() + 2
            &&& match next.last() {
                Task::OspfExternalV3 { dest_v3 } => {
                    &&& dest_v3.prefix == route.key.prefix
                    &&& dest_v3.metric == metric
                    &&& !dest_v3.type2
                    &&& dest_v3.forwarding_addr is None
                    &&& pipe.tag != 0 ==> dest_v3.route_tag == Some(pipe.tag)
                    &&& pipe.tag == 0 ==> dest_v3.route_tag is None
                },
                _ => false,
            }
        },
        pipe.target == Protocol::Ospfv2 && route.key.prefix.addr is V6 ==> after_piped(
            st,
            route,
            pipe,
            Some(metric),
        ) == st,
        pipe.target == Protocol::Ospfv3 && route.key.prefix.addr is V4 ==> after_piped(
            st,
            route,
            pipe,
            Some(metric),
        ) == st,
        pipe.target == Protocol::Connected || pipe.target == Protocol::Static || pipe.target
            == Protocol::Babel ==> after_piped(st, route, pipe, Some(metric)) == st,
{
    let a = Task::OspfExternal { dest: piped_external(route, metric, pipe.tag) };
    let b = piped_report(route, Protocol::Ospfv2, metric);
    lemma_few(st, a, b, a, b);
    let c = Task::OspfExternalV3 { dest_v3: piped_external_v3(route, metric, pipe.tag) };
    let d = piped_report(route, Protocol::Ospfv3, metric);
    lemma_few(st, c, d, c, d);
}

/// A copy stays while a contribution to its destination stands that it was
/// made of and that a pipe carries into BGP.
pub proof fn sourced_copies_stay(st: RouterState, key: RouteKey, r: Route, i: int)
    requires
        st.redistributed.contains_key(key),
        candidates(st, key).contains(r),
        made_of(st.redistributed[key], r),
        0 <= i < st.pipes.len(),
        st.pipes[i].source == r.protocol,
        st.pipes[i].target == Protocol::Bgp,
    ensures
        after_release(st, key) == st,
{
    let s = candidates(st, key);
    let j = choose|j: int| 0 <= j < s.len() && s[j] == r;
    assert(carried(st.pipes, s[j].protocol));
    assert(sourced_by(st.pipes, s, st.redistributed[key]));
}

/// A dropped copy is gone, and that is reported.
pub proof fn dropped_copies_are_reported(st: RouterState, key: RouteKey)
    ensures
        !after_unredistribute(st, key).redistributed.contains_key(key),
        st.redistributed.contains_key(key) ==> after_unredistribute(st, key).events
            == st.events.push(
            RouterEvent::Log(LogEntry::Unredistributed { prefix: key.prefix }),
        ),
        !st.redistributed.contains_key(key) ==> after_unredistribute(st, key) == st,
{
}

/// A new pipe takes what is there: the best path of every destination is
/// carried through the pipes again.
pub proof fn new_pipes_take_what_is_there(
    st: RouterState,
    pipe: RedistributionPipe,
    key: RouteKey,
)
    requires
        is_table(st.loc),
        st.loc.contains_key(key),
        st.loc[key].seq().len() > 0,
    ensures
        after_add_pipe(st, pipe).pipes == st.pipes.push(pipe),
        after_add_pipe(st, pipe).agenda.contains(
            Task::Redistribute { route: st.loc[key].seq()[0] },
        ),
{
    let s = sorted(st.loc);
    let f = scan_task();
    let i = lemma_key_position(s, key);
    let l = st.loc[key];
    assert(l is Cons);
    assert(l->Cons_0 == l.seq()[0]);
    let t = Task::Redistribute { route: l.seq()[0] };
    assert(f(s[i])[0] == t);
    assert(f(s[i]).contains(t));
    gather_includes(s, f, i, t);
    let tasks = gather(s, f);
    let j = choose|j: int| 0 <= j < tasks.len() && tasks[j] == t;
    lemma_on_agenda(st, tasks, j);
    assert(after_add_pipe(st, pipe).agenda =~= st.schedule(tasks).agenda);
}

proof fn lemma_other_pipes(pipes: Seq<RedistributionPipe>, source: Protocol, target: Protocol)
    ensures
        gather(pipes, other_pipe(source, target)).len() <= pipes.len(),
        (exists|i: int|
            0 <= i < pipes.len() && (#[trigger] pipes[i]).source == source && pipes[i].target
                == target) ==> gather(pipes, other_pipe(source, target)).len() < pipes.len(),
    decreases pipes.len(),
{
    if pipes.len() > 0 {
        let front = pipes.drop_last();
        lemma_other_pipes(front, source, target);
        if exists|i: int|
            0 <= i < pipes.len() && (#[trigger] pipes[i]).source == source && pipes[i].target
                == target {
            let i = choose|i: int|
                0 <= i < pipes.len() && (#[trigger] pipes[i]).source == source && pipes[i].target
                    == target;
            if i < pipes.len() - 1 {
                assert(front[i] == pipes[i]);
            }
        }
    }
}

/// Removing the pipes between two protocols leaves all others; with pipes
/// into BGP every copy goes, and its destination is selected anew.
pub proof fn removed_pipes_take_their_copies_along(
    st: RouterState,
    source: Protocol,
    target: Protocol,
    p: RedistributionPipe,
    key: RouteKey,
)
    requires
        is_table(st.redistributed),
    ensures
        ({
            let next = after_remove_pipe(st, source, target);
            &&& next.pipes.contains(p) <==> st.pipes.contains(p) && !(p.source == source && p.target
                == target)
            &&& target == Protocol::Bgp && st.pipes.contains(p) && p.source == source && p.target
                == target && st.redistributed.contains_key(key) ==> next.agenda.contains(
                Task::Unredistribute { key },
            ) && next.agenda.contains(Task::Reselect { key })
            &&& target != Protocol::Bgp ==> next.agenda == st.agenda
        }),
{
    let f = other_pipe(source, target);
    let rest = gather(st.pipes, f);
    let next = after_remove_pipe(st, source, target);
    if rest.contains(p) {
        let i = gather_source(st.pipes, f, p);
        assert(st.pipes[i] == p);
    }
    if st.pipes.contains(p) {
        let i = choose|i: int| 0 <= i < st.pipes.len() && st.pipes[i] == p;
        if !(p.source == source && p.target == target) {
            assert(f(st.pipes[i])[0] == p);
            assert(f(st.pipes[i]).contains(p));
            gather_includes(st.pipes, f, i, p);
        } else {
            assert(st.pipes[i].source == source && st.pipes[i].target == target);
            lemma_other_pipes(st.pipes, source, target);
            if target == Protocol::Bgp && st.redistributed.contains_key(key) {
                let s = sorted(st.redistributed);
                let g = unscan_task();
                let k = lemma_key_position(s, key);
                let a = Task::Unredistribute { key };
                let b = Task::Reselect { key };
                assert(g(s[k])[0] == a);
                assert(g(s[k])[1] == b);
                assert(g(s[k]).contains(a));
                assert(g(s[k]).contains(b));
                gather_includes(s, g, k, a);
                gather_includes(s, g, k, b);
                let tasks = gather(s, g);
                let x = choose|x: int| 0 <= x < tasks.len() && tasks[x] == a;
                let y = choose|y: int| 0 <= y < tasks.len() && tasks[y] == b;
                lemma_on_agenda(st, tasks, x);
                lemma_on_agenda(st, tasks, y);
                assert(next.agenda =~= st.schedule(tasks).agenda);
            }
        }
    }
}

/// A direct route is kept for its destination. It competes where a peer, this
/// router, a pipe or a static route contributes too; else it is in force at
/// once, which is reported, and is carried through the pipes.
pub proof fn direct_routes_come_into_force(st: RouterState, route: Route)
    ensures
        ({
            let next = after_install_direct(st, route);
            let rivals = (exists|p: PathKey| #[trigger]
                st.adj_in.contains_key(p) && p.1.0 == route.key) || st.originated.contains_key(
                route.key,
            ) || st.redistributed.contains_key(route.key) || st.statics.contains_key(route.key);
            &&& lookup(next.direct, route.key) == Some(route)
            &&& rivals ==> next.loc == st.loc && next.agenda == st.agenda.push(
                Task::Reselect { key: route.key },
            )
            &&& !rivals ==> {
                &&& lookup(next.loc, route.key) == Some(List::Cons(route, Box::new(List::Nil)))
                &&& next.events == st.events.push(RouterEvent::RouteInstalled(route))
                &&& next.agenda == st.agenda.push(Task::Aggregates).push(
                    Task::Redistribute { route },
                )
            }
        }),
{
    if exists|p: PathKey| #[trigger] st.adj_in.contains_key(p) && p.1.0 == route.key {
        let p = choose|p: PathKey| #[trigger] st.adj_in.contains_key(p) && p.1.0 == route.key;
        assert(ToKey(route.key).accepts(p));
        assert(any_key(st.adj_in, ToKey(route.key)));
    }
    if any_key(st.adj_in, ToKey(route.key)) {
        let p = choose|p: PathKey| #[trigger]
            st.adj_in.contains_key(p) && ToKey(route.key).accepts(p);
        assert(p.1.0 == route.key);
    }
    let a = Task::Redistribute { route };
    lemma_few(st, a, Task::Aggregates, a, a);
    let r = Task::Reselect { key: route.key };
    lemma_few(st, r, r, r, r);
}

/// A withdrawn direct route is gone; a copy made of its peer's route is let
/// go first, then the destination selected anew. A destination that had no
/// direct route leaves the table.
pub proof fn direct_routes_are_withdrawn(st: RouterState, key: RouteKey)
    ensures
        ({
            let next = after_withdraw_direct(st, key);
            &&& !next.direct.contains_key(key)
            &&& st.direct.contains_key(key) ==> {
                let copied = st.redistributed.contains_key(key)
                    && st.redistributed[key].origin.peer == st.direct[key].origin.peer;
                &&& copied ==> next.agenda == st.agenda.push(Task::Reselect { key }).push(
                    Task::ReleaseCopy { key },
                )
                &&& !copied ==> next.agenda == st.agenda.push(Task::Reselect { key })
                &&& next.loc == st.loc
            }
            &&& !st.direct.contains_key(key) ==> {
                &&& !next.loc.contains_key(key)
                &&& next.events == st.events.push(RouterEvent::RouteWithdrawn(key))
                &&& next.agenda == st.agenda.push(Task::Aggregates)
            }
        }),
{
    let a = Task::ReleaseCopy { key };
    let b = Task::Reselect { key };
    lemma_few(st, a, b, a, b);
    lemma_few(st, b, b, a, b);
    lemma_few(st, Task::Aggregates, b, a, b);
    let next = after_withdraw_direct(st, key);
    if st.direct.contains_key(key) {
        assert(one_if(true, a) + seq![b] =~= seq![a, b]);
        assert(one_if(false, a) + seq![b] =~= seq![b]);
    }
}

/// A difference of direct routes is carried out whole: every installed route
/// and every withdrawn key has its task, and there are no others.
pub proof fn differences_are_carried_out(
    st: RouterState,
    installed: Seq<Route>,
    withdrawn: Seq<RouteKey>,
    i: int,
)
    ensures
        0 <= i < installed.len() ==> after_delta(st, installed, withdrawn).agenda.contains(
            Task::InstallDirect { route: installed[i] },
        ),
        0 <= i < withdrawn.len() ==> after_delta(st, installed, withdrawn).agenda.contains(
            Task::WithdrawDirect { key: withdrawn[i] },
        ),
{
    let a = gather(installed, install_task());
    let b = gather(withdrawn, withdraw_task());
    let tasks = a + b;
    if 0 <= i < installed.len() {
        let t = Task::InstallDirect { route: installed[i] };
        assert(install_task()(installed[i])[0] == t);
        assert(install_task()(installed[i]).contains(t));
        gather_includes(installed, install_task(), i, t);
        let j = choose|j: int| 0 <= j < a.len() && a[j] == t;
        assert(tasks[j] == t);
        lemma_on_agenda(st, tasks, j);
    }
    if 0 <= i < withdrawn.len() {
        let t = Task::WithdrawDirect { key: withdrawn[i] };
        assert(withdraw_task()(withdrawn[i])[0] == t);
        assert(withdraw_task()(withdrawn[i]).contains(t));
        gather_includes(withdrawn, withdraw_task(), i, t);
        let j = choose|j: int| 0 <= j < b.len() && b[j] == t;
        assert(tasks[a.len() + j] == t);
        lemma_on_agenda(st, tasks, a.len() + j);
    }
}

/// A route is taken for the copy of a pipe when it agrees with the copy kept
/// for its destination in all but its age, path identifier and tag.
pub proof fn copies_are_recognised(st: RouterState, route: Route)
    ensures
        is_copy(st, route) <==> match lookup(st.redistributed, route.key) {
            Some(c) => {
                &&& c.protocol == route.protocol
                &&& c.origin == route.origin
                &&& c.preference == route.preference
                &&& c.attributes == route.attributes
                &&& c.next_hop == route.next_hop
            },
            None => false,
        },
{
}

/// A copy is replaced when its source comes with another metric, next hop,
/// peer or attributes, and left alone when it does not.
pub proof fn changed_sources_change_their_copy(
    st: RouterState,
    route: Route,
    metric: u32,
    old_copy: Route,
)
    requires
        lookup(st.redistributed, route.key) == Some(old_copy),
        (route.key.family.afi == 1 || route.key.family.afi == 2) && route.key.family.safi == 1,
    ensures
        ({
            let next = after_pipe_bgp(st, route, metric);
            let copy = copy_of(route, metric, st.now_ms);
            let same = old_copy.origin == copy.origin && old_copy.preference == copy.preference
                && old_copy.attributes == copy.attributes && old_copy.next_hop == copy.next_hop;
            &&& same ==> next == st
            &&& !same ==> lookup(next.redistributed, route.key) == Some(copy)
                && next.agenda.len() == st.agenda.len() + 2
        }),
{
}

/// An aggregate that is wanted leaves alone what is originated for its prefix
/// already, and one that is not wanted leaves alone what is no aggregate.
pub proof fn aggregates_spare_other_routes(
    st: RouterState,
    prefix: Prefix,
    local_as: u32,
    bgp_id: u32,
)
    ensures
        ({
            let key = RouteKey {
                prefix,
                family: if prefix.addr is V4 {
                    NlriFamily { afi: 1, safi: 1 }
                } else {
                    NlriFamily { afi: 2, safi: 1 }
                },
                source: None,
            };
            &&& st.originated.contains_key(key) ==> after_aggregate(
                st,
                prefix,
                true,
                local_as,
                bgp_id,
            ) == st
            &&& !st.aggregated.contains_key(key) ==> {
                &&& after_aggregate(st, prefix, false, local_as, bgp_id) == st
                &&& after_remove_aggregate(st, prefix).originated == st.originated
                &&& after_remove_aggregate(st, prefix).loc == st.loc
            }
        }),
{
}

proof fn lemma_no_pipe_goes(pipes: Seq<RedistributionPipe>, source: Protocol, target: Protocol)
    requires
        forall|i: int|
            0 <= i < pipes.len() ==> !((#[trigger] pipes[i]).source == source && pipes[i].target
                == target),
    ensures
        gather(pipes, other_pipe(source, target)) == pipes,
    decreases pipes.len(),
{
    if pipes.len() > 0 {
        let front = pipes.drop_last();
        assert forall|i: int| 0 <= i < front.len() implies !((#[trigger] front[i]).source == source
            && front[i].target == target) by {
            assert(front[i] == pipes[i]);
        }
        lemma_no_pipe_goes(front, source, target);
        let last = pipes[pipes.len() - 1];
        assert(other_pipe(source, target)(last) == seq![last]);
        assert(gather(pipes, other_pipe(source, target)) =~= pipes);
    }
}

/// Removing pipes where there are none changes nothing.
pub proof fn removing_no_pipe_changes_nothing(st: RouterState, source: Protocol, target: Protocol)
    requires
        forall|i: int|
            0 <= i < st.pipes.len() ==> !((#[trigger] st.pipes[i]).source == source
                && st.pipes[i].target == target),
    ensures
        after_remove_pipe(st, source, target) == st,
{
    lemma_no_pipe_goes(st.pipes, source, target);
}

} // verus!
