//! Local routes: originated, static and aggregated ones, copies made by
//! pipes, and what OSPF and Babel contribute directly.

use crate::addr::{IpAddr, NlriFamily, Prefix, SAFI_LABELED};
use crate::delta::RuntimeDelta;
use crate::events::{LogEntry, RouterEvent};
use crate::list::List;
use crate::ordmap::{lookup, sorted, OrdMap};
use crate::ospf::plan::{ExternalDestination, V3ExternalDestination};
use crate::ospf::table::ExternalMetricType;
use crate::route::{
    unicast_family, Attributes, Preference, Protocol, Route, RouteKey, RouteOrigin, ORIGIN_LOCAL,
};
use crate::router::paths::ToKey;
use crate::router::selection::{best, candidates, choose_rule, held, rule_for};
use crate::router::{DefaultRouter, RouterState};
use crate::select::{any_key, find_values, has_accepted, values_where, KeyTest};
use crate::seqs::{gather, gather_step, gather_whole, one_if};
use crate::session::Session;
use crate::task::{RedistributionPipe, Task};
use crate::value::Value;
use vstd::prelude::*;

verus! {

/// A single path as a ranking.
pub open spec fn alone(route: Route) -> List<Route> {
    List::Cons(route, Box::new(List::Nil))
}

/// A BGP route of this router's own.
pub open spec fn own_route(
    key: RouteKey,
    next_hop: Option<IpAddr>,
    attributes: Attributes,
    age_ms: u64,
) -> Route {
    Route {
        key,
        origin: RouteOrigin { proto: ORIGIN_LOCAL, peer: 0 },
        protocol: Protocol::Bgp,
        preference: Preference { admin_distance: Protocol::Bgp.distance(), metric: 0 },
        next_hop,
        attributes,
        age_ms,
        path_id: 0,
        tag: None,
    }
}

/// A local route comes into force: it is reported, exported and carried
/// through the pipes, and aggregates that cover it are reconsidered.
pub open spec fn in_force(st: RouterState, route: Route) -> RouterState {
    (RouterState { loc: st.loc.insert(route.key, alone(route)), ..st }).report(
        RouterEvent::RouteInstalled(route),
    ).schedule(
        seq![
            Task::Export { key: route.key, ranked: alone(route) },
            Task::Redistribute { route },
            Task::Aggregates,
        ],
    )
}

/// A route of this router's own is originated, in place of an aggregate where
/// one is there. It comes into force, but competes where a static route is
/// there.
pub open spec fn after_originate(st: RouterState, route: Route) -> RouterState {
    let kept = RouterState {
        originated: st.originated.insert(route.key, route),
        aggregated: st.aggregated.remove(route.key),
        ..st
    };
    if st.statics.contains_key(route.key) {
        kept.schedule(seq![Task::Reselect { key: route.key }])
    } else {
        in_force(kept, route)
    }
}

/// The attributes of an originated path: IPv4 unicast carries its next hop
/// among them.
pub open spec fn local_attributes(family: NlriFamily, next_hop: Option<IpAddr>) -> Attributes {
    Attributes {
        next_hop: if family == NlriFamily::ipv4_unicast() {
            next_hop
        } else {
            None
        },
        ..Attributes::local()
    }
}

/// The route that originating a prefix makes.
pub open spec fn family_route(
    prefix: Prefix,
    family: NlriFamily,
    next_hop: Option<IpAddr>,
) -> Route {
    own_route(
        RouteKey { prefix, family, source: None },
        next_hop,
        local_attributes(family, next_hop),
        0,
    )
}

/// Attributes that carry a next hop, the given one where they have none.
pub open spec fn with_next_hop(a: Attributes, next_hop: Option<IpAddr>) -> Attributes {
    Attributes {
        next_hop: match a.next_hop {
            Some(hop) => Some(hop),
            None => next_hop,
        },
        ..a
    }
}

/// Whether a family carries labels.
pub open spec fn labeled(family: NlriFamily) -> bool {
    (family.afi == 1 || family.afi == 2) && family.safi == SAFI_LABELED
}

/// The route that originating a labelled prefix makes; families without
/// labels drop them.
pub open spec fn labeled_route(
    prefix: Prefix,
    family: NlriFamily,
    labels: List<u32>,
    next_hop: Option<IpAddr>,
) -> Route {
    if labeled(family) {
        own_route(
            RouteKey { prefix, family, source: None },
            next_hop,
            Attributes { labels, ..Attributes::local() },
            0,
        )
    } else {
        family_route(prefix, family, next_hop)
    }
}

/// An originated route is withdrawn: a copy made of it goes first, then its
/// destination is reselected. A copy of another contribution stays.
pub open spec fn after_unoriginate(st: RouterState, key: RouteKey) -> RouterState {
    if st.originated.contains_key(key) {
        (RouterState {
            originated: st.originated.remove(key),
            aggregated: st.aggregated.remove(key),
            ..st
        }).schedule(
            seq![Task::ReleaseCopy { key }, Task::Reselect { key }],
        )
    } else {
        st
    }
}

/// A static route. Without next hop it discards what it attracts.
pub open spec fn static_route(
    key: RouteKey,
    next_hop: Option<IpAddr>,
    metric: u32,
    tag: Option<u32>,
) -> Route {
    Route {
        key,
        origin: RouteOrigin { proto: ORIGIN_LOCAL, peer: 0 },
        protocol: Protocol::Static,
        preference: Preference { admin_distance: Protocol::Static.distance(), metric },
        next_hop,
        attributes: Attributes::none(),
        age_ms: 0,
        path_id: 0,
        tag,
    }
}

/// A static route comes into force.
pub open spec fn after_static(st: RouterState, route: Route) -> RouterState {
    in_force(RouterState { statics: st.statics.insert(route.key, route), ..st }, route)
}

/// A static route is removed.
pub open spec fn after_unstatic(st: RouterState, key: RouteKey) -> RouterState {
    if st.statics.contains_key(key) {
        (RouterState { statics: st.statics.remove(key), ..st }).schedule(
            seq![Task::ReleaseCopy { key }, Task::Reselect { key }],
        )
    } else {
        st
    }
}

/// Destinations inside an aggregate and more specific than it.
#[derive(Clone, Copy, Debug, PartialEq, Eq, Structural)]
pub struct MoreSpecific(pub Prefix);

impl KeyTest<RouteKey> for MoreSpecific {
    open spec fn accepts(&self, k: RouteKey) -> bool {
        self.0.covers(k.prefix) && k.prefix.prefix_len > self.0.prefix_len
    }

    fn test(&self, k: &RouteKey) -> (b: bool) {
        self.0.contains_prefix(&k.prefix) && k.prefix.prefix_len > self.0.prefix_len
    }
}

/// AS and identifier of the first BGP session, or zeros.
pub open spec fn speaker(sessions: Seq<(u64, Session)>) -> (u32, u32)
    decreases sessions.len(),
{
    if sessions.len() == 0 {
        (0, 0)
    } else {
        match sessions[0].1 {
            Session::Bgp(b) => (b.config.local_as, b.config.local_bgp_id),
            _ => speaker(sessions.drop_first()),
        }
    }
}

/// The reconsideration of one aggregate.
pub open spec fn aggregate_task(
    loc: Map<RouteKey, List<Route>>,
    local_as: u32,
    bgp_id: u32,
) -> spec_fn((Prefix, ())) -> Seq<Task> {
    |e: (Prefix, ())|
        seq![
            Task::Aggregate {
                prefix: e.0,
                wanted: any_key(loc, MoreSpecific(e.0)),
                local_as,
                bgp_id,
            },
        ]
}

/// Every aggregate is reconsidered against the table.
pub open spec fn after_aggregates(st: RouterState) -> RouterState {
    let (local_as, bgp_id) = speaker(sorted(st.sessions));
    st.schedule(gather(sorted(st.aggregates), aggregate_task(st.loc, local_as, bgp_id)))
}

/// The destination of an aggregate.
pub open spec fn aggregate_key(prefix: Prefix) -> RouteKey {
    RouteKey { prefix, family: unicast_family(prefix), source: None }
}

/// The route of an aggregate: an empty AS path, marked as aggregated here.
pub open spec fn aggregate_route(prefix: Prefix, local_as: u32, bgp_id: u32, now_ms: u64) -> Route {
    own_route(
        aggregate_key(prefix),
        None,
        Attributes {
            atomic_aggregate: true,
            aggregator: Some((local_as, bgp_id)),
            ..Attributes::local()
        },
        now_ms,
    )
}

/// An aggregate is originated when something more specific is there, and
/// withdrawn when nothing is. A network that was originated by itself stays.
pub open spec fn after_aggregate(
    st: RouterState,
    prefix: Prefix,
    wanted: bool,
    local_as: u32,
    bgp_id: u32,
) -> RouterState {
    let key = aggregate_key(prefix);
    if wanted && !st.originated.contains_key(key) {
        RouterState {
            aggregated: st.aggregated.insert(key, ()),
            ..after_originate(st, aggregate_route(prefix, local_as, bgp_id, st.now_ms))
        }
    } else if !wanted && st.aggregated.contains_key(key) {
        after_unoriginate(st, key)
    } else {
        st
    }
}

/// An aggregate is no longer wanted, and withdrawn if it was originated.
pub open spec fn after_remove_aggregate(st: RouterState, prefix: Prefix) -> RouterState {
    let rest = RouterState { aggregates: st.aggregates.remove(prefix), ..st };
    if st.aggregates.contains_key(prefix) && st.aggregated.contains_key(aggregate_key(prefix)) {
        after_unoriginate(rest, aggregate_key(prefix))
    } else {
        rest
    }
}

/// Whether two routes agree in what makes a copy a copy; age does not count.
pub open spec fn same_copy(a: Route, b: Route) -> bool {
    a.origin == b.origin && a.preference == b.preference && a.attributes == b.attributes
        && a.next_hop == b.next_hop
}

/// Whether a route is the copy that a pipe made for its destination.
pub open spec fn is_copy(st: RouterState, route: Route) -> bool {
    match lookup(st.redistributed, route.key) {
        Some(c) => c.protocol == route.protocol && same_copy(c, route),
        None => false,
    }
}

/// The question whether a pipe takes a route.
pub open spec fn pipe_task(route: Route) -> spec_fn(RedistributionPipe) -> Seq<Task> {
    |p: RedistributionPipe|
        one_if(p.source == route.protocol, Task::AskPipe { route, pipe: p })
}

/// A route is carried through the pipes of its protocol, unless it came out
/// of one.
pub open spec fn after_redistribute(st: RouterState, route: Route) -> RouterState {
    if is_copy(st, route) {
        st
    } else {
        st.schedule(gather(st.pipes, pipe_task(route)))
    }
}

/// The copy of a route that a pipe puts into BGP. It keeps the peer of its
/// source, so that it is not told back to it.
pub open spec fn copy_of(route: Route, metric: u32, now_ms: u64) -> Route {
    Route {
        key: route.key,
        origin: RouteOrigin { proto: ORIGIN_LOCAL, peer: route.origin.peer },
        protocol: Protocol::Bgp,
        preference: Preference { admin_distance: Protocol::Bgp.distance(), metric },
        next_hop: route.next_hop,
        attributes: local_attributes(route.key.family, route.next_hop),
        age_ms: now_ms,
        path_id: 0,
        tag: None,
    }
}

/// Whether a copy was made of a route, under whatever metric.
pub open spec fn made_of(copy: Route, route: Route) -> bool {
    same_copy(copy, copy_of(route, copy.preference.metric, 0))
}

/// The report of a redistribution.
pub open spec fn piped_report(route: Route, target: Protocol, metric: u32) -> Task {
    Task::Report(
        RouterEvent::Log(
            LogEntry::Redistributed { prefix: route.key.prefix, target, metric },
        ),
    )
}

/// A pipe into BGP takes a route: its copy competes with what peers
/// contribute and with a static route. Only unicast families are carried, and a
/// copy that is there already changes nothing.
pub open spec fn after_pipe_bgp(st: RouterState, route: Route, metric: u32) -> RouterState {
    let copy = copy_of(route, metric, st.now_ms);
    let rivals = values_where(st.adj_in, ToKey(route.key)).push(copy) + held(st.statics, route.key);
    let unchanged = match lookup(st.redistributed, route.key) {
        Some(c) => same_copy(c, copy),
        None => false,
    };
    if (route.key.family != NlriFamily::ipv4_unicast() && route.key.family
        != NlriFamily::ipv6_unicast()) || unchanged {
        st
    } else {
        (RouterState { redistributed: st.redistributed.insert(route.key, copy), ..st }).schedule(
            seq![
                Task::Rank {
                    key: route.key,
                    candidates: List::of(rivals),
                    rule: rule_for(rivals),
                },
                piped_report(route, Protocol::Bgp, metric),
            ],
        )
    }
}

/// The external destination that a pipe into OSPFv2 makes of a route.
pub open spec fn piped_external(route: Route, metric: u32, tag: u32) -> ExternalDestination {
    ExternalDestination {
        prefix: route.key.prefix,
        metric,
        metric_type: ExternalMetricType::Type1,
        forwarding_addr: 0,
        route_tag: tag,
        p_bit: true,
    }
}

/// The external destination that a pipe into OSPFv3 makes of a route; a tag
/// of 0 is no tag.
pub open spec fn piped_external_v3(route: Route, metric: u32, tag: u32) -> V3ExternalDestination {
    V3ExternalDestination {
        prefix: route.key.prefix,
        metric,
        type2: false,
        forwarding_addr: None,
        route_tag: if tag != 0 {
            Some(tag)
        } else {
            None
        },
    }
}

/// A pipe decided on a route. IPv4 prefixes go into OSPFv2 only, IPv6 ones
/// into OSPFv3 only.
pub open spec fn after_piped(
    st: RouterState,
    route: Route,
    pipe: RedistributionPipe,
    taken: Option<u32>,
) -> RouterState {
    match taken {
        None => st,
        Some(metric) => match (pipe.target, route.key.prefix.addr) {
            (Protocol::Bgp, _) => after_pipe_bgp(st, route, metric),
            (Protocol::Ospfv2, IpAddr::V4(_)) => st.schedule(
                seq![
                    Task::OspfExternal { dest: piped_external(route, metric, pipe.tag) },
                    piped_report(route, Protocol::Ospfv2, metric),
                ],
            ),
            (Protocol::Ospfv3, IpAddr::V6(_)) => st.schedule(
                seq![
                    Task::OspfExternalV3 { dest_v3: piped_external_v3(route, metric, pipe.tag) },
                    piped_report(route, Protocol::Ospfv3, metric),
                ],
            ),
            _ => st,
        },
    }
}

/// Whether a pipe carries routes of a protocol into BGP.
pub open spec fn carried(pipes: Seq<RedistributionPipe>, source: Protocol) -> bool {
    exists|i: int|
        0 <= i < pipes.len() && (#[trigger] pipes[i]).source == source && pipes[i].target
            == Protocol::Bgp
}

/// Whether one of the contributions to a destination is the source of a copy.
pub open spec fn sourced_by(
    pipes: Seq<RedistributionPipe>,
    s: Seq<Route>,
    copy: Route,
) -> bool {
    exists|i: int|
        0 <= i < s.len() && made_of(copy, #[trigger] s[i]) && carried(pipes, s[i].protocol)
}

/// The copy of a destination is dropped, unless its source is still there.
pub open spec fn after_release(st: RouterState, key: RouteKey) -> RouterState {
    match lookup(st.redistributed, key) {
        Some(copy) => if sourced_by(st.pipes, candidates(st, key), copy) {
            st
        } else {
            after_unredistribute(st, key)
        },
        None => st,
    }
}

/// The copy of a destination is dropped.
pub open spec fn after_unredistribute(st: RouterState, key: RouteKey) -> RouterState {
    if st.redistributed.contains_key(key) {
        (RouterState { redistributed: st.redistributed.remove(key), ..st }).log(
            LogEntry::Unredistributed { prefix: key.prefix },
        )
    } else {
        st
    }
}

/// The best path of a table entry is carried through the pipes.
pub open spec fn scan_task() -> spec_fn((RouteKey, List<Route>)) -> Seq<Task> {
    |e: (RouteKey, List<Route>)|
        match e.1 {
            List::Cons(r, _) => seq![Task::Redistribute { route: r }],
            List::Nil => Seq::empty(),
        }
}

/// A pipe is added, and takes what is there already.
pub open spec fn after_add_pipe(st: RouterState, pipe: RedistributionPipe) -> RouterState {
    (RouterState { pipes: st.pipes.push(pipe), ..st }).schedule(
        gather(sorted(st.loc), scan_task()),
    )
}

/// A pipe, unless it joins the two protocols.
pub open spec fn other_pipe(source: Protocol, target: Protocol) -> spec_fn(
    RedistributionPipe,
) -> Seq<RedistributionPipe> {
    |p: RedistributionPipe| one_if(!(p.source == source && p.target == target), p)
}

/// A copy is dropped and its destination reselected.
pub open spec fn unscan_task() -> spec_fn((RouteKey, Route)) -> Seq<Task> {
    |e: (RouteKey, Route)|
        seq![Task::Unredistribute { key: e.0 }, Task::Reselect { key: e.0 }]
}

/// The pipes between two protocols are removed. With a pipe into BGP go the
/// copies.
pub open spec fn after_remove_pipe(
    st: RouterState,
    source: Protocol,
    target: Protocol,
) -> RouterState {
    let rest = gather(st.pipes, other_pipe(source, target));
    let removed = RouterState { pipes: rest, ..st };
    if rest.len() < st.pipes.len() && target == Protocol::Bgp {
        removed.schedule(gather(sorted(st.redistributed), unscan_task()))
    } else {
        removed
    }
}

/// Whether a destination has other contributions than a direct one.
pub open spec fn contested(st: RouterState, key: RouteKey) -> bool {
    any_key(st.adj_in, ToKey(key)) || st.originated.contains_key(key)
        || st.redistributed.contains_key(key) || st.statics.contains_key(key)
}

/// A direct route is contributed: it competes where anything else is there,
/// else it comes into force at once.
pub open spec fn after_install_direct(st: RouterState, route: Route) -> RouterState {
    let kept = RouterState { direct: st.direct.insert(route.key, route), ..st };
    if contested(st, route.key) {
        kept.schedule(seq![Task::Reselect { key: route.key }])
    } else {
        (RouterState { loc: st.loc.insert(route.key, alone(route)), ..kept }).report(
            RouterEvent::RouteInstalled(route),
        ).schedule(seq![Task::Redistribute { route }, Task::Aggregates])
    }
}

/// A direct route is withdrawn: a copy made of it goes with it, and the
/// destination is reselected.
pub open spec fn after_withdraw_direct(st: RouterState, key: RouteKey) -> RouterState {
    if st.direct.contains_key(key) {
        let sourced = match lookup(st.redistributed, key) {
            Some(c) => c.origin.peer == st.direct[key].origin.peer,
            None => false,
        };
        (RouterState { direct: st.direct.remove(key), ..st }).schedule(
            one_if(sourced, Task::ReleaseCopy { key }) + seq![Task::Reselect { key }],
        )
    } else {
        (RouterState { loc: st.loc.remove(key), ..st }).report(
            RouterEvent::RouteWithdrawn(key),
        ).schedule(seq![Task::Aggregates])
    }
}

/// The contribution of a direct route.
pub open spec fn install_task() -> spec_fn(Route) -> Seq<Task> {
    |r: Route| seq![Task::InstallDirect { route: r }]
}

/// The withdrawal of a direct route.
pub open spec fn withdraw_task() -> spec_fn(RouteKey) -> Seq<Task> {
    |k: RouteKey| seq![Task::WithdrawDirect { key: k }]
}

/// A difference of direct routes is put into force.
pub open spec fn after_delta(
    st: RouterState,
    installed: Seq<Route>,
    withdrawn: Seq<RouteKey>,
) -> RouterState {
    st.schedule(gather(installed, install_task()) + gather(withdrawn, withdraw_task()))
}

fn make_own(key: RouteKey, next_hop: Option<IpAddr>, attributes: Attributes, age_ms: u64) -> (r:
    Route)
    ensures
        r == own_route(key, next_hop, attributes, age_ms),
{
    Route {
        key,
        origin: RouteOrigin { proto: ORIGIN_LOCAL, peer: 0 },
        protocol: Protocol::Bgp,
        preference: Preference {
            admin_distance: Protocol::Bgp.default_admin_distance(),
            metric: 0,
        },
        next_hop,
        attributes,
        age_ms,
        path_id: 0,
        tag: None,
    }
}

fn make_attributes(family: NlriFamily, next_hop: Option<IpAddr>) -> (a: Attributes)
    ensures
        a == local_attributes(family, next_hop),
{
    let mut a = Attributes::new_local();
    if family == NlriFamily::ipv4_unicast() {
        a.next_hop = next_hop;
    }
    a
}

/// Whether a copy was made of a route, under whatever metric.
pub fn copied_from(copy: &Route, route: &Route) -> (b: bool)
    ensures
        b == made_of(*copy, *route),
{
    let attributes = make_attributes(route.key.family, route.next_hop);
    copy.origin == RouteOrigin { proto: ORIGIN_LOCAL, peer: route.origin.peer }
        && copy.preference.admin_distance == Protocol::Bgp.default_admin_distance()
        && copy.attributes.same(&attributes) && copy.next_hop == route.next_hop
}

fn agree(a: &Route, b: &Route) -> (r: bool)
    ensures
        r == same_copy(*a, *b),
{
    a.origin == b.origin && a.preference == b.preference && a.attributes.same(&b.attributes)
        && a.next_hop.same(&b.next_hop)
}

impl DefaultRouter {
    /// Puts a local route into force.
    fn put_in_force(&mut self, route: Route)
        ensures
            final(self)@ == in_force(old(self)@, route),
    {
        let key: RouteKey = route.key;
        self.loc.insert(key, List::Cons(route.dup(), Box::new(List::Nil)));
        self.report(RouterEvent::RouteInstalled(route.dup()));
        self.schedule(
            vec![
                Task::Export { key, ranked: List::Cons(route.dup(), Box::new(List::Nil)) },
                Task::Redistribute { route },
                Task::Aggregates,
            ],
        );
    }

    /// Puts a route of this router's own into force.
    fn originate_route(&mut self, route: Route)
        ensures
            final(self)@ == after_originate(old(self)@, route),
    {
        let key: RouteKey = route.key;
        self.originated.insert(key, route.dup());
        self.aggregated.remove(&key);
        if self.statics.contains_key(&key) {
            self.schedule(vec![Task::Reselect { key }]);
        } else {
            self.put_in_force(route);
        }
    }

    /// Originates an IPv4 unicast route.
    pub fn originate(&mut self, prefix: Prefix, next_hop: Option<IpAddr>) -> (key: RouteKey)
        ensures
            key == (RouteKey { prefix, family: NlriFamily::ipv4_unicast(), source: None }),
            final(self)@ == after_originate(
                old(self)@,
                family_route(prefix, NlriFamily::ipv4_unicast(), next_hop),
            ),
    {
        self.originate_family(prefix, NlriFamily::ipv4_unicast(), next_hop)
    }

    /// Originates a route of a family.
    pub fn originate_family(
        &mut self,
        prefix: Prefix,
        family: NlriFamily,
        next_hop: Option<IpAddr>,
    ) -> (key: RouteKey)
        ensures
            key == (RouteKey { prefix, family, source: None }),
            final(self)@ == after_originate(
                old(self)@,
                family_route(prefix, family, next_hop),
            ),
    {
        let key = RouteKey::new(prefix, family);
        let attributes = make_attributes(family, next_hop);
        self.originate_route(make_own(key, next_hop, attributes, 0));
        key
    }

    /// Originates a route with given attributes.
    pub fn originate_with_attributes(
        &mut self,
        prefix: Prefix,
        family: NlriFamily,
        next_hop: Option<IpAddr>,
        attributes: Attributes,
    ) -> (key: RouteKey)
        ensures
            key == (RouteKey { prefix, family, source: None }),
            final(self)@ == after_originate(
                old(self)@,
                own_route(
                    RouteKey { prefix, family, source: None },
                    next_hop,
                    with_next_hop(attributes, next_hop),
                    0,
                ),
            ),
    {
        let key = RouteKey::new(prefix, family);
        let mut a = attributes;
        if a.next_hop.is_none() {
            a.next_hop = next_hop;
        }
        self.originate_route(make_own(key, next_hop, a, 0));
        key
    }

    /// Originates a labelled route.
    pub fn originate_labeled(
        &mut self,
        prefix: Prefix,
        family: NlriFamily,
        labels: List<u32>,
        next_hop: Option<IpAddr>,
    ) -> (key: RouteKey)
        ensures
            key == (RouteKey { prefix, family, source: None }),
            final(self)@ == after_originate(
                old(self)@,
                labeled_route(prefix, family, labels, next_hop),
            ),
    {
        if (family.afi == 1 || family.afi == 2) && family.safi == SAFI_LABELED {
            let key = RouteKey::new(prefix, family);
            let mut a = Attributes::new_local();
            a.labels = labels;
            self.originate_route(make_own(key, next_hop, a, 0));
            key
        } else {
            self.originate_family(prefix, family, next_hop)
        }
    }

    /// Withdraws an originated route; tells whether there was one.
    pub fn unoriginate(&mut self, key: &RouteKey) -> (removed: bool)
        ensures
            removed == old(self)@.originated.contains_key(*key),
            final(self)@ == after_unoriginate(old(self)@, *key),
    {
        if self.originated.remove(key).is_some() {
            self.aggregated.remove(key);
            self.schedule(vec![Task::ReleaseCopy { key: *key }, Task::Reselect { key: *key }]);
            true
        } else {
            false
        }
    }

    /// Installs a static route.
    pub fn install_static(
        &mut self,
        prefix: Prefix,
        family: NlriFamily,
        next_hop: Option<IpAddr>,
        metric: u32,
        tag: Option<u32>,
    ) -> (key: RouteKey)
        ensures
            key == (RouteKey { prefix, family, source: None }),
            final(self)@ == after_static(
                old(self)@,
                static_route(RouteKey { prefix, family, source: None }, next_hop, metric, tag),
            ),
    {
        let key = RouteKey::new(prefix, family);
        let route = Route {
            key,
            origin: RouteOrigin { proto: ORIGIN_LOCAL, peer: 0 },
            protocol: Protocol::Static,
            preference: Preference {
                admin_distance: Protocol::Static.default_admin_distance(),
                metric,
            },
            next_hop,
            attributes: Attributes::new(),
            age_ms: 0,
            path_id: 0,
            tag,
        };
        self.statics.insert(key, route.dup());
        self.put_in_force(route);
        key
    }

    /// Removes a static route; tells whether there was one.
    pub fn uninstall_static(&mut self, key: &RouteKey) -> (removed: bool)
        ensures
            removed == old(self)@.statics.contains_key(*key),
            final(self)@ == after_unstatic(old(self)@, *key),
    {
        if self.statics.remove(key).is_some() {
            self.schedule(vec![Task::ReleaseCopy { key: *key }, Task::Reselect { key: *key }]);
            true
        } else {
            false
        }
    }

    /// The static routes.
    pub fn static_routes(&self) -> (m: &OrdMap<RouteKey, Route>)
        ensures
            m@ == self@.statics,
    {
        &self.statics
    }

    /// Registers an aggregate.
    pub fn add_aggregate(&mut self, prefix: Prefix)
        ensures
            final(self)@ == (RouterState {
                aggregates: old(self)@.aggregates.insert(prefix, ()),
                ..old(self)@
            }).schedule(seq![Task::Aggregates]),
    {
        self.aggregates.insert(prefix, ());
        self.schedule(vec![Task::Aggregates]);
    }

    /// Removes an aggregate, and withdraws its route.
    pub fn remove_aggregate(&mut self, prefix: &Prefix)
        ensures
            final(self)@ == after_remove_aggregate(old(self)@, *prefix),
    {
        if self.aggregates.remove(prefix).is_some() {
            let key = RouteKey::unicast(*prefix);
            if self.aggregated.contains_key(&key) {
                self.unoriginate(&key);
            }
        }
        assert(old(self)@.aggregates.contains_key(*prefix) || old(self)@.aggregates.remove(*prefix)
            =~= old(self)@.aggregates);
    }

    /// AS and identifier of the first BGP session.
    fn find_speaker(&self) -> (r: (u32, u32))
        ensures
            r == speaker(sorted(self@.sessions)),
    {
        let n: usize = self.sessions.len();
        let ghost s = self.sessions.entries();
        let mut i: usize = 0;
        assert(s.skip(0) == s);
        while i < n
            invariant
                i <= n == s.len(),
                s == self.sessions.entries(),
                s == sorted(self@.sessions),
                speaker(s) == speaker(s.skip(i as int)),
            decreases n - i,
        {
            assert(s.skip(i as int)[0] == s[i as int]);
            assert(s.skip(i as int).drop_first() == s.skip(i + 1));
            if let Session::Bgp(b) = self.sessions.value_at(i) {
                return (b.config.local_as, b.config.local_bgp_id);
            }
            i = i + 1;
        }
        (0, 0)
    }

    /// Reconsiders every aggregate.
    pub fn recompute_aggregates(&mut self)
        ensures
            final(self)@ == after_aggregates(old(self)@),
    {
        let (local_as, bgp_id) = self.find_speaker();
        let mut tasks: Vec<Task> = Vec::new();
        let ghost f = aggregate_task(self@.loc, local_as, bgp_id);
        let n: usize = self.aggregates.len();
        proof {
            gather_whole(self.aggregates.entries(), f);
        }
        let mut i: usize = 0;
        while i < n
            invariant
                i <= n == self.aggregates.entries().len(),
                f == aggregate_task(self@.loc, local_as, bgp_id),
                tasks@ == gather(self.aggregates.entries().take(i as int), f),
            decreases n - i,
        {
            proof {
                gather_step(self.aggregates.entries(), i as int, f);
            }
            let prefix: Prefix = self.aggregates.key_at(i);
            let wanted: bool = has_accepted(&self.loc, &MoreSpecific(prefix));
            tasks.push(Task::Aggregate { prefix, wanted, local_as, bgp_id });
            i = i + 1;
        }
        self.schedule(tasks);
    }

    /// Originates or withdraws an aggregate.
    pub fn settle_aggregate(&mut self, prefix: Prefix, wanted: bool, local_as: u32, bgp_id: u32)
        ensures
            final(self)@ == after_aggregate(old(self)@, prefix, wanted, local_as, bgp_id),
    {
        let key = RouteKey::unicast(prefix);
        if wanted && !self.originated.contains_key(&key) {
            let mut a = Attributes::new_local();
            a.atomic_aggregate = true;
            a.aggregator = Some((local_as, bgp_id));
            let now: u64 = self.now_ms;
            self.originate_route(make_own(key, None, a, now));
            self.aggregated.insert(key, ());
            assert(old(self)@.aggregated.remove(key).insert(key, ()) =~= old(
                self,
            )@.aggregated.insert(key, ()));
        } else if !wanted && self.aggregated.contains_key(&key) {
            self.unoriginate(&key);
        }
    }

    /// Carries a route through the pipes.
    pub fn redistribute_route(&mut self, route: Route)
        ensures
            final(self)@ == after_redistribute(old(self)@, route),
    {
        let copy: bool = match self.redistributed.get(&route.key) {
            Some(c) => c.protocol == route.protocol && agree(c, &route),
            None => false,
        };
        if copy {
            return;
        }
        let mut tasks: Vec<Task> = Vec::new();
        let ghost f = pipe_task(route);
        proof {
            gather_whole(self.pipes@, f);
        }
        let mut i: usize = 0;
        while i < self.pipes.len()
            invariant
                i <= self.pipes@.len(),
                f == pipe_task(route),
                tasks@ == gather(self.pipes@.take(i as int), f),
            decreases self.pipes@.len() - i,
        {
            proof {
                gather_step(self.pipes@, i as int, f);
            }
            let pipe = self.pipes[i];
            if pipe.source == route.protocol {
                tasks.push(Task::AskPipe { route: route.dup(), pipe });
            }
            i = i + 1;
        }
        self.schedule(tasks);
    }

    /// Puts the copy of a route into BGP.
    fn pipe_into_bgp(&mut self, route: &Route, metric: u32)
        ensures
            final(self)@ == after_pipe_bgp(old(self)@, *route, metric),
    {
        let key: RouteKey = route.key;
        if key.family != NlriFamily::ipv4_unicast() && key.family != NlriFamily::ipv6_unicast() {
            return;
        }
        let copy = Route {
            key,
            origin: RouteOrigin { proto: ORIGIN_LOCAL, peer: route.origin.peer },
            protocol: Protocol::Bgp,
            preference: Preference {
                admin_distance: Protocol::Bgp.default_admin_distance(),
                metric,
            },
            next_hop: route.next_hop,
            attributes: make_attributes(key.family, route.next_hop),
            age_ms: self.now_ms,
            path_id: 0,
            tag: None,
        };
        let unchanged: bool = match self.redistributed.get(&key) {
            Some(c) => agree(c, &copy),
            None => false,
        };
        if unchanged {
            return;
        }
        let mut s = find_values(&self.adj_in, &ToKey(key));
        s.push(copy.dup());
        if let Some(r) = self.statics.get(&key) {
            s.push(r.dup());
        }
        assert(s@ =~= values_where(self@.adj_in, ToKey(key)).push(copy) + held(self@.statics, key));
        let rule = choose_rule(&s);
        self.redistributed.insert(key, copy);
        self.schedule(
            vec![
                Task::Rank { key, candidates: List::from_vec(s), rule },
                Task::Report(
                    RouterEvent::Log(
                        LogEntry::Redistributed {
                            prefix: key.prefix,
                            target: Protocol::Bgp,
                            metric,
                        },
                    ),
                ),
            ],
        );
    }

    /// Acts on a pipe's decision.
    pub fn piped(&mut self, route: &Route, pipe: RedistributionPipe, taken: Option<u32>)
        ensures
            final(self)@ == after_piped(old(self)@, *route, pipe, taken),
    {
        if let Some(metric) = taken {
            match (pipe.target, route.key.prefix.addr) {
                (Protocol::Bgp, _) => self.pipe_into_bgp(route, metric),
                (Protocol::Ospfv2, IpAddr::V4(_)) => {
                    let dest = ExternalDestination {
                        prefix: route.key.prefix,
                        metric,
                        metric_type: ExternalMetricType::Type1,
                        forwarding_addr: 0,
                        route_tag: pipe.tag,
                        p_bit: true,
                    };
                    let entry = LogEntry::Redistributed {
                        prefix: route.key.prefix,
                        target: Protocol::Ospfv2,
                        metric,
                    };
                    self.schedule(
                        vec![
                            Task::OspfExternal { dest },
                            Task::Report(RouterEvent::Log(entry)),
                        ],
                    );
                },
                (Protocol::Ospfv3, IpAddr::V6(_)) => {
                    let dest_v3 = V3ExternalDestination {
                        prefix: route.key.prefix,
                        metric,
                        type2: false,
                        forwarding_addr: None,
                        route_tag: if pipe.tag != 0 {
                            Some(pipe.tag)
                        } else {
                            None
                        },
                    };
                    let entry = LogEntry::Redistributed {
                        prefix: route.key.prefix,
                        target: Protocol::Ospfv3,
                        metric,
                    };
                    self.schedule(
                        vec![
                            Task::OspfExternalV3 { dest_v3 },
                            Task::Report(RouterEvent::Log(entry)),
                        ],
                    );
                },
                _ => {},
            }
        }
    }

    /// Drops the copy of a destination.
    pub fn unredistribute_route(&mut self, key: RouteKey)
        ensures
            final(self)@ == after_unredistribute(old(self)@, key),
    {
        if self.redistributed.remove(&key).is_some() {
            self.log(LogEntry::Unredistributed { prefix: key.prefix });
        }
    }

    /// Whether a pipe carries routes of a protocol into BGP.
    fn carries(&self, source: Protocol) -> (b: bool)
        ensures
            b == carried(self@.pipes, source),
    {
        let mut i: usize = 0;
        while i < self.pipes.len()
            invariant
                i <= self.pipes@.len(),
                forall|j: int|
                    0 <= j < i ==> !((#[trigger] self.pipes@[j]).source == source
                        && self.pipes@[j].target == Protocol::Bgp),
            decreases self.pipes@.len() - i,
        {
            if self.pipes[i].source == source && self.pipes[i].target == Protocol::Bgp {
                return true;
            }
            i = i + 1;
        }
        false
    }

    /// Whether one of the contributions to a destination is the source of a
    /// copy.
    fn has_source(&self, key: RouteKey, copy: &Route) -> (b: bool)
        ensures
            b == sourced_by(self@.pipes, candidates(self@, key), *copy),
    {
        let s = self.gather_candidates(key);
        let mut i: usize = 0;
        while i < s.len()
            invariant
                i <= s@.len(),
                s@ == candidates(self@, key),
                forall|j: int|
                    0 <= j < i ==> !(made_of(*copy, #[trigger] s@[j]) && carried(
                        self@.pipes,
                        s@[j].protocol,
                    )),
            decreases s@.len() - i,
        {
            if copied_from(copy, &s[i]) && self.carries(s[i].protocol) {
                return true;
            }
            i = i + 1;
        }
        false
    }

    /// Drops the copy of a destination, unless its source is still there.
    pub fn release_copy(&mut self, key: RouteKey)
        ensures
            final(self)@ == after_release(old(self)@, key),
    {
        let alive: bool = match self.redistributed.get(&key) {
            Some(copy) => self.has_source(key, copy),
            None => true,
        };
        if !alive {
            self.unredistribute_route(key);
        }
    }

    /// Adds a pipe.
    pub fn add_redistribution_pipe(&mut self, pipe: RedistributionPipe)
        ensures
            final(self)@ == after_add_pipe(old(self)@, pipe),
    {
        self.pipes.push(pipe);
        let mut tasks: Vec<Task> = Vec::new();
        let ghost f = scan_task();
        let n: usize = self.loc.len();
        proof {
            gather_whole(self.loc.entries(), f);
        }
        let mut i: usize = 0;
        while i < n
            invariant
                i <= n == self.loc.entries().len(),
                f == scan_task(),
                tasks@ == gather(self.loc.entries().take(i as int), f),
            decreases n - i,
        {
            proof {
                gather_step(self.loc.entries(), i as int, f);
            }
            if let Some(r) = best(self.loc.value_at(i)) {
                tasks.push(Task::Redistribute { route: r.dup() });
            }
            i = i + 1;
        }
        self.schedule(tasks);
    }

    /// Removes the pipes between two protocols; tells how many there were.
    pub fn remove_redistribution_pipe(&mut self, source: Protocol, target: Protocol) -> (n: usize)
        ensures
            n == old(self)@.pipes.len() - final(self)@.pipes.len(),
            final(self)@ == after_remove_pipe(old(self)@, source, target),
    {
        let mut rest: Vec<RedistributionPipe> = Vec::new();
        let ghost f = other_pipe(source, target);
        proof {
            gather_whole(self.pipes@, f);
        }
        let mut i: usize = 0;
        while i < self.pipes.len()
            invariant
                i <= self.pipes@.len(),
                f == other_pipe(source, target),
                rest@.len() <= i,
                rest@ == gather(self.pipes@.take(i as int), f),
            decreases self.pipes@.len() - i,
        {
            proof {
                gather_step(self.pipes@, i as int, f);
            }
            let pipe = self.pipes[i];
            if !(pipe.source == source && pipe.target == target) {
                rest.push(pipe);
            }
            i = i + 1;
        }
        let removed: usize = self.pipes.len() - rest.len();
        self.pipes = rest;
        if removed > 0 && target == Protocol::Bgp {
            let mut tasks: Vec<Task> = Vec::new();
            let ghost g = unscan_task();
            let m: usize = self.redistributed.len();
            proof {
                gather_whole(self.redistributed.entries(), g);
            }
            let mut j: usize = 0;
            while j < m
                invariant
                    j <= m == self.redistributed.entries().len(),
                    g == unscan_task(),
                    tasks@ == gather(self.redistributed.entries().take(j as int), g),
                decreases m - j,
            {
                proof {
                    gather_step(self.redistributed.entries(), j as int, g);
                }
                let ghost before = tasks@;
                let key = self.redistributed.key_at(j);
                tasks.push(Task::Unredistribute { key });
                tasks.push(Task::Reselect { key });
                assert(tasks@ =~= before + g(self.redistributed.entries()[j as int]));
                j = j + 1;
            }
            self.schedule(tasks);
        }
        removed
    }

    /// Puts a directly contributed route into force.
    pub fn install_direct(&mut self, route: Route)
        ensures
            final(self)@ == after_install_direct(old(self)@, route),
    {
        let key: RouteKey = route.key;
        let others: bool = has_accepted(&self.adj_in, &ToKey(key)) || self.originated.contains_key(
            &key,
        ) || self.redistributed.contains_key(&key) || self.statics.contains_key(&key);
        self.direct.insert(key, route.dup());
        if others {
            self.schedule(vec![Task::Reselect { key }]);
        } else {
            self.loc.insert(key, List::Cons(route.dup(), Box::new(List::Nil)));
            self.report(RouterEvent::RouteInstalled(route.dup()));
            self.schedule(vec![Task::Redistribute { route }, Task::Aggregates]);
        }
    }

    /// Withdraws a directly contributed route.
    pub fn withdraw_direct(&mut self, key: RouteKey)
        ensures
            final(self)@ == after_withdraw_direct(old(self)@, key),
    {
        match self.direct.remove(&key) {
            Some(gone) => {
                let sourced: bool = match self.redistributed.get(&key) {
                    Some(c) => c.origin.peer == gone.origin.peer,
                    None => false,
                };
                let mut tasks: Vec<Task> = Vec::new();
                if sourced {
                    tasks.push(Task::ReleaseCopy { key });
                }
                tasks.push(Task::Reselect { key });
                assert(tasks@ =~= one_if(sourced, Task::ReleaseCopy { key }) + seq![
                    Task::Reselect { key },
                ]);
                self.schedule(tasks);
            },
            None => {
                self.loc.remove(&key);
                self.report(RouterEvent::RouteWithdrawn(key));
                self.schedule(vec![Task::Aggregates]);
            },
        }
    }

    /// Puts a difference of direct routes into force.
    pub fn apply_runtime_delta(&mut self, delta: &RuntimeDelta)
        ensures
            final(self)@ == after_delta(old(self)@, delta.installed@, delta.withdrawn@),
    {
        let mut tasks: Vec<Task> = Vec::new();
        let ghost f = install_task();
        proof {
            gather_whole(delta.installed@, f);
        }
        let mut i: usize = 0;
        while i < delta.installed.len()
            invariant
                i <= delta.installed@.len(),
                f == install_task(),
                tasks@ == gather(delta.installed@.take(i as int), f),
            decreases delta.installed@.len() - i,
        {
            proof {
                gather_step(delta.installed@, i as int, f);
            }
            tasks.push(Task::InstallDirect { route: delta.installed[i].dup() });
            i = i + 1;
        }
        let ghost first = tasks@;
        let ghost g = withdraw_task();
        proof {
            gather_whole(delta.withdrawn@, g);
            assert(first + Seq::<Task>::empty() == first);
        }
        let mut j: usize = 0;
        while j < delta.withdrawn.len()
            invariant
                j <= delta.withdrawn@.len(),
                g == withdraw_task(),
                tasks@ == first + gather(delta.withdrawn@.take(j as int), g),
            decreases delta.withdrawn@.len() - j,
        {
            proof {
                gather_step(delta.withdrawn@, j as int, g);
            }
            tasks.push(Task::WithdrawDirect { key: delta.withdrawn[j] });
            assert(tasks@ =~= first + gather(delta.withdrawn@.take(j + 1), g));
            j = j + 1;
        }
        self.schedule(tasks);
    }
}

/// A copy that a pipe made is never fed into a pipe again.
pub proof fn copies_are_not_redistributed(st: RouterState, route: Route, metric: u32)
    requires
        st.redistributed.contains_key(route.key),
        st.redistributed[route.key] == copy_of(route, metric, st.now_ms),
    ensures
        after_redistribute(st, copy_of(route, metric, st.now_ms)) == st,
{
}

/// A pipe that takes a route again under the same metric changes nothing.
pub proof fn redistribution_settles(st: RouterState, route: Route, metric: u32)
    requires
        route.key.family == NlriFamily::ipv4_unicast() || route.key.family
            == NlriFamily::ipv6_unicast(),
    ensures
        after_pipe_bgp(after_pipe_bgp(st, route, metric), route, metric) == after_pipe_bgp(
            st,
            route,
            metric,
        ),
{
}

/// A copy is told to no session that its source came from.
pub proof fn copies_respect_split_horizon(
    route: Route,
    metric: u32,
    now_ms: u64,
    stale_too: bool,
)
    ensures
        !crate::router::export::exportable(
            copy_of(route, metric, now_ms),
            route.origin.peer,
            stale_too,
        ),
{
}

/// Withdrawing what was not originated changes nothing.
pub proof fn unoriginating_nothing_changes_nothing(st: RouterState, key: RouteKey)
    requires
        !st.originated.contains_key(key),
    ensures
        after_unoriginate(st, key) == st,
{
}

/// Originating and withdrawing again leaves the originated routes as they
/// were, for a destination that was not originated before.
pub proof fn unoriginate_undoes_originate(st: RouterState, route: Route)
    requires
        !st.originated.contains_key(route.key),
    ensures
        after_unoriginate(after_originate(st, route), route.key).originated == st.originated,
{
    assert(st.originated.insert(route.key, route).remove(route.key) =~= st.originated);
}

/// An aggregate is originated exactly while something more specific is in the
/// table, but where its prefix is originated by itself; that network stays as
/// it is.
pub proof fn aggregates_follow_the_table(
    st: RouterState,
    prefix: Prefix,
    local_as: u32,
    bgp_id: u32,
)
    ensures
        ({
            let key = aggregate_key(prefix);
            let wanted = any_key(st.loc, MoreSpecific(prefix));
            let next = after_aggregate(st, prefix, wanted, local_as, bgp_id);
            let network = st.originated.contains_key(key) && !st.aggregated.contains_key(key);
            &&& network ==> next == st && after_remove_aggregate(st, prefix).originated
                == st.originated
            &&& !network ==> next.originated.contains_key(key) == wanted
        }),
{
}

/// No direct route takes the place of another contribution without the
/// decision process.
pub proof fn direct_routes_compete(st: RouterState, route: Route)
    requires
        contested(st, route.key),
    ensures
        after_install_direct(st, route).loc == st.loc,
        crate::router::selection::candidates(
            after_install_direct(st, route),
            route.key,
        ).contains(route),
{
    let next = after_install_direct(st, route);
    let s = crate::router::selection::candidates(next, route.key);
    let a = values_where(next.adj_in, ToKey(route.key));
    let b = crate::router::selection::held(next.originated, route.key);
    assert(s[(a + b).len() as int] == route);
}

/// A static route, and an originated one that meets no static route, enter the
/// table, and are then exported and carried through the pipes.
pub proof fn local_routes_meet_the_pipes(st: RouterState, route: Route)
    ensures
        after_static(st, route).loc == st.loc.insert(route.key, alone(route)),
        after_static(st, route).agenda == st.agenda + seq![
            Task::Aggregates,
            Task::Redistribute { route },
            Task::Export { key: route.key, ranked: alone(route) },
        ],
        !st.statics.contains_key(route.key) ==> {
            &&& after_originate(st, route).loc == after_static(st, route).loc
            &&& after_originate(st, route).agenda == after_static(st, route).agenda
        },
{
    let given = seq![
        Task::Export { key: route.key, ranked: alone(route) },
        Task::Redistribute { route },
        Task::Aggregates,
    ];
    assert(given.reverse() =~= seq![given[2], given[1], given[0]]);
}

/// Originating a route never displaces a static one: the table stays as it is,
/// and both compete by their preference.
pub proof fn originating_spares_static_routes(st: RouterState, route: Route)
    requires
        st.statics.contains_key(route.key),
    ensures
        after_originate(st, route).loc == st.loc,
        after_originate(st, route).agenda == st.agenda.push(Task::Reselect { key: route.key }),
        candidates(after_originate(st, route), route.key).contains(st.statics[route.key]),
        candidates(after_originate(st, route), route.key).contains(route),
{
    let one = seq![Task::Reselect { key: route.key }];
    assert(one.reverse() =~= one);
    assert(st.agenda + one =~= st.agenda.push(one[0]));
    let next = after_originate(st, route);
    let a = values_where(next.adj_in, ToKey(route.key));
    let s = candidates(next, route.key);
    assert(s[s.len() - 1] == st.statics[route.key]);
    assert(s[a.len() as int] == route);
}

/// A copy goes with the contribution that it was made of, and only then: while
/// a contribution stands that a pipe carries and that agrees with the copy, the
/// copy stays.
pub proof fn copies_go_with_their_source(st: RouterState, key: RouteKey)
    requires
        st.redistributed.contains_key(key),
    ensures
        after_release(st, key).redistributed.contains_key(key) == sourced_by(
            st.pipes,
            candidates(st, key),
            st.redistributed[key],
        ),
{
}

} // verus!
