//! The decision process and what its outcome sets in motion.

use crate::addr::IpAddr;
use crate::addr::NlriFamily;
use crate::events::RouterEvent;
use crate::list::List;
use crate::ordmap::lookup;
use crate::route::{Protocol, Route, RouteKey};
use crate::router::paths::ToKey;
use crate::router::{DefaultRouter, RouterState};
use crate::select::{find_values, values_where};
use crate::seqs::{gather, gather_step, gather_whole};
use crate::session::bgp_of;
use crate::task::{BmpMessage, MonitoredUpdate, PeerHeader, SelectionRule, Task};
use crate::value::Value;
use vstd::prelude::*;

verus! {

/// What a table holds for a destination, as a sequence.
pub open spec fn held(m: Map<RouteKey, Route>, key: RouteKey) -> Seq<Route> {
    match lookup(m, key) {
        Some(r) => seq![r],
        None => Seq::empty(),
    }
}

/// The paths that compete for a destination: those of peers, then the local,
/// the direct and the static one.
pub open spec fn candidates(st: RouterState, key: RouteKey) -> Seq<Route> {
    values_where(st.adj_in, ToKey(key)) + held(st.originated, key) + held(st.direct, key) + held(
        st.statics,
        key,
    )
}

/// Whether all paths are BGP paths.
pub open spec fn all_bgp(s: Seq<Route>) -> bool {
    forall|i: int| 0 <= i < s.len() ==> (#[trigger] s[i]).protocol == Protocol::Bgp
}

/// By which rule candidates are ranked: paths of BGP alone by its decision
/// process, others by the preference between protocols.
pub open spec fn rule_for(s: Seq<Route>) -> SelectionRule {
    if all_bgp(s) {
        SelectionRule::BestPath
    } else {
        SelectionRule::AcrossProtocols
    }
}

/// The candidate an index names, if it names one.
pub open spec fn named(s: Seq<Route>) -> spec_fn(usize) -> Seq<Route> {
    |i: usize|
        if i < s.len() {
            seq![s[i as int]]
        } else {
            Seq::empty()
        }
}

/// At most the first `n` elements.
pub open spec fn at_most<A>(s: Seq<A>, n: nat) -> Seq<A> {
    if s.len() <= n {
        s
    } else {
        s.take(n as int)
    }
}

/// The ranking in force: as many of the best candidates as are kept, or the
/// single best where protocols mix.
pub open spec fn ranking(s: Seq<Route>, picks: Seq<usize>, max_paths: usize) -> Seq<Route> {
    at_most(
        gather(picks, named(s)),
        if all_bgp(s) {
            max_paths as nat
        } else {
            1
        },
    )
}

/// The best path to a destination.
pub open spec fn best_of(loc: Map<RouteKey, List<Route>>, key: RouteKey) -> Option<Route> {
    match lookup(loc, key) {
        Some(List::Cons(best, _)) => Some(best),
        _ => None,
    }
}

/// The decision process for a destination.
pub open spec fn after_reselect(st: RouterState, key: RouteKey) -> RouterState {
    let s = candidates(st, key);
    if s.len() == 0 {
        st.schedule(seq![Task::Apply { key, ranked: List::Nil }])
    } else {
        st.schedule(seq![Task::Rank { key, candidates: List::of(s), rule: rule_for(s) }])
    }
}

/// A ranking was given.
pub open spec fn after_ranked(
    st: RouterState,
    key: RouteKey,
    s: Seq<Route>,
    picks: Seq<usize>,
) -> RouterState {
    st.schedule(
        seq![
            Task::Apply { key, ranked: List::of(ranking(s, picks, st.settings.max_paths)) },
        ],
    )
}

/// A ranking comes into force. An empty one withdraws the destination; a new
/// best path is reported, redistributed and mirrored.
pub open spec fn after_apply(st: RouterState, key: RouteKey, ranked: List<Route>) -> RouterState {
    match ranked {
        List::Nil => (RouterState { loc: st.loc.remove(key), ..st }).report(
            RouterEvent::RouteWithdrawn(key),
        ).schedule(
            seq![
                Task::PropagateWithdrawal { key },
                Task::Unredistribute { key },
                Task::Aggregates,
            ],
        ),
        List::Cons(best, _) => {
            let installed = RouterState { loc: st.loc.insert(key, ranked), ..st };
            if best_of(st.loc, key) == Some(best) {
                installed.schedule(seq![Task::Export { key, ranked }, Task::Aggregates])
            } else {
                installed.report(RouterEvent::RouteInstalled(best)).schedule(
                    seq![
                        Task::Redistribute { route: best },
                        Task::Monitor { route: best },
                        Task::Export { key, ranked },
                        Task::Aggregates,
                    ],
                )
            }
        },
    }
}

/// The header of monitoring messages about a session, once its OPEN arrived.
pub open spec fn peer_header(st: RouterState, session: u64) -> Option<PeerHeader> {
    match bgp_of(st.session(session)) {
        Some(b) => match (b.status.peer_bgp_id, b.status.peer_as) {
            (Some(id), Some(peer_as)) => Some(
                PeerHeader {
                    peer_address: id as u128,
                    peer_as,
                    peer_bgp_id: id,
                    timestamp_secs: ((st.now_ms / 1000) % 0x1_0000_0000) as u32,
                },
            ),
            _ => None,
        },
        None => None,
    }
}

/// The announcement that mirrors a route.
pub open spec fn monitored(route: Route) -> MonitoredUpdate {
    MonitoredUpdate {
        prefix: route.key.prefix,
        path_id: route.path_id,
        attributes: route.attributes,
        reach: if route.key.family == NlriFamily::ipv4_unicast() {
            None
        } else {
            Some(
                (
                    route.key.family,
                    match route.next_hop {
                        Some(hop) => hop,
                        None => IpAddr::V6(0),
                    },
                ),
            )
        },
    }
}

/// A session's establishment is mirrored.
pub open spec fn after_peer_up(st: RouterState, session: u64) -> RouterState {
    match peer_header(st, session) {
        Some(header) => if st.settings.bmp {
            st.schedule(seq![Task::Mirror(BmpMessage::PeerUp { header })])
        } else {
            st
        },
        None => st,
    }
}

/// The end of a session is mirrored, under the header it had while it was up.
pub open spec fn after_peer_down(st: RouterState, parting: Option<PeerHeader>) -> RouterState {
    match parting {
        Some(header) => if st.settings.bmp {
            st.schedule(seq![Task::Mirror(BmpMessage::PeerDown { header })])
        } else {
            st
        },
        None => st,
    }
}

/// A route is mirrored under the session that contributed it.
pub open spec fn after_monitor(st: RouterState, route: Route) -> RouterState {
    match peer_header(st, route.origin.peer) {
        Some(header) => if st.settings.bmp {
            st.schedule(
                seq![
                    Task::Mirror(
                        BmpMessage::RouteMonitoring { header, update: monitored(route) },
                    ),
                ],
            )
        } else {
            st
        },
        None => st,
    }
}

fn every_bgp(s: &Vec<Route>) -> (b: bool)
    ensures
        b == all_bgp(s@),
{
    let mut i: usize = 0;
    while i < s.len()
        invariant
            i <= s@.len(),
            forall|j: int| 0 <= j < i ==> (#[trigger] s@[j]).protocol == Protocol::Bgp,
        decreases s@.len() - i,
    {
        if s[i].protocol != Protocol::Bgp {
            return false;
        }
        i = i + 1;
    }
    true
}

/// Puts a ranking given by indices into effect, as far as paths are kept.
pub fn rank(s: &Vec<Route>, picks: &Vec<usize>, max_paths: usize) -> (r: Vec<Route>)
    ensures
        r@ == ranking(s@, picks@, max_paths),
{
    let limit: usize = if every_bgp(s) {
        max_paths
    } else {
        1
    };
    let mut r: Vec<Route> = Vec::new();
    let ghost f = named(s@);
    proof {
        gather_whole(picks@, f);
    }
    let mut i: usize = 0;
    while i < picks.len()
        invariant
            i <= picks@.len(),
            f == named(s@),
            r@ == gather(picks@.take(i as int), f),
        decreases picks@.len() - i,
    {
        proof {
            gather_step(picks@, i as int, f);
        }
        let at: usize = picks[i];
        if at < s.len() {
            r.push(s[at].dup());
        }
        i = i + 1;
    }
    if r.len() > limit {
        r.truncate(limit);
    }
    r
}

/// By which rule candidates are ranked.
pub fn choose_rule(s: &Vec<Route>) -> (rule: SelectionRule)
    ensures
        rule == rule_for(s@),
{
    if every_bgp(s) {
        SelectionRule::BestPath
    } else {
        SelectionRule::AcrossProtocols
    }
}

/// The best path of a ranked list.
pub fn best(ranked: &List<Route>) -> (r: Option<&Route>)
    ensures
        r == (match *ranked {
            List::Cons(b, _) => Some(&b),
            List::Nil => None,
        }),
{
    match ranked {
        List::Cons(b, _) => Some(b),
        List::Nil => None,
    }
}

impl DefaultRouter {
    /// Lists the paths that compete for a destination.
    pub(crate) fn gather_candidates(&self, key: RouteKey) -> (s: Vec<Route>)
        ensures
            s@ == candidates(self@, key),
    {
        let mut s = find_values(&self.adj_in, &ToKey(key));
        if let Some(r) = self.originated.get(&key) {
            s.push(r.dup());
        }
        if let Some(r) = self.direct.get(&key) {
            s.push(r.dup());
        }
        if let Some(r) = self.statics.get(&key) {
            s.push(r.dup());
        }
        assert(s@ =~= candidates(self@, key));
        s
    }

    /// Runs the decision process for a destination.
    pub fn reselect(&mut self, key: RouteKey)
        ensures
            final(self)@ == after_reselect(old(self)@, key),
    {
        let s = self.gather_candidates(key);
        if s.len() == 0 {
            self.schedule(vec![Task::Apply { key, ranked: List::Nil }]);
        } else {
            let rule = choose_rule(&s);
            self.schedule(vec![Task::Rank { key, candidates: List::from_vec(s), rule }]);
        }
    }

    /// Puts a given ranking on its way.
    pub fn ranked(&mut self, key: RouteKey, s: &List<Route>, picks: &Vec<usize>)
        ensures
            final(self)@ == after_ranked(old(self)@, key, s.seq(), picks@),
    {
        let v = s.to_vec();
        let r = rank(&v, picks, self.settings.max_paths);
        self.schedule(vec![Task::Apply { key, ranked: List::from_vec(r) }]);
    }

    /// Puts a ranking into force.
    pub fn apply_selection(&mut self, key: RouteKey, ranked: List<Route>)
        ensures
            final(self)@ == after_apply(old(self)@, key, ranked),
    {
        match best(&ranked) {
            None => {
                self.loc.remove(&key);
                self.report(RouterEvent::RouteWithdrawn(key));
                self.schedule(
                    vec![
                        Task::PropagateWithdrawal { key },
                        Task::Unredistribute { key },
                        Task::Aggregates,
                    ],
                );
            },
            Some(b) => {
                let known: bool = match self.loc.get(&key) {
                    Some(l) => match best(l) {
                        Some(old_best) => old_best.same(b),
                        None => false,
                    },
                    None => false,
                };
                let ghost found = *b;
                if known {
                    self.loc.insert(key, ranked.dup());
                    self.schedule(vec![Task::Export { key, ranked }, Task::Aggregates]);
                } else {
                    let (x, (y, z)) = (b.dup(), (b.dup(), b.dup()));
                    self.loc.insert(key, ranked.dup());
                    self.report(RouterEvent::RouteInstalled(x));
                    self.schedule(
                        vec![
                            Task::Redistribute { route: y },
                            Task::Monitor { route: z },
                            Task::Export { key, ranked },
                            Task::Aggregates,
                        ],
                    );
                }
            },
        }
    }

    /// The header of monitoring messages about a session.
    pub fn bmp_peer_header(&self, session: u64) -> (h: Option<PeerHeader>)
        ensures
            h == peer_header(self@, session),
    {
        match self.bgp(session) {
            Some(b) => match (b.status.peer_bgp_id, b.status.peer_as) {
                (Some(id), Some(peer_as)) => Some(
                    PeerHeader {
                        peer_address: id as u128,
                        peer_as,
                        peer_bgp_id: id,
                        timestamp_secs: ((self.now_ms / 1000) % 0x1_0000_0000) as u32,
                    },
                ),
                _ => None,
            },
            None => None,
        }
    }

    /// Mirrors a session's establishment.
    pub fn bmp_peer_up(&mut self, session: u64)
        ensures
            final(self)@ == after_peer_up(old(self)@, session),
    {
        if self.settings.bmp {
            if let Some(header) = self.bmp_peer_header(session) {
                self.schedule(vec![Task::Mirror(BmpMessage::PeerUp { header })]);
            }
        }
    }

    /// Mirrors the end of a session.
    pub fn bmp_peer_down(&mut self, parting: Option<PeerHeader>)
        ensures
            final(self)@ == after_peer_down(old(self)@, parting),
    {
        if self.settings.bmp {
            if let Some(header) = parting {
                self.schedule(vec![Task::Mirror(BmpMessage::PeerDown { header })]);
            }
        }
    }

    /// Mirrors a route.
    pub fn bmp_route_monitor(&mut self, route: Route)
        ensures
            final(self)@ == after_monitor(old(self)@, route),
    {
        if self.settings.bmp {
            if let Some(header) = self.bmp_peer_header(route.origin.peer) {
                let reach = if route.key.family == NlriFamily::ipv4_unicast() {
                    None
                } else {
                    let hop = match route.next_hop {
                        Some(hop) => hop,
                        None => IpAddr::V6(0),
                    };
                    Some((route.key.family, hop))
                };
                let update = MonitoredUpdate {
                    prefix: route.key.prefix,
                    path_id: route.path_id,
                    attributes: route.attributes,
                    reach,
                };
                self.schedule(vec![Task::Mirror(BmpMessage::RouteMonitoring { header, update })]);
            }
        }
    }
}

/// Whatever ranking is given, what comes into force are candidates, and no
/// more of them than are kept; one where protocols mix.
pub proof fn ranking_keeps_candidates(s: Seq<Route>, picks: Seq<usize>, max_paths: usize)
    ensures
        forall|i: int|
            0 <= i < ranking(s, picks, max_paths).len() ==> s.contains(
                #[trigger] ranking(s, picks, max_paths)[i],
            ),
        all_bgp(s) ==> ranking(s, picks, max_paths).len() <= max_paths,
        !all_bgp(s) ==> ranking(s, picks, max_paths).len() <= 1,
{
    let all = gather(picks, named(s));
    assert forall|i: int| 0 <= i < ranking(s, picks, max_paths).len() implies s.contains(
        #[trigger] ranking(s, picks, max_paths)[i],
    ) by {
        let r = ranking(s, picks, max_paths)[i];
        assert(all[i] == r);
        assert(all.contains(r));
        let j = crate::seqs::gather_source(picks, named(s), r);
        let at = picks[j];
        assert(s[at as int] == r);
    }
}

/// A static path competes whenever the decision process runs for its
/// destination.
pub proof fn statics_compete(st: RouterState, key: RouteKey)
    requires
        st.statics.contains_key(key),
    ensures
        candidates(st, key).contains(st.statics[key]),
{
    let s = candidates(st, key);
    assert(s[s.len() - 1] == st.statics[key]);
}

/// A ranking with the best path in force reports nothing.
pub proof fn same_best_is_silent(st: RouterState, key: RouteKey, ranked: List<Route>)
    requires
        ranked is Cons,
        best_of(st.loc, key) == Some(ranked->Cons_0),
    ensures
        after_apply(st, key, ranked).events == st.events,
        best_of(after_apply(st, key, ranked).loc, key) == Some(ranked->Cons_0),
{
}

} // verus!
