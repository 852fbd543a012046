//! What peers are told, and when.

use crate::addr::NlriFamily;
use crate::events::RouterEvent;
use crate::list::List;
use crate::ordmap::{is_table, lookup, sorted};
use crate::ordmap::{lemma_entry, lemma_key_position};
use crate::route::{Route, RouteKey, RouteOrigin};
use crate::router::export::{
    advertised, after_advertise, after_begin_refresh, after_dump, after_export_to, after_filtered,
    after_flush_mrai, after_offer, after_propagate, after_reannounce, after_retract,
    after_transmit, after_withdraw_stale, clearing, due_task, exportable, family_offers,
    offer_task, offers, path_id_to, plain_offer, ranked_offers, sent_ids, spoken, stale_ids, stale_retraction,
    suppressed, table_offers, takes_stale, voiced,
};
use crate::router::import::denies_export;
use crate::router::{PathKey, RouterState};
use crate::seqs::{gather, gather_includes, gather_source};
use crate::session::{is_up, sends_paths, BgpSession, Session};
use crate::task::{Occasion, Task};
use vstd::prelude::*;

verus! {

/// Whether a path may be told to a BGP session: a BGP path that the session
/// did not contribute, and without the long-lived stale community unless the
/// peer retains stale routes.
pub open spec fn fit_for(r: Route, session: u64, long_lived: bool) -> bool {
    &&& r.protocol is Bgp
    &&& r.origin.peer != session
    &&& r.attributes.communities.seq().contains(0xffff_0006u32) ==> long_lived
}

/// A scheduled task stands on the agenda, the first one last.
pub proof fn lemma_on_agenda(st: RouterState, tasks: Seq<Task>, i: int)
    requires
        0 <= i < tasks.len(),
    ensures
        st.schedule(tasks).agenda.len() == st.agenda.len() + tasks.len(),
        st.schedule(tasks).agenda[st.agenda.len() + tasks.len() - 1 - i] == tasks[i],
        st.schedule(tasks).agenda.contains(tasks[i]),
{
    let a = st.schedule(tasks).agenda;
    assert(tasks.reverse()[tasks.len() - 1 - i] == tasks[i]);
    assert(a[st.agenda.len() + tasks.len() - 1 - i] == tasks[i]);
}

/// A few scheduled tasks, one by one.
pub proof fn lemma_few(st: RouterState, a: Task, b: Task, c: Task, d: Task)
    ensures
        st.schedule(seq![a]).agenda == st.agenda.push(a),
        st.schedule(seq![a, b]).agenda == st.agenda.push(b).push(a),
        st.schedule(seq![a, b, c]).agenda == st.agenda.push(c).push(b).push(a),
        st.schedule(seq![a, b, c, d]).agenda == st.agenda.push(d).push(c).push(b).push(a),
        st.schedule(Seq::empty()).agenda == st.agenda,
{
    assert(st.schedule(seq![a]).agenda =~= st.agenda.push(a));
    assert(st.schedule(seq![a, b]).agenda =~= st.agenda.push(b).push(a));
    assert(st.schedule(seq![a, b, c]).agenda =~= st.agenda.push(c).push(b).push(a));
    assert(st.schedule(seq![a, b, c, d]).agenda =~= st.agenda.push(d).push(c).push(b).push(a));
    assert(st.schedule(Seq::empty()).agenda =~= st.agenda);
}

/// Tasks are done in the order in which they are scheduled, before everything
/// that was on the agenda.
pub proof fn tasks_are_done_in_order(st: RouterState, tasks: Seq<Task>, i: int)
    requires
        0 <= i < tasks.len(),
    ensures
        st.schedule(tasks).agenda.len() == st.agenda.len() + tasks.len(),
        st.schedule(tasks).agenda.take(st.agenda.len() as int) == st.agenda,
        st.schedule(tasks).agenda[st.agenda.len() + tasks.len() - 1 - i] == tasks[i],
        st.schedule(tasks).agenda.last() == tasks[0],
{
    lemma_on_agenda(st, tasks, i);
    lemma_on_agenda(st, tasks, 0);
    assert(st.schedule(tasks).agenda.take(st.agenda.len() as int) =~= st.agenda);
}

/// A list's elements stand in the order in which it holds them.
pub proof fn lists_hold_elements_in_order<T>(x: T, rest: List<T>)
    ensures
        List::Cons(x, Box::new(rest)).seq().len() == rest.seq().len() + 1,
        List::Cons(x, Box::new(rest)).seq()[0] == x,
        List::Cons(x, Box::new(rest)).seq().drop_first() == rest.seq(),
        List::<T>::Nil.seq().len() == 0,
{
    let l = List::Cons(x, Box::new(rest));
    assert(l.seq() == seq![x] + rest.seq());
    assert(l.seq().drop_first() =~= rest.seq());
}

/// The families a session speaks are IPv4 unicast and those of its
/// configuration, each once, IPv4 unicast first.
pub proof fn all_configured_families_are_spoken(families: Seq<NlriFamily>)
    ensures
        forall|f: NlriFamily| #[trigger]
            spoken(families).contains(f) <==> f == (NlriFamily { afi: 1, safi: 1 })
                || families.contains(f),
        spoken(families).no_duplicates(),
        spoken(families).len() > 0,
        spoken(families)[0] == (NlriFamily { afi: 1, safi: 1 }),
    decreases families.len(),
{
    let v4 = NlriFamily { afi: 1, safi: 1 };
    if families.len() == 0 {
        assert(spoken(families)[0] == v4);
        assert forall|f: NlriFamily| #[trigger] spoken(families).contains(f) <==> f == v4
            || families.contains(f) by {
            if f == v4 {
                assert(spoken(families)[0] == f);
            }
        }
    } else {
        let before = families.drop_last();
        let last = families.last();
        all_configured_families_are_spoken(before);
        let front = spoken(before);
        let all = spoken(families);
        assert forall|f: NlriFamily| #[trigger] all.contains(f) <==> f == v4 || families.contains(
            f,
        ) by {
            assert(front.contains(f) <==> f == v4 || before.contains(f));
            if families.contains(f) {
                let i = choose|i: int| 0 <= i < families.len() && families[i] == f;
                if i < families.len() - 1 {
                    assert(before[i] == f);
                }
            }
            if before.contains(f) {
                let i = choose|i: int| 0 <= i < before.len() && before[i] == f;
                assert(families[i] == f);
            }
            assert(families[families.len() - 1] == last);
            if front.contains(f) {
                let i = choose|i: int| 0 <= i < front.len() && front[i] == f;
                assert(all[i] == f);
            }
            if all.contains(f) && !front.contains(f) {
                let i = choose|i: int| 0 <= i < all.len() && all[i] == f;
                assert(i == front.len());
            }
            if f == last && !front.contains(last) {
                assert(all[front.len() as int] == f);
            }
        }
    }
}

/// The paths of a ranking, each under its rank, as far as they are fit for
/// the session.
proof fn lemma_ranked(l: List<Route>, session: u64, long_lived: bool, slot: int)
    requires
        0 <= slot,
        slot + l.seq().len() < 0x1_0000_0000,
    ensures
        forall|i: int|
            0 <= i < l.seq().len() && fit_for(#[trigger] l.seq()[i], session, long_lived)
                ==> ranked_offers(l, session, long_lived, slot).contains(
                Route { path_id: (slot + i + 1) as u32, ..l.seq()[i] },
            ),
        forall|r: Route| #[trigger]
            ranked_offers(l, session, long_lived, slot).contains(r) ==> fit_for(
                r,
                session,
                long_lived,
            ) && exists|i: int|
                0 <= i < l.seq().len() && r == (Route {
                    path_id: (slot + i + 1) as u32,
                    ..(#[trigger] l.seq()[i])
                }),
    decreases l,
{
    match l {
        List::Nil => {},
        List::Cons(x, rest) => {
            lemma_ranked(*rest, session, long_lived, slot + 1);
            let tail = ranked_offers(*rest, session, long_lived, slot + 1);
            let all = ranked_offers(l, session, long_lived, slot);
            let first = Route { path_id: (slot + 1) as u32, ..x };
            assert(l.seq()[0] == x);
            assert(exportable(x, session, long_lived) == fit_for(x, session, long_lived));
            let n: int = if exportable(x, session, long_lived) {
                1
            } else {
                0
            };
            assert forall|i: int|
                0 <= i < l.seq().len() && fit_for(
                    #[trigger] l.seq()[i],
                    session,
                    long_lived,
                ) implies all.contains(Route { path_id: (slot + i + 1) as u32, ..l.seq()[i] }) by {
                if i == 0 {
                    assert(all[0] == first);
                } else {
                    assert(l.seq()[i] == rest.seq()[i - 1]);
                    let r = Route { path_id: (slot + 1 + (i - 1) + 1) as u32, ..rest.seq()[i - 1] };
                    assert(tail.contains(r));
                    let j = choose|j: int| 0 <= j < tail.len() && tail[j] == r;
                    assert(all[n + j] == r);
                }
            }
            assert forall|r: Route| #[trigger] all.contains(r) implies fit_for(
                r,
                session,
                long_lived,
            ) && exists|i: int|
                0 <= i < l.seq().len() && r == (Route {
                    path_id: (slot + i + 1) as u32,
                    ..(#[trigger] l.seq()[i])
                }) by {
                let j = choose|j: int| 0 <= j < all.len() && all[j] == r;
                if j < n {
                    assert(r == Route { path_id: (slot + 0 + 1) as u32, ..l.seq()[0] });
                } else {
                    assert(tail[j - n] == r);
                    assert(tail.contains(r));
                    let i = choose|i: int|
                        0 <= i < rest.seq().len() && r == (Route {
                            path_id: (slot + 1 + i + 1) as u32,
                            ..(#[trigger] rest.seq()[i])
                        });
                    assert(l.seq()[i + 1] == rest.seq()[i]);
                }
            }
        },
    }
}

/// Whether a session may be sent several paths per prefix of a family.
pub open spec fn many_paths(b: BgpSession, family: NlriFamily) -> bool {
    b.status.add_path_tx.seq().contains(family)
}

/// A BGP session is told of a ranking of BGP paths: the best one without
/// identifier, or all of them under their rank from 1 on where several are
/// sent; of these exactly the paths that are fit for it.
pub proof fn rankings_are_told(
    st: RouterState,
    session: u64,
    b: BgpSession,
    key: RouteKey,
    l: List<Route>,
)
    requires
        st.sessions.contains_key(session),
        st.sessions[session] == Session::Bgp(b),
        !denies_export(st, session),
        l.seq().len() > 0,
        l.seq().len() < 0xffff_ffff,
        l.seq()[0].protocol is Bgp,
    ensures
        !many_paths(b, key.family) && fit_for(l.seq()[0], session, b.status.long_lived) ==> offers(
            st,
            session,
            key,
            l,
        ) == seq![Route { path_id: 0, ..l.seq()[0] }],
        !many_paths(b, key.family) && !fit_for(l.seq()[0], session, b.status.long_lived)
            ==> offers(st, session, key, l).len() == 0,
        many_paths(b, key.family) ==> forall|i: int|
            0 <= i < l.seq().len() && fit_for(
                #[trigger] l.seq()[i],
                session,
                b.status.long_lived,
            ) ==> offers(st, session, key, l).contains(
                Route { path_id: (i + 1) as u32, ..l.seq()[i] },
            ),
        many_paths(b, key.family) ==> forall|r: Route| #[trigger]
            offers(st, session, key, l).contains(r) ==> fit_for(r, session, b.status.long_lived)
                && exists|i: int|
                0 <= i < l.seq().len() && r == (Route {
                    path_id: (i + 1) as u32,
                    ..(#[trigger] l.seq()[i])
                }),
{
    lemma_ranked(l, session, b.status.long_lived, 0);
    assert(l is Cons);
    assert(l->Cons_0 == l.seq()[0]);
    assert(voiced(st, key, l) == l);
    if !many_paths(b, key.family) && fit_for(l.seq()[0], session, b.status.long_lived) {
        assert(offers(st, session, key, l) =~= seq![Route { path_id: 0, ..l.seq()[0] }]);
    }
}

/// Where the best path is no BGP path, BGP peers are told of the route this
/// router originates for the destination itself, in its stead and alone.
pub proof fn own_routes_speak_for_other_protocols(
    st: RouterState,
    session: u64,
    b: BgpSession,
    key: RouteKey,
    l: List<Route>,
)
    requires
        st.sessions.contains_key(session),
        st.sessions[session] == Session::Bgp(b),
        !denies_export(st, session),
        l.seq().len() > 0,
        !(l.seq()[0].protocol is Bgp),
        st.originated.contains_key(key),
        fit_for(st.originated[key], session, b.status.long_lived),
    ensures
        offers(st, session, key, l) == seq![
            Route {
                path_id: if many_paths(b, key.family) {
                    1
                } else {
                    0
                },
                ..st.originated[key]
            },
        ],
{
    let own = st.originated[key];
    assert(l is Cons);
    assert(l->Cons_0 == l.seq()[0]);
    reveal_with_fuel(ranked_offers, 2);
    assert(offers(st, session, key, l) =~= seq![
        Route {
            path_id: if many_paths(b, key.family) {
                1
            } else {
                0
            },
            ..own
        },
    ]);
}

/// Without an own BGP route that stands for it, a best path of another
/// protocol is not told to a session that takes one path per prefix.
pub proof fn other_protocols_have_no_voice(
    st: RouterState,
    session: u64,
    b: BgpSession,
    key: RouteKey,
    l: List<Route>,
)
    requires
        st.sessions.contains_key(session),
        st.sessions[session] == Session::Bgp(b),
        l.seq().len() > 0,
        !(l.seq()[0].protocol is Bgp),
        !st.originated.contains_key(key),
        !st.redistributed.contains_key(key),
        !many_paths(b, key.family),
    ensures
        offers(st, session, key, l).len() == 0,
{
    assert(l is Cons);
    assert(l->Cons_0 == l.seq()[0]);
}

/// A session is told nothing exactly where external sessions need a policy,
/// it is external, and no export policy was declared for it.
pub proof fn export_needs_a_policy(st: RouterState, session: u64, b: BgpSession)
    requires
        st.sessions.contains_key(session),
        st.sessions[session] == Session::Bgp(b),
    ensures
        denies_export(st, session) <==> {
            &&& st.settings.ebgp_requires_policy
            &&& b.config.external
            &&& !(st.policy.contains_key(session) && st.policy[session].has_export)
        },
{
}

/// A session that becomes established is offered every destination of the
/// families it speaks: whatever an evaluation of the destination offers it is
/// on the agenda as part of the dump, ahead of the end-of-RIB markers.
pub proof fn dumps_cover_every_family(
    st: RouterState,
    session: u64,
    b: BgpSession,
    key: RouteKey,
    r: Route,
)
    requires
        st.sessions.contains_key(session),
        st.sessions[session] == Session::Bgp(b),
        !denies_export(st, session),
        is_table(st.loc),
        st.loc.contains_key(key),
        key.family == (NlriFamily { afi: 1, safi: 1 }) || b.config.mp_families.seq().contains(
            key.family,
        ),
        offers(st, session, key, st.loc[key]).contains(r),
    ensures
        after_dump(st, session).agenda.len() > st.agenda.len(),
        after_dump(st, session).agenda[st.agenda.len() as int] == (Task::SendEndOfRib { session }),
        exists|i: int|
            st.agenda.len() < i < after_dump(st, session).agenda.len() && #[trigger] after_dump(
                st,
                session,
            ).agenda[i] == (Task::Offer { session, route: r, occasion: Occasion::Dump }),
{
    let families = spoken(b.config.mp_families.seq());
    all_configured_families_are_spoken(b.config.mp_families.seq());
    let f = key.family;
    assert(families.contains(f));
    let fi = choose|i: int| 0 <= i < families.len() && families[i] == f;
    let t = Task::Offer { session, route: r, occasion: Occasion::Dump };
    let per_entry = table_offers(st, session, f, Occasion::Dump);
    let k = lemma_key_position(sorted(st.loc), key);
    let e = sorted(st.loc)[k];
    let routes = offers(st, session, key, st.loc[key]);
    let ri = choose|i: int| 0 <= i < routes.len() && routes[i] == r;
    assert(offer_task(session, Occasion::Dump)(routes[ri])[0] == t);
    assert(offer_task(session, Occasion::Dump)(routes[ri]).contains(t));
    gather_includes(routes, offer_task(session, Occasion::Dump), ri, t);
    assert(per_entry(e) == gather(routes, offer_task(session, Occasion::Dump)));
    gather_includes(sorted(st.loc), per_entry, k, t);
    let per_family = family_offers(st, session);
    assert(per_family(f) == gather(sorted(st.loc), per_entry));
    gather_includes(families, per_family, fi, t);
    let all = gather(families, per_family);
    let tasks = all + seq![Task::SendEndOfRib { session }];
    let j = choose|j: int| 0 <= j < all.len() && all[j] == t;
    assert(tasks[j] == t);
    assert(tasks[tasks.len() - 1] == Task::SendEndOfRib { session });
    lemma_on_agenda(st, tasks, j);
    lemma_on_agenda(st, tasks, tasks.len() - 1);
    let at = st.agenda.len() + tasks.len() - 1 - j;
    assert(after_dump(st, session).agenda[at] == t);
}

/// A dump offers nothing else: each of its offers belongs to a destination in
/// a family the session speaks, and is what an evaluation offers.
pub proof fn dumps_offer_the_table(
    st: RouterState,
    session: u64,
    b: BgpSession,
    i: int,
)
    requires
        st.sessions.contains_key(session),
        st.sessions[session] == Session::Bgp(b),
        !denies_export(st, session),
        is_table(st.loc),
        st.agenda.len() < i < after_dump(st, session).agenda.len(),
    ensures
        exists|key: RouteKey, r: Route|
            after_dump(st, session).agenda[i] == (Task::Offer {
                session,
                route: r,
                occasion: Occasion::Dump,
            }) && st.loc.contains_key(key) && #[trigger] offers(
                st,
                session,
                key,
                st.loc[key],
            ).contains(r) && (key.family == (NlriFamily { afi: 1, safi: 1 })
                || b.config.mp_families.seq().contains(key.family)),
{
    let families = spoken(b.config.mp_families.seq());
    all_configured_families_are_spoken(b.config.mp_families.seq());
    let per_family = family_offers(st, session);
    let all = gather(families, per_family);
    let tasks = all + seq![Task::SendEndOfRib { session }];
    let j = st.agenda.len() + tasks.len() - 1 - i;
    lemma_on_agenda(st, tasks, j);
    let t = tasks[j];
    assert(all[j] == t);
    assert(all.contains(t));
    let fi = gather_source(families, per_family, t);
    let f = families[fi];
    assert(families.contains(f));
    let per_entry = table_offers(st, session, f, Occasion::Dump);
    let k = gather_source(sorted(st.loc), per_entry, t);
    lemma_entry(sorted(st.loc), k);
    let key = sorted(st.loc)[k].0;
    let routes = offers(st, session, key, st.loc[key]);
    assert(per_entry(sorted(st.loc)[k]) == gather(routes, offer_task(session, Occasion::Dump)));
    let ri = gather_source(routes, offer_task(session, Occasion::Dump), t);
    assert(offers(st, session, key, st.loc[key]).contains(routes[ri]));
}

/// An established session is asked to filter exactly what it is offered of a
/// ranking, starting with nothing kept; any other session is left alone.
pub proof fn evaluations_filter_the_offers(
    st: RouterState,
    session: u64,
    key: RouteKey,
    l: List<Route>,
)
    ensures
        is_up(st.session(session)) ==> {
            let next = after_export_to(st, session, key, l).agenda;
            &&& next.len() == st.agenda.len() + 1
            &&& next.drop_last() == st.agenda
            &&& match next.last() {
                Task::Filter { session: s, key: k, todo, kept } => s == session && k == key
                    && todo.seq() == offers(st, session, key, l) && kept.seq().len() == 0,
                _ => false,
            }
        },
        !is_up(st.session(session)) ==> after_export_to(st, session, key, l).agenda == st.agenda,
{
    List::<Route>::seq_of(offers(st, session, key, l));
    let next = after_export_to(st, session, key, l).agenda;
    if is_up(st.session(session)) {
        assert(next.drop_last() =~= st.agenda);
    }
}

/// A filter's verdict on a route: what the hooks pass and the communities
/// allow is kept after what was kept before, anything else is left out. The
/// rest is filtered next.
pub proof fn filters_keep_what_is_allowed(
    st: RouterState,
    session: u64,
    key: RouteKey,
    first: Route,
    rest: List<Route>,
    kept: List<Route>,
    route: Option<Route>,
    allowed: bool,
)
    ensures
        ({
            let todo = List::Cons(first, Box::new(rest));
            let next = after_filtered(st, session, key, todo, kept, route, allowed);
            &&& next.agenda.len() == st.agenda.len() + 1
            &&& match next.agenda.last() {
                Task::Filter { session: s, key: k, todo: t, kept: q } => {
                    &&& s == session && k == key && t == rest
                    &&& route is Some && allowed ==> q.seq() == kept.seq().push(route->0)
                    &&& !(route is Some && allowed) ==> q == kept
                },
                _ => false,
            }
        }),
{
    if let Some(r) = route {
        List::<Route>::seq_of(kept.seq().push(r));
    }
}

/// Whether an interval between advertisements of a destination to a session
/// is running: one is set, something was sent, and it has not ended yet.
pub open spec fn interval_runs(st: RouterState, session: u64, key: RouteKey) -> bool {
    &&& st.mrai_interval.contains_key(session)
    &&& st.mrai_last.contains_key((session, key))
    &&& st.now_ms < st.mrai_last[(session, key)] + st.mrai_interval[session]
    &&& st.now_ms < u64::MAX
}

/// An advertisement leaves at once unless the interval of its destination is
/// running; then it waits to the interval's end, in place of what waited
/// before.
pub proof fn advertisements_wait_for_their_interval(
    st: RouterState,
    session: u64,
    first: Route,
    rest: List<Route>,
)
    requires
        st.mrai_last.contains_key((session, first.key)) ==> st.mrai_last[(session, first.key)]
            <= st.now_ms,
    ensures
        ({
            let routes = List::Cons(first, Box::new(rest));
            let next = after_advertise(st, session, routes);
            &&& interval_runs(st, session, first.key) ==> {
                let end = st.mrai_last[(session, first.key)] + st.mrai_interval[session];
                &&& next.agenda == st.agenda
                &&& next.mrai_pending.contains_key((session, first.key))
                &&& next.mrai_pending[(session, first.key)].routes == routes
                &&& next.mrai_pending[(session, first.key)].due_ms == (if end > u64::MAX {
                    u64::MAX as int
                } else {
                    end
                })
            }
            &&& !interval_runs(st, session, first.key) ==> {
                &&& next.agenda == st.agenda.push(
                    Task::Transmit { session, routes, occasion: Occasion::Update },
                )
                &&& next.mrai_pending == st.mrai_pending
            }
        }),
{
    let routes = List::Cons(first, Box::new(rest));
    let next = after_advertise(st, session, routes);
    if !interval_runs(st, session, first.key) {
        assert(next.agenda =~= st.agenda.push(
            Task::Transmit { session, routes, occasion: Occasion::Update },
        ));
    }
}

/// What is due is transmitted as an update, and only that.
pub proof fn due_advertisements_are_transmitted(st: RouterState, session: u64, key: RouteKey)
    requires
        is_table(st.mrai_pending),
        st.mrai_pending.contains_key((session, key)),
    ensures
        st.mrai_pending[(session, key)].due_ms <= st.now_ms ==> {
            &&& !after_flush_mrai(st).mrai_pending.contains_key((session, key))
            &&& after_flush_mrai(st).agenda.contains(
                Task::Transmit {
                    session,
                    routes: st.mrai_pending[(session, key)].routes,
                    occasion: Occasion::Update,
                },
            )
        },
        st.mrai_pending[(session, key)].due_ms > st.now_ms ==> after_flush_mrai(
            st,
        ).mrai_pending.contains_key((session, key)),
{
    let u = st.mrai_pending[(session, key)];
    crate::router::export::flush_sends_what_is_due(st, (session, key));
    if u.due_ms <= st.now_ms {
        let f = due_task(st.now_ms);
        let s = sorted(st.mrai_pending);
        let k = lemma_key_position(s, (session, key));
        let t = Task::Transmit { session, routes: u.routes, occasion: Occasion::Update };
        assert(f(s[k])[0] == t);
        assert(f(s[k]).contains(t));
        gather_includes(s, f, k, t);
        let tasks = gather(s, f);
        let j = choose|j: int| 0 <= j < tasks.len() && tasks[j] == t;
        lemma_on_agenda(st, tasks, j);
        assert(after_flush_mrai(st).agenda =~= st.schedule(tasks).agenda);
    }
}

proof fn lemma_sent(adj_out: Map<PathKey, Route>, session: u64, routes: List<Route>, p: PathKey)
    ensures
        p.0 != (RouteOrigin { proto: 0, peer: session }) ==> lookup(
            advertised(adj_out, session, routes),
            p,
        ) == lookup(adj_out, p),
        (forall|i: int|
            0 <= i < routes.seq().len() ==> ((#[trigger] routes.seq()[i]).key != p.1.0
                || routes.seq()[i].path_id != p.1.1)) ==> lookup(
            advertised(adj_out, session, routes),
            p,
        ) == lookup(adj_out, p),
        forall|i: int|
            0 <= i < routes.seq().len() && p == (
                RouteOrigin { proto: 0, peer: session },
                ((#[trigger] routes.seq()[i]).key, routes.seq()[i].path_id),
            ) && (forall|j: int|
                i < j < routes.seq().len() ==> ((#[trigger] routes.seq()[j]).key
                    != routes.seq()[i].key || routes.seq()[j].path_id
                    != routes.seq()[i].path_id)) ==> lookup(
                advertised(adj_out, session, routes),
                p,
            ) == Some(routes.seq()[i]),
    decreases routes,
{
    match routes {
        List::Nil => {},
        List::Cons(r, rest) => {
            let here = (RouteOrigin { proto: 0, peer: session }, (r.key, r.path_id));
            let next = adj_out.insert(here, r);
            lemma_sent(next, session, *rest, p);
            let s = routes.seq();
            let t = rest.seq();
            assert(s[0] == r);
            assert(s.drop_first() =~= t);
            if forall|i: int|
                0 <= i < s.len() ==> ((#[trigger] s[i]).key != p.1.0 || s[i].path_id != p.1.1) {
                assert(s[0].key != p.1.0 || s[0].path_id != p.1.1);
                assert forall|i: int| 0 <= i < t.len() implies ((#[trigger] t[i]).key != p.1.0
                    || t[i].path_id != p.1.1) by {
                    assert(s[i + 1] == t[i]);
                }
            }
            assert forall|i: int|
                0 <= i < s.len() && p == (
                    RouteOrigin { proto: 0, peer: session },
                    ((#[trigger] s[i]).key, s[i].path_id),
                ) && (forall|j: int|
                    i < j < s.len() ==> ((#[trigger] s[j]).key != s[i].key || s[j].path_id
                        != s[i].path_id)) implies lookup(
                advertised(adj_out, session, routes),
                p,
            ) == Some(s[i]) by {
                if i == 0 {
                    assert forall|k: int| 0 <= k < t.len() implies ((#[trigger] t[k]).key != p.1.0
                        || t[k].path_id != p.1.1) by {
                        assert(s[k + 1] == t[k]);
                    }
                } else {
                    assert(t[i - 1] == s[i]);
                    assert forall|j: int| i - 1 < j < t.len() implies ((#[trigger] t[j]).key
                        != t[i - 1].key || t[j].path_id != t[i - 1].path_id) by {
                        assert(s[j + 1] == t[j]);
                    }
                }
            }
        },
    }
}

/// What a peer took is on record: a sent path is in the Adj-RIB-Out as it was
/// sent, and nothing else changes there. What the peer did not take leaves no
/// trace.
pub proof fn sent_paths_are_on_record(
    st: RouterState,
    session: u64,
    r: Route,
    occasion: Occasion,
    p: PathKey,
)
    ensures
        ({
            let routes = List::Cons(r, Box::new(List::Nil));
            let next = after_transmit(st, session, routes, occasion, true);
            let here = (RouteOrigin { proto: 0, peer: session }, (r.key, r.path_id));
            &&& lookup(next.adj_out, here) == Some(r)
            &&& p != here ==> lookup(next.adj_out, p) == lookup(st.adj_out, p)
            &&& occasion is Update ==> next.mrai_last.contains_key((session, r.key))
                && next.mrai_last[(session, r.key)] == st.now_ms
            &&& !(occasion is Update) ==> next.mrai_last == st.mrai_last
            &&& occasion is Dump ==> next.events == st.events
            &&& !(occasion is Dump) ==> next.events == st.events.push(
                RouterEvent::PrefixAdvertised(r.key.prefix),
            )
            &&& after_transmit(st, session, routes, occasion, false) == st
        }),
{
    reveal_with_fuel(advertised, 3);
}

/// Several paths that a peer took together are all on record.
pub proof fn sent_sets_are_on_record(
    st: RouterState,
    session: u64,
    routes: List<Route>,
    occasion: Occasion,
    i: int,
)
    requires
        0 <= i < routes.seq().len(),
        forall|j: int|
            i < j < routes.seq().len() ==> ((#[trigger] routes.seq()[j]).key
                != routes.seq()[i].key || routes.seq()[j].path_id != routes.seq()[i].path_id),
    ensures
        lookup(
            after_transmit(st, session, routes, occasion, true).adj_out,
            (
                RouteOrigin { proto: 0, peer: session },
                (routes.seq()[i].key, routes.seq()[i].path_id),
            ),
        ) == Some(routes.seq()[i]),
{
    let p = (
        RouteOrigin { proto: 0, peer: session },
        (routes.seq()[i].key, routes.seq()[i].path_id),
    );
    lemma_sent(st.adj_out, session, routes, p);
    assert(routes is Cons);
}

proof fn lemma_unsent(
    adj_out: Map<PathKey, Route>,
    session: u64,
    key: RouteKey,
    ids: List<u32>,
    p: PathKey,
)
    ensures
        lookup(suppressed(adj_out, session, key, ids), p) == (if p.0 == (RouteOrigin {
            proto: 0,
            peer: session,
        }) && p.1.0 == key && ids.seq().contains(p.1.1) {
            None
        } else {
            lookup(adj_out, p)
        }),
    decreases ids,
{
    match ids {
        List::Nil => {},
        List::Cons(id, rest) => {
            let here = (RouteOrigin { proto: 0, peer: session }, (key, id));
            lemma_unsent(adj_out.remove(here), session, key, *rest, p);
            let s = ids.seq();
            assert(s[0] == id);
            assert(s.drop_first() =~= rest.seq());
            if rest.seq().contains(p.1.1) {
                let j = choose|j: int| 0 <= j < rest.seq().len() && rest.seq()[j] == p.1.1;
                assert(s[j + 1] == p.1.1);
            }
            if s.contains(p.1.1) && p.1.1 != id {
                let j = choose|j: int| 0 <= j < s.len() && s[j] == p.1.1;
                assert(rest.seq()[j - 1] == p.1.1);
            }
        },
    }
}

/// What a peer was told to forget is off the record, and nothing else; a
/// withdrawal starts the interval and is reported. One that the peer did not
/// take changes nothing.
pub proof fn withdrawn_paths_are_off_the_record(
    st: RouterState,
    session: u64,
    key: RouteKey,
    ids: List<u32>,
    p: PathKey,
)
    ensures
        ({
            let next = after_retract(st, session, key, ids, true);
            let gone = p.0 == (RouteOrigin { proto: 0, peer: session }) && p.1.0 == key
                && ids.seq().contains(p.1.1);
            &&& gone ==> !next.adj_out.contains_key(p)
            &&& !gone ==> lookup(next.adj_out, p) == lookup(st.adj_out, p)
            &&& next.mrai_last == st.mrai_last.insert((session, key), st.now_ms)
            &&& next.events == st.events.push(RouterEvent::PrefixRetracted(key.prefix))
            &&& after_retract(st, session, key, ids, false) == st
        }),
{
    lemma_unsent(st.adj_out, session, key, ids, p);
}

/// The identifiers under which a destination was sent to a session are those
/// of its record.
pub proof fn sent_identifiers_are_on_record(
    adj_out: Map<PathKey, Route>,
    session: u64,
    key: RouteKey,
    id: u32,
)
    requires
        is_table(adj_out),
    ensures
        sent_ids(adj_out, session, key).contains(id) <==> adj_out.contains_key(
            (RouteOrigin { proto: 0, peer: session }, (key, id)),
        ),
{
    let f = path_id_to(session, key);
    let s = sorted(adj_out);
    let p = (RouteOrigin { proto: 0, peer: session }, (key, id));
    if adj_out.contains_key(p) {
        let k = lemma_key_position(s, p);
        assert(f(s[k])[0] == id);
        assert(f(s[k]).contains(id));
        gather_includes(s, f, k, id);
    }
    if sent_ids(adj_out, session, key).contains(id) {
        let k = gather_source(s, f, id);
        lemma_entry(s, k);
        assert(s[k].0 == p);
    }
}

/// A destination that is gone is withdrawn from every established session
/// that was sent it, and from no other.
pub proof fn gone_destinations_are_withdrawn(
    st: RouterState,
    key: RouteKey,
    h: u64,
    b: BgpSession,
    id: u32,
)
    requires
        is_table(st.sessions),
        is_table(st.adj_out),
        st.sessions.contains_key(h),
        st.sessions[h] == Session::Bgp(b),
        b.status.state is Established,
        st.adj_out.contains_key((RouteOrigin { proto: 0, peer: h }, (key, id))),
    ensures
        exists|ids: List<u32>|
            ids.seq().contains(id) && #[trigger] after_propagate(st, key).agenda.contains(
                Task::Retract { session: h, key, ids },
            ),
{
    sent_identifiers_are_on_record(st.adj_out, h, key, id);
    let ids = List::of(sent_ids(st.adj_out, h, key));
    List::<u32>::seq_of(sent_ids(st.adj_out, h, key));
    crate::router::flows::every_session_is_told_of_a_withdrawal(st, key, h);
    assert(after_propagate(st, key).agenda.contains(Task::Retract { session: h, key, ids }));
}

/// Stale paths are withdrawn from every established session whose peer does
/// not retain them, and from no other.
pub proof fn stale_paths_are_withdrawn(
    st: RouterState,
    key: RouteKey,
    h: u64,
    b: BgpSession,
    id: u32,
)
    requires
        is_table(st.sessions),
        is_table(st.adj_out),
        st.sessions.contains_key(h),
        st.sessions[h] == Session::Bgp(b),
        st.adj_out.contains_key((RouteOrigin { proto: 0, peer: h }, (key, id))),
        st.adj_out[(
            RouteOrigin { proto: 0, peer: h },
            (key, id),
        )].attributes.communities.seq().contains(0xffff_0006u32),
    ensures
        b.status.state is Established && !b.status.long_lived ==> exists|ids: List<u32>|
            ids.seq().contains(id) && #[trigger] after_withdraw_stale(st, key).agenda.contains(
                Task::Retract { session: h, key, ids },
            ),
        b.status.long_lived || !(b.status.state is Established) ==> stale_retraction(
            st.adj_out,
            key,
        )((h, st.sessions[h])).len() == 0,
{
    let here = (RouteOrigin { proto: 0, peer: h }, (key, id));
    crate::router::export::fresh_paths_are_not_withdrawn_as_stale(st.adj_out, h, key, id);
    assert(stale_ids(st.adj_out, h, key).contains(id));
    if b.status.state is Established && !b.status.long_lived {
        let ids = List::of(stale_ids(st.adj_out, h, key));
        List::<u32>::seq_of(stale_ids(st.adj_out, h, key));
        let t = Task::Retract { session: h, key, ids };
        let f = stale_retraction(st.adj_out, key);
        let s = sorted(st.sessions);
        let k = lemma_key_position(s, h);
        assert(f(s[k])[0] == t);
        assert(f(s[k]).contains(t));
        gather_includes(s, f, k, t);
        let tasks = gather(s, f);
        let j = choose|j: int| 0 <= j < tasks.len() && tasks[j] == t;
        lemma_on_agenda(st, tasks, j);
        assert(after_withdraw_stale(st, key).agenda.contains(t));
    }
}

/// A refresh withdraws everything sent in the family, then offers the table
/// anew, then ends; what was sent in other families stays on record.
pub proof fn refreshes_start_over(
    st: RouterState,
    session: u64,
    family: NlriFamily,
    demarcated: bool,
    p: PathKey,
)
    requires
        is_table(st.adj_out),
    ensures
        ({
            let next = after_begin_refresh(st, session, family, demarcated);
            let mine = p.0 == (RouteOrigin { proto: 0, peer: session }) && p.1.0.family == family;
            &&& mine ==> !next.adj_out.contains_key(p)
            &&& !mine ==> lookup(next.adj_out, p) == lookup(st.adj_out, p)
            &&& next.agenda.len() > st.agenda.len()
            &&& next.agenda[st.agenda.len() as int] == (Task::EndRefresh {
                session,
                family,
                demarcated,
            })
            &&& mine && st.adj_out.contains_key(p) ==> next.agenda.contains(
                Task::Clear {
                    session,
                    key: p.1.0,
                    ids: List::Cons(p.1.1, Box::new(List::Nil)),
                },
            )
        }),
{
    let f = clearing(session, family);
    let s = sorted(st.adj_out);
    let a = gather(s, f);
    let b = if denies_export(st, session) {
        Seq::<Task>::empty()
    } else {
        gather(sorted(st.loc), table_offers(st, session, family, Occasion::Refresh))
    };
    let tasks = a + b + seq![Task::EndRefresh { session, family, demarcated }];
    let next = after_begin_refresh(st, session, family, demarcated);
    assert(tasks[tasks.len() - 1] == Task::EndRefresh { session, family, demarcated });
    lemma_on_agenda(st, tasks, tasks.len() - 1);
    assert(next.agenda =~= st.schedule(tasks).agenda);
    if p.0 == (RouteOrigin { proto: 0, peer: session }) && p.1.0.family == family
        && st.adj_out.contains_key(p) {
        let t = Task::Clear {
            session,
            key: p.1.0,
            ids: List::Cons(p.1.1, Box::new(List::Nil)),
        };
        let k = lemma_key_position(s, p);
        assert(f(s[k])[0] == t);
        assert(f(s[k]).contains(t));
        gather_includes(s, f, k, t);
        let j = choose|j: int| 0 <= j < a.len() && a[j] == t;
        assert(tasks[j] == t);
        lemma_on_agenda(st, tasks, j);
    }
}

/// A refresh offers a destination of its family whatever an evaluation of the
/// destination offers, ahead of its end.
pub proof fn refreshes_offer_the_table(
    st: RouterState,
    session: u64,
    key: RouteKey,
    demarcated: bool,
    r: Route,
)
    requires
        !denies_export(st, session),
        is_table(st.loc),
        st.loc.contains_key(key),
        offers(st, session, key, st.loc[key]).contains(r),
    ensures
        after_begin_refresh(st, session, key.family, demarcated).agenda.contains(
            Task::Offer { session, route: r, occasion: Occasion::Refresh },
        ),
{
    let t = Task::Offer { session, route: r, occasion: Occasion::Refresh };
    let a = gather(sorted(st.adj_out), clearing(session, key.family));
    let g = table_offers(st, session, key.family, Occasion::Refresh);
    let b = gather(sorted(st.loc), g);
    let k = lemma_key_position(sorted(st.loc), key);
    let routes = offers(st, session, key, st.loc[key]);
    let ri = choose|i: int| 0 <= i < routes.len() && routes[i] == r;
    assert(offer_task(session, Occasion::Refresh)(routes[ri])[0] == t);
    assert(offer_task(session, Occasion::Refresh)(routes[ri]).contains(t));
    gather_includes(routes, offer_task(session, Occasion::Refresh), ri, t);
    gather_includes(sorted(st.loc), g, k, t);
    let tasks = a + b + seq![Task::EndRefresh { session, family: key.family, demarcated }];
    let j = choose|j: int| 0 <= j < b.len() && b[j] == t;
    assert(tasks[a.len() + j] == t);
    lemma_on_agenda(st, tasks, a.len() + j);
    assert(after_begin_refresh(st, session, key.family, demarcated).agenda =~= st.schedule(
        tasks,
    ).agenda);
}

/// An offered route that the hooks pass is transmitted as they left it, on the
/// occasion it was offered; one they refuse is not.
pub proof fn passed_offers_are_transmitted(
    st: RouterState,
    session: u64,
    occasion: Occasion,
    r: Route,
)
    ensures
        ({
            let next = after_offer(st, session, occasion, Some(r)).agenda;
            &&& next.len() == st.agenda.len() + 1
            &&& match next.last() {
                Task::Transmit { session: s, routes, occasion: o } => s == session && o == occasion
                    && routes == List::Cons(r, Box::new(List::Nil)),
                _ => false,
            }
            &&& after_offer(st, session, occasion, None) == st
        }),
{
}

/// A session that asks for a family anew is answered by a refresh of that
/// family if it is established, and not at all otherwise.
pub proof fn requests_are_answered_by_a_refresh(
    st: RouterState,
    session: u64,
    family: NlriFamily,
)
    ensures
        is_up(st.session(session)) ==> after_reannounce(st, session, family).agenda
            == st.agenda.push(Task::BeginRefresh { session, family }),
        !is_up(st.session(session)) ==> after_reannounce(st, session, family) == st,
{
    if is_up(st.session(session)) {
        assert(after_reannounce(st, session, family).agenda =~= st.agenda.push(
            Task::BeginRefresh { session, family },
        ));
    }
}

proof fn lemma_offers_are_offers(
    st: RouterState,
    session: u64,
    family: NlriFamily,
    e: (RouteKey, List<Route>),
    t: Task,
)
    requires
        table_offers(st, session, family, Occasion::Refresh)(e).contains(t),
    ensures
        t is Offer,
{
    let stale_too = takes_stale(st.session(session));
    let s = if sends_paths(st.session(session), family) {
        ranked_offers(voiced(st, e.0, e.1), session, stale_too, 0)
    } else {
        plain_offer(voiced(st, e.0, e.1), session, stale_too)
    };
    if e.0.family == family {
        let i = gather_source(s, offer_task(session, Occasion::Refresh), t);
    }
}

/// A refresh clears nothing but what was sent to its session in its family.
pub proof fn refreshes_clear_one_family(
    st: RouterState,
    session: u64,
    family: NlriFamily,
    demarcated: bool,
    j: int,
) -> (p: PathKey)
    requires
        is_table(st.adj_out),
        st.agenda.len() <= j < after_begin_refresh(st, session, family, demarcated).agenda.len(),
        after_begin_refresh(st, session, family, demarcated).agenda[j] is Clear,
    ensures
        st.adj_out.contains_key(p),
        p.0 == (RouteOrigin { proto: 0, peer: session }),
        p.1.0.family == family,
        after_begin_refresh(st, session, family, demarcated).agenda[j] == (Task::Clear {
            session,
            key: p.1.0,
            ids: List::Cons(p.1.1, Box::new(List::Nil)),
        }),
{
    let f = clearing(session, family);
    let s = sorted(st.adj_out);
    let a = gather(s, f);
    let g = table_offers(st, session, family, Occasion::Refresh);
    let offers = gather(sorted(st.loc), g);
    let b = if denies_export(st, session) {
        Seq::<Task>::empty()
    } else {
        offers
    };
    let tasks = a + b + seq![Task::EndRefresh { session, family, demarcated }];
    let next = after_begin_refresh(st, session, family, demarcated);
    assert(next.agenda =~= st.schedule(tasks).agenda);
    let t = next.agenda[j];
    let n = tasks.len() - 1 - (j - st.agenda.len());
    assert(tasks[n] == t);
    if n >= a.len() {
        assert(b[n - a.len()] == t);
        assert(offers.contains(t));
        let i = gather_source(sorted(st.loc), g, t);
        lemma_offers_are_offers(st, session, family, sorted(st.loc)[i], t);
        assert(false);
    }
    assert(a[n] == t);
    assert(a.contains(t));
    let i = gather_source(s, f, t);
    assert(f(s[i])[0] == t);
    lemma_entry(s, i);
    s[i].0
}

} // verus!
