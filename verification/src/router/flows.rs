//! What several steps of the agenda come to.

use crate::events::RouterEvent;
use crate::list::List;
use crate::ordmap::{is_table, lemma_entry, lemma_key_position, sorted};
use crate::ospf::facts::AreaView;
use crate::route::{Route, RouteKey, RouteOrigin};
use crate::router::engine::step_of;
use crate::router::export::{after_export, after_propagate, export_task, retraction, sent_ids};
use crate::router::origination::after_unoriginate;
use crate::router::paths::{OfBgpPeer, ToKey};
use crate::router::restart::{
    after_cleanup, after_teardown, outbound_cleared, reselection, retained,
};
use crate::router::selection::{best_of, candidates, named, ranking, rule_for};
use crate::router::{PathKey, RouterState};
use crate::select::{accepted_value, keys_where, lemma_keys_where, values_where, without, KeyTest};
use crate::seqs::{gather, gather_includes};
use crate::session::is_up;
use crate::task::{Answer, SelectionRule, Task};
use vstd::prelude::*;

verus! {

/// The router after `n` steps of its own, none of which needs an answer.
pub open spec fn steps(st: RouterState, backbone: AreaView, n: nat) -> RouterState
    decreases n,
{
    if n == 0 {
        st
    } else {
        steps(step_of(st, Answer::Done, backbone), backbone, (n - 1) as nat)
    }
}

proof fn lemma_values_where(m: Map<PathKey, Route>, key: RouteKey, k: PathKey)
    requires
        is_table(m),
        m.contains_key(k),
        k.1.0 == key,
    ensures
        values_where(m, ToKey(key)).contains(m[k]),
{
    let s = sorted(m);
    let f = accepted_value::<PathKey, Route, ToKey>(ToKey(key));
    let i = lemma_key_position(s, k);
    lemma_entry(s, i);
    assert(f(s[i]) == seq![m[k]]);
    assert(f(s[i])[0] == m[k]);
    gather_includes(s, f, i, m[k]);
}

proof fn lemma_last(a: Seq<Task>, tasks: Seq<Task>)
    requires
        tasks.len() > 0,
    ensures
        (a + tasks.reverse()).last() == tasks[0],
        (a + tasks.reverse()).drop_last() == a + tasks.drop_first().reverse(),
{
    let r = tasks.reverse();
    assert(r[r.len() - 1] == tasks[0]);
    assert((a + r).drop_last() =~= a + tasks.drop_first().reverse());
}

/// A route that the import hooks pass competes for its destination: the next
/// question is for a ranking of candidates that hold it.
pub proof fn admitted_routes_compete(
    st: RouterState,
    raw: Route,
    route: Route,
    backbone: AreaView,
)
    requires
        st.agenda.len() > 0,
        st.agenda.last() == (Task::RunImport { route: raw, reconfig: false }),
        is_table(step_of(st, Answer::Hooked(Some(route)), backbone).adj_in),
    ensures
        ({
            let admitted = step_of(st, Answer::Hooked(Some(route)), backbone);
            let asked = steps(admitted, backbone, 1);
            &&& asked.agenda.last() is Rank
            &&& asked.agenda.last()->Rank_key == route.key
            &&& asked.agenda.last()->Rank_candidates.seq().contains(route)
        }),
{
    let admitted = step_of(st, Answer::Hooked(Some(route)), backbone);
    let session = route.origin.peer;
    let tasks = seq![
        Task::Reselect { key: route.key },
        Task::CheckLimit { session },
        Task::NoteRecords { session, key: route.key, store: raw.attributes.records },
    ];
    let path = (route.origin, (route.key, route.path_id));
    assert(admitted.agenda == st.agenda.drop_last() + tasks.reverse());
    lemma_last(st.agenda.drop_last(), tasks);
    assert(admitted.adj_in[path] == route);
    lemma_values_where(admitted.adj_in, route.key, path);
    let rest = RouterState { agenda: admitted.agenda.drop_last(), ..admitted };
    let s = candidates(rest, route.key);
    let paths = values_where(admitted.adj_in, ToKey(route.key));
    let i = choose|i: int| 0 <= i < paths.len() && paths[i] == route;
    assert(s[i] == route);
    assert(s.contains(route));
    List::seq_of(s);
    let asked = steps(admitted, backbone, 1);
    reveal_with_fuel(steps, 2);
    let one = seq![Task::Rank { key: route.key, candidates: List::of(s), rule: rule_for(s) }];
    assert(asked.agenda == rest.agenda + one.reverse());
    lemma_last(rest.agenda, one);
}

/// The candidate that a ranking puts first is the best path in force two
/// steps later.
pub proof fn first_ranked_is_in_force(
    st: RouterState,
    key: RouteKey,
    s: List<Route>,
    rule: SelectionRule,
    picks: Vec<usize>,
    backbone: AreaView,
)
    requires
        st.agenda.len() > 0,
        st.agenda.last() == (Task::Rank { key, candidates: s, rule }),
        st.settings.max_paths >= 1,
        picks@.len() > 0,
        picks@[0] < s.seq().len(),
    ensures
        best_of(
            steps(step_of(st, Answer::Ranked(picks), backbone), backbone, 1).loc,
            key,
        ) == Some(s.seq()[picks@[0] as int]),
{
    let given = step_of(st, Answer::Ranked(picks), backbone);
    let r = ranking(s.seq(), picks@, st.settings.max_paths);
    let one = seq![Task::Apply { key, ranked: List::of(r) }];
    assert(given.agenda == st.agenda.drop_last() + one.reverse());
    lemma_last(st.agenda.drop_last(), one);
    lemma_first(s.seq(), picks@);
    reveal_with_fuel(steps, 2);
}

proof fn lemma_first(s: Seq<Route>, picks: Seq<usize>)
    requires
        picks.len() > 0,
        picks[0] < s.len(),
    ensures
        gather(picks, named(s)).len() > 0,
        gather(picks, named(s))[0] == s[picks[0] as int],
    decreases picks.len(),
{
    let f = named(s);
    if picks.len() == 1 {
        assert(picks.drop_last() =~= Seq::<usize>::empty());
        assert(gather(picks.drop_last(), f) =~= Seq::<Route>::empty());
        assert(gather(picks, f) =~= f(picks.last()));
    } else {
        lemma_first(s, picks.drop_last());
        assert(picks.drop_last()[0] == picks[0]);
    }
}

proof fn lemma_uncontested(st: RouterState, key: RouteKey, backbone: AreaView)
    requires
        st.agenda.len() > 0,
        st.agenda.last() == (Task::Reselect { key }),
        candidates(st, key).len() == 0,
    ensures
        !steps(st, backbone, 2).loc.contains_key(key),
        steps(st, backbone, 2).events.last() == RouterEvent::RouteWithdrawn(key),
{
    let middle = RouterState { agenda: st.agenda.drop_last(), ..st };
    assert(candidates(middle, key) =~= candidates(st, key));
    let next = step_of(st, Answer::Done, backbone);
    let one = seq![Task::Apply { key, ranked: List::Nil }];
    assert(next.agenda == middle.agenda + one.reverse());
    lemma_last(middle.agenda, one);
    let done = step_of(next, Answer::Done, backbone);
    assert(steps(done, backbone, 0) == done);
    assert(steps(next, backbone, 1) == done);
    assert(steps(st, backbone, 2) == steps(next, backbone, 1));
}

/// Withdrawing the only contribution to a destination takes it out of the
/// Loc-RIB, and reports that.
#[verifier::rlimit(40)]
pub proof fn last_contribution_takes_the_destination_along(
    st: RouterState,
    key: RouteKey,
    backbone: AreaView,
)
    requires
        st.originated.contains_key(key),
        candidates(after_unoriginate(st, key), key).len() == 0,
    ensures
        ({
            let gone = steps(after_unoriginate(st, key), backbone, 3);
            &&& !gone.loc.contains_key(key)
            &&& gone.events.last() == RouterEvent::RouteWithdrawn(key)
        }),
{
    let a = after_unoriginate(st, key);
    let tasks = seq![Task::ReleaseCopy { key }, Task::Reselect { key }];
    assert(a.agenda == st.agenda + tasks.reverse());
    lemma_last(st.agenda, tasks);
    let b = step_of(a, Answer::Done, backbone);
    let rest = tasks.drop_first();
    assert(b.agenda == st.agenda + rest.reverse());
    lemma_last(st.agenda, rest);
    assert(candidates(b, key) =~= candidates(a, key));
    lemma_uncontested(b, key, backbone);
    assert(steps(a, backbone, 3) == steps(b, backbone, 2));
}

/// A destination whose last path a peer withdraws leaves the Loc-RIB.
pub proof fn withdrawn_paths_leave(
    st: RouterState,
    origin: RouteOrigin,
    key: RouteKey,
    path_id: u32,
    backbone: AreaView,
)
    requires
        st.agenda.len() > 0,
        st.agenda.last() == (Task::RemovePath { origin, key, path_id }),
        st.adj_in.contains_key((origin, (key, path_id))),
        candidates(step_of(st, Answer::Done, backbone), key).len() == 0,
    ensures
        !steps(st, backbone, 3).loc.contains_key(key),
{
    let a = step_of(st, Answer::Done, backbone);
    let tasks = seq![
        Task::Reselect { key },
        Task::DropRecords { session: origin.peer, prefix: key.prefix },
    ];
    assert(a.agenda == st.agenda.drop_last() + tasks.reverse());
    lemma_last(st.agenda.drop_last(), tasks);
    lemma_uncontested(a, key, backbone);
    assert(steps(st, backbone, 3) == steps(a, backbone, 2));
}

/// A change of the best path is considered toward every established session.
pub proof fn every_session_is_considered(
    st: RouterState,
    key: RouteKey,
    ranked: List<Route>,
    h: u64,
)
    requires
        is_table(st.sessions),
        is_up(st.session(h)),
    ensures
        after_export(st, key, ranked).agenda.contains(Task::ExportTo { session: h, key, ranked }),
{
    let f = export_task(key, ranked);
    let s = sorted(st.sessions);
    let t = Task::ExportTo { session: h, key, ranked };
    let i = lemma_key_position(s, h);
    lemma_entry(s, i);
    assert(f(s[i]) == seq![t]);
    assert(f(s[i])[0] == t);
    gather_includes(s, f, i, t);
    lemma_scheduled(st.agenda, gather(s, f), t);
}

proof fn lemma_scheduled(a: Seq<Task>, tasks: Seq<Task>, t: Task)
    requires
        tasks.contains(t),
    ensures
        (a + tasks.reverse()).contains(t),
{
    let j = choose|j: int| 0 <= j < tasks.len() && tasks[j] == t;
    let at = a.len() + tasks.len() - 1 - j;
    assert((a + tasks.reverse())[at] == t);
}

/// A destination that left the Loc-RIB is withdrawn from every established
/// session that was sent it, under all its identifiers.
pub proof fn every_session_is_told_of_a_withdrawal(st: RouterState, key: RouteKey, h: u64)
    requires
        is_table(st.sessions),
        is_up(st.session(h)),
        sent_ids(st.adj_out, h, key).len() > 0,
    ensures
        after_propagate(st, key).agenda.contains(
            Task::Retract {
                session: h,
                key,
                ids: List::of(sent_ids(st.adj_out, h, key)),
            },
        ),
{
    let f = retraction(st.adj_out, key);
    let s = sorted(st.sessions);
    let t = Task::Retract { session: h, key, ids: List::of(sent_ids(st.adj_out, h, key)) };
    let i = lemma_key_position(s, h);
    lemma_entry(s, i);
    assert(f(s[i]) == seq![t]);
    assert(f(s[i])[0] == t);
    gather_includes(s, f, i, t);
    lemma_scheduled(st.agenda, gather(s, f), t);
}

/// Every destination that a purged session contributed to is reselected.
pub proof fn purged_destinations_are_reselected(st: RouterState, session: u64, k: PathKey)
    requires
        is_table(st.adj_in),
        st.adj_in.contains_key(k),
        OfBgpPeer(session).accepts(k),
    ensures
        !after_cleanup(st, session).adj_in.contains_key(k),
        after_cleanup(st, session).agenda.contains(Task::Reselect { key: k.1.0 }),
{
    let keys = keys_where(st.adj_in, OfBgpPeer(session));
    lemma_keys_where(sorted(st.adj_in), OfBgpPeer(session), k);
    let i = choose|i: int| 0 <= i < keys.len() && keys[i] == k;
    let f = reselection();
    let t = Task::Reselect { key: k.1.0 };
    assert(f(keys[i]) == seq![t]);
    assert(f(keys[i])[0] == t);
    gather_includes(keys, f, i, t);
    let tasks = gather(keys, f);
    let j = choose|j: int| 0 <= j < tasks.len() && tasks[j] == t;
    let last = seq![
        Task::Report(
            RouterEvent::Log(crate::events::LogEntry::SessionPurged { session }),
        ),
    ];
    assert((tasks + last)[j] == t);
    lemma_scheduled(st.agenda, tasks + last, t);
}

/// A session that is reported down twice is purged once.
pub proof fn teardown_is_idempotent(st: RouterState, session: u64)
    requires
        !retained(st.session(session)),
        is_table(after_teardown(st, session).adj_in),
    ensures
        after_teardown(after_teardown(st, session), session) == after_teardown(st, session),
{
    let once = after_teardown(st, session);
    let twice = outbound_cleared(once, session);
    let t = OfBgpPeer(session);
    assert(twice.mrai_last =~= once.mrai_last);
    assert(twice.mrai_pending =~= once.mrai_pending);
    assert(twice.adj_out =~= once.adj_out);
    assert(twice.limits =~= once.limits);
    assert(twice.records =~= once.records);
    assert(twice.partial_transit =~= once.partial_transit);
    assert(without(twice.pre_policy, t) =~= once.pre_policy);
    assert(without(twice.screened, t) =~= once.screened);
    assert(without(twice.adj_out, t) =~= once.adj_out);
    assert(twice == once);
    let keys = keys_where(once.adj_in, t);
    if keys.len() > 0 {
        let k = keys[0];
        lemma_keys_where(sorted(once.adj_in), t, k);
        assert(keys.contains(k));
        if keys_where(st.adj_in, t).len() > 0 {
            assert(once.adj_in == without(st.adj_in, t));
        }
    }
}

} // verus!
