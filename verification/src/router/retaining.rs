//! What is kept of a session that went down, and for how long.

use crate::addr::NlriFamily;
use crate::events::{LogEntry, RouterEvent};
use crate::list::List;
use crate::ordmap::{is_table, lookup, sorted};
use crate::ordmap::{lemma_entry, lemma_key_position};
use crate::route::{Route, RouteKey, RouteOrigin};
use crate::router::paths::{OfBgpPeer, OfPeer, OfSession, OfSessionFamily, PathsIn, PathsTo, ToKey};
use crate::router::restart::{
    after_cleanup, after_deadline, after_end_of_rib, after_enter_llgr, after_family_end,
    after_finish_reconfig, after_reconfig, after_recount, after_teardown, after_window,
    capped_stale, goes_on, less_by, outbound_cleared, outstanding, purge_task, reimport,
    reselection, retained, stale_key, stale_tasks, touched_task, touching, under_retention,
    unlatched, with_deadlines,
};
use crate::router::telling::lemma_on_agenda;
use crate::router::{LimitState, PathKey, RouterState};
use crate::select::KeyTest;
use crate::select::{accepted_value, any_key, keys_where, lemma_keys_where, values_where};
use crate::seqs::{gather, gather_includes, gather_source, one_if};
use crate::session::{BgpSession, Session};
use crate::task::Task;
use vstd::prelude::*;

verus! {

/// Whether a path is of a BGP peer, external or internal.
pub open spec fn of_peer(k: PathKey, session: u64) -> bool {
    k.0.peer == session && (k.0.proto == 0 || k.0.proto == 1)
}

/// Paths and entries are told apart by what their keys say.
pub proof fn keys_are_told_apart(k: PathKey, e: (u64, RouteKey), session: u64, o: RouteOrigin, key: RouteKey)
    ensures
        OfBgpPeer(session).accepts(k) <==> of_peer(k, session),
        OfPeer(session).accepts(k) <==> k.0.peer == session,
        ToKey(key).accepts(k) <==> k.1.0 == key,
        PathsTo(o, key).accepts(k) <==> k.0 == o && k.1.0 == key,
        PathsIn(o, key.family).accepts(k) <==> k.0 == o && k.1.0.family == key.family,
        OfSession(session).accepts(e) <==> e.0 == session,
        OfSessionFamily(session, key.family).accepts(e) <==> e.0 == session && e.1.family
            == key.family,
{
}

/// A session's routes are retained where it negotiated a restart time, or
/// long-lived retention for some family.
pub proof fn retention_is_negotiated(st: RouterState, session: u64, b: BgpSession)
    requires
        st.sessions.contains_key(session),
        st.sessions[session] == Session::Bgp(b),
    ensures
        retained(st.session(session)) <==> b.status.restart_secs > 0 || (b.status.long_lived
            && b.status.stale_secs.seq().len() > 0),
{
    match b.status.stale_secs {
        List::Nil => {},
        List::Cons(x, rest) => {
            assert(b.status.stale_secs.seq()[0] == x);
        },
    }
}

/// A session that goes down leaves nothing of what it was sent, and nothing
/// that waits for it; its records go, and its limits are reported anew. What
/// concerns other sessions stays.
pub proof fn outbound_state_is_forgotten(
    st: RouterState,
    session: u64,
    k: PathKey,
    e: (u64, RouteKey),
)
    ensures
        ({
            let next = outbound_cleared(st, session);
            &&& of_peer(k, session) ==> !next.adj_out.contains_key(k)
            &&& !of_peer(k, session) ==> lookup(next.adj_out, k) == lookup(st.adj_out, k)
            &&& e.0 == session ==> !next.mrai_pending.contains_key(e)
                && !next.mrai_last.contains_key(e)
            &&& e.0 != session ==> lookup(next.mrai_pending, e) == lookup(st.mrai_pending, e)
                && lookup(next.mrai_last, e) == lookup(st.mrai_last, e)
            &&& next.adj_in == st.adj_in
            &&& !next.records.contains_key(session)
            &&& !next.partial_transit.contains_key(session)
            &&& st.limits.contains_key(session) ==> {
                &&& next.limits.contains_key(session)
                &&& !next.limits[session].exceeded
                &&& !next.limits[session].warned
                &&& next.limits[session].count == st.limits[session].count
            }
            &&& e.0 != session ==> lookup(next.limits, e.0) == lookup(st.limits, e.0)
        }),
{
}

proof fn lemma_deadlines(
    deadlines: Map<(u64, NlriFamily), u64>,
    session: u64,
    ends: u64,
    cap: Option<u32>,
    l: List<(NlriFamily, u32)>,
    f: NlriFamily,
)
    ensures
        (forall|i: int| 0 <= i < l.seq().len() ==> (#[trigger] l.seq()[i]).0 != f) ==> lookup(
            with_deadlines(deadlines, session, ends, cap, l),
            (session, f),
        ) == lookup(deadlines, (session, f)),
        forall|i: int|
            0 <= i < l.seq().len() && (#[trigger] l.seq()[i]).0 == f && (forall|j: int|
                i < j < l.seq().len() ==> (#[trigger] l.seq()[j]).0 != f) ==> lookup(
                with_deadlines(deadlines, session, ends, cap, l),
                (session, f),
            ) == Some(
                crate::router::export::later(
                    ends,
                    (capped_stale(l.seq()[i].1, cap) as int * 1000) as u64,
                ),
            ),
        forall|k: (u64, NlriFamily)|
            k.0 != session ==> #[trigger] lookup(
                with_deadlines(deadlines, session, ends, cap, l),
                k,
            ) == lookup(deadlines, k),
    decreases l,
{
    match l {
        List::Nil => {},
        List::Cons(e, rest) => {
            let due = crate::router::export::later(
                ends,
                (capped_stale(e.1, cap) as int * 1000) as u64,
            );
            let next = deadlines.insert((session, e.0), due);
            lemma_deadlines(next, session, ends, cap, *rest, f);
            let s = l.seq();
            let t = rest.seq();
            assert(s[0] == e);
            assert(s.drop_first() =~= t);
            if forall|i: int| 0 <= i < s.len() ==> (#[trigger] s[i]).0 != f {
                assert(s[0].0 != f);
                assert forall|i: int| 0 <= i < t.len() implies (#[trigger] t[i]).0 != f by {
                    assert(s[i + 1] == t[i]);
                }
            }
            assert forall|i: int|
                0 <= i < s.len() && (#[trigger] s[i]).0 == f && (forall|j: int|
                    i < j < s.len() ==> (#[trigger] s[j]).0 != f) implies lookup(
                with_deadlines(deadlines, session, ends, cap, l),
                (session, f),
            ) == Some(
                crate::router::export::later(
                    ends,
                    (capped_stale(s[i].1, cap) as int * 1000) as u64,
                ),
            ) by {
                if i == 0 {
                    assert forall|j: int| 0 <= j < t.len() implies (#[trigger] t[j]).0 != f by {
                        assert(s[j + 1] == t[j]);
                    }
                } else {
                    assert(t[i - 1] == s[i]);
                    assert forall|j: int| i - 1 < j < t.len() implies (#[trigger] t[j]).0 != f by {
                        assert(s[j + 1] == t[j]);
                    }
                }
            }
        },
    }
}

/// A session that goes down and is retained keeps its contribution. Its
/// restart time runs from now on; a family with long-lived retention ends so
/// much later as it negotiated, but no more than the session's cap allows.
pub proof fn retention_lasts_as_negotiated(
    st: RouterState,
    session: u64,
    b: BgpSession,
    i: int,
)
    requires
        st.sessions.contains_key(session),
        st.sessions[session] == Session::Bgp(b),
        b.status.restart_secs > 0 || (b.status.long_lived && b.status.stale_secs.seq().len() > 0),
        !under_retention(st, session),
        st.now_ms + 0xffff * 1000 + 0xffff_ffff * 1000 <= u64::MAX,
    ensures
        ({
            let next = after_teardown(st, session);
            let ends = st.now_ms + b.status.restart_secs * 1000;
            let l = b.status.stale_secs.seq();
            &&& next.adj_in == st.adj_in
            &&& next.agenda == st.agenda
            &&& next.windows.contains_key(session)
            &&& next.windows[session].expires_ms == ends
            &&& !next.windows[session].marked_stale
            &&& b.status.long_lived && 0 <= i < l.len() && (forall|j: int|
                i < j < l.len() ==> (#[trigger] l[j]).0 != l[i].0) ==> {
                let secs = if st.llgr_caps.contains_key(session) && st.llgr_caps[session] < l[i].1 {
                    st.llgr_caps[session]
                } else {
                    l[i].1
                };
                &&& next.deadlines.contains_key((session, l[i].0))
                &&& next.deadlines[(session, l[i].0)] == ends + secs * 1000
            }
            &&& !b.status.long_lived ==> forall|f: NlriFamily|
                !(#[trigger] next.deadlines.contains_key((session, f)))
        }),
{
    retention_is_negotiated(st, session, b);
    let ends = crate::router::restart::restart_end(st, b.status.restart_secs);
    let l = b.status.stale_secs;
    let base = crate::select::without(st.deadlines, OfSession(session));
    if b.status.long_lived && 0 <= i < l.seq().len() {
        lemma_deadlines(
            base,
            session,
            ends,
            lookup(st.llgr_caps, session),
            l,
            l.seq()[i].0,
        );
    }
    if !b.status.long_lived {
        let next = after_teardown(st, session);
        assert forall|f: NlriFamily| !(#[trigger] next.deadlines.contains_key((session, f))) by {
            assert(!base.contains_key((session, f)));
        }
    }
}

/// Purging a session takes out all it contributed and all it was sent, and
/// nothing of other sessions; every destination it contributed to is selected
/// anew, and its count falls by so many.
pub proof fn purging_takes_out_one_session(st: RouterState, session: u64, k: PathKey)
    requires
        is_table(st.adj_in),
    ensures
        ({
            let next = after_cleanup(st, session);
            &&& of_peer(k, session) ==> !next.adj_in.contains_key(k)
                && !next.pre_policy.contains_key(k) && !next.screened.contains_key(k)
                && !next.adj_out.contains_key(k)
            &&& !of_peer(k, session) ==> lookup(next.adj_in, k) == lookup(st.adj_in, k) && lookup(
                next.pre_policy,
                k,
            ) == lookup(st.pre_policy, k) && lookup(next.screened, k) == lookup(st.screened, k)
                && lookup(next.adj_out, k) == lookup(st.adj_out, k)
            &&& of_peer(k, session) && st.adj_in.contains_key(k) ==> next.agenda.contains(
                Task::Reselect { key: k.1.0 },
            )
        }),
{
    let affected = keys_where(st.adj_in, OfBgpPeer(session));
    lemma_keys_where(sorted(st.adj_in), OfBgpPeer(session), k);
    if of_peer(k, session) && st.adj_in.contains_key(k) {
        assert(affected.contains(k));
        let i = choose|i: int| 0 <= i < affected.len() && affected[i] == k;
        let f = reselection();
        let t = Task::Reselect { key: k.1.0 };
        assert(f(affected[i])[0] == t);
        assert(f(affected[i]).contains(t));
        gather_includes(affected, f, i, t);
        let a = gather(affected, f);
        let tasks = a + seq![
            Task::Report(RouterEvent::Log(LogEntry::SessionPurged { session })),
        ];
        let j = choose|j: int| 0 <= j < a.len() && a[j] == t;
        assert(tasks[j] == t);
        lemma_on_agenda(st, tasks, j);
        assert(after_cleanup(st, session).agenda =~= st.schedule(tasks).agenda);
    }
}

/// Counts fall by what left, never below zero.
pub proof fn counts_fall_by_what_left(
    limits: Map<u64, LimitState>,
    session: u64,
    n: nat,
    other: u64,
)
    requires
        n < 0x1_0000_0000,
    ensures
        limits.contains_key(session) ==> {
            let l = less_by(limits, session, n);
            &&& l.contains_key(session)
            &&& l[session].count == (if limits[session].count >= n {
                limits[session].count - n
            } else {
                0
            })
            &&& l[session].exceeded == limits[session].exceeded
            &&& l[session].warned == limits[session].warned
        },
        other != session ==> lookup(less_by(limits, session, n), other) == lookup(limits, other)
            && lookup(unlatched(limits, session), other) == lookup(limits, other),
        !limits.contains_key(session) ==> less_by(limits, session, n) == limits,
{
}

/// When a session's restart time ends, each of its paths that was not
/// advertised anew becomes stale if its family is under long-lived retention,
/// and is dropped if not, or if it carries the community that forbids it. A
/// stale path keeps all it had and gains the stale community. Refreshed paths
/// and those of others are left as they are.
pub proof fn unrefreshed_paths_become_stale(st: RouterState, session: u64, k: PathKey)
    requires
        st.adj_in.contains_key(k),
    ensures
        ({
            let next = after_enter_llgr(st, session).adj_in;
            let r = st.adj_in[k];
            let c = r.attributes.communities.seq();
            let touched = of_peer(k, session) && !st.refreshed.contains_key((session, k.1));
            let kept = st.deadlines.contains_key((session, r.key.family)) && !c.contains(
                0xffff_0007u32,
            );
            &&& !touched ==> lookup(next, k) == Some(r)
            &&& touched && !kept ==> !next.contains_key(k)
            &&& touched && kept ==> {
                &&& next.contains_key(k)
                &&& next[k].key == r.key && next[k].origin == r.origin && next[k].path_id
                    == r.path_id && next[k].next_hop == r.next_hop && next[k].preference
                    == r.preference && next[k].protocol == r.protocol
                &&& next[k].attributes.as_path == r.attributes.as_path
                &&& c.contains(0xffff_0006u32) ==> next[k] == r
                &&& !c.contains(0xffff_0006u32) ==> next[k].attributes.communities.seq() == c.push(
                    0xffff_0006u32,
                )
            }
        }),
{
    let r = st.adj_in[k];
    List::<u32>::seq_of(r.attributes.communities.seq().push(0xffff_0006u32));
}

/// The destination of every path that was not advertised anew is selected
/// anew when the restart time ends, and its stale paths withdrawn from the
/// sessions that do not retain them.
pub proof fn stale_destinations_are_reconsidered(st: RouterState, session: u64, k: PathKey)
    requires
        is_table(st.adj_in),
        st.adj_in.contains_key(k),
        of_peer(k, session),
        !st.refreshed.contains_key((session, k.1)),
    ensures
        after_enter_llgr(st, session).agenda.contains(Task::Reselect { key: k.1.0 }),
        after_enter_llgr(st, session).agenda.contains(Task::WithdrawStale { key: k.1.0 }),
{
    let s = sorted(st.adj_in);
    let f = stale_key(st.refreshed, session);
    let i = lemma_key_position(s, k);
    assert(f(s[i])[0] == k);
    assert(f(s[i]).contains(k));
    gather_includes(s, f, i, k);
    let affected = gather(s, f);
    let n = choose|n: int| 0 <= n < affected.len() && affected[n] == k;
    let g = stale_tasks();
    let a = Task::Reselect { key: k.1.0 };
    let b = Task::WithdrawStale { key: k.1.0 };
    assert(g(affected[n])[0] == a);
    assert(g(affected[n])[1] == b);
    assert(g(affected[n]).contains(a));
    assert(g(affected[n]).contains(b));
    gather_includes(affected, g, n, a);
    gather_includes(affected, g, n, b);
    let tail = one_if(
        affected.len() > 0,
        Task::Report(
            RouterEvent::Log(LogEntry::StaleEntered { session, routes: affected.len() as usize }),
        ),
    );
    let most = gather(affected, g);
    let tasks = most + tail;
    let x = choose|x: int| 0 <= x < most.len() && most[x] == a;
    let y = choose|y: int| 0 <= y < most.len() && most[y] == b;
    assert(tasks[x] == a);
    assert(tasks[y] == b);
    lemma_on_agenda(st, tasks, x);
    lemma_on_agenda(st, tasks, y);
    assert(after_enter_llgr(st, session).agenda =~= st.schedule(tasks).agenda);
}

/// What ends a family purges exactly its paths that the session did not
/// advertise anew, and removes its deadline. With the last such family the
/// retention itself ends.
pub proof fn ended_families_are_purged(
    st: RouterState,
    session: u64,
    family: NlriFamily,
    entry: LogEntry,
    k: PathKey,
)
    requires
        is_table(st.adj_in),
        st.windows.contains_key(session),
    ensures
        ({
            let next = after_family_end(st, session, family, entry);
            let purge = Task::PurgePath { origin: k.0, key: k.1.0, path_id: k.1.1 };
            let due = st.adj_in.contains_key(k) && of_peer(k, session) && k.1.0.family == family
                && !st.refreshed.contains_key((session, k.1));
            let open = (exists|f: NlriFamily|
                f != family && #[trigger] st.deadlines.contains_key((session, f))) || (exists|
                q: PathKey,
            | #[trigger]
                st.adj_in.contains_key(q) && of_peer(q, session) && q.1.0.family != family
                    && !st.refreshed.contains_key((session, q.1)));
            &&& due ==> next.agenda.contains(purge)
            &&& !due ==> (next.agenda.contains(purge) ==> st.agenda.contains(purge))
            &&& !next.deadlines.contains_key((session, family))
            &&& open ==> next.windows == st.windows && next.refreshed == st.refreshed
            &&& !open ==> !next.windows.contains_key(session)
            &&& next.adj_in == st.adj_in
        }),
        after_end_of_rib(st, session, family) == after_family_end(
            st,
            session,
            family,
            LogEntry::EndOfRib { session, family },
        ),
        after_deadline(st, session, family) == after_family_end(
            st,
            session,
            family,
            LogEntry::StaleExpired { session, family },
        ),
{
    let s = sorted(st.adj_in);
    let f = purge_task(st.refreshed, session, family);
    let purges = gather(s, f);
    let next = after_family_end(st, session, family, entry);
    let purge = Task::PurgePath { origin: k.0, key: k.1.0, path_id: k.1.1 };
    let note = one_if(
        purges.len() > 0,
        Task::Report(
            RouterEvent::Log(
                LogEntry::Resynchronised { session, family, purged: purges.len() as usize },
            ),
        ),
    );
    let tasks = purges + note + seq![Task::Report(RouterEvent::Log(entry))];
    assert(next.agenda =~= st.agenda + tasks.reverse());
    let due = st.adj_in.contains_key(k) && of_peer(k, session) && k.1.0.family == family
        && !st.refreshed.contains_key((session, k.1));
    if due {
        let i = lemma_key_position(s, k);
        assert(f(s[i])[0] == purge);
        assert(f(s[i]).contains(purge));
        gather_includes(s, f, i, purge);
        let j = choose|j: int| 0 <= j < purges.len() && purges[j] == purge;
        assert(tasks[j] == purge);
        lemma_on_agenda(st, tasks, j);
        assert(next.agenda == st.schedule(tasks).agenda);
    }
    if next.agenda.contains(purge) && !st.agenda.contains(purge) {
        let j = choose|j: int| 0 <= j < next.agenda.len() && next.agenda[j] == purge;
        if j < st.agenda.len() {
            assert(st.agenda[j] == purge);
        } else {
            let n = tasks.len() - 1 - (j - st.agenda.len());
            assert(tasks[n] == purge);
            assert(n < purges.len());
            assert(purges[n] == purge);
            let i = gather_source(s, f, purge);
            lemma_entry(s, i);
            assert(s[i].0 == k);
        }
    }
    let rest = st.deadlines.remove((session, family));
    if exists|g: NlriFamily| g != family && #[trigger] st.deadlines.contains_key((session, g)) {
        let g = choose|g: NlriFamily|
            g != family && #[trigger] st.deadlines.contains_key((session, g));
        assert(rest.contains_key((session, g)));
        assert(OfSession(session).accepts((session, g)));
        assert(any_key(rest, OfSession(session)));
    }
    let o = outstanding(st.refreshed, session, family);
    if exists|q: PathKey| #[trigger]
        st.adj_in.contains_key(q) && of_peer(q, session) && q.1.0.family != family
            && !st.refreshed.contains_key((session, q.1)) {
        let q = choose|q: PathKey| #[trigger]
            st.adj_in.contains_key(q) && of_peer(q, session) && q.1.0.family != family
                && !st.refreshed.contains_key((session, q.1));
        let i = lemma_key_position(s, q);
        assert(o(s[i])[0] == q);
        assert(o(s[i]).contains(q));
        gather_includes(s, o, i, q);
    }
    if goes_on(st, session, family) {
        if any_key(rest, OfSession(session)) {
            let x = choose|x: (u64, NlriFamily)| #[trigger]
                rest.contains_key(x) && OfSession(session).accepts(x);
            assert(st.deadlines.contains_key((session, x.1)));
        } else {
            let all = gather(s, o);
            assert(all.contains(all[0]));
            let i = gather_source(s, o, all[0]);
            lemma_entry(s, i);
            assert(st.adj_in.contains_key(s[i].0));
        }
    }
}

/// A restart time that ends turns to long-lived retention where some family
/// has a deadline. Without one, a session that is not back is purged, and one
/// that is back goes on resynchronising.
pub proof fn restart_times_end(st: RouterState, session: u64, k: PathKey, f: NlriFamily)
    requires
        is_table(st.adj_in),
        st.windows.contains_key(session),
    ensures
        ({
            let next = after_window(st, session);
            let back = match lookup(st.sessions, session) {
                Some(Session::Bgp(b)) => b.established,
                _ => false,
            };
            &&& st.deadlines.contains_key((session, f)) ==> {
                &&& next.windows[session].marked_stale
                &&& lookup(next.adj_in, k) == lookup(after_enter_llgr(st, session).adj_in, k)
                &&& next.agenda == after_enter_llgr(st, session).agenda
            }
            &&& !back && (forall|g: NlriFamily|
                !(#[trigger] st.deadlines.contains_key((session, g)))) ==> {
                &&& !next.windows.contains_key(session)
                &&& of_peer(k, session) ==> !next.adj_in.contains_key(k)
                &&& !of_peer(k, session) ==> lookup(next.adj_in, k) == lookup(st.adj_in, k)
            }
            &&& back && (forall|g: NlriFamily|
                !(#[trigger] st.deadlines.contains_key((session, g)))) ==> next.adj_in == st.adj_in
                && next.agenda == st.agenda && next.windows.contains_key(session)
        }),
{
    if st.deadlines.contains_key((session, f)) {
        assert(OfSession(session).accepts((session, f)));
        assert(any_key(st.deadlines, OfSession(session)));
    }
    if any_key(st.deadlines, OfSession(session)) {
        let x = choose|x: (u64, NlriFamily)| #[trigger]
            st.deadlines.contains_key(x) && OfSession(session).accepts(x);
        assert(st.deadlines.contains_key((session, x.1)));
    }
    let freed = RouterState {
        windows: st.windows.remove(session),
        refreshed: crate::select::without(st.refreshed, OfSession(session)),
        ..st
    };
    let told = freed.schedule(
        seq![Task::Report(RouterEvent::Log(LogEntry::RetentionExpired { session }))],
    );
    purging_takes_out_one_session(told, session, k);
}

/// A re-evaluation takes a session's contribution out and runs the import
/// hooks again on every retained route of it that reached them, with the
/// present time; every destination it contributed to is remembered. A session
/// that retains nothing is left alone.
pub proof fn reevaluations_start_from_what_was_received(
    st: RouterState,
    session: u64,
    k: PathKey,
)
    requires
        is_table(st.adj_in),
        is_table(st.screened),
    ensures
        ({
            let next = after_reconfig(st, session);
            let retains = exists|q: PathKey| #[trigger]
                st.pre_policy.contains_key(q) && of_peer(q, session);
            &&& !retains ==> next == st
            &&& retains ==> {
                &&& of_peer(k, session) ==> !next.adj_in.contains_key(k)
                &&& !of_peer(k, session) ==> lookup(next.adj_in, k) == lookup(st.adj_in, k)
                &&& of_peer(k, session) && st.adj_in.contains_key(k) ==> next.touched.contains_key(
                    k.1.0,
                )
                &&& of_peer(k, session) && st.screened.contains_key(k) ==> next.agenda.contains(
                    Task::RunImport {
                        route: Route { age_ms: st.now_ms, ..st.screened[k] },
                        reconfig: true,
                    },
                )
                &&& next.agenda.len() > st.agenda.len()
                &&& next.agenda[st.agenda.len() as int] is FinishReconfig
            }
        }),
{
    if any_key(st.pre_policy, OfBgpPeer(session)) {
        let q = choose|q: PathKey| #[trigger]
            st.pre_policy.contains_key(q) && OfBgpPeer(session).accepts(q);
        assert(of_peer(q, session));
    }
    if exists|q: PathKey| #[trigger] st.pre_policy.contains_key(q) && of_peer(q, session) {
        let q = choose|q: PathKey| #[trigger] st.pre_policy.contains_key(q) && of_peer(q, session);
        assert(OfBgpPeer(session).accepts(q));
        assert(any_key(st.pre_policy, OfBgpPeer(session)));
        let raw = values_where(st.screened, OfBgpPeer(session));
        let all = gather(raw, reimport(st.now_ms));
        let last = Task::FinishReconfig { session, count: raw.len() as usize };
        let tasks = all + seq![last];
        let next = after_reconfig(st, session);
        assert(next.agenda =~= st.schedule(tasks).agenda);
        assert(tasks[tasks.len() - 1] == last);
        lemma_on_agenda(st, tasks, tasks.len() - 1);
        if of_peer(k, session) && st.screened.contains_key(k) {
            let s = sorted(st.screened);
            let f = accepted_value::<PathKey, Route, OfBgpPeer>(OfBgpPeer(session));
            let i = lemma_key_position(s, k);
            let r = st.screened[k];
            assert(f(s[i])[0] == r);
            assert(f(s[i]).contains(r));
            gather_includes(s, f, i, r);
            let n = choose|n: int| 0 <= n < raw.len() && raw[n] == r;
            let t = Task::RunImport {
                route: Route { age_ms: st.now_ms, ..r },
                reconfig: true,
            };
            assert(reimport(st.now_ms)(raw[n])[0] == t);
            assert(reimport(st.now_ms)(raw[n]).contains(t));
            gather_includes(raw, reimport(st.now_ms), n, t);
            let j = choose|j: int| 0 <= j < all.len() && all[j] == t;
            assert(tasks[j] == t);
            lemma_on_agenda(st, tasks, j);
        }
        if of_peer(k, session) && st.adj_in.contains_key(k) {
            lemma_keys_where(sorted(st.adj_in), OfBgpPeer(session), k);
            lemma_touching(st.touched, keys_where(st.adj_in, OfBgpPeer(session)), k);
        }
    }
}

proof fn lemma_touching(touched: Map<RouteKey, ()>, paths: Seq<PathKey>, k: PathKey)
    requires
        paths.contains(k),
    ensures
        touching(touched, paths).contains_key(k.1.0),
    decreases paths.len(),
{
    let i = choose|i: int| 0 <= i < paths.len() && paths[i] == k;
    if i < paths.len() - 1 {
        assert(paths.drop_last()[i] == k);
        lemma_touching(touched, paths.drop_last(), k);
    }
}

/// Everything a re-evaluation touched is selected anew, then the session
/// counted.
pub proof fn touched_destinations_are_reselected(
    st: RouterState,
    session: u64,
    routes: usize,
    key: RouteKey,
)
    requires
        is_table(st.touched),
        st.touched.contains_key(key),
    ensures
        after_finish_reconfig(st, session, routes).agenda.contains(Task::Reselect { key }),
        !after_finish_reconfig(st, session, routes).touched.contains_key(key),
        after_finish_reconfig(st, session, routes).agenda[st.agenda.len() as int]
            == (Task::Recount { session, count: routes }),
{
    let s = sorted(st.touched);
    let f = touched_task();
    let i = lemma_key_position(s, key);
    let t = Task::Reselect { key };
    assert(f(s[i])[0] == t);
    assert(f(s[i]).contains(t));
    gather_includes(s, f, i, t);
    let a = gather(s, f);
    let tasks = a + seq![Task::Recount { session, count: routes }];
    let j = choose|j: int| 0 <= j < a.len() && a[j] == t;
    assert(tasks[j] == t);
    lemma_on_agenda(st, tasks, j);
    assert(tasks[tasks.len() - 1] == Task::Recount { session, count: routes });
    lemma_on_agenda(st, tasks, tasks.len() - 1);
    assert(after_finish_reconfig(st, session, routes).agenda =~= st.schedule(tasks).agenda);
}

/// A recount takes the number of the session's admitted paths, and tells how
/// many routes were re-evaluated.
pub proof fn recounts_take_the_true_number(st: RouterState, session: u64, routes: usize)
    requires
        st.limits.contains_key(session),
        keys_where(st.adj_in, OfBgpPeer(session)).len() < 0x1_0000_0000,
    ensures
        after_recount(st, session, routes).limits[session].count == keys_where(
            st.adj_in,
            OfBgpPeer(session),
        ).len(),
        after_recount(st, session, routes).events == st.events.push(
            RouterEvent::Log(LogEntry::SoftReconfig { session, routes }),
        ),
{
}

/// A session is under retention while its restart window is open, and after
/// that as long as one of its families has a deadline to come.
pub proof fn retention_is_a_window_or_a_deadline(st: RouterState, session: u64, f: NlriFamily)
    ensures
        !st.windows.contains_key(session) ==> !under_retention(st, session),
        st.windows.contains_key(session) && !st.windows[session].marked_stale ==> under_retention(
            st,
            session,
        ),
        st.windows.contains_key(session) && st.deadlines.contains_key((session, f))
            ==> under_retention(st, session),
        under_retention(st, session) && st.windows[session].marked_stale ==> exists|g: NlriFamily|
            #[trigger] st.deadlines.contains_key((session, g)),
{
    let t = OfSession(session);
    if st.deadlines.contains_key((session, f)) {
        assert(t.accepts((session, f)));
        assert(any_key(st.deadlines, t));
    }
    if under_retention(st, session) && st.windows[session].marked_stale {
        let k = choose|k: (u64, NlriFamily)| #[trigger]
            st.deadlines.contains_key(k) && t.accepts(k);
        assert(st.deadlines.contains_key((session, k.1)));
    }
}

} // verus!
