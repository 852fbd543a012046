//! What a step does with the next task.

use crate::ospf::facts::AreaView;
use crate::router::engine::step_of;
use crate::router::export::{
    after_advertise, after_begin_refresh, after_dump, after_export, after_export_to, after_filter,
    after_filtered, after_flush_mrai, after_offer, after_propagate, after_retract, after_transmit,
    after_withdraw_stale,
};
use crate::router::import::{
    after_check_limit, after_drop_records, after_hooks, after_purge, after_records,
    after_remove_path, after_safety, after_screen, after_withdraw,
};
use crate::router::peers::{after_act, after_stepped, after_timer};
use crate::router::intake::{after_installed, after_mirror, after_mirrored, after_take};
use crate::router::origination::{
    after_aggregate, after_aggregates, after_install_direct, after_piped, after_redistribute,
    after_release, after_unredistribute, after_withdraw_direct,
};
use crate::router::plane::{
    after_end_translation, after_eval_link, after_eval_links, after_external, after_external_v3,
    after_originate_external, after_originate_external_v3, after_ospf_changed,
    after_put_translation, after_recompute, after_settle, after_summarize, after_sync_links,
    after_translate,
};
use crate::router::restart::{
    after_deadline, after_deadlines, after_finish_reconfig, after_recount, after_window,
    after_windows,
};
use crate::router::selection::{after_apply, after_monitor, after_ranked, after_reselect};
use crate::router::RouterState;
use crate::session::Session;
use crate::task::{Answer, Task};
use vstd::prelude::*;

verus! {

/// The router without the next task.
pub open spec fn without_next(st: RouterState) -> RouterState {
    RouterState { agenda: st.agenda.drop_last(), ..st }
}

/// Nothing is done where there is nothing to do.
pub proof fn idle_routers_rest(st: RouterState, a: Answer, backbone: AreaView)
    requires
        st.agenda.len() == 0,
    ensures
        step_of(st, a, backbone) == st,
{
}

/// A task about routes leaves the agenda and is carried out, whatever the
/// embedder answers.
pub proof fn route_tasks_are_carried_out(st: RouterState, a: Answer, backbone: AreaView)
    requires
        st.agenda.len() > 0,
    ensures
        ({
            let r = without_next(st);
            let next = step_of(st, a, backbone);
            match st.agenda.last() {
                Task::Screen { route } => next == after_screen(r, route),
                Task::CheckLimit { session } => next == after_check_limit(r, session),
                Task::NoteRecords { session, key, store } => next == after_records(
                    r,
                    session,
                    key,
                    store,
                ),
                Task::DropRecords { session, prefix } => next == after_drop_records(
                    r,
                    session,
                    prefix,
                ),
                Task::WithdrawPath { origin, key, path_id } => next == after_withdraw(
                    r,
                    origin,
                    key,
                    path_id,
                ),
                Task::RemovePath { origin, key, path_id } => next == after_remove_path(
                    r,
                    origin,
                    key,
                    path_id,
                ),
                Task::PurgePath { origin, key, path_id } => next == after_purge(
                    r,
                    origin,
                    key,
                    path_id,
                ),
                Task::Reselect { key } => next == after_reselect(r, key),
                Task::Apply { key, ranked } => next == after_apply(r, key, ranked),
                Task::Export { key, ranked } => next == after_export(r, key, ranked),
                Task::ExportTo { session, key, ranked } => next == after_export_to(
                    r,
                    session,
                    key,
                    ranked,
                ),
                Task::Filter { session, key, todo, kept } => todo.seq().len() == 0 ==> next
                    == after_filter(r, session, key, kept.seq()),
                Task::Advertise { session, routes } => next == after_advertise(
                    r,
                    session,
                    routes,
                ),
                Task::PropagateWithdrawal { key } => next == after_propagate(r, key),
                Task::WithdrawStale { key } => next == after_withdraw_stale(r, key),
                Task::Monitor { route } => next == after_monitor(r, route),
                Task::Redistribute { route } => next == after_redistribute(r, route),
                Task::Unredistribute { key } => next == after_unredistribute(r, key),
                Task::ReleaseCopy { key } => next == after_release(r, key),
                Task::Aggregates => next == after_aggregates(r),
                Task::Aggregate { prefix, wanted, local_as, bgp_id } => next == after_aggregate(
                    r,
                    prefix,
                    wanted,
                    local_as,
                    bgp_id,
                ),
                Task::InstallDirect { route } => next == after_install_direct(r, route),
                Task::WithdrawDirect { key } => next == after_withdraw_direct(r, key),
                Task::Report(event) => next.events == st.events.push(event) && next.agenda
                    == st.agenda.drop_last() && next.loc == st.loc && next.sessions
                    == st.sessions,
                _ => true,
            }
        }),
{
}

/// A task about a session leaves the agenda and is carried out, whatever the
/// embedder answers.
pub proof fn session_tasks_are_carried_out(st: RouterState, a: Answer, backbone: AreaView)
    requires
        st.agenda.len() > 0,
    ensures
        ({
            let r = without_next(st);
            let next = step_of(st, a, backbone);
            match st.agenda.last() {
                Task::DumpTo { session } => next == after_dump(r, session),
                Task::Act { session, action } => next == after_act(r, session, action),
                Task::TimerExpired { timer } => next == after_timer(r, timer),
                Task::FinishReconfig { session, count } => next == after_finish_reconfig(
                    r,
                    session,
                    count,
                ),
                Task::Recount { session, count } => next == after_recount(r, session, count),
                Task::FlushMrai => next == after_flush_mrai(r),
                Task::RestartWindows => next == after_windows(r),
                Task::WindowExpired { session } => next == after_window(r, session),
                Task::LongLivedDeadlines => next == after_deadlines(r),
                Task::DeadlineExpired { session, family } => next == after_deadline(
                    r,
                    session,
                    family,
                ),
                Task::ClearEstablished { session } => {
                    &&& next.agenda == st.agenda.drop_last()
                    &&& next.events == st.events
                    &&& next.loc == st.loc
                    &&& st.sessions.contains_key(session) && st.sessions[session] is Bgp ==> {
                        &&& next.sessions.contains_key(session)
                        &&& next.sessions[session] is Bgp
                        &&& !next.sessions[session]->Bgp_0.established
                        &&& next.sessions[session]->Bgp_0.status
                            == st.sessions[session]->Bgp_0.status
                    }
                },
                _ => true,
            }
        }),
{
}

/// A task about OSPF leaves the agenda and is carried out, whatever the
/// embedder answers.
pub proof fn ospf_tasks_are_carried_out(st: RouterState, a: Answer, backbone: AreaView)
    requires
        st.agenda.len() > 0,
    ensures
        ({
            let r = without_next(st);
            let next = step_of(st, a, backbone);
            match st.agenda.last() {
                Task::OspfExternal { dest } => next == after_external(r, dest),
                Task::OspfExternalV3 { dest_v3 } => next == after_external_v3(r, dest_v3),
                Task::OriginateExternal { network } => next == after_originate_external(
                    r,
                    network,
                ),
                Task::OriginateExternalV3 { prefix } => next == after_originate_external_v3(
                    r,
                    prefix,
                ),
                Task::OspfChanged => next == after_ospf_changed(r),
                Task::OspfSettle => next == after_settle(r),
                Task::EvalVirtualLinks => next == after_eval_links(r),
                Task::EvalLink { transit, endpoint } => next == after_eval_link(
                    r,
                    transit,
                    endpoint,
                    backbone,
                ),
                Task::MarkChanged => next.ospf.dirty && next.agenda == st.agenda.drop_last()
                    && next.ospf.areas == st.ospf.areas,
                Task::SyncAfterLinks => next == after_sync_links(r),
                Task::Summarize { step } => next == after_summarize(r, step),
                Task::Translate => next == after_translate(r),
                Task::EndTranslation { translation } => next == after_end_translation(
                    r,
                    translation,
                ),
                Task::PutTranslation { translation, dest } => next == after_put_translation(
                    r,
                    translation,
                    dest,
                ),
                Task::Recompute => next == after_recompute(r),
                Task::TakeLsas { session, area, progress } => next == after_take(
                    r,
                    session,
                    area,
                    progress,
                ),
                Task::MirrorLsas { area, queue, newly } => next == after_mirror(
                    r,
                    area,
                    queue,
                    newly,
                ),
                _ => true,
            }
        }),
{
}

/// A question leaves the agenda once it is answered, and the answer is acted
/// on.
pub proof fn answers_are_acted_on(st: RouterState, a: Answer, backbone: AreaView)
    requires
        st.agenda.len() > 0,
    ensures
        ({
            let r = without_next(st);
            let next = step_of(st, a, backbone);
            match (st.agenda.last(), a) {
                (Task::CheckSafety { route }, Answer::Safety(v)) => next == after_safety(
                    r,
                    route,
                    v,
                ),
                (Task::RunImport { route, reconfig }, Answer::Hooked(x)) => next == after_hooks(
                    r,
                    route,
                    x,
                    reconfig,
                ),
                (Task::Rank { key, candidates, .. }, Answer::Ranked(picks)) => next
                    == after_ranked(r, key, candidates.seq(), picks@),
                (
                    Task::Filter { session, key, todo, kept },
                    Answer::Exported { route, allowed },
                ) => todo.seq().len() > 0 ==> next == after_filtered(
                    r,
                    session,
                    key,
                    todo,
                    kept,
                    route,
                    allowed,
                ),
                (Task::Offer { session, occasion, .. }, Answer::Hooked(x)) => next == after_offer(
                    r,
                    session,
                    occasion,
                    x,
                ),
                (Task::Transmit { session, routes, occasion }, Answer::Sent(sent)) => next
                    == after_transmit(r, session, routes, occasion, sent),
                (Task::Retract { session, key, ids }, Answer::Sent(sent)) => next
                    == after_retract(r, session, key, ids, sent),
                (Task::BeginRefresh { session, family }, Answer::Sent(sent)) => next
                    == after_begin_refresh(r, session, family, sent),
                (Task::StepPeer { session, .. }, Answer::Stepped { status, actions }) => next
                    == after_stepped(r, session, status, actions@),
                (Task::AskPipe { route, pipe }, Answer::Piped(taken)) => next == after_piped(
                    r,
                    route,
                    pipe,
                    taken,
                ),
                (Task::AgeDatabases, Answer::Changed(changed)) => {
                    &&& next.agenda == st.agenda.drop_last()
                    &&& next.ospf.areas == st.ospf.areas
                    &&& next.ospf.dirty <==> st.ospf.dirty || changed
                },
                (Task::ApplyPlans { .. }, Answer::Changed(changed)) => {
                    &&& next.agenda == st.agenda.drop_last()
                    &&& next.ospf.areas == st.ospf.areas
                    &&& next.ospf.dirty <==> st.ospf.dirty || changed
                },
                (
                    Task::InstallLsa { session, area, lsa, progress },
                    Answer::Installed(outcome),
                ) => next == after_installed(r, session, area, lsa, progress, outcome),
                (Task::MirrorLsa { area, lsa, queue, newly }, Answer::Installed(outcome)) => next
                    == after_mirrored(r, area, lsa, queue, newly, outcome),
                _ => true,
            }
        }),
{
}

/// What only tells the embedder something is done with once it was told, and
/// stays until then.
pub proof fn notices_are_told(st: RouterState, a: Answer, backbone: AreaView)
    requires
        st.agenda.len() > 0,
        match st.agenda.last() {
            Task::TellWithdrawn { .. } => true,
            Task::Clear { .. } => true,
            Task::EndRefresh { .. } => true,
            Task::SendEndOfRib { .. } => true,
            Task::Notify { .. } => true,
            Task::Write { .. } => true,
            Task::ArmTimer { .. } => true,
            Task::DisarmTimer { .. } => true,
            Task::Flush { .. } => true,
            Task::Mirror(_) => true,
            Task::PollExchanges => true,
            Task::Discard { .. } => true,
            Task::SendLsas { .. } => true,
            Task::ForgetArea { .. } => true,
            Task::ForgetBabel { .. } => true,
            _ => false,
        },
    ensures
        a is Done ==> step_of(st, a, backbone) == without_next(st),
        !(a is Done) ==> step_of(st, a, backbone) == st,
{
    assert(st.agenda.drop_last().push(st.agenda.last()) =~= st.agenda);
}

/// A question that was not answered stays, and nothing else happens.
pub proof fn questions_wait_for_their_answer(st: RouterState, a: Answer, backbone: AreaView)
    requires
        st.agenda.len() > 0,
        match st.agenda.last() {
            Task::CheckSafety { .. } => !(a is Safety),
            Task::RunImport { .. } => !(a is Hooked),
            Task::Rank { .. } => !(a is Ranked),
            Task::Filter { todo, .. } => todo.seq().len() > 0 && !(a is Exported),
            Task::Offer { .. } => !(a is Hooked),
            Task::Transmit { .. } => !(a is Sent),
            Task::Retract { .. } => !(a is Sent),
            Task::BeginRefresh { .. } => !(a is Sent),
            Task::StepPeer { .. } => !(a is Stepped),
            Task::AskPipe { .. } => !(a is Piped),
            Task::AgeDatabases => !(a is Changed),
            Task::ApplyPlans { .. } => !(a is Changed),
            Task::InstallLsa { .. } => !(a is Installed),
            Task::MirrorLsa { .. } => !(a is Installed),
            _ => false,
        },
    ensures
        step_of(st, a, backbone) == st,
{
    assert(st.agenda.drop_last().push(st.agenda.last()) =~= st.agenda);
}

} // verus!
