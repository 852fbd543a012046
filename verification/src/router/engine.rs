//! Working off the agenda.

use crate::ospf::area::OspfAreaType;
use crate::ospf::facts::AreaView;
use crate::route::Protocol;
use crate::router::export::{
    after_advertise, after_begin_refresh, after_dump, after_export, after_export_to, after_filter,
    after_filtered, after_flush_mrai, after_offer, after_propagate, after_retract, after_transmit,
    after_withdraw_stale,
};
use crate::router::import::{
    after_check_limit, after_drop_records, after_hooks, after_purge, after_records,
    after_remove_path, after_safety, after_screen, after_withdraw,
};
use crate::router::intake::{
    after_installed, after_mirror, after_mirrored, after_take,
};
use crate::router::origination::{
    after_aggregate, after_aggregates, after_install_direct, after_piped, after_redistribute,
    after_release, after_unredistribute, after_withdraw_direct,
};
use crate::router::peers::{after_act, after_stepped, after_timer, with_status};
use crate::router::plane::{
    after_changed, after_end_translation, after_eval_link, after_eval_links, after_external,
    after_external_v3, after_originate_external, after_originate_external_v3, after_ospf_changed,
    after_put_translation, after_recompute, after_settle, after_summarize, after_sync_links,
    after_translate,
};
use crate::router::restart::{
    after_deadline, after_deadlines, after_finish_reconfig, after_recount, after_window,
    after_windows,
};
use crate::router::selection::{after_apply, after_monitor, after_ranked, after_reselect};
use crate::router::{DefaultRouter, RouterState};
use crate::session::bgp_of;
use crate::task::{Answer, Task};
use vstd::prelude::*;

verus! {

impl Task {
    /// Whether the embedder has to answer the task.
    pub open spec fn is_ask(self) -> bool {
        match self {
            Task::CheckSafety { .. } => true,
            Task::RunImport { .. } => true,
            Task::TellWithdrawn { .. } => true,
            Task::Rank { .. } => true,
            Task::Filter { todo, .. } => todo is Cons,
            Task::Offer { .. } => true,
            Task::Transmit { .. } => true,
            Task::Retract { .. } => true,
            Task::Clear { .. } => true,
            Task::BeginRefresh { .. } => true,
            Task::EndRefresh { .. } => true,
            Task::SendEndOfRib { .. } => true,
            Task::Notify { .. } => true,
            Task::StepPeer { .. } => true,
            Task::Write { .. } => true,
            Task::ArmTimer { .. } => true,
            Task::DisarmTimer { .. } => true,
            Task::Flush { .. } => true,
            Task::Mirror(_) => true,
            Task::AskPipe { .. } => true,
            Task::PollExchanges => true,
            Task::AgeDatabases => true,
            Task::ApplyPlans { .. } => true,
            Task::Discard { .. } => true,
            Task::InstallLsa { .. } => true,
            Task::MirrorLsa { .. } => true,
            Task::SendLsas { .. } => true,
            Task::ForgetArea { .. } => true,
            Task::ForgetBabel { .. } => true,
            _ => false,
        }
    }

    /// Whether the task only tells the embedder something.
    pub open spec fn is_notice(self) -> bool {
        match self {
            Task::TellWithdrawn { .. } => true,
            Task::Clear { .. } => true,
            Task::EndRefresh { .. } => true,
            Task::SendEndOfRib { .. } => true,
            Task::Notify { .. } => true,
            Task::Write { .. } => true,
            Task::ArmTimer { .. } => true,
            Task::DisarmTimer { .. } => true,
            Task::Flush { .. } => true,
            Task::Mirror(_) => true,
            Task::PollExchanges => true,
            Task::Discard { .. } => true,
            Task::SendLsas { .. } => true,
            Task::ForgetArea { .. } => true,
            Task::ForgetBabel { .. } => true,
            _ => false,
        }
    }

    /// Whether the embedder has to answer the task.
    pub fn needs_answer(&self) -> (b: bool)
        ensures
            b == self.is_ask(),
    {
        match self {
            Task::CheckSafety { .. } => true,
            Task::RunImport { .. } => true,
            Task::Rank { .. } => true,
            Task::Filter { todo, .. } => !todo.is_empty(),
            Task::Offer { .. } => true,
            Task::Transmit { .. } => true,
            Task::Retract { .. } => true,
            Task::BeginRefresh { .. } => true,
            Task::StepPeer { .. } => true,
            Task::AskPipe { .. } => true,
            Task::AgeDatabases => true,
            Task::ApplyPlans { .. } => true,
            Task::InstallLsa { .. } => true,
            Task::MirrorLsa { .. } => true,
            t => t.notifies(),
        }
    }

    /// Whether the task only tells the embedder something.
    pub fn notifies(&self) -> (b: bool)
        ensures
            b == self.is_notice(),
    {
        match self {
            Task::TellWithdrawn { .. } => true,
            Task::Clear { .. } => true,
            Task::EndRefresh { .. } => true,
            Task::SendEndOfRib { .. } => true,
            Task::Notify { .. } => true,
            Task::Write { .. } => true,
            Task::ArmTimer { .. } => true,
            Task::DisarmTimer { .. } => true,
            Task::Flush { .. } => true,
            Task::Mirror(_) => true,
            Task::PollExchanges => true,
            Task::Discard { .. } => true,
            Task::SendLsas { .. } => true,
            Task::ForgetArea { .. } => true,
            Task::ForgetBabel { .. } => true,
            _ => false,
        }
    }
}

/// The router with a task back on its agenda.
pub open spec fn put_back(st: RouterState, t: Task) -> RouterState {
    RouterState { agenda: st.agenda.push(t), ..st }
}

/// The router after the embedder answered a task. An answer that does not fit
/// leaves the task where it was.
pub open spec fn answered(st: RouterState, t: Task, a: Answer) -> RouterState {
    match (t, a) {
        (Task::CheckSafety { route }, Answer::Safety(v)) => after_safety(st, route, v),
        (Task::RunImport { route, reconfig }, Answer::Hooked(r)) => after_hooks(
            st,
            route,
            r,
            reconfig,
        ),
        (Task::Rank { key, candidates, .. }, Answer::Ranked(picks)) => after_ranked(
            st,
            key,
            candidates.seq(),
            picks@,
        ),
        (Task::Filter { session, key, todo, kept }, Answer::Exported { route, allowed }) =>
            after_filtered(st, session, key, todo, kept, route, allowed),
        (Task::Offer { session, occasion, .. }, Answer::Hooked(r)) => after_offer(
            st,
            session,
            occasion,
            r,
        ),
        (Task::Transmit { session, routes, occasion }, Answer::Sent(sent)) => after_transmit(
            st,
            session,
            routes,
            occasion,
            sent,
        ),
        (Task::Retract { session, key, ids }, Answer::Sent(sent)) => after_retract(
            st,
            session,
            key,
            ids,
            sent,
        ),
        (Task::BeginRefresh { session, family }, Answer::Sent(demarcated)) => after_begin_refresh(
            st,
            session,
            family,
            demarcated,
        ),
        (Task::StepPeer { session, .. }, Answer::Stepped { status, actions }) => after_stepped(
            st,
            session,
            status,
            actions@,
        ),
        (Task::AskPipe { route, pipe }, Answer::Piped(taken)) => after_piped(
            st,
            route,
            pipe,
            taken,
        ),
        (Task::AgeDatabases, Answer::Changed(changed)) => after_changed(st, changed),
        (Task::ApplyPlans { .. }, Answer::Changed(changed)) => after_changed(st, changed),
        (
            Task::InstallLsa { session, area, lsa, progress },
            Answer::Installed(outcome),
        ) => after_installed(st, session, area, lsa, progress, outcome),
        (Task::MirrorLsa { area, lsa, queue, newly }, Answer::Installed(outcome)) =>
            after_mirrored(st, area, lsa, queue, newly, outcome),
        (t, Answer::Done) => if t.is_notice() {
            st
        } else {
            put_back(st, t)
        },
        (t, _) => put_back(st, t),
    }
}

/// The router after performing a task of its own: routes.
pub open spec fn performed(st: RouterState, t: Task) -> RouterState {
    match t {
        Task::Screen { route } => after_screen(st, route),
        Task::CheckLimit { session } => after_check_limit(st, session),
        Task::NoteRecords { session, key, store } => after_records(st, session, key, store),
        Task::DropRecords { session, prefix } => after_drop_records(st, session, prefix),
        Task::WithdrawPath { origin, key, path_id } => after_withdraw(st, origin, key, path_id),
        Task::RemovePath { origin, key, path_id } => after_remove_path(st, origin, key, path_id),
        Task::PurgePath { origin, key, path_id } => after_purge(st, origin, key, path_id),
        Task::Reselect { key } => after_reselect(st, key),
        Task::Apply { key, ranked } => after_apply(st, key, ranked),
        Task::Export { key, ranked } => after_export(st, key, ranked),
        Task::ExportTo { session, key, ranked } => after_export_to(st, session, key, ranked),
        Task::Filter { session, key, kept, .. } => after_filter(st, session, key, kept.seq()),
        Task::Advertise { session, routes } => after_advertise(st, session, routes),
        Task::PropagateWithdrawal { key } => after_propagate(st, key),
        Task::WithdrawStale { key } => after_withdraw_stale(st, key),
        Task::Monitor { route } => after_monitor(st, route),
        Task::Redistribute { route } => after_redistribute(st, route),
        Task::Unredistribute { key } => after_unredistribute(st, key),
        Task::ReleaseCopy { key } => after_release(st, key),
        Task::Aggregates => after_aggregates(st),
        Task::Aggregate { prefix, wanted, local_as, bgp_id } => after_aggregate(
            st,
            prefix,
            wanted,
            local_as,
            bgp_id,
        ),
        Task::InstallDirect { route } => after_install_direct(st, route),
        Task::WithdrawDirect { key } => after_withdraw_direct(st, key),
        Task::Report(event) => st.report(event),
        _ => st,
    }
}

/// The router after performing a task of its own: sessions.
pub open spec fn performed_for_session(st: RouterState, t: Task) -> RouterState {
    match t {
        Task::DumpTo { session } => after_dump(st, session),
        Task::Act { session, action } => after_act(st, session, action),
        Task::TimerExpired { timer } => after_timer(st, timer),
        Task::ClearEstablished { session } => match bgp_of(st.session(session)) {
            Some(b) => with_status(st, session, b.status, false),
            None => st,
        },
        Task::FinishReconfig { session, count } => after_finish_reconfig(st, session, count),
        Task::Recount { session, count } => after_recount(st, session, count),
        Task::FlushMrai => after_flush_mrai(st),
        Task::RestartWindows => after_windows(st),
        Task::WindowExpired { session } => after_window(st, session),
        Task::LongLivedDeadlines => after_deadlines(st),
        Task::DeadlineExpired { session, family } => after_deadline(st, session, family),
        _ => st,
    }
}

/// The router after performing a task of its own: OSPF.
pub open spec fn performed_for_ospf(st: RouterState, t: Task, backbone: AreaView) -> RouterState {
    match t {
        Task::OspfExternal { dest } => after_external(st, dest),
        Task::OspfExternalV3 { dest_v3 } => after_external_v3(st, dest_v3),
        Task::OriginateExternal { network } => after_originate_external(st, network),
        Task::OriginateExternalV3 { prefix } => after_originate_external_v3(st, prefix),
        Task::OspfChanged => after_ospf_changed(st),
        Task::OspfSettle => after_settle(st),
        Task::EvalVirtualLinks => after_eval_links(st),
        Task::EvalLink { transit, endpoint } => after_eval_link(st, transit, endpoint, backbone),
        Task::MarkChanged => after_changed(st, true),
        Task::SyncAfterLinks => after_sync_links(st),
        Task::Summarize { step } => after_summarize(st, step),
        Task::Translate => after_translate(st),
        Task::EndTranslation { translation } => after_end_translation(st, translation),
        Task::PutTranslation { translation, dest } => after_put_translation(
            st,
            translation,
            dest,
        ),
        Task::Recompute => after_recompute(st),
        Task::TakeLsas { session, area, progress } => after_take(st, session, area, progress),
        Task::MirrorLsas { area, queue, newly } => after_mirror(st, area, queue, newly),
        _ => st,
    }
}

impl Task {
    /// Whether the task concerns sessions as such.
    pub open spec fn for_session(self) -> bool {
        match self {
            Task::DumpTo { .. } => true,
            Task::Act { .. } => true,
            Task::TimerExpired { .. } => true,
            Task::ClearEstablished { .. } => true,
            Task::FinishReconfig { .. } => true,
            Task::Recount { .. } => true,
            Task::FlushMrai => true,
            Task::RestartWindows => true,
            Task::WindowExpired { .. } => true,
            Task::LongLivedDeadlines => true,
            Task::DeadlineExpired { .. } => true,
            _ => false,
        }
    }

    /// Whether the task concerns OSPF.
    pub open spec fn for_ospf(self) -> bool {
        match self {
            Task::OspfExternal { .. } => true,
            Task::OspfExternalV3 { .. } => true,
            Task::OriginateExternal { .. } => true,
            Task::OriginateExternalV3 { .. } => true,
            Task::OspfChanged => true,
            Task::OspfSettle => true,
            Task::EvalVirtualLinks => true,
            Task::EvalLink { .. } => true,
            Task::MarkChanged => true,
            Task::SyncAfterLinks => true,
            Task::Summarize { .. } => true,
            Task::Translate => true,
            Task::EndTranslation { .. } => true,
            Task::PutTranslation { .. } => true,
            Task::Recompute => true,
            Task::TakeLsas { .. } => true,
            Task::MirrorLsas { .. } => true,
            _ => false,
        }
    }

    /// Whether the task concerns sessions as such.
    fn concerns_session(&self) -> (b: bool)
        ensures
            b == self.for_session(),
    {
        match self {
            Task::DumpTo { .. } => true,
            Task::Act { .. } => true,
            Task::TimerExpired { .. } => true,
            Task::ClearEstablished { .. } => true,
            Task::FinishReconfig { .. } => true,
            Task::Recount { .. } => true,
            Task::FlushMrai => true,
            Task::RestartWindows => true,
            Task::WindowExpired { .. } => true,
            Task::LongLivedDeadlines => true,
            Task::DeadlineExpired { .. } => true,
            _ => false,
        }
    }

    /// Whether the task concerns OSPF.
    fn concerns_ospf(&self) -> (b: bool)
        ensures
            b == self.for_ospf(),
    {
        match self {
            Task::OspfExternal { .. } => true,
            Task::OspfExternalV3 { .. } => true,
            Task::OriginateExternal { .. } => true,
            Task::OriginateExternalV3 { .. } => true,
            Task::OspfChanged => true,
            Task::OspfSettle => true,
            Task::EvalVirtualLinks => true,
            Task::EvalLink { .. } => true,
            Task::MarkChanged => true,
            Task::SyncAfterLinks => true,
            Task::Summarize { .. } => true,
            Task::Translate => true,
            Task::EndTranslation { .. } => true,
            Task::PutTranslation { .. } => true,
            Task::Recompute => true,
            Task::TakeLsas { .. } => true,
            Task::MirrorLsas { .. } => true,
            _ => false,
        }
    }
}

/// The router after one step: the next task is performed, or answered where
/// the embedder has to.
pub open spec fn step_of(st: RouterState, a: Answer, backbone: AreaView) -> RouterState {
    if st.agenda.len() == 0 {
        st
    } else {
        let t = st.agenda.last();
        let rest = RouterState { agenda: st.agenda.drop_last(), ..st };
        if t.is_ask() {
            answered(rest, t, a)
        } else if t.for_session() {
            performed_for_session(rest, t)
        } else if t.for_ospf() {
            performed_for_ospf(rest, t, backbone)
        } else {
            performed(rest, t)
        }
    }
}

impl DefaultRouter {
    fn take_answer(&mut self, t: Task, a: Answer)
        ensures
            final(self)@ == answered(old(self)@, t, a),
    {
        match (t, a) {
            (Task::CheckSafety { route }, Answer::Safety(v)) => self.safety_checked(route, v),
            (Task::RunImport { route, reconfig }, Answer::Hooked(r)) => {
                self.admit_route(route, r, reconfig)
            },
            (Task::Rank { key, candidates, .. }, Answer::Ranked(picks)) => {
                self.ranked(key, &candidates, &picks)
            },
            (Task::Filter { session, key, todo, kept }, Answer::Exported { route, allowed }) => {
                self.filtered(session, key, todo, kept, route, allowed)
            },
            (Task::Offer { session, occasion, .. }, Answer::Hooked(r)) => {
                self.offered(session, occasion, r)
            },
            (Task::Transmit { session, routes, occasion }, Answer::Sent(sent)) => {
                self.send_advertisement_set(session, &routes, occasion, sent)
            },
            (Task::Retract { session, key, ids }, Answer::Sent(sent)) => {
                self.send_withdrawal(session, key, &ids, sent)
            },
            (Task::BeginRefresh { session, family }, Answer::Sent(demarcated)) => {
                self.refresh_begun(session, family, demarcated)
            },
            (Task::StepPeer { session, .. }, Answer::Stepped { status, actions }) => {
                self.peer_stepped(session, status, actions)
            },
            (Task::AskPipe { route, pipe }, Answer::Piped(taken)) => {
                self.piped(&route, pipe, taken)
            },
            (Task::AgeDatabases, Answer::Changed(changed)) => self.databases_changed(changed),
            (Task::ApplyPlans { .. }, Answer::Changed(changed)) => {
                self.databases_changed(changed)
            },
            (
                Task::InstallLsa { session, area, lsa, progress },
                Answer::Installed(outcome),
            ) => self.lsa_installed(session, area, lsa, progress, outcome),
            (Task::MirrorLsa { area, lsa, queue, newly }, Answer::Installed(outcome)) => {
                self.lsa_mirrored(area, lsa, queue, newly, outcome)
            },
            (t, Answer::Done) => {
                if !t.notifies() {
                    self.agenda.push(t);
                }
            },
            (t, _) => {
                self.agenda.push(t);
            },
        }
    }

    fn perform(&mut self, t: Task)
        ensures
            final(self)@ == performed(old(self)@, t),
    {
        match t {
            Task::Screen { route } => self.screen_route(route),
            Task::CheckLimit { session } => self.check_max_prefix(session),
            Task::NoteRecords { session, key, store } => {
                self.consume_exchange_plane_store(session, key, store)
            },
            Task::DropRecords { session, prefix } => self.drop_records(session, prefix),
            Task::WithdrawPath { origin, key, path_id } => {
                self.withdraw_from_session(origin, key, path_id)
            },
            Task::RemovePath { origin, key, path_id } => self.remove_path(origin, key, path_id),
            Task::PurgePath { origin, key, path_id } => self.purge_path(origin, key, path_id),
            Task::Reselect { key } => self.reselect(key),
            Task::Apply { key, ranked } => self.apply_selection(key, ranked),
            Task::Export { key, ranked } => self.export_selection(key, &ranked),
            Task::ExportTo { session, key, ranked } => self.export_to(session, key, &ranked),
            Task::Filter { session, key, kept, .. } => self.export_work_for(session, key, &kept),
            Task::Advertise { session, routes } => {
                self.queue_or_send_advertisement(session, routes)
            },
            Task::PropagateWithdrawal { key } => self.propagate_withdrawal(key),
            Task::WithdrawStale { key } => self.withdraw_stale_from_non_llgr_sessions(key),
            Task::Monitor { route } => self.bmp_route_monitor(route),
            Task::Redistribute { route } => self.redistribute_route(route),
            Task::Unredistribute { key } => self.unredistribute_route(key),
            Task::ReleaseCopy { key } => self.release_copy(key),
            Task::Aggregates => self.recompute_aggregates(),
            Task::Aggregate { prefix, wanted, local_as, bgp_id } => {
                self.settle_aggregate(prefix, wanted, local_as, bgp_id)
            },
            Task::InstallDirect { route } => self.install_direct(route),
            Task::WithdrawDirect { key } => self.withdraw_direct(key),
            Task::Report(event) => self.report(event),
            _ => {},
        }
    }

    fn perform_for_session(&mut self, t: Task)
        ensures
            final(self)@ == performed_for_session(old(self)@, t),
    {
        match t {
            Task::DumpTo { session } => self.on_bgp_established(session),
            Task::Act { session, action } => self.act(session, action),
            Task::TimerExpired { timer } => self.timer_expired(timer),
            Task::ClearEstablished { session } => self.set_established(session, false),
            Task::FinishReconfig { session, count } => self.finish_reconfig(session, count),
            Task::Recount { session, count } => self.recount(session, count),
            Task::FlushMrai => self.flush_mrai(),
            Task::RestartWindows => self.process_graceful_restart(),
            Task::WindowExpired { session } => self.window_expired(session),
            Task::LongLivedDeadlines => self.process_deadlines(),
            Task::DeadlineExpired { session, family } => self.deadline_expired(session, family),
            _ => {},
        }
    }

    fn perform_for_ospf(&mut self, t: Task)
        requires
            !(t is EvalLink),
        ensures
            final(self)@ == performed_for_ospf(old(self)@, t, final(self)@.ospf.areas[0]),
    {
        match t {
            Task::OspfExternal { dest } => {
                let accepted = self.ospf_redistribute(dest);
            },
            Task::OspfExternalV3 { dest_v3 } => {
                let accepted = self.ospf_redistribute_v3(dest_v3);
            },
            Task::OriginateExternal { network } => self.ospf_originate_externals(network),
            Task::OriginateExternalV3 { prefix } => self.ospf_originate_externals_v3(prefix),
            Task::OspfChanged => self.ospf_on_lsdb_change(),
            Task::OspfSettle => self.ospf_settle(),
            Task::EvalVirtualLinks => self.ospf_eval_virtual_links(),
            Task::MarkChanged => self.databases_changed(true),
            Task::SyncAfterLinks => self.ospf_sync_externals(),
            Task::Summarize { step } => self.ospf_summarize_areas(step),
            Task::Translate => self.ospf_translate_nssa(),
            Task::EndTranslation { translation } => self.end_translation(translation),
            Task::PutTranslation { translation, dest } => self.put_translation(translation, dest),
            Task::Recompute => self.ospf_recompute(),
            Task::TakeLsas { session, area, progress } => self.take_lsas(session, area, progress),
            Task::MirrorLsas { area, queue, newly } => self.mirror_lsas(area, queue, newly),
            _ => {},
        }
    }

    /// Performs the next task; `a` is looked at where the task needs an
    /// answer. A backbone that a virtual link attaches starts out empty.
    pub fn step(&mut self, a: Answer)
        ensures
            final(self)@ == step_of(old(self)@, a, final(self)@.ospf.areas[0]),
            old(self)@.agenda.len() > 0 && old(self)@.agenda.last() is EvalLink && !old(
                self,
            )@.ospf.areas.contains_key(0) && final(self)@.ospf.areas.contains_key(0)
                ==> final(self)@.ospf.areas[0].blank(Protocol::Ospfv2, OspfAreaType::Normal),
    {
        match self.agenda.pop() {
            None => {},
            Some(t) => {
                let ghost rest = RouterState {
                    agenda: old(self)@.agenda.drop_last(),
                    ..old(self)@
                };
                assert(self@ == rest);
                if t.needs_answer() {
                    self.take_answer(t, a);
                } else if t.concerns_session() {
                    self.perform_for_session(t);
                } else if let Task::EvalLink { transit, endpoint } = t {
                    self.ospf_eval_virtual_link(transit, endpoint);
                } else if t.concerns_ospf() {
                    self.perform_for_ospf(t);
                } else {
                    self.perform(t);
                }
            },
        }
    }
}

/// An answer that does not fit the next task changes nothing.
pub proof fn unfit_answers_change_nothing(st: RouterState, a: Answer, backbone: AreaView)
    requires
        st.agenda.len() > 0,
        st.agenda.last().is_notice(),
        !(a is Done),
    ensures
        step_of(st, a, backbone) == st,
{
    assert(st.agenda.drop_last().push(st.agenda.last()) =~= st.agenda);
}

} // verus!
