//! What an embedder needs of a router.

use crate::babel::BabelBest;
use crate::events::{BgpState, RouterError, RouterEvent};
use crate::ordmap::sorted;
use crate::route::Route;
use crate::router::intake::{after_babel, after_babel_flush};
use crate::router::sessions::{
    after_add_babel, after_add_bgp, after_add_ospf, after_input, after_remove_session,
    after_set_mrai, after_start, after_tick, all_paths, best_paths, is_ospf, ospf_refusal,
    ospf_version, polled, requeued, SessionInput,
};
use crate::router::DefaultRouter;
use crate::seqs::gather;
use crate::session::{bgp_of, SessionConfig, SessionKind};
use crate::task::Task;
use vstd::prelude::*;

verus! {

/// A router as its embedder sees it. Implementors without several paths per
/// destination, without BGP or without Babel keep the provided methods.
pub trait RouterInstance: Sized {
    /// Whether another session can be given a handle.
    spec fn has_room(&self) -> bool;

    /// Adds a session.
    fn add_session(&mut self, cfg: SessionConfig) -> Result<u64, RouterError>
        requires
            old(self).has_room(),
    ;

    /// Takes in what arrived on a session.
    fn feed_input(&mut self, h: u64, input: SessionInput) -> Result<(), RouterError>;

    /// Takes note of whether a peer accepted a request for a route refresh;
    /// tells whether the request is on its way.
    fn request_route_refresh(&mut self, h: u64, accepted: bool) -> bool;

    /// Removes a session.
    fn remove_session(&mut self, h: u64) -> Result<(), RouterError>;

    /// Begins protocol operation on a session, once its transport is
    /// connected.
    fn start_session(&mut self, h: u64) -> Result<(), RouterError>;

    /// Lets time pass.
    fn tick(&mut self, now_ms: u64, expired: &Vec<u32>);

    /// Sets the least time between two advertisements of a prefix.
    fn set_mrai(&mut self, h: u64, interval_ms: u64) -> Result<(), RouterError>;

    /// Takes the events reported so far.
    fn poll_events(&mut self) -> Vec<RouterEvent>;

    /// Puts events back ahead of those reported since.
    fn requeue_events(&mut self, _events: Vec<RouterEvent>) {
    }

    /// The best path of every destination.
    fn rib_snapshot(&self) -> Vec<Route>;

    /// The state of a BGP session's state machine.
    fn session_peer_state(&self, _h: u64) -> Option<BgpState> {
        None
    }

    /// Every path of every destination.
    fn rib_paths_snapshot(&self) -> Vec<Route> {
        self.rib_snapshot()
    }

    /// Publishes a Babel session's feasible routes.
    fn babel_changed(&mut self, _h: u64, _best: &Vec<BabelBest>, _heard: bool) {
    }

    /// Withdraws a Babel session's routes.
    fn babel_flush_session(&mut self, _h: u64) {
    }
}

impl RouterInstance for DefaultRouter {
    open spec fn has_room(&self) -> bool {
        self@.next_handle < u64::MAX
    }

    fn add_session(&mut self, cfg: SessionConfig) -> (r: Result<u64, RouterError>)
        ensures
            r == (if is_ospf(cfg.kind) && ospf_refusal(old(self)@, cfg) is Some {
                Err::<u64, RouterError>(ospf_refusal(old(self)@, cfg)->Some_0)
            } else {
                Ok::<u64, RouterError>(old(self)@.next_handle)
            }),
            cfg.kind == SessionKind::Bgp ==> final(self)@ == after_add_bgp(old(self)@, cfg),
            cfg.kind == SessionKind::Babel ==> final(self)@ == after_add_babel(old(self)@, cfg),
            is_ospf(cfg.kind) ==> final(self)@ == after_add_ospf(
                old(self)@,
                cfg,
                final(self)@.ospf.areas[cfg.area_id],
            ),
            is_ospf(cfg.kind) && r is Ok && !old(self)@.ospf.areas.contains_key(cfg.area_id)
                ==> final(self)@.ospf.areas[cfg.area_id].blank(
                ospf_version(cfg.kind),
                cfg.area_type,
            ),
    {
        DefaultRouter::add_session(self, cfg)
    }

    fn feed_input(&mut self, h: u64, input: SessionInput) -> (r: Result<(), RouterError>)
        ensures
            r == (if old(self)@.sessions.contains_key(h) {
                Ok::<(), RouterError>(())
            } else {
                Err::<(), RouterError>(RouterError::UnknownSession(h))
            }),
            final(self)@ == (if r is Ok {
                after_input(old(self)@, h, input)
            } else {
                old(self)@
            }),
    {
        self.feed_input_at(h, input)
    }

    fn request_route_refresh(&mut self, h: u64, accepted: bool) -> (requested: bool)
        ensures
            requested == (accepted && bgp_of(old(self)@.session(h)) is Some),
            final(self)@ == (if requested {
                old(self)@.schedule(seq![Task::Flush { session: h }])
            } else {
                old(self)@
            }),
    {
        DefaultRouter::request_route_refresh(self, h, accepted)
    }

    fn remove_session(&mut self, h: u64) -> (r: Result<(), RouterError>)
        ensures
            r == (if old(self)@.sessions.contains_key(h) {
                Ok::<(), RouterError>(())
            } else {
                Err::<(), RouterError>(RouterError::UnknownSession(h))
            }),
            final(self)@ == (if r is Ok {
                after_remove_session(old(self)@, h)
            } else {
                old(self)@
            }),
    {
        DefaultRouter::remove_session(self, h)
    }

    fn start_session(&mut self, h: u64) -> (r: Result<(), RouterError>)
        ensures
            r == (if old(self)@.sessions.contains_key(h) {
                Ok::<(), RouterError>(())
            } else {
                Err::<(), RouterError>(RouterError::UnknownSession(h))
            }),
            final(self)@ == after_start(old(self)@, h),
    {
        DefaultRouter::start_session(self, h)
    }

    fn tick(&mut self, now_ms: u64, expired: &Vec<u32>)
        ensures
            final(self)@ == after_tick(old(self)@, now_ms, expired@),
    {
        DefaultRouter::tick(self, now_ms, expired)
    }

    fn set_mrai(&mut self, h: u64, interval_ms: u64) -> (r: Result<(), RouterError>)
        ensures
            r == (if bgp_of(old(self)@.session(h)) is Some {
                Ok::<(), RouterError>(())
            } else {
                Err::<(), RouterError>(RouterError::NotBgp(h))
            }),
            final(self)@ == (if r is Ok {
                after_set_mrai(old(self)@, h, interval_ms)
            } else {
                old(self)@
            }),
    {
        DefaultRouter::set_mrai(self, h, interval_ms)
    }

    fn poll_events(&mut self) -> (v: Vec<RouterEvent>)
        ensures
            v@ == old(self)@.events,
            final(self)@ == polled(old(self)@),
    {
        DefaultRouter::poll_events(self)
    }

    fn requeue_events(&mut self, events: Vec<RouterEvent>)
        ensures
            final(self)@ == requeued(old(self)@, events@),
    {
        DefaultRouter::requeue_events(self, events)
    }

    fn rib_snapshot(&self) -> (v: Vec<Route>)
        ensures
            v@ == gather(sorted(self@.loc), best_paths()),
    {
        DefaultRouter::rib_snapshot(self)
    }

    fn session_peer_state(&self, h: u64) -> (s: Option<BgpState>)
        ensures
            s == (match bgp_of(self@.session(h)) {
                Some(b) => Some(b.status.state),
                None => None,
            }),
    {
        DefaultRouter::session_peer_state(self, h)
    }

    fn rib_paths_snapshot(&self) -> (v: Vec<Route>)
        ensures
            v@ == gather(sorted(self@.loc), all_paths()),
    {
        DefaultRouter::rib_paths_snapshot(self)
    }

    fn babel_changed(&mut self, h: u64, best: &Vec<BabelBest>, heard: bool)
        ensures
            final(self)@ == after_babel(old(self)@, h, best@, heard),
    {
        DefaultRouter::babel_changed(self, h, best, heard)
    }

    fn babel_flush_session(&mut self, h: u64)
        ensures
            final(self)@ == after_babel_flush(old(self)@, h),
    {
        DefaultRouter::babel_flush_session(self, h)
    }
}

} // verus!
