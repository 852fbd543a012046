//! BGP peers: what their state machines ask for, and which of two colliding
//! connections stays.

use crate::events::{BgpState, CollisionReason, LogEntry, RouterEvent};
use crate::ordmap::{lookup, sorted};
use crate::router::import::{after_import, after_withdraw};
use crate::router::export::after_reannounce;
use crate::route::{RouteKey, RouteOrigin};
use crate::router::paths::{internal_origin, peer_origin};
use crate::router::restart::{after_end_of_rib, after_teardown};
use crate::router::selection::{after_peer_down, after_peer_up, peer_header};
use crate::router::{DefaultRouter, RouterState};
use crate::session::{bgp_of, is_up, BgpSession, PeerStatus, Session};
use crate::task::{BgpAction, BmpMessage, PeerEvent, PeerHeader, Task};
use crate::timers::{decode_timer, encode_timer, TimerId};
use vstd::prelude::*;

verus! {

/// Subcode of a Cease notification: a connection collision was lost.
pub const CEASE_COLLISION: u8 = 7;

/// The requests of a state machine, as tasks.
pub open spec fn acts(session: u64, actions: Seq<BgpAction>) -> Seq<Task> {
    Seq::new(actions.len(), |i: int| Task::Act { session, action: actions[i] })
}

/// The router with a session's status and latch replaced.
pub open spec fn with_status(
    st: RouterState,
    session: u64,
    status: PeerStatus,
    established: bool,
) -> RouterState {
    match bgp_of(st.session(session)) {
        Some(b) => RouterState {
            sessions: st.sessions.insert(
                session,
                Session::Bgp(BgpSession { status, established, ..b }),
            ),
            ..st
        },
        None => st,
    }
}

/// A state machine's requests are put on the agenda, and what it buffered is
/// moved out at the end. A change of establishment that was not acted upon is
/// reported and mirrored first, the end of a session under its `parting`
/// header.
pub open spec fn after_dispatch(
    st: RouterState,
    session: u64,
    parting: Option<PeerHeader>,
    actions: Seq<BgpAction>,
) -> RouterState {
    let queued = st.schedule(acts(session, actions) + seq![Task::Flush { session }]);
    match bgp_of(st.session(session)) {
        Some(b) => if is_up(st.session(session)) && !b.established {
            after_peer_up(
                with_status(queued, session, b.status, true).report(
                    RouterEvent::PeerStateChange { session, state: BgpState::Established },
                ),
                session,
            )
        } else if !is_up(st.session(session)) && b.established {
            after_peer_down(
                with_status(queued, session, b.status, false).report(
                    RouterEvent::PeerStateChange { session, state: BgpState::Idle },
                ),
                parting,
            )
        } else {
            queued
        },
        None => queued,
    }
}

/// A state machine was stepped.
pub open spec fn after_stepped(
    st: RouterState,
    session: u64,
    status: PeerStatus,
    actions: Seq<BgpAction>,
) -> RouterState {
    match bgp_of(st.session(session)) {
        Some(b) => after_dispatch(
            with_status(st, session, status, b.established),
            session,
            peer_header(st, session),
            actions,
        ),
        None => st,
    }
}

/// The class under which a path of a session stands: the internal one, if it is
/// there.
pub open spec fn contributor(
    st: RouterState,
    session: u64,
    key: RouteKey,
    path_id: u32,
) -> RouteOrigin {
    let internal = (internal_origin(session), (key, path_id));
    if st.adj_in.contains_key(internal) || st.pre_policy.contains_key(internal) {
        internal_origin(session)
    } else {
        peer_origin(session)
    }
}

/// The identifier of a session's timer.
pub open spec fn timer_of(session: u64, timer: u32) -> u32 {
    ((session % 0x100_0000) * 0x100 + timer % 0x100) as u32
}

/// A state machine's request is carried out.
pub open spec fn after_act(st: RouterState, session: u64, action: BgpAction) -> RouterState {
    match action {
        BgpAction::Send(bytes) => if st.sessions.contains_key(session) {
            st.schedule(seq![Task::Write { session, bytes }])
        } else {
            st
        },
        BgpAction::SetTimer { timer, millis } => st.schedule(
            seq![Task::ArmTimer { timer: timer_of(session, timer), millis }],
        ),
        BgpAction::CancelTimer { timer } => st.schedule(
            seq![Task::DisarmTimer { timer: timer_of(session, timer) }],
        ),
        BgpAction::InstallRoute(route) => after_import(st, route),
        BgpAction::WithdrawRoute { key, path_id } => after_withdraw(
            st,
            contributor(st, session, key, path_id),
            key,
            path_id,
        ),
        BgpAction::RouteRefreshRequested(family) => after_reannounce(st, session, family),
        BgpAction::EndOfRib(family) => after_end_of_rib(st, session, family),
        BgpAction::Emit(event) => st.report(event),
        BgpAction::Close => after_teardown(st, session),
        BgpAction::Nothing => st,
    }
}

/// A timer expired: a BGP session's state machine is stepped.
pub open spec fn after_timer(st: RouterState, timer: u32) -> RouterState {
    let session = (timer / 0x100) as u64;
    let code = (timer % 0x100) as u8;
    if bgp_of(st.session(session)) is Some && 1 <= code <= 4 {
        st.schedule(seq![Task::StepPeer { session, event: PeerEvent::Timer(code) }])
    } else {
        st
    }
}

/// How a collision ends for the connection whose OPEN just arrived.
#[derive(Clone, Copy, Debug, PartialEq, Eq, Structural)]
pub enum CollisionVerdict {
    /// Nothing collides with it.
    Alone,
    /// It stays, the other closes.
    Wins { over: u64 },
    /// It closes.
    Loses { to: u64, reason: CollisionReason },
}

/// Whether a connection the remote end initiated wins: that of the higher
/// identifier does, then that of the higher AS.
pub open spec fn remote_initiated_wins(b: BgpSession, remote_id: u32) -> bool {
    b.config.local_bgp_id < remote_id || (b.config.local_bgp_id == remote_id && b.config.local_as
        < b.config.peer_as)
}

/// What one member of the collision group means for the session, if anything.
pub open spec fn sibling_verdict(
    st: RouterState,
    session: u64,
    remote_id: u32,
    sibling: u64,
    sibling_initiated: bool,
) -> Option<CollisionVerdict> {
    match (
        bgp_of(st.session(session)),
        bgp_of(st.session(sibling)),
        lookup(st.collision, session),
    ) {
        (Some(b), Some(t), Some((_, initiated))) => if t.status.state != BgpState::OpenSent
            && t.status.peer_bgp_id != Some(remote_id) {
            None
        } else if t.status.state == BgpState::Established {
            Some(
                CollisionVerdict::Loses { to: sibling, reason: CollisionReason::EstablishedWins },
            )
        } else if t.status.state == BgpState::OpenSent || t.status.state == BgpState::OpenConfirm {
            if sibling_initiated == initiated {
                None
            } else if initiated != remote_initiated_wins(b, remote_id) {
                Some(CollisionVerdict::Wins { over: sibling })
            } else {
                Some(
                    CollisionVerdict::Loses {
                        to: sibling,
                        reason: CollisionReason::HigherIdentifierWins,
                    },
                )
            }
        } else {
            None
        },
        _ => None,
    }
}

/// The verdict of the first member of the group that means anything.
pub open spec fn group_verdict(
    st: RouterState,
    session: u64,
    remote_id: u32,
    group: u64,
    members: Seq<(u64, (u64, bool))>,
) -> CollisionVerdict
    decreases members.len(),
{
    if members.len() == 0 {
        CollisionVerdict::Alone
    } else {
        let (sibling, (g, initiated)) = members[0];
        let here = if sibling != session && g == group {
            sibling_verdict(st, session, remote_id, sibling, initiated)
        } else {
            None
        };
        match here {
            Some(v) => v,
            None => group_verdict(st, session, remote_id, group, members.drop_first()),
        }
    }
}

/// How the collision of a session ends. A session without group, or whose
/// peer's identifier is unknown, collides with nothing.
pub open spec fn collision_verdict(st: RouterState, session: u64) -> CollisionVerdict {
    match (lookup(st.collision, session), bgp_of(st.session(session))) {
        (Some((group, _)), Some(b)) => match b.status.peer_bgp_id {
            Some(remote_id) => group_verdict(
                st,
                session,
                remote_id,
                group,
                sorted(st.collision),
            ),
            None => CollisionVerdict::Alone,
        },
        _ => CollisionVerdict::Alone,
    }
}

/// Whether a verdict fell by identifiers that are equal.
pub open spec fn tied(st: RouterState, session: u64, v: CollisionVerdict) -> bool {
    let by_identifier = match v {
        CollisionVerdict::Wins { .. } => true,
        CollisionVerdict::Loses { reason, .. } => reason == CollisionReason::HigherIdentifierWins,
        CollisionVerdict::Alone => false,
    };
    match bgp_of(st.session(session)) {
        Some(b) => by_identifier && b.status.peer_bgp_id == Some(b.config.local_bgp_id),
        None => false,
    }
}

/// The router after reporting a tie, where there is one.
pub open spec fn told_of_tie(st: RouterState, session: u64, v: CollisionVerdict) -> RouterState {
    match bgp_of(st.session(session)) {
        Some(b) => if tied(st, session, v) {
            st.log(LogEntry::EqualIdentifiers { identifier: b.config.local_bgp_id })
        } else {
            st
        },
        None => st,
    }
}

/// The losing connection of a collision is closed.
pub open spec fn after_collision(st: RouterState, session: u64, v: CollisionVerdict) -> RouterState {
    let told = told_of_tie(st, session, v);
    match v {
        CollisionVerdict::Alone => st,
        CollisionVerdict::Wins { over } => told.log(
            LogEntry::Collision {
                loser: over,
                winner: session,
                reason: CollisionReason::HigherIdentifierWins,
            },
        ).schedule(
            seq![
                Task::StepPeer {
                    session: over,
                    event: PeerEvent::CollisionStop { subcode: CEASE_COLLISION },
                },
            ],
        ),
        CollisionVerdict::Loses { to, reason } => told.log(
            LogEntry::Collision { loser: session, winner: to, reason },
        ).schedule(
            seq![
                Task::StepPeer {
                    session,
                    event: PeerEvent::CollisionStop { subcode: CEASE_COLLISION },
                },
            ],
        ),
    }
}

/// Whether a step took in the peer's OPEN.
pub open spec fn open_arrived(prev: BgpState, post: BgpState) -> bool {
    prev == BgpState::OpenSent && (post == BgpState::OpenConfirm || post == BgpState::Established)
}

/// Input was fed to a BGP session's state machine. A connection that loses a
/// collision is closed and its requests are dropped; a newly established one
/// is mirrored and offered the table before its requests are carried out, and
/// one that went down is mirrored before them.
pub open spec fn after_feed(
    st: RouterState,
    session: u64,
    prev: BgpState,
    status: PeerStatus,
    actions: Seq<BgpAction>,
) -> RouterState {
    match bgp_of(st.session(session)) {
        None => st,
        Some(b) => {
            let now_up = status.state == BgpState::Established;
            let fed = with_status(st, session, status, now_up);
            let v = if open_arrived(prev, status.state) {
                collision_verdict(fed, session)
            } else {
                CollisionVerdict::Alone
            };
            if v is Loses {
                after_collision(fed, session, v)
            } else {
                let queued = fed.schedule(
                    acts(session, actions) + seq![Task::Flush { session }],
                );
                let dumped = if now_up && !b.established {
                    after_peer_up(queued.schedule(seq![Task::DumpTo { session }]), session)
                } else if !now_up && b.established {
                    after_peer_down(queued, peer_header(st, session))
                } else {
                    queued
                };
                after_collision(dumped, session, v)
            }
        },
    }
}

impl DefaultRouter {
    /// Puts a state machine's requests ahead of the agenda, followed by the
    /// move of what it buffered.
    fn schedule_acts(&mut self, session: u64, actions: Vec<BgpAction>)
        ensures
            final(self)@ == old(self)@.schedule(
                acts(session, actions@) + seq![Task::Flush { session }],
            ),
    {
        let ghost all = acts(session, actions@);
        let ghost given = actions@;
        let ghost tail = seq![Task::Flush { session }];
        let ghost start = self.agenda@;
        self.agenda.push(Task::Flush { session });
        let mut rest: Vec<BgpAction> = actions;
        assert(all.skip(all.len() as int) + tail == tail);
        assert(tail.reverse() == tail);
        assert(start.push(Task::Flush { session }) == start + tail);
        while rest.len() > 0
            invariant
                rest@.len() <= given.len(),
                rest@ == given.take(rest@.len() as int),
                all == acts(session, given),
                self@ == (RouterState { agenda: self.agenda@, ..old(self)@ }),
                self.agenda@ == start + (all.skip(rest@.len() as int) + tail).reverse(),
                start == old(self).agenda@,
            decreases rest@.len(),
        {
            let ghost n = rest@.len() as int;
            if let Some(action) = rest.pop() {
                self.agenda.push(Task::Act { session, action });
                assert(rest@ == given.take(n - 1));
                assert(action == given[n - 1]);
                assert((all.skip(n - 1) + tail).reverse() =~= (all.skip(n) + tail).reverse().push(
                    all[n - 1],
                ));
                assert(self.agenda@ =~= start + (all.skip(n - 1) + tail).reverse());
            }
        }
        assert(all.skip(0) == all);
    }

    /// Replaces a session's status and latch.
    fn set_status(&mut self, session: u64, status: PeerStatus, established: bool)
        ensures
            final(self)@ == with_status(old(self)@, session, status, established),
    {
        match self.sessions.remove(&session) {
            Some(Session::Bgp(b)) => {
                self.sessions.insert(
                    session,
                    Session::Bgp(BgpSession { config: b.config, status, established }),
                );
                assert(self@.sessions =~= with_status(
                    old(self)@,
                    session,
                    status,
                    established,
                ).sessions);
            },
            Some(s) => {
                self.sessions.insert(session, s);
                assert(self@.sessions =~= old(self)@.sessions);
            },
            None => {},
        }
    }

    /// Sets a session's latch.
    pub(crate) fn set_established(&mut self, session: u64, established: bool)
        ensures
            final(self)@ == (match bgp_of(old(self)@.session(session)) {
                Some(b) => with_status(old(self)@, session, b.status, established),
                None => old(self)@,
            }),
    {
        match self.sessions.remove(&session) {
            Some(Session::Bgp(b)) => {
                let ghost given = b;
                self.sessions.insert(
                    session,
                    Session::Bgp(BgpSession { config: b.config, status: b.status, established }),
                );
                assert(self@.sessions =~= with_status(
                    old(self)@,
                    session,
                    given.status,
                    established,
                ).sessions);
            },
            Some(s) => {
                self.sessions.insert(session, s);
                assert(self@.sessions =~= old(self)@.sessions);
            },
            None => {},
        }
    }

    /// Puts a state machine's requests on the agenda.
    pub fn dispatch_bgp_actions(
        &mut self,
        session: u64,
        parting: Option<PeerHeader>,
        actions: Vec<BgpAction>,
    )
        ensures
            final(self)@ == after_dispatch(old(self)@, session, parting, actions@),
    {
        let change: Option<bool> = match self.bgp(session) {
            Some(b) => {
                let up: bool = b.status.state == BgpState::Established;
                if up != b.established {
                    Some(up)
                } else {
                    None
                }
            },
            None => None,
        };
        self.schedule_acts(session, actions);
        match change {
            Some(true) => {
                self.set_established(session, true);
                self.report(
                    RouterEvent::PeerStateChange { session, state: BgpState::Established },
                );
                self.bmp_peer_up(session);
            },
            Some(false) => {
                self.set_established(session, false);
                self.report(RouterEvent::PeerStateChange { session, state: BgpState::Idle });
                self.bmp_peer_down(parting);
            },
            None => {},
        }
    }

    /// Takes in the outcome of stepping a state machine.
    pub fn peer_stepped(&mut self, session: u64, status: PeerStatus, actions: Vec<BgpAction>)
        ensures
            final(self)@ == after_stepped(old(self)@, session, status, actions@),
    {
        let latch: Option<bool> = match self.bgp(session) {
            Some(b) => Some(b.established),
            None => None,
        };
        if let Some(established) = latch {
            let parting = self.bmp_peer_header(session);
            self.set_status(session, status, established);
            self.dispatch_bgp_actions(session, parting, actions);
        }
    }

    /// The class under which a path of a session stands.
    fn contributor_of(&self, session: u64, key: RouteKey, path_id: u32) -> (o: RouteOrigin)
        ensures
            o == contributor(self@, session, key, path_id),
    {
        let internal = (internal_origin(session), (key, path_id));
        if self.adj_in.contains_key(&internal) || self.pre_policy.contains_key(&internal) {
            internal_origin(session)
        } else {
            peer_origin(session)
        }
    }

    /// Carries out a state machine's request.
    pub fn act(&mut self, session: u64, action: BgpAction)
        ensures
            final(self)@ == after_act(old(self)@, session, action),
    {
        match action {
            BgpAction::Send(bytes) => {
                if self.sessions.contains_key(&session) {
                    self.schedule(vec![Task::Write { session, bytes }]);
                }
            },
            BgpAction::SetTimer { timer, millis } => {
                let id: u32 = encode_timer(session, TimerId(timer)).0;
                self.schedule(vec![Task::ArmTimer { timer: id, millis }]);
            },
            BgpAction::CancelTimer { timer } => {
                let id: u32 = encode_timer(session, TimerId(timer)).0;
                self.schedule(vec![Task::DisarmTimer { timer: id }]);
            },
            BgpAction::InstallRoute(route) => self.import_route(route),
            BgpAction::WithdrawRoute { key, path_id } => {
                let origin = self.contributor_of(session, key, path_id);
                self.withdraw_from_session(origin, key, path_id)
            },
            BgpAction::RouteRefreshRequested(family) => {
                self.reannounce_to_session(session, family)
            },
            BgpAction::EndOfRib(family) => self.on_end_of_rib(session, family),
            BgpAction::Emit(event) => self.report(event),
            BgpAction::Close => self.teardown_bgp_session(session),
            BgpAction::Nothing => {},
        }
    }

    /// Acts on an expired timer.
    pub fn timer_expired(&mut self, timer: u32)
        ensures
            final(self)@ == after_timer(old(self)@, timer),
    {
        let (session, code) = decode_timer(TimerId(timer));
        if self.bgp(session).is_some() && 1 <= code && code <= 4 {
            self.schedule(vec![Task::StepPeer { session, event: PeerEvent::Timer(code) }]);
        }
    }

    /// What one member of the collision group means for a session.
    fn judge_sibling(
        &self,
        session: u64,
        remote_id: u32,
        sibling: u64,
        sibling_initiated: bool,
    ) -> (v: Option<CollisionVerdict>)
        ensures
            v == sibling_verdict(self@, session, remote_id, sibling, sibling_initiated),
    {
        let initiated: bool = match self.collision.get(&session) {
            Some(m) => m.1,
            None => return None,
        };
        match (self.bgp(session), self.bgp(sibling)) {
            (Some(b), Some(t)) => {
                let same_peer: bool = match t.status.peer_bgp_id {
                    Some(id) => id == remote_id,
                    None => false,
                };
                if t.status.state != BgpState::OpenSent && !same_peer {
                    None
                } else if t.status.state == BgpState::Established {
                    Some(
                        CollisionVerdict::Loses {
                            to: sibling,
                            reason: CollisionReason::EstablishedWins,
                        },
                    )
                } else if t.status.state == BgpState::OpenSent || t.status.state
                    == BgpState::OpenConfirm {
                    let remote_wins: bool = b.config.local_bgp_id < remote_id || (
                    b.config.local_bgp_id == remote_id && b.config.local_as < b.config.peer_as);
                    if sibling_initiated == initiated {
                        None
                    } else if initiated != remote_wins {
                        Some(CollisionVerdict::Wins { over: sibling })
                    } else {
                        Some(
                            CollisionVerdict::Loses {
                                to: sibling,
                                reason: CollisionReason::HigherIdentifierWins,
                            },
                        )
                    }
                } else {
                    None
                }
            },
            _ => None,
        }
    }

    /// Decides the collision of a session.
    pub fn judge_collision(&self, session: u64) -> (v: CollisionVerdict)
        ensures
            v == collision_verdict(self@, session),
    {
        let group: u64 = match self.collision.get(&session) {
            Some(m) => m.0,
            None => return CollisionVerdict::Alone,
        };
        let remote_id: u32 = match self.bgp(session) {
            Some(b) => match b.status.peer_bgp_id {
                Some(id) => id,
                None => return CollisionVerdict::Alone,
            },
            None => return CollisionVerdict::Alone,
        };
        let n: usize = self.collision.len();
        let ghost s = self.collision.entries();
        let mut i: usize = 0;
        assert(s.skip(0) == s);
        while i < n
            invariant
                i <= n == s.len(),
                s == self.collision.entries(),
                s == sorted(self@.collision),
                collision_verdict(self@, session) == group_verdict(
                    self@,
                    session,
                    remote_id,
                    group,
                    s,
                ),
                group_verdict(self@, session, remote_id, group, s) == group_verdict(
                    self@,
                    session,
                    remote_id,
                    group,
                    s.skip(i as int),
                ),
            decreases n - i,
        {
            assert(s.skip(i as int)[0] == s[i as int]);
            assert(s.skip(i as int).drop_first() == s.skip(i + 1));
            let sibling: u64 = self.collision.key_at(i);
            let m = *self.collision.value_at(i);
            if sibling != session && m.0 == group {
                if let Some(v) = self.judge_sibling(session, remote_id, sibling, m.1) {
                    return v;
                }
            }
            i = i + 1;
        }
        CollisionVerdict::Alone
    }

    /// Closes the losing connection of a collision.
    pub fn resolve_connection_collision(&mut self, session: u64, v: CollisionVerdict)
        ensures
            final(self)@ == after_collision(old(self)@, session, v),
    {
        let by_identifier: bool = match v {
            CollisionVerdict::Wins { .. } => true,
            CollisionVerdict::Loses { reason, .. } => reason
                == CollisionReason::HigherIdentifierWins,
            CollisionVerdict::Alone => false,
        };
        let tie: Option<u32> = match self.bgp(session) {
            Some(b) => match b.status.peer_bgp_id {
                Some(id) => {
                    if by_identifier && id == b.config.local_bgp_id {
                        Some(id)
                    } else {
                        None
                    }
                },
                None => None,
            },
            None => None,
        };
        if let Some(identifier) = tie {
            self.log(LogEntry::EqualIdentifiers { identifier });
        }
        match v {
            CollisionVerdict::Alone => {},
            CollisionVerdict::Wins { over } => {
                self.log(
                    LogEntry::Collision {
                        loser: over,
                        winner: session,
                        reason: CollisionReason::HigherIdentifierWins,
                    },
                );
                self.schedule(
                    vec![
                        Task::StepPeer {
                            session: over,
                            event: PeerEvent::CollisionStop { subcode: CEASE_COLLISION },
                        },
                    ],
                );
            },
            CollisionVerdict::Loses { to, reason } => {
                self.log(LogEntry::Collision { loser: session, winner: to, reason });
                self.schedule(
                    vec![
                        Task::StepPeer {
                            session,
                            event: PeerEvent::CollisionStop { subcode: CEASE_COLLISION },
                        },
                    ],
                );
            },
        }
    }

    /// Takes in what feeding input to a BGP session's state machine came to.
    pub fn feed_bgp(
        &mut self,
        session: u64,
        prev: BgpState,
        status: PeerStatus,
        actions: Vec<BgpAction>,
    )
        ensures
            final(self)@ == after_feed(old(self)@, session, prev, status, actions@),
    {
        let latch: Option<bool> = match self.bgp(session) {
            Some(b) => Some(b.established),
            None => None,
        };
        if let Some(was) = latch {
            let post: BgpState = status.state;
            let now_up: bool = post == BgpState::Established;
            let ghost known = status;
            let parting = self.bmp_peer_header(session);
            self.set_status(session, status, now_up);
            let ghost fed = self@;
            assert(fed == with_status(old(self)@, session, known, now_up));
            let v = if prev == BgpState::OpenSent && (post == BgpState::OpenConfirm || post
                == BgpState::Established) {
                self.judge_collision(session)
            } else {
                CollisionVerdict::Alone
            };
            if let CollisionVerdict::Loses { .. } = v {
                self.resolve_connection_collision(session, v);
                assert(self@ == after_collision(fed, session, v));
            } else {
                let ghost given = actions@;
                self.schedule_acts(session, actions);
                let ghost queued = self@;
                assert(queued == fed.schedule(
                    acts(session, given) + seq![Task::Flush { session }],
                ));
                if now_up && !was {
                    self.schedule(vec![Task::DumpTo { session }]);
                    self.bmp_peer_up(session);
                } else if !now_up && was {
                    self.bmp_peer_down(parting);
                }
                self.resolve_connection_collision(session, v);
            }
        }
    }
}

/// A connection never closes in favour of another unless they belong to the
/// same group, and an established one wins.
pub proof fn established_connections_win(st: RouterState, session: u64, sibling: u64, initiated: bool)
    requires
        sibling_verdict(
            st,
            session,
            bgp_of(st.session(session))->Some_0.status.peer_bgp_id->Some_0,
            sibling,
            initiated,
        ) is Some,
        is_up(st.session(sibling)),
    ensures
        sibling_verdict(
            st,
            session,
            bgp_of(st.session(session))->Some_0.status.peer_bgp_id->Some_0,
            sibling,
            initiated,
        ) == Some(
            CollisionVerdict::Loses { to: sibling, reason: CollisionReason::EstablishedWins },
        ),
{
}

/// Two colliding connections of one peer, initiated from different ends,
/// converge: whichever takes in its OPEN, the same one stays.
pub proof fn collisions_converge(st: RouterState, a: u64, b: u64)
    requires
        bgp_of(st.session(a)) is Some,
        bgp_of(st.session(b)) is Some,
        ({
            let x = bgp_of(st.session(a))->Some_0;
            let y = bgp_of(st.session(b))->Some_0;
            &&& x.status.peer_bgp_id is Some
            &&& x.status.peer_bgp_id == y.status.peer_bgp_id
            &&& x.status.state == BgpState::OpenConfirm
            &&& y.status.state == BgpState::OpenConfirm
            &&& x.config.local_bgp_id == y.config.local_bgp_id
            &&& x.config.local_as == y.config.local_as
            &&& x.config.peer_as == y.config.peer_as
        }),
        st.collision.contains_key(a),
        st.collision.contains_key(b),
        st.collision[a].1 != st.collision[b].1,
    ensures
        ({
            let id = bgp_of(st.session(a))->Some_0.status.peer_bgp_id->Some_0;
            let v = sibling_verdict(st, a, id, b, st.collision[b].1);
            let w = sibling_verdict(st, b, id, a, st.collision[a].1);
            ||| v == Some(CollisionVerdict::Wins { over: b }) && w == Some(
                CollisionVerdict::Loses { to: a, reason: CollisionReason::HigherIdentifierWins },
            )
            ||| w == Some(CollisionVerdict::Wins { over: a }) && v == Some(
                CollisionVerdict::Loses { to: b, reason: CollisionReason::HigherIdentifierWins },
            )
        }),
{
}

/// An input that takes an established session down is mirrored: the next task
/// tells of the peer's end under the header it had, and the requests follow.
pub proof fn leaving_established_is_mirrored(
    st: RouterState,
    session: u64,
    prev: BgpState,
    status: PeerStatus,
    actions: Seq<BgpAction>,
)
    requires
        is_up(st.session(session)),
        bgp_of(st.session(session))->Some_0.established,
        prev == BgpState::Established,
        status.state != BgpState::Established,
        st.settings.bmp,
        peer_header(st, session) is Some,
    ensures
        after_feed(st, session, prev, status, actions).agenda == (st.agenda + (acts(
            session,
            actions,
        ) + seq![Task::Flush { session }]).reverse()).push(
            Task::Mirror(BmpMessage::PeerDown { header: peer_header(st, session)->Some_0 }),
        ),
{
    let one = seq![Task::Mirror(BmpMessage::PeerDown { header: peer_header(st, session)->Some_0 })];
    assert(one.reverse() =~= one);
    let queued = st.agenda + (acts(session, actions) + seq![Task::Flush { session }]).reverse();
    assert(queued + one =~= queued.push(one[0]));
}

/// Sessions outside every collision group never collide.
pub proof fn ungrouped_sessions_never_collide(st: RouterState, session: u64)
    requires
        !st.collision.contains_key(session),
    ensures
        collision_verdict(st, session) == CollisionVerdict::Alone,
{
}

/// What a losing connection asked for is dropped.
pub proof fn losers_requests_are_dropped(
    st: RouterState,
    session: u64,
    prev: BgpState,
    status: PeerStatus,
    actions: Seq<BgpAction>,
)
    requires
        bgp_of(st.session(session)) is Some,
        open_arrived(prev, status.state),
        collision_verdict(
            with_status(st, session, status, status.state == BgpState::Established),
            session,
        ) is Loses,
    ensures
        after_feed(st, session, prev, status, actions).agenda == st.agenda.push(
            Task::StepPeer { session, event: PeerEvent::CollisionStop { subcode: CEASE_COLLISION } },
        ),
{
    let one = seq![
        Task::StepPeer { session, event: PeerEvent::CollisionStop { subcode: CEASE_COLLISION } },
    ];
    assert(one.reverse() == one);
    assert(st.agenda + one =~= st.agenda.push(one[0]));
}

} // verus!
