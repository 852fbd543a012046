//! How sessions and their state machines are attended to.

use crate::addr::NlriFamily;
use crate::events::{BgpState, CollisionReason, LogEntry, RouterEvent};
use crate::list::List;
use crate::ordmap::lookup;
use crate::route::{Route, RouteKey, RouteOrigin};
use crate::router::export::after_reannounce;
use crate::router::import::{after_import, after_withdraw};
use crate::router::peers::{
    acts, after_act, after_collision, after_feed, after_stepped, after_timer, collision_verdict,
    group_verdict, open_arrived, sibling_verdict, with_status, CollisionVerdict,
};
use crate::router::restart::{after_end_of_rib, after_teardown};
use crate::router::telling::lemma_few;
use crate::router::RouterState;
use crate::session::{BgpSession, PeerStatus, Session};
use crate::task::{BgpAction, BmpMessage, PeerEvent, Task};
use vstd::prelude::*;

verus! {

/// Of two connections that collide before either is established, initiated
/// from different ends, the one stays that was initiated by the end with the
/// higher identifier; with equal identifiers, by the end with the higher AS.
pub proof fn higher_identifier_keeps_its_connection(
    st: RouterState,
    session: u64,
    b: BgpSession,
    sibling: u64,
    t: BgpSession,
    remote_id: u32,
)
    requires
        lookup(st.sessions, session) == Some(Session::Bgp(b)),
        lookup(st.sessions, sibling) == Some(Session::Bgp(t)),
        st.collision.contains_key(session),
        st.collision.contains_key(sibling),
        st.collision[session].1 != st.collision[sibling].1,
        t.status.state is OpenSent || t.status.state is OpenConfirm && t.status.peer_bgp_id == Some(
            remote_id,
        ),
    ensures
        ({
            let here = st.collision[session].1;
            let v = sibling_verdict(st, session, remote_id, sibling, st.collision[sibling].1);
            let wins = v == Some(CollisionVerdict::Wins { over: sibling });
            let loses = v == Some(
                CollisionVerdict::Loses {
                    to: sibling,
                    reason: CollisionReason::HigherIdentifierWins,
                },
            );
            let local = b.config.local_bgp_id;
            &&& local > remote_id && here ==> wins
            &&& local > remote_id && !here ==> loses
            &&& local < remote_id && here ==> loses
            &&& local < remote_id && !here ==> wins
            &&& local == remote_id && b.config.local_as < b.config.peer_as ==> (if here {
                loses
            } else {
                wins
            })
            &&& local == remote_id && b.config.local_as >= b.config.peer_as ==> (if here {
                wins
            } else {
                loses
            })
        }),
{
}

/// A sibling means nothing for a connection while it has not sent its OPEN,
/// once it turned out to reach another peer, or if the same end initiated
/// both and it is not established.
pub proof fn harmless_siblings_do_not_collide(
    st: RouterState,
    session: u64,
    sibling: u64,
    t: BgpSession,
    remote_id: u32,
    initiated: bool,
)
    requires
        lookup(st.sessions, sibling) == Some(Session::Bgp(t)),
    ensures
        t.status.state is Idle || t.status.state is Connect || t.status.state is Active
            ==> sibling_verdict(st, session, remote_id, sibling, initiated) is None,
        !(t.status.state is OpenSent) && t.status.peer_bgp_id != Some(remote_id)
            ==> sibling_verdict(st, session, remote_id, sibling, initiated) is None,
        !(t.status.state is Established) && st.collision.contains_key(session)
            && st.collision[session].1 == initiated ==> sibling_verdict(
            st,
            session,
            remote_id,
            sibling,
            initiated,
        ) is None,
{
}

/// A collision is decided by the first other member of the session's group
/// that means anything for it; without one the session is alone.
pub proof fn first_colliding_sibling_decides(
    st: RouterState,
    session: u64,
    remote_id: u32,
    group: u64,
    members: Seq<(u64, (u64, bool))>,
    i: int,
)
    requires
        0 <= i <= members.len(),
        forall|j: int|
            0 <= j < i ==> {
                let m = #[trigger] members[j];
                m.0 == session || m.1.0 != group || sibling_verdict(
                    st,
                    session,
                    remote_id,
                    m.0,
                    m.1.1,
                ) is None
            },
        i < members.len() ==> members[i].0 != session && members[i].1.0 == group
            && sibling_verdict(st, session, remote_id, members[i].0, members[i].1.1) is Some,
    ensures
        i < members.len() ==> Some(group_verdict(st, session, remote_id, group, members))
            == sibling_verdict(st, session, remote_id, members[i].0, members[i].1.1),
        i == members.len() ==> group_verdict(st, session, remote_id, group, members)
            == CollisionVerdict::Alone,
    decreases members.len(),
{
    if members.len() > 0 && i > 0 {
        let rest = members.drop_first();
        assert(members[0].0 == session || members[0].1.0 != group || sibling_verdict(
            st,
            session,
            remote_id,
            members[0].0,
            members[0].1.1,
        ) is None);
        assert forall|j: int| 0 <= j < i - 1 implies ({
            let m = #[trigger] rest[j];
            m.0 == session || m.1.0 != group || sibling_verdict(
                st,
                session,
                remote_id,
                m.0,
                m.1.1,
            ) is None
        }) by {
            assert(rest[j] == members[j + 1]);
        }
        if i < members.len() {
            assert(rest[i - 1] == members[i]);
        }
        first_colliding_sibling_decides(st, session, remote_id, group, rest, i - 1);
    }
}

/// The loser of a collision is told to stop with a Cease notification, and
/// the outcome is reported; the winner is left alone.
pub proof fn losers_are_stopped(st: RouterState, session: u64, other: u64, reason: CollisionReason)
    ensures
        ({
            let a = after_collision(st, session, CollisionVerdict::Wins { over: other });
            let b = after_collision(st, session, CollisionVerdict::Loses { to: other, reason });
            &&& a.agenda == st.agenda.push(
                Task::StepPeer {
                    session: other,
                    event: PeerEvent::CollisionStop { subcode: 7 },
                },
            )
            &&& a.events.len() > 0
            &&& a.events.last() == RouterEvent::Log(
                LogEntry::Collision {
                    loser: other,
                    winner: session,
                    reason: CollisionReason::HigherIdentifierWins,
                },
            )
            &&& b.agenda == st.agenda.push(
                Task::StepPeer { session, event: PeerEvent::CollisionStop { subcode: 7 } },
            )
            &&& b.events.last() == RouterEvent::Log(
                LogEntry::Collision { loser: session, winner: other, reason },
            )
            &&& after_collision(st, session, CollisionVerdict::Alone) == st
        }),
{
    let x = Task::StepPeer { session: other, event: PeerEvent::CollisionStop { subcode: 7 } };
    let y = Task::StepPeer { session, event: PeerEvent::CollisionStop { subcode: 7 } };
    lemma_few(st, x, y, x, y);
    lemma_few(st, y, y, x, y);
}

/// Collisions are looked at when the peer's OPEN has just been taken in.
pub proof fn opens_call_for_a_verdict(prev: BgpState, post: BgpState)
    ensures
        open_arrived(prev, post) <==> prev is OpenSent && (post is OpenConfirm
            || post is Established),
{
}

/// Input that establishes a session, without a lost collision, sets off the
/// dump of the table to it, before its requests are carried out; the session
/// counts as established from then on. No other input sets off a dump.
pub proof fn establishment_sets_off_the_dump(
    st: RouterState,
    session: u64,
    b: BgpSession,
    prev: BgpState,
    status: PeerStatus,
    actions: Seq<BgpAction>,
)
    requires
        lookup(st.sessions, session) == Some(Session::Bgp(b)),
        !st.collision.contains_key(session),
        !st.settings.bmp,
    ensures
        ({
            let next = after_feed(st, session, prev, status, actions);
            let asked = Seq::new(
                actions.len(),
                |i: int| Task::Act { session, action: actions[i] },
            );
            let queued = st.agenda + (asked + seq![Task::Flush { session }]).reverse();
            let up = status.state is Established;
            &&& up && !b.established ==> next.agenda == queued.push(Task::DumpTo { session })
            &&& !(up && !b.established) ==> next.agenda == queued
            &&& match lookup(next.sessions, session) {
                Some(Session::Bgp(c)) => c.status == status && c.established == up && c.config
                    == b.config,
                _ => false,
            }
        }),
{
    let next = after_feed(st, session, prev, status, actions);
    let asked = Seq::new(actions.len(), |i: int| Task::Act { session, action: actions[i] });
    assert(acts(session, actions) =~= asked);
    let fed = with_status(st, session, status, status.state == BgpState::Established);
    assert(collision_verdict(fed, session) == CollisionVerdict::Alone);
    let queued = fed.schedule(acts(session, actions) + seq![Task::Flush { session }]);
    let d = Task::DumpTo { session };
    lemma_few(queued, d, d, d, d);
}

/// A step of a state machine is followed by its requests in order, then by
/// the move of what it buffered. When it turns out that the session came up
/// or went down, that is reported once, and the session counts accordingly.
pub proof fn steps_are_followed_by_their_requests(
    st: RouterState,
    session: u64,
    b: BgpSession,
    status: PeerStatus,
    actions: Seq<BgpAction>,
)
    requires
        lookup(st.sessions, session) == Some(Session::Bgp(b)),
        !st.settings.bmp,
    ensures
        ({
            let next = after_stepped(st, session, status, actions);
            let asked = Seq::new(
                actions.len(),
                |i: int| Task::Act { session, action: actions[i] },
            );
            let up = status.state is Established;
            &&& next.agenda == st.agenda + (asked + seq![Task::Flush { session }]).reverse()
            &&& match lookup(next.sessions, session) {
                Some(Session::Bgp(c)) => c.status == status && c.established == up && c.config
                    == b.config,
                _ => false,
            }
            &&& up && !b.established ==> next.events == st.events.push(
                RouterEvent::PeerStateChange { session, state: BgpState::Established },
            )
            &&& !up && b.established ==> next.events == st.events.push(
                RouterEvent::PeerStateChange { session, state: BgpState::Idle },
            )
            &&& up == b.established ==> next.events == st.events
        }),
{
    let asked = Seq::new(actions.len(), |i: int| Task::Act { session, action: actions[i] });
    assert(acts(session, actions) =~= asked);
}

/// What a step reports is mirrored where monitoring is on: a session that
/// came up under its new header, one that went down under the header it had.
pub proof fn steps_are_mirrored(
    st: RouterState,
    session: u64,
    b: BgpSession,
    status: PeerStatus,
    actions: Seq<BgpAction>,
)
    requires
        lookup(st.sessions, session) == Some(Session::Bgp(b)),
        st.settings.bmp,
    ensures
        ({
            let next = after_stepped(st, session, status, actions);
            let up = status.state is Established;
            &&& up && !b.established && status.peer_bgp_id is Some && status.peer_as is Some ==> {
                &&& next.agenda.len() > 0
                &&& match next.agenda.last() {
                    Task::Mirror(BmpMessage::PeerUp { header }) => Some(header.peer_bgp_id)
                        == status.peer_bgp_id && Some(header.peer_as) == status.peer_as,
                    _ => false,
                }
            }
            &&& !up && b.established && b.status.peer_bgp_id is Some && b.status.peer_as is Some
                ==> {
                &&& next.agenda.len() > 0
                &&& match next.agenda.last() {
                    Task::Mirror(BmpMessage::PeerDown { header }) => Some(header.peer_bgp_id)
                        == b.status.peer_bgp_id && Some(header.peer_as) == b.status.peer_as,
                    _ => false,
                }
            }
        }),
{
}

/// Each request of a state machine is carried out as what it is: octets are
/// written to the session's transport, timers armed and disarmed under an
/// identifier of the session, routes imported and withdrawn, refreshes
/// answered, ends of families acted upon, events reported, and the end of the
/// session itself.
pub proof fn requests_are_carried_out(
    st: RouterState,
    session: u64,
    bytes: List<u8>,
    timer: u32,
    millis: u64,
    route: Route,
    key: RouteKey,
    path_id: u32,
    family: NlriFamily,
    event: RouterEvent,
)
    requires
        session < 0x100_0000,
        timer < 0x100,
    ensures
        st.sessions.contains_key(session) ==> after_act(st, session, BgpAction::Send(bytes)).agenda
            == st.agenda.push(Task::Write { session, bytes }),
        !st.sessions.contains_key(session) ==> after_act(st, session, BgpAction::Send(bytes)) == st,
        after_act(st, session, BgpAction::SetTimer { timer, millis }).agenda == st.agenda.push(
            Task::ArmTimer { timer: (session * 0x100 + timer) as u32, millis },
        ),
        after_act(st, session, BgpAction::CancelTimer { timer }).agenda == st.agenda.push(
            Task::DisarmTimer { timer: (session * 0x100 + timer) as u32 },
        ),
        after_act(st, session, BgpAction::InstallRoute(route)) == after_import(st, route),
        after_act(st, session, BgpAction::RouteRefreshRequested(family)) == after_reannounce(
            st,
            session,
            family,
        ),
        after_act(st, session, BgpAction::EndOfRib(family)) == after_end_of_rib(
            st,
            session,
            family,
        ),
        after_act(st, session, BgpAction::Emit(event)).events == st.events.push(event),
        after_act(st, session, BgpAction::Close) == after_teardown(st, session),
        after_act(st, session, BgpAction::Nothing) == st,
        ({
            let inner = (RouteOrigin { proto: 1, peer: session }, (key, path_id));
            let origin = if st.adj_in.contains_key(inner) || st.pre_policy.contains_key(inner) {
                RouteOrigin { proto: 1, peer: session }
            } else {
                RouteOrigin { proto: 0, peer: session }
            };
            after_act(st, session, BgpAction::WithdrawRoute { key, path_id }) == after_withdraw(
                st,
                origin,
                key,
                path_id,
            )
        }),
{
    let a = Task::Write { session, bytes };
    let b = Task::ArmTimer { timer: (session * 0x100 + timer) as u32, millis };
    let c = Task::DisarmTimer { timer: (session * 0x100 + timer) as u32 };
    lemma_few(st, a, b, c, a);
    lemma_few(st, b, b, c, a);
    lemma_few(st, c, b, c, a);
}

/// An expired timer steps the state machine of the BGP session that armed
/// it, with the code it was armed under, if that is one of the four timers;
/// any other does nothing.
pub proof fn expired_timers_step_their_session(st: RouterState, session: u64, code: u8)
    requires
        session < 0x100_0000,
    ensures
        ({
            let timer = (session * 0x100 + code) as u32;
            let next = after_timer(st, timer);
            match lookup(st.sessions, session) {
                Some(Session::Bgp(_)) if 1 <= code <= 4 => next.agenda == st.agenda.push(
                    Task::StepPeer { session, event: PeerEvent::Timer(code) },
                ),
                _ => next == st,
            }
        }),
{
    let timer = (session * 0x100 + code) as u32;
    assert(timer / 0x100 == session);
    assert(timer % 0x100 == code);
    let t = Task::StepPeer { session, event: PeerEvent::Timer(code) };
    lemma_few(st, t, t, t, t);
}

/// Where both ends have the same identifier and it has to decide, that is
/// reported ahead of the outcome; otherwise only the outcome is.
pub proof fn equal_identifiers_are_reported(
    st: RouterState,
    session: u64,
    b: BgpSession,
    other: u64,
    reason: CollisionReason,
)
    requires
        lookup(st.sessions, session) == Some(Session::Bgp(b)),
    ensures
        ({
            let same = b.status.peer_bgp_id == Some(b.config.local_bgp_id);
            let a = after_collision(st, session, CollisionVerdict::Wins { over: other });
            let l = after_collision(st, session, CollisionVerdict::Loses { to: other, reason });
            let tie = RouterEvent::Log(
                LogEntry::EqualIdentifiers { identifier: b.config.local_bgp_id },
            );
            let by_identifier = reason == CollisionReason::HigherIdentifierWins;
            &&& same ==> a.events.drop_last() == st.events.push(tie)
            &&& !same ==> a.events.drop_last() == st.events
            &&& same && by_identifier ==> l.events.drop_last() == st.events.push(tie)
            &&& !same || !by_identifier ==> l.events.drop_last() == st.events
        }),
{
    let tie = RouterEvent::Log(LogEntry::EqualIdentifiers { identifier: b.config.local_bgp_id });
    let x = RouterEvent::Log(
        LogEntry::Collision {
            loser: other,
            winner: session,
            reason: CollisionReason::HigherIdentifierWins,
        },
    );
    let y = RouterEvent::Log(LogEntry::Collision { loser: session, winner: other, reason });
    assert(st.events.push(x).drop_last() =~= st.events);
    assert(st.events.push(y).drop_last() =~= st.events);
    assert(st.events.push(tie).push(x).drop_last() =~= st.events.push(tie));
    assert(st.events.push(tie).push(y).drop_last() =~= st.events.push(tie));
}

} // verus!
