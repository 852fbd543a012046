//! What OSPF and Babel neighbours send.

use crate::babel::{
    babel_routes, frame_actions, frame_state, table_of, table_values, BabelAction, BabelBest,
    BabelRuntime, BabelTlv,
};
use crate::delta::{changed_routes, gone_keys};
use crate::events::{LogEntry, RouterError};
use crate::list::List;
use crate::ordmap::{is_table, lookup, sorted};
use crate::ospf::adjacency::{DrChange, NeighborState, OspfRuntime, PacketAction};
use crate::ospf::area::{area_accepts, ospf_area_accepts};
use crate::ospf::facts::AreaView;
use crate::ospf::grace::{
    grace_verdict, judge_grace_lsa, remember_grace, remembered, GraceRecord, GraceVerdict,
    OspfGraceEvent,
};
use crate::ospf::lsa::{
    grace_lsa, is_grace_lsa, outcome_changed, InstallOutcome, Lsa, E_EXTERNAL, V2_EXTERNAL, V3_EXTERNAL,
};
use crate::route::Protocol;
use crate::router::origination::after_delta;
use crate::router::plane::with_plane;
use crate::router::sessions::attached;
use crate::router::{DefaultRouter, OspfState, RouterState};
use crate::seqs::{gather, gather_step, gather_whole, one_if};
use crate::session::Session;
use crate::task::{LsUpdate, LsaProgress, Task};
use crate::value::Value;
use vstd::prelude::*;

verus! {

/// Packet type of a link-state update.
pub const LS_UPDATE: u8 = 4;

/// The link-state update that carries LSAs.
pub open spec fn update_packet(
    protocol: Protocol,
    router_id: u32,
    area_id: u32,
    lsas: List<Lsa>,
) -> LsUpdate {
    LsUpdate {
        version: if protocol == Protocol::Ospfv3 {
            3
        } else {
            2
        },
        kind: LS_UPDATE,
        router_id,
        area_id,
        lsa_count: (lsas.seq().len() % 0x1_0000_0000) as u32,
        lsas,
    }
}

/// The update for a session that LSAs of an area are flooded to.
pub open spec fn flood_packet(area: u32, lsas: List<Lsa>, except: Option<u64>) -> spec_fn(
    (u64, Session),
) -> Seq<(u64, LsUpdate)> {
    |e: (u64, Session)|
        match e.1 {
            Session::Ospf(r) => one_if(
                r.area_id == area && except != Some(e.0) && lsas is Cons,
                (e.0, update_packet(r.protocol, r.router_id, area, lsas)),
            ),
            _ => Seq::empty(),
        }
}

/// The updates that flood LSAs through an area: to all its sessions but the
/// one they came from.
pub open spec fn flood_packets(
    sessions: Map<u64, Session>,
    area: u32,
    lsas: List<Lsa>,
    except: Option<u64>,
) -> Seq<(u64, LsUpdate)> {
    gather(sorted(sessions), flood_packet(area, lsas, except))
}

/// The transmission of an update.
pub open spec fn send_task() -> spec_fn((u64, LsUpdate)) -> Seq<Task> {
    |p: (u64, LsUpdate)| seq![Task::SendLsas { session: p.0, packet: p.1 }]
}

/// The flooding of LSAs through an area.
pub open spec fn flood_tasks(
    st: RouterState,
    area: u32,
    lsas: List<Lsa>,
    except: Option<u64>,
) -> Seq<Task> {
    gather(flood_packets(st.sessions, area, lsas, except), send_task())
}

/// LSAs arrived on a session: those of its area are taken in one by one.
pub open spec fn after_receive(st: RouterState, h: u64, lsas: Seq<Lsa>) -> RouterState {
    match st.session(h) {
        Some(Session::Ospf(r)) => if st.ospf.areas.contains_key(r.area_id) {
            st.schedule(
                seq![
                    Task::TakeLsas {
                        session: h,
                        area: r.area_id,
                        progress: LsaProgress {
                            queue: List::of(lsas),
                            changed: List::Nil,
                            grace: List::Nil,
                        },
                    },
                ],
            )
        } else {
            st
        },
        _ => st,
    }
}

/// Whether an LSA is flooded through the whole routing domain.
pub open spec fn as_scoped(lsa: Lsa) -> bool {
    lsa.header.ls_type == V2_EXTERNAL || lsa.header.ls_type == V3_EXTERNAL || lsa.header.ls_type
        == E_EXTERNAL
}

/// The LSA, if it is flooded through the whole routing domain.
pub open spec fn as_scope() -> spec_fn(Lsa) -> Seq<Lsa> {
    |l: Lsa| one_if(as_scoped(l), l)
}

/// The protocol version whose areas externals of a kind belong to.
pub open spec fn scope_version(first: Lsa) -> Protocol {
    if first.header.ls_type == V2_EXTERNAL {
        Protocol::Ospfv2
    } else {
        Protocol::Ospfv3
    }
}

/// The passing on of externals to another regular area of their version.
pub open spec fn mirror_task(area: u32, lsas: Seq<Lsa>) -> spec_fn((u32, AreaView)) -> Seq<Task> {
    |e: (u32, AreaView)|
        one_if(
            lsas.len() > 0 && e.0 != area && !e.1.kind.stubby() && e.1.protocol == scope_version(
                lsas[0],
            ),
            Task::MirrorLsas { area: e.0, queue: List::of(lsas), newly: List::Nil },
        )
}

/// A graceful-restart announcement is judged; new ones are kept for the
/// embedder.
pub open spec fn after_grace(st: RouterState, area: u32, lsa: Lsa) -> RouterState {
    let key = (area, lsa.header.advertising_router);
    let before = lookup(st.ospf.grace_seen, key);
    let seen = with_plane(
        st,
        OspfState {
            grace_seen: st.ospf.grace_seen.insert(key, remembered(lsa, before)),
            ..st.ospf
        },
    );
    match grace_verdict(area, lsa, before) {
        GraceVerdict::Stale => st,
        GraceVerdict::Malformed => seen.log(
            LogEntry::MalformedGrace { router: lsa.header.advertising_router, area },
        ),
        GraceVerdict::Event(e) => with_plane(
            seen,
            OspfState { grace_events: st.ospf.grace_events.push(e), ..seen.ospf },
        ),
    }
}

/// Graceful-restart announcements are judged in order.
pub open spec fn after_graces(st: RouterState, area: u32, lsas: List<Lsa>) -> RouterState
    decreases lsas,
{
    match lsas {
        List::Nil => st,
        List::Cons(l, rest) => after_graces(after_grace(st, area, l), area, *rest),
    }
}

/// All received LSAs were looked at: announcements are judged, externals
/// passed on to the other areas they belong to, changes flooded, and
/// everything computed from the databases reconsidered.
pub open spec fn after_taken(
    st: RouterState,
    session: u64,
    area: u32,
    progress: LsaProgress,
) -> RouterState {
    let externals = gather(progress.changed.seq(), as_scope());
    after_graces(st, area, progress.grace).schedule(
        gather(sorted(st.ospf.areas), mirror_task(area, externals)) + flood_tasks(
            st,
            area,
            progress.changed,
            Some(session),
        ) + seq![Task::OspfSettle],
    )
}

/// The next received LSA is looked at: announcements are put aside, what the
/// area refuses is passed over, anything else is installed.
pub open spec fn after_take(
    st: RouterState,
    session: u64,
    area: u32,
    progress: LsaProgress,
) -> RouterState {
    match (progress.queue, lookup(st.ospf.areas, area)) {
        (List::Cons(lsa, rest), Some(view)) => if grace_lsa(lsa.header) {
            st.schedule(
                seq![
                    Task::TakeLsas {
                        session,
                        area,
                        progress: LsaProgress {
                            queue: *rest,
                            grace: progress.grace.appended(lsa),
                            ..progress
                        },
                    },
                ],
            )
        } else if !area_accepts(view.kind, lsa) {
            st.schedule(
                seq![
                    Task::TakeLsas {
                        session,
                        area,
                        progress: LsaProgress { queue: *rest, ..progress },
                    },
                ],
            )
        } else {
            st.schedule(
                seq![
                    Task::InstallLsa {
                        session,
                        area,
                        lsa,
                        progress: LsaProgress { queue: *rest, ..progress },
                    },
                ],
            )
        },
        (List::Nil, Some(_)) => after_taken(st, session, area, progress),
        (_, None) => st,
    }
}

/// A received LSA was installed, or ignored.
pub open spec fn after_installed(
    st: RouterState,
    session: u64,
    area: u32,
    lsa: Lsa,
    progress: LsaProgress,
    outcome: InstallOutcome,
) -> RouterState {
    if outcome == InstallOutcome::Ignored {
        st.schedule(seq![Task::TakeLsas { session, area, progress }])
    } else {
        with_plane(st, OspfState { dirty: true, ..st.ospf }).schedule(
            seq![
                Task::TakeLsas {
                    session,
                    area,
                    progress: LsaProgress {
                        changed: progress.changed.appended(lsa),
                        ..progress
                    },
                },
            ],
        )
    }
}

/// Externals are passed on to another area, and flooded there as far as they
/// changed it.
pub open spec fn after_mirror(
    st: RouterState,
    area: u32,
    queue: List<Lsa>,
    newly: List<Lsa>,
) -> RouterState {
    match queue {
        List::Cons(lsa, rest) => st.schedule(
            seq![Task::MirrorLsa { area, lsa, queue: *rest, newly }],
        ),
        List::Nil => st.schedule(flood_tasks(st, area, newly, None)),
    }
}

/// An external was installed into another area, or ignored.
pub open spec fn after_mirrored(
    st: RouterState,
    area: u32,
    lsa: Lsa,
    queue: List<Lsa>,
    newly: List<Lsa>,
    outcome: InstallOutcome,
) -> RouterState {
    if outcome == InstallOutcome::Ignored {
        st.schedule(seq![Task::MirrorLsas { area, queue, newly }])
    } else {
        with_plane(st, OspfState { dirty: true, ..st.ospf }).schedule(
            seq![Task::MirrorLsas { area, queue, newly: newly.appended(lsa) }],
        )
    }
}

/// The OSPF session behind a handle, or why there is none.
pub open spec fn ospf_of(st: RouterState, h: u64) -> Result<OspfRuntime, RouterError> {
    match st.session(h) {
        Some(Session::Ospf(r)) => Ok(r),
        Some(_) => Err(RouterError::NotOspf(h)),
        None => Err(RouterError::UnknownSession(h)),
    }
}

/// The router with an OSPF session replaced.
pub open spec fn with_runtime(st: RouterState, h: u64, r: OspfRuntime) -> RouterState {
    RouterState { sessions: st.sessions.insert(h, Session::Ospf(r)), ..st }
}

/// The Babel session behind a handle.
pub open spec fn babel_of(st: RouterState, h: u64) -> Option<BabelRuntime> {
    match st.session(h) {
        Some(Session::Babel(r)) => Some(r),
        _ => None,
    }
}

/// A Babel session's feasible routes are published.
pub open spec fn after_babel(st: RouterState, h: u64, best: Seq<BabelBest>, heard: bool) -> RouterState {
    match babel_of(st, h) {
        None => st,
        Some(r) => {
            let current = table_of(babel_routes(best, r.router_id, r.default_hop()));
            let before = table_of(r.published.seq());
            after_delta(
                RouterState {
                    sessions: st.sessions.insert(
                        h,
                        Session::Babel(
                            BabelRuntime {
                                published: List::of(table_values(current)),
                                heard,
                                ..r
                            },
                        ),
                    ),
                    ..st
                },
                changed_routes(sorted(current), before),
                gone_keys(sorted(before), current),
            )
        },
    }
}

/// A Babel session's routes are withdrawn, and its table forgotten.
pub open spec fn after_babel_flush(st: RouterState, h: u64) -> RouterState {
    match babel_of(st, h) {
        None => st,
        Some(r) => after_babel(st, h, Seq::empty(), r.heard).schedule(
            seq![Task::ForgetBabel { session: h }],
        ),
    }
}

/// Builds the link-state update that carries LSAs.
pub fn ospf_ls_update(
    protocol: Protocol,
    router_id: u32,
    area_id: u32,
    lsas: List<Lsa>,
) -> (p: LsUpdate)
    ensures
        p == update_packet(protocol, router_id, area_id, lsas),
{
    let n: usize = lsas.to_vec().len();
    LsUpdate {
        version: if protocol == Protocol::Ospfv3 {
            3
        } else {
            2
        },
        kind: LS_UPDATE,
        router_id,
        area_id,
        lsa_count: (n as u64 % 0x1_0000_0000) as u32,
        lsas,
    }
}

impl Value for LsUpdate {
    fn dup(&self) -> (r: Self) {
        LsUpdate {
            version: self.version,
            kind: self.kind,
            router_id: self.router_id,
            area_id: self.area_id,
            lsa_count: self.lsa_count,
            lsas: self.lsas.dup(),
        }
    }

    fn same(&self, other: &Self) -> (b: bool) {
        self.version == other.version && self.kind == other.kind && self.router_id
            == other.router_id && self.area_id == other.area_id && self.lsa_count
            == other.lsa_count && self.lsas.same(&other.lsas)
    }
}

fn scoped(lsa: &Lsa) -> (b: bool)
    ensures
        b == as_scoped(*lsa),
{
    let t: u16 = lsa.header.ls_type;
    t == V2_EXTERNAL || t == V3_EXTERNAL || t == E_EXTERNAL
}

impl DefaultRouter {
    /// Lists the updates that flood LSAs through an area.
    pub fn ospf_flood(&self, area: u32, lsas: &List<Lsa>, except: Option<u64>) -> (v: Vec<
        (u64, LsUpdate),
    >)
        ensures
            v@ == flood_packets(self@.sessions, area, *lsas, except),
    {
        let mut v: Vec<(u64, LsUpdate)> = Vec::new();
        let ghost f = flood_packet(area, *lsas, except);
        let none: bool = lsas.is_empty();
        let n: usize = self.sessions.len();
        proof {
            gather_whole(self.sessions.entries(), f);
        }
        let mut i: usize = 0;
        while i < n
            invariant
                i <= n == self.sessions.entries().len(),
                none == !(*lsas is Cons),
                f == flood_packet(area, *lsas, except),
                v@ == gather(self.sessions.entries().take(i as int), f),
            decreases n - i,
        {
            proof {
                gather_step(self.sessions.entries(), i as int, f);
            }
            let h: u64 = self.sessions.key_at(i);
            let excluded: bool = match except {
                Some(x) => x == h,
                None => false,
            };
            if let Session::Ospf(r) = self.sessions.value_at(i) {
                if r.area_id == area && !excluded && !none {
                    v.push((h, ospf_ls_update(r.protocol, r.router_id, area, lsas.dup())));
                }
            }
            i = i + 1;
        }
        v
    }

    /// Appends the flooding of LSAs through an area.
    fn flood_into(
        &self,
        tasks: &mut Vec<Task>,
        area: u32,
        lsas: &List<Lsa>,
        except: Option<u64>,
    )
        ensures
            final(tasks)@ == old(tasks)@ + flood_tasks(self@, area, *lsas, except),
    {
        let ghost start = tasks@;
        let mut packets = self.ospf_flood(area, lsas, except);
        let ghost all = packets@;
        let ghost f = send_task();
        let mut made: Vec<Task> = Vec::new();
        proof {
            gather_whole(all, f);
        }
        let mut i: usize = 0;
        while i < packets.len()
            invariant
                i <= packets@.len(),
                packets@ == all,
                f == send_task(),
                made@ == gather(all.take(i as int), f),
            decreases packets@.len() - i,
        {
            proof {
                gather_step(all, i as int, f);
            }
            made.push(Task::SendLsas { session: packets[i].0, packet: packets[i].1.dup() });
            i = i + 1;
        }
        tasks.append(&mut made);
    }

    /// Takes in LSAs that arrived on a session.
    pub fn receive_lsas(&mut self, h: u64, lsas: Vec<Lsa>)
        ensures
            final(self)@ == after_receive(old(self)@, h, lsas@),
    {
        let area: u32 = match self.sessions.get(&h) {
            Some(Session::Ospf(r)) => r.area_id,
            _ => return,
        };
        if self.ospf.areas.contains_key(&area) {
            let progress = LsaProgress {
                queue: List::from_vec(lsas),
                changed: List::Nil,
                grace: List::Nil,
            };
            self.schedule(vec![Task::TakeLsas { session: h, area, progress }]);
        }
    }

    /// Judges a graceful-restart announcement.
    pub fn on_ospf_grace_lsa(&mut self, area: u32, lsa: &Lsa)
        ensures
            final(self)@ == after_grace(old(self)@, area, *lsa),
    {
        let key = (area, lsa.header.advertising_router);
        let seen: Option<GraceRecord> = match self.ospf.grace_seen.get(&key) {
            Some(i) => Some(*i),
            None => None,
        };
        match judge_grace_lsa(area, lsa, seen) {
            GraceVerdict::Stale => {},
            GraceVerdict::Malformed => {
                self.ospf.grace_seen.insert(key, remember_grace(lsa, seen));
                self.log(
                    LogEntry::MalformedGrace { router: lsa.header.advertising_router, area },
                );
            },
            GraceVerdict::Event(e) => {
                self.ospf.grace_seen.insert(key, remember_grace(lsa, seen));
                self.ospf.grace_events.push(e);
            },
        }
    }

    /// Judges graceful-restart announcements in order.
    fn judge_all(&mut self, area: u32, lsas: &List<Lsa>)
        ensures
            final(self)@ == after_graces(old(self)@, area, *lsas),
        decreases *lsas,
    {
        if let List::Cons(l, rest) = lsas {
            self.on_ospf_grace_lsa(area, l);
            self.judge_all(area, rest);
        }
    }

    /// Takes the announcements kept for the embedder.
    pub fn drain_ospf_grace_events(&mut self) -> (v: Vec<OspfGraceEvent>)
        ensures
            v@ == old(self)@.ospf.grace_events,
            final(self)@ == with_plane(
                old(self)@,
                OspfState { grace_events: Seq::empty(), ..old(self)@.ospf },
            ),
    {
        let mut v: Vec<OspfGraceEvent> = Vec::new();
        std::mem::swap(&mut v, &mut self.ospf.grace_events);
        v
    }

    /// Finishes the intake of LSAs.
    fn lsas_taken(&mut self, session: u64, area: u32, progress: LsaProgress)
        ensures
            final(self)@ == after_taken(old(self)@, session, area, progress),
    {
        let changed = progress.changed.to_vec();
        let mut externals: Vec<Lsa> = Vec::new();
        let ghost f = as_scope();
        proof {
            gather_whole(changed@, f);
        }
        let mut i: usize = 0;
        while i < changed.len()
            invariant
                i <= changed@.len(),
                f == as_scope(),
                externals@ == gather(changed@.take(i as int), f),
            decreases changed@.len() - i,
        {
            proof {
                gather_step(changed@, i as int, f);
            }
            if scoped(&changed[i]) {
                externals.push(changed[i].dup());
            }
            i = i + 1;
        }
        let mut tasks: Vec<Task> = Vec::new();
        let ghost g = mirror_task(area, externals@);
        let n: usize = self.ospf.areas.len();
        proof {
            gather_whole(self.ospf.areas.entries(), g);
        }
        let any: bool = externals.len() > 0;
        let version = if any && externals[0].header.ls_type == V2_EXTERNAL {
            Protocol::Ospfv2
        } else {
            Protocol::Ospfv3
        };
        let mut j: usize = 0;
        while j < n
            invariant
                j <= n == self.ospf.areas.entries().len(),
                g == mirror_task(area, externals@),
                any == (externals@.len() > 0),
                any ==> version == scope_version(externals@[0]),
                tasks@ == gather(self.ospf.areas.entries().take(j as int), g),
            decreases n - j,
        {
            proof {
                gather_step(self.ospf.areas.entries(), j as int, g);
            }
            let other: u32 = self.ospf.areas.key_at(j);
            let view = self.ospf.areas.value_at(j);
            if any && other != area && !view.kind.is_stubby() && view.protocol == version {
                let queue = List::from_vec(crate::value::dup_vec(&externals));
                tasks.push(Task::MirrorLsas { area: other, queue, newly: List::Nil });
            }
            j = j + 1;
        }
        self.flood_into(&mut tasks, area, &progress.changed, Some(session));
        let ghost before = tasks@;
        tasks.push(Task::OspfSettle);
        assert(tasks@ =~= before + seq![Task::OspfSettle]);
        self.judge_all(area, &progress.grace);
        self.schedule(tasks);
    }

    /// Looks at the next received LSA.
    pub fn take_lsas(&mut self, session: u64, area: u32, progress: LsaProgress)
        ensures
            final(self)@ == after_take(old(self)@, session, area, progress),
    {
        let kind = match self.ospf.areas.get(&area) {
            Some(v) => v.kind,
            None => return,
        };
        match progress.queue {
            List::Nil => {
                self.lsas_taken(session, area, progress);
            },
            List::Cons(lsa, rest) => {
                let (changed, grace) = (progress.changed, progress.grace);
                if is_grace_lsa(&lsa) {
                    let grace = grace.append(lsa);
                    let progress = LsaProgress { queue: *rest, changed, grace };
                    self.schedule(vec![Task::TakeLsas { session, area, progress }]);
                } else if !ospf_area_accepts(&kind, &lsa) {
                    let progress = LsaProgress { queue: *rest, changed, grace };
                    self.schedule(vec![Task::TakeLsas { session, area, progress }]);
                } else {
                    let progress = LsaProgress { queue: *rest, changed, grace };
                    self.schedule(vec![Task::InstallLsa { session, area, lsa, progress }]);
                }
            },
        }
    }

    /// Takes note of what became of a received LSA.
    pub fn lsa_installed(
        &mut self,
        session: u64,
        area: u32,
        lsa: Lsa,
        progress: LsaProgress,
        outcome: InstallOutcome,
    )
        ensures
            final(self)@ == after_installed(old(self)@, session, area, lsa, progress, outcome),
    {
        if !outcome_changed(outcome) {
            self.schedule(vec![Task::TakeLsas { session, area, progress }]);
        } else {
            self.ospf.dirty = true;
            let progress = LsaProgress {
                queue: progress.queue,
                changed: progress.changed.append(lsa),
                grace: progress.grace,
            };
            self.schedule(vec![Task::TakeLsas { session, area, progress }]);
        }
    }

    /// Passes externals on to another area.
    pub fn mirror_lsas(&mut self, area: u32, queue: List<Lsa>, newly: List<Lsa>)
        ensures
            final(self)@ == after_mirror(old(self)@, area, queue, newly),
    {
        match queue {
            List::Cons(lsa, rest) => {
                self.schedule(vec![Task::MirrorLsa { area, lsa, queue: *rest, newly }]);
            },
            List::Nil => {
                let mut tasks: Vec<Task> = Vec::new();
                self.flood_into(&mut tasks, area, &newly, None);
                assert(tasks@ =~= flood_tasks(self@, area, newly, None));
                self.schedule(tasks);
            },
        }
    }

    /// Takes note of what became of an external passed on to another area.
    pub fn lsa_mirrored(
        &mut self,
        area: u32,
        lsa: Lsa,
        queue: List<Lsa>,
        newly: List<Lsa>,
        outcome: InstallOutcome,
    )
        ensures
            final(self)@ == after_mirrored(old(self)@, area, lsa, queue, newly, outcome),
    {
        if !outcome_changed(outcome) {
            self.schedule(vec![Task::MirrorLsas { area, queue, newly }]);
        } else {
            self.ospf.dirty = true;
            self.schedule(vec![Task::MirrorLsas { area, queue, newly: newly.append(lsa) }]);
        }
    }

    /// The OSPF session behind a handle.
    pub fn ospf_session(&self, h: u64) -> (r: Result<OspfRuntime, RouterError>)
        ensures
            r == ospf_of(self@, h),
    {
        match self.sessions.get(&h) {
            Some(Session::Ospf(r)) => Ok(*r),
            Some(_) => Err(RouterError::NotOspf(h)),
            None => Err(RouterError::UnknownSession(h)),
        }
    }

    /// Records the election result of a session's network.
    pub fn set_ospf_dr_state(&mut self, h: u64, dr: u32, bdr: u32) -> (r: Result<
        DrChange,
        RouterError,
    >)
        ensures
            match ospf_of(old(self)@, h) {
                Ok(before) => {
                    let change = before.dr_change(dr, bdr);
                    &&& r == Ok::<DrChange, RouterError>(change)
                    &&& final(self)@ == with_runtime(
                        old(self)@,
                        h,
                        OspfRuntime {
                            exchange_started: before.exchange_started && !(change is Break),
                            ..before.with_election(dr, bdr)
                        },
                    )
                },
                Err(e) => r == Err::<DrChange, RouterError>(e) && final(self)@ == old(self)@,
            },
    {
        match self.ospf_session(h) {
            Ok(runtime) => {
                let mut next = runtime;
                let change = next.set_dr_state(dr, bdr);
                self.sessions.insert(h, Session::Ospf(next));
                Ok(change)
            },
            Err(e) => Err(e),
        }
    }

    /// Records the state a session's neighbour was stepped to, and tells
    /// whether its initial database description is due.
    pub fn ospf_neighbor_stepped(&mut self, h: u64, state: NeighborState, started: bool) -> (r:
        Result<PacketAction, RouterError>)
        ensures
            match ospf_of(old(self)@, h) {
                Ok(before) => {
                    let next = OspfRuntime {
                        neighbor: state,
                        exchange_started: started,
                        ..before
                    };
                    &&& r == Ok::<PacketAction, RouterError>(
                        next.after_adjacency(old(self)@.now_ms),
                    )
                    &&& final(self)@ == with_runtime(old(self)@, h, next)
                },
                Err(e) => r == Err::<PacketAction, RouterError>(e) && final(self)@ == old(self)@,
            },
    {
        match self.ospf_session(h) {
            Ok(runtime) => {
                let mut next = runtime;
                next.neighbor = state;
                next.exchange_started = started;
                let action = next.initial_description(self.now_ms);
                self.sessions.insert(h, Session::Ospf(next));
                Ok(action)
            },
            Err(e) => Err(e),
        }
    }

    /// Interprets a frame that arrived on a Babel session.
    pub fn feed_babel(&mut self, h: u64, tlvs: &Vec<BabelTlv>, now_us: u32) -> (actions: Vec<
        BabelAction,
    >)
        ensures
            match babel_of(old(self)@, h) {
                Some(r) => {
                    let (router_id, next_hop) = frame_state(tlvs@, r.router_id, r.next_hop);
                    &&& actions@ == frame_actions(
                        tlvs@,
                        r.router_id,
                        r.next_hop,
                        r.address,
                        now_us,
                    )
                    &&& final(self)@ == (RouterState {
                        sessions: old(self)@.sessions.insert(
                            h,
                            Session::Babel(BabelRuntime { router_id, next_hop, ..r }),
                        ),
                        ..old(self)@
                    })
                },
                None => actions@.len() == 0 && final(self)@ == old(self)@,
            },
    {
        match self.sessions.remove(&h) {
            Some(Session::Babel(r)) => {
                let mut next = r;
                let actions = next.handle_frame(tlvs, now_us);
                let ghost after = next;
                self.sessions.insert(h, Session::Babel(next));
                assert(self@.sessions =~= old(self)@.sessions.insert(h, Session::Babel(after)));
                actions
            },
            Some(s) => {
                self.sessions.insert(h, s);
                assert(self@.sessions =~= old(self)@.sessions);
                Vec::new()
            },
            None => Vec::new(),
        }
    }

    /// Publishes a Babel session's feasible routes; `heard` tells whether its
    /// neighbour was heard of.
    pub fn babel_changed(&mut self, h: u64, best: &Vec<BabelBest>, heard: bool)
        ensures
            final(self)@ == after_babel(old(self)@, h, best@, heard),
    {
        match self.sessions.remove(&h) {
            Some(Session::Babel(r)) => {
                let mut next = r;
                let delta = next.diff(best);
                next.heard = heard;
                let ghost after = next;
                self.sessions.insert(h, Session::Babel(next));
                assert(self@.sessions =~= old(self)@.sessions.insert(h, Session::Babel(after)));
                self.apply_runtime_delta(&delta);
            },
            Some(s) => {
                self.sessions.insert(h, s);
                assert(self@.sessions =~= old(self)@.sessions);
            },
            None => {},
        }
    }

    /// Withdraws a Babel session's routes.
    pub fn babel_flush_session(&mut self, h: u64)
        ensures
            final(self)@ == after_babel_flush(old(self)@, h),
    {
        let heard: bool = match self.sessions.get(&h) {
            Some(Session::Babel(r)) => r.heard,
            _ => return,
        };
        let none: Vec<BabelBest> = Vec::new();
        self.babel_changed(h, &none, heard);
        assert(none@ == Seq::<BabelBest>::empty());
        self.schedule(vec![Task::ForgetBabel { session: h }]);
    }
}

/// A graceful-restart announcement is never installed, and never flooded.
pub proof fn announcements_stay_out(st: RouterState, session: u64, area: u32, progress: LsaProgress)
    requires
        progress.queue is Cons,
        grace_lsa(progress.queue->Cons_0.header),
        st.ospf.areas.contains_key(area),
    ensures
        after_take(st, session, area, progress).ospf == st.ospf,
        ({
            let next = after_take(st, session, area, progress).agenda.last();
            &&& next is TakeLsas
            &&& next->TakeLsas_progress.changed == progress.changed
        }),
{
}

/// LSAs are never flooded back to the session they came from, nor to sessions
/// of other areas.
pub proof fn floods_spare_their_source(
    sessions: Map<u64, Session>,
    area: u32,
    lsas: List<Lsa>,
    source: u64,
    p: (u64, LsUpdate),
)
    requires
        is_table(sessions),
        flood_packets(sessions, area, lsas, Some(source)).contains(p),
    ensures
        p.0 != source,
        sessions.contains_key(p.0),
        attached(sessions[p.0], area),
{
    let f = flood_packet(area, lsas, Some(source));
    let i = crate::seqs::gather_source(sorted(sessions), f, p);
    assert(f(sorted(sessions)[i]).contains(p));
    crate::ordmap::lemma_entry(sorted(sessions), i);
}

/// Externals are passed on to no stub or not-so-stubby area, to no area of
/// the other version, and not to the area they came from.
pub proof fn externals_respect_areas(
    area: u32,
    lsas: Seq<Lsa>,
    other: u32,
    view: AreaView,
)
    requires
        other == area || view.kind.stubby() || lsas.len() == 0 || view.protocol
            != scope_version(lsas[0]),
    ensures
        mirror_task(area, lsas)((other, view)).len() == 0,
{
}

/// The same announcement again changes nothing.
pub proof fn announcements_are_kept_once(st: RouterState, area: u32, lsa: Lsa)
    ensures
        after_grace(after_grace(st, area, lsa), area, lsa) == after_grace(st, area, lsa),
{
}

} // verus!
