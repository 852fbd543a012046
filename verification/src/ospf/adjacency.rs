//! Adjacencies: when they form and what a received packet calls for.

use crate::route::Protocol;
use vstd::prelude::*;

verus! {

/// State of a neighbour.
#[derive(Clone, Copy, Debug, PartialEq, Eq, Structural)]
pub enum NeighborState {
    Down,
    Attempt,
    Init,
    TwoWay,
    ExStart,
    Exchange,
    Loading,
    Full,
}

impl NeighborState {
    /// How far the adjacency has come.
    pub open spec fn rank(self) -> int {
        match self {
            NeighborState::Down => 0,
            NeighborState::Attempt => 1,
            NeighborState::Init => 2,
            NeighborState::TwoWay => 3,
            NeighborState::ExStart => 4,
            NeighborState::Exchange => 5,
            NeighborState::Loading => 6,
            NeighborState::Full => 7,
        }
    }

    /// Whether database exchange has begun.
    pub fn exchanging(&self) -> (b: bool)
        ensures
            b == (self.rank() >= NeighborState::ExStart.rank()),
    {
        match self {
            NeighborState::Down => false,
            NeighborState::Attempt => false,
            NeighborState::Init => false,
            NeighborState::TwoWay => false,
            _ => true,
        }
    }

    /// The state's name.
    pub fn name(&self) -> (s: &'static str)
        ensures
            s@ == (match *self {
                NeighborState::Down => "Down"@,
                NeighborState::Attempt => "Attempt"@,
                NeighborState::Init => "Init"@,
                NeighborState::TwoWay => "2-Way"@,
                NeighborState::ExStart => "ExStart"@,
                NeighborState::Exchange => "Exchange"@,
                NeighborState::Loading => "Loading"@,
                NeighborState::Full => "Full"@,
            }),
    {
        match self {
            NeighborState::Down => "Down",
            NeighborState::Attempt => "Attempt",
            NeighborState::Init => "Init",
            NeighborState::TwoWay => "2-Way",
            NeighborState::ExStart => "ExStart",
            NeighborState::Exchange => "Exchange",
            NeighborState::Loading => "Loading",
            NeighborState::Full => "Full",
        }
    }
}

/// Event of the neighbour state machine.
#[derive(Clone, Copy, Debug, PartialEq, Eq, Structural)]
pub enum NeighborEvent {
    HelloSeen { dr: u32, bdr: u32, priority: u8 },
    AdjOk { proceed: bool },
}

/// Kind of network an interface attaches to.
#[derive(Clone, Copy, Debug, PartialEq, Eq, Structural)]
pub enum OspfNetworkType {
    PointToPoint,
    Broadcast,
}

/// One OSPF adjacency. Addresses and identities of 0 are unknown.
#[derive(Clone, Copy, Debug, PartialEq, Eq, Structural)]
pub struct OspfRuntime {
    pub router_id: u32,
    pub area_id: u32,
    pub protocol: Protocol,
    pub iface_mtu: u16,
    pub network_type: OspfNetworkType,
    pub our_ip: u32,
    pub neighbor_ip: u32,
    pub dr: u32,
    pub bdr: u32,
    pub neighbor: NeighborState,
    pub exchange_started: bool,
}

/// A received packet, as far as the adjacency decides on it.
#[derive(Clone, Copy, Debug, PartialEq, Eq, Structural)]
pub enum PacketKind {
    /// A Hello, and whether it lists this router.
    Hello { lists_us: bool, dr: u32, bdr: u32, priority: u8 },
    DbDesc,
    LsRequest,
    LsUpdate,
    LsAck,
    Other,
}

/// How far the handling of a packet has come.
#[derive(Clone, Copy, Debug, PartialEq, Eq, Structural)]
pub enum PacketStage {
    Received,
    NeighborSeen,
    AdjacencyDecided,
    Finished,
}

/// What is to be done next for a packet.
#[derive(Clone, Copy, Debug, PartialEq, Eq, Structural)]
pub enum PacketAction {
    /// Nothing more.
    Done,
    /// Step the neighbour state machine.
    Step(NeighborEvent),
    /// Send the initial database description under this sequence number.
    InitialDbDesc { seq: u32 },
    /// Hand the packet to the exchange.
    Exchange,
}

/// What a changed election calls for.
#[derive(Clone, Copy, Debug, PartialEq, Eq, Structural)]
pub enum DrChange {
    /// The result is the one already known.
    Unchanged,
    /// The result changed; the adjacency stays as it is.
    Keep,
    /// The neighbour now qualifies: step it forward.
    Form,
    /// The neighbour no longer qualifies: step it back and start a fresh
    /// exchange.
    Break,
}

/// The value, or 0.
pub open spec fn value_or_zero(x: Option<u32>) -> u32 {
    match x {
        Some(v) => v,
        None => 0,
    }
}

fn unwrap_or_zero(x: Option<u32>) -> (r: u32)
    ensures
        r == value_or_zero(x),
{
    match x {
        Some(v) => v,
        None => 0,
    }
}

/// The sequence number of an initial database description.
pub open spec fn initial_sequence(now_ms: u64, router_id: u32) -> u32 {
    ((now_ms % 0x1_0000_0000) as u32 ^ router_id) | 1
}

impl OspfRuntime {
    /// A fresh adjacency.
    pub fn new(
        router_id: u32,
        area_id: u32,
        v3: bool,
        iface_mtu: u16,
        network_type: OspfNetworkType,
        our_ip: Option<u32>,
        neighbor_ip: Option<u32>,
    ) -> (r: OspfRuntime)
        ensures
            r == (OspfRuntime {
                router_id,
                area_id,
                protocol: if v3 {
                    Protocol::Ospfv3
                } else {
                    Protocol::Ospfv2
                },
                iface_mtu,
                network_type,
                our_ip: value_or_zero(our_ip),
                neighbor_ip: value_or_zero(neighbor_ip),
                dr: 0,
                bdr: 0,
                neighbor: NeighborState::Down,
                exchange_started: false,
            }),
    {
        OspfRuntime {
            router_id,
            area_id,
            protocol: if v3 {
                Protocol::Ospfv3
            } else {
                Protocol::Ospfv2
            },
            iface_mtu,
            network_type,
            our_ip: unwrap_or_zero(our_ip),
            neighbor_ip: unwrap_or_zero(neighbor_ip),
            dr: 0,
            bdr: 0,
            neighbor: NeighborState::Down,
            exchange_started: false,
        }
    }

    /// Whether an address is that of an elected router.
    pub open spec fn elected(self, addr: u32) -> bool {
        addr != 0 && (addr == self.dr || addr == self.bdr)
    }

    /// Whether the two routers become adjacent: always on a point-to-point
    /// link, on a broadcast segment only when one of them is elected.
    pub open spec fn viable(self) -> bool {
        self.network_type is PointToPoint || self.elected(self.our_ip) || self.elected(
            self.neighbor_ip,
        )
    }

    /// Whether the two routers become adjacent.
    pub fn adjacency_viable(&self) -> (b: bool)
        ensures
            b == self.viable(),
    {
        match self.network_type {
            OspfNetworkType::PointToPoint => true,
            OspfNetworkType::Broadcast => {
                if self.dr == 0 && self.bdr == 0 {
                    return false;
                }
                (self.our_ip != 0 && (self.our_ip == self.dr || self.our_ip == self.bdr)) || (
                self.neighbor_ip != 0 && (self.neighbor_ip == self.dr || self.neighbor_ip
                    == self.bdr))
            },
        }
    }

    /// A received Hello, given the neighbours it lists.
    pub fn hello(&self, neighbors: &Vec<u32>, dr: u32, bdr: u32, priority: u8) -> (k: PacketKind)
        ensures
            k == (PacketKind::Hello {
                lists_us: neighbors@.contains(self.router_id),
                dr,
                bdr,
                priority,
            }),
    {
        let mut lists_us: bool = false;
        let mut i: usize = 0;
        while i < neighbors.len() && !lists_us
            invariant
                i <= neighbors@.len(),
                lists_us ==> neighbors@.contains(self.router_id),
                !lists_us ==> forall|j: int| 0 <= j < i ==> neighbors@[j] != self.router_id,
            decreases neighbors@.len() - i,
        {
            if neighbors[i] == self.router_id {
                assert(neighbors@[i as int] == self.router_id);
                lists_us = true;
            }
            i = i + 1;
        }
        PacketKind::Hello { lists_us, dr, bdr, priority }
    }

    /// The end of a Hello: entering ExStart emits the initial description.
    pub open spec fn after_adjacency(self, now_ms: u64) -> PacketAction {
        if self.neighbor is ExStart && !self.exchange_started {
            PacketAction::InitialDbDesc { seq: initial_sequence(now_ms, self.router_id) }
        } else {
            PacketAction::Done
        }
    }

    /// Whether the initial description is due.
    pub fn initial_description(&self, now_ms: u64) -> (a: PacketAction)
        ensures
            a == self.after_adjacency(now_ms),
    {
        if self.neighbor == NeighborState::ExStart && !self.exchange_started {
            let seq: u32 = ((now_ms % 0x1_0000_0000) as u32 ^ self.router_id) | 1;
            PacketAction::InitialDbDesc { seq }
        } else {
            PacketAction::Done
        }
    }

    /// The decision once the neighbour is known to see us: a bidirectional
    /// neighbour is asked whether the adjacency proceeds; otherwise the
    /// packet goes on at once.
    pub open spec fn after_seen(self, packet: PacketKind, now_ms: u64) -> (
        PacketAction,
        PacketStage,
    ) {
        if self.neighbor is TwoWay {
            (
                PacketAction::Step(NeighborEvent::AdjOk { proceed: self.viable() }),
                PacketStage::AdjacencyDecided,
            )
        } else {
            self.after_decision(packet, now_ms)
        }
    }

    /// The decision once the adjacency question is settled. A database
    /// description is exchanged from ExStart on only.
    pub open spec fn after_decision(self, packet: PacketKind, now_ms: u64) -> (
        PacketAction,
        PacketStage,
    ) {
        match packet {
            PacketKind::Hello { .. } => (self.after_adjacency(now_ms), PacketStage::Finished),
            PacketKind::DbDesc => (
                if self.neighbor.rank() >= NeighborState::ExStart.rank() {
                    PacketAction::Exchange
                } else {
                    PacketAction::Done
                },
                PacketStage::Finished,
            ),
            _ => (PacketAction::Done, PacketStage::Finished),
        }
    }

    /// What a packet calls for at a stage.
    pub open spec fn packet_step(self, packet: PacketKind, stage: PacketStage, now_ms: u64) -> (
        PacketAction,
        PacketStage,
    ) {
        match stage {
            PacketStage::Received => match packet {
                PacketKind::Hello { lists_us, dr, bdr, priority } => if self.neighbor is Down
                    || lists_us {
                    (
                        PacketAction::Step(NeighborEvent::HelloSeen { dr, bdr, priority }),
                        PacketStage::NeighborSeen,
                    )
                } else {
                    (PacketAction::Done, PacketStage::Finished)
                },
                PacketKind::DbDesc => if self.neighbor is Init {
                    (
                        PacketAction::Step(
                            NeighborEvent::HelloSeen { dr: 0, bdr: 0, priority: 1 },
                        ),
                        PacketStage::NeighborSeen,
                    )
                } else {
                    self.after_seen(packet, now_ms)
                },
                PacketKind::LsRequest => (PacketAction::Exchange, PacketStage::Finished),
                PacketKind::LsUpdate => (PacketAction::Exchange, PacketStage::Finished),
                _ => (PacketAction::Done, PacketStage::Finished),
            },
            PacketStage::NeighborSeen => self.after_seen(packet, now_ms),
            PacketStage::AdjacencyDecided => self.after_decision(packet, now_ms),
            PacketStage::Finished => (PacketAction::Done, PacketStage::Finished),
        }
    }

    fn decide(&self, packet: PacketKind, now_ms: u64) -> (r: (PacketAction, PacketStage))
        ensures
            r == self.after_decision(packet, now_ms),
    {
        match packet {
            PacketKind::Hello { .. } => (self.initial_description(now_ms), PacketStage::Finished),
            PacketKind::DbDesc => {
                if self.neighbor.exchanging() {
                    (PacketAction::Exchange, PacketStage::Finished)
                } else {
                    (PacketAction::Done, PacketStage::Finished)
                }
            },
            _ => (PacketAction::Done, PacketStage::Finished),
        }
    }

    fn seen(&self, packet: PacketKind, now_ms: u64) -> (r: (PacketAction, PacketStage))
        ensures
            r == self.after_seen(packet, now_ms),
    {
        if self.neighbor == NeighborState::TwoWay {
            (
                PacketAction::Step(NeighborEvent::AdjOk { proceed: self.adjacency_viable() }),
                PacketStage::AdjacencyDecided,
            )
        } else {
            self.decide(packet, now_ms)
        }
    }

    /// Decides what a packet calls for at a stage. The caller performs the
    /// action, records the neighbour's new state and asks again.
    pub fn handle_packet(&self, packet: PacketKind, stage: PacketStage, now_ms: u64) -> (r: (
        PacketAction,
        PacketStage,
    ))
        ensures
            r == self.packet_step(packet, stage, now_ms),
    {
        match stage {
            PacketStage::Received => match packet {
                PacketKind::Hello { lists_us, dr, bdr, priority } => {
                    if self.neighbor == NeighborState::Down || lists_us {
                        (
                            PacketAction::Step(NeighborEvent::HelloSeen { dr, bdr, priority }),
                            PacketStage::NeighborSeen,
                        )
                    } else {
                        (PacketAction::Done, PacketStage::Finished)
                    }
                },
                PacketKind::DbDesc => {
                    if self.neighbor == NeighborState::Init {
                        (
                            PacketAction::Step(
                                NeighborEvent::HelloSeen { dr: 0, bdr: 0, priority: 1 },
                            ),
                            PacketStage::NeighborSeen,
                        )
                    } else {
                        self.seen(packet, now_ms)
                    }
                },
                PacketKind::LsRequest => (PacketAction::Exchange, PacketStage::Finished),
                PacketKind::LsUpdate => (PacketAction::Exchange, PacketStage::Finished),
                _ => (PacketAction::Done, PacketStage::Finished),
            },
            PacketStage::NeighborSeen => self.seen(packet, now_ms),
            PacketStage::AdjacencyDecided => self.decide(packet, now_ms),
            PacketStage::Finished => (PacketAction::Done, PacketStage::Finished),
        }
    }

    /// The adjacency with another election result.
    pub open spec fn with_election(self, dr: u32, bdr: u32) -> OspfRuntime {
        OspfRuntime { dr, bdr, ..self }
    }

    /// What an election result calls for.
    pub open spec fn dr_change(self, dr: u32, bdr: u32) -> DrChange {
        if self.dr == dr && self.bdr == bdr {
            DrChange::Unchanged
        } else if self.neighbor is TwoWay && self.with_election(dr, bdr).viable() {
            DrChange::Form
        } else if self.neighbor.rank() >= NeighborState::ExStart.rank() && !self.with_election(
            dr,
            bdr,
        ).viable() {
            DrChange::Break
        } else {
            DrChange::Keep
        }
    }

    /// Records an election result. A broken adjacency forgets its exchange.
    pub fn set_dr_state(&mut self, dr: u32, bdr: u32) -> (c: DrChange)
        ensures
            c == old(self).dr_change(dr, bdr),
            *final(self) == (OspfRuntime {
                exchange_started: old(self).exchange_started && !(c is Break),
                ..old(self).with_election(dr, bdr)
            }),
    {
        if self.dr == dr && self.bdr == bdr {
            return DrChange::Unchanged;
        }
        self.dr = dr;
        self.bdr = bdr;
        if self.neighbor == NeighborState::TwoWay && self.adjacency_viable() {
            DrChange::Form
        } else if self.neighbor.exchanging() && !self.adjacency_viable() {
            self.exchange_started = false;
            DrChange::Break
        } else {
            DrChange::Keep
        }
    }
}

/// Before a broadcast segment has elected anyone no adjacency forms on it.
pub proof fn no_adjacency_before_election(r: OspfRuntime)
    requires
        r.network_type is Broadcast,
        r.dr == 0,
        r.bdr == 0,
    ensures
        !r.viable(),
{
}

/// A database description reaches the exchange from ExStart on only, at
/// whatever stage.
pub proof fn descriptions_wait_for_exstart(r: OspfRuntime, stage: PacketStage, now_ms: u64)
    requires
        r.packet_step(PacketKind::DbDesc, stage, now_ms).0 == PacketAction::Exchange,
    ensures
        r.neighbor.rank() >= NeighborState::ExStart.rank(),
{
}

/// The initial description is sent once: never when the exchange already
/// started.
pub proof fn initial_description_is_sent_once(
    r: OspfRuntime,
    packet: PacketKind,
    stage: PacketStage,
    now_ms: u64,
)
    requires
        r.exchange_started,
    ensures
        !(r.packet_step(packet, stage, now_ms).0 is InitialDbDesc),
{
}

/// States follow one another from Down to Full.
pub proof fn states_follow_one_another()
    ensures
        NeighborState::Down.rank() < NeighborState::Attempt.rank(),
        NeighborState::Attempt.rank() < NeighborState::Init.rank(),
        NeighborState::Init.rank() < NeighborState::TwoWay.rank(),
        NeighborState::TwoWay.rank() < NeighborState::ExStart.rank(),
        NeighborState::ExStart.rank() < NeighborState::Exchange.rank(),
        NeighborState::Exchange.rank() < NeighborState::Loading.rank(),
        NeighborState::Loading.rank() < NeighborState::Full.rank(),
{
}

/// On a point-to-point link routers always become adjacent; on a broadcast
/// segment exactly when the known address of one of them is that of the
/// designated router or its backup.
pub proof fn elected_routers_become_adjacent(r: OspfRuntime)
    ensures
        r.network_type is PointToPoint ==> r.viable(),
        r.network_type is Broadcast ==> (r.viable() <==> {
            ||| r.our_ip != 0 && (r.our_ip == r.dr || r.our_ip == r.bdr)
            ||| r.neighbor_ip != 0 && (r.neighbor_ip == r.dr || r.neighbor_ip == r.bdr)
        }),
{
}

/// The first sequence number is odd, and otherwise the time and the router ID
/// mixed.
pub proof fn first_sequence_is_odd(now_ms: u64, router_id: u32)
    ensures
        initial_sequence(now_ms, router_id) & 1 == 1,
        initial_sequence(now_ms, router_id) >> 1 == ((now_ms % 0x1_0000_0000) as u32 ^ router_id)
            >> 1,
{
    let t = (now_ms % 0x1_0000_0000) as u32;
    assert(((t ^ router_id) | 1) & 1 == 1) by (bit_vector);
    assert(((t ^ router_id) | 1) >> 1 == (t ^ router_id) >> 1) by (bit_vector);
}

/// A Hello counts when it lists this router, or is the first sign of the
/// neighbour: the neighbour's state machine then sees it with what it says of
/// the election. Any other Hello is passed over.
pub proof fn hellos_count_when_they_list_us(
    r: OspfRuntime,
    lists_us: bool,
    dr: u32,
    bdr: u32,
    priority: u8,
    now_ms: u64,
)
    ensures
        ({
            let p = PacketKind::Hello { lists_us, dr, bdr, priority };
            let (action, stage) = r.packet_step(p, PacketStage::Received, now_ms);
            &&& lists_us || r.neighbor is Down ==> action == PacketAction::Step(
                NeighborEvent::HelloSeen { dr, bdr, priority },
            ) && stage is NeighborSeen
            &&& !lists_us && !(r.neighbor is Down) ==> action is Done && stage is Finished
        }),
{
}

/// Once a neighbour is seen both ways it is decided whether the adjacency
/// proceeds, by whether the two become adjacent.
pub proof fn two_way_neighbours_are_decided(r: OspfRuntime, packet: PacketKind, now_ms: u64)
    ensures
        r.neighbor is TwoWay ==> r.packet_step(packet, PacketStage::NeighborSeen, now_ms) == (
            PacketAction::Step(NeighborEvent::AdjOk { proceed: r.viable() }),
            PacketStage::AdjacencyDecided,
        ),
        r.neighbor is TwoWay && packet is DbDesc ==> r.packet_step(
            packet,
            PacketStage::Received,
            now_ms,
        ) == (
            PacketAction::Step(NeighborEvent::AdjOk { proceed: r.viable() }),
            PacketStage::AdjacencyDecided,
        ),
{
}

/// A Hello that leaves a neighbour in ExStart is answered by the initial
/// database description, unless the exchange started already; in any other
/// state it is done with.
pub proof fn exstart_calls_for_a_description(r: OspfRuntime, packet: PacketKind, now_ms: u64)
    requires
        packet is Hello,
    ensures
        ({
            let (action, stage) = r.packet_step(packet, PacketStage::AdjacencyDecided, now_ms);
            &&& stage is Finished
            &&& r.neighbor is ExStart && !r.exchange_started ==> action == (
            PacketAction::InitialDbDesc { seq: initial_sequence(now_ms, r.router_id) })
            &&& !(r.neighbor is ExStart) || r.exchange_started ==> action is Done
            &&& !(r.neighbor is TwoWay) ==> r.packet_step(
                packet,
                PacketStage::NeighborSeen,
                now_ms,
            ) == (action, stage)
        }),
{
}

/// A database description goes to the exchange from ExStart on; in Init it is
/// a sign of the neighbour like a Hello. Requests and updates always go to the
/// exchange, acknowledgements and other packets never.
pub proof fn packets_reach_the_exchange(r: OspfRuntime, now_ms: u64)
    ensures
        r.neighbor is ExStart || r.neighbor is Exchange || r.neighbor is Loading
            || r.neighbor is Full ==> r.packet_step(
            PacketKind::DbDesc,
            PacketStage::Received,
            now_ms,
        ) == (PacketAction::Exchange, PacketStage::Finished),
        r.neighbor is Down || r.neighbor is Attempt ==> r.packet_step(
            PacketKind::DbDesc,
            PacketStage::Received,
            now_ms,
        ) == (PacketAction::Done, PacketStage::Finished),
        r.neighbor is Init ==> r.packet_step(PacketKind::DbDesc, PacketStage::Received, now_ms)
            == (
            PacketAction::Step(NeighborEvent::HelloSeen { dr: 0, bdr: 0, priority: 1 }),
            PacketStage::NeighborSeen,
        ),
        r.packet_step(PacketKind::LsRequest, PacketStage::Received, now_ms).0 is Exchange,
        r.packet_step(PacketKind::LsUpdate, PacketStage::Received, now_ms).0 is Exchange,
        r.packet_step(PacketKind::LsAck, PacketStage::Received, now_ms).0 is Done,
        r.packet_step(PacketKind::Other, PacketStage::Received, now_ms).0 is Done,
        r.packet_step(PacketKind::DbDesc, PacketStage::Finished, now_ms).0 is Done,
{
}

/// A new election forms an adjacency with a two-way neighbour that becomes
/// adjacent by it, and breaks one from ExStart on that no longer may be
/// adjacent; anything else stays, and the same result again is no change.
pub proof fn elections_form_and_break_adjacencies(r: OspfRuntime, dr: u32, bdr: u32)
    ensures
        ({
            let next = OspfRuntime { dr, bdr, ..r };
            let c = r.dr_change(dr, bdr);
            let news = r.dr != dr || r.bdr != bdr;
            let close = r.neighbor is ExStart || r.neighbor is Exchange || r.neighbor is Loading
                || r.neighbor is Full;
            &&& c is Unchanged <==> !news
            &&& c is Form <==> news && r.neighbor is TwoWay && next.viable()
            &&& c is Break <==> news && close && !next.viable()
            &&& r.with_election(dr, bdr) == next
        }),
{
}

} // verus!
