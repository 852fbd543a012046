//! Routers that talk BGP to each other, message by message.

use lr_router::addr::{IpAddr, NlriFamily, Prefix};
use lr_router::events::{
    BgpState, LogEntry, MaxPrefixAction, RouterError, RouterEvent, SessionSetting, Violation,
};
use lr_router::list::List;
use lr_router::ordmap::OrdMap;
use lr_router::ospf::adjacency::OspfNetworkType;
use lr_router::ospf::area::OspfAreaType;
use lr_router::ospf::facts::{IntraRoute, SpfFacts};
use lr_router::ospf::lsa::{InstallOutcome, Lsa, LsaContent, LsaHeader, LsaKey};
use lr_router::route::{
    AsSegment, Attributes, Preference, Protocol, RawAttribute, RecordKind, RecordStore, Route,
    RouteKey, RouteOrigin,
};
use lr_router::router::{DefaultRouter, LimitState};
use lr_router::session::{PeerConfig, PeerStatus, Session, SessionConfig, SessionKind, SummaryState};
use lr_router::task::{Answer, BgpAction, PeerEvent, RedistributionPipe, SelectionRule, Task};
use lr_router::timers::{decode_timer, encode_timer, TimerId};
use lr_router::value::Value;
use std::collections::BTreeMap;

const NO_EXPORT: u32 = 0xFFFF_FF01;
const NO_ADVERTISE: u32 = 0xFFFF_FF02;
const LLGR_STALE: u32 = 0xFFFF_0006;
const NO_LLGR: u32 = 0xFFFF_0007;

/// A message on the wire between two routers.
enum Message {
    Open { id: u32, asn: u32, add_path: bool, restart: Option<u16>, stale: Option<u32> },
    Keepalive,
    Announce(Route),
    Withdraw { key: RouteKey, path_id: u32 },
    EndOfRib(NlriFamily),
    Refresh(NlriFamily),
    Notification(u8, u8),
}

/// What a peer's OPEN said.
struct Remote {
    id: u32,
    asn: u32,
    add_path: bool,
    restart: Option<u16>,
    stale: Option<u32>,
}

/// The state machine of one peer.
struct Peer {
    state: BgpState,
    remote: Option<Remote>,
    out: Vec<Message>,
    received: u64,
    sent: u64,
}

type ImportHook = Box<dyn Fn(Route) -> Option<Route>>;
type ExportHook = Box<dyn Fn(Route, u64) -> Option<Route>>;

/// A router with its surroundings.
struct Node {
    r: DefaultRouter,
    peers: BTreeMap<u64, Peer>,
    import: ImportHook,
    export: ExportHook,
    lsdb: BTreeMap<(u16, u32, u32), Lsa>,
    mirrored: usize,
}

fn words(l: &List<u32>) -> Vec<u32> {
    l.to_vec()
}

fn path_of(r: &Route) -> Vec<u32> {
    let mut v = Vec::new();
    if let Some(path) = &r.attributes.as_path {
        for seg in path.to_vec() {
            v.extend(seg.asns.to_vec());
        }
    }
    v
}

fn sequence(asns: Vec<u32>) -> List<AsSegment> {
    if asns.is_empty() {
        List::Nil
    } else {
        List::from_vec(vec![AsSegment { kind: 2, asns: List::from_vec(asns) }])
    }
}

fn status_of(config: &PeerConfig, peer: &Peer) -> PeerStatus {
    let mut status = PeerStatus::new();
    status.state = peer.state;
    status.updates_received = peer.received;
    status.updates_sent = peer.sent;
    if let Some(remote) = &peer.remote {
        status.peer_bgp_id = Some(remote.id);
        status.peer_as = Some(remote.asn);
        status.hold_time = config.hold_time;
        if config.add_path && remote.add_path {
            status.add_path_tx = List::from_vec(vec![NlriFamily::ipv4_unicast()]);
        }
        if config.graceful_restart {
            status.restart_secs = remote.restart.unwrap_or(0);
        }
        if config.long_lived {
            if let Some(secs) = remote.stale {
                status.long_lived = true;
                status.stale_secs = List::from_vec(vec![(NlriFamily::ipv4_unicast(), secs)]);
            }
        }
    }
    status
}

fn config_of(r: &DefaultRouter, h: u64) -> &PeerConfig {
    match r.sessions.get(&h) {
        Some(Session::Bgp(b)) => &b.config,
        _ => panic!("no BGP session {}", h),
    }
}

fn open_of(config: &PeerConfig) -> Message {
    Message::Open {
        id: config.local_bgp_id,
        asn: config.local_as,
        add_path: config.add_path,
        restart: if config.graceful_restart { Some(config.graceful_restart_time) } else { None },
        stale: if config.long_lived { Some(config.long_lived_stale_time) } else { None },
    }
}

/// Ranks candidates: fresh ones first, then shorter AS paths, then lower peers;
/// by administrative distance across protocols.
fn rank(candidates: &List<Route>, rule: SelectionRule) -> Vec<usize> {
    let v = candidates.to_vec();
    let mut order: Vec<usize> = (0..v.len()).collect();
    match rule {
        SelectionRule::BestPath => order.sort_by_key(|i| {
            let stale = words(&v[*i].attributes.communities).contains(&LLGR_STALE);
            (stale, path_of(&v[*i]).len(), v[*i].origin.peer, v[*i].path_id)
        }),
        SelectionRule::AcrossProtocols => {
            order.sort_by_key(|i| v[*i].preference.admin_distance)
        }
    }
    order
}

fn allows(r: &Route) -> bool {
    let c = words(&r.attributes.communities);
    !c.contains(&NO_EXPORT) && !c.contains(&NO_ADVERTISE)
}

fn facts_of(lsdb: &BTreeMap<(u16, u32, u32), Lsa>) -> SpfFacts {
    let mut facts = SpfFacts::new();
    let there = lsdb.get(&(1, 0x02020202, 0x02020202)).is_some_and(|l| l.header.ls_age < 3600);
    if there {
        facts.intra.push(IntraRoute {
            prefix: Prefix::new_v4(0x0a0a0a00, 24),
            metric: 15,
            next_hop: Some(IpAddr::V4(0x0b0b0b01)),
        });
    }
    facts
}

fn view_of(lsdb: &BTreeMap<(u16, u32, u32), Lsa>) -> OrdMap<LsaKey, Lsa> {
    let mut m = OrdMap::new();
    for l in lsdb.values() {
        m.insert(l.key(), l.dup());
    }
    m
}

impl Node {
    fn new() -> Node {
        Node {
            r: DefaultRouter::new(),
            peers: BTreeMap::new(),
            import: Box::new(Some),
            export: Box::new(|r, _| Some(r)),
            lsdb: BTreeMap::new(),
            mirrored: 0,
        }
    }

    fn add(&mut self, cfg: SessionConfig) -> u64 {
        let bgp = matches!(cfg.kind, SessionKind::Bgp);
        let h = self.r.add_session(cfg).unwrap();
        if bgp {
            self.peers.insert(
                h,
                Peer { state: BgpState::Idle, remote: None, out: vec![], received: 0, sent: 0 },
            );
        }
        self.run();
        h
    }

    /// Works the agenda off.
    fn run(&mut self) {
        loop {
            let answer = match self.r.pending() {
                None => return,
                Some(task) => {
                    let r = &self.r;
                    let peers = &mut self.peers;
                    match task {
                        Task::CheckSafety { route } => {
                            let local = config_of(r, route.origin.peer).local_as;
                            Answer::Safety(if path_of(route).contains(&local) {
                                Some(Violation::AsLoop(format!("AS loop through {local}")))
                            } else {
                                None
                            })
                        }
                        Task::RunImport { route, .. } => Answer::Hooked((self.import)(route.dup())),
                        Task::Rank { candidates, rule, .. } => {
                            Answer::Ranked(rank(candidates, *rule))
                        }
                        Task::Filter { session, todo: List::Cons(route, _), .. } => {
                            let route = (self.export)(route.dup(), *session);
                            let allowed = route.as_ref().is_some_and(allows);
                            Answer::Exported { route, allowed }
                        }
                        Task::Offer { session, route, .. } => {
                            Answer::Hooked((self.export)(route.dup(), *session))
                        }
                        Task::Transmit { session, routes, .. } => {
                            let peer = peers.get_mut(session).unwrap();
                            let up = peer.state == BgpState::Established;
                            let mut sent = false;
                            for route in routes.to_vec() {
                                if up && allows(&route) {
                                    peer.sent += 1;
                                    peer.out.push(Message::Announce(route));
                                    sent = true;
                                }
                            }
                            Answer::Sent(sent)
                        }
                        Task::Retract { session, key, ids } => {
                            let peer = peers.get_mut(session).unwrap();
                            for id in ids.to_vec() {
                                peer.out.push(Message::Withdraw { key: *key, path_id: id });
                            }
                            peer.sent += 1;
                            Answer::Sent(true)
                        }
                        Task::Clear { session, key, ids } => {
                            let peer = peers.get_mut(session).unwrap();
                            for id in ids.to_vec() {
                                peer.out.push(Message::Withdraw { key: *key, path_id: id });
                            }
                            Answer::Done
                        }
                        Task::BeginRefresh { .. } => Answer::Sent(false),
                        Task::EndRefresh { session, .. } | Task::SendEndOfRib { session } => {
                            let peer = peers.get_mut(session).unwrap();
                            peer.sent += 1;
                            peer.out.push(Message::EndOfRib(NlriFamily::ipv4_unicast()));
                            Answer::Done
                        }
                        Task::Notify { session, subcode } => {
                            let peer = peers.get_mut(session).unwrap();
                            peer.out.push(Message::Notification(6, *subcode));
                            Answer::Done
                        }
                        Task::StepPeer { session, event } => {
                            let config = config_of(r, *session);
                            let peer = peers.get_mut(session).unwrap();
                            let mut actions = Vec::new();
                            match event {
                                PeerEvent::Start => {
                                    peer.state = BgpState::OpenSent;
                                    peer.remote = None;
                                    peer.out.clear();
                                    peer.out.push(open_of(config));
                                }
                                PeerEvent::CollisionStop { subcode } => {
                                    peer.out.clear();
                                    peer.out.push(Message::Notification(6, *subcode));
                                    peer.state = BgpState::Idle;
                                    actions.push(BgpAction::Close);
                                }
                                PeerEvent::TransportClosed | PeerEvent::Stop | PeerEvent::Timer(1) => {
                                    peer.state = BgpState::Idle;
                                    actions.push(BgpAction::Close);
                                }
                                PeerEvent::Timer(_) => {}
                            }
                            Answer::Stepped { status: status_of(config, peer), actions }
                        }
                        Task::AskPipe { route, .. } => {
                            Answer::Piped(Some(route.preference.metric))
                        }
                        Task::ApplyPlans { .. } | Task::AgeDatabases => Answer::Changed(false),
                        Task::InstallLsa { area, lsa, .. } => {
                            let k = lsa.key();
                            let old = self.lsdb.insert(
                                (k.ls_type, k.link_state_id, k.advertising_router),
                                lsa.dup(),
                            );
                            let outcome = if lsa.header.ls_age >= 3600 {
                                InstallOutcome::Purged
                            } else if old.is_some() {
                                InstallOutcome::Replaced
                            } else {
                                InstallOutcome::New
                            };
                            let (lsdb, facts) = (view_of(&self.lsdb), facts_of(&self.lsdb));
                            let area = *area;
                            self.r.refresh_area(area, lsdb, facts);
                            Answer::Installed(outcome)
                        }
                        Task::Mirror(_) => {
                            self.mirrored += 1;
                            Answer::Done
                        }
                        _ => Answer::Done,
                    }
                }
            };
            self.r.step(answer);
        }
    }

    fn start_session(&mut self, h: u64) {
        self.r.start_session(h).unwrap();
        self.run();
    }

    fn close_session(&mut self, h: u64) {
        self.r.close_session(h);
        self.run();
    }

    fn tick(&mut self, now: u64) {
        self.r.tick(now, &vec![]);
        self.run();
    }

    fn drain_output(&mut self, h: u64) -> Vec<Message> {
        std::mem::take(&mut self.peers.get_mut(&h).unwrap().out)
    }

    /// Feeds messages to the state machine of a session.
    fn feed_input(&mut self, h: u64, messages: Vec<Message>) {
        if messages.is_empty() {
            return;
        }
        let config = config_of(&self.r, h);
        let external = config.external;
        let peer = self.peers.get_mut(&h).unwrap();
        let prev = peer.state;
        let mut actions = Vec::new();
        for m in messages {
            match m {
                Message::Open { id, asn, add_path, restart, stale } => {
                    if peer.state == BgpState::OpenSent {
                        peer.remote = Some(Remote { id, asn, add_path, restart, stale });
                        peer.state = BgpState::OpenConfirm;
                        peer.out.push(Message::Keepalive);
                    }
                }
                Message::Keepalive => {
                    if peer.state == BgpState::OpenConfirm {
                        peer.state = BgpState::Established;
                    }
                }
                Message::Announce(route) => {
                    peer.received += 1;
                    let mut r = route;
                    if external {
                        let sender = peer.remote.as_ref().unwrap().asn;
                        let mut asns = vec![sender];
                        asns.extend(path_of(&r));
                        r.attributes.as_path = Some(sequence(asns));
                    }
                    r.origin = RouteOrigin { proto: 0, peer: h };
                    if !external {
                        r.origin.proto = 1;
                    }
                    actions.push(BgpAction::InstallRoute(r));
                }
                Message::Withdraw { key, path_id } => {
                    actions.push(BgpAction::WithdrawRoute { key, path_id });
                }
                Message::EndOfRib(family) => {
                    peer.received += 1;
                    actions.push(BgpAction::EndOfRib(family));
                }
                Message::Refresh(family) => {
                    actions.push(BgpAction::RouteRefreshRequested(family));
                }
                Message::Notification(_, _) => {
                    peer.state = BgpState::Idle;
                    actions.push(BgpAction::Close);
                }
            }
        }
        let status = status_of(config, peer);
        self.r.feed_bgp(h, prev, status, actions);
        self.run();
    }

    /// Feeds a route as the state machine would report it.
    fn feed_route(&mut self, h: u64, route: Route) {
        let config = config_of(&self.r, h);
        let peer = &self.peers[&h];
        let (prev, status) = (peer.state, status_of(config, peer));
        self.r.feed_bgp(h, prev, status, vec![BgpAction::InstallRoute(route)]);
        self.run();
    }

    fn originate(&mut self, prefix: Prefix, next_hop: Option<IpAddr>) -> RouteKey {
        let key = self.r.originate(prefix, next_hop);
        self.run();
        key
    }

    fn unoriginate(&mut self, key: &RouteKey) -> bool {
        let removed = self.r.unoriginate(key);
        self.run();
        removed
    }

    fn rib_len(&self) -> usize {
        self.r.rib_len()
    }

    fn set_session_policy(&mut self, h: u64, import: bool, export: bool) {
        self.r.set_session_policy(h, import, export).unwrap();
        self.run();
    }

    fn request_route_refresh(&mut self, h: u64, family: NlriFamily) -> bool {
        let peer = self.peers.get_mut(&h).unwrap();
        let accepted = peer.state == BgpState::Established;
        if accepted {
            peer.out.push(Message::Refresh(family));
        }
        let requested = self.r.request_route_refresh(h, accepted);
        self.run();
        requested
    }

    fn state(&self, h: u64) -> Option<&'static str> {
        self.r.session_peer_state(h).map(|s| s.name())
    }

    fn logs(&mut self) -> Vec<LogEntry> {
        let mut v = Vec::new();
        for e in self.r.poll_events() {
            if let RouterEvent::Log(l) = e {
                v.push(l);
            }
        }
        v
    }
}

/// A peer with every option at rest.
fn peer_config(local_as: u32, peer_as: u32, local_bgp_id: u32) -> PeerConfig {
    PeerConfig {
        peer_id: 0,
        local_as,
        peer_as,
        local_bgp_id,
        external: local_as != peer_as,
        hold_time: 90,
        keepalive: 30,
        asn4: true,
        route_refresh: true,
        enhanced_route_refresh: false,
        add_path: false,
        graceful_restart: false,
        graceful_restart_time: 0,
        long_lived: false,
        long_lived_stale_time: 0,
        mp_families: List::Nil,
        default_ipv4_unicast: true,
        local_as_tolerance: 0,
        soft_reconfig_inbound: false,
        local_address: None,
        extended_next_hop: List::Nil,
        maximum_prefix: None,
        maximum_prefix_action: MaxPrefixAction::Warn,
        maximum_prefix_threshold: 0,
        exchange_plane: None,
    }
}

/// A session of a kind with every other option at rest.
fn session_config(kind: SessionKind, peer: PeerConfig) -> SessionConfig {
    SessionConfig {
        kind,
        peer,
        llgr_max_stale_time: None,
        collision_group: None,
        locally_initiated: false,
        mrai_ms: 0,
        area_id: 0,
        area_type: OspfAreaType::Normal,
        mtu: 1500,
        network_type: OspfNetworkType::PointToPoint,
        interface_ip: None,
        neighbor_ip: None,
    }
}

fn v4(a: u8, b: u8, c: u8, d: u8) -> u32 {
    u32::from_be_bytes([a, b, c, d])
}

fn net(a: u8, b: u8, c: u8) -> Prefix {
    Prefix::new_v4(v4(a, b, c, 0), 24)
}

fn hop(d: u8) -> Option<IpAddr> {
    Some(IpAddr::V4(v4(192, 0, 2, d)))
}

fn bgp(local: u32, remote: u32, id: u32) -> SessionConfig {
    session_config(SessionKind::Bgp, peer_config(local, remote, id))
}

fn with_restart(mut cfg: SessionConfig, secs: u16) -> SessionConfig {
    cfg.peer.graceful_restart = secs > 0;
    cfg.peer.graceful_restart_time = secs;
    cfg
}

fn with_stale(mut cfg: SessionConfig, secs: u32) -> SessionConfig {
    cfg.peer.long_lived = true;
    cfg.peer.long_lived_stale_time = secs;
    cfg
}

fn ospf_session(router_id: u32, area: u32) -> SessionConfig {
    let mut cfg = session_config(SessionKind::Ospfv2, peer_config(0, 0, router_id));
    cfg.area_id = area;
    cfg
}

fn babel_session(address: IpAddr) -> SessionConfig {
    let mut cfg = session_config(SessionKind::Babel, peer_config(0, 0, 0));
    cfg.peer.local_address = Some(address);
    cfg
}

fn establish(a: &mut Node, ha: u64, b: &mut Node, hb: u64) {
    a.start_session(ha);
    b.start_session(hb);
    let a_open = a.drain_output(ha);
    let b_open = b.drain_output(hb);
    a.feed_input(ha, b_open);
    b.feed_input(hb, a_open);
    let a_keepalive = a.drain_output(ha);
    let b_keepalive = b.drain_output(hb);
    a.feed_input(ha, b_keepalive);
    b.feed_input(hb, a_keepalive);
}

/// Moves messages both ways until both ends are silent.
fn pump(a: &mut Node, ha: u64, b: &mut Node, hb: u64) {
    for _ in 0..32 {
        let ab = a.drain_output(ha);
        let ba = b.drain_output(hb);
        if ab.is_empty() && ba.is_empty() {
            return;
        }
        b.feed_input(hb, ab);
        a.feed_input(ha, ba);
    }
    panic!("the exchange did not end");
}

fn b_advertise_to_a(a: &mut Node, ha: u64, b: &mut Node, hb: u64) {
    b.originate(net(198, 51, 100), hop(10));
    let advertisement = b.drain_output(hb);
    assert!(!advertisement.is_empty());
    a.feed_input(ha, advertisement);
    assert_eq!(a.rib_len(), 1);
}

fn pair_of(ca: SessionConfig, cb: SessionConfig) -> (Node, u64, Node, u64) {
    let mut a = Node::new();
    let mut b = Node::new();
    let ha = a.add(ca);
    let hb = b.add(cb);
    (a, ha, b, hb)
}

fn ebgp_pair() -> (Node, u64, Node, u64) {
    pair_of(bgp(64512, 64513, v4(10, 0, 0, 1)), bgp(64513, 64512, v4(10, 0, 0, 2)))
}

fn ibgp_pair() -> (Node, u64, Node, u64) {
    pair_of(bgp(64512, 64512, v4(10, 0, 0, 1)), bgp(64512, 64512, v4(10, 0, 0, 2)))
}

fn llgr_pair() -> (Node, u64, Node, u64) {
    pair_of(
        with_stale(with_restart(bgp(64512, 64513, v4(10, 0, 0, 1)), 1), 10),
        with_stale(with_restart(bgp(64513, 64512, v4(10, 0, 0, 2)), 1), 20),
    )
}

fn best_has_llgr_stale(a: &Node) -> bool {
    let snap = a.r.rib_snapshot();
    assert_eq!(snap.len(), 1);
    words(&snap[0].attributes.communities).contains(&LLGR_STALE)
}

fn best_at(a: &Node, prefix: Prefix) -> Option<Route> {
    a.r.rib_snapshot().into_iter().find(|r| r.key.prefix == prefix)
}

fn announced(messages: &[Message]) -> usize {
    messages.iter().filter(|m| matches!(m, Message::Announce(_))).count()
}

fn notifications(messages: &[Message]) -> Vec<(u8, u8)> {
    let mut v = Vec::new();
    for m in messages {
        if let Message::Notification(code, sub) = m {
            v.push((*code, *sub));
        }
    }
    v
}

#[test]
fn add_and_remove_bgp_session() {
    let mut r = DefaultRouter::new();
    let h = r.add_session(bgp(64512, 64513, v4(10, 0, 0, 1))).unwrap();
    assert_eq!(h, 1);
    assert!(r.remove_session(h).is_ok());
    assert_eq!(r.remove_session(h), Err(RouterError::UnknownSession(1)));
}

#[test]
fn tick_drives_timers() {
    let mut a = Node::new();
    let _h = a.add(bgp(64512, 64513, v4(10, 0, 0, 1)));
    a.r.tick(50, &vec![]);
    a.run();
    a.r.tick(100, &vec![7]);
    a.run();
    assert_eq!(a.r.now_ms, 100);
}

#[test]
fn timer_encoding_roundtrips() {
    let t = encode_timer(42, TimerId(3));
    assert_eq!(decode_timer(t), (42, 3));
}

#[test]
fn originate_fills_rib() {
    let mut a = Node::new();
    let key = a.originate(net(203, 0, 113), None);
    assert_eq!(a.rib_len(), 1);
    a.unoriginate(&key);
    assert_eq!(a.rib_len(), 0);
}

#[test]
fn mrai_batches_prefix_reannouncements() {
    let mut ca = bgp(64512, 64513, v4(10, 0, 0, 1));
    ca.mrai_ms = 100;
    let (mut a, ha, mut b, hb) = pair_of(ca, bgp(64513, 64512, v4(10, 0, 0, 2)));
    establish(&mut a, ha, &mut b, hb);

    let key = a.originate(net(203, 0, 113), hop(1));
    let advertisement = a.drain_output(ha);
    assert!(!advertisement.is_empty());
    b.feed_input(hb, advertisement);
    assert_eq!(b.rib_len(), 1);

    a.unoriginate(&key);
    let withdrawal = a.drain_output(ha);
    assert!(!withdrawal.is_empty(), "withdrawals bypass the interval");
    b.feed_input(hb, withdrawal);
    let _replacement = a.originate(net(203, 0, 113), hop(2));
    assert!(a.drain_output(ha).is_empty());
    a.tick(99);
    assert!(a.drain_output(ha).is_empty());
    a.tick(100);
    let replacement = a.drain_output(ha);
    assert!(!replacement.is_empty());
    b.feed_input(hb, replacement);
    assert_eq!(b.rib_len(), 1);
}

#[test]
fn route_refresh_reannounces_current_family() {
    let (mut a, ha, mut b, hb) = ebgp_pair();
    establish(&mut a, ha, &mut b, hb);
    a.originate(net(203, 0, 113), hop(1));
    let initial_advertisement = a.drain_output(ha);
    b.feed_input(hb, initial_advertisement);
    assert_eq!(b.rib_len(), 1);

    assert!(b.request_route_refresh(hb, NlriFamily::ipv4_unicast()));
    let request = b.drain_output(hb);
    a.feed_input(ha, request);
    let refreshed = a.drain_output(ha);
    assert!(!refreshed.is_empty());
    b.feed_input(hb, refreshed);
    assert_eq!(b.rib_len(), 1);
}

#[test]
fn plain_gr_retains_then_purges() {
    let (mut a, ha, mut b, hb) = pair_of(
        with_restart(bgp(64512, 64513, v4(10, 0, 0, 1)), 1),
        with_restart(bgp(64513, 64512, v4(10, 0, 0, 2)), 1),
    );
    establish(&mut a, ha, &mut b, hb);
    b_advertise_to_a(&mut a, ha, &mut b, hb);
    a.tick(0);
    a.close_session(ha);
    a.tick(500);
    assert_eq!(a.rib_len(), 1, "still inside the restart window");
    a.tick(1_500);
    assert_eq!(a.rib_len(), 0, "restart window expired");
}

#[test]
fn llgr_marks_stale_then_purges_at_llst_expiry() {
    let (mut a, ha, mut b, hb) = llgr_pair();
    establish(&mut a, ha, &mut b, hb);
    b_advertise_to_a(&mut a, ha, &mut b, hb);
    a.tick(0);
    a.close_session(ha);
    a.tick(500);
    assert_eq!(a.rib_len(), 1, "retained inside the restart window");
    assert!(!best_has_llgr_stale(&a), "not yet long-lived stale");
    a.tick(1_500);
    assert_eq!(a.rib_len(), 1, "the route is retained");
    assert!(best_has_llgr_stale(&a), "marked stale");
    a.tick(20_999);
    assert_eq!(a.rib_len(), 1);
    a.tick(21_000);
    assert_eq!(a.rib_len(), 0, "long-lived stale time expired");
}

#[test]
fn llgr_reestablishment_with_eor_refreshes_routes() {
    let (mut a, ha, mut b, hb) = llgr_pair();
    establish(&mut a, ha, &mut b, hb);
    b_advertise_to_a(&mut a, ha, &mut b, hb);
    a.tick(0);
    a.close_session(ha);
    a.tick(1_500);
    assert!(best_has_llgr_stale(&a));

    establish(&mut a, ha, &mut b, hb);
    let b_dump = b.drain_output(hb);
    assert!(!b_dump.is_empty());
    a.feed_input(ha, b_dump);
    assert_eq!(a.rib_len(), 1);
    assert!(!best_has_llgr_stale(&a), "fresh route replaced the stale one");
    a.tick(60_000);
    assert_eq!(a.rib_len(), 1, "refreshed routes survive");
}

#[test]
fn llgr_eor_purges_unrefreshed_routes() {
    let (mut a, ha, mut b, hb) = llgr_pair();
    establish(&mut a, ha, &mut b, hb);
    b_advertise_to_a(&mut a, ha, &mut b, hb);
    let key = RouteKey::new(net(198, 51, 100), NlriFamily::ipv4_unicast());
    a.tick(0);
    a.close_session(ha);
    a.tick(1_500);
    b.unoriginate(&key);
    establish(&mut a, ha, &mut b, hb);
    let b_dump = b.drain_output(hb);
    a.feed_input(ha, b_dump);
    assert_eq!(a.rib_len(), 0, "stale route purged");
}

#[test]
fn llgr_no_llgr_routes_are_dropped() {
    let (mut a, ha, mut b, hb) = llgr_pair();
    a.import = Box::new(|mut r| {
        r.attributes.communities = r.attributes.communities.append(NO_LLGR);
        Some(r)
    });
    establish(&mut a, ha, &mut b, hb);
    b_advertise_to_a(&mut a, ha, &mut b, hb);
    a.tick(0);
    a.close_session(ha);
    a.tick(500);
    assert_eq!(a.rib_len(), 1, "retained inside the restart window");
    a.tick(1_500);
    assert_eq!(a.rib_len(), 0, "not retained beyond it");
}

#[test]
fn llgr_local_cap_limits_received_stale_time() {
    let mut ca = with_stale(with_restart(bgp(64512, 64513, v4(10, 0, 0, 1)), 1), 10);
    ca.llgr_max_stale_time = Some(5);
    let (mut a, ha, mut b, hb) =
        pair_of(ca, with_stale(with_restart(bgp(64513, 64512, v4(10, 0, 0, 2)), 1), 20));
    establish(&mut a, ha, &mut b, hb);
    b_advertise_to_a(&mut a, ha, &mut b, hb);
    a.tick(0);
    a.close_session(ha);
    a.tick(1_500);
    assert_eq!(a.rib_len(), 1, "still retained");
    a.tick(6_000);
    assert_eq!(a.rib_len(), 0, "the cap ended the retention early");
}

#[test]
fn fast_reestablishment_survives_restart_window_expiry() {
    let (mut a, ha, mut b, hb) = llgr_pair();
    establish(&mut a, ha, &mut b, hb);
    b_advertise_to_a(&mut a, ha, &mut b, hb);
    a.tick(0);
    a.close_session(ha);
    establish(&mut a, ha, &mut b, hb);
    let b_dump = b.drain_output(hb);
    a.feed_input(ha, b_dump);
    assert_eq!(a.rib_len(), 1);
    a.tick(30_000);
    assert_eq!(a.rib_len(), 1, "resynchronized routes survive expiry");
}

#[test]
fn llgr_timer_runs_during_resync_but_spares_refreshed_routes() {
    let (mut a, ha, mut b, hb) = llgr_pair();
    establish(&mut a, ha, &mut b, hb);
    b_advertise_to_a(&mut a, ha, &mut b, hb);
    let key = RouteKey::new(net(198, 51, 100), NlriFamily::ipv4_unicast());
    a.tick(0);
    a.close_session(ha);
    a.tick(1_500);
    assert_eq!(a.rib_len(), 1);
    b.unoriginate(&key);
    establish(&mut a, ha, &mut b, hb);
    let b_dump = b.drain_output(hb);
    a.feed_input(ha, b_dump);
    a.tick(21_500);
    assert_eq!(a.rib_len(), 0, "unrefreshed stale routes are removed");
}

#[test]
fn deadlines_spare_refreshed_routes_while_resynchronising() {
    let (mut a, ha, mut b, hb) = llgr_pair();
    establish(&mut a, ha, &mut b, hb);
    b.originate(net(198, 51, 100), hop(10));
    b.originate(net(198, 51, 101), hop(10));
    let advertisement = b.drain_output(hb);
    a.feed_input(ha, advertisement);
    assert_eq!(a.rib_len(), 2);
    a.tick(0);
    a.close_session(ha);
    a.tick(1_500);
    establish(&mut a, ha, &mut b, hb);
    // Only one of the two routes comes back, and no end-of-RIB marker.
    let mut dump = b.drain_output(hb);
    dump.retain(|m| match m {
        Message::Announce(r) => r.key.prefix == net(198, 51, 100),
        _ => false,
    });
    a.feed_input(ha, dump);
    assert_eq!(a.rib_len(), 2);
    a.tick(21_000);
    assert_eq!(a.rib_len(), 1);
    assert!(best_at(&a, net(198, 51, 100)).is_some());
}

#[test]
fn session_summaries_track_bgp_lifecycle() {
    let (mut a, ha, mut b, hb) = ebgp_pair();
    let s = a.r.session_summaries();
    assert_eq!(s.len(), 1);
    assert_eq!(s[0].handle, ha);
    assert_eq!(s[0].kind, SessionKind::Bgp);
    assert_eq!(s[0].state, SummaryState::Bgp(BgpState::Idle));
    assert!(!s[0].established);
    assert_eq!(s[0].local_as, 64512);
    assert_eq!(s[0].peer_as, 64513);
    assert_eq!(s[0].peer_bgp_id, None);
    assert_eq!(s[0].adj_rib_in_len, 0);

    establish(&mut a, ha, &mut b, hb);
    let s = a.r.session_summaries();
    assert_eq!(s[0].state, SummaryState::Bgp(BgpState::Established));
    assert!(s[0].established);
    assert_eq!(s[0].peer_bgp_id, Some(v4(10, 0, 0, 2)));
    assert!(s[0].negotiated_hold_time > 0);

    b_advertise_to_a(&mut a, ha, &mut b, hb);
    let s = a.r.session_summaries();
    assert_eq!(s[0].adj_rib_in_len, 1);

    a.close_session(ha);
    a.tick(0);
    let s = a.r.session_summaries();
    assert_eq!(s[0].state, SummaryState::Bgp(BgpState::Idle));
    assert!(!s[0].established);
    assert_eq!(s[0].adj_rib_in_len, 0);
}

#[test]
fn session_summaries_count_updates() {
    let (mut a, ha, mut b, hb) = ebgp_pair();
    let s = &a.r.session_summaries()[0];
    assert_eq!((s.updates_received, s.updates_sent), (0, 0));

    establish(&mut a, ha, &mut b, hb);
    let a_out = a.drain_output(ha);
    let b_out = b.drain_output(hb);
    a.feed_input(ha, b_out);
    b.feed_input(hb, a_out);
    let s = &a.r.session_summaries()[0];
    assert_eq!(s.updates_received, 1, "the marker of B arrives");
    assert_eq!(s.updates_sent, 1, "A's own marker");
    let s = &b.r.session_summaries()[0];
    assert_eq!(s.updates_received, 1);
    assert_eq!(s.updates_sent, 1);

    b_advertise_to_a(&mut a, ha, &mut b, hb);
    let s = &a.r.session_summaries()[0];
    assert_eq!(s.updates_received, 2, "marker and advertisement");
    // B's state machine reports its counters with its next step.
    b.feed_input(hb, vec![Message::Keepalive]);
    let s = &b.r.session_summaries()[0];
    assert_eq!(s.updates_sent, 2);

    a.close_session(ha);
    a.tick(0);
    let s = &a.r.session_summaries()[0];
    assert_eq!(s.updates_received, 2, "counters survive");
    assert_eq!(s.state, SummaryState::Bgp(BgpState::Idle));
}

#[test]
fn session_summaries_list_multiple_sessions_in_order() {
    let mut a = Node::new();
    a.add(bgp(64512, 64513, v4(10, 0, 0, 1)));
    a.add(ospf_session(0x01020304, 0));
    a.add(babel_session(IpAddr::V4(v4(192, 0, 2, 1))));
    let s = a.r.session_summaries();
    assert_eq!(s.len(), 3);
    assert_eq!(s[0].handle, 1);
    assert_eq!(s[0].kind, SessionKind::Bgp);
    assert_eq!(s[1].handle, 2);
    assert_eq!(s[1].kind, SessionKind::Ospfv2);
    match s[1].state {
        SummaryState::Ospf(n) => assert_eq!(n.name(), "Down"),
        _ => panic!("an OSPF session"),
    }
    assert_eq!(s[2].handle, 3);
    assert_eq!(s[2].kind, SessionKind::Babel);
    assert_eq!(s[2].state, SummaryState::Babel { up: false });
    assert!(!s.iter().any(|x| x.established));
}

#[test]
fn rfc8212_off_by_default_keeps_rfc4271_behaviour() {
    let (mut a, ha, mut b, hb) = ebgp_pair();
    establish(&mut a, ha, &mut b, hb);
    b_advertise_to_a(&mut a, ha, &mut b, hb);
    assert_eq!(a.rib_len(), 1);
}

#[test]
fn rfc8212_ebgp_import_denied_without_policy() {
    let (mut a, ha, mut b, hb) = ebgp_pair();
    a.r.set_ebgp_requires_policy(true);
    establish(&mut a, ha, &mut b, hb);
    b.originate(net(198, 51, 100), hop(10));
    let advertisement = b.drain_output(hb);
    assert!(!advertisement.is_empty());
    a.feed_input(ha, advertisement);
    assert_eq!(a.rib_len(), 0, "nothing reaches the Loc-RIB");
    b.originate(net(198, 51, 101), hop(10));
    let advertisement = b.drain_output(hb);
    a.feed_input(ha, advertisement);
    let denials: Vec<LogEntry> = a
        .logs()
        .into_iter()
        .filter(|l| matches!(l, LogEntry::NoImportPolicy { .. }))
        .collect();
    assert_eq!(
        denials,
        vec![LogEntry::NoImportPolicy { session: ha, prefix: net(198, 51, 100) }],
        "the denial is surfaced once"
    );
}

#[test]
fn rfc8212_ebgp_import_allowed_with_explicit_policy() {
    let (mut a, ha, mut b, hb) = ebgp_pair();
    a.r.set_ebgp_requires_policy(true);
    a.set_session_policy(ha, true, false);
    establish(&mut a, ha, &mut b, hb);
    b_advertise_to_a(&mut a, ha, &mut b, hb);
    assert_eq!(a.rib_len(), 1);
}

#[test]
fn rfc8212_ebgp_export_denied_without_policy() {
    let (mut a, ha, mut b, hb) = ebgp_pair();
    a.r.set_ebgp_requires_policy(true);
    establish(&mut a, ha, &mut b, hb);
    assert!(a.logs().contains(&LogEntry::NoExportPolicy { session: ha }));
    a.originate(net(203, 0, 113), hop(1));
    let messages = a.drain_output(ha);
    assert_eq!(announced(&messages), 0);
    b.feed_input(hb, messages);
    assert_eq!(b.rib_len(), 0, "nothing is advertised");
}

#[test]
fn rfc8212_ebgp_export_allowed_with_explicit_policy() {
    let (mut a, ha, mut b, hb) = ebgp_pair();
    a.r.set_ebgp_requires_policy(true);
    a.set_session_policy(ha, false, true);
    establish(&mut a, ha, &mut b, hb);
    a.originate(net(203, 0, 113), hop(1));
    let advertisement = a.drain_output(ha);
    assert!(!advertisement.is_empty());
    b.feed_input(hb, advertisement);
    assert_eq!(b.rib_len(), 1);
}

#[test]
fn rfc8212_spared_for_ibgp() {
    let (mut a, ha, mut b, hb) = ibgp_pair();
    a.r.set_ebgp_requires_policy(true);
    b.r.set_ebgp_requires_policy(true);
    establish(&mut a, ha, &mut b, hb);
    b_advertise_to_a(&mut a, ha, &mut b, hb);
    assert_eq!(a.rib_len(), 1);
    a.originate(net(203, 0, 113), hop(1));
    let advertisement = a.drain_output(ha);
    assert!(!advertisement.is_empty());
    b.feed_input(hb, advertisement);
    assert!(best_at(&b, net(203, 0, 113)).is_some(), "internal sessions need no policy");
}

#[test]
fn rfc8212_export_policy_removal_withdraws_advertised_routes() {
    let (mut a, ha, mut b, hb) = ebgp_pair();
    a.r.set_ebgp_requires_policy(true);
    a.set_session_policy(ha, false, true);
    establish(&mut a, ha, &mut b, hb);
    a.originate(net(203, 0, 113), hop(1));
    let advertisement = a.drain_output(ha);
    b.feed_input(hb, advertisement);
    assert_eq!(b.rib_len(), 1);
    a.set_session_policy(ha, false, false);
    let withdrawal = a.drain_output(ha);
    assert!(!withdrawal.is_empty());
    b.feed_input(hb, withdrawal);
    assert_eq!(b.rib_len(), 0);
}

#[test]
fn rfc8212_unknown_session_rejected() {
    let mut r = DefaultRouter::new();
    assert_eq!(r.set_session_policy(99, true, true), Err(RouterError::UnknownSession(99)));
}

#[test]
fn enforce_first_as_disabled_by_default_accepts_mismatch() {
    let (mut a, ha, mut b, hb) = ebgp_pair();
    establish(&mut a, ha, &mut b, hb);
    assert!(!a.r.enforce_first_as());
    b_advertise_to_a(&mut a, ha, &mut b, hb);
    assert_eq!(a.rib_len(), 1);
    assert!(!a.logs().iter().any(|l| matches!(l, LogEntry::FirstAsRejected { .. })));
}

#[test]
fn enforce_first_as_accepts_correct_first_as() {
    let (mut a, ha, mut b, hb) = ebgp_pair();
    a.r.set_enforce_first_as(true);
    establish(&mut a, ha, &mut b, hb);
    b_advertise_to_a(&mut a, ha, &mut b, hb);
    assert_eq!(a.rib_len(), 1, "admitted");
    assert!(!a.logs().iter().any(|l| matches!(l, LogEntry::FirstAsRejected { .. })));
}

/// A route as the state machine of session `h` reports it.
fn received(h: u64, prefix: Prefix, asns: Vec<u32>) -> Route {
    let mut attributes = Attributes::new_local();
    attributes.as_path = Some(sequence(asns));
    attributes.next_hop = hop(10);
    Route {
        key: RouteKey::new(prefix, NlriFamily::ipv4_unicast()),
        origin: RouteOrigin { proto: 0, peer: h },
        protocol: Protocol::Bgp,
        preference: Preference { admin_distance: 20, metric: 0 },
        next_hop: hop(10),
        attributes,
        age_ms: 0,
        path_id: 0,
        tag: None,
    }
}

#[test]
fn enforce_first_as_rejects_mismatched_first_as() {
    let (mut a, ha, mut b, hb) = ebgp_pair();
    a.r.set_enforce_first_as(true);
    establish(&mut a, ha, &mut b, hb);
    a.feed_route(ha, received(ha, net(198, 51, 100), vec![64520]));
    assert_eq!(a.rib_len(), 0, "dropped before the Adj-RIB-In");
    a.feed_route(ha, received(ha, net(198, 51, 101), vec![64520]));
    assert_eq!(a.rib_len(), 0);
    let refusals: Vec<LogEntry> = a
        .logs()
        .into_iter()
        .filter(|l| matches!(l, LogEntry::FirstAsRejected { .. }))
        .collect();
    assert_eq!(
        refusals,
        vec![LogEntry::FirstAsRejected {
            session: ha,
            prefix: net(198, 51, 100),
            first: 64520,
            peer_as: 64513,
        }],
        "the rejection is surfaced once per session"
    );
}

#[test]
fn first_as_is_sought_in_ordered_segments_only() {
    let (mut a, ha, mut b, hb) = ebgp_pair();
    a.r.set_enforce_first_as(true);
    establish(&mut a, ha, &mut b, hb);
    let mut r = received(ha, net(198, 51, 100), vec![]);
    r.attributes.as_path = Some(List::from_vec(vec![
        AsSegment { kind: 1, asns: List::from_vec(vec![64999]) },
        AsSegment { kind: 2, asns: List::Nil },
        AsSegment { kind: 3, asns: List::from_vec(vec![64513, 64999]) },
    ]));
    a.feed_route(ha, r);
    assert_eq!(a.rib_len(), 1);
    let mut r = received(ha, net(198, 51, 101), vec![]);
    r.attributes.as_path =
        Some(List::from_vec(vec![AsSegment { kind: 1, asns: List::from_vec(vec![64999]) }]));
    a.feed_route(ha, r);
    assert_eq!(a.rib_len(), 2, "a set has no first AS");
    let mut r = received(ha, net(198, 51, 102), vec![]);
    r.attributes.as_path = Some(List::from_vec(vec![
        AsSegment { kind: 1, asns: List::from_vec(vec![64520]) },
        AsSegment { kind: 2, asns: List::from_vec(vec![64521]) },
    ]));
    assert_eq!(a.r.check_first_as(&r), None, "neither with a sequence behind it");
    a.feed_route(ha, r);
    assert_eq!(a.rib_len(), 3);
    let mut r = received(ha, net(198, 51, 103), vec![]);
    r.attributes.as_path = Some(List::from_vec(vec![
        AsSegment { kind: 2, asns: List::Nil },
        AsSegment { kind: 2, asns: List::from_vec(vec![64521]) },
    ]));
    assert_eq!(a.r.check_first_as(&r), Some((64521, 64513)));
    a.feed_route(ha, r);
    assert_eq!(a.rib_len(), 3, "an empty sequence is passed over");
}

#[test]
fn enforce_first_as_spared_for_ibgp() {
    let (mut a, ha, mut b, hb) = ibgp_pair();
    a.r.set_enforce_first_as(true);
    b.r.set_enforce_first_as(true);
    establish(&mut a, ha, &mut b, hb);
    b.originate(net(198, 51, 100), hop(10));
    let advertisement = b.drain_output(hb);
    a.feed_input(ha, advertisement);
    assert_eq!(a.rib_len(), 1, "internal routes are exempt");
    assert!(!a.logs().iter().any(|l| matches!(l, LogEntry::FirstAsRejected { .. })));
}

fn advertise_with_local_as_loop(a: &mut Node, ha: u64, local_as: u32, count: usize) {
    let mut asns = vec![64513];
    for _ in 0..count {
        asns.push(local_as);
    }
    a.feed_route(ha, received(ha, net(198, 51, 100), asns));
}

#[test]
fn allow_local_as_zero_rejects_local_as_in_path() {
    let (mut a, ha, mut b, hb) = ebgp_pair();
    establish(&mut a, ha, &mut b, hb);
    advertise_with_local_as_loop(&mut a, ha, 64512, 1);
    assert_eq!(a.rib_len(), 0, "rejected by default");
    assert!(a.logs().contains(&LogEntry::SafetyRejected {
        prefix: net(198, 51, 100),
        violation: Violation::AsLoop("AS loop through 64512".to_string()),
    }));
}

#[test]
fn allow_local_as_one_admits_single_occurrence() {
    let (mut a, ha, mut b, hb) = ebgp_pair();
    a.r.set_session_local_as_tolerance(ha, 1).unwrap();
    establish(&mut a, ha, &mut b, hb);
    advertise_with_local_as_loop(&mut a, ha, 64512, 1);
    assert_eq!(a.rib_len(), 1, "admitted");
}

#[test]
fn allow_local_as_one_rejects_two_occurrences() {
    let (mut a, ha, mut b, hb) = ebgp_pair();
    a.r.set_session_local_as_tolerance(ha, 1).unwrap();
    establish(&mut a, ha, &mut b, hb);
    advertise_with_local_as_loop(&mut a, ha, 64512, 2);
    assert_eq!(a.rib_len(), 0, "rejected");
    assert!(a.logs().contains(&LogEntry::LocalAsExceeded {
        prefix: net(198, 51, 100),
        count: 2,
        tolerance: 1,
    }));
}

#[test]
fn allow_local_as_any_admits_arbitrary_count() {
    let (mut a, ha, mut b, hb) = ebgp_pair();
    a.r.set_session_local_as_tolerance(ha, u32::MAX).unwrap();
    establish(&mut a, ha, &mut b, hb);
    advertise_with_local_as_loop(&mut a, ha, 64512, 5);
    assert_eq!(a.rib_len(), 1, "any number admitted");
}

#[test]
fn set_session_local_as_tolerance_rejects_unknown_handle() {
    let mut r = DefaultRouter::new();
    assert_eq!(r.set_session_local_as_tolerance(99, 1), Err(RouterError::NotBgp(99)));
}

#[test]
fn set_session_local_as_tolerance_after_start_fails() {
    let (mut a, ha, mut b, hb) = ebgp_pair();
    establish(&mut a, ha, &mut b, hb);
    assert_eq!(
        a.r.set_session_local_as_tolerance(ha, 1),
        Err(RouterError::AlreadyEstablished {
            session: ha,
            setting: SessionSetting::LocalAsTolerance,
        })
    );
}

#[test]
fn configuration_is_taken_before_establishment_only() {
    let (mut a, ha, mut b, hb) = ebgp_pair();
    a.r.set_session_add_path(ha, true).unwrap();
    a.r.set_session_extended_next_hop(ha, List::from_vec(vec![(1, (1, 2))])).unwrap();
    a.r.set_session_mp_families(ha, List::from_vec(vec![NlriFamily::ipv6_unicast()])).unwrap();
    a.r.set_session_local_address(ha, IpAddr::V4(7)).unwrap();
    a.r.set_session_default_ipv4_unicast(ha, false).unwrap();
    a.r.set_session_exchange_plane(ha, List::from_vec(vec![1, 2])).unwrap();
    let c = config_of(&a.r, ha);
    assert!(c.add_path);
    assert_eq!(c.extended_next_hop.to_vec(), vec![(1, (1, 2))]);
    assert_eq!(c.mp_families.to_vec(), vec![NlriFamily::ipv6_unicast()]);
    assert_eq!(c.local_address, Some(IpAddr::V4(7)));
    assert!(!c.default_ipv4_unicast);
    assert_eq!(c.exchange_plane.as_ref().unwrap().to_vec(), vec![1, 2]);
    assert_eq!(c.peer_id, ha);
    establish(&mut a, ha, &mut b, hb);
    let refused =
        |setting| Err(RouterError::AlreadyEstablished { session: ha, setting });
    assert_eq!(a.r.set_session_add_path(ha, false), refused(SessionSetting::AddPath));
    assert_eq!(
        a.r.set_session_extended_next_hop(ha, List::Nil),
        refused(SessionSetting::ExtendedNextHop)
    );
    assert_eq!(
        a.r.set_session_mp_families(ha, List::Nil),
        refused(SessionSetting::MpFamilies)
    );
    assert_eq!(
        a.r.set_session_local_address(ha, IpAddr::V4(8)),
        refused(SessionSetting::LocalAddress)
    );
    assert_eq!(
        a.r.set_session_default_ipv4_unicast(ha, true),
        refused(SessionSetting::DefaultIpv4Unicast)
    );
    assert_eq!(
        a.r.set_session_exchange_plane(ha, List::Nil),
        refused(SessionSetting::ExchangePlane)
    );
    assert!(config_of(&a.r, ha).add_path);
}

#[test]
fn soft_reconfig_inbound_retains_pre_policy_view() {
    let (mut a, ha, mut b, hb) = ebgp_pair();
    a.r.set_session_soft_reconfig_inbound(ha, true).unwrap();
    a.import = Box::new(|_| None);
    establish(&mut a, ha, &mut b, hb);
    b.originate(net(198, 51, 100), hop(10));
    let advertisement = b.drain_output(hb);
    a.feed_input(ha, advertisement);
    assert_eq!(a.rib_len(), 0, "the hook dropped the route");
    let snapshot = a.r.adj_rib_in_snapshot(ha);
    assert_eq!(snapshot.len(), 1, "the raw route is retained");
    assert_eq!(snapshot[0].key.prefix, net(198, 51, 100));
}

#[test]
fn soft_reconfig_inbound_off_does_not_retain() {
    let (mut a, ha, mut b, hb) = ebgp_pair();
    establish(&mut a, ha, &mut b, hb);
    b_advertise_to_a(&mut a, ha, &mut b, hb);
    assert!(a.r.adj_rib_in_snapshot(ha).is_empty());
}

#[test]
fn soft_reconfig_inbound_re_evaluates_after_policy_change() {
    let (mut a, ha, mut b, hb) = ebgp_pair();
    a.r.set_session_soft_reconfig_inbound(ha, true).unwrap();
    a.import = Box::new(|_| None);
    establish(&mut a, ha, &mut b, hb);
    b.originate(net(198, 51, 100), hop(10));
    let advertisement = b.drain_output(hb);
    a.feed_input(ha, advertisement);
    assert_eq!(a.rib_len(), 0);
    a.import = Box::new(Some);
    let n = a.r.soft_reconfig_inbound(ha).unwrap();
    a.run();
    assert_eq!(n, 1, "one route re-evaluated");
    assert_eq!(a.rib_len(), 1, "route admitted");
    assert!(a.logs().contains(&LogEntry::SoftReconfig { session: ha, routes: 1 }));
}

#[test]
fn reconfiguration_counts_every_route_it_evaluates() {
    let (mut a, ha, mut b, hb) = ebgp_pair();
    a.r.set_session_soft_reconfig_inbound(ha, true).unwrap();
    establish(&mut a, ha, &mut b, hb);
    b.originate(net(198, 51, 100), hop(10));
    b.originate(net(198, 51, 101), hop(10));
    let advertisement = b.drain_output(hb);
    a.feed_input(ha, advertisement);
    assert_eq!(a.rib_len(), 2);
    a.import = Box::new(|r| if r.key.prefix == net(198, 51, 100) { None } else { Some(r) });
    let n = a.r.soft_reconfig_inbound(ha).unwrap();
    a.run();
    assert_eq!(n, 2);
    assert_eq!(a.rib_len(), 1);
    assert_eq!(a.r.limits.get(&ha).map(|l| l.count), Some(1));
}

#[test]
fn refused_routes_are_not_admitted_by_a_reconfiguration() {
    let (mut a, ha, mut b, hb) = ebgp_pair();
    a.r.set_session_soft_reconfig_inbound(ha, true).unwrap();
    a.r.set_enforce_first_as(true);
    establish(&mut a, ha, &mut b, hb);
    advertise_with_local_as_loop(&mut a, ha, 64512, 1);
    a.feed_route(ha, received(ha, net(198, 51, 101), vec![64520]));
    assert_eq!(a.rib_len(), 0, "the safety net and the first AS refuse them");
    assert_eq!(a.r.adj_rib_in_snapshot(ha).len(), 2, "they are retained as received");
    assert_eq!(a.r.soft_reconfig_inbound(ha), Ok(0));
    a.run();
    assert_eq!(a.rib_len(), 0, "they stay refused");
    a.feed_route(ha, received(ha, net(198, 51, 102), vec![64513]));
    assert_eq!(a.r.soft_reconfig_inbound(ha), Ok(1));
    a.run();
    assert_eq!(a.rib_len(), 1);
}

#[test]
fn routes_without_import_policy_stay_out_of_a_reconfiguration() {
    let (mut a, ha, mut b, hb) = ebgp_pair();
    a.r.set_session_soft_reconfig_inbound(ha, true).unwrap();
    a.r.set_ebgp_requires_policy(true);
    establish(&mut a, ha, &mut b, hb);
    a.feed_route(ha, received(ha, net(198, 51, 100), vec![64513]));
    assert_eq!(a.r.adj_rib_in_snapshot(ha).len(), 1);
    assert_eq!(a.r.soft_reconfig_inbound(ha), Ok(0));
    a.run();
    assert_eq!(a.rib_len(), 0);
}

#[test]
fn a_refused_announcement_ends_the_reevaluation_of_its_path() {
    let (mut a, ha, mut b, hb) = ebgp_pair();
    a.r.set_session_soft_reconfig_inbound(ha, true).unwrap();
    establish(&mut a, ha, &mut b, hb);
    a.feed_route(ha, received(ha, net(198, 51, 100), vec![64513]));
    assert_eq!(a.rib_len(), 1);
    advertise_with_local_as_loop(&mut a, ha, 64512, 1);
    assert_eq!(a.r.soft_reconfig_inbound(ha), Ok(0));
    a.run();
    assert_eq!(a.rib_len(), 0, "the latest instance of the path is refused");
}

#[test]
fn soft_reconfig_inbound_noop_when_flag_off() {
    let (mut a, ha, mut b, hb) = ebgp_pair();
    establish(&mut a, ha, &mut b, hb);
    b_advertise_to_a(&mut a, ha, &mut b, hb);
    assert_eq!(a.r.soft_reconfig_inbound(ha), Ok(0));
}

#[test]
fn soft_reconfig_inbound_unknown_handle_noop() {
    let mut r = DefaultRouter::new();
    assert_eq!(r.soft_reconfig_inbound(999), Ok(0));
}

#[test]
fn set_session_soft_reconfig_inbound_rejects_unknown_handle() {
    let mut r = DefaultRouter::new();
    assert_eq!(r.set_session_soft_reconfig_inbound(99, true), Err(RouterError::NotBgp(99)));
}

#[test]
fn set_session_soft_reconfig_inbound_after_start_fails() {
    let (mut a, ha, mut b, hb) = ebgp_pair();
    establish(&mut a, ha, &mut b, hb);
    assert_eq!(
        a.r.set_session_soft_reconfig_inbound(ha, true),
        Err(RouterError::AlreadyEstablished {
            session: ha,
            setting: SessionSetting::SoftReconfigInbound,
        })
    );
}

#[test]
fn fsm_close_purges_peer_routes_from_loc_rib() {
    let (mut a, ha, mut b, hb) = ebgp_pair();
    establish(&mut a, ha, &mut b, hb);
    b_advertise_to_a(&mut a, ha, &mut b, hb);
    assert_eq!(a.rib_len(), 1);
    // The hold timer expires.
    a.r.tick(1, &vec![encode_timer(ha, TimerId(1)).0]);
    a.run();
    assert_eq!(a.rib_len(), 0, "the routes go with the session");
    assert!(a.r.adj_in.is_empty());
    assert!(!a.r.session_summaries()[0].established, "latch cleared");
}

#[test]
fn unoriginate_restores_beaten_peer_path() {
    let (mut a, ha, mut b, hb) = ebgp_pair();
    establish(&mut a, ha, &mut b, hb);
    b_advertise_to_a(&mut a, ha, &mut b, hb);
    let key = a.originate(net(198, 51, 100), None);
    assert_eq!(best_at(&a, net(198, 51, 100)).unwrap().origin.proto, 2);
    assert!(a.unoriginate(&key));
    let best = best_at(&a, net(198, 51, 100)).expect("peer path restored");
    assert_eq!(best.origin.proto, 0);
    assert_eq!(best.origin.peer, ha);
    assert!(!a.unoriginate(&key), "nothing left to withdraw");
}

#[test]
fn established_dump_does_not_readvertise_retained_route_to_origin() {
    let (mut a, ha, mut b, hb) = llgr_pair();
    establish(&mut a, ha, &mut b, hb);
    b_advertise_to_a(&mut a, ha, &mut b, hb);
    assert_eq!(a.rib_len(), 1);
    a.tick(0);
    a.close_session(ha);
    a.tick(500);
    assert_eq!(a.rib_len(), 1, "retained");
    let key = RouteKey::new(net(198, 51, 100), NlriFamily::ipv4_unicast());
    b.unoriginate(&key);
    establish(&mut a, ha, &mut b, hb);
    let a_dump = a.drain_output(ha);
    assert!(!a_dump.is_empty(), "a dump follows establishment");
    assert!(a.r.adj_out.is_empty(), "nothing was sent");
    b.feed_input(hb, a_dump);
    assert_eq!(b.rib_len(), 0, "B never re-learns its own route");
    assert!(b.r.adj_in.is_empty());
}

#[test]
fn max_prefix_cease_uses_subcode_1() {
    let mut ca = bgp(64512, 64513, v4(10, 0, 0, 1));
    ca.peer.maximum_prefix = Some(1);
    ca.peer.maximum_prefix_action = MaxPrefixAction::Teardown;
    let (mut a, ha, mut b, hb) = pair_of(ca, bgp(64513, 64512, v4(10, 0, 0, 2)));
    establish(&mut a, ha, &mut b, hb);
    let _ = a.drain_output(ha);
    for prefix in [net(203, 0, 113), net(198, 51, 100)] {
        b.originate(prefix, hop(10));
        let advertisement = b.drain_output(hb);
        assert!(!advertisement.is_empty());
        a.feed_input(ha, advertisement);
    }
    assert_eq!(notifications(&a.drain_output(ha)), vec![(6, 1)]);
    assert_eq!(a.state(ha), Some("Idle"), "the session is closed");
    assert_eq!(a.rib_len(), 0);
}

#[test]
fn nothing_is_taken_from_a_session_over_its_limit() {
    let mut ca = bgp(64512, 64513, v4(10, 0, 0, 1));
    ca.peer.maximum_prefix = Some(1);
    ca.peer.maximum_prefix_action = MaxPrefixAction::Restart;
    let (mut a, ha, mut b, hb) = pair_of(ca, bgp(64513, 64512, v4(10, 0, 0, 2)));
    establish(&mut a, ha, &mut b, hb);
    pump(&mut a, ha, &mut b, hb);
    for c in 0..4 {
        b.originate(net(198, 51, c), hop(10));
    }
    let advertisements = b.drain_output(hb);
    assert_eq!(announced(&advertisements), 4);
    a.feed_input(ha, advertisements);
    assert_eq!(a.state(ha), Some("Idle"));
    assert_eq!(a.rib_len(), 0, "what came after the limit is dropped");
    assert!(a.r.adj_in.is_empty());
    let exceeded = a.r.poll_events().into_iter().filter(|e| {
        matches!(
            e,
            RouterEvent::MaxPrefixExceeded { count: 2, action: MaxPrefixAction::Restart, .. }
        )
    });
    assert_eq!(exceeded.count(), 1);
    establish(&mut a, ha, &mut b, hb);
    assert_eq!(a.state(ha), Some("Established"), "it can start again");
}

#[test]
fn prefix_limits_warn_and_act_once() {
    let mut ca = bgp(64512, 64513, v4(10, 0, 0, 1));
    ca.peer.maximum_prefix = Some(4);
    ca.peer.maximum_prefix_threshold = 50;
    let (mut a, ha, mut b, hb) = pair_of(ca, bgp(64513, 64512, v4(10, 0, 0, 2)));
    establish(&mut a, ha, &mut b, hb);
    for i in 0..7u8 {
        a.feed_route(ha, received(ha, net(198, 51, i), vec![64513]));
    }
    let mut thresholds = vec![];
    let mut exceeded = vec![];
    for e in a.r.poll_events() {
        match e {
            RouterEvent::MaxPrefixThreshold { count, limit, pct, .. } => {
                thresholds.push((count, limit, pct))
            }
            RouterEvent::MaxPrefixExceeded { count, limit, action, .. } => {
                exceeded.push((count, limit, action))
            }
            _ => {}
        }
    }
    assert_eq!(thresholds, vec![(2, 4, 50)]);
    assert_eq!(exceeded, vec![(5, 4, MaxPrefixAction::Warn)]);
    assert!(notifications(&a.drain_output(ha)).is_empty(), "a warning closes nothing");
}

#[test]
fn redistribution_bgp_to_bgp_respects_split_horizon() {
    let mut a = Node::new();
    let mut b = Node::new();
    let mut c = Node::new();
    let ha = a.add(bgp(64512, 64513, v4(10, 0, 0, 1)));
    let hb = b.add(bgp(64513, 64512, v4(10, 0, 0, 2)));
    let ha2 = a.add(bgp(64512, 64514, v4(10, 0, 0, 1)));
    let hc = c.add(bgp(64514, 64512, v4(10, 0, 0, 3)));
    establish(&mut a, ha, &mut b, hb);
    establish(&mut a, ha2, &mut c, hc);
    let _ = a.drain_output(ha);
    let _ = a.drain_output(ha2);
    a.r.add_redistribution_pipe(RedistributionPipe {
        id: 1,
        source: Protocol::Bgp,
        target: Protocol::Bgp,
        tag: 0,
    });
    a.run();

    let p = net(203, 0, 113);
    b.originate(p, hop(2));
    let advertisement = b.drain_output(hb);
    assert!(!advertisement.is_empty());
    a.feed_input(ha, advertisement);
    let to_c = a.drain_output(ha2);
    assert!(!to_c.is_empty(), "the third party receives the route");
    c.feed_input(hc, to_c);
    assert_eq!(c.rib_len(), 1);
    assert!(a.drain_output(ha).is_empty(), "the origin does not");
    assert!(b.r.adj_in.is_empty());
}

#[test]
fn remove_session_cleans_up_bookkeeping() {
    let (mut a, ha, mut b, hb) = ebgp_pair();
    a.r.set_session_soft_reconfig_inbound(ha, true).unwrap();
    establish(&mut a, ha, &mut b, hb);
    b_advertise_to_a(&mut a, ha, &mut b, hb);
    a.originate(net(203, 0, 113), hop(1));
    let advertisement = a.drain_output(ha);
    assert!(!advertisement.is_empty());
    assert!(!a.r.adj_out.is_empty(), "A advertised its route");
    assert_eq!(a.r.adj_in.len(), 1);
    assert_eq!(a.r.adj_rib_in_snapshot(ha).len(), 1);
    a.r.llgr_caps.insert(ha, 5);
    a.r.limits.insert(ha, LimitState { exceeded: false, warned: false, count: 1 });

    a.r.remove_session(ha).unwrap();
    a.run();
    assert!(a.r.adj_in.is_empty());
    assert!(a.r.adj_rib_in_snapshot(ha).is_empty());
    assert!(a.r.adj_out.is_empty());
    assert!(!a.r.llgr_caps.contains_key(&ha));
    assert!(!a.r.limits.contains_key(&ha));
    assert!(!a.r.mrai_interval.contains_key(&ha));
    assert_eq!(a.rib_len(), 1, "the own route stays");
}

fn records(kind: RecordKind, octet: u8) -> Option<RecordStore> {
    Some(RecordStore { kind, value: List::from_vec(vec![octet]) })
}

#[test]
fn exchange_plane_records_surface_on_import() {
    let (mut a, ha, mut b, hb) = ebgp_pair();
    a.r.set_session_exchange_plane(ha, List::from_vec(vec![1])).unwrap();
    b.r.set_session_exchange_plane(hb, List::from_vec(vec![2])).unwrap();
    establish(&mut a, ha, &mut b, hb);
    let mut r = received(hb, net(203, 0, 113), vec![64512]);
    r.attributes.records = records(RecordKind::Verified { records: 2 }, 9);
    b.feed_route(hb, r);
    assert_eq!(b.rib_len(), 1);
    let known = b.r.exchange_plane_records(hb);
    assert_eq!(known.len(), 1);
    assert_eq!(known[0].0, net(203, 0, 113));
    assert_eq!(known[0].1.value.to_vec(), vec![9]);
    assert_eq!(b.r.exchange_plane_partial_transit(hb), 0);
    assert!(b.logs().contains(&LogEntry::Records {
        session: hb,
        prefix: net(203, 0, 113),
        records: 2,
    }));
}

#[test]
fn record_sets_are_listed_most_recent_first() {
    let (mut a, ha, mut b, hb) = ebgp_pair();
    establish(&mut a, ha, &mut b, hb);
    for (i, prefix) in [net(203, 0, 113), net(198, 51, 100), net(203, 0, 113)].iter().enumerate() {
        let mut r = received(hb, *prefix, vec![64512]);
        r.attributes.records = records(RecordKind::Verified { records: 1 }, i as u8);
        b.feed_route(hb, r);
    }
    let order: Vec<(Prefix, Vec<u8>)> = b
        .r
        .exchange_plane_records(hb)
        .iter()
        .map(|(p, s)| (*p, s.value.to_vec()))
        .collect();
    assert_eq!(order, vec![(net(203, 0, 113), vec![2]), (net(198, 51, 100), vec![1])]);
    // A withdrawn route takes its records along.
    let key = RouteKey::new(net(203, 0, 113), NlriFamily::ipv4_unicast());
    b.feed_input(hb, vec![Message::Withdraw { key, path_id: 0 }]);
    assert_eq!(b.r.exchange_plane_records(hb).len(), 1);
}

#[test]
fn exchange_plane_plane_off_sessions_stay_record_free() {
    let (mut a, ha, mut b, hb) = ebgp_pair();
    establish(&mut a, ha, &mut b, hb);
    a.originate(net(203, 0, 113), hop(1));
    let advertisement = a.drain_output(ha);
    b.feed_input(hb, advertisement);
    assert_eq!(b.rib_len(), 1);
    assert!(b.r.exchange_plane_records(hb).is_empty());
}

#[test]
fn exchange_plane_partial_transit_is_counted() {
    let (mut a, ha, mut b, hb) = ebgp_pair();
    establish(&mut a, ha, &mut b, hb);
    let mut r = received(hb, net(198, 51, 100), vec![64512]);
    r.attributes.records = records(RecordKind::PartialRaw, 3);
    b.feed_route(hb, r);
    assert_eq!(b.rib_len(), 1);
    assert!(b.r.exchange_plane_records(hb).is_empty(), "forwarding material only");
    assert_eq!(b.r.exchange_plane_partial_transit(hb), 1);
}

fn mixed_pair() -> (Node, u64, u64, Node, u64) {
    let mut a = Node::new();
    let mut b = Node::new();
    let ospf = a.add(ospf_session(0x01010101, 0));
    let ha = a.add(bgp(64512, 64513, v4(10, 0, 0, 1)));
    let hb = b.add(bgp(64513, 64512, v4(10, 0, 0, 2)));
    establish(&mut a, ha, &mut b, hb);
    (a, ospf, ha, b, hb)
}

fn router_lsa(id: u32, age: u16, sequence: u32) -> Lsa {
    Lsa {
        header: LsaHeader {
            ls_age: age,
            options: 0,
            ls_type: 1,
            link_state_id: id,
            advertising_router: id,
            ls_sequence_number: sequence,
            ls_checksum: 0,
            length: 24,
        },
        body: List::Nil,
        content: LsaContent::Opaque,
    }
}

fn feed_direct_ospf_route(a: &mut Node, ospf: u64) {
    a.r.receive_lsas(ospf, vec![router_lsa(0x01010101, 1, 1), router_lsa(0x02020202, 1, 1)]);
    a.run();
}

fn flush_direct_ospf_route(a: &mut Node, ospf: u64) {
    a.r.receive_lsas(ospf, vec![router_lsa(0x02020202, 3600, 2)]);
    a.run();
}

#[test]
fn mixed_rib_bgp_beats_direct_ospf_and_withdrawals_fall_back() {
    let (mut a, ospf, ha, mut b, hb) = mixed_pair();
    feed_direct_ospf_route(&mut a, ospf);
    let prefix = net(10, 10, 10);
    assert_eq!(best_at(&a, prefix).expect("installed").protocol, Protocol::Ospfv2);

    let key = b.originate(prefix, hop(10));
    let advertisement = b.drain_output(hb);
    assert!(!advertisement.is_empty());
    a.feed_input(ha, advertisement);
    assert_eq!(best_at(&a, prefix).expect("present").protocol, Protocol::Bgp);

    b.unoriginate(&key);
    let withdrawal = b.drain_output(hb);
    assert!(!withdrawal.is_empty());
    a.feed_input(ha, withdrawal);
    assert_eq!(best_at(&a, prefix).expect("survives").protocol, Protocol::Ospfv2);

    flush_direct_ospf_route(&mut a, ospf);
    assert!(best_at(&a, prefix).is_none(), "gone with its last contribution");
}

#[test]
fn direct_ospf_route_is_not_exported_to_bgp_without_a_pipe() {
    let (mut a, ospf, ha, mut b, hb) = mixed_pair();
    feed_direct_ospf_route(&mut a, ospf);
    let prefix = net(10, 10, 10);
    let out = a.drain_output(ha);
    b.feed_input(hb, out);
    assert!(best_at(&b, prefix).is_none(), "no leak without a pipe");
    let key = a.originate(prefix, hop(10));
    let out = a.drain_output(ha);
    assert!(!out.is_empty(), "an originated network is advertised");
    b.feed_input(hb, out);
    assert!(best_at(&b, prefix).is_some());
    a.unoriginate(&key);
}

#[test]
fn ospf_route_present_at_session_up_does_not_leak_into_bgp() {
    let mut a = Node::new();
    let mut b = Node::new();
    let ospf = a.add(ospf_session(0x01010101, 0));
    let ha = a.add(bgp(64512, 64513, v4(10, 0, 0, 1)));
    let hb = b.add(bgp(64513, 64512, v4(10, 0, 0, 2)));
    feed_direct_ospf_route(&mut a, ospf);
    let prefix = net(10, 10, 10);
    assert!(best_at(&a, prefix).is_some(), "in the shared Loc-RIB");
    establish(&mut a, ha, &mut b, hb);
    let out = a.drain_output(ha);
    b.feed_input(hb, out);
    assert!(best_at(&b, prefix).is_none(), "not in the dump");
    // A refresh is as silent about it as the dump.
    assert!(b.request_route_refresh(hb, NlriFamily::ipv4_unicast()));
    pump(&mut a, ha, &mut b, hb);
    assert!(best_at(&b, prefix).is_none(), "not in a refresh");
    let key = a.originate(prefix, hop(10));
    let out = a.drain_output(ha);
    assert!(!out.is_empty());
    b.feed_input(hb, out);
    assert!(best_at(&b, prefix).is_some());
    a.unoriginate(&key);
}

#[test]
fn pipe_redistributes_direct_ospf_into_bgp() {
    let (mut a, ospf, ha, _b, _hb) = mixed_pair();
    let _ = a.drain_output(ha);
    a.r.add_redistribution_pipe(RedistributionPipe {
        id: 1,
        source: Protocol::Ospfv2,
        target: Protocol::Bgp,
        tag: 0,
    });
    a.run();
    feed_direct_ospf_route(&mut a, ospf);
    let prefix = net(10, 10, 10);
    let best = best_at(&a, prefix).expect("the copy installs");
    assert_eq!(best.protocol, Protocol::Bgp);
    assert_eq!(best.preference, Preference { admin_distance: 20, metric: 15 });
    assert!(a.logs().contains(&LogEntry::Redistributed {
        prefix,
        target: Protocol::Bgp,
        metric: 15,
    }));
    assert!(announced(&a.drain_output(ha)) > 0, "an advertisement leaves");
    flush_direct_ospf_route(&mut a, ospf);
    assert!(best_at(&a, prefix).is_none(), "the copy goes with its source");
    assert!(a.logs().contains(&LogEntry::Unredistributed { prefix }));
}

fn collision_peer(id: u32) -> (Node, u64) {
    let mut p = Node::new();
    let h = p.add(bgp(64513, 64512, id));
    (p, h)
}

fn collision_session(r: &mut Node, locally_initiated: bool, local_id: u32) -> u64 {
    let mut cfg = bgp(64512, 64513, local_id);
    cfg.collision_group = Some(1);
    cfg.locally_initiated = locally_initiated;
    r.add(cfg)
}

fn handshake(r: &mut Node, hr: u64, p: &mut Node, hp: u64) -> &'static str {
    p.start_session(hp);
    r.start_session(hr);
    let p_open = p.drain_output(hp);
    r.feed_input(hr, p_open);
    let reply = r.drain_output(hr);
    p.feed_input(hp, reply);
    if !matches!(r.state(hr), Some("OpenConfirm") | Some("Established")) {
        return p.state(hp).unwrap_or("Idle");
    }
    let p_keepalive = p.drain_output(hp);
    r.feed_input(hr, p_keepalive);
    let _ = r.drain_output(hr);
    r.state(hr).unwrap_or("Idle")
}

#[test]
fn collision_lower_local_id_loses_outbound_transport() {
    let mut r = Node::new();
    let s_out = collision_session(&mut r, true, v4(10, 0, 0, 1));
    let s_in = collision_session(&mut r, false, v4(10, 0, 0, 1));
    let (mut a, ha) = collision_peer(v4(10, 0, 0, 9));
    let (mut b, hb) = collision_peer(v4(10, 0, 0, 9));
    r.start_session(s_out);
    r.start_session(s_in);
    a.start_session(ha);
    let a_open = a.drain_output(ha);
    r.feed_input(s_out, a_open);
    assert_eq!(r.state(s_out), Some("Idle"));
    assert_eq!(notifications(&r.drain_output(s_out)), vec![(6, 7)]);
    assert_eq!(handshake(&mut r, s_in, &mut b, hb), "Established");
}

#[test]
fn collision_higher_local_id_keeps_outbound_transport() {
    let mut r = Node::new();
    let s_out = collision_session(&mut r, true, v4(10, 0, 0, 9));
    let s_in = collision_session(&mut r, false, v4(10, 0, 0, 9));
    let (mut a, ha) = collision_peer(v4(10, 0, 0, 1));
    r.start_session(s_out);
    r.start_session(s_in);
    a.start_session(ha);
    let a_open = a.drain_output(ha);
    r.feed_input(s_out, a_open);
    assert_eq!(r.state(s_in), Some("Idle"));
    assert_eq!(notifications(&r.drain_output(s_in)), vec![(6, 7)]);
    assert_eq!(handshake(&mut r, s_out, &mut a, ha), "Established");
    assert_eq!(r.state(s_out), Some("Established"));
}

#[test]
fn collision_established_sibling_wins() {
    let mut r = Node::new();
    let s_out = collision_session(&mut r, true, v4(10, 0, 0, 9));
    let s_in = collision_session(&mut r, false, v4(10, 0, 0, 9));
    let (mut a, ha) = collision_peer(v4(10, 0, 0, 1));
    let (mut b, hb) = collision_peer(v4(10, 0, 0, 1));
    assert_eq!(handshake(&mut r, s_out, &mut a, ha), "Established");
    r.start_session(s_in);
    b.start_session(hb);
    let b_open = b.drain_output(hb);
    r.feed_input(s_in, b_open);
    assert_eq!(r.state(s_in), Some("Idle"));
    assert_eq!(notifications(&r.drain_output(s_in)), vec![(6, 7)]);
    assert_eq!(r.state(s_out), Some("Established"));
}

#[test]
fn no_collision_group_means_no_resolution() {
    let mut r = Node::new();
    let s1 = r.add(bgp(64512, 64513, v4(10, 0, 0, 1)));
    let s2 = r.add(bgp(64512, 64513, v4(10, 0, 0, 1)));
    let (mut a, ha) = collision_peer(v4(10, 0, 0, 9));
    let (mut b, hb) = collision_peer(v4(10, 0, 0, 9));
    assert_eq!(handshake(&mut r, s1, &mut a, ha), "Established");
    assert_eq!(handshake(&mut r, s2, &mut b, hb), "Established");
    assert_eq!(r.state(s1), Some("Established"));
    assert_eq!(r.state(s2), Some("Established"));
}

fn mrai_pair(add_path: bool) -> (Node, u64, Node, u64) {
    let mut ca = bgp(64512, 64513, v4(10, 0, 0, 1));
    let mut cb = bgp(64513, 64512, v4(10, 0, 0, 2));
    ca.peer.add_path = add_path;
    cb.peer.add_path = add_path;
    let (mut a, ha, mut b, hb) = pair_of(ca, cb);
    a.start_session(ha);
    b.start_session(hb);
    pump(&mut a, ha, &mut b, hb);
    a.r.set_mrai(ha, 1000).unwrap();
    a.run();
    (a, ha, b, hb)
}

fn med_attribute(med: u32) -> List<RawAttribute> {
    List::from_vec(vec![RawAttribute {
        flags: 0x80,
        code: 4,
        value: List::from_vec(med.to_be_bytes().to_vec()),
    }])
}

fn med_of(attributes: &Attributes) -> u32 {
    let v = attributes.other.to_vec();
    let octets = v[0].value.to_vec();
    u32::from_be_bytes([octets[0], octets[1], octets[2], octets[3]])
}

fn originate_med(a: &mut Node, med: u32) -> RouteKey {
    let mut attributes = Attributes::new_local();
    attributes.other = med_attribute(med);
    let key = a.r.originate_with_attributes(
        net(203, 0, 113),
        NlriFamily::ipv4_unicast(),
        hop(1),
        attributes,
    );
    a.run();
    key
}

fn med(n: &Node) -> u32 {
    let routes = n.r.rib_snapshot();
    assert_eq!(routes.len(), 1);
    med_of(&routes[0].attributes)
}

#[test]
fn reverting_to_advertised_route_cancels_pending_replacement() {
    for add_path in [false, true] {
        let (mut a, ha, mut b, hb) = mrai_pair(add_path);
        for value in [100, 200, 100] {
            originate_med(&mut a, value);
            pump(&mut a, ha, &mut b, hb);
        }
        a.tick(1000);
        pump(&mut a, ha, &mut b, hb);
        assert_eq!(med(&a), 100);
        assert_eq!(med(&b), 100, "obsolete queued attributes must not escape");
    }
}

#[test]
fn removing_export_policy_cancels_unadvertised_pending_route() {
    for add_path in [false, true] {
        let (mut a, ha, mut b, hb) = mrai_pair(add_path);
        a.r.set_ebgp_requires_policy(true);
        a.set_session_policy(ha, true, true);
        let key = originate_med(&mut a, 100);
        pump(&mut a, ha, &mut b, hb);
        assert_eq!(med(&b), 100);
        a.unoriginate(&key);
        pump(&mut a, ha, &mut b, hb);
        assert!(b.r.rib_snapshot().is_empty());
        originate_med(&mut a, 200);
        a.set_session_policy(ha, true, false);
        a.tick(1000);
        pump(&mut a, ha, &mut b, hb);
        assert!(b.r.rib_snapshot().is_empty(), "removed policy must cancel pending export");
    }
}

#[test]
fn route_refresh_supersedes_pending_attributes_from_old_policy() {
    for add_path in [false, true] {
        let (mut a, ha, mut b, hb) = mrai_pair(add_path);
        originate_med(&mut a, 100);
        pump(&mut a, ha, &mut b, hb);
        originate_med(&mut a, 200);
        a.export = Box::new(|mut r, _| {
            r.attributes.other = med_attribute(300);
            Some(r)
        });
        assert!(b.request_route_refresh(hb, NlriFamily::ipv4_unicast()));
        pump(&mut a, ha, &mut b, hb);
        assert_eq!(med(&b), 300);
        a.tick(1000);
        pump(&mut a, ha, &mut b, hb);
        assert_eq!(med(&b), 300, "refresh must supersede the old pending update");
    }
}

#[test]
fn withdrawing_an_unsent_route_cancels_it() {
    let (mut a, ha, mut b, hb) = mrai_pair(false);
    let key = originate_med(&mut a, 100);
    pump(&mut a, ha, &mut b, hb);
    a.unoriginate(&key);
    pump(&mut a, ha, &mut b, hb);
    originate_med(&mut a, 200);
    a.unoriginate(&key);
    a.tick(1000);
    pump(&mut a, ha, &mut b, hb);
    assert!(b.r.rib_snapshot().is_empty(), "the route was withdrawn before it was sent");
}

#[test]
fn dropping_the_interval_sends_what_waits() {
    let (mut a, ha, mut b, hb) = mrai_pair(false);
    originate_med(&mut a, 100);
    originate_med(&mut a, 200);
    pump(&mut a, ha, &mut b, hb);
    assert_eq!(med(&b), 100);
    a.r.set_mrai(ha, 0).unwrap();
    a.run();
    pump(&mut a, ha, &mut b, hb);
    assert_eq!(med(&b), 200);
    assert_eq!(a.r.set_mrai(77, 0), Err(RouterError::NotBgp(77)));
}

struct Transit {
    router: Node,
    downstream: Node,
    inbound: u64,
    outbound: u64,
    receiver: u64,
    add_path: bool,
}

impl Transit {
    fn new(add_path: bool) -> Transit {
        let mut router = Node::new();
        let mut downstream = Node::new();
        router.r.set_add_path_max_paths(2);
        downstream.r.set_add_path_max_paths(2);
        let mut inbound_cfg = bgp(64512, 64500, v4(10, 0, 0, 1));
        let mut outbound_cfg = bgp(64512, 64513, v4(10, 0, 0, 1));
        let mut receiver_cfg = bgp(64513, 64512, v4(10, 0, 0, 2));
        inbound_cfg.peer.add_path = add_path;
        outbound_cfg.peer.add_path = add_path;
        receiver_cfg.peer.add_path = add_path;
        let inbound = router.add(inbound_cfg);
        let outbound = router.add(outbound_cfg);
        let receiver = downstream.add(receiver_cfg);
        router.start_session(inbound);
        let upstream = Message::Open {
            id: v4(10, 0, 0, 3),
            asn: 64500,
            add_path,
            restart: None,
            stale: None,
        };
        router.feed_input(inbound, vec![upstream, Message::Keepalive]);
        assert_eq!(router.state(inbound), Some("Established"));
        router.start_session(outbound);
        downstream.start_session(receiver);
        pump(&mut router, outbound, &mut downstream, receiver);
        Transit { router, downstream, inbound, outbound, receiver, add_path }
    }

    fn update(&mut self, path_id: u32, community: Option<u32>, med: u32) {
        let mut r = received(self.inbound, net(203, 0, 113), vec![64500]);
        r.attributes.other = med_attribute(med);
        if let Some(c) = community {
            r.attributes.communities = List::from_vec(vec![c]);
        }
        r.path_id = if self.add_path { path_id } else { 0 };
        self.router.feed_route(self.inbound, r);
        pump(&mut self.router, self.outbound, &mut self.downstream, self.receiver);
    }

    fn received_paths(&self) -> usize {
        self.downstream.r.rib_paths_snapshot().len()
    }
}

#[test]
fn learned_community_changes_withdraw_and_restore_advertisements() {
    for add_path in [false, true] {
        let mut transit = Transit::new(add_path);
        transit.update(1, Some(NO_EXPORT), 0);
        assert_eq!(transit.received_paths(), 0);
        transit.update(1, None, 0);
        assert_eq!(transit.received_paths(), 1);
        if add_path {
            transit.update(2, None, 0);
            assert_eq!(transit.received_paths(), 2);
        }
        let remaining = usize::from(add_path);
        for community in [NO_EXPORT, NO_ADVERTISE] {
            transit.update(1, Some(community), 0);
            assert_eq!(transit.received_paths(), remaining);
            transit.update(1, None, 0);
            assert_eq!(transit.received_paths(), remaining + 1);
        }
    }
}

#[test]
fn export_hook_community_changes_withdraw_and_restore_advertisements() {
    let mut transit = Transit::new(false);
    let outbound = transit.outbound;
    let tag = move |mut r: Route, destination: u64| {
        if destination == outbound {
            r.attributes.communities = List::from_vec(vec![NO_EXPORT]);
        }
        Some(r)
    };
    transit.update(1, None, 0);
    assert_eq!(transit.received_paths(), 1);
    transit.router.export = Box::new(tag);
    transit.update(1, None, 1);
    assert_eq!(transit.received_paths(), 0);
    transit.router.export = Box::new(|r, _| Some(r));
    transit.update(1, None, 0);
    assert_eq!(transit.received_paths(), 1);
}

#[test]
fn static_routes_outrank_peers_and_uninstall_restores_them() {
    let (mut a, ha, mut b, hb) = ebgp_pair();
    establish(&mut a, ha, &mut b, hb);
    let key = a.r.install_static(
        net(198, 51, 100),
        NlriFamily::ipv4_unicast(),
        None,
        5,
        Some(3),
    );
    a.run();
    b.originate(net(198, 51, 100), hop(10));
    let advertisement = b.drain_output(hb);
    a.feed_input(ha, advertisement);
    let best = best_at(&a, net(198, 51, 100)).unwrap();
    assert_eq!(best.protocol, Protocol::Static);
    assert_eq!(best.preference, Preference { admin_distance: 1, metric: 5 });
    assert_eq!(best.tag, Some(3));
    assert_eq!(a.r.static_routes().len(), 1);
    assert!(a.r.uninstall_static(&key));
    a.run();
    assert_eq!(best_at(&a, net(198, 51, 100)).unwrap().protocol, Protocol::Bgp);
    assert!(!a.r.uninstall_static(&key));
}

#[test]
fn aggregates_come_and_go_with_their_specifics() {
    let (mut a, ha, mut b, hb) = ebgp_pair();
    establish(&mut a, ha, &mut b, hb);
    let aggregate = Prefix::new_v4(v4(198, 51, 0, 0), 16);
    a.r.add_aggregate(aggregate);
    a.run();
    assert_eq!(a.rib_len(), 0, "nothing to aggregate");
    let key = a.originate(net(198, 51, 100), hop(10));
    assert!(best_at(&a, aggregate).is_some(), "an originated specific is enough");
    a.feed_route(ha, received(ha, net(198, 51, 101), vec![64513]));
    let route = best_at(&a, aggregate).expect("aggregated");
    assert!(route.attributes.atomic_aggregate);
    assert_eq!(route.attributes.aggregator, Some((64512, v4(10, 0, 0, 1))));
    assert_eq!(path_of(&route), Vec::<u32>::new());
    a.unoriginate(&key);
    assert!(best_at(&a, aggregate).is_some(), "one specific is left");
    let learned = RouteKey::new(net(198, 51, 101), NlriFamily::ipv4_unicast());
    a.feed_input(ha, vec![Message::Withdraw { key: learned, path_id: 0 }]);
    assert_eq!(a.rib_len(), 0, "the last specific took the aggregate along");
}

#[test]
fn removing_an_aggregate_withdraws_its_route() {
    let (mut a, ha, mut b, hb) = ebgp_pair();
    establish(&mut a, ha, &mut b, hb);
    let aggregate = Prefix::new_v4(v4(198, 51, 0, 0), 16);
    a.originate(net(198, 51, 100), hop(10));
    a.r.add_aggregate(aggregate);
    a.run();
    assert!(best_at(&a, aggregate).is_some());
    a.r.remove_aggregate(&aggregate);
    a.run();
    assert!(best_at(&a, aggregate).is_none());
    assert_eq!(a.rib_len(), 1);
}

#[test]
fn removing_a_pipe_flushes_its_copies() {
    let (mut a, ospf, _ha, _b, _hb) = mixed_pair();
    a.r.add_redistribution_pipe(RedistributionPipe {
        id: 1,
        source: Protocol::Ospfv2,
        target: Protocol::Bgp,
        tag: 0,
    });
    a.run();
    feed_direct_ospf_route(&mut a, ospf);
    assert_eq!(best_at(&a, net(10, 10, 10)).unwrap().protocol, Protocol::Bgp);
    assert_eq!(a.r.remove_redistribution_pipe(Protocol::Babel, Protocol::Bgp), 0);
    assert_eq!(a.r.remove_redistribution_pipe(Protocol::Ospfv2, Protocol::Bgp), 1);
    a.run();
    assert_eq!(best_at(&a, net(10, 10, 10)).unwrap().protocol, Protocol::Ospfv2);
}

#[test]
fn labelled_routes_keep_their_labels_in_labelled_families() {
    let mut a = Node::new();
    let labelled = NlriFamily { afi: 1, safi: 4 };
    a.r.originate_labeled(net(203, 0, 113), labelled, List::from_vec(vec![100, 200]), hop(1));
    a.r.originate_labeled(
        net(203, 0, 114),
        NlriFamily::ipv4_unicast(),
        List::from_vec(vec![100]),
        hop(1),
    );
    a.run();
    assert_eq!(
        words(&best_at(&a, net(203, 0, 113)).unwrap().attributes.labels),
        vec![100, 200]
    );
    let plain = best_at(&a, net(203, 0, 114)).unwrap();
    assert!(words(&plain.attributes.labels).is_empty());
    assert_eq!(plain.attributes.next_hop, hop(1));
}

#[test]
fn establishment_and_routes_are_mirrored() {
    let (mut a, ha, mut b, hb) = ebgp_pair();
    a.r.set_bmp_sink();
    establish(&mut a, ha, &mut b, hb);
    assert_eq!(a.mirrored, 1, "the peer came up");
    b_advertise_to_a(&mut a, ha, &mut b, hb);
    assert_eq!(a.mirrored, 2, "a route came in");
    a.originate(net(203, 0, 113), hop(1));
    assert_eq!(a.mirrored, 2, "own routes belong to no peer");
    // The hold timer expires.
    a.r.tick(1, &vec![encode_timer(ha, TimerId(1)).0]);
    a.run();
    assert_eq!(a.mirrored, 3, "the peer went down");
}

#[test]
fn an_input_that_ends_a_session_is_mirrored_once() {
    let (mut a, ha, mut b, hb) = ebgp_pair();
    a.r.set_bmp_sink();
    establish(&mut a, ha, &mut b, hb);
    assert_eq!(a.mirrored, 1, "the peer came up");
    a.feed_input(ha, vec![Message::Notification(6, 2)]);
    assert_eq!(a.mirrored, 2, "the peer went down");
    a.close_session(ha);
    assert_eq!(a.mirrored, 2, "and is not told of again");
}

#[test]
fn fresh_paths_stay_advertised_when_others_become_stale() {
    let (mut a, ha, mut b, hb) = llgr_pair();
    let hc = a.add(bgp(64512, 64514, v4(10, 0, 0, 1)));
    let mut c = Node::new();
    let hcc = c.add(bgp(64514, 64512, v4(10, 0, 0, 3)));
    let hd = a.add(bgp(64512, 64515, v4(10, 0, 0, 1)));
    let mut d = Node::new();
    let hdd = d.add(bgp(64515, 64512, v4(10, 0, 0, 4)));
    establish(&mut a, ha, &mut b, hb);
    establish(&mut a, hc, &mut c, hcc);
    establish(&mut a, hd, &mut d, hdd);
    pump(&mut a, hc, &mut c, hcc);
    b_advertise_to_a(&mut a, ha, &mut b, hb);
    d.originate(net(198, 51, 100), hop(11));
    let advertisement = d.drain_output(hdd);
    a.feed_input(hd, advertisement);
    pump(&mut a, hc, &mut c, hcc);
    assert_eq!(path_of(&best_at(&c, net(198, 51, 100)).unwrap()), vec![64512, 64513]);
    a.tick(0);
    a.close_session(ha);
    a.tick(1_500);
    assert_eq!(best_at(&a, net(198, 51, 100)).unwrap().origin.peer, hd, "fresh paths win");
    pump(&mut a, hc, &mut c, hcc);
    assert_eq!(
        path_of(&best_at(&c, net(198, 51, 100)).unwrap()),
        vec![64512, 64515],
        "the fresh path is advertised, and not withdrawn with the stale one"
    );
}

#[test]
fn stale_routes_are_told_to_peers_that_retain_them_only() {
    let (mut a, ha, mut b, hb) = llgr_pair();
    let hc = a.add(bgp(64512, 64514, v4(10, 0, 0, 1)));
    let mut c = Node::new();
    let hcc = c.add(bgp(64514, 64512, v4(10, 0, 0, 3)));
    let hd = a.add(with_stale(with_restart(bgp(64512, 64515, v4(10, 0, 0, 1)), 1), 10));
    let mut d = Node::new();
    let hdd = d.add(with_stale(with_restart(bgp(64515, 64512, v4(10, 0, 0, 4)), 1), 10));
    establish(&mut a, ha, &mut b, hb);
    establish(&mut a, hc, &mut c, hcc);
    establish(&mut a, hd, &mut d, hdd);
    b_advertise_to_a(&mut a, ha, &mut b, hb);
    pump(&mut a, hc, &mut c, hcc);
    pump(&mut a, hd, &mut d, hdd);
    assert_eq!((c.rib_len(), d.rib_len()), (1, 1));
    a.tick(0);
    a.close_session(ha);
    a.tick(1_500);
    assert!(best_has_llgr_stale(&a));
    pump(&mut a, hc, &mut c, hcc);
    pump(&mut a, hd, &mut d, hdd);
    assert_eq!(c.rib_len(), 0, "withdrawn from a peer without retention");
    assert!(best_has_llgr_stale(&d), "told to a peer with retention");
    a.close_session(hc);
    c.close_session(hcc);
    establish(&mut a, hc, &mut c, hcc);
    pump(&mut a, hc, &mut c, hcc);
    assert_eq!(c.rib_len(), 0, "nor dumped to it");
}

fn pipe(source: Protocol, target: Protocol) -> RedistributionPipe {
    RedistributionPipe { id: 1, source, target, tag: 0 }
}

#[test]
fn static_routes_are_carried_through_pipes() {
    let (mut a, ha, mut b, hb) = ebgp_pair();
    establish(&mut a, ha, &mut b, hb);
    pump(&mut a, ha, &mut b, hb);
    a.r.add_redistribution_pipe(pipe(Protocol::Static, Protocol::Bgp));
    a.run();
    let prefix = net(203, 0, 113);
    let key = a.r.install_static(prefix, NlriFamily::ipv4_unicast(), hop(1), 0, None);
    a.run();
    assert!(a.logs().contains(&LogEntry::Redistributed {
        prefix,
        target: Protocol::Bgp,
        metric: 0,
    }));
    assert_eq!(best_at(&a, prefix).unwrap().protocol, Protocol::Static, "the static route wins");
    pump(&mut a, ha, &mut b, hb);
    assert_eq!(path_of(&best_at(&b, prefix).unwrap()), vec![64512], "its copy is advertised");
    a.close_session(ha);
    b.close_session(hb);
    establish(&mut a, ha, &mut b, hb);
    pump(&mut a, ha, &mut b, hb);
    assert_eq!(b.rib_len(), 1, "a dump carries the copy too");
    assert!(a.r.uninstall_static(&key));
    a.run();
    pump(&mut a, ha, &mut b, hb);
    assert_eq!((a.rib_len(), b.rib_len()), (0, 0), "the copy goes with its source");
}

#[test]
fn originated_routes_are_carried_through_pipes() {
    let mut a = Node::new();
    a.r.add_redistribution_pipe(pipe(Protocol::Bgp, Protocol::Ospfv2));
    a.run();
    a.originate(net(203, 0, 113), hop(1));
    assert!(a.logs().contains(&LogEntry::Redistributed {
        prefix: net(203, 0, 113),
        target: Protocol::Ospfv2,
        metric: 0,
    }));
    assert!(a.r.ospf_is_asbr());
}

#[test]
fn originating_a_prefix_spares_its_static_route() {
    let mut a = Node::new();
    let prefix = net(203, 0, 113);
    let key = a.r.install_static(prefix, NlriFamily::ipv4_unicast(), hop(1), 0, None);
    a.run();
    a.originate(prefix, hop(2));
    assert_eq!(best_at(&a, prefix).unwrap().protocol, Protocol::Static);
    assert!(a.r.uninstall_static(&key));
    a.run();
    assert_eq!(best_at(&a, prefix).unwrap().protocol, Protocol::Bgp, "the originated one is next");
}

#[test]
fn a_network_originated_beside_a_static_route_is_advertised() {
    let (mut a, ha, mut b, hb) = ebgp_pair();
    establish(&mut a, ha, &mut b, hb);
    let prefix = net(203, 0, 113);
    a.r.install_static(prefix, NlriFamily::ipv4_unicast(), hop(1), 0, None);
    a.run();
    pump(&mut a, ha, &mut b, hb);
    assert_eq!(b.rib_len(), 0, "a static route alone is not told to peers");
    let key = a.originate(prefix, hop(2));
    pump(&mut a, ha, &mut b, hb);
    assert_eq!(best_at(&b, prefix).unwrap().next_hop, hop(2));
    a.unoriginate(&key);
    pump(&mut a, ha, &mut b, hb);
    assert_eq!(b.rib_len(), 0);
}

#[test]
fn copies_speak_for_their_own_source_only() {
    let (mut a, ospf, ha, mut b, hb) = mixed_pair();
    a.r.add_redistribution_pipe(pipe(Protocol::Ospfv2, Protocol::Bgp));
    a.run();
    feed_direct_ospf_route(&mut a, ospf);
    pump(&mut a, ha, &mut b, hb);
    let prefix = net(10, 10, 10);
    assert!(best_at(&b, prefix).is_some());
    let key = a.r.install_static(prefix, NlriFamily::ipv4_unicast(), hop(77), 0, None);
    a.run();
    pump(&mut a, ha, &mut b, hb);
    assert_eq!(best_at(&a, prefix).unwrap().protocol, Protocol::Static);
    assert!(best_at(&b, prefix).is_none(), "no pipe carries the static route");
    assert!(a.r.uninstall_static(&key));
    a.run();
    pump(&mut a, ha, &mut b, hb);
    assert!(best_at(&b, prefix).is_some(), "the copy is best again");
}

#[test]
fn copies_stay_while_their_source_stands() {
    let (mut a, ospf, ha, mut b, hb) = mixed_pair();
    a.r.add_redistribution_pipe(pipe(Protocol::Static, Protocol::Bgp));
    a.run();
    feed_direct_ospf_route(&mut a, ospf);
    let prefix = net(10, 10, 10);
    let key = a.r.install_static(prefix, NlriFamily::ipv4_unicast(), hop(77), 0, None);
    a.run();
    pump(&mut a, ha, &mut b, hb);
    assert_eq!(best_at(&b, prefix).unwrap().next_hop, hop(77));
    flush_direct_ospf_route(&mut a, ospf);
    pump(&mut a, ha, &mut b, hb);
    assert!(best_at(&b, prefix).is_some(), "the copy is of the static route");
    let own = a.originate(prefix, hop(2));
    a.unoriginate(&own);
    pump(&mut a, ha, &mut b, hb);
    assert_eq!(best_at(&b, prefix).unwrap().next_hop, hop(77));
    assert!(a.r.uninstall_static(&key));
    a.run();
    pump(&mut a, ha, &mut b, hb);
    assert!(best_at(&b, prefix).is_none());
}

#[test]
fn every_family_is_resynchronised_under_plain_restart() {
    let (mut a, ha, mut b, hb) = pair_of(
        with_restart(bgp(64512, 64513, v4(10, 0, 0, 1)), 120),
        with_restart(bgp(64513, 64512, v4(10, 0, 0, 2)), 120),
    );
    establish(&mut a, ha, &mut b, hb);
    let six = Prefix::new_v6(0x2001_0db8 << 96, 32);
    let mut other = received(ha, six, vec![64513]);
    other.key = RouteKey::new(six, NlriFamily::ipv6_unicast());
    a.feed_route(ha, received(ha, net(198, 51, 100), vec![64513]));
    a.feed_route(ha, other);
    assert_eq!(a.rib_len(), 2);
    a.close_session(ha);
    b.close_session(hb);
    assert_eq!(a.rib_len(), 2, "both are retained");
    establish(&mut a, ha, &mut b, hb);
    a.feed_input(ha, vec![Message::EndOfRib(NlriFamily::ipv4_unicast())]);
    assert!(best_at(&a, net(198, 51, 100)).is_none(), "not refreshed");
    assert!(best_at(&a, six).is_some(), "its family is not finished");
    a.feed_input(ha, vec![Message::EndOfRib(NlriFamily::ipv6_unicast())]);
    assert!(best_at(&a, six).is_none());
    assert!(a.r.windows.is_empty(), "retention has ended");
}

#[test]
fn a_session_lost_while_resynchronising_is_retained_anew() {
    let (mut a, ha, mut b, hb) = pair_of(
        with_restart(bgp(64512, 64513, v4(10, 0, 0, 1)), 1),
        with_restart(bgp(64513, 64512, v4(10, 0, 0, 2)), 1),
    );
    establish(&mut a, ha, &mut b, hb);
    a.tick(0);
    a.feed_route(ha, received(ha, net(198, 51, 100), vec![64513]));
    a.close_session(ha);
    b.close_session(hb);
    establish(&mut a, ha, &mut b, hb);
    a.tick(1_500);
    assert_eq!(a.rib_len(), 1, "it is back, and waited for");
    a.close_session(ha);
    a.close_session(ha);
    a.tick(2_000);
    assert_eq!(a.rib_len(), 1);
    a.tick(2_600);
    assert_eq!(a.rib_len(), 0, "the second window ends too");
}

#[test]
fn raw_routes_leave_with_their_session() {
    let (mut a, ha, mut b, hb) = ebgp_pair();
    a.r.set_session_soft_reconfig_inbound(ha, true).unwrap();
    a.import = Box::new(|_| None);
    establish(&mut a, ha, &mut b, hb);
    a.feed_route(ha, received(ha, net(198, 51, 100), vec![64513]));
    assert_eq!((a.rib_len(), a.r.adj_rib_in_snapshot(ha).len()), (0, 1));
    a.close_session(ha);
    assert!(a.r.adj_rib_in_snapshot(ha).is_empty());
}

#[test]
fn internal_peers_withdraw_what_they_announced() {
    let (mut a, ha, mut b, hb) = ibgp_pair();
    establish(&mut a, ha, &mut b, hb);
    let key = b.originate(net(198, 51, 100), hop(10));
    pump(&mut a, ha, &mut b, hb);
    assert_eq!(a.rib_len(), 1);
    b.unoriginate(&key);
    pump(&mut a, ha, &mut b, hb);
    assert_eq!(a.rib_len(), 0);
}

#[test]
fn routes_of_internal_peers_are_reconfigured_too() {
    let (mut a, ha, mut b, hb) = ibgp_pair();
    a.r.set_session_soft_reconfig_inbound(ha, true).unwrap();
    a.import = Box::new(|_| None);
    establish(&mut a, ha, &mut b, hb);
    b.originate(net(198, 51, 100), hop(10));
    pump(&mut a, ha, &mut b, hb);
    assert_eq!((a.rib_len(), a.r.adj_rib_in_snapshot(ha).len()), (0, 1));
    a.import = Box::new(Some);
    assert_eq!(a.r.soft_reconfig_inbound(ha), Ok(1));
    a.run();
    assert_eq!(a.rib_len(), 1);
}

#[test]
fn retention_names_its_long_lived_families() {
    let (mut a, ha, mut b, hb) = llgr_pair();
    establish(&mut a, ha, &mut b, hb);
    a.logs();
    a.close_session(ha);
    assert!(a.logs().contains(&LogEntry::RetentionEntered {
        session: ha,
        restart_secs: 1,
        families: List::from_vec(vec![NlriFamily::ipv4_unicast()]),
    }));
}

#[test]
fn words_of_the_surroundings_are_passed_on() {
    let (mut a, ha, mut b, hb) = ebgp_pair();
    establish(&mut a, ha, &mut b, hb);
    let words = || "hold timer expired".to_string();
    let event = RouterEvent::Log(LogEntry::Peer(words()));
    let status = status_of(config_of(&a.r, ha), &a.peers[&ha]);
    a.r.feed_bgp(ha, BgpState::Established, status, vec![BgpAction::Emit(event)]);
    a.run();
    assert!(a.logs().contains(&LogEntry::Peer(words())));
    let route = received(ha, net(198, 51, 100), vec![64513]);
    let status = status_of(config_of(&a.r, ha), &a.peers[&ha]);
    a.r.feed_bgp(ha, BgpState::Established, status, vec![BgpAction::InstallRoute(route)]);
    while !matches!(a.r.pending(), Some(Task::CheckSafety { .. })) {
        a.r.step(Answer::Done);
    }
    let martian = || Violation::Other("martian prefix".to_string());
    a.r.step(Answer::Safety(Some(martian())));
    a.run();
    assert_eq!(a.rib_len(), 0);
    assert!(a.logs().contains(&LogEntry::SafetyRejected {
        prefix: net(198, 51, 100),
        violation: martian(),
    }));
}

#[test]
fn the_rule_of_a_ranking_depends_on_its_protocols() {
    let (mut a, ha, mut b, hb) = ebgp_pair();
    establish(&mut a, ha, &mut b, hb);
    a.feed_route(ha, received(ha, net(198, 51, 100), vec![64513]));
    let key = RouteKey::new(net(198, 51, 100), NlriFamily::ipv4_unicast());
    a.r.reselect(key);
    assert!(matches!(
        a.r.pending(),
        Some(Task::Rank { rule: SelectionRule::BestPath, .. })
    ));
    a.run();
    a.r.install_static(net(198, 51, 100), NlriFamily::ipv4_unicast(), hop(1), 0, None);
    a.run();
    a.r.reselect(key);
    assert!(matches!(
        a.r.pending(),
        Some(Task::Rank { rule: SelectionRule::AcrossProtocols, .. })
    ));
    a.run();
    assert_eq!(best_at(&a, net(198, 51, 100)).unwrap().protocol, Protocol::Static);
}

#[test]
fn a_dump_says_what_the_next_evaluation_says() {
    let (mut a, ha, mut b, hb) = ebgp_pair();
    establish(&mut a, ha, &mut b, hb);
    let mut route = received(ha, net(198, 51, 100), vec![64513]);
    route.path_id = 5;
    a.feed_route(ha, route);
    let hc = a.add(bgp(64512, 64514, v4(10, 0, 0, 1)));
    let mut c = Node::new();
    let hcc = c.add(bgp(64514, 64512, v4(10, 0, 0, 3)));
    establish(&mut a, hc, &mut c, hcc);
    pump(&mut a, hc, &mut c, hcc);
    assert_eq!(best_at(&c, net(198, 51, 100)).unwrap().path_id, 0);
    a.r.reselect(RouteKey::new(net(198, 51, 100), NlriFamily::ipv4_unicast()));
    a.run();
    assert!(a.drain_output(hc).is_empty(), "nothing is withdrawn or sent again");
    assert!(c.request_route_refresh(hcc, NlriFamily::ipv4_unicast()));
    pump(&mut a, hc, &mut c, hcc);
    assert_eq!(best_at(&c, net(198, 51, 100)).unwrap().path_id, 0);
    a.r.reselect(RouteKey::new(net(198, 51, 100), NlriFamily::ipv4_unicast()));
    a.run();
    assert!(a.drain_output(hc).is_empty());
}

#[test]
fn rewriting_hooks_settle() {
    let (mut a, ha, mut b, hb) = ebgp_pair();
    establish(&mut a, ha, &mut b, hb);
    a.export = Box::new(|mut r, _| {
        r.attributes.other = med_attribute(77);
        Some(r)
    });
    let key = a.originate(net(203, 0, 113), hop(1));
    pump(&mut a, ha, &mut b, hb);
    assert_eq!(med(&b), 77);
    a.r.reselect(key);
    a.run();
    assert!(a.drain_output(ha).is_empty(), "what was rewritten is compared as rewritten");
}

#[test]
fn aggregates_spare_networks_originated_by_themselves() {
    let mut a = Node::new();
    let aggregate = Prefix::new_v4(v4(198, 51, 0, 0), 16);
    let network = a.originate(aggregate, hop(9));
    a.r.add_aggregate(aggregate);
    a.run();
    assert_eq!(best_at(&a, aggregate).unwrap().next_hop, hop(9), "nothing more specific is there");
    let specific = a.originate(net(198, 51, 100), hop(10));
    assert_eq!(best_at(&a, aggregate).unwrap().next_hop, hop(9));
    a.unoriginate(&specific);
    assert_eq!(best_at(&a, aggregate).unwrap().next_hop, hop(9), "the network stays");
    let specific = a.originate(net(198, 51, 100), hop(10));
    a.unoriginate(&network);
    assert!(best_at(&a, aggregate).unwrap().attributes.atomic_aggregate, "the aggregate follows");
    a.originate(aggregate, hop(9));
    a.unoriginate(&specific);
    assert_eq!(best_at(&a, aggregate).unwrap().next_hop, hop(9), "it is a network again");
    a.r.remove_aggregate(&aggregate);
    a.run();
    assert_eq!(a.rib_len(), 1);
}

#[test]
fn polled_events_can_be_put_back_in_order() {
    let mut a = Node::new();
    a.originate(net(203, 0, 113), None);
    a.originate(net(203, 0, 114), None);
    let events = a.r.poll_events();
    assert_eq!(events.len(), 2);
    a.originate(net(203, 0, 115), None);
    a.r.requeue_events(events);
    let order: Vec<Prefix> = a
        .r
        .poll_events()
        .iter()
        .map(|e| match e {
            RouterEvent::RouteInstalled(r) => r.key.prefix,
            _ => panic!("an installed route"),
        })
        .collect();
    assert_eq!(order, vec![net(203, 0, 113), net(203, 0, 114), net(203, 0, 115)]);
}

#[test]
fn a_session_that_went_down_is_sent_everything_again() {
    let (mut a, ha, mut b, hb) = ebgp_pair();
    establish(&mut a, ha, &mut b, hb);
    let key = a.originate(net(203, 0, 113), hop(1));
    pump(&mut a, ha, &mut b, hb);
    assert_eq!(b.rib_len(), 1);
    a.close_session(ha);
    b.close_session(hb);
    a.unoriginate(&key);
    establish(&mut a, ha, &mut b, hb);
    pump(&mut a, ha, &mut b, hb);
    assert_eq!(b.rib_len(), 0);
    a.originate(net(203, 0, 113), hop(1));
    pump(&mut a, ha, &mut b, hb);
    assert_eq!(b.rib_len(), 1, "what an earlier connection carried does not count");
}

#[test]
fn unfit_answers_are_ignored() {
    let mut r = DefaultRouter::new();
    r.originate(net(203, 0, 113), None);
    r.step(Answer::Done);
    assert!(matches!(r.pending(), Some(Task::Redistribute { .. })));
    r.step(Answer::Done);
    assert!(matches!(r.pending(), Some(Task::Aggregates)));
    r.step(Answer::Done);
    assert!(r.pending().is_none());
    let h = r.add_session(bgp(64512, 64513, 1)).unwrap();
    r.start_session(h).unwrap();
    r.step(Answer::Sent(true));
    assert!(matches!(r.pending(), Some(Task::StepPeer { session: 1, event: PeerEvent::Start })));
}
