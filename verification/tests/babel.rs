//! A router with Babel neighbours.

use lr_router::addr::{IpAddr, Prefix};
use lr_router::babel::{
    babel_reachable, gc_step, BabelAction, BabelBest, BabelKey, BabelTlv, BabelUpdate, GcStep,
};
use lr_router::events::{MaxPrefixAction, RouterEvent};
use lr_router::list::List;
use lr_router::ordmap::OrdMap;
use lr_router::ospf::adjacency::OspfNetworkType;
use lr_router::ospf::area::OspfAreaType;
use lr_router::router::DefaultRouter;
use lr_router::session::{PeerConfig, SessionConfig, SessionKind, SummaryState};
use lr_router::task::{Answer, Task};

/// A peer with every option at rest.
fn peer_config(local_as: u32, peer_as: u32, local_bgp_id: u32) -> PeerConfig {
    PeerConfig {
        peer_id: 0,
        local_as,
        peer_as,
        local_bgp_id,
        external: local_as != peer_as,
        hold_time: 90,
        keepalive: 30,
        asn4: true,
        route_refresh: true,
        enhanced_route_refresh: false,
        add_path: false,
        graceful_restart: false,
        graceful_restart_time: 0,
        long_lived: false,
        long_lived_stale_time: 0,
        mp_families: List::Nil,
        default_ipv4_unicast: true,
        local_as_tolerance: 0,
        soft_reconfig_inbound: false,
        local_address: None,
        extended_next_hop: List::Nil,
        maximum_prefix: None,
        maximum_prefix_action: MaxPrefixAction::Warn,
        maximum_prefix_threshold: 0,
        exchange_plane: None,
    }
}

/// A session of a kind with every other option at rest.
fn session_config(kind: SessionKind, peer: PeerConfig) -> SessionConfig {
    SessionConfig {
        kind,
        peer,
        llgr_max_stale_time: None,
        collision_group: None,
        locally_initiated: false,
        mrai_ms: 0,
        area_id: 0,
        area_type: OspfAreaType::Normal,
        mtu: 1500,
        network_type: OspfNetworkType::PointToPoint,
        interface_ip: None,
        neighbor_ip: None,
    }
}

/// A router with the route table of one Babel session.
struct Node {
    r: DefaultRouter,
    h: u64,
    table: Vec<BabelBest>,
}

impl Node {
    fn new(address: IpAddr) -> Node {
        let mut cfg = session_config(SessionKind::Babel, peer_config(0, 0, 0));
        cfg.peer.local_address = Some(address);
        let mut r = DefaultRouter::new();
        let h = r.add_session(cfg).unwrap();
        r.start_session(h).unwrap();
        Node { r, h, table: vec![] }
    }

    fn run(&mut self) {
        while let Some(task) = self.r.pending() {
            let answer = match task {
                Task::Rank { .. } => Answer::Ranked(vec![0]),
                Task::ForgetBabel { .. } => {
                    self.table.clear();
                    Answer::Done
                }
                _ => Answer::Done,
            };
            self.r.step(answer);
        }
    }

    fn feed(&mut self, tlvs: Vec<BabelTlv>) {
        for action in self.r.feed_babel(self.h, &tlvs, 0) {
            match action {
                BabelAction::Insert { key, metric, next_hop, .. } => {
                    self.table.retain(|b| b.key != key);
                    self.table.push(BabelBest { key, metric, next_hop });
                }
                BabelAction::Withdraw(key) => self.table.retain(|b| b.key != key),
                _ => {}
            }
        }
        self.r.babel_changed(self.h, &self.table, true);
        self.run();
    }
}

fn frame(next_hop: IpAddr, update: BabelUpdate) -> Vec<BabelTlv> {
    vec![
        BabelTlv::RouterId(0x0101_0101_0101_0101),
        BabelTlv::NextHop(next_hop),
        BabelTlv::Update(update),
    ]
}

fn default_update(next_hop: IpAddr, metric: u16) -> Vec<BabelTlv> {
    let ae = match next_hop {
        IpAddr::V4(_) => 1,
        IpAddr::V6(_) => 2,
    };
    frame(
        next_hop,
        BabelUpdate {
            ae,
            prefix_len: 0,
            prefix: vec![],
            src_prefix_len: 0,
            src_prefix: vec![],
            seqno: 7,
            metric,
            interval_cs: 300,
        },
    )
}

fn check_default_route(next_hop: IpAddr, prefix: Prefix) {
    let mut n = Node::new(next_hop);
    n.feed(default_update(next_hop, 96));
    let routes = n.r.rib_snapshot();
    assert_eq!(routes.len(), 1, "the default route must be installed");
    assert_eq!(routes[0].key.prefix, prefix);
    assert_eq!(routes[0].next_hop, Some(next_hop));
    n.feed(default_update(next_hop, 96));
    assert_eq!(n.r.rib_len(), 1);
    n.feed(default_update(next_hop, u16::MAX));
    assert!(n.r.rib_snapshot().is_empty(), "retraction must remove /0");
}

#[test]
fn ipv4_default_route_is_installed_and_retracted() {
    check_default_route(IpAddr::V4(0xc0000201), Prefix::new_v4(0, 0));
}

#[test]
fn ipv6_default_route_is_installed_and_retracted() {
    check_default_route(IpAddr::V6(0xfe80_0000_0000_0000_0000_0000_0000_0001), Prefix::new_v6(0, 0));
}

fn octets(p: Prefix) -> Vec<u8> {
    let n = usize::from(p.prefix_len).div_ceil(8);
    match p.addr {
        IpAddr::V4(a) => a.to_be_bytes()[..n].to_vec(),
        IpAddr::V6(a) => a.to_be_bytes()[..n].to_vec(),
    }
}

fn update(destination: Prefix, source: Option<Prefix>, metric: u16) -> Vec<BabelTlv> {
    let (ae, next_hop) = match destination.addr {
        IpAddr::V4(_) => (1, IpAddr::V4(0xc0000201)),
        IpAddr::V6(_) => (2, IpAddr::V6(0xfe80_0000_0000_0000_0000_0000_0000_0001)),
    };
    frame(
        next_hop,
        BabelUpdate {
            ae,
            prefix_len: destination.prefix_len,
            prefix: octets(destination),
            src_prefix_len: source.map_or(0, |p| p.prefix_len),
            src_prefix: source.map_or_else(Vec::new, octets),
            seqno: 7,
            metric,
            interval_cs: 300,
        },
    )
}

fn check_distinct_sources(destination: Prefix, sources: [Prefix; 2]) {
    let mut n = Node::new(IpAddr::V4(0xc0000201));
    for source in [None, Some(sources[0]), Some(sources[1])] {
        n.feed(update(destination, source, 96));
    }
    let snapshot = n.r.rib_snapshot();
    assert_eq!(snapshot.len(), 3, "source prefixes must not collide");
    for source in [None, Some(sources[0]), Some(sources[1])] {
        assert!(snapshot.iter().any(|r| r.key.prefix == destination && r.key.source == source));
    }
    n.feed(update(destination, Some(sources[0]), u16::MAX));
    let snapshot = n.r.rib_snapshot();
    assert_eq!(snapshot.len(), 2);
    assert!(snapshot.iter().any(|r| r.key.source.is_none()));
    assert!(snapshot.iter().any(|r| r.key.source == Some(sources[1])));
    assert!(snapshot.iter().all(|r| r.key.source != Some(sources[0])));
}

#[test]
fn ipv4_source_prefixes_coexist_and_withdraw_independently() {
    check_distinct_sources(
        Prefix::new_v4(0xcb007100, 24),
        [Prefix::new_v4(0xc6336400, 24), Prefix::new_v4(0xc6336500, 24)],
    );
}

#[test]
fn ipv6_source_prefixes_coexist_and_withdraw_independently() {
    check_distinct_sources(
        Prefix::new_v6(0x2001_0db8_0001_0000_0000_0000_0000_0000, 48),
        [
            Prefix::new_v6(0x2001_0db8_0002_0000_0000_0000_0000_0000, 48),
            Prefix::new_v6(0x2001_0db8_0003_0000_0000_0000_0000_0000, 48),
        ],
    );
}

#[test]
fn flushing_a_session_withdraws_its_routes() {
    let mut n = Node::new(IpAddr::V4(0xc0000201));
    n.feed(update(Prefix::new_v4(0xcb007100, 24), None, 96));
    assert_eq!(n.r.rib_len(), 1);
    assert_eq!(n.r.session_summaries()[0].state, SummaryState::Babel { up: true });
    n.r.babel_flush_session(n.h);
    n.run();
    assert_eq!(n.r.rib_len(), 0);
    assert!(n.table.is_empty());
    n.feed(update(Prefix::new_v4(0xcb007100, 24), None, 96));
    assert_eq!(n.r.rib_len(), 1, "the session learns again");
}

#[test]
fn a_removed_session_takes_its_routes_along() {
    let mut n = Node::new(IpAddr::V4(0xc0000201));
    n.feed(update(Prefix::new_v4(0xcb007100, 24), None, 96));
    assert_eq!(n.r.rib_len(), 1);
    assert_eq!(n.r.remove_session(n.h), Ok(()));
    n.run();
    assert_eq!(n.r.rib_len(), 0);
    let withdrawn = n.r.poll_events().into_iter().any(|e| {
        matches!(e, RouterEvent::RouteWithdrawn(k) if k.prefix == Prefix::new_v4(0xcb007100, 24))
    });
    assert!(withdrawn);
}

#[test]
fn a_removed_session_leaves_the_routes_of_others() {
    let mut n = Node::new(IpAddr::V4(0xc0000201));
    let first = n.h;
    n.feed(update(Prefix::new_v4(0xcb007100, 24), None, 96));
    let mut cfg = session_config(SessionKind::Babel, peer_config(0, 0, 0));
    cfg.peer.local_address = Some(IpAddr::V4(0xc0000301));
    n.h = n.r.add_session(cfg).unwrap();
    n.table.clear();
    n.feed(update(Prefix::new_v4(0xcb007100, 24), None, 50));
    n.feed(update(Prefix::new_v4(0xcb007200, 24), None, 50));
    assert_eq!(n.r.rib_len(), 2);
    assert_eq!(n.r.remove_session(first), Ok(()));
    n.run();
    assert_eq!(n.r.rib_len(), 2, "what the other session taught stands");
    assert_eq!(n.r.remove_session(n.h), Ok(()));
    n.run();
    assert_eq!(n.r.rib_len(), 0);
}

fn claim(router_id: u64, metric: u32) -> BabelBest {
    BabelBest {
        key: BabelKey { destination: Prefix::new_v4(0xcb007100, 24), source: None, router_id },
        metric,
        next_hop: IpAddr::V4(1),
    }
}

#[test]
fn other_sessions_claims_collapse_to_the_lowest_metric() {
    let mut tables: OrdMap<u64, Vec<BabelBest>> = OrdMap::new();
    tables.insert(1, vec![claim(5, 50)]);
    tables.insert(2, vec![claim(5, 40), claim(6, 90)]);
    tables.insert(3, vec![claim(5, 10)]);
    let seen: Vec<(u64, u32)> =
        babel_reachable(&tables, 3).iter().map(|b| (b.key.router_id, b.metric)).collect();
    assert_eq!(seen, vec![(5, 40), (6, 90)]);
}

#[test]
fn silent_neighbours_lose_everything() {
    assert_eq!(gc_step(false, false), GcStep::ForgetAll);
    assert_eq!(gc_step(false, true), GcStep::Expire);
    assert_eq!(gc_step(true, false), GcStep::Expire);
}

#[test]
fn too_many_octets_spell_nothing() {
    let mut n = Node::new(IpAddr::V4(0xc0000201));
    let mut tlvs = update(Prefix::new_v4(0xcb007100, 24), None, 96);
    if let BabelTlv::Update(u) = &mut tlvs[2] {
        u.prefix = vec![1, 2, 3, 4, 5];
    }
    n.feed(tlvs);
    assert_eq!(n.r.rib_len(), 0);
    let mut tlvs = update(Prefix::new_v4(0xcb007100, 24), None, 96);
    if let BabelTlv::Update(u) = &mut tlvs[2] {
        u.prefix = vec![];
    }
    n.feed(tlvs);
    assert_eq!(n.r.rib_len(), 0, "a longer prefix needs its octets");
}
