//! A router in OSPF areas, with the databases and the shortest-path
//! calculation around it.

use lr_router::addr::{IpAddr, NlriFamily, Prefix};
use lr_router::events::{LogEntry, MaxPrefixAction, RouterError, RouterEvent};
use lr_router::list::List;
use lr_router::ordmap::OrdMap;
use lr_router::ospf::adjacency::{
    DrChange, NeighborState, OspfNetworkType, PacketAction, PacketKind, PacketStage,
};
use lr_router::ospf::area::OspfAreaType;
use lr_router::ospf::facts::{
    ExternalRoute, ExternalRouteV3, IntraRoute, Locator, SpfFacts, SummaryRoute,
};
use lr_router::ospf::lsa::{
    lsa_topology_changed, InstallOutcome, Lsa, LsaContent, LsaHeader, LsaKey,
};
use lr_router::ospf::plan::{ExternalDestination, LsaAction, V3ExternalDestination};
use lr_router::ospf::table::ExternalMetricType;
use lr_router::ospf::tables::ospf_area_table;
use lr_router::route::{Protocol, Route};
use lr_router::router::DefaultRouter;
use lr_router::session::{PeerConfig, SessionConfig, SessionKind};
use lr_router::task::{Answer, RedistributionPipe, Task};
use lr_router::value::Value;
use std::cell::Cell;
use std::collections::{BTreeMap, BTreeSet};
use std::rc::Rc;

/// A peer with every option at rest.
fn peer_config(local_as: u32, peer_as: u32, local_bgp_id: u32) -> PeerConfig {
    PeerConfig {
        peer_id: 0,
        local_as,
        peer_as,
        local_bgp_id,
        external: local_as != peer_as,
        hold_time: 90,
        keepalive: 30,
        asn4: true,
        route_refresh: true,
        enhanced_route_refresh: false,
        add_path: false,
        graceful_restart: false,
        graceful_restart_time: 0,
        long_lived: false,
        long_lived_stale_time: 0,
        mp_families: List::Nil,
        default_ipv4_unicast: true,
        local_as_tolerance: 0,
        soft_reconfig_inbound: false,
        local_address: None,
        extended_next_hop: List::Nil,
        maximum_prefix: None,
        maximum_prefix_action: MaxPrefixAction::Warn,
        maximum_prefix_threshold: 0,
        exchange_plane: None,
    }
}

/// A session of a kind with every other option at rest.
fn session_config(kind: SessionKind, peer: PeerConfig) -> SessionConfig {
    SessionConfig {
        kind,
        peer,
        llgr_max_stale_time: None,
        collision_group: None,
        locally_initiated: false,
        mrai_ms: 0,
        area_id: 0,
        area_type: OspfAreaType::Normal,
        mtu: 1500,
        network_type: OspfNetworkType::PointToPoint,
        interface_ip: None,
        neighbor_ip: None,
    }
}

type Db = BTreeMap<(u16, u32, u32), Lsa>;
type Spf = Box<dyn Fn(u32, &Db) -> SpfFacts>;

const RID: u32 = 0x01010101;
const P2P: u8 = 1;
const STUB: u8 = 3;
const FIRST: u32 = 0x80000001;

/// A router with its databases.
struct Node {
    r: DefaultRouter,
    dbs: BTreeMap<u32, Db>,
    spf: Spf,
    sent: Vec<(u64, Lsa)>,
    versions: Vec<u8>,
}

fn header(ls_type: u16, id: u32, adv: u32, seq: u32, length: usize) -> LsaHeader {
    LsaHeader {
        ls_age: 0,
        options: 2,
        ls_type,
        link_state_id: id,
        advertising_router: adv,
        ls_sequence_number: seq,
        ls_checksum: 0,
        length: 20 + length as u16,
    }
}

fn plain(ls_type: u16, id: u32, adv: u32, content: LsaContent) -> Lsa {
    Lsa { header: header(ls_type, id, adv, FIRST, 0), body: List::Nil, content }
}

/// A router-LSA with `(link_id, link_data, link_type, metric)` links.
fn router_lsa(rid: u32, links: Vec<(u32, u32, u8, u16)>) -> Lsa {
    let mut body = vec![0, 0];
    body.extend_from_slice(&(links.len() as u16).to_be_bytes());
    for (id, data, kind, metric) in links {
        body.extend_from_slice(&id.to_be_bytes());
        body.extend_from_slice(&data.to_be_bytes());
        body.push(kind);
        body.push(0);
        body.extend_from_slice(&metric.to_be_bytes());
    }
    Lsa {
        header: header(1, rid, rid, FIRST, body.len()),
        body: List::from_vec(body),
        content: LsaContent::Opaque,
    }
}

fn word(b: &[u8]) -> u32 {
    u32::from_be_bytes([b[0], b[1], b[2], b[3]])
}

fn links_of(lsa: &Lsa) -> Vec<(u32, u32, u8, u64)> {
    let body = lsa.body.to_vec();
    let mut v = Vec::new();
    let mut at = 4;
    while at + 12 <= body.len() {
        let metric = u16::from_be_bytes([body[at + 10], body[at + 11]]);
        v.push((word(&body[at..]), word(&body[at + 4..]), body[at + 8], metric as u64));
        at += 12;
    }
    v
}

fn live<'a>(db: &'a Db, ls_type: u16) -> Vec<&'a Lsa> {
    db.values().filter(|l| l.header.ls_type == ls_type && l.header.ls_age < 3600).collect()
}

/// Shortest paths of an OSPFv2 area by its router-LSAs, then its summaries.
fn shortest_paths(rid: u32, db: &Db) -> SpfFacts {
    let mut facts = SpfFacts::new();
    let routers: BTreeMap<u32, &Lsa> =
        live(db, 1).into_iter().map(|l| (l.header.advertising_router, l)).collect();
    let mut dist: BTreeMap<u32, u64> = BTreeMap::new();
    let mut hops: BTreeMap<u32, Option<IpAddr>> = BTreeMap::new();
    let mut done: BTreeSet<u32> = BTreeSet::new();
    if routers.contains_key(&rid) {
        dist.insert(rid, 0);
        hops.insert(rid, None);
    }
    while let Some((node, d)) = dist
        .iter()
        .filter(|(n, _)| !done.contains(n))
        .map(|(n, d)| (*n, *d))
        .min_by_key(|(_, d)| *d)
    {
        done.insert(node);
        for (to, _, kind, metric) in links_of(routers[&node]) {
            if kind != P2P || !routers.contains_key(&to) {
                continue;
            }
            let back = links_of(routers[&to]).into_iter().find(|l| l.2 == P2P && l.0 == node);
            let Some((_, address, _, _)) = back else { continue };
            if dist.get(&to).is_none_or(|known| d + metric < *known) {
                dist.insert(to, d + metric);
                let hop = if node == rid {
                    if address == 0 { None } else { Some(IpAddr::V4(address)) }
                } else {
                    hops[&node]
                };
                hops.insert(to, hop);
            }
        }
    }
    for (node, d) in &dist {
        facts.routers.insert(*node, *d);
        if let Some(h) = hops[node] {
            facts.next_hops.insert(*node, h);
        }
        for (id, mask, kind, metric) in links_of(routers[node]) {
            if kind == STUB {
                facts.intra.push(IntraRoute {
                    prefix: Prefix::new_v4(id, mask.count_ones() as u8),
                    metric: d + metric,
                    next_hop: hops[node],
                });
            }
        }
    }
    for l in live(db, 3) {
        let adv = l.header.advertising_router;
        if let LsaContent::Summary { mask, tos0_metric: Some(m) } = l.content {
            if adv != rid {
                if let Some(d) = dist.get(&adv) {
                    facts.summaries.push(SummaryRoute {
                        prefix: Prefix::new_v4(l.header.link_state_id, mask.count_ones() as u8),
                        metric: d + m as u64,
                        border_router: Some(adv),
                        next_hop: hops[&adv],
                    });
                }
            }
        }
    }
    facts
}

fn mask_of(p: &Prefix) -> u32 {
    if p.prefix_len == 0 { 0 } else { u32::MAX << (32 - p.prefix_len as u32) }
}

fn v4_of(p: &Prefix) -> u32 {
    match p.addr {
        IpAddr::V4(a) => a & mask_of(p),
        IpAddr::V6(_) => panic!("an IPv4 prefix"),
    }
}

fn external_content(d: &ExternalDestination) -> LsaContent {
    LsaContent::External {
        mask: mask_of(&d.prefix),
        prefix_len: d.prefix.prefix_len,
        type2: matches!(d.metric_type, ExternalMetricType::Type2),
        metric: d.metric,
        forwarding_addr: d.forwarding_addr,
        route_tag: d.route_tag,
    }
}

/// The LSA an action originates.
fn originated(rid: u32, action: &LsaAction) -> Lsa {
    let (ls_type, id, seq, options, content) = match action {
        LsaAction::Summary { prefix, metric, prev_seq } => (
            3,
            v4_of(prefix),
            prev_seq,
            2,
            LsaContent::Summary { mask: mask_of(prefix), tos0_metric: Some(*metric) },
        ),
        LsaAction::InterAreaPrefix { ls_id, prefix, metric, prev_seq } => (
            0x2003,
            *ls_id,
            prev_seq,
            2,
            LsaContent::InterPrefix {
                prefix_len: prefix.prefix_len,
                prefix: Some(*prefix),
                metric: *metric,
            },
        ),
        LsaAction::SummaryAsbr { asbr, metric, prev_seq } => (
            4,
            *asbr,
            prev_seq,
            2,
            LsaContent::Summary { mask: 0, tos0_metric: Some(*metric) },
        ),
        LsaAction::InterAreaRouter { asbr, options, metric, prev_seq } => (
            0x2004,
            *asbr,
            prev_seq,
            2,
            LsaContent::InterRouter { metric: *metric, options: *options },
        ),
        LsaAction::NssaDefault { metric, prev_seq } => (
            7,
            0,
            prev_seq,
            0,
            LsaContent::External {
                mask: 0,
                prefix_len: 0,
                type2: false,
                metric: *metric,
                forwarding_addr: 0,
                route_tag: 0,
            },
        ),
        LsaAction::External { dest, prev_seq } => {
            (5, v4_of(&dest.prefix), prev_seq, 2, external_content(dest))
        }
        LsaAction::NssaExternal { dest, prev_seq } => (
            7,
            v4_of(&dest.prefix),
            prev_seq,
            if dest.p_bit { 8 } else { 0 },
            external_content(dest),
        ),
        LsaAction::ExternalV3 { ls_id, dest_v3, prev_seq } => (
            0x4005,
            *ls_id,
            prev_seq,
            2,
            LsaContent::ExternalV3 {
                prefix_len: dest_v3.prefix.prefix_len,
                prefix: Some(dest_v3.prefix),
                type2: dest_v3.type2,
                metric: dest_v3.metric,
                forwarding_v6: dest_v3.forwarding_addr,
                tag: dest_v3.route_tag,
            },
        ),
        LsaAction::Flush { .. } => panic!("a flush originates nothing"),
    };
    let seq = seq.map_or(FIRST, |s| s + 1);
    let mut lsa = plain(ls_type, id, rid, content);
    lsa.header.ls_sequence_number = seq;
    lsa.header.options = options;
    lsa
}

fn key_of(l: &Lsa) -> (u16, u32, u32) {
    (l.header.ls_type, l.header.link_state_id, l.header.advertising_router)
}

fn as_map(db: &Db) -> OrdMap<LsaKey, Lsa> {
    let mut m = OrdMap::new();
    for l in db.values() {
        m.insert(l.key(), l.dup());
    }
    m
}

fn install(db: &mut Db, lsa: &Lsa) -> InstallOutcome {
    let key = key_of(lsa);
    let known = db.get(&key).map(|l| l.header.ls_sequence_number);
    if known.is_some_and(|s| s >= lsa.header.ls_sequence_number) {
        return InstallOutcome::Ignored;
    }
    if lsa.header.ls_age >= 3600 {
        return if db.remove(&key).is_some() {
            InstallOutcome::Purged
        } else {
            InstallOutcome::Ignored
        };
    }
    db.insert(key, lsa.dup());
    if known.is_some() { InstallOutcome::Replaced } else { InstallOutcome::New }
}

impl Node {
    fn new(rid: u32) -> Node {
        Node {
            r: DefaultRouter::new(),
            dbs: BTreeMap::new(),
            spf: Box::new(move |_, db| shortest_paths(rid, db)),
            sent: vec![],
            versions: vec![],
        }
    }

    fn try_add(&mut self, cfg: SessionConfig) -> Result<u64, RouterError> {
        let area = cfg.area_id;
        let h = self.r.add_session(cfg)?;
        self.dbs.entry(area).or_default();
        self.run();
        Ok(h)
    }

    fn add(&mut self, cfg: SessionConfig) -> u64 {
        self.try_add(cfg).unwrap()
    }

    fn refresh(&mut self, area: u32) {
        let db = self.dbs.entry(area).or_default();
        let (lsdb, facts) = (as_map(db), (self.spf)(area, db));
        self.r.refresh_area(area, lsdb, facts);
    }

    fn flood(&mut self, area: u32, lsa: &Lsa) {
        let lsas = List::from_vec(vec![lsa.dup()]);
        for (h, packet) in self.r.ospf_flood(area, &lsas, None) {
            self.versions.push(packet.version);
            self.sent.push((h, packet.lsas.to_vec().remove(0)));
        }
    }

    /// Works the agenda off.
    fn run(&mut self) {
        while let Some(task) = self.r.pending() {
            let answer = match task {
                Task::ApplyPlans { plans } => {
                    let rid = self.r.ospf.router_id.unwrap_or(0);
                    let mut changed = false;
                    for plan in plans.to_vec() {
                        for action in plan.actions.to_vec() {
                            let db = self.dbs.entry(plan.area).or_default();
                            let lsa = match action {
                                LsaAction::Flush { key } => {
                                    let at =
                                        (key.ls_type, key.link_state_id, key.advertising_router);
                                    let mut lsa = db[&at].dup();
                                    lsa.header.ls_age = 3600;
                                    lsa.header.ls_sequence_number += 1;
                                    lsa
                                }
                                _ => originated(rid, &action),
                            };
                            if install(db, &lsa) != InstallOutcome::Ignored {
                                changed = true;
                                self.flood(plan.area, &lsa);
                            }
                        }
                        self.refresh(plan.area);
                    }
                    Answer::Changed(changed)
                }
                Task::Discard { area, keys } => {
                    let area = *area;
                    for k in keys.to_vec() {
                        self.dbs.get_mut(&area).unwrap().remove(&(
                            k.ls_type,
                            k.link_state_id,
                            k.advertising_router,
                        ));
                    }
                    self.refresh(area);
                    Answer::Done
                }
                Task::InstallLsa { area, lsa, .. } | Task::MirrorLsa { area, lsa, .. } => {
                    let area = *area;
                    let outcome = install(self.dbs.entry(area).or_default(), lsa);
                    self.refresh(area);
                    Answer::Installed(outcome)
                }
                Task::SendLsas { session, packet } => {
                    assert_eq!(packet.kind, 4);
                    assert_eq!(packet.lsa_count as usize, packet.lsas.to_vec().len());
                    self.versions.push(packet.version);
                    for l in packet.lsas.to_vec() {
                        self.sent.push((*session, l));
                    }
                    Answer::Done
                }
                Task::ForgetArea { area } => {
                    self.dbs.remove(area);
                    Answer::Done
                }
                Task::AgeDatabases => Answer::Changed(false),
                Task::Rank { candidates, .. } => {
                    let v = candidates.to_vec();
                    let mut order: Vec<usize> = (0..v.len()).collect();
                    order.sort_by_key(|i| v[*i].preference.admin_distance);
                    Answer::Ranked(order)
                }
                Task::AskPipe { route, .. } => Answer::Piped(Some(route.preference.metric)),
                _ => Answer::Done,
            };
            self.r.step(answer);
        }
    }

    fn feed(&mut self, h: u64, lsas: Vec<Lsa>) {
        self.r.receive_lsas(h, lsas);
        self.run();
    }

    /// What was sent on a session since the last call.
    fn drain(&mut self, h: u64) -> Vec<Lsa> {
        let (mine, others) = std::mem::take(&mut self.sent).into_iter().partition(|(s, _)| *s == h);
        self.sent = others;
        let mine: Vec<(u64, Lsa)> = mine;
        mine.into_iter().map(|(_, l)| l).collect()
    }

    fn route(&self, prefix: Prefix) -> Option<Route> {
        self.r.rib_snapshot().into_iter().find(|r| r.key.prefix == prefix)
    }
}

fn session(kind: SessionKind, rid: u32, area: u32) -> SessionConfig {
    let mut cfg = session_config(kind, peer_config(0, 0, rid));
    cfg.area_id = area;
    cfg
}

fn v2(area: u32) -> SessionConfig {
    session(SessionKind::Ospfv2, RID, area)
}

fn net(a: u8, b: u8, c: u8) -> Prefix {
    Prefix::new_v4(u32::from_be_bytes([a, b, c, 0]), 24)
}

fn summary_lsa(adv: u32, prefix: Prefix, metric: u32) -> Lsa {
    plain(
        3,
        v4_of(&prefix),
        adv,
        LsaContent::Summary { mask: mask_of(&prefix), tos0_metric: Some(metric) },
    )
}

fn grace_lsa(rid: u32, period: u32, seq: u32) -> Lsa {
    let mut l = plain(
        9,
        0x0300_0000,
        rid,
        LsaContent::Grace {
            period,
            reason: 1,
            addr_v4: Some(u32::from_be_bytes([192, 0, 2, 1])),
            addr_v6: None,
        },
    );
    l.header.ls_sequence_number = seq;
    l
}

#[test]
fn ospf_grace_lsa_emits_event_not_installed_not_flooded() {
    let mut n = Node::new(RID);
    let a = n.add(v2(0));
    let b = n.add(v2(0));
    let peer = 0x02020202;
    n.feed(a, vec![grace_lsa(peer, 60, FIRST)]);
    let events = n.r.drain_ospf_grace_events();
    assert_eq!(events.len(), 1, "one event per instance");
    assert_eq!(events[0].area, 0);
    assert_eq!(events[0].advertising_router, peer);
    assert_eq!(events[0].grace_period_secs, 60);
    assert_eq!(events[0].reason, 1);
    assert_eq!(events[0].interface_addr_v4, Some(u32::from_be_bytes([192, 0, 2, 1])));
    assert_eq!(events[0].interface_addr_v6, None);
    assert_eq!(events[0].ls_age_secs, 0);
    assert!(!events[0].purged);
    assert!(n.r.ospf_area_lsa(0, 9, 0x0300_0000, peer).is_none());
    assert!(n.drain(b).is_empty());
    assert!(n.drain(a).is_empty());
    assert_eq!(n.dbs[&0].len(), 0);
}

#[test]
fn ospf_grace_lsa_retransmission_emits_no_second_event() {
    let mut n = Node::new(RID);
    let a = n.add(v2(0));
    let peer = 0x02020202;
    n.feed(a, vec![grace_lsa(peer, 60, FIRST)]);
    assert_eq!(n.r.drain_ospf_grace_events().len(), 1);
    n.feed(a, vec![grace_lsa(peer, 60, FIRST)]);
    assert!(n.r.drain_ospf_grace_events().is_empty());
    n.feed(a, vec![grace_lsa(peer, 120, FIRST + 1)]);
    assert_eq!(n.r.drain_ospf_grace_events().len(), 1);
}

#[test]
fn ospf_grace_lsa_flush_emits_purged_event() {
    let mut n = Node::new(RID);
    let a = n.add(v2(0));
    let peer = 0x02020202;
    n.feed(a, vec![grace_lsa(peer, 60, FIRST)]);
    let _ = n.r.drain_ospf_grace_events();
    let mut flush = grace_lsa(peer, 0, FIRST + 1);
    flush.header.ls_age = 3600;
    flush.content = LsaContent::Opaque;
    n.feed(a, vec![flush]);
    let events = n.r.drain_ospf_grace_events();
    let ev = events.iter().find(|e| e.purged).expect("a purged event");
    assert_eq!(ev.ls_age_secs, 3600);
    assert_eq!(ev.advertising_router, peer);
    assert_eq!((ev.grace_period_secs, ev.reason), (60, 1), "as last announced");
    assert_eq!(ev.interface_addr_v4, None);
}

#[test]
fn a_flush_without_announcement_stands_for_nothing() {
    let mut n = Node::new(RID);
    let a = n.add(v2(0));
    let mut flush = grace_lsa(0x02020202, 60, FIRST);
    flush.header.ls_age = 3600;
    n.feed(a, vec![flush]);
    let events = n.r.drain_ospf_grace_events();
    assert_eq!((events[0].grace_period_secs, events[0].reason), (0, 0));
    assert!(events[0].purged);
}

#[test]
fn malformed_grace_lsas_are_reported() {
    let mut n = Node::new(RID);
    let a = n.add(v2(0));
    let mut bad = grace_lsa(0x02020202, 60, FIRST);
    bad.content = LsaContent::Opaque;
    n.feed(a, vec![bad]);
    assert!(n.r.drain_ospf_grace_events().is_empty());
    let logged = n.r.poll_events().iter().any(|e| {
        matches!(
            e,
            RouterEvent::Log(LogEntry::MalformedGrace { router: 0x02020202, area: 0 })
        )
    });
    assert!(logged);
}

#[test]
fn ospfv3_grace_lsa_emits_event_not_installed() {
    let mut n = Node::new(RID);
    let a = n.add(session(SessionKind::Ospfv3, RID, 0));
    let peer = 0x02020202;
    let address = 0xfe80_0000_0000_0000_0000_0000_0000_002a;
    let content =
        LsaContent::Grace { period: 90, reason: 2, addr_v4: None, addr_v6: Some(address) };
    n.feed(a, vec![plain(0x000b, 5, peer, content)]);
    let events = n.r.drain_ospf_grace_events();
    assert_eq!(events.len(), 1, "one event per instance");
    assert_eq!(events[0].area, 0);
    assert_eq!(events[0].advertising_router, peer);
    assert_eq!(events[0].grace_period_secs, 90);
    assert_eq!(events[0].reason, 2);
    assert_eq!(events[0].interface_addr_v4, None);
    assert_eq!(events[0].interface_addr_v6, Some(address));
    assert_eq!(events[0].ls_age_secs, 0);
    assert!(!events[0].purged);
    assert!(n.r.ospf_area_lsa(0, 0x000b, 5, peer).is_none());
    let mut flush = plain(0x000b, 5, peer, content);
    flush.header.ls_sequence_number = 0x8000_005b;
    flush.header.ls_age = 3600;
    n.feed(a, vec![flush]);
    let events = n.r.drain_ospf_grace_events();
    assert_eq!(events.len(), 1);
    assert!(events[0].purged);
}

#[test]
fn ospf_topology_version_bumps_on_content_change_only() {
    let mut n = Node::new(RID);
    let a = n.add(v2(0));
    let peer = 0x02020202;
    assert_eq!(n.r.ospf_area_topology_version(0), Some(0));
    n.feed(a, vec![router_lsa(peer, vec![(0x03030303, 0xc0a80101, P2P, 10)])]);
    assert_eq!(n.r.ospf_area_topology_version(0), Some(1));
    let mut refresh = router_lsa(peer, vec![(0x03030303, 0xc0a80101, P2P, 10)]);
    refresh.header.ls_sequence_number = FIRST + 1;
    n.feed(a, vec![refresh]);
    assert_eq!(n.r.ospf_area_topology_version(0), Some(1), "a refresh is no change");
    let mut changed = router_lsa(peer, vec![]);
    changed.header.ls_sequence_number = FIRST + 2;
    n.feed(a, vec![changed]);
    assert_eq!(n.r.ospf_area_topology_version(0), Some(2));
    let read = n.r.ospf_area_lsa(0, 1, peer, peer);
    assert!(read.is_some());
    assert_eq!(read.unwrap().header.ls_sequence_number, FIRST + 2);
}

#[test]
fn ospf_area_lsa_unknown_area_is_none() {
    let r = DefaultRouter::new();
    assert!(r.ospf_area_lsa(7, 1, 0, 0).is_none());
    assert!(r.ospf_area_topology_version(7).is_none());
}

#[test]
fn ospf_same_area_sessions_share_lsdb() {
    let mut n = Node::new(RID);
    let a = n.add(v2(0));
    let b = n.add(v2(0));
    n.feed(a, vec![router_lsa(RID, vec![(0x0a0a0a00, 0xffff_ff00, STUB, 10)])]);
    let flooded = n.drain(b);
    assert_eq!(flooded.len(), 1, "session b sees the flooded LSA");
    assert_eq!(flooded[0].header.advertising_router, RID);
    assert!(n.drain(a).is_empty(), "no flood back to the source");
    assert!(n.route(net(10, 10, 10)).is_some());
}

fn abr_lsas() -> (Lsa, Lsa) {
    let ours = router_lsa(RID, vec![(0x02020202, 0, P2P, 5)]);
    let r2 =
        router_lsa(0x02020202, vec![(RID, 0, P2P, 5), (0x0a0a0a00, 0xffff_ff00, STUB, 10)]);
    (ours, r2)
}

#[test]
fn ospf_abr_originates_summary_into_backbone() {
    let mut n = Node::new(RID);
    let h0 = n.add(v2(0));
    let h1 = n.add(v2(1));
    let (ours, r2) = abr_lsas();
    n.feed(h1, vec![ours, r2]);
    assert_eq!(n.route(net(10, 10, 10)).expect("installed").preference.metric, 15);
    let updates = n.drain(h0);
    assert_eq!(updates.len(), 1);
    let lsa = &updates[0];
    assert_eq!(lsa.header.ls_type, 3);
    assert_eq!(lsa.header.advertising_router, RID);
    assert_eq!(lsa.header.link_state_id, 0x0a0a0a00);
    assert_eq!(lsa.header.ls_sequence_number, FIRST);
    assert_eq!(
        lsa.content,
        LsaContent::Summary { mask: 0xffff_ff00, tos0_metric: Some(15) }
    );
    assert!(n.drain(h1).is_empty());
}

#[test]
fn ospf_inter_area_route_installed() {
    let mut n = Node::new(RID);
    let h0 = n.add(v2(0));
    n.feed(
        h0,
        vec![
            router_lsa(RID, vec![(0x03030303, 0, P2P, 5)]),
            router_lsa(0x03030303, vec![(RID, 0, P2P, 5)]),
            summary_lsa(0x03030303, net(10, 20, 20), 7),
            summary_lsa(0x09090909, net(10, 30, 30), 7),
        ],
    );
    let route = n.route(net(10, 20, 20)).expect("by a reachable border router");
    assert_eq!(route.preference.metric, 12);
    assert_eq!(route.protocol, Protocol::Ospfv2);
    assert!(n.route(net(10, 30, 30)).is_none(), "not by an unreachable one");
}

#[test]
fn ospf_inter_area_loop_guard() {
    let mut n = Node::new(RID);
    let h0 = n.add(v2(0));
    let h1 = n.add(v2(1));
    let h2 = n.add(v2(2));
    n.feed(
        h1,
        vec![
            router_lsa(RID, vec![(0x04040404, 0, P2P, 5)]),
            router_lsa(0x04040404, vec![(RID, 0, P2P, 5)]),
            summary_lsa(0x04040404, net(10, 40, 40), 7),
        ],
    );
    n.feed(h2, vec![router_lsa(RID, vec![(0x0a323200, 0xffff_ff00, STUB, 3)])]);
    assert_eq!(n.route(net(10, 40, 40)).expect("usable here").preference.metric, 12);
    assert!(n.drain(h2).is_empty(), "inter-area knowledge does not transit areas");
    let backbone: Vec<u32> = n.drain(h0).iter().map(|l| l.header.link_state_id).collect();
    assert_eq!(backbone, vec![0x0a323200]);
}

#[test]
fn ospf_summary_flushed_when_net_disappears() {
    let mut n = Node::new(RID);
    let h0 = n.add(v2(0));
    let h1 = n.add(v2(1));
    let (ours, r2) = abr_lsas();
    let mut gone = r2.dup();
    n.feed(h1, vec![ours, r2]);
    assert!(n.route(net(10, 10, 10)).is_some());
    let _ = n.drain(h0);
    gone.header.ls_age = 3600;
    gone.header.ls_sequence_number += 1;
    n.feed(h1, vec![gone]);
    let updates = n.drain(h0);
    let flushed = updates
        .iter()
        .find(|l| l.header.ls_type == 3 && l.header.link_state_id == 0x0a0a0a00)
        .expect("the summary is flushed");
    assert_eq!(flushed.header.ls_age, 3600);
    assert!(n.route(net(10, 10, 10)).is_none());
}

#[test]
fn ospf_no_backbone_no_summaries() {
    let mut n = Node::new(RID);
    let h1 = n.add(v2(1));
    let h2 = n.add(v2(2));
    n.feed(h1, vec![router_lsa(RID, vec![(0x0a0a0a00, 0xffff_ff00, STUB, 10)])]);
    assert!(n.drain(h1).is_empty());
    assert!(n.drain(h2).is_empty());
    assert!(n.route(net(10, 10, 10)).is_some());
}

#[test]
fn ospf_area_teardown_with_last_session() {
    let mut n = Node::new(RID);
    let h0 = n.add(v2(0));
    let h1 = n.add(v2(1));
    n.feed(h0, vec![router_lsa(RID, vec![(0x0b0b0b00, 0xffff_ff00, STUB, 4)])]);
    n.feed(h1, vec![router_lsa(RID, vec![(0x0c0c0c00, 0xffff_ff00, STUB, 6)])]);
    assert_eq!(n.r.rib_snapshot().len(), 2);
    n.r.remove_session(h1).unwrap();
    n.run();
    assert!(n.route(net(12, 12, 12)).is_none(), "gone with its area");
    assert!(n.route(net(11, 11, 11)).is_some(), "other areas keep theirs");
}

#[test]
fn ospf_rejects_mismatched_router_id_and_version() {
    let mut n = Node::new(RID);
    let _h = n.add(v2(0));
    assert_eq!(
        n.try_add(session(SessionKind::Ospfv2, 0x02020202, 1)),
        Err(RouterError::RouterIdMismatch { requested: 0x02020202, existing: RID })
    );
    assert_eq!(
        n.try_add(session(SessionKind::Ospfv3, RID, 0)),
        Err(RouterError::AreaProtocol { area: 0, v3: false })
    );
    let mut stub_backbone = Node::new(RID);
    let mut cfg = v2(0);
    cfg.area_type = OspfAreaType::stub(1);
    assert_eq!(stub_backbone.try_add(cfg), Err(RouterError::BackboneType));
}

fn v6(hi: u64, lo: u64) -> u128 {
    ((hi as u128) << 64) | lo as u128
}

fn external_v3(prefix: Prefix, metric: u32) -> V3ExternalDestination {
    V3ExternalDestination { prefix, metric, type2: true, forwarding_addr: None, route_tag: None }
}

#[test]
fn ospfv3_redistribute_originates_as_external() {
    let rid = 0x0a00_0001;
    let mut n = Node::new(rid);
    n.spf = Box::new(|_, _| SpfFacts::new());
    let _h = n.add(session(SessionKind::Ospfv3, rid, 0));
    let p = Prefix::new_v6(v6(0x2001_0db8_beef_0000, 0), 48);
    let mut dest = external_v3(p, 100);
    dest.route_tag = Some(7);
    assert!(n.r.ospf_redistribute_v3(dest), "accepted");
    n.run();
    let lsa = n.r.ospf_area_lsa(0, 0x4005, 1, rid).expect("originated");
    assert_eq!(
        lsa.content,
        LsaContent::ExternalV3 {
            prefix_len: 48,
            prefix: Some(p),
            type2: true,
            metric: 100,
            forwarding_v6: None,
            tag: Some(7),
        }
    );
    let mut bad = external_v3(p, 100);
    bad.forwarding_addr = Some(v6(0xfe80_0000_0000_0000, 0));
    assert!(!n.r.ospf_redistribute_v3(bad), "a link-local address is refused");
    bad.forwarding_addr = Some(0);
    assert!(!n.r.ospf_redistribute_v3(bad), "so is the unspecified one");
    assert!(n.r.ospf_unredistribute_v3(p));
    n.run();
    assert!(n.r.ospf_area_lsa(0, 0x4005, 1, rid).is_none());
    assert!(!n.r.ospf_unredistribute_v3(p), "already withdrawn");
}

/// The neighbour `0x0a00_0002` at metric 10 by its link-local address.
fn v3_facts() -> SpfFacts {
    let mut facts = SpfFacts::new();
    facts.routers.insert(0x0a00_0002, 10);
    facts.next_hops.insert(0x0a00_0002, IpAddr::V6(v6(0xfe80_0000_0000_0000, 2)));
    facts
}

fn v3_node(facts: Spf) -> (Node, u64) {
    let rid = 0x0a00_0001;
    let mut n = Node::new(rid);
    n.spf = facts;
    let h = n.add(session(SessionKind::Ospfv3, rid, 0));
    (n, h)
}

fn trigger(n: &mut Node, h: u64) {
    n.feed(h, vec![plain(0x2001, 0, 0x0a00_0002, LsaContent::Opaque)]);
}

const LL2: IpAddr = IpAddr::V6(0xfe80_0000_0000_0000_0000_0000_0000_0002);

#[test]
fn ospfv3_routes_publish_as_ipv6_with_link_local_next_hop() {
    let prefix = Prefix::new_v6(v6(0x2001_00b8_0000_0002, 0), 64);
    let (mut n, h) = v3_node(Box::new(move |_, _| {
        let mut f = v3_facts();
        f.intra.push(IntraRoute { prefix, metric: 10, next_hop: Some(LL2) });
        f
    }));
    trigger(&mut n, h);
    let got = n.route(prefix).expect("published");
    assert_eq!(got.protocol, Protocol::Ospfv3);
    assert_eq!(got.key.family, NlriFamily::ipv6_unicast());
    assert_eq!(got.next_hop, Some(LL2));
    assert_eq!(got.preference.metric, 10);
}

#[test]
fn ospf_area_type_mismatch_rejected_and_runtime_change_allowed() {
    let mut n = Node::new(RID);
    let with = |kind| {
        let mut cfg = v2(1);
        cfg.area_type = kind;
        cfg
    };
    n.add(with(OspfAreaType::nssa(10)));
    assert_eq!(
        n.try_add(with(OspfAreaType::stub(5))),
        Err(RouterError::AreaTypeMismatch {
            area: 1,
            existing_type: OspfAreaType::nssa(10),
            requested_type: OspfAreaType::stub(5),
        })
    );
    assert!(n.try_add(with(OspfAreaType::nssa(10))).is_ok());
    assert!(n.r.ospf_set_area_type(1, OspfAreaType::stub(5)));
    n.run();
    assert!(!n.r.ospf_set_area_type(1, OspfAreaType::stub(5)), "nothing to change");
    assert!(!n.r.ospf_set_area_type(99, OspfAreaType::stub(5)));
}

#[test]
fn converting_an_area_drops_what_it_refuses() {
    let mut n = Node::new(RID);
    n.spf = Box::new(|_, _| SpfFacts::new());
    let h1 = n.add(v2(1));
    let external = LsaContent::External {
        mask: 0xffff_ff00,
        prefix_len: 24,
        type2: false,
        metric: 1,
        forwarding_addr: 0,
        route_tag: 0,
    };
    n.feed(h1, vec![plain(5, 0x0a141400, 0x02020202, external)]);
    let dest = ExternalDestination {
        prefix: net(10, 30, 30),
        metric: 20,
        metric_type: ExternalMetricType::Type1,
        forwarding_addr: 0,
        route_tag: 0,
        p_bit: true,
    };
    assert!(n.r.ospf_redistribute(dest));
    n.run();
    assert_eq!(live(&n.dbs[&1], 5).len(), 2);
    let _ = n.drain(h1);
    assert!(n.r.ospf_set_area_type(1, OspfAreaType::stub(5)));
    n.run();
    assert!(live(&n.dbs[&1], 5).is_empty(), "a stub area carries no externals");
    let flushed: Vec<(u32, u16)> = n
        .drain(h1)
        .iter()
        .map(|l| (l.header.link_state_id, l.header.ls_age))
        .collect();
    assert_eq!(flushed, vec![(0x0a1e1e00, 3600)], "the own one is flushed");
}

/// A network redistributed into OSPFv2.
fn ten_slash_eight() -> ExternalDestination {
    ExternalDestination {
        prefix: Prefix::new_v4(0x0a00_0000, 8),
        metric: 20,
        metric_type: ExternalMetricType::Type2,
        forwarding_addr: 0,
        route_tag: 0,
        p_bit: false,
    }
}

#[test]
fn a_stub_area_made_regular_gets_the_redistributions() {
    let mut n = Node::new(RID);
    n.spf = Box::new(|_, _| SpfFacts::new());
    let mut cfg = v2(1);
    cfg.area_type = OspfAreaType::stub(5);
    n.add(cfg);
    assert!(n.r.ospf_redistribute(ten_slash_eight()));
    n.run();
    assert!(n.r.ospf_area_lsa(1, 5, 0x0a00_0000, RID).is_none());
    assert!(n.r.ospf_set_area_type(1, OspfAreaType::Normal));
    n.run();
    assert!(n.r.ospf_area_lsa(1, 5, 0x0a00_0000, RID).is_some());
}

#[test]
fn a_regular_area_made_not_so_stubby_gets_type_7() {
    let mut n = Node::new(RID);
    n.spf = Box::new(|_, _| SpfFacts::new());
    n.add(v2(1));
    assert!(n.r.ospf_redistribute(ten_slash_eight()));
    n.run();
    assert!(n.r.ospf_area_lsa(1, 5, 0x0a00_0000, RID).is_some());
    assert!(n.r.ospf_set_area_type(1, OspfAreaType::nssa(10)));
    n.run();
    assert!(n.r.ospf_area_lsa(1, 5, 0x0a00_0000, RID).is_none(), "flushed");
    assert!(n.r.ospf_area_lsa(1, 7, 0x0a00_0000, RID).is_some(), "in its place");
    assert!(n.r.ospf_set_area_type(1, OspfAreaType::Normal));
    n.run();
    assert!(n.r.ospf_area_lsa(1, 5, 0x0a00_0000, RID).is_some());
    assert!(n.r.ospf_area_lsa(1, 7, 0x0a00_0000, RID).is_none());
}

#[test]
fn an_ospfv3_area_made_regular_gets_the_redistributions() {
    let mut n = Node::new(RID);
    n.spf = Box::new(|_, _| SpfFacts::new());
    n.add(session(SessionKind::Ospfv3, RID, 1));
    let prefix = Prefix::new_v6(v6(0x2001_0db8_0000_0000, 0), 32);
    assert!(n.r.ospf_redistribute_v3(external_v3(prefix, 20)));
    n.run();
    assert_eq!(live(&n.dbs[&1], 0x4005).len(), 1);
    assert!(n.r.ospf_set_area_type(1, OspfAreaType::stub(5)));
    n.run();
    assert!(live(&n.dbs[&1], 0x4005).is_empty(), "a stub area carries no externals");
    assert!(n.r.ospf_set_area_type(1, OspfAreaType::Normal));
    n.run();
    assert_eq!(live(&n.dbs[&1], 0x4005).len(), 1);
}

#[test]
fn an_area_attached_again_starts_with_an_empty_database() {
    let mut n = Node::new(RID);
    n.spf = Box::new(|_, _| SpfFacts::new());
    n.add(v2(0));
    let h = n.add(v2(1));
    n.feed(h, vec![router_lsa(0x02020202, vec![])]);
    assert!(n.r.ospf_area_lsa(1, 1, 0x02020202, 0x02020202).is_some());
    n.r.remove_session(h).unwrap();
    n.run();
    assert!(!n.dbs.contains_key(&1), "the database goes with the area");
    n.add(v2(1));
    n.refresh(1);
    assert!(n.r.ospf_area_lsa(1, 1, 0x02020202, 0x02020202).is_none());
}

fn sr_facts(with_label: bool) -> SpfFacts {
    let mut f = SpfFacts::new();
    let hop = IpAddr::V4(0x0a000002);
    f.routers.insert(0x02020202, 10);
    f.next_hops.insert(0x02020202, hop);
    f.intra.push(IntraRoute { prefix: net(10, 20, 0), metric: 15, next_hop: Some(hop) });
    if with_label {
        f.labels.insert(net(10, 20, 0), (16_100, hop));
    }
    f
}

#[test]
fn ospf_sr_labels_follow_the_prefix_sid_when_enabled() {
    let build = |sr_receive: bool| {
        let mut n = Node::new(RID);
        n.r.set_ospf_sr_receive(sr_receive);
        n.spf = Box::new(|_, _| sr_facts(true));
        let h = n.add(v2(0));
        n.feed(h, vec![router_lsa(0x02020202, vec![])]);
        n
    };
    let route = build(false).route(net(10, 20, 0)).expect("installed");
    assert!(route.next_hop.is_none());
    assert!(route.attributes.labels.is_empty());
    let route = build(true).route(net(10, 20, 0)).expect("installed");
    assert_eq!(route.preference.metric, 15);
    assert_eq!(route.next_hop, Some(IpAddr::V4(0x0a000002)));
    assert_eq!(route.attributes.labels.to_vec(), vec![16_100]);
}

#[test]
fn ospf_sr_php_drops_the_label_for_adjacent_originators() {
    let mut n = Node::new(RID);
    n.r.set_ospf_sr_receive(true);
    n.spf = Box::new(|_, _| sr_facts(false));
    let h = n.add(v2(0));
    n.feed(h, vec![router_lsa(0x02020202, vec![])]);
    let route = n.route(net(10, 20, 0)).expect("installed");
    assert!(route.next_hop.is_none());
    assert!(route.attributes.labels.is_empty());
}

#[test]
fn ospf_sr_mapping_server_range_labels_covered_prefixes() {
    let mut n = Node::new(RID);
    n.r.set_ospf_sr_receive(true);
    n.spf = Box::new(|_, _| {
        let mut f = SpfFacts::new();
        let hop = IpAddr::V4(0x0a000002);
        f.routers.insert(0x02020202, 10);
        f.next_hops.insert(0x02020202, hop);
        for (i, prefix) in [net(10, 77, 0), net(10, 77, 1)].iter().enumerate() {
            f.intra.push(IntraRoute { prefix: *prefix, metric: 15, next_hop: Some(hop) });
            f.mapping_labels.insert(*prefix, 16_500 + i as u32);
        }
        f
    });
    let h = n.add(v2(0));
    n.feed(h, vec![router_lsa(0x02020202, vec![])]);
    for (prefix, label) in [(net(10, 77, 0), 16_500), (net(10, 77, 1), 16_501)] {
        let route = n.route(prefix).expect("installed");
        assert_eq!(route.preference.metric, 15);
        assert_eq!(route.next_hop, Some(IpAddr::V4(0x0a000002)));
        assert_eq!(route.attributes.labels.to_vec(), vec![label]);
    }
}

fn locator_node(receive: bool, algorithm: u8, iap: Option<u64>) -> (Node, Prefix) {
    let prefix = Prefix::new_v6(v6(0x2001_0db8_0001_0000, 0), 48);
    let (mut n, h) = v3_node(Box::new(move |_, _| {
        let mut f = v3_facts();
        f.locators.push(Locator { prefix, metric: 10, next_hop: Some(LL2), algorithm });
        if let Some(metric) = iap {
            f.intra.push(IntraRoute { prefix, metric, next_hop: Some(LL2) });
        }
        f
    }));
    n.r.set_ospf_srv6_receive(receive);
    trigger(&mut n, h);
    (n, prefix)
}

#[test]
fn ospfv3_srv6_locator_publishes_with_receive_on() {
    let (n, prefix) = locator_node(true, 0, None);
    let got = n.route(prefix).expect("published");
    assert_eq!(got.protocol, Protocol::Ospfv3);
    assert_eq!(got.key.family, NlriFamily::ipv6_unicast());
    assert_eq!(got.next_hop, Some(LL2));
    assert_eq!(got.preference.metric, 10);
    assert!(n.r.ospf_srv6_receive());
}

#[test]
fn ospfv3_srv6_locator_inert_without_receive() {
    let (n, prefix) = locator_node(false, 0, None);
    assert!(n.route(prefix).is_none());
}

#[test]
fn ospfv3_srv6_iap_prefix_beats_locator_for_the_same_prefix() {
    let (n, prefix) = locator_node(true, 0, Some(20));
    assert_eq!(n.route(prefix).expect("installed").preference.metric, 20);
}

#[test]
fn ospfv3_srv6_unsupported_algorithm_not_installed() {
    let (n, prefix) = locator_node(true, 128, None);
    assert!(n.route(prefix).is_none());
}

#[test]
fn ospfv3_inter_area_and_external_routes_published() {
    let p6 = Prefix::new_v6(v6(0x2001_0db8_000a_0000, 0), 48);
    let ep = Prefix::new_v6(v6(0x2001_0db8_000b_0000, 0), 48);
    let (mut n, h) = v3_node(Box::new(move |_, _| {
        let mut f = v3_facts();
        f.summaries.push(SummaryRoute {
            prefix: p6,
            metric: 17,
            border_router: Some(0x0a00_0002),
            next_hop: Some(LL2),
        });
        f.externals_v3.push(ExternalRouteV3 {
            prefix: ep,
            metric: 100,
            metric_type: ExternalMetricType::Type2,
            asbr: 0x0a00_0002,
            forwarding_addr: None,
            internal_cost: 10,
            next_hop: Some(LL2),
        });
        f
    }));
    trigger(&mut n, h);
    let summary = n.route(p6).expect("inter-area route published");
    assert_eq!(summary.protocol, Protocol::Ospfv3);
    assert_eq!(summary.preference.metric, 17);
    assert_eq!(summary.next_hop, Some(LL2));
    let external = n.route(ep).expect("external route published");
    assert_eq!(external.protocol, Protocol::Ospfv3);
    assert_eq!(external.preference.metric, 100);
    assert_eq!(external.next_hop, Some(LL2));
}

#[test]
fn ospfv3_external_forwarding_address_next_hop() {
    let ep = Prefix::new_v6(v6(0x2001_0db8_000c_0000, 0), 48);
    let fa = IpAddr::V6(v6(0x2001_0db8_0002_0200, 1));
    let (mut n, h) = v3_node(Box::new(move |_, _| {
        let mut f = v3_facts();
        f.externals_v3.push(ExternalRouteV3 {
            prefix: ep,
            metric: 30,
            metric_type: ExternalMetricType::Type2,
            asbr: 0x0a00_0002,
            forwarding_addr: Some(fa),
            internal_cost: 10,
            next_hop: Some(LL2),
        });
        f
    }));
    trigger(&mut n, h);
    let route = n.route(ep).expect("published");
    assert_eq!(route.protocol, Protocol::Ospfv3);
    assert_eq!(route.preference.metric, 30);
    assert_eq!(route.next_hop, Some(fa), "the forwarding address, not the boundary router");
}

#[test]
fn ospfv3_abr_originates_inter_area_prefix() {
    let rid = 0x0a00_0001;
    let p2 = Prefix::new_v6(v6(0x2001_0db8_0002_0200, 0), 64);
    let mut n = Node::new(rid);
    n.spf = Box::new(move |area, _| {
        if area == 1 {
            let mut f = v3_facts();
            f.intra.push(IntraRoute { prefix: p2, metric: 10, next_hop: Some(LL2) });
            f
        } else {
            SpfFacts::new()
        }
    });
    n.add(session(SessionKind::Ospfv3, rid, 0));
    let h1 = n.add(session(SessionKind::Ospfv3, rid, 1));
    trigger(&mut n, h1);
    let summary = n.r.ospf_area_lsa(0, 0x2003, 1, rid).expect("originated into the backbone");
    assert_eq!(
        summary.content,
        LsaContent::InterPrefix { prefix_len: 64, prefix: Some(p2), metric: 10 }
    );
    assert!(n.r.ospf_area_lsa(1, 0x2003, 1, rid).is_none());
}

#[test]
fn ospfv3_stubby_areas_get_the_default() {
    for kind in [
        OspfAreaType::stub(5),
        OspfAreaType::nssa(5),
        OspfAreaType::Nssa { no_summary: true, default_metric: 5 },
    ] {
        let mut n = Node::new(RID);
        n.spf = Box::new(|_, _| SpfFacts::new());
        n.add(session(SessionKind::Ospfv3, RID, 0));
        let mut cfg = session(SessionKind::Ospfv3, RID, 1);
        cfg.area_type = kind;
        let h = n.add(cfg);
        trigger(&mut n, h);
        let default = n.r.ospf_area_lsa(1, 0x2003, 1, RID).expect("the default");
        assert_eq!(
            default.content,
            LsaContent::InterPrefix { prefix_len: 0, prefix: Some(Prefix::new_v6(0, 0)), metric: 5 }
        );
    }
}

#[test]
fn ospfv3_abr_originates_inter_area_router() {
    let (rid, r3) = (0x0a00_0001, 0x0a00_0003);
    let mut n = Node::new(rid);
    n.spf = Box::new(move |area, _| {
        let mut f = SpfFacts::new();
        if area == 1 {
            f = v3_facts();
            f.routers.insert(r3, 20);
            f.router_options.insert(r3, 0x13);
        }
        f
    });
    n.add(session(SessionKind::Ospfv3, rid, 0));
    let h1 = n.add(session(SessionKind::Ospfv3, rid, 1));
    let prefix = Prefix::new_v6(v6(0x2001_0db8_aa00_0000, 0), 48);
    let external = LsaContent::ExternalV3 {
        prefix_len: 48,
        prefix: Some(prefix),
        type2: true,
        metric: 100,
        forwarding_v6: None,
        tag: None,
    };
    n.feed(h1, vec![plain(0x4005, 1, r3, external)]);
    assert_eq!(live(&n.dbs[&0], 0x4005).len(), 1, "externals reach the backbone");
    let summary = n.r.ospf_area_lsa(0, 0x2004, r3, rid).expect("originated into the backbone");
    assert_eq!(summary.content, LsaContent::InterRouter { metric: 20, options: 0x13 });
}

#[test]
fn ospfv3_flooded_lsas_carry_v3_wire_shape() {
    let (mut n, h) = v3_node(Box::new(|_, _| v3_facts()));
    let other = n.add(session(SessionKind::Ospfv3, 0x0a00_0001, 0));
    trigger(&mut n, h);
    assert_eq!(n.drain(other).len(), 1, "flooded");
    assert_eq!(n.versions, vec![3]);
}

#[test]
fn redistribution_reaches_every_area_by_its_type() {
    let mut n = Node::new(RID);
    n.spf = Box::new(|_, _| SpfFacts::new());
    let mut nssa = v2(1);
    nssa.area_type = OspfAreaType::nssa(10);
    let mut stub = v2(2);
    stub.area_type = OspfAreaType::stub(10);
    n.add(v2(0));
    n.add(nssa);
    let dest = ExternalDestination {
        prefix: Prefix::new_v4(0x0a1e1e05, 24),
        metric: 20,
        metric_type: ExternalMetricType::Type1,
        forwarding_addr: 0,
        route_tag: 9,
        p_bit: true,
    };
    assert!(!n.r.ospf_is_asbr());
    assert!(n.r.ospf_redistribute(dest));
    n.run();
    n.add(stub);
    assert!(n.r.ospf_is_asbr());
    assert!(n.r.ospf_router_lsa_flags(0).asbr);
    assert!(n.r.ospf_router_lsa_flags(0).border);
    let type5 = n.r.ospf_area_lsa(0, 5, 0x0a1e1e00, RID).expect("a type-5 in the backbone");
    assert_eq!(
        type5.content,
        LsaContent::External {
            mask: 0xffff_ff00,
            prefix_len: 24,
            type2: false,
            metric: 20,
            forwarding_addr: 0,
            route_tag: 9,
        }
    );
    let type7 = n.r.ospf_area_lsa(1, 7, 0x0a1e1e00, RID).expect("a type-7 in the NSSA");
    assert_eq!(type7.header.options & 8, 0, "not to be translated again");
    assert!(live(&n.dbs[&2], 5).is_empty(), "nothing in the stub area");
    assert!(n.r.ospf_unredistribute(net(10, 30, 30)));
    n.run();
    assert!(live(&n.dbs[&0], 5).is_empty());
    assert!(n.r.ospf_area_lsa(1, 7, 0x0a1e1e00, RID).is_none());
    assert!(!n.r.ospf_unredistribute(net(10, 30, 30)));
    assert!(!n.r.ospf_redistribute(ExternalDestination {
        prefix: Prefix::new_v6(1, 128),
        ..dest
    }));
}

#[test]
fn later_areas_catch_up_on_redistributions() {
    let mut n = Node::new(RID);
    n.spf = Box::new(|_, _| SpfFacts::new());
    let dest = ExternalDestination {
        prefix: net(10, 30, 30),
        metric: 20,
        metric_type: ExternalMetricType::Type2,
        forwarding_addr: 0,
        route_tag: 0,
        p_bit: true,
    };
    assert!(n.r.ospf_redistribute(dest), "recorded before any area is attached");
    n.run();
    n.add(v2(0));
    assert!(n.r.ospf_area_lsa(0, 5, 0x0a1e1e00, RID).is_some());
    n.add(v2(3));
    assert!(n.r.ospf_area_lsa(3, 5, 0x0a1e1e00, RID).is_some());
}

#[test]
fn elected_translators_turn_type_7_into_type_5() {
    let mut n = Node::new(RID);
    n.spf = Box::new(|area, _| {
        let mut f = SpfFacts::new();
        f.translator = area == 1;
        f
    });
    let mut nssa = v2(1);
    nssa.area_type = OspfAreaType::nssa(10);
    n.add(v2(0));
    let h1 = n.add(nssa);
    let content = LsaContent::External {
        mask: 0xffff_ff00,
        prefix_len: 24,
        type2: true,
        metric: 33,
        forwarding_addr: 0x0a000009,
        route_tag: 4,
    };
    let mut type7 = plain(7, 0x0a3c3c00, 0x02020202, content);
    type7.header.options = 8;
    n.feed(h1, vec![type7.dup()]);
    let type5 = n.r.ospf_area_lsa(0, 5, 0x0a3c3c00, RID).expect("translated");
    assert_eq!(type5.content, content);
    // Without the P-bit the translation ends.
    type7.header.options = 0;
    type7.header.ls_sequence_number += 1;
    n.feed(h1, vec![type7]);
    assert!(n.r.ospf_area_lsa(0, 5, 0x0a3c3c00, RID).is_none());
}

#[test]
fn nssa_areas_get_a_default() {
    let mut n = Node::new(RID);
    n.spf = Box::new(|_, _| SpfFacts::new());
    let mut nssa = v2(1);
    nssa.area_type = OspfAreaType::nssa(10);
    let h0 = n.add(v2(0));
    n.add(nssa);
    n.feed(h0, vec![router_lsa(0x02020202, vec![])]);
    let default = n.r.ospf_area_lsa(1, 7, 0, RID).expect("a type-7 default");
    assert!(matches!(default.content, LsaContent::External { mask: 0, metric: 10, .. }));
}

#[test]
fn virtual_links_attach_the_backbone() {
    let mut n = Node::new(RID);
    let h1 = n.add(v2(1));
    assert!(!n.r.ospf_add_virtual_link(1, RID), "not to oneself");
    assert!(!n.r.ospf_add_virtual_link(7, 0x02020202), "not through unknown areas");
    assert!(n.r.ospf_add_virtual_link(1, 0x02020202));
    n.run();
    assert!(!n.r.ospf_add_virtual_link(1, 0x02020202), "only once");
    assert!(!n.r.ospf_virtual_link_up(1, 0x02020202));
    assert!(n.r.ospf_router_lsa_flags(1).virtual_link);
    let (ours, r2) = abr_lsas();
    let mut gone = r2.dup();
    n.feed(h1, vec![ours, r2]);
    assert!(n.r.ospf_virtual_link_up(1, 0x02020202), "the endpoint is reachable");
    let carrier = n.r.ospf_virtual_link_session(1, 0x02020202).expect("a session carries it");
    assert!(n.r.ospf_router_lsa_flags(1).border);
    assert_eq!(n.drain(carrier).len(), 1, "the backbone gets the summary");
    gone.header.ls_age = 3600;
    gone.header.ls_sequence_number += 1;
    n.feed(h1, vec![gone]);
    assert!(!n.r.ospf_virtual_link_up(1, 0x02020202));
    assert!(!n.r.ospf.areas.contains_key(&0), "the backbone goes with its last session");
    assert!(n.r.ospf_remove_virtual_link(1, 0x02020202));
    assert!(!n.r.ospf_remove_virtual_link(1, 0x02020202));
}

#[test]
fn elections_form_and_break_adjacencies() {
    let mut n = Node::new(RID);
    let mut cfg = v2(0);
    cfg.network_type = OspfNetworkType::Broadcast;
    cfg.interface_ip = Some(0x0a000001);
    cfg.neighbor_ip = Some(0x0a000002);
    let h = n.add(cfg);
    assert_eq!(n.r.ospf_neighbor_stepped(h, NeighborState::TwoWay, false), Ok(PacketAction::Done));
    assert_eq!(n.r.set_ospf_dr_state(h, 0x0a000001, 0), Ok(DrChange::Form));
    assert_eq!(n.r.set_ospf_dr_state(h, 0x0a000001, 0), Ok(DrChange::Unchanged));
    assert_eq!(
        n.r.ospf_neighbor_stepped(h, NeighborState::ExStart, false),
        Ok(PacketAction::InitialDbDesc { seq: RID | 1 })
    );
    n.r.ospf_neighbor_stepped(h, NeighborState::Full, true).unwrap();
    assert_eq!(n.r.set_ospf_dr_state(h, 0x0a000007, 0x0a000008), Ok(DrChange::Break));
    let runtime = n.r.ospf_session(h).unwrap();
    assert!(!runtime.exchange_started);
    let (action, stage) = runtime.handle_packet(PacketKind::DbDesc, PacketStage::Received, 0);
    assert_eq!((action, stage), (PacketAction::Exchange, PacketStage::Finished));
    assert_eq!(n.r.set_ospf_dr_state(99, 1, 2), Err(RouterError::UnknownSession(99)));
    let babel = n
        .r
        .add_session(session_config(SessionKind::Babel, peer_config(0, 0, 0)))
        .unwrap();
    assert_eq!(n.r.set_ospf_dr_state(babel, 1, 2), Err(RouterError::NotOspf(babel)));
}

#[test]
fn pipes_carry_statics_into_ospf() {
    let mut n = Node::new(RID);
    n.spf = Box::new(|_, _| SpfFacts::new());
    n.add(v2(0));
    n.r.install_static(net(10, 30, 30), NlriFamily::ipv4_unicast(), None, 42, None);
    n.run();
    n.r.add_redistribution_pipe(RedistributionPipe {
        id: 1,
        source: Protocol::Static,
        target: Protocol::Ospfv2,
        tag: 6,
    });
    n.run();
    let lsa = n.r.ospf_area_lsa(0, 5, 0x0a1e1e00, RID).expect("redistributed");
    assert!(matches!(lsa.content, LsaContent::External { metric: 42, route_tag: 6, .. }));
}

#[test]
fn externals_are_preferred_by_type() {
    let mut n = Node::new(RID);
    n.spf = Box::new(|area, _| {
        let mut f = SpfFacts::new();
        let external = |metric, metric_type| ExternalRoute {
            prefix: net(10, 30, 30),
            metric,
            metric_type,
            asbr: 0x02020202,
            forwarding_addr: 0,
            internal_cost: 5,
        };
        f.routers.insert(0x02020202, 5);
        if area == 0 {
            f.externals.push(external(1, ExternalMetricType::Type2));
        } else {
            f.externals.push(external(50, ExternalMetricType::Type1));
        }
        f
    });
    let h = n.add(v2(0));
    let g = n.add(v2(1));
    n.feed(h, vec![router_lsa(0x02020202, vec![])]);
    assert_eq!(n.route(net(10, 30, 30)).expect("installed").preference.metric, 1);
    n.feed(g, vec![router_lsa(0x02020202, vec![])]);
    assert_eq!(n.route(net(10, 30, 30)).expect("installed").preference.metric, 50);
}

#[test]
fn nssa_lsas_shape_the_topology_in_every_version() {
    let changed = |t| {
        let lsa = plain(t, 1, 2, LsaContent::Opaque);
        lsa_topology_changed(&None, &lsa, InstallOutcome::New)
    };
    assert!(changed(0x2007));
    assert!(changed(0xa027));
    assert!(changed(7));
    assert!(!changed(0x2008));
    assert!(!changed(9));
}

#[test]
fn the_better_intra_area_route_fills_the_table() {
    let prefix = net(10, 20, 20);
    let route = |metric| IntraRoute { prefix, metric, next_hop: None };
    let mut facts = SpfFacts::new();
    facts.intra.push(route(5));
    facts.intra.push(route(10));
    let table = ospf_area_table(&OspfAreaType::Normal, &facts);
    assert_eq!(table.get(&prefix).map(|e| e.metric), Some(5));
    facts.intra.push(route(3));
    let table = ospf_area_table(&OspfAreaType::Normal, &facts);
    assert_eq!(table.get(&prefix).map(|e| e.metric), Some(3));
    facts.summaries.push(SummaryRoute { prefix, metric: 1, border_router: None, next_hop: None });
    let table = ospf_area_table(&OspfAreaType::Normal, &facts);
    assert_eq!(table.get(&prefix).map(|e| (e.is_intra(), e.metric)), Some((true, 3)));
}

#[test]
fn the_asbr_bit_counts_both_versions() {
    let mut n = Node::new(RID);
    n.spf = Box::new(|_, _| SpfFacts::new());
    n.add(v2(0));
    assert!(!n.r.ospf_router_lsa_flags(0).asbr);
    let p = Prefix::new_v6(v6(0x2001_0db8_0001_0000, 0), 48);
    assert!(n.r.ospf_redistribute_v3(external_v3(p, 100)));
    n.run();
    assert!(n.r.ospf_is_asbr());
    assert!(n.r.ospf_router_lsa_flags(0).asbr);
    assert!(n.r.ospf_unredistribute(p));
    n.run();
    assert!(!n.r.ospf_is_asbr());
    assert!(!n.r.ospf_router_lsa_flags(0).asbr);
}

#[test]
fn a_redistributed_default_takes_the_place_of_the_injected_one() {
    let default = ExternalDestination {
        prefix: Prefix::new_v4(0, 0),
        metric: 5,
        metric_type: ExternalMetricType::Type2,
        forwarding_addr: 0,
        route_tag: 0,
        p_bit: false,
    };
    let mut nssa = v2(1);
    nssa.area_type = OspfAreaType::nssa(10);
    let mut n = Node::new(RID);
    n.spf = Box::new(|_, _| SpfFacts::new());
    n.add(nssa);
    assert!(n.r.ospf_redistribute(default));
    n.run();
    let lsa = n.r.ospf_area_lsa(1, 7, 0, RID).expect("originated in the area");
    assert!(matches!(lsa.content, LsaContent::External { type2: true, metric: 5, .. }));

    let mut nssa = v2(1);
    nssa.area_type = OspfAreaType::nssa(10);
    let mut n = Node::new(RID);
    n.spf = Box::new(|_, _| SpfFacts::new());
    let h0 = n.add(v2(0));
    n.add(nssa);
    n.feed(h0, vec![router_lsa(0x02020202, vec![])]);
    assert!(n.r.ospf_redistribute(default));
    n.run();
    let lsa = n.r.ospf_area_lsa(1, 7, 0, RID).expect("in place of the injected one");
    assert!(matches!(lsa.content, LsaContent::External { type2: true, metric: 5, .. }));
    assert!(n.r.ospf_unredistribute(Prefix::new_v4(0, 0)));
    n.run();
    let lsa = n.r.ospf_area_lsa(1, 7, 0, RID).expect("injected again");
    assert!(matches!(lsa.content, LsaContent::External { metric: 10, .. }));
}

#[test]
fn summarised_prefixes_never_share_an_identifier() {
    let rid = 0x0a00_0001;
    let p = Prefix::new_v6(v6(0x2001_0db8_0001_0000, 0), 64);
    let q = Prefix::new_v6(v6(0x2001_0db8_0002_0000, 0), 64);
    let present = Rc::new(Cell::new((true, false)));
    let seen = present.clone();
    let mut n = Node::new(rid);
    n.spf = Box::new(move |area, _| {
        let mut f = v3_facts();
        let (with_p, with_q) = seen.get();
        if area == 1 && with_p {
            f.intra.push(IntraRoute { prefix: p, metric: 10, next_hop: Some(LL2) });
        }
        if area == 1 && with_q {
            f.intra.push(IntraRoute { prefix: q, metric: 20, next_hop: Some(LL2) });
        }
        f
    });
    n.add(session(SessionKind::Ospfv3, rid, 0));
    let h1 = n.add(session(SessionKind::Ospfv3, rid, 1));
    let mut instance = FIRST;
    let mut look = |n: &mut Node, with: (bool, bool)| -> BTreeMap<u32, Option<Prefix>> {
        present.set(with);
        let mut lsa = plain(0x2001, 0, 0x0a00_0002, LsaContent::Opaque);
        lsa.header.ls_sequence_number = instance;
        instance += 1;
        n.feed(h1, vec![lsa]);
        live(&n.dbs[&0], 0x2003)
            .iter()
            .map(|l| match l.content {
                LsaContent::InterPrefix { prefix, .. } => (l.header.link_state_id, prefix),
                _ => panic!("an inter-area prefix"),
            })
            .collect()
    };
    assert_eq!(look(&mut n, (true, false)), BTreeMap::from([(1, Some(p))]));
    assert_eq!(look(&mut n, (false, true)), BTreeMap::from([(2, Some(q))]), "1 stays with `p`");
    assert_eq!(look(&mut n, (true, true)), BTreeMap::from([(1, Some(p)), (2, Some(q))]));
    assert_eq!(look(&mut n, (true, false)), BTreeMap::from([(1, Some(p))]));
}

#[test]
fn external_prefixes_recorded_early_get_identifiers_of_their_own() {
    let mut n = Node::new(RID);
    n.spf = Box::new(|_, _| SpfFacts::new());
    n.add(v2(0));
    let p = Prefix::new_v6(v6(0x2001_0db8_0001_0000, 0), 48);
    let q = Prefix::new_v6(v6(0x2001_0db8_0002_0000, 0), 48);
    assert!(n.r.ospf_redistribute_v3(external_v3(p, 100)));
    assert!(n.r.ospf_redistribute_v3(external_v3(q, 100)));
    n.run();
    n.add(session(SessionKind::Ospfv3, RID, 1));
    let described: BTreeMap<u32, Option<Prefix>> = live(&n.dbs[&1], 0x4005)
        .iter()
        .map(|l| match l.content {
            LsaContent::ExternalV3 { prefix, .. } => (l.header.link_state_id, prefix),
            _ => panic!("an external prefix"),
        })
        .collect();
    assert_eq!(described.len(), 2);
    let prefixes: BTreeSet<Option<u128>> = described
        .values()
        .map(|p| match p.map(|p| p.addr) {
            Some(IpAddr::V6(a)) => Some(a),
            _ => None,
        })
        .collect();
    assert_eq!(
        prefixes,
        BTreeSet::from([
            Some(v6(0x2001_0db8_0001_0000, 0)),
            Some(v6(0x2001_0db8_0002_0000, 0)),
        ])
    );
}

#[test]
fn topology_versions_rise_wherever_a_database_changes() {
    let mut n = Node::new(RID);
    n.spf = Box::new(|_, _| SpfFacts::new());
    n.add(v2(0));
    let h1 = n.add(v2(1));
    let version = |n: &Node, area| n.r.ospf_area_topology_version(area).unwrap();
    let before = (version(&n, 0), version(&n, 1));
    let external = LsaContent::External {
        mask: 0xffff_ff00,
        prefix_len: 24,
        type2: false,
        metric: 1,
        forwarding_addr: 0,
        route_tag: 0,
    };
    n.feed(h1, vec![plain(5, 0x0a141400, 0x02020202, external)]);
    assert_eq!((version(&n, 0), version(&n, 1)), (before.0 + 1, before.1 + 1));
    // The same again, and a refresh, change nothing.
    n.feed(h1, vec![plain(5, 0x0a141400, 0x02020202, external)]);
    let mut refresh = plain(5, 0x0a141400, 0x02020202, external);
    refresh.header.ls_sequence_number = FIRST + 1;
    n.feed(h1, vec![refresh]);
    assert_eq!((version(&n, 0), version(&n, 1)), (before.0 + 1, before.1 + 1));
    // This router's own LSAs count, and so do their flushes.
    let dest = ExternalDestination {
        prefix: net(10, 30, 30),
        metric: 20,
        metric_type: ExternalMetricType::Type1,
        forwarding_addr: 0,
        route_tag: 0,
        p_bit: true,
    };
    assert!(n.r.ospf_redistribute(dest));
    n.run();
    assert_eq!((version(&n, 0), version(&n, 1)), (before.0 + 2, before.1 + 2));
    assert!(n.r.ospf_unredistribute(net(10, 30, 30)));
    n.run();
    assert_eq!((version(&n, 0), version(&n, 1)), (before.0 + 3, before.1 + 3));
    // What an area refuses after a conversion leaves it.
    assert!(n.r.ospf_set_area_type(1, OspfAreaType::stub(5)));
    n.run();
    assert!(version(&n, 1) > before.1 + 3);
}
