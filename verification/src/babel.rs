//! The Babel plane: what received frames mean for the neighbour and route
//! tables, and how feasible routes become Loc-RIB routes.

use crate::addr::{IpAddr, Prefix};
use crate::delta::{changed_routes, diff_tables, gone_keys, RuntimeDelta};
use crate::list::List;
use crate::ordmap::{lookup, sorted, Key, OrdMap};
use crate::ordmap::lemma_digits;
use crate::route::{
    unicast_family, Attributes, Preference, Protocol, Route, RouteKey, RouteOrigin, ORIGIN_BABEL,
};
use crate::value::Value;
use vstd::prelude::*;

verus! {

/// Metric of a retraction.
pub const INFINITY: u16 = 0xffff;

/// What identifies a Babel route: destination, source prefix where it is
/// source-specific, and the originating router.
#[derive(Clone, Copy, Debug, PartialEq, Eq, Structural)]
pub struct BabelKey {
    pub destination: Prefix,
    pub source: Option<Prefix>,
    pub router_id: u64,
}

/// A received Update.
#[derive(Debug)]
pub struct BabelUpdate {
    pub ae: u8,
    pub prefix_len: u8,
    pub prefix: Vec<u8>,
    pub src_prefix_len: u8,
    pub src_prefix: Vec<u8>,
    pub seqno: u16,
    pub metric: u16,
    pub interval_cs: u16,
}

/// A decoded element of a frame.
#[derive(Debug)]
pub enum BabelTlv {
    Hello { seqno: u16, interval_cs: u16, timestamp: Option<u32> },
    Ihu { rxcost: u16, interval_cs: u16, echo: Option<(u32, u32)> },
    RouterId(u64),
    NextHop(IpAddr),
    Update(BabelUpdate),
    Other,
}

/// A change to the neighbour or route table.
#[derive(Clone, Copy, Debug, PartialEq, Eq, Structural)]
pub enum BabelAction {
    Hello { seqno: u16, interval_cs: u16 },
    HelloTimestamped { seqno: u16, interval_cs: u16, timestamp: u32, now_us: u32 },
    Ihu { rxcost: u16, interval_cs: u16 },
    IhuEcho { rxcost: u16, interval_cs: u16, ts1: u32, ts2: u32 },
    Withdraw(BabelKey),
    Insert { key: BabelKey, seqno: u16, metric: u32, next_hop: IpAddr, interval_cs: u16 },
}

/// A feasible route of the Babel table.
#[derive(Clone, Copy, Debug, PartialEq, Eq, Structural)]
pub struct BabelBest {
    pub key: BabelKey,
    pub metric: u32,
    pub next_hop: IpAddr,
}

/// One Babel adjacency.
#[derive(Debug)]
pub struct BabelRuntime {
    pub address: IpAddr,
    pub heard: bool,
    pub next_hop: Option<IpAddr>,
    pub router_id: u64,
    pub published: List<Route>,
}

/// The number a sequence of octets spells in network order.
pub open spec fn spelled(s: Seq<u8>) -> nat
    decreases s.len(),
{
    if s.len() == 0 {
        0
    } else {
        spelled(s.drop_last()) * 256 + s.last() as nat
    }
}

/// Octets followed by zeros up to a width.
pub open spec fn padded(s: Seq<u8>, width: nat) -> Seq<u8> {
    Seq::new(
        width,
        |i: int|
            if i < s.len() {
                s[i]
            } else {
                0u8
            },
    )
}

/// The power of 256.
pub open spec fn pow256(n: nat) -> nat
    decreases n,
{
    if n == 0 {
        1
    } else {
        pow256((n - 1) as nat) * 256
    }
}

proof fn lemma_pow256_mono(a: nat, b: nat)
    requires
        a <= b,
    ensures
        pow256(a) <= pow256(b),
        pow256(a) >= 1,
    decreases b,
{
    if a < b {
        lemma_pow256_mono(a, (b - 1) as nat);
    } else if a > 0 {
        lemma_pow256_mono((a - 1) as nat, (a - 1) as nat);
    }
}

proof fn lemma_spelled_bound(s: Seq<u8>)
    ensures
        spelled(s) < pow256(s.len()),
    decreases s.len(),
{
    if s.len() > 0 {
        lemma_spelled_bound(s.drop_last());
    }
}

fn spell_v4(s: &Vec<u8>) -> (a: u32)
    requires
        s@.len() <= 4,
    ensures
        a == spelled(padded(s@, 4)),
{
    let ghost all = padded(s@, 4);
    let mut acc: u32 = 0;
    let mut i: usize = 0;
    proof {
        reveal_with_fuel(pow256, 5);
        assert(pow256(4) == 0x1_0000_0000);
    }
    while i < 4
        invariant
            i <= 4,
            s@.len() <= 4,
            all == padded(s@, 4),
            acc == spelled(all.take(i as int)),
            pow256(4) == 0x1_0000_0000,
        decreases 4 - i,
    {
        let octet: u8 = if i < s.len() {
            s[i]
        } else {
            0
        };
        proof {
            let next = all.take(i + 1);
            assert(next.drop_last() == all.take(i as int));
            assert(next.last() == octet);
            lemma_spelled_bound(next);
            lemma_pow256_mono(next.len(), 4);
        }
        acc = acc * 256 + octet as u32;
        i = i + 1;
    }
    assert(all.take(4) == all);
    acc
}

fn spell_v6(s: &Vec<u8>) -> (a: u128)
    requires
        s@.len() <= 16,
    ensures
        a == spelled(padded(s@, 16)),
{
    let ghost all = padded(s@, 16);
    let mut acc: u128 = 0;
    let mut i: usize = 0;
    proof {
        reveal_with_fuel(pow256, 17);
        assert(pow256(16) == 0x1_0000_0000_0000_0000_0000_0000_0000_0000);
    }
    while i < 16
        invariant
            i <= 16,
            s@.len() <= 16,
            all == padded(s@, 16),
            acc == spelled(all.take(i as int)),
            pow256(16) == 0x1_0000_0000_0000_0000_0000_0000_0000_0000,
        decreases 16 - i,
    {
        let octet: u8 = if i < s.len() {
            s[i]
        } else {
            0
        };
        proof {
            let next = all.take(i + 1);
            assert(next.drop_last() == all.take(i as int));
            assert(next.last() == octet);
            lemma_spelled_bound(next);
            lemma_pow256_mono(next.len(), 16);
        }
        acc = acc * 256 + octet as u128;
        i = i + 1;
    }
    assert(all.take(16) == all);
    acc
}

/// The prefix an address encoding spells: encoding 1 is IPv4, 2 is IPv6; any
/// other or too many octets spell none. No octets at all spell the default
/// prefix, and nothing else.
pub open spec fn spelled_prefix(ae: u8, octets: Seq<u8>, len: u8) -> Option<Prefix> {
    if octets.len() == 0 && len != 0 {
        None
    } else if ae == 1 && octets.len() <= 4 {
        Some(Prefix { addr: IpAddr::V4(spelled(padded(octets, 4)) as u32), prefix_len: len })
    } else if ae == 2 && octets.len() <= 16 {
        Some(Prefix { addr: IpAddr::V6(spelled(padded(octets, 16)) as u128), prefix_len: len })
    } else {
        None
    }
}

fn spell_prefix(ae: u8, octets: &Vec<u8>, len: u8) -> (p: Option<Prefix>)
    ensures
        p == spelled_prefix(ae, octets@, len),
{
    if octets.len() == 0 && len != 0 {
        return None;
    }
    if ae == 1 && octets.len() <= 4 {
        Some(Prefix::new_v4(spell_v4(octets), len))
    } else if ae == 2 && octets.len() <= 16 {
        Some(Prefix::new_v6(spell_v6(octets), len))
    } else {
        None
    }
}

/// What an Update means: nothing when its prefix does not decode, a
/// retraction at infinite metric, else a route through the announced next
/// hop or the neighbour itself.
pub open spec fn update_actions(
    u: BabelUpdate,
    router_id: u64,
    next_hop: Option<IpAddr>,
    address: IpAddr,
) -> Seq<BabelAction> {
    match spelled_prefix(u.ae, u.prefix@, u.prefix_len) {
        None => Seq::empty(),
        Some(destination) => {
            let source = if u.src_prefix_len > 0 {
                spelled_prefix(u.ae, u.src_prefix@, u.src_prefix_len)
            } else {
                None
            };
            let key = BabelKey { destination, source, router_id };
            if u.metric == INFINITY {
                seq![BabelAction::Withdraw(key)]
            } else {
                seq![
                    BabelAction::Insert {
                        key,
                        seqno: u.seqno,
                        metric: u.metric as u32,
                        next_hop: match next_hop {
                            Some(nh) => nh,
                            None => address,
                        },
                        interval_cs: u.interval_cs,
                    },
                ]
            }
        },
    }
}

/// The router ID and next hop in force after some elements of a frame.
pub open spec fn frame_state(
    tlvs: Seq<BabelTlv>,
    router_id: u64,
    next_hop: Option<IpAddr>,
) -> (u64, Option<IpAddr>)
    decreases tlvs.len(),
{
    if tlvs.len() == 0 {
        (router_id, next_hop)
    } else {
        let (id, nh) = frame_state(tlvs.drop_last(), router_id, next_hop);
        match tlvs.last() {
            BabelTlv::RouterId(r) => (r, nh),
            BabelTlv::NextHop(a) => (id, Some(a)),
            _ => (id, nh),
        }
    }
}

/// What a frame means, element by element. Router IDs and next hops apply to
/// the Updates after them.
pub open spec fn frame_actions(
    tlvs: Seq<BabelTlv>,
    router_id: u64,
    next_hop: Option<IpAddr>,
    address: IpAddr,
    now_us: u32,
) -> Seq<BabelAction>
    decreases tlvs.len(),
{
    if tlvs.len() == 0 {
        Seq::empty()
    } else {
        let front = tlvs.drop_last();
        let (id, nh) = frame_state(front, router_id, next_hop);
        frame_actions(front, router_id, next_hop, address, now_us) + (match tlvs.last() {
            BabelTlv::Hello { seqno, interval_cs, timestamp: Some(timestamp) } => seq![
                BabelAction::HelloTimestamped { seqno, interval_cs, timestamp, now_us },
            ],
            BabelTlv::Hello { seqno, interval_cs, timestamp: None } => seq![
                BabelAction::Hello { seqno, interval_cs },
            ],
            BabelTlv::Ihu { rxcost, interval_cs, echo: Some((ts1, ts2)) } => seq![
                BabelAction::IhuEcho { rxcost, interval_cs, ts1, ts2 },
            ],
            BabelTlv::Ihu { rxcost, interval_cs, echo: None } => seq![
                BabelAction::Ihu { rxcost, interval_cs },
            ],
            BabelTlv::Update(u) => update_actions(u, id, nh, address),
            _ => Seq::empty(),
        })
    }
}

/// The Loc-RIB route of a feasible Babel route. An unspecified next hop
/// stands for the neighbour's.
pub open spec fn babel_route(r: BabelBest, router_id: u64, default_hop: IpAddr) -> Route {
    Route {
        key: RouteKey {
            prefix: r.key.destination,
            family: unicast_family(r.key.destination),
            source: r.key.source,
        },
        origin: RouteOrigin { proto: ORIGIN_BABEL, peer: (router_id % 0x1_0000_0000) as u64 },
        protocol: Protocol::Babel,
        preference: Preference { admin_distance: Protocol::Babel.distance(), metric: r.metric },
        next_hop: Some(
            if r.next_hop == IpAddr::V4(0) {
                default_hop
            } else {
                r.next_hop
            },
        ),
        attributes: Attributes::none(),
        age_ms: 0,
        path_id: 0,
        tag: None,
    }
}

/// The routes of a list of feasible routes.
pub open spec fn babel_routes(
    best: Seq<BabelBest>,
    router_id: u64,
    default_hop: IpAddr,
) -> Seq<Route> {
    Seq::new(best.len(), |i: int| babel_route(best[i], router_id, default_hop))
}

/// A table of routes under their own keys; a later one replaces an earlier.
pub open spec fn table_of(routes: Seq<Route>) -> Map<RouteKey, Route>
    decreases routes.len(),
{
    if routes.len() == 0 {
        Map::empty()
    } else {
        table_of(routes.drop_last()).insert(routes.last().key, routes.last())
    }
}

/// The values of a table in key order.
pub open spec fn table_values(m: Map<RouteKey, Route>) -> Seq<Route> {
    Seq::new(sorted(m).len(), |i: int| sorted(m)[i].1)
}

fn build_table(routes: &Vec<Route>) -> (t: OrdMap<RouteKey, Route>)
    ensures
        t@ == table_of(routes@),
{
    let mut t: OrdMap<RouteKey, Route> = OrdMap::new();
    let mut i: usize = 0;
    while i < routes.len()
        invariant
            i <= routes@.len(),
            t@ == table_of(routes@.take(i as int)),
        decreases routes@.len() - i,
    {
        assert(routes@.take(i + 1).drop_last() == routes@.take(i as int));
        t.insert(routes[i].key, routes[i].dup());
        i = i + 1;
    }
    assert(routes@.take(routes@.len() as int) == routes@);
    t
}

fn list_values(t: &OrdMap<RouteKey, Route>) -> (l: List<Route>)
    ensures
        l.seq() == table_values(t@),
        l == List::of(table_values(t@)),
{
    let mut v: Vec<Route> = Vec::new();
    let n: usize = t.len();
    let mut i: usize = 0;
    while i < n
        invariant
            i <= n == t.entries().len(),
            v@ == Seq::new(i as nat, |j: int| t.entries()[j].1),
        decreases n - i,
    {
        v.push(t.value_at(i).dup());
        i = i + 1;
    }
    assert(v@ == table_values(t@));
    List::from_vec(v)
}

impl BabelRuntime {
    /// A fresh adjacency with the neighbour at `address`.
    pub fn new(address: IpAddr) -> (r: BabelRuntime)
        ensures
            r == (BabelRuntime {
                address,
                heard: false,
                next_hop: None,
                router_id: 0,
                published: List::Nil,
            }),
    {
        BabelRuntime { address, heard: false, next_hop: None, router_id: 0, published: List::Nil }
    }

    /// The next hop used where a route names none.
    pub open spec fn default_hop(self) -> IpAddr {
        match self.next_hop {
            Some(nh) => nh,
            None => self.address,
        }
    }

    /// Interprets an Update.
    pub fn apply_update(&self, u: &BabelUpdate) -> (a: Option<BabelAction>)
        ensures
            update_actions(*u, self.router_id, self.next_hop, self.address) == (match a {
                Some(x) => seq![x],
                None => Seq::empty(),
            }),
    {
        let destination = match spell_prefix(u.ae, &u.prefix, u.prefix_len) {
            Some(p) => p,
            None => {
                return None;
            },
        };
        let source = if u.src_prefix_len > 0 {
            spell_prefix(u.ae, &u.src_prefix, u.src_prefix_len)
        } else {
            None
        };
        let key = BabelKey { destination, source, router_id: self.router_id };
        if u.metric == INFINITY {
            return Some(BabelAction::Withdraw(key));
        }
        let next_hop = match self.next_hop {
            Some(nh) => nh,
            None => self.address,
        };
        Some(
            BabelAction::Insert {
                key,
                seqno: u.seqno,
                metric: u.metric as u32,
                next_hop,
                interval_cs: u.interval_cs,
            },
        )
    }

    /// Interprets the elements of a frame in order.
    pub fn handle_frame(&mut self, tlvs: &Vec<BabelTlv>, now_us: u32) -> (actions: Vec<
        BabelAction,
    >)
        ensures
            actions@ == frame_actions(
                tlvs@,
                old(self).router_id,
                old(self).next_hop,
                old(self).address,
                now_us,
            ),
            (final(self).router_id, final(self).next_hop) == frame_state(
                tlvs@,
                old(self).router_id,
                old(self).next_hop,
            ),
            *final(self) == (BabelRuntime {
                router_id: final(self).router_id,
                next_hop: final(self).next_hop,
                ..*old(self)
            }),
    {
        let mut actions: Vec<BabelAction> = Vec::new();
        let mut i: usize = 0;
        while i < tlvs.len()
            invariant
                i <= tlvs@.len(),
                actions@ == frame_actions(
                    tlvs@.take(i as int),
                    old(self).router_id,
                    old(self).next_hop,
                    old(self).address,
                    now_us,
                ),
                (self.router_id, self.next_hop) == frame_state(
                    tlvs@.take(i as int),
                    old(self).router_id,
                    old(self).next_hop,
                ),
                *self == (BabelRuntime {
                    router_id: self.router_id,
                    next_hop: self.next_hop,
                    ..*old(self)
                }),
            decreases tlvs@.len() - i,
        {
            assert(tlvs@.take(i + 1).drop_last() == tlvs@.take(i as int));
            match &tlvs[i] {
                BabelTlv::Hello { seqno, interval_cs, timestamp } => match timestamp {
                    Some(ts) => {
                        actions.push(
                            BabelAction::HelloTimestamped {
                                seqno: *seqno,
                                interval_cs: *interval_cs,
                                timestamp: *ts,
                                now_us,
                            },
                        );
                    },
                    None => {
                        actions.push(
                            BabelAction::Hello { seqno: *seqno, interval_cs: *interval_cs },
                        );
                    },
                },
                BabelTlv::Ihu { rxcost, interval_cs, echo } => match echo {
                    Some((ts1, ts2)) => {
                        actions.push(
                            BabelAction::IhuEcho {
                                rxcost: *rxcost,
                                interval_cs: *interval_cs,
                                ts1: *ts1,
                                ts2: *ts2,
                            },
                        );
                    },
                    None => {
                        actions.push(
                            BabelAction::Ihu { rxcost: *rxcost, interval_cs: *interval_cs },
                        );
                    },
                },
                BabelTlv::RouterId(id) => {
                    self.router_id = *id;
                },
                BabelTlv::NextHop(a) => {
                    self.next_hop = Some(*a);
                },
                BabelTlv::Update(u) => {
                    if let Some(a) = self.apply_update(u) {
                        actions.push(a);
                    }
                },
                BabelTlv::Other => {},
            }
            i = i + 1;
        }
        assert(tlvs@.take(tlvs@.len() as int) == tlvs@);
        actions
    }

    /// Converts feasible routes into Loc-RIB routes.
    pub fn best_routes(&self, best: &Vec<BabelBest>) -> (routes: Vec<Route>)
        ensures
            routes@ == babel_routes(best@, self.router_id, self.default_hop()),
    {
        let default_hop = match self.next_hop {
            Some(nh) => nh,
            None => self.address,
        };
        let mut routes: Vec<Route> = Vec::new();
        let mut i: usize = 0;
        while i < best.len()
            invariant
                i <= best@.len(),
                default_hop == self.default_hop(),
                routes@ == babel_routes(best@.take(i as int), self.router_id, default_hop),
            decreases best@.len() - i,
        {
            let r = best[i];
            let hop = if r.next_hop == IpAddr::V4(0) {
                default_hop
            } else {
                r.next_hop
            };
            let mut key = RouteKey::unicast(r.key.destination);
            key.source = r.key.source;
            let ghost before = routes@;
            routes.push(
                Route {
                    key,
                    origin: RouteOrigin {
                        proto: ORIGIN_BABEL,
                        peer: self.router_id % 0x1_0000_0000,
                    },
                    protocol: Protocol::Babel,
                    preference: Preference {
                        admin_distance: Protocol::Babel.default_admin_distance(),
                        metric: r.metric,
                    },
                    next_hop: Some(hop),
                    attributes: Attributes::new(),
                    age_ms: 0,
                    path_id: 0,
                    tag: None,
                },
            );
            proof {
                let want = babel_routes(best@.take(i + 1), self.router_id, default_hop);
                assert forall|j: int| 0 <= j < want.len() implies routes@[j] == want[j] by {
                    if j < i {
                        assert(before[j] == babel_route(
                            best@[j],
                            self.router_id,
                            default_hop,
                        ));
                    }
                }
                assert(routes@ =~= want);
            }
            i = i + 1;
        }
        assert(best@.take(best@.len() as int) == best@);
        routes
    }

    /// Compares the feasible routes with what was published and publishes
    /// them.
    pub fn diff(&mut self, best: &Vec<BabelBest>) -> (d: RuntimeDelta)
        ensures
            ({
                let current = table_of(
                    babel_routes(best@, old(self).router_id, old(self).default_hop()),
                );
                let before = table_of(old(self).published.seq());
                &&& d.installed@ == changed_routes(sorted(current), before)
                &&& d.withdrawn@ == gone_keys(sorted(before), current)
                &&& *final(self) == (BabelRuntime {
                    published: List::of(table_values(current)),
                    ..*old(self)
                })
            }),
    {
        let routes = self.best_routes(best);
        let current = build_table(&routes);
        let published = self.published.to_vec();
        let before = build_table(&published);
        let n: usize = current.len();
        let m: usize = before.len();
        let d = diff_tables(&before, &current);
        self.published = list_values(&current);
        d
    }
}

/// Two feasible routes that differ in destination or source prefix never
/// share a Loc-RIB key.
pub proof fn claims_do_not_collide(a: BabelBest, b: BabelBest, router_id: u64, hop: IpAddr)
    requires
        a.key.destination != b.key.destination || a.key.source != b.key.source,
    ensures
        babel_route(a, router_id, hop).key != babel_route(b, router_id, hop).key,
{
}

/// An Update without prefix octets announces the default route, and retracts
/// it at infinite metric.
pub proof fn default_route_has_no_octets(
    u: BabelUpdate,
    router_id: u64,
    next_hop: Option<IpAddr>,
    address: IpAddr,
)
    requires
        u.ae == 1 || u.ae == 2,
        u.prefix@.len() == 0,
        u.prefix_len == 0,
        u.src_prefix_len == 0,
    ensures
        ({
            let key = BabelKey {
                destination: Prefix {
                    addr: if u.ae == 1 {
                        IpAddr::V4(0)
                    } else {
                        IpAddr::V6(0)
                    },
                    prefix_len: 0,
                },
                source: None,
                router_id,
            };
            &&& update_actions(u, router_id, next_hop, address).len() == 1
            &&& u.metric == INFINITY ==> update_actions(u, router_id, next_hop, address)[0]
                == BabelAction::Withdraw(key)
            &&& u.metric != INFINITY ==> update_actions(
                u,
                router_id,
                next_hop,
                address,
            )[0]->Insert_key == key
        }),
{
    lemma_spelled_zeros(padded(u.prefix@, 4));
    lemma_spelled_zeros(padded(u.prefix@, 16));
}

proof fn lemma_spelled_zeros(s: Seq<u8>)
    requires
        forall|i: int| 0 <= i < s.len() ==> #[trigger] s[i] == 0,
    ensures
        spelled(s) == 0,
    decreases s.len(),
{
    if s.len() > 0 {
        assert forall|i: int| 0 <= i < s.drop_last().len() implies #[trigger] s.drop_last()[i]
            == 0 by {
            assert(s.drop_last()[i] == s[i]);
        }
        lemma_spelled_zeros(s.drop_last());
        assert(s.last() == s[s.len() - 1]);
    }
}

/// What an expiry sweep does first.
#[derive(Clone, Copy, Debug, PartialEq, Eq, Structural)]
pub enum GcStep {
    /// The neighbour is gone: forget everything it taught us.
    ForgetAll,
    /// Drop the routes whose hold time is over.
    Expire,
}

/// Decides what an expiry sweep does: a silent neighbour loses all its
/// routes at once.
pub fn gc_step(alive: bool, table_empty: bool) -> (s: GcStep)
    ensures
        s == (if !alive && !table_empty {
            GcStep::ForgetAll
        } else {
            GcStep::Expire
        }),
{
    if !alive && !table_empty {
        GcStep::ForgetAll
    } else {
        GcStep::Expire
    }
}

impl Value for BabelBest {
    fn dup(&self) -> (r: Self) {
        *self
    }

    fn same(&self, other: &Self) -> (b: bool) {
        *self == *other
    }
}

impl Value for BabelKey {
    fn dup(&self) -> (r: Self) {
        *self
    }

    fn same(&self, other: &Self) -> (b: bool) {
        *self == *other
    }
}

impl Key for BabelKey {
    open spec fn code(self) -> int {
        let b = <Prefix as Key>::bound() + 1;
        let source = match self.source {
            None => 0,
            Some(p) => p.code() + 1,
        };
        (self.destination.code() * b + source) * 0x1_0000_0000_0000_0000 + self.router_id as int
    }

    open spec fn bound() -> int {
        <Prefix as Key>::bound() * (<Prefix as Key>::bound() + 1) * 0x1_0000_0000_0000_0000
    }

    proof fn code_in_range(self) {
        self.destination.code_in_range();
        match self.source {
            None => {},
            Some(p) => {
                p.code_in_range();
            },
        }
        let n = <Prefix as Key>::bound();
        let d = self.destination.code();
        let s = match self.source {
            None => 0,
            Some(p) => p.code() + 1,
        };
        assert(0 <= d * (n + 1) + s < n * (n + 1)) by (nonlinear_arith)
            requires
                0 <= d < n,
                0 <= s < n + 1,
        ;
    }

    proof fn code_injective(self, other: Self) {
        self.destination.code_injective(other.destination);
        let n = <Prefix as Key>::bound();
        let s = match self.source {
            None => 0,
            Some(p) => p.code() + 1,
        };
        let t = match other.source {
            None => 0,
            Some(p) => p.code() + 1,
        };
        match (self.source, other.source) {
            (Some(p), Some(q)) => {
                p.code_in_range();
                q.code_in_range();
                p.code_injective(q);
            },
            (Some(p), None) => {
                p.code_in_range();
            },
            (None, Some(q)) => {
                q.code_in_range();
            },
            (None, None) => {},
        }
        lemma_digits(self.destination.code(), s, other.destination.code(), t, n + 1);
    }

    fn precedes(&self, other: &Self) -> (b: bool) {
        proof {
            let n = <Prefix as Key>::bound();
            let s = match self.source {
                None => 0,
                Some(p) => p.code() + 1,
            };
            let t = match other.source {
                None => 0,
                Some(p) => p.code() + 1,
            };
            match (self.source, other.source) {
                (Some(p), Some(q)) => {
                    p.code_in_range();
                    q.code_in_range();
                },
                (Some(p), None) => {
                    p.code_in_range();
                },
                (None, Some(q)) => {
                    q.code_in_range();
                },
                (None, None) => {},
            }
            lemma_digits(self.destination.code(), s, other.destination.code(), t, n + 1);
        }
        if self.destination.precedes(&other.destination) {
            return true;
        }
        if other.destination.precedes(&self.destination) {
            return false;
        }
        match (self.source, other.source) {
            (Some(p), Some(q)) => {
                if p.precedes(&q) {
                    return true;
                }
                if q.precedes(&p) {
                    return false;
                }
            },
            (Some(_), None) => {
                return false;
            },
            (None, Some(_)) => {
                return true;
            },
            (None, None) => {},
        }
        self.router_id < other.router_id
    }
}

/// The better of two routes for one claim; the earlier stays on a tie.
pub open spec fn lower_metric(prev: Option<BabelBest>, r: BabelBest) -> BabelBest {
    match prev {
        Some(p) => if p.metric <= r.metric {
            p
        } else {
            r
        },
        None => r,
    }
}

/// The lowest-metric route per claim over a list.
pub open spec fn best_claims(routes: Seq<BabelBest>) -> Map<BabelKey, BabelBest>
    decreases routes.len(),
{
    if routes.len() == 0 {
        Map::empty()
    } else {
        let rest = best_claims(routes.drop_last());
        let r = routes.last();
        rest.insert(r.key, lower_metric(lookup(rest, r.key), r))
    }
}

/// The feasible routes of the adjacencies other than `exclude`, in handle
/// order.
pub open spec fn foreign_routes(
    tables: Seq<(u64, Vec<BabelBest>)>,
    exclude: u64,
) -> Seq<BabelBest>
    decreases tables.len(),
{
    if tables.len() == 0 {
        Seq::empty()
    } else {
        foreign_routes(tables.drop_last(), exclude) + (if tables.last().0 == exclude {
            Seq::empty()
        } else {
            tables.last().1@
        })
    }
}

/// What one interface re-advertises: the feasible routes of all other
/// adjacencies, the lowest metric per claim, in claim order.
pub fn babel_reachable(tables: &OrdMap<u64, Vec<BabelBest>>, exclude: u64) -> (r: Vec<BabelBest>)
    ensures
        r@ == Seq::new(
            sorted(best_claims(foreign_routes(sorted(tables@), exclude))).len(),
            |i: int| sorted(best_claims(foreign_routes(sorted(tables@), exclude)))[i].1,
        ),
{
    let mut best: OrdMap<BabelKey, BabelBest> = OrdMap::new();
    let n: usize = tables.len();
    let ghost s = tables.entries();
    let mut i: usize = 0;
    while i < n
        invariant
            i <= n == s.len(),
            s == tables.entries(),
            best@ == best_claims(foreign_routes(s.take(i as int), exclude)),
        decreases n - i,
    {
        assert(s.take(i + 1).drop_last() == s.take(i as int));
        let handle = tables.key_at(i);
        let ghost before = foreign_routes(s.take(i as int), exclude);
        if handle != exclude {
            let routes = tables.value_at(i);
            let mut j: usize = 0;
            assert(before + routes@.take(0) == before);
            while j < routes.len()
                invariant
                    j <= routes@.len(),
                    best@ == best_claims(before + routes@.take(j as int)),
                decreases routes@.len() - j,
            {
                let r = routes[j];
                let ghost next = before + routes@.take(j + 1);
                assert(next.drop_last() == before + routes@.take(j as int));
                assert(next.last() == r);
                let kept = match best.get(&r.key) {
                    Some(p) => if p.metric <= r.metric {
                        *p
                    } else {
                        r
                    },
                    None => r,
                };
                best.insert(r.key, kept);
                j = j + 1;
            }
            assert(routes@.take(routes@.len() as int) == routes@);
        } else {
            assert(before + Seq::<BabelBest>::empty() == before);
        }
        i = i + 1;
    }
    assert(s.take(n as int) == s);
    let mut out: Vec<BabelBest> = Vec::new();
    let m: usize = best.len();
    let mut k: usize = 0;
    while k < m
        invariant
            k <= m == best.entries().len(),
            out@ == Seq::new(k as nat, |x: int| best.entries()[x].1),
        decreases m - k,
    {
        out.push(*best.value_at(k));
        k = k + 1;
    }
    out
}

/// Nothing learned over the excluded adjacency alone is offered: with no
/// other adjacency there is nothing to re-advertise.
pub proof fn split_horizon_per_adjacency(tables: Seq<(u64, Vec<BabelBest>)>, exclude: u64)
    requires
        forall|i: int| 0 <= i < tables.len() ==> (#[trigger] tables[i]).0 == exclude,
    ensures
        foreign_routes(tables, exclude) == Seq::<BabelBest>::empty(),
    decreases tables.len(),
{
    if tables.len() > 0 {
        assert forall|i: int| 0 <= i < tables.drop_last().len() implies (
        #[trigger] tables.drop_last()[i]).0 == exclude by {
            assert(tables.drop_last()[i] == tables[i]);
        }
        split_horizon_per_adjacency(tables.drop_last(), exclude);
        assert(tables.last() == tables[tables.len() - 1]);
    }
}

/// Of several routes for one claim none offered has a higher metric than any
/// that was learned.
pub proof fn claims_carry_the_lowest_metric(routes: Seq<BabelBest>, i: int)
    requires
        0 <= i < routes.len(),
    ensures
        best_claims(routes).contains_key(routes[i].key),
        best_claims(routes)[routes[i].key].metric <= routes[i].metric,
    decreases routes.len(),
{
    let front = routes.drop_last();
    if i < routes.len() - 1 {
        claims_carry_the_lowest_metric(front, i);
        assert(front[i] == routes[i]);
    }
}

/// What a frame means up to some element is the beginning of what it means.
proof fn lemma_frame_prefix(
    tlvs: Seq<BabelTlv>,
    k: int,
    router_id: u64,
    next_hop: Option<IpAddr>,
    address: IpAddr,
    now_us: u32,
)
    requires
        0 <= k <= tlvs.len(),
    ensures
        ({
            let part = frame_actions(tlvs.take(k), router_id, next_hop, address, now_us);
            let all = frame_actions(tlvs, router_id, next_hop, address, now_us);
            part.len() <= all.len() && all.take(part.len() as int) == part
        }),
    decreases tlvs.len(),
{
    let part = frame_actions(tlvs.take(k), router_id, next_hop, address, now_us);
    let all = frame_actions(tlvs, router_id, next_hop, address, now_us);
    if k == tlvs.len() {
        assert(tlvs.take(k) == tlvs);
        assert(all.take(part.len() as int) =~= part);
    } else {
        let front = tlvs.drop_last();
        lemma_frame_prefix(front, k, router_id, next_hop, address, now_us);
        assert(front.take(k) == tlvs.take(k));
        let most = frame_actions(front, router_id, next_hop, address, now_us);
        assert(all.take(part.len() as int) =~= most.take(part.len() as int));
    }
}

/// The next hop in force after some elements of a frame is the one announced
/// last, else the one remembered from before.
pub proof fn last_next_hop_is_in_force(
    tlvs: Seq<BabelTlv>,
    router_id: u64,
    next_hop: Option<IpAddr>,
    i: int,
)
    requires
        -1 <= i < tlvs.len(),
        i >= 0 ==> tlvs[i] is NextHop,
        forall|k: int| i < k < tlvs.len() ==> !((#[trigger] tlvs[k]) is NextHop),
    ensures
        i >= 0 ==> frame_state(tlvs, router_id, next_hop).1 == Some(tlvs[i]->NextHop_0),
        i < 0 ==> frame_state(tlvs, router_id, next_hop).1 == next_hop,
    decreases tlvs.len(),
{
    if tlvs.len() > 0 {
        let n = tlvs.len() - 1;
        let front = tlvs.drop_last();
        assert(tlvs[n] == tlvs.last());
        if i < n {
            assert(!(tlvs[n] is NextHop));
            assert forall|k: int| i < k < front.len() implies !((#[trigger] front[k]) is NextHop) by {
                assert(front[k] == tlvs[k]);
            }
            last_next_hop_is_in_force(front, router_id, next_hop, i);
        }
    }
}

/// The router ID in force after some elements of a frame is the one announced
/// last, else the one remembered from before.
pub proof fn last_router_id_is_in_force(
    tlvs: Seq<BabelTlv>,
    router_id: u64,
    next_hop: Option<IpAddr>,
    i: int,
)
    requires
        -1 <= i < tlvs.len(),
        i >= 0 ==> tlvs[i] is RouterId,
        forall|k: int| i < k < tlvs.len() ==> !((#[trigger] tlvs[k]) is RouterId),
    ensures
        i >= 0 ==> frame_state(tlvs, router_id, next_hop).0 == tlvs[i]->RouterId_0,
        i < 0 ==> frame_state(tlvs, router_id, next_hop).0 == router_id,
    decreases tlvs.len(),
{
    if tlvs.len() > 0 {
        let n = tlvs.len() - 1;
        let front = tlvs.drop_last();
        assert(tlvs[n] == tlvs.last());
        if i < n {
            assert(!(tlvs[n] is RouterId));
            assert forall|k: int| i < k < front.len() implies !((#[trigger] front[k]) is RouterId) by {
                assert(front[k] == tlvs[k]);
            }
            last_router_id_is_in_force(front, router_id, next_hop, i);
        }
    }
}

/// The key of the route an Update is about: its destination and source prefix
/// and the router that originated it.
pub open spec fn about(u: BabelUpdate, k: BabelKey, router_id: u64) -> bool {
    &&& spelled_prefix(u.ae, u.prefix@, u.prefix_len) == Some(k.destination)
    &&& u.src_prefix_len == 0 ==> k.source is None
    &&& u.src_prefix_len > 0 ==> k.source == spelled_prefix(
        u.ae,
        u.src_prefix@,
        u.src_prefix_len,
    )
    &&& k.router_id == router_id
}

/// An Update in a frame, whose prefix decodes, inserts a route with its own
/// metric, sequence number and interval, or withdraws it at the infinite
/// metric. The route goes through the next hop announced last before it, at
/// `i` in this frame or else in an earlier one; only where none ever was,
/// through the neighbour. Its originator is the router ID announced last, at
/// `r` in this frame or else in an earlier one.
pub proof fn updates_go_through_the_announced_next_hop(
    tlvs: Seq<BabelTlv>,
    j: int,
    i: int,
    r: int,
    router_id: u64,
    next_hop: Option<IpAddr>,
    address: IpAddr,
    now_us: u32,
)
    requires
        0 <= j < tlvs.len(),
        tlvs[j] is Update,
        spelled_prefix(
            tlvs[j]->Update_0.ae,
            tlvs[j]->Update_0.prefix@,
            tlvs[j]->Update_0.prefix_len,
        ) is Some,
        -1 <= i < j,
        i >= 0 ==> tlvs[i] is NextHop,
        forall|k: int| i < k < j ==> !((#[trigger] tlvs[k]) is NextHop),
        -1 <= r < j,
        r >= 0 ==> tlvs[r] is RouterId,
        forall|k: int| r < k < j ==> !((#[trigger] tlvs[k]) is RouterId),
    ensures
        ({
            let u = tlvs[j]->Update_0;
            let at = frame_actions(tlvs.take(j), router_id, next_hop, address, now_us).len() as int;
            let all = frame_actions(tlvs, router_id, next_hop, address, now_us);
            let originator = if r >= 0 {
                tlvs[r]->RouterId_0
            } else {
                router_id
            };
            &&& at < all.len()
            &&& match all[at] {
                BabelAction::Insert { key, seqno, metric, next_hop: through, interval_cs } => {
                    &&& u.metric != 0xffff
                    &&& about(u, key, originator)
                    &&& seqno == u.seqno
                    &&& metric == u.metric
                    &&& interval_cs == u.interval_cs
                    &&& i >= 0 ==> through == tlvs[i]->NextHop_0
                    &&& i < 0 && next_hop is Some ==> through == next_hop->0
                    &&& i < 0 && next_hop is None ==> through == address
                },
                BabelAction::Withdraw(key) => u.metric == 0xffff && about(u, key, originator),
                _ => false,
            }
        }),
{
    let u = tlvs[j]->Update_0;
    let front = tlvs.take(j);
    let upto = tlvs.take(j + 1);
    assert(upto.drop_last() == front);
    assert(upto.last() == tlvs[j]);
    lemma_frame_prefix(tlvs, j + 1, router_id, next_hop, address, now_us);
    last_next_hop_is_in_force(front, router_id, next_hop, i);
    last_router_id_is_in_force(front, router_id, next_hop, r);
    let (id, nh) = frame_state(front, router_id, next_hop);
    let done = frame_actions(front, router_id, next_hop, address, now_us);
    let part = frame_actions(upto, router_id, next_hop, address, now_us);
    let all = frame_actions(tlvs, router_id, next_hop, address, now_us);
    assert(part == done + update_actions(u, id, nh, address));
    assert(part[done.len() as int] == update_actions(u, id, nh, address)[0]);
    assert(all.take(part.len() as int)[done.len() as int] == all[done.len() as int]);
}

/// A single Update means one action, through the next hop in force or, for
/// want of one, the neighbour; one whose prefix does not decode means none.
pub proof fn an_update_means_one_action(
    u: BabelUpdate,
    router_id: u64,
    next_hop: Option<IpAddr>,
    address: IpAddr,
)
    ensures
        ({
            let a = update_actions(u, router_id, next_hop, address);
            &&& spelled_prefix(u.ae, u.prefix@, u.prefix_len) is None ==> a.len() == 0
            &&& spelled_prefix(u.ae, u.prefix@, u.prefix_len) is Some ==> a.len() == 1
                && match a[0] {
                BabelAction::Insert { key, seqno, metric, next_hop: through, interval_cs } => {
                    &&& u.metric != 0xffff
                    &&& about(u, key, router_id)
                    &&& seqno == u.seqno
                    &&& metric == u.metric
                    &&& interval_cs == u.interval_cs
                    &&& next_hop is Some ==> through == next_hop->0
                    &&& next_hop is None ==> through == address
                },
                BabelAction::Withdraw(key) => u.metric == 0xffff && about(u, key, router_id),
                _ => false,
            }
        }),
{
}

/// Every element of a frame but the Updates means what it says by itself: a
/// Hello and an IHU are handed on with their own fields, with the time of
/// arrival where they carry timestamps; the others mean nothing.
pub proof fn other_elements_speak_for_themselves(
    tlvs: Seq<BabelTlv>,
    j: int,
    router_id: u64,
    next_hop: Option<IpAddr>,
    address: IpAddr,
    now_us: u32,
)
    requires
        0 <= j < tlvs.len(),
        !(tlvs[j] is Update),
    ensures
        ({
            let done = frame_actions(tlvs.take(j), router_id, next_hop, address, now_us);
            let more = frame_actions(tlvs.take(j + 1), router_id, next_hop, address, now_us);
            let all = frame_actions(tlvs, router_id, next_hop, address, now_us);
            &&& more.len() <= all.len() && all.take(more.len() as int) == more
            &&& match tlvs[j] {
                BabelTlv::Hello { seqno, interval_cs, timestamp } => {
                    &&& more.len() == done.len() + 1
                    &&& more.drop_last() == done
                    &&& match (timestamp, more.last()) {
                        (Some(t), BabelAction::HelloTimestamped {
                            seqno: s,
                            interval_cs: i,
                            timestamp: u,
                            now_us: now,
                        }) => s == seqno && i == interval_cs && u == t && now == now_us,
                        (None, BabelAction::Hello { seqno: s, interval_cs: i }) => s == seqno && i
                            == interval_cs,
                        _ => false,
                    }
                },
                BabelTlv::Ihu { rxcost, interval_cs, echo } => {
                    &&& more.len() == done.len() + 1
                    &&& more.drop_last() == done
                    &&& match (echo, more.last()) {
                        (Some(e), BabelAction::IhuEcho {
                            rxcost: c,
                            interval_cs: i,
                            ts1,
                            ts2,
                        }) => c == rxcost && i == interval_cs && ts1 == e.0 && ts2 == e.1,
                        (None, BabelAction::Ihu { rxcost: c, interval_cs: i }) => c == rxcost && i
                            == interval_cs,
                        _ => false,
                    }
                },
                _ => more == done,
            }
        }),
{
    let upto = tlvs.take(j + 1);
    assert(upto.drop_last() == tlvs.take(j));
    assert(upto.last() == tlvs[j]);
    lemma_frame_prefix(tlvs, j + 1, router_id, next_hop, address, now_us);
    let done = frame_actions(tlvs.take(j), router_id, next_hop, address, now_us);
    let more = frame_actions(upto, router_id, next_hop, address, now_us);
    assert(more == done || more.drop_last() =~= done);
}

proof fn lemma_spelled_octets(s: Seq<u8>)
    ensures
        s.len() == 4 ==> spelled(s) == s[0] * 0x100_0000 + s[1] * 0x1_0000 + s[2] * 0x100 + s[3],
        s.len() == 8 ==> spelled(s) == s[0] * 0x100_0000_0000_0000 + s[1] * 0x1_0000_0000_0000
            + s[2] * 0x100_0000_0000 + s[3] * 0x1_0000_0000 + s[4] * 0x100_0000 + s[5] * 0x1_0000
            + s[6] * 0x100 + s[7],
{
    reveal_with_fuel(spelled, 9);
}

proof fn lemma_spelled_split(s: Seq<u8>, k: int)
    requires
        0 <= k <= s.len(),
    ensures
        spelled(s) == spelled(s.take(k)) * pow256((s.len() - k) as nat) + spelled(s.skip(k)),
    decreases s.len(),
{
    if k == s.len() {
        assert(s.take(k) == s);
        assert(s.skip(k) == Seq::<u8>::empty());
        assert(pow256(0) == 1);
        assert(spelled(s) * 1 == spelled(s)) by (nonlinear_arith);
    } else {
        let front = s.drop_last();
        lemma_spelled_split(front, k);
        assert(front.take(k) == s.take(k));
        assert(s.skip(k).drop_last() == front.skip(k));
        assert(s.skip(k).last() == s.last());
        let a = spelled(s.take(k));
        let b = pow256((front.len() - k) as nat);
        let c = spelled(front.skip(k));
        assert(pow256((s.len() - k) as nat) == b * 256);
        assert((a * b + c) * 256 + s.last() as nat == a * (b * 256) + (c * 256 + s.last() as nat))
            by (nonlinear_arith);
    }
}

/// An IPv4 prefix is spelled by up to four octets in network order, an IPv6
/// prefix by up to sixteen; missing octets count as zero. The prefix length
/// is taken over. Nothing else decodes, but no octets at all spell a prefix
/// only together with length 0.
pub proof fn octets_spell_prefixes(ae: u8, octets: Seq<u8>, len: u8)
    ensures
        ({
            let o = |i: int|
                if i < octets.len() {
                    octets[i] as int
                } else {
                    0
                };
            let decoded = spelled_prefix(ae, octets, len);
            &&& decoded is Some <==> (octets.len() > 0 || len == 0) && (ae == 1 && octets.len() <= 4
                || ae == 2 && octets.len() <= 16)
            &&& decoded is Some ==> decoded->0.prefix_len == len
            &&& decoded is Some && ae == 1 ==> match decoded->0.addr {
                IpAddr::V4(a) => a as int == o(0) * 0x100_0000 + o(1) * 0x1_0000 + o(2) * 0x100
                    + o(3),
                IpAddr::V6(_) => false,
            }
            &&& decoded is Some && ae == 2 ==> match decoded->0.addr {
                IpAddr::V4(_) => false,
                IpAddr::V6(a) => a as int == (o(0) * 0x100_0000_0000_0000 + o(1)
                    * 0x1_0000_0000_0000 + o(2) * 0x100_0000_0000 + o(3) * 0x1_0000_0000 + o(4)
                    * 0x100_0000 + o(5) * 0x1_0000 + o(6) * 0x100 + o(7)) * 0x1_0000_0000_0000_0000
                    + (o(8) * 0x100_0000_0000_0000 + o(9) * 0x1_0000_0000_0000 + o(10)
                    * 0x100_0000_0000 + o(11) * 0x1_0000_0000 + o(12) * 0x100_0000 + o(13)
                    * 0x1_0000 + o(14) * 0x100 + o(15)),
            }
        }),
{
    let p4 = padded(octets, 4);
    lemma_spelled_octets(p4);
    let p16 = padded(octets, 16);
    lemma_spelled_split(p16, 8);
    lemma_spelled_octets(p16.take(8));
    lemma_spelled_octets(p16.skip(8));
    reveal_with_fuel(pow256, 9);
    assert(pow256(8) == 0x1_0000_0000_0000_0000);
}

/// A feasible route becomes a Loc-RIB route to its destination and source
/// prefix, at its metric, through its next hop; an unspecified one stands for
/// the default hop. It lives in the unicast family of its addresses and is
/// attributed to the low half of the neighbour's router ID.
pub proof fn feasible_routes_keep_their_path(r: BabelBest, router_id: u64, default_hop: IpAddr)
    ensures
        ({
            let route = babel_route(r, router_id, default_hop);
            &&& route.key.prefix == r.key.destination
            &&& route.key.source == r.key.source
            &&& route.key.family.safi == 1
            &&& route.key.family.afi == (if r.key.destination.addr is V4 {
                1
            } else {
                2int
            })
            &&& route.protocol == Protocol::Babel
            &&& route.preference.metric == r.metric
            &&& route.preference.admin_distance == 120
            &&& r.next_hop != IpAddr::V4(0) ==> route.next_hop == Some(r.next_hop)
            &&& r.next_hop == IpAddr::V4(0) ==> route.next_hop == Some(default_hop)
            &&& route.origin.proto == 4
            &&& route.origin.peer as int == router_id as int % 0x1_0000_0000
        }),
{
}

/// What is published of feasible routes is theirs: every destination among
/// them is published, with one of the routes to it.
pub proof fn every_destination_is_published(routes: Seq<Route>, i: int)
    requires
        0 <= i < routes.len(),
    ensures
        table_of(routes).contains_key(routes[i].key),
        exists|j: int|
            i <= j < routes.len() && (#[trigger] routes[j]).key == routes[i].key
                && table_of(routes)[routes[i].key] == routes[j],
    decreases routes.len(),
{
    let n = routes.len() - 1;
    let front = routes.drop_last();
    if routes[n].key == routes[i].key {
        assert(table_of(routes)[routes[i].key] == routes[n]);
    } else {
        assert(front[i] == routes[i]);
        every_destination_is_published(front, i);
        let j = choose|j: int|
            i <= j < front.len() && (#[trigger] front[j]).key == front[i].key
                && table_of(front)[front[i].key] == front[j];
        assert(routes[j].key == routes[i].key);
    }
}

proof fn lemma_claim_source(routes: Seq<BabelBest>, k: BabelKey)
    requires
        best_claims(routes).contains_key(k),
    ensures
        best_claims(routes)[k].key == k,
        routes.contains(best_claims(routes)[k]),
    decreases routes.len(),
{
    if routes.len() > 0 {
        let front = routes.drop_last();
        assert(routes[routes.len() - 1] == routes.last());
        if best_claims(front).contains_key(k) {
            lemma_claim_source(front, k);
            let b = best_claims(front)[k];
            let j = choose|j: int| 0 <= j < front.len() && front[j] == b;
            assert(routes[j] == b);
        }
    }
}

proof fn lemma_foreign(tables: Seq<(u64, Vec<BabelBest>)>, exclude: u64, r: BabelBest)
    ensures
        foreign_routes(tables, exclude).contains(r) <==> exists|i: int|
            0 <= i < tables.len() && (#[trigger] tables[i]).0 != exclude && tables[i].1@.contains(
                r,
            ),
    decreases tables.len(),
{
    if tables.len() > 0 {
        let n = tables.len() - 1;
        let front = tables.drop_last();
        lemma_foreign(front, exclude, r);
        let a = foreign_routes(front, exclude);
        let b = if tables.last().0 == exclude {
            Seq::empty()
        } else {
            tables.last().1@
        };
        let all = foreign_routes(tables, exclude);
        if all.contains(r) {
            let j = choose|j: int| 0 <= j < all.len() && all[j] == r;
            if j < a.len() {
                assert(a[j] == r);
                let i = choose|i: int|
                    0 <= i < front.len() && (#[trigger] front[i]).0 != exclude
                        && front[i].1@.contains(r);
                assert(tables[i].1@.contains(r));
            } else {
                assert(b[j - a.len()] == r);
                assert(tables[n].1@.contains(r));
            }
        }
        if exists|i: int|
            0 <= i < tables.len() && (#[trigger] tables[i]).0 != exclude && tables[i].1@.contains(
                r,
            ) {
            let i = choose|i: int|
                0 <= i < tables.len() && (#[trigger] tables[i]).0 != exclude
                    && tables[i].1@.contains(r);
            if i < n {
                assert(front[i] == tables[i]);
                let j = choose|j: int| 0 <= j < a.len() && a[j] == r;
                assert(all[j] == r);
            } else {
                let j = choose|j: int| 0 <= j < b.len() && b[j] == r;
                assert(all[a.len() + j] == r);
            }
        }
    }
}

/// What an interface re-advertises is learned over another adjacency, and
/// whatever another adjacency has learned is re-advertised at a metric no
/// higher than it was learned.
pub proof fn learned_routes_are_readvertised(
    tables: Seq<(u64, Vec<BabelBest>)>,
    exclude: u64,
    i: int,
    j: int,
    k: BabelKey,
)
    ensures
        0 <= i < tables.len() && tables[i].0 != exclude && 0 <= j < tables[i].1@.len() ==> {
            let claims = best_claims(foreign_routes(tables, exclude));
            &&& claims.contains_key(tables[i].1@[j].key)
            &&& claims[tables[i].1@[j].key].metric <= tables[i].1@[j].metric
        },
        best_claims(foreign_routes(tables, exclude)).contains_key(k) ==> best_claims(
            foreign_routes(tables, exclude),
        )[k].key == k && exists|a: int|
            0 <= a < tables.len() && (#[trigger] tables[a]).0 != exclude && tables[a].1@.contains(
                best_claims(foreign_routes(tables, exclude))[k],
            ),
{
    let all = foreign_routes(tables, exclude);
    if 0 <= i < tables.len() && tables[i].0 != exclude && 0 <= j < tables[i].1@.len() {
        let r = tables[i].1@[j];
        assert(tables[i].1@.contains(r));
        lemma_foreign(tables, exclude, r);
        let n = choose|n: int| 0 <= n < all.len() && all[n] == r;
        claims_carry_the_lowest_metric(all, n);
    }
    if best_claims(all).contains_key(k) {
        lemma_claim_source(all, k);
        lemma_foreign(tables, exclude, best_claims(all)[k]);
    }
}

/// Of routes for one claim with the same metric the earliest is offered, and
/// what is offered was learned.
pub proof fn earlier_routes_win_ties(routes: Seq<BabelBest>, k: BabelKey) -> (i: int)
    requires
        best_claims(routes).contains_key(k),
    ensures
        0 <= i < routes.len(),
        routes[i].key == k,
        best_claims(routes)[k] == routes[i],
        forall|j: int|
            0 <= j < i && (#[trigger] routes[j]).key == k ==> routes[j].metric > routes[i].metric,
    decreases routes.len(),
{
    let front = routes.drop_last();
    let last = routes.last();
    let n = routes.len() - 1;
    if last.key == k && (!best_claims(front).contains_key(k) || best_claims(front)[k].metric
        > last.metric) {
        assert forall|j: int| 0 <= j < n && (#[trigger] routes[j]).key == k implies
            routes[j].metric > last.metric by {
            assert(front[j] == routes[j]);
            claims_carry_the_lowest_metric(front, j);
        }
        n
    } else {
        let i = earlier_routes_win_ties(front, k);
        assert(front[i] == routes[i]);
        assert forall|j: int| 0 <= j < i && (#[trigger] routes[j]).key == k implies
            routes[j].metric > routes[i].metric by {
            assert(front[j] == routes[j]);
        }
        i
    }
}

} // verus!
