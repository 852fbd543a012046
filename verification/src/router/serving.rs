//! What the requests of the embedder come to.

use crate::addr::{IpAddr, NlriFamily, Prefix};
use crate::events::{RouterError, RouterEvent, SessionSetting};
use crate::list::List;
use crate::ordmap::{is_table, lookup, sorted};
use crate::ordmap::{lemma_entry, lemma_key_position};
use crate::ospf::facts::AreaView;
use crate::route::{Protocol, Route, RouteKey};
use crate::router::paths::OfPeer;
use crate::router::sessions::{
    after_add_babel, after_add_bgp, after_add_ospf, after_remove_session, after_set_mrai,
    after_set_policy, after_start, after_tick, all_paths, attach_tasks, attached, best_paths,
    configuration_refusal, configured, contribution_end, direct_withdrawal, external_task, external_task_v3,
    orphaned_area, ospf_refusal, polled, published_by, reexport_task, requeued, summary_of,
    sync_tasks, timer_task, waiting_task, with_config, withdrawal_task,
};
use crate::router::telling::{lemma_few, lemma_on_agenda};
use crate::router::{PathKey, RouterState};
use crate::select::{keys_where, KeyTest};
use crate::seqs::{gather, gather_includes, gather_source};
use crate::session::{PeerConfig, Session, SessionConfig, SummaryState};
use crate::task::{Occasion, PeerEvent, Task};
use vstd::prelude::*;

verus! {

/// A BGP session is added under the next handle, idle and with what was
/// asked for: its configuration, its interval, its cap on stale times and its
/// collision group. Other sessions keep all they have, and received routes
/// pass a safety net from then on.
pub proof fn bgp_sessions_are_added(st: RouterState, cfg: SessionConfig, other: u64)
    requires
        cfg.kind is Bgp,
        st.next_handle < u64::MAX,
    ensures
        ({
            let h = st.next_handle;
            let next = after_add_bgp(st, cfg);
            &&& next.next_handle == h + 1
            &&& match lookup(next.sessions, h) {
                Some(Session::Bgp(b)) => {
                    &&& b.config.peer_id == h
                    &&& b.config.local_as == cfg.peer.local_as && b.config.peer_as
                        == cfg.peer.peer_as && b.config.local_bgp_id == cfg.peer.local_bgp_id
                        && b.config.external == cfg.peer.external && b.config.mp_families
                        == cfg.peer.mp_families && b.config.maximum_prefix
                        == cfg.peer.maximum_prefix && b.config.maximum_prefix_action
                        == cfg.peer.maximum_prefix_action && b.config.maximum_prefix_threshold
                        == cfg.peer.maximum_prefix_threshold && b.config.local_as_tolerance
                        == cfg.peer.local_as_tolerance && b.config.soft_reconfig_inbound
                        == cfg.peer.soft_reconfig_inbound && b.config.hold_time
                        == cfg.peer.hold_time && b.config.add_path == cfg.peer.add_path
                    &&& b.config.exchange_plane is None
                    &&& b.status.state is Idle
                    &&& b.status.peer_bgp_id is None
                    &&& b.status.restart_secs == 0 && !b.status.long_lived
                    &&& !b.established
                },
                _ => false,
            }
            &&& lookup(next.mrai_interval, h) == Some(cfg.mrai_ms)
            &&& cfg.llgr_max_stale_time is Some ==> lookup(next.llgr_caps, h)
                == cfg.llgr_max_stale_time
            &&& cfg.llgr_max_stale_time is None ==> next.llgr_caps == st.llgr_caps
            &&& match cfg.collision_group {
                Some(g) => lookup(next.collision, h) == Some((g, cfg.locally_initiated)),
                None => next.collision == st.collision,
            }
            &&& other != h ==> lookup(next.sessions, other) == lookup(st.sessions, other)
            &&& next.settings.safety
            &&& next.settings.max_paths == st.settings.max_paths
            &&& next.agenda == st.agenda && next.loc == st.loc
        }),
{
}

/// An OSPF session is refused for the first of these reasons that holds:
/// another router identifier is in use, its area runs the other version, its
/// area has another type, or the backbone would not be a normal area. No
/// other session is refused.
pub proof fn unfit_ospf_sessions_are_refused(st: RouterState, cfg: SessionConfig)
    requires
        cfg.kind is Ospfv2 || cfg.kind is Ospfv3,
    ensures
        ({
            let r = ospf_refusal(st, cfg);
            let id = cfg.peer.local_bgp_id;
            let version = if cfg.kind is Ospfv3 {
                Protocol::Ospfv3
            } else {
                Protocol::Ospfv2
            };
            let known = st.ospf.areas.contains_key(cfg.area_id);
            let area = st.ospf.areas[cfg.area_id];
            let alien = st.ospf.router_id is Some && st.ospf.router_id != Some(id);
            let other_version = known && area.protocol != version;
            let other_type = known && area.kind != cfg.area_type;
            &&& alien ==> r == Some(
                RouterError::RouterIdMismatch { requested: id, existing: st.ospf.router_id->0 },
            )
            &&& !alien && other_version ==> r == Some(
                RouterError::AreaProtocol {
                    area: cfg.area_id,
                    v3: area.protocol == Protocol::Ospfv3,
                },
            )
            &&& !alien && !other_version && other_type ==> r == Some(
                RouterError::AreaTypeMismatch {
                    area: cfg.area_id,
                    existing_type: area.kind,
                    requested_type: cfg.area_type,
                },
            )
            &&& !alien && !other_version && !other_type && cfg.area_id == 0 && !(
            cfg.area_type is Normal) ==> r == Some(RouterError::BackboneType)
            &&& !alien && !other_version && !other_type && (cfg.area_id != 0
                || cfg.area_type is Normal) ==> r is None
        }),
{
}

/// An OSPF session that is accepted starts from a neighbour that is down, on
/// the interface it was given; its area is attached if it was not, all areas
/// catch up on the redistributions and virtual links are reconsidered.
pub proof fn ospf_sessions_are_added(st: RouterState, cfg: SessionConfig, area: AreaView)
    requires
        cfg.kind is Ospfv2 || cfg.kind is Ospfv3,
        ospf_refusal(st, cfg) is None,
        st.next_handle < u64::MAX,
    ensures
        ({
            let h = st.next_handle;
            let next = after_add_ospf(st, cfg, area);
            &&& next.next_handle == h + 1
            &&& next.ospf.router_id == Some(cfg.peer.local_bgp_id)
            &&& next.ospf.areas.contains_key(cfg.area_id)
            &&& st.ospf.areas.contains_key(cfg.area_id) ==> next.ospf.areas == st.ospf.areas
            &&& !st.ospf.areas.contains_key(cfg.area_id) ==> next.ospf.areas[cfg.area_id] == area
            &&& match lookup(next.sessions, h) {
                Some(Session::Ospf(r)) => {
                    &&& r.router_id == cfg.peer.local_bgp_id
                    &&& r.area_id == cfg.area_id
                    &&& r.protocol == (if cfg.kind is Ospfv3 {
                        Protocol::Ospfv3
                    } else {
                        Protocol::Ospfv2
                    })
                    &&& r.iface_mtu == cfg.mtu
                    &&& r.network_type == cfg.network_type
                    &&& cfg.interface_ip is Some ==> r.our_ip == cfg.interface_ip->0
                    &&& cfg.interface_ip is None ==> r.our_ip == 0
                    &&& cfg.neighbor_ip is Some ==> r.neighbor_ip == cfg.neighbor_ip->0
                    &&& cfg.neighbor_ip is None ==> r.neighbor_ip == 0
                    &&& r.neighbor is Down && r.dr == 0 && r.bdr == 0 && !r.exchange_started
                },
                _ => false,
            }
            &&& next.agenda.len() >= st.agenda.len() + 3
            &&& next.agenda[st.agenda.len() as int] == Task::OspfSettle
            &&& next.agenda[st.agenda.len() as int + 1] == Task::EvalVirtualLinks
        }),
{
    let tasks = attach_tasks(st);
    let n = tasks.len();
    let sync = sync_tasks(st);
    assert(n == sync.len() + 3);
    assert(tasks[n - 1] == Task::OspfSettle);
    assert(tasks[n - 2] == Task::EvalVirtualLinks);
    lemma_on_agenda(st, tasks, n - 1);
    lemma_on_agenda(st, tasks, n - 2);
    assert(after_add_ospf(st, cfg, area).agenda =~= st.schedule(tasks).agenda);
}

/// A refused OSPF session attaches nothing and does nothing; its handle is
/// used up.
pub proof fn refused_ospf_sessions_leave_no_session(
    st: RouterState,
    cfg: SessionConfig,
    area: AreaView,
)
    requires
        ospf_refusal(st, cfg) is Some,
        st.next_handle < u64::MAX,
    ensures
        after_add_ospf(st, cfg, area).sessions == st.sessions,
        after_add_ospf(st, cfg, area).ospf.areas == st.ospf.areas,
        after_add_ospf(st, cfg, area).agenda == st.agenda,
        after_add_ospf(st, cfg, area).next_handle == st.next_handle + 1,
        st.ospf.router_id is Some ==> after_add_ospf(st, cfg, area).ospf.router_id
            == st.ospf.router_id,
{
}

/// A Babel session speaks from the address it is given, else from the
/// loopback address, and has heard and published nothing.
pub proof fn babel_sessions_are_added(st: RouterState, cfg: SessionConfig)
    requires
        st.next_handle < u64::MAX,
    ensures
        ({
            let next = after_add_babel(st, cfg);
            &&& next.next_handle == st.next_handle + 1
            &&& match lookup(next.sessions, st.next_handle) {
                Some(Session::Babel(r)) => {
                    &&& cfg.peer.local_address is Some ==> r.address == cfg.peer.local_address->0
                    &&& cfg.peer.local_address is None ==> r.address == IpAddr::V4(0x7f00_0001)
                    &&& !r.heard && r.next_hop is None && r.published.seq().len() == 0
                },
                _ => false,
            }
        }),
{
}

/// Every redistribution is brought to the areas when they catch up.
pub proof fn catching_up_covers_every_redistribution(st: RouterState, network: u32, prefix: Prefix)
    requires
        is_table(st.ospf.externals),
        is_table(st.ospf.externals_v3),
    ensures
        st.ospf.externals.contains_key(network) ==> sync_tasks(st).contains(
            Task::OriginateExternal { network },
        ),
        st.ospf.externals_v3.contains_key(prefix) ==> sync_tasks(st).contains(
            Task::OriginateExternalV3 { prefix },
        ),
{
    let a = gather(sorted(st.ospf.externals), external_task());
    let b = gather(sorted(st.ospf.externals_v3), external_task_v3());
    let all = sync_tasks(st);
    if st.ospf.externals.contains_key(network) {
        let s = sorted(st.ospf.externals);
        let i = lemma_key_position(s, network);
        let t = Task::OriginateExternal { network };
        assert(external_task()(s[i])[0] == t);
        assert(external_task()(s[i]).contains(t));
        gather_includes(s, external_task(), i, t);
        let j = choose|j: int| 0 <= j < a.len() && a[j] == t;
        assert(all[j] == t);
    }
    if st.ospf.externals_v3.contains_key(prefix) {
        let s = sorted(st.ospf.externals_v3);
        let i = lemma_key_position(s, prefix);
        let t = Task::OriginateExternalV3 { prefix };
        assert(external_task_v3()(s[i])[0] == t);
        assert(external_task_v3()(s[i]).contains(t));
        gather_includes(s, external_task_v3(), i, t);
        let j = choose|j: int| 0 <= j < b.len() && b[j] == t;
        assert(all[a.len() + j] == t);
    }
}

/// The last session of an area takes the area along: its database is
/// forgotten and everything computed anew. While another session belongs to
/// the area, the area stays; so does every other area.
pub proof fn areas_go_with_their_last_session(st: RouterState, h: u64, area: u32, other: u32)
    requires
        match lookup(st.sessions, h) {
            Some(Session::Ospf(r)) => r.area_id == area,
            _ => false,
        },
    ensures
        ({
            let next = after_remove_session(st, h);
            let shared = exists|g: u64|
                g != h && #[trigger] st.sessions.contains_key(g) && (match st.sessions[g] {
                    Session::Ospf(r) => r.area_id == area,
                    _ => false,
                });
            &&& shared ==> next.ospf == st.ospf
            &&& !shared ==> {
                &&& !next.ospf.areas.contains_key(area)
                &&& next.agenda.contains(Task::ForgetArea { area })
                &&& next.agenda.len() > st.agenda.len()
                &&& next.agenda[st.agenda.len() as int] == Task::OspfChanged
            }
            &&& other != area ==> lookup(next.ospf.areas, other) == lookup(st.ospf.areas, other)
            &&& !shared && other != area && st.ospf.areas.contains_key(other)
                ==> next.ospf.router_id == st.ospf.router_id
            &&& !shared && (forall|x: u32| #[trigger] st.ospf.areas.contains_key(x) ==> x == area)
                ==> next.ospf.router_id is None
        }),
{
    let rest = st.sessions.remove(h);
    let next = after_remove_session(st, h);
    if exists|g: u64|
        g != h && #[trigger] st.sessions.contains_key(g) && (match st.sessions[g] {
            Session::Ospf(r) => r.area_id == area,
            _ => false,
        }) {
        let g = choose|g: u64|
            g != h && #[trigger] st.sessions.contains_key(g) && (match st.sessions[g] {
                Session::Ospf(r) => r.area_id == area,
                _ => false,
            });
        assert(rest.contains_key(g) && attached(rest[g], area));
        assert(crate::router::sessions::area_attached(rest, area));
    } else {
        if crate::router::sessions::area_attached(rest, area) {
            let g = choose|g: u64| #[trigger] rest.contains_key(g) && attached(rest[g], area);
            assert(st.sessions.contains_key(g));
        }
        let ends = contribution_end(st, h);
        let tasks = ends + seq![Task::ForgetArea { area }, Task::OspfChanged];
        assert(next.agenda =~= st.schedule(tasks).agenda);
        assert(tasks[ends.len() as int] == Task::ForgetArea { area });
        assert(tasks[tasks.len() - 1] == Task::OspfChanged);
        lemma_on_agenda(st, tasks, ends.len() as int);
        lemma_on_agenda(st, tasks, tasks.len() - 1);
        if other != area && st.ospf.areas.contains_key(other) {
            let areas = st.ospf.areas.remove(area);
            assert(areas.contains_key(other));
            assert(areas != Map::<u32, AreaView>::empty());
        }
        if forall|x: u32| #[trigger] st.ospf.areas.contains_key(x) ==> x == area {
            assert(st.ospf.areas.remove(area) =~= Map::<u32, AreaView>::empty());
        }
    }
}

/// Other sessions keep everything they have when one is removed.
pub proof fn removal_takes_from_one_session(
    st: RouterState,
    h: u64,
    g: u64,
    k: RouteKey,
    f: NlriFamily,
    id: u32,
    p: PathKey,
)
    requires
        g != h,
        p.0.peer != h,
    ensures
        ({
            let next = after_remove_session(st, h);
            &&& lookup(next.sessions, g) == lookup(st.sessions, g)
            &&& lookup(next.mrai_interval, g) == lookup(st.mrai_interval, g)
            &&& lookup(next.mrai_last, (g, k)) == lookup(st.mrai_last, (g, k))
            &&& lookup(next.mrai_pending, (g, k)) == lookup(st.mrai_pending, (g, k))
            &&& lookup(next.windows, g) == lookup(st.windows, g)
            &&& lookup(next.deadlines, (g, f)) == lookup(st.deadlines, (g, f))
            &&& lookup(next.refreshed, (g, (k, id))) == lookup(st.refreshed, (g, (k, id)))
            &&& lookup(next.policy, g) == lookup(st.policy, g)
            &&& lookup(next.llgr_caps, g) == lookup(st.llgr_caps, g)
            &&& lookup(next.limits, g) == lookup(st.limits, g)
            &&& lookup(next.collision, g) == lookup(st.collision, g)
            &&& lookup(next.records, g) == lookup(st.records, g)
            &&& lookup(next.partial_transit, g) == lookup(st.partial_transit, g)
            &&& lookup(next.adj_out, p) == lookup(st.adj_out, p)
            &&& lookup(next.pre_policy, p) == lookup(st.pre_policy, p)
            &&& lookup(next.screened, p) == lookup(st.screened, p)
            &&& next.adj_in == st.adj_in && next.loc == st.loc && next.direct == st.direct
                && next.events == st.events
        }),
{
}

/// A removed session withdraws no direct route but one that it published and
/// that is still in force.
pub proof fn removal_spares_other_direct_routes(st: RouterState, h: u64, j: int) -> (r: Route)
    requires
        st.agenda.len() <= j < after_remove_session(st, h).agenda.len(),
        after_remove_session(st, h).agenda[j] is WithdrawDirect,
    ensures
        match lookup(st.sessions, h) {
            Some(Session::Babel(b)) => b.published.seq().contains(r),
            _ => false,
        },
        lookup(st.direct, r.key) == Some(r),
        after_remove_session(st, h).agenda[j] == (Task::WithdrawDirect { key: r.key }),
{
    let next = after_remove_session(st, h);
    let t = next.agenda[j];
    let paths = keys_where(st.adj_in, OfPeer(h));
    let a = gather(paths, withdrawal_task());
    let s = published_by(st.session(h));
    let g = direct_withdrawal(st.direct);
    let b = gather(s, g);
    let ends = contribution_end(st, h);
    let tasks = match orphaned_area(st, h) {
        Some(area) => ends + seq![Task::ForgetArea { area }, Task::OspfChanged],
        None => ends,
    };
    assert(next.agenda == st.agenda + tasks.reverse());
    let n = tasks.len() - 1 - (j - st.agenda.len());
    assert(tasks[n] == t);
    assert(n < ends.len());
    assert(ends[n] == t);
    if n < a.len() {
        assert(a[n] == t);
        assert(a.contains(t));
        let i = gather_source(paths, withdrawal_task(), t);
        assert(false);
    }
    assert(b[n - a.len()] == t);
    assert(b.contains(t));
    let i = gather_source(s, g, t);
    assert(g(s[i])[0] == t);
    s[i]
}

/// A started BGP session's state machine is stepped by a start, and its
/// establishment forgotten; nothing waits for it any longer. Sessions of
/// other protocols have nothing to step.
pub proof fn sessions_start_from_scratch(st: RouterState, h: u64, k: RouteKey, g: u64)
    ensures
        ({
            let next = after_start(st, h);
            &&& !next.mrai_pending.contains_key((h, k)) && !next.mrai_last.contains_key((h, k))
            &&& g != h ==> lookup(next.mrai_pending, (g, k)) == lookup(st.mrai_pending, (g, k))
                && lookup(next.mrai_last, (g, k)) == lookup(st.mrai_last, (g, k))
            &&& match lookup(st.sessions, h) {
                Some(Session::Bgp(_)) => next.agenda == st.agenda.push(
                    Task::ClearEstablished { session: h },
                ).push(Task::StepPeer { session: h, event: PeerEvent::Start }),
                _ => next.agenda == st.agenda,
            }
        }),
{
    let a = Task::StepPeer { session: h, event: PeerEvent::Start };
    let b = Task::ClearEstablished { session: h };
    lemma_few(st, a, b, a, b);
}

/// As time passes every expired timer is acted upon first; the exchanges are
/// polled, the databases aged where OSPF runs, what waits for an interval is
/// looked at, and restart windows last.
pub proof fn ticks_attend_to_everything(st: RouterState, now_ms: u64, expired: Seq<u32>, i: int)
    ensures
        ({
            let next = after_tick(st, now_ms, expired);
            let n = st.agenda.len() as int;
            &&& next.now_ms == now_ms
            &&& next.agenda.len() >= n + 3
            &&& next.agenda[n] == Task::RestartWindows
            &&& next.agenda[n + 1] == Task::FlushMrai
            &&& st.ospf.router_id is Some ==> next.agenda[n + 2] == Task::OspfSettle
                && next.agenda[n + 3] == Task::AgeDatabases && next.agenda[n + 4]
                == Task::PollExchanges
            &&& st.ospf.router_id is None ==> next.agenda[n + 2] == Task::PollExchanges
            &&& 0 <= i < expired.len() ==> next.agenda[next.agenda.len() - 1 - i]
                == (Task::TimerExpired { timer: expired[i] })
        }),
{
    let f = timer_task();
    let a = gather(expired, f);
    lemma_timers(expired);
    let b = if st.ospf.router_id is Some {
        seq![Task::AgeDatabases, Task::OspfSettle]
    } else {
        Seq::empty()
    };
    let tasks = a + seq![Task::PollExchanges] + b + seq![Task::FlushMrai, Task::RestartWindows];
    let next = after_tick(st, now_ms, expired);
    assert(next.agenda =~= st.schedule(tasks).agenda);
    let m = tasks.len() as int;
    assert(tasks[m - 1] == Task::RestartWindows);
    assert(tasks[m - 2] == Task::FlushMrai);
    lemma_on_agenda(st, tasks, m - 1);
    lemma_on_agenda(st, tasks, m - 2);
    lemma_on_agenda(st, tasks, m - 3);
    if st.ospf.router_id is Some {
        assert(tasks[m - 3] == Task::OspfSettle);
        assert(tasks[m - 4] == Task::AgeDatabases);
        assert(tasks[m - 5] == Task::PollExchanges);
        lemma_on_agenda(st, tasks, m - 4);
        lemma_on_agenda(st, tasks, m - 5);
    } else {
        assert(tasks[m - 3] == Task::PollExchanges);
    }
    if 0 <= i < expired.len() {
        assert(tasks[i] == a[i]);
        lemma_on_agenda(st, tasks, i);
    }
}

proof fn lemma_timers(expired: Seq<u32>)
    ensures
        gather(expired, timer_task()).len() == expired.len(),
        forall|i: int|
            0 <= i < expired.len() ==> #[trigger] gather(expired, timer_task())[i] == (
            Task::TimerExpired { timer: expired[i] }),
    decreases expired.len(),
{
    if expired.len() > 0 {
        let front = expired.drop_last();
        lemma_timers(front);
        let a = gather(front, timer_task());
        let all = gather(expired, timer_task());
        assert(all =~= a.push(Task::TimerExpired { timer: expired.last() }));
        assert forall|i: int| 0 <= i < expired.len() implies #[trigger] all[i] == (
        Task::TimerExpired { timer: expired[i] }) by {
            if i < front.len() {
                assert(all[i] == a[i]);
            }
        }
    }
}

/// A new interval counts from then on; where it is taken away, everything
/// that waits for the session is transmitted, and nothing of others.
pub proof fn intervals_are_set(st: RouterState, h: u64, interval_ms: u64, g: u64, k: RouteKey)
    requires
        is_table(st.mrai_pending),
    ensures
        ({
            let next = after_set_mrai(st, h, interval_ms);
            &&& lookup(next.mrai_interval, h) == Some(interval_ms)
            &&& g != h ==> lookup(next.mrai_interval, g) == lookup(st.mrai_interval, g) && lookup(
                next.mrai_pending,
                (g, k),
            ) == lookup(st.mrai_pending, (g, k))
            &&& interval_ms != 0 ==> next.mrai_pending == st.mrai_pending && next.agenda
                == st.agenda
            &&& interval_ms == 0 && st.mrai_pending.contains_key((h, k)) ==> next.agenda.contains(
                Task::Transmit {
                    session: h,
                    routes: st.mrai_pending[(h, k)].routes,
                    occasion: Occasion::Update,
                },
            ) && !next.mrai_pending.contains_key((h, k))
        }),
{
    if interval_ms == 0 && st.mrai_pending.contains_key((h, k)) {
        let s = sorted(st.mrai_pending);
        let f = waiting_task(h);
        let i = lemma_key_position(s, (h, k));
        let t = Task::Transmit {
            session: h,
            routes: st.mrai_pending[(h, k)].routes,
            occasion: Occasion::Update,
        };
        assert(f(s[i])[0] == t);
        assert(f(s[i]).contains(t));
        gather_includes(s, f, i, t);
        let tasks = gather(s, f);
        let j = choose|j: int| 0 <= j < tasks.len() && tasks[j] == t;
        lemma_on_agenda(st, tasks, j);
        assert(after_set_mrai(st, h, interval_ms).agenda =~= st.schedule(tasks).agenda);
    }
}

/// Declared policies are remembered; when the export declaration is new or
/// changes, every destination is reconsidered toward the session.
pub proof fn policies_are_declared(
    st: RouterState,
    h: u64,
    import: bool,
    export: bool,
    key: RouteKey,
)
    requires
        is_table(st.loc),
    ensures
        ({
            let next = after_set_policy(st, h, import, export);
            let changed = !st.policy.contains_key(h) || st.policy[h].has_export != export;
            &&& next.policy.contains_key(h)
            &&& next.policy[h].has_import == import
            &&& next.policy[h].has_export == export
            &&& st.policy.contains_key(h) ==> next.policy[h].warned_import
                == st.policy[h].warned_import && next.policy[h].warned_export
                == st.policy[h].warned_export
            &&& changed && st.loc.contains_key(key) ==> next.agenda.contains(
                Task::ExportTo { session: h, key, ranked: st.loc[key] },
            )
            &&& !changed ==> next.agenda == st.agenda
        }),
{
    let changed = !st.policy.contains_key(h) || st.policy[h].has_export != export;
    if changed && st.loc.contains_key(key) {
        let s = sorted(st.loc);
        let f = reexport_task(h);
        let i = lemma_key_position(s, key);
        let t = Task::ExportTo { session: h, key, ranked: st.loc[key] };
        assert(f(s[i])[0] == t);
        assert(f(s[i]).contains(t));
        gather_includes(s, f, i, t);
        let tasks = gather(s, f);
        let j = choose|j: int| 0 <= j < tasks.len() && tasks[j] == t;
        lemma_on_agenda(st, tasks, j);
        assert(after_set_policy(st, h, import, export).agenda =~= st.schedule(tasks).agenda);
    }
}

/// A setting is accepted exactly on a BGP session that is not established,
/// and refused with the reason; an accepted one replaces the configuration
/// and nothing else.
pub proof fn settings_precede_establishment(
    st: RouterState,
    h: u64,
    setting: SessionSetting,
    config: PeerConfig,
    other: u64,
)
    ensures
        match lookup(st.sessions, h) {
            Some(Session::Bgp(b)) => {
                &&& b.status.state is Established ==> configuration_refusal(st, h, setting) == Some(
                    RouterError::AlreadyEstablished { session: h, setting },
                )
                &&& !(b.status.state is Established) ==> configuration_refusal(
                    st,
                    h,
                    setting,
                ) is None
                &&& match lookup(with_config(st, h, config).sessions, h) {
                    Some(Session::Bgp(c)) => c.config == config && c.status == b.status
                        && c.established == b.established,
                    _ => false,
                }
            },
            _ => configuration_refusal(st, h, setting) == Some(RouterError::NotBgp(h)),
        },
        other != h ==> lookup(with_config(st, h, config).sessions, other) == lookup(
            st.sessions,
            other,
        ),
{
}

/// A snapshot of the table holds the best path of every destination, one of
/// all paths every path, and neither anything else.
pub proof fn snapshots_show_the_table(loc: Map<RouteKey, List<Route>>, r: Route)
    requires
        is_table(loc),
    ensures
        gather(sorted(loc), best_paths()).contains(r) <==> exists|k: RouteKey| #[trigger]
            loc.contains_key(k) && loc[k].seq().len() > 0 && loc[k].seq()[0] == r,
        gather(sorted(loc), all_paths()).contains(r) <==> exists|k: RouteKey| #[trigger]
            loc.contains_key(k) && loc[k].seq().contains(r),
{
    let s = sorted(loc);
    let f = best_paths();
    let g = all_paths();
    if gather(s, f).contains(r) {
        let i = gather_source(s, f, r);
        lemma_entry(s, i);
        assert(loc.contains_key(s[i].0));
        assert(s[i].1 is Cons);
        assert(s[i].1.seq()[0] == s[i].1->Cons_0);
    }
    if gather(s, g).contains(r) {
        let i = gather_source(s, g, r);
        lemma_entry(s, i);
        assert(loc.contains_key(s[i].0));
    }
    if exists|k: RouteKey| #[trigger]
        loc.contains_key(k) && loc[k].seq().len() > 0 && loc[k].seq()[0] == r {
        let k = choose|k: RouteKey| #[trigger]
            loc.contains_key(k) && loc[k].seq().len() > 0 && loc[k].seq()[0] == r;
        let i = lemma_key_position(s, k);
        assert(loc[k] is Cons);
        assert(loc[k].seq()[0] == loc[k]->Cons_0);
        assert(f(s[i])[0] == r);
        assert(f(s[i]).contains(r));
        gather_includes(s, f, i, r);
    }
    if exists|k: RouteKey| #[trigger] loc.contains_key(k) && loc[k].seq().contains(r) {
        let k = choose|k: RouteKey| #[trigger] loc.contains_key(k) && loc[k].seq().contains(r);
        let i = lemma_key_position(s, k);
        assert(g(s[i]) == loc[k].seq());
        gather_includes(s, g, i, r);
    }
}

/// An overview shows a session as it is: its kind, its numbers, its state and
/// whether it is established.
pub proof fn overviews_show_sessions(h: u64, s: Session, n: usize)
    ensures
        ({
            let o = summary_of(h, s, n);
            &&& o.handle == h && o.adj_rib_in_len == n
            &&& match s {
                Session::Bgp(b) => {
                    &&& o.kind is Bgp
                    &&& o.local_as == b.config.local_as && o.peer_as == b.config.peer_as
                    &&& o.state == SummaryState::Bgp(b.status.state)
                    &&& o.established == b.established
                    &&& o.peer_bgp_id == b.status.peer_bgp_id
                    &&& o.negotiated_hold_time == b.status.hold_time
                    &&& o.updates_received == b.status.updates_received
                    &&& o.updates_sent == b.status.updates_sent
                },
                Session::Ospf(r) => {
                    &&& o.kind is Ospfv3 <==> r.protocol is Ospfv3
                    &&& o.kind is Ospfv2 <==> !(r.protocol is Ospfv3)
                    &&& o.state == SummaryState::Ospf(r.neighbor)
                    &&& o.established <==> r.neighbor is Full
                    &&& o.peer_bgp_id is None
                },
                Session::Babel(r) => {
                    &&& o.kind is Babel
                    &&& o.state == SummaryState::Babel { up: r.heard }
                    &&& o.established == r.heard
                },
            }
        }),
{
}

/// Events are handed out once, in the order in which they were reported.
pub proof fn events_are_handed_out_once(st: RouterState, e: RouterEvent, back: Seq<RouterEvent>)
    ensures
        polled(st).events.len() == 0,
        st.report(e).events == st.events.push(e),
        requeued(st, back).events == back + st.events,
        polled(st).agenda == st.agenda && polled(st).loc == st.loc,
{
}

/// A setting either takes effect and nothing else changes, or is refused and
/// nothing changes.
pub proof fn settings_take_effect_or_are_refused(
    before: RouterState,
    after: RouterState,
    h: u64,
    setting: SessionSetting,
    r: Result<(), RouterError>,
    config: PeerConfig,
)
    requires
        configured(before, after, h, setting, r, config),
    ensures
        match lookup(before.sessions, h) {
            Some(Session::Bgp(b)) => if b.status.state is Established {
                after == before && r == Err::<(), RouterError>(
                    RouterError::AlreadyEstablished { session: h, setting },
                )
            } else {
                &&& r is Ok
                &&& after.agenda == before.agenda && after.loc == before.loc && after.events
                    == before.events
                &&& match lookup(after.sessions, h) {
                    Some(Session::Bgp(c)) => c.config == config && c.status == b.status
                        && c.established == b.established,
                    _ => false,
                }
            },
            _ => after == before && r == Err::<(), RouterError>(RouterError::NotBgp(h)),
        },
{
}

} // verus!
