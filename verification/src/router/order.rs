//! What holds of a router at all times.

use crate::ospf::facts::AreaView;
use crate::events::BgpState;
use crate::list::List;
use crate::ordmap::sorted;
use crate::ospf::external::{
    distinct_external_ids, external_id, externals_never_share_an_id,
};
use crate::ospf::plan::{ExternalDestination, V3ExternalDestination};
use crate::ospf::summary_v3::{distinct, prefixes_never_share_an_id};
use crate::addr::Prefix;
use crate::route::{Route, RouteKey, RouteOrigin};
use crate::router::engine::{
    answered, performed, performed_for_ospf, performed_for_session, step_of,
};
use crate::router::export::{advertised, after_retract, after_transmit, suppressed};
use crate::router::import::{
    after_check_limit, after_hooks, after_purge, after_remove_path, after_screen, after_withdraw,
};
use crate::router::intake::{after_babel, after_graces, after_receive, after_take};
use crate::router::origination::{
    after_add_pipe, after_aggregate, after_install_direct, after_originate, after_release,
    after_remove_aggregate, after_remove_pipe, after_static, after_unoriginate,
    after_unredistribute, after_unstatic, after_withdraw_direct,
};
use crate::router::paths::peer_origin;
use crate::router::peers::{after_feed, after_stepped};
use crate::router::plane::{
    after_add_link, after_conversion, after_eval_link, after_external, after_external_end,
    after_external_end_v3, after_external_v3, after_originate_external_v3, after_remove_link,
    after_summarize,
};
use crate::router::restart::after_reconfig;
use crate::router::selection::{after_apply, after_reselect};
use crate::router::sessions::{
    after_add_babel, after_add_bgp, after_add_ospf, after_remove_session, after_set_mrai,
    after_set_policy, after_start, after_tick, config_of, with_config,
};
use crate::router::{PathKey, PendingUpdate, RouterState};
use crate::session::{PeerConfig, PeerStatus, Session, SessionConfig};
use crate::task::{Answer, BgpAction, LsaProgress, Occasion, RedistributionPipe, Task};
use vstd::prelude::*;

verus! {

/// Whether each route stands under its own destination.
pub open spec fn keyed(m: Map<RouteKey, Route>) -> bool {
    forall|k: RouteKey| #[trigger] m.contains_key(k) ==> m[k].key == k
}

/// Whether each path stands under its own contributor, destination and
/// identifier.
pub open spec fn contributed(m: Map<PathKey, Route>) -> bool {
    forall|k: PathKey| #[trigger]
        m.contains_key(k) ==> m[k].origin == k.0 && m[k].key == k.1.0 && m[k].path_id == k.1.1
}

/// Whether each path sent stands under its own destination and identifier.
pub open spec fn sent(m: Map<PathKey, Route>) -> bool {
    forall|k: PathKey| #[trigger]
        m.contains_key(k) ==> k.0 == peer_origin(k.0.peer) && m[k].key == k.1.0 && m[k].path_id
            == k.1.1
}

/// Whether each destination in force has a best path.
pub open spec fn ranked_sets(m: Map<RouteKey, List<Route>>) -> bool {
    forall|k: RouteKey| #[trigger] m.contains_key(k) ==> m[k] is Cons
}

/// Whether what waits stands under its own destination.
pub open spec fn waiting(m: Map<(u64, RouteKey), PendingUpdate>) -> bool {
    forall|k: (u64, RouteKey)| #[trigger]
        m.contains_key(k) ==> m[k].routes is Cons && m[k].routes->Cons_0.key == k.1
}

/// Whether handles of sessions were given out, and BGP peers know theirs.
pub open spec fn handled(m: Map<u64, Session>, next: u64) -> bool {
    forall|h: u64| #[trigger]
        m.contains_key(h) ==> h < next && match m[h] {
            Session::Bgp(b) => b.config.peer_id == h,
            _ => true,
        }
}

/// Whether the routes that aggregates made are originated ones.
#[verifier::opaque]
pub open spec fn aggregates_stand(
    aggregated: Map<RouteKey, ()>,
    originated: Map<RouteKey, Route>,
) -> bool {
    forall|k: RouteKey| #[trigger] aggregated.contains_key(k) ==> originated.contains_key(k)
}

/// What holds of a router at all times.
pub open spec fn wf(st: RouterState) -> bool {
    &&& contributed(st.adj_in)
    &&& contributed(st.pre_policy)
    &&& contributed(st.screened)
    &&& sent(st.adj_out)
    &&& ranked_sets(st.loc)
    &&& keyed(st.originated)
    &&& aggregates_stand(st.aggregated, st.originated)
    &&& keyed(st.statics)
    &&& keyed(st.redistributed)
    &&& keyed(st.direct)
    &&& waiting(st.mrai_pending)
    &&& handled(st.sessions, st.next_handle)
    &&& st.settings.max_paths >= 1
    &&& distinct(st.ospf.summary_ids)
    &&& distinct_external_ids(st.ospf.external_ids)
}

proof fn lemma_advertised_sent(m: Map<PathKey, Route>, session: u64, routes: List<Route>)
    requires
        sent(m),
    ensures
        sent(advertised(m, session, routes)),
    decreases routes,
{
    if let List::Cons(r, rest) = routes {
        lemma_advertised_sent(
            m.insert((peer_origin(session), (r.key, r.path_id)), r),
            session,
            *rest,
        );
    }
}

proof fn lemma_suppressed_sent(
    m: Map<PathKey, Route>,
    session: u64,
    key: RouteKey,
    ids: List<u32>,
)
    requires
        sent(m),
    ensures
        sent(suppressed(m, session, key, ids)),
    decreases ids,
{
    if let List::Cons(id, rest) = ids {
        lemma_suppressed_sent(
            m.remove((peer_origin(session), (key, id))),
            session,
            key,
            *rest,
        );
    }
}

proof fn lemma_graces(st: RouterState, area: u32, lsas: List<crate::ospf::lsa::Lsa>)
    requires
        wf(st),
    ensures
        wf(after_graces(st, area, lsas)),
    decreases lsas,
{
    if let List::Cons(l, rest) = lsas {
        lemma_graces(crate::router::intake::after_grace(st, area, l), area, *rest);
    }
}

proof fn hooks_keep(st: RouterState, raw: Route, hooked: Option<Route>, reconfig: bool)
    requires
        wf(st),
    ensures
        wf(after_hooks(st, raw, hooked, reconfig)),
{
}

proof fn stepped_keeps(
    st: RouterState,
    session: u64,
    status: PeerStatus,
    actions: Seq<BgpAction>,
)
    requires
        wf(st),
    ensures
        wf(after_stepped(st, session, status, actions)),
{
}

proof fn transmissions_keep(
    st: RouterState,
    session: u64,
    routes: List<Route>,
    occasion: Occasion,
    key: RouteKey,
    ids: List<u32>,
    taken: bool,
)
    requires
        wf(st),
    ensures
        wf(after_transmit(st, session, routes, occasion, taken)),
        wf(after_retract(st, session, key, ids, taken)),
{
    lemma_advertised_sent(st.adj_out, session, routes);
    lemma_suppressed_sent(st.adj_out, session, key, ids);
}

#[verifier::rlimit(60)]
proof fn answers_keep(st: RouterState, t: Task, a: Answer)
    requires
        wf(st),
    ensures
        wf(answered(st, t, a)),
{
    match (t, a) {
        (Task::RunImport { route, reconfig }, Answer::Hooked(r)) => {
            hooks_keep(st, route, r, reconfig);
        },
        (Task::StepPeer { session, .. }, Answer::Stepped { status, actions }) => {
            stepped_keeps(st, session, status, actions@);
        },
        (Task::Transmit { session, routes, occasion }, Answer::Sent(taken)) => {
            transmissions_keep(
                st,
                session,
                routes,
                occasion,
                routes->Cons_0.key,
                List::Nil,
                taken,
            );
        },
        (Task::Retract { session, key, ids }, Answer::Sent(taken)) => {
            transmissions_keep(st, session, List::Nil, Occasion::Update, key, ids, taken);
        },
        _ => {},
    }
}

proof fn copies_keep(st: RouterState, key: RouteKey, route: Route)
    requires
        wf(st),
    ensures
        wf(after_release(st, key)),
        wf(after_unredistribute(st, key)),
        wf(after_install_direct(st, route)),
        wf(after_withdraw_direct(st, key)),
{
}

proof fn originations_keep(
    st: RouterState,
    route: Route,
    key: RouteKey,
    prefix: Prefix,
    wanted: bool,
    local_as: u32,
    bgp_id: u32,
)
    requires
        wf(st),
    ensures
        wf(after_originate(st, route)),
        wf(after_unoriginate(st, key)),
        wf(after_aggregate(st, prefix, wanted, local_as, bgp_id)),
{
    reveal(aggregates_stand);
}

proof fn paths_keep(st: RouterState, origin: RouteOrigin, key: RouteKey, path_id: u32)
    requires
        wf(st),
    ensures
        wf(after_withdraw(st, origin, key, path_id)),
        wf(after_remove_path(st, origin, key, path_id)),
        wf(after_purge(st, origin, key, path_id)),
{
}

proof fn screenings_keep(st: RouterState, route: Route, session: u64)
    requires
        wf(st),
    ensures
        wf(after_screen(st, route)),
        wf(after_check_limit(st, session)),
{
}

proof fn selections_keep(st: RouterState, key: RouteKey, ranked: List<Route>)
    requires
        wf(st),
    ensures
        wf(after_reselect(st, key)),
        wf(after_apply(st, key, ranked)),
{
}

#[verifier::rlimit(40)]
proof fn routes_keep(st: RouterState, t: Task)
    requires
        wf(st),
    ensures
        wf(performed(st, t)),
{
    match t {
        Task::Screen { route } => {
            screenings_keep(st, route, 0);
        },
        Task::CheckLimit { session } => {
            screenings_keep(st, arbitrary(), session);
        },
        Task::WithdrawPath { origin, key, path_id } => {
            paths_keep(st, origin, key, path_id);
        },
        Task::RemovePath { origin, key, path_id } => {
            paths_keep(st, origin, key, path_id);
        },
        Task::PurgePath { origin, key, path_id } => {
            paths_keep(st, origin, key, path_id);
        },
        Task::Reselect { key } => {
            selections_keep(st, key, List::Nil);
        },
        Task::Apply { key, ranked } => {
            selections_keep(st, key, ranked);
        },
        Task::ReleaseCopy { key } | Task::Unredistribute { key } | Task::WithdrawDirect { key } => {
            copies_keep(st, key, arbitrary());
        },
        Task::InstallDirect { route } => {
            copies_keep(st, route.key, route);
        },
        Task::Aggregate { prefix, wanted, local_as, bgp_id } => {
            originations_keep(
                st,
                arbitrary(),
                arbitrary(),
                prefix,
                wanted,
                local_as,
                bgp_id,
            );
        },
        _ => {},
    }
}

proof fn sessions_keep(st: RouterState, t: Task)
    requires
        wf(st),
    ensures
        wf(performed_for_session(st, t)),
{
}

proof fn links_keep(st: RouterState, transit: u32, endpoint: u32, backbone: AreaView)
    requires
        wf(st),
    ensures
        wf(after_eval_link(st, transit, endpoint, backbone)),
{
}

proof fn intake_keeps(st: RouterState, session: u64, area: u32, progress: LsaProgress)
    requires
        wf(st),
    ensures
        wf(after_take(st, session, area, progress)),
{
    lemma_graces(st, area, progress.grace);
}

proof fn summaries_keep(st: RouterState, step: u8)
    requires
        wf(st),
    ensures
        wf(after_summarize(st, step)),
{
    reveal(distinct);
    if let Some(id) = st.ospf.router_id {
        prefixes_never_share_an_id(
            st.ospf.areas,
            id,
            st.ospf.summary_ids,
            sorted(st.ospf.areas),
        );
    }
}

proof fn externals_keep(st: RouterState, prefix: Prefix)
    requires
        wf(st),
    ensures
        wf(after_originate_external_v3(st, prefix)),
{
    if let Some(id) = st.ospf.router_id {
        if external_id(sorted(st.ospf.areas), id, st.ospf.external_ids, prefix) is Some {
            externals_never_share_an_id(
                sorted(st.ospf.areas),
                id,
                st.ospf.external_ids,
                prefix,
            );
        }
    }
}

#[verifier::rlimit(60)]
proof fn ospf_keeps(st: RouterState, t: Task, backbone: AreaView)
    requires
        wf(st),
    ensures
        wf(performed_for_ospf(st, t, backbone)),
{
    match t {
        Task::TakeLsas { session, area, progress } => {
            intake_keeps(st, session, area, progress);
        },
        Task::EvalLink { transit, endpoint } => {
            links_keep(st, transit, endpoint, backbone);
        },
        Task::Summarize { step } => {
            summaries_keep(st, step);
        },
        Task::OriginateExternalV3 { prefix } => {
            externals_keep(st, prefix);
        },
        _ => {},
    }
}

/// A new router is in order.
pub proof fn fresh_routers_are_in_order()
    ensures
        wf(RouterState::fresh()),
{
    reveal(aggregates_stand);
    reveal(distinct);
    reveal(distinct_external_ids);
}

/// Every step keeps what holds of a router at all times, whatever the
/// embedder answers.
pub proof fn steps_keep_the_invariant(st: RouterState, a: Answer, backbone: AreaView)
    requires
        wf(st),
    ensures
        wf(step_of(st, a, backbone)),
{
    if st.agenda.len() > 0 {
        let t = st.agenda.last();
        let rest = RouterState { agenda: st.agenda.drop_last(), ..st };
        if t.is_ask() {
            answers_keep(rest, t, a);
        } else if t.for_session() {
            sessions_keep(rest, t);
        } else if t.for_ospf() {
            ospf_keeps(rest, t, backbone);
        } else {
            routes_keep(rest, t);
        }
    }
}

/// Requests about sessions keep what holds of a router at all times.
pub proof fn session_requests_keep_the_invariant(
    st: RouterState,
    cfg: SessionConfig,
    area: AreaView,
    h: u64,
    prev: BgpState,
    status: PeerStatus,
    actions: Seq<BgpAction>,
)
    requires
        wf(st),
        st.next_handle < u64::MAX,
    ensures
        wf(after_add_bgp(st, cfg)),
        wf(after_add_ospf(st, cfg, area)),
        wf(after_add_babel(st, cfg)),
        wf(after_remove_session(st, h)),
        wf(after_start(st, h)),
        wf(after_feed(st, h, prev, status, actions)),
        wf(after_reconfig(st, h)),
{
}

/// Timing and policy requests keep what holds of a router at all times.
pub proof fn settings_keep_the_invariant(
    st: RouterState,
    h: u64,
    now_ms: u64,
    expired: Seq<u32>,
    import: bool,
    export: bool,
    config: PeerConfig,
)
    requires
        wf(st),
        config.peer_id == config_of(st, h).peer_id,
    ensures
        wf(after_tick(st, now_ms, expired)),
        wf(after_set_mrai(st, h, now_ms)),
        wf(after_set_policy(st, h, import, export)),
        wf(with_config(st, h, config)),
{
}

/// Requests about routes keep what holds of a router at all times.
pub proof fn route_requests_keep_the_invariant(
    st: RouterState,
    route: Route,
    key: RouteKey,
    prefix: Prefix,
    pipe: RedistributionPipe,
)
    requires
        wf(st),
    ensures
        wf(after_originate(st, route)),
        wf(after_unoriginate(st, key)),
        wf(after_static(st, route)),
        wf(after_unstatic(st, key)),
        wf(after_remove_aggregate(st, prefix)),
        wf(after_add_pipe(st, pipe)),
        wf(after_remove_pipe(st, pipe.source, pipe.target)),
{
    reveal(aggregates_stand);
}

/// Requests about OSPF and Babel keep what holds of a router at all times.
pub proof fn plane_requests_keep_the_invariant(
    st: RouterState,
    dest: ExternalDestination,
    dest_v3: V3ExternalDestination,
    transit: u32,
    endpoint: u32,
    h: u64,
    best: Seq<crate::babel::BabelBest>,
    heard: bool,
    lsas: Seq<crate::ospf::lsa::Lsa>,
    kind: crate::ospf::area::OspfAreaType,
)
    requires
        wf(st),
    ensures
        wf(after_conversion(st, transit, kind)),
        wf(after_external(st, dest)),
        wf(after_external_v3(st, dest_v3)),
        wf(after_external_end(st, transit)),
        wf(after_external_end_v3(st, dest_v3.prefix)),
        wf(after_add_link(st, transit, endpoint)),
        wf(after_remove_link(st, transit, endpoint)),
        wf(after_babel(st, h, best, heard)),
        wf(after_receive(st, h, lsas)),
{
    let ids = st.ospf.external_ids;
    let left = ids.remove(dest_v3.prefix);
    assert(distinct_external_ids(left)) by {
        reveal(distinct_external_ids);
        assert forall|p: Prefix, q: Prefix|
            #![trigger left.contains_key(p), left.contains_key(q)]
            left.contains_key(p) && left.contains_key(q) && left[p] == left[q] implies p == q by {
            assert(ids.contains_key(p) && ids.contains_key(q));
        }
    }
}

/// Handles are never given out twice: a new session's handle belongs to no
/// session.
pub proof fn handles_are_fresh(st: RouterState)
    requires
        wf(st),
    ensures
        !st.sessions.contains_key(st.next_handle),
{
}

} // verus!
