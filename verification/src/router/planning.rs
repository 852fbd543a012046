//! What becomes of link-state databases and of what neighbours send.

use crate::addr::{mask_v4, mask_v6, IpAddr, Prefix};
use crate::babel::{babel_routes, table_of, BabelBest};
use crate::delta::{changed_routes, gone_keys};
use crate::events::{LogEntry, RouterEvent};
use crate::list::List;
use crate::ordmap::{is_table, lookup, sorted};
use crate::ordmap::lemma_key_position;
use crate::ospf::area::{area_accepts, OspfAreaType};
use crate::ospf::asbr::flush_type;
use crate::ospf::external::{desired_map, TranslationKey};
use crate::ospf::facts::AreaView;
use crate::ospf::grace::{grace_verdict, remembered, GraceVerdict};
use crate::ospf::lsa::{grace_lsa, InstallOutcome, Lsa, LsaKey};
use crate::ospf::merge::merged_table;
use crate::ospf::plan::{single, AreaPlan, ExternalDestination, LsaAction, V3ExternalDestination};
use crate::ospf::summary::summary_plan_of;
use crate::route::{Route, RouteKey};
use crate::router::contributing::differences_are_carried_out;
use crate::router::intake::{
    after_babel, after_babel_flush, after_grace, after_installed, after_mirror, after_mirrored,
    after_receive, after_take, after_taken, as_scope, as_scoped, babel_of, flood_packet,
    flood_packets, flood_tasks, mirror_task, send_task, update_packet,
};
use crate::router::plane::{
    abr, abr_v3, after_add_link, after_changed, after_conversion, after_eval_link,
    after_eval_links, after_external, after_external_end, after_external_v3, after_ospf_changed,
    after_recompute, after_remove_link, after_settle, after_summarize, after_sync_links,
    after_translate, asbr, convertible, end_task, flush_types, link_allowed, link_task,
    link_viable, planned, put_task, recorded_v3, Through,
};
use crate::router::sessions::sync_tasks;
use crate::router::telling::{lemma_few, lemma_on_agenda};
use crate::router::RouterState;
use crate::select::KeyTest;
use crate::select::any_key;
use crate::seqs::{gather, gather_includes};
use crate::session::Session;
use crate::task::{LsaProgress, Task};
use vstd::prelude::*;

verus! {

/// Databases are looked at anew only when they changed, and once for all
/// changes since.
pub proof fn changes_settle_once(st: RouterState, changed: bool)
    ensures
        after_changed(st, changed).ospf.dirty <==> st.ospf.dirty || changed,
        after_changed(st, changed).agenda == st.agenda,
        st.ospf.dirty ==> after_settle(st).agenda == st.agenda.push(Task::OspfChanged)
            && !after_settle(st).ospf.dirty,
        !st.ospf.dirty ==> after_settle(st) == st,
{
    let t = Task::OspfChanged;
    lemma_few(st, t, t, t, t);
}

/// A change of the databases is followed by everything that is computed from
/// them: the virtual links first, all summaries, the translations, and the
/// table last.
pub proof fn everything_is_recomputed(st: RouterState, step: u8)
    ensures
        ({
            let next = after_ospf_changed(st);
            let n = st.agenda.len() as int;
            &&& next.agenda.len() == n + 8
            &&& next.agenda.take(n) == st.agenda
            &&& next.agenda.last() == Task::EvalVirtualLinks
            &&& step <= 4 ==> next.agenda[n + 6 - step] == (Task::Summarize { step })
            &&& next.agenda[n + 1] == Task::Translate
            &&& next.agenda[n] == Task::Recompute
        }),
{
    let tasks = seq![
        Task::EvalVirtualLinks,
        Task::Summarize { step: 0 },
        Task::Summarize { step: 1 },
        Task::Summarize { step: 2 },
        Task::Summarize { step: 3 },
        Task::Summarize { step: 4 },
        Task::Translate,
        Task::Recompute,
    ];
    let next = after_ospf_changed(st);
    assert(next.agenda =~= st.schedule(tasks).agenda);
    lemma_on_agenda(st, tasks, 0);
    lemma_on_agenda(st, tasks, 6);
    lemma_on_agenda(st, tasks, 7);
    if step <= 4 {
        lemma_on_agenda(st, tasks, step as int + 1);
        assert(tasks[step as int + 1] == Task::Summarize { step });
    }
    assert(next.agenda.take(st.agenda.len() as int) =~= st.agenda);
}

/// Plans are handed over together, and only where there are any.
pub proof fn plans_are_handed_over(st: RouterState, plans: Seq<AreaPlan>)
    ensures
        plans.len() == 0 ==> planned(st, plans).agenda == st.agenda,
        plans.len() > 0 ==> {
            &&& planned(st, plans).agenda.len() == st.agenda.len() + 1
            &&& planned(st, plans).agenda.drop_last() == st.agenda
            &&& match planned(st, plans).agenda.last() {
                Task::ApplyPlans { plans: p } => p.seq() == plans,
                _ => false,
            }
        },
{
    List::<AreaPlan>::seq_of(plans);
    let t = Task::ApplyPlans { plans: List::of(plans) };
    lemma_few(st, t, t, t, t);
    if plans.len() > 0 {
        assert(planned(st, plans).agenda.drop_last() =~= st.agenda);
    }
}

/// A router that borders no OSPFv2 areas flushes every type-3 and type-4
/// summary it originated, in every area, and originates none.
pub proof fn former_border_routers_flush_their_summaries(
    st: RouterState,
    id: u32,
    area: u32,
    key: LsaKey,
)
    requires
        is_table(st.ospf.areas),
        st.ospf.router_id == Some(id),
        !abr(st),
        st.ospf.areas.contains_key(area),
        is_table(st.ospf.areas[area].lsdb@),
        st.ospf.areas[area].lsdb@.contains_key(key),
        key.ls_type == 3 || key.ls_type == 4,
        key.advertising_router == id,
    ensures
        after_summarize(st, 0).agenda.len() == st.agenda.len() + 1,
        match after_summarize(st, 0).agenda.last() {
            Task::ApplyPlans { plans } => plans.seq().contains(
                single(area, LsaAction::Flush { key }),
            ),
            _ => false,
        },
{
    let f = flush_types(3, 4, id);
    let s = sorted(st.ospf.areas);
    let i = lemma_key_position(s, area);
    let x = single(area, LsaAction::Flush { key });
    let d = sorted(st.ospf.areas[area].lsdb@);
    let j = lemma_key_position(d, key);
    let a = gather(d, flush_type(area, 3, id));
    let b = gather(d, flush_type(area, 4, id));
    if key.ls_type == 3 {
        assert(flush_type(area, 3, id)(d[j])[0] == x);
        assert(flush_type(area, 3, id)(d[j]).contains(x));
        gather_includes(d, flush_type(area, 3, id), j, x);
        let n = choose|n: int| 0 <= n < a.len() && a[n] == x;
        assert((a + b)[n] == x);
    } else {
        assert(flush_type(area, 4, id)(d[j])[0] == x);
        assert(flush_type(area, 4, id)(d[j]).contains(x));
        gather_includes(d, flush_type(area, 4, id), j, x);
        let n = choose|n: int| 0 <= n < b.len() && b[n] == x;
        assert((a + b)[a.len() + n] == x);
    }
    assert(f(s[i]) == a + b);
    assert(f(s[i]).contains(x));
    gather_includes(s, f, i, x);
    plans_are_handed_over(st, gather(s, f));
}

/// A router that borders no OSPFv3 areas flushes every inter-area-prefix and
/// inter-area-router LSA it originated, and forgets their IDs.
pub proof fn former_v3_border_routers_flush_their_prefixes(
    st: RouterState,
    id: u32,
    area: u32,
    key: LsaKey,
)
    requires
        is_table(st.ospf.areas),
        st.ospf.router_id == Some(id),
        !abr_v3(st),
        st.ospf.areas.contains_key(area),
        is_table(st.ospf.areas[area].lsdb@),
        st.ospf.areas[area].lsdb@.contains_key(key),
        key.ls_type == 0x2003 || key.ls_type == 0x2004,
        key.advertising_router == id,
    ensures
        match after_summarize(st, 3).agenda.last() {
            Task::ApplyPlans { plans } => plans.seq().contains(
                single(area, LsaAction::Flush { key }),
            ),
            _ => false,
        },
        forall|k: (u32, Prefix)| !(#[trigger] after_summarize(st, 3).ospf.summary_ids.contains_key(k)),
{
    let f = flush_types(0x2003, 0x2004, id);
    let s = sorted(st.ospf.areas);
    let i = lemma_key_position(s, area);
    let x = single(area, LsaAction::Flush { key });
    let d = sorted(st.ospf.areas[area].lsdb@);
    let j = lemma_key_position(d, key);
    let a = gather(d, flush_type(area, 0x2003, id));
    let b = gather(d, flush_type(area, 0x2004, id));
    if key.ls_type == 0x2003 {
        assert(flush_type(area, 0x2003, id)(d[j])[0] == x);
        assert(flush_type(area, 0x2003, id)(d[j]).contains(x));
        gather_includes(d, flush_type(area, 0x2003, id), j, x);
        let n = choose|n: int| 0 <= n < a.len() && a[n] == x;
        assert((a + b)[n] == x);
    } else {
        assert(flush_type(area, 0x2004, id)(d[j])[0] == x);
        assert(flush_type(area, 0x2004, id)(d[j]).contains(x));
        gather_includes(d, flush_type(area, 0x2004, id), j, x);
        let n = choose|n: int| 0 <= n < b.len() && b[n] == x;
        assert((a + b)[a.len() + n] == x);
    }
    assert(f(s[i]) == a + b);
    assert(f(s[i]).contains(x));
    gather_includes(s, f, i, x);
    let bare = RouterState {
        ospf: crate::router::OspfState { summary_ids: Map::empty(), ..st.ospf },
        ..st
    };
    plans_are_handed_over(bare, gather(s, f));
}

/// A border router's plan for every area whose summaries have to change is
/// handed over.
pub proof fn border_routers_summarise_every_area(st: RouterState, id: u32, area: u32)
    requires
        is_table(st.ospf.areas),
        st.ospf.router_id == Some(id),
        abr(st),
        st.ospf.areas.contains_key(area),
        summary_plan_of(st.ospf.areas, id)((area, st.ospf.areas[area])).len() > 0,
    ensures
        match after_summarize(st, 0).agenda.last() {
            Task::ApplyPlans { plans } => plans.seq().contains(
                summary_plan_of(st.ospf.areas, id)((area, st.ospf.areas[area]))[0],
            ),
            _ => false,
        },
{
    let f = summary_plan_of(st.ospf.areas, id);
    let s = sorted(st.ospf.areas);
    let i = lemma_key_position(s, area);
    let x = f(s[i])[0];
    assert(f(s[i]).contains(x));
    gather_includes(s, f, i, x);
    plans_are_handed_over(st, gather(s, f));
}

/// Without a router ID there is nothing to summarise or translate.
pub proof fn inactive_routers_plan_nothing(st: RouterState, step: u8)
    requires
        st.ospf.router_id is None,
    ensures
        after_summarize(st, step) == st,
        after_translate(st) == st,
        after_eval_links(st) == st,
{
}

/// Exactly the desired translations are maintained: each of them is put, and
/// one that was maintained and is desired no longer is ended.
pub proof fn desired_translations_are_maintained(st: RouterState, k: TranslationKey)
    requires
        st.ospf.router_id is Some,
        is_table(st.ospf.translations),
        is_table(desired_map(abr(st), st.ospf.areas, st.ospf.externals)),
    ensures
        ({
            let desired = desired_map(abr(st), st.ospf.areas, st.ospf.externals);
            let next = after_translate(st);
            &&& next.ospf.translations.contains_key(k) <==> desired.contains_key(k)
            &&& desired.contains_key(k) ==> next.agenda.contains(
                Task::PutTranslation { translation: k, dest: desired[k] },
            )
            &&& st.ospf.translations.contains_key(k) && !desired.contains_key(k)
                ==> next.agenda.contains(Task::EndTranslation { translation: k })
        }),
{
    let desired = desired_map(abr(st), st.ospf.areas, st.ospf.externals);
    let a = gather(sorted(st.ospf.translations), end_task(desired));
    let b = gather(sorted(desired), put_task());
    let tasks = a + b;
    let next = after_translate(st);
    assert(next.agenda =~= st.schedule(tasks).agenda);
    if desired.contains_key(k) {
        let s = sorted(desired);
        let i = lemma_key_position(s, k);
        let t = Task::PutTranslation { translation: k, dest: desired[k] };
        assert(put_task()(s[i])[0] == t);
        assert(put_task()(s[i]).contains(t));
        gather_includes(s, put_task(), i, t);
        let j = choose|j: int| 0 <= j < b.len() && b[j] == t;
        assert(tasks[a.len() + j] == t);
        lemma_on_agenda(st, tasks, a.len() + j);
    }
    if st.ospf.translations.contains_key(k) && !desired.contains_key(k) {
        let s = sorted(st.ospf.translations);
        let i = lemma_key_position(s, k);
        let t = Task::EndTranslation { translation: k };
        assert(end_task(desired)(s[i])[0] == t);
        assert(end_task(desired)(s[i]).contains(t));
        gather_includes(s, end_task(desired), i, t);
        let j = choose|j: int| 0 <= j < a.len() && a[j] == t;
        assert(tasks[j] == t);
        lemma_on_agenda(st, tasks, j);
    }
}

proof fn lemma_changed(current: Seq<(RouteKey, Route)>, published: Map<RouteKey, Route>, i: int)
    requires
        0 <= i < current.len(),
        lookup(published, current[i].0) != Some(current[i].1),
    ensures
        changed_routes(current, published).contains(current[i].1),
    decreases current.len(),
{
    let front = current.drop_last();
    let rest = changed_routes(front, published);
    let all = changed_routes(current, published);
    if i == current.len() - 1 {
        assert(all[rest.len() as int] == current[i].1);
    } else {
        assert(front[i] == current[i]);
        lemma_changed(front, published, i);
        let j = choose|j: int| 0 <= j < rest.len() && rest[j] == current[i].1;
        assert(all[j] == current[i].1);
    }
}

proof fn lemma_gone(published: Seq<(RouteKey, Route)>, current: Map<RouteKey, Route>, i: int)
    requires
        0 <= i < published.len(),
        !current.contains_key(published[i].0),
    ensures
        gone_keys(published, current).contains(published[i].0),
    decreases published.len(),
{
    let front = published.drop_last();
    let rest = gone_keys(front, current);
    let all = gone_keys(published, current);
    if i == published.len() - 1 {
        assert(all[rest.len() as int] == published[i].0);
    } else {
        assert(front[i] == published[i]);
        lemma_gone(front, current, i);
        let j = choose|j: int| 0 <= j < rest.len() && rest[j] == published[i].0;
        assert(all[j] == published[i].0);
    }
}

/// The table that was computed anew is the published one from then on: what
/// it holds and was not published so is installed, what it no longer holds is
/// withdrawn.
pub proof fn new_tables_are_published(st: RouterState, k: RouteKey)
    requires
        is_table(st.ospf.published),
        is_table(
            merged_table(
                st.ospf.router_id,
                st.ospf.areas,
                st.settings.sr_receive,
                st.settings.srv6_receive,
            ),
        ),
    ensures
        ({
            let current = merged_table(
                st.ospf.router_id,
                st.ospf.areas,
                st.settings.sr_receive,
                st.settings.srv6_receive,
            );
            let next = after_recompute(st);
            &&& next.ospf.published == current
            &&& current.contains_key(k) && lookup(st.ospf.published, k) != Some(current[k])
                ==> next.agenda.contains(Task::InstallDirect { route: current[k] })
            &&& st.ospf.published.contains_key(k) && !current.contains_key(k)
                ==> next.agenda.contains(Task::WithdrawDirect { key: k })
        }),
{
    let current = merged_table(
        st.ospf.router_id,
        st.ospf.areas,
        st.settings.sr_receive,
        st.settings.srv6_receive,
    );
    let installed = changed_routes(sorted(current), st.ospf.published);
    let withdrawn = gone_keys(sorted(st.ospf.published), current);
    let base = RouterState {
        ospf: crate::router::OspfState { published: current, dirty: false, ..st.ospf },
        ..st
    };
    if current.contains_key(k) && lookup(st.ospf.published, k) != Some(current[k]) {
        let i = lemma_key_position(sorted(current), k);
        lemma_changed(sorted(current), st.ospf.published, i);
        let j = choose|j: int| 0 <= j < installed.len() && installed[j] == current[k];
        differences_are_carried_out(base, installed, withdrawn, j);
    }
    if st.ospf.published.contains_key(k) && !current.contains_key(k) {
        let i = lemma_key_position(sorted(st.ospf.published), k);
        lemma_gone(sorted(st.ospf.published), current, i);
        let j = choose|j: int| 0 <= j < withdrawn.len() && withdrawn[j] == k;
        differences_are_carried_out(base, installed, withdrawn, j);
    }
}

/// A redistribution into OSPFv2 is recorded under its network, in place of
/// one recorded before, and brought to the areas; only IPv4 prefixes are
/// taken. Its end removes it.
pub proof fn redistributions_are_recorded(
    st: RouterState,
    dest: ExternalDestination,
    network: u32,
    other: u32,
)
    ensures
        match dest.prefix.addr {
            IpAddr::V4(a) => {
                let n = a & mask_v4(dest.prefix.prefix_len);
                let next = after_external(st, dest);
                &&& lookup(next.ospf.externals, n) == Some(dest)
                &&& other != n ==> lookup(next.ospf.externals, other) == lookup(
                    st.ospf.externals,
                    other,
                )
                &&& next.agenda == st.agenda.push(Task::OspfSettle).push(
                    Task::OriginateExternal { network: n },
                )
            },
            IpAddr::V6(_) => after_external(st, dest) == st,
        },
        !after_external_end(st, network).ospf.externals.contains_key(network),
        other != network ==> lookup(after_external_end(st, network).ospf.externals, other)
            == lookup(st.ospf.externals, other),
        !st.ospf.externals.contains_key(network) ==> after_external_end(st, network) == st,
{
    if let IpAddr::V4(a) = dest.prefix.addr {
        let n = a & mask_v4(dest.prefix.prefix_len);
        let t = Task::OriginateExternal { network: n };
        lemma_few(st, t, Task::OspfSettle, t, t);
    }
}

/// A redistribution into OSPFv3 is recorded under its prefix without host
/// bits. IPv4 prefixes and forwarding addresses that are unspecified or
/// link-local are refused.
pub proof fn v3_redistributions_are_recorded(st: RouterState, dest: V3ExternalDestination)
    ensures
        match (dest.prefix.addr, recorded_v3(dest)) {
            (IpAddr::V4(_), r) => r is None,
            (IpAddr::V6(a), Some(d)) => {
                &&& d.prefix == (Prefix {
                    addr: IpAddr::V6(a & mask_v6(dest.prefix.prefix_len)),
                    prefix_len: dest.prefix.prefix_len,
                })
                &&& d.metric == dest.metric && d.type2 == dest.type2 && d.forwarding_addr
                    == dest.forwarding_addr && d.route_tag == dest.route_tag
                &&& match dest.forwarding_addr {
                    Some(f) => f != 0 && !(0xfe80_0000_0000_0000_0000_0000_0000_0000 <= f
                        <= 0xfebf_ffff_ffff_ffff_ffff_ffff_ffff_ffff),
                    None => true,
                }
                &&& lookup(after_external_v3(st, dest).ospf.externals_v3, d.prefix) == Some(d)
                &&& after_external_v3(st, dest).agenda == st.agenda.push(Task::OspfSettle).push(
                    Task::OriginateExternalV3 { prefix: d.prefix },
                )
            },
            (IpAddr::V6(_), None) => match dest.forwarding_addr {
                Some(f) => f == 0 || 0xfe80_0000_0000_0000_0000_0000_0000_0000 <= f
                    <= 0xfebf_ffff_ffff_ffff_ffff_ffff_ffff_ffff,
                None => false,
            },
        },
        recorded_v3(dest) is None ==> after_external_v3(st, dest) == st,
{
    if let Some(f) = dest.forwarding_addr {
        assert((f >> 118 == 0x3fa) <==> (0xfe80_0000_0000_0000_0000_0000_0000_0000u128 <= f && f
            <= 0xfebf_ffff_ffff_ffff_ffff_ffff_ffff_ffffu128)) by (bit_vector);
    }
    if let Some(d) = recorded_v3(dest) {
        let t = Task::OriginateExternalV3 { prefix: d.prefix };
        lemma_few(st, t, Task::OspfSettle, t, t);
    }
}

/// An area's type is changed where the area is attached, the type is another
/// one and the backbone stays normal. The area has its new type at once, its
/// database and results stay for now, and everything is reconsidered.
pub proof fn area_types_are_changed(st: RouterState, area: u32, kind: OspfAreaType, other: u32)
    ensures
        convertible(st, area, kind) <==> {
            &&& st.ospf.router_id is Some
            &&& st.ospf.areas.contains_key(area)
            &&& st.ospf.areas[area].kind != kind
            &&& area != 0 || kind is Normal
        },
        ({
            let next = after_conversion(st, area, kind);
            &&& next.ospf.areas.contains_key(area)
            &&& next.ospf.areas[area].kind == kind
            &&& next.ospf.areas[area].lsdb == st.ospf.areas[area].lsdb
            &&& next.ospf.areas[area].facts == st.ospf.areas[area].facts
            &&& next.ospf.areas[area].protocol == st.ospf.areas[area].protocol
            &&& other != area ==> lookup(next.ospf.areas, other) == lookup(st.ospf.areas, other)
            &&& next.agenda.len() > st.agenda.len()
            &&& next.agenda[st.agenda.len() as int] == Task::OspfChanged
        }),
{
}

/// Every virtual link is reconsidered, then the areas catch up if anything
/// changed.
pub proof fn every_virtual_link_is_reconsidered(st: RouterState, transit: u32, endpoint: u32)
    requires
        st.ospf.router_id is Some,
        is_table(st.ospf.vlinks),
        st.ospf.vlinks.contains_key((transit, endpoint)),
    ensures
        after_eval_links(st).agenda.contains(Task::EvalLink { transit, endpoint }),
        after_eval_links(st).agenda[st.agenda.len() as int] == Task::SyncAfterLinks,
        st.ospf.dirty ==> after_sync_links(st) == st.schedule(sync_tasks(st)),
        !st.ospf.dirty ==> after_sync_links(st) == st,
{
    let s = sorted(st.ospf.vlinks);
    let i = lemma_key_position(s, (transit, endpoint));
    let t = Task::EvalLink { transit, endpoint };
    assert(link_task()(s[i])[0] == t);
    assert(link_task()(s[i]).contains(t));
    gather_includes(s, link_task(), i, t);
    let a = gather(s, link_task());
    let tasks = a + seq![Task::SyncAfterLinks];
    let j = choose|j: int| 0 <= j < a.len() && a[j] == t;
    assert(tasks[j] == t);
    lemma_on_agenda(st, tasks, j);
    assert(tasks[tasks.len() - 1] == Task::SyncAfterLinks);
    lemma_on_agenda(st, tasks, tasks.len() - 1);
}

/// A virtual link can be up while its endpoint is reachable inside its
/// transit area, which is an attached OSPFv2 area. It may be configured once,
/// to another router, through a normal area.
pub proof fn virtual_links_need_a_transit_area(st: RouterState, transit: u32, endpoint: u32)
    ensures
        link_viable(st, transit, endpoint) <==> st.ospf.areas.contains_key(transit)
            && st.ospf.areas[transit].protocol is Ospfv2
            && st.ospf.areas[transit].facts.routers@.contains_key(endpoint),
        link_allowed(st, transit, endpoint) <==> {
            &&& st.ospf.router_id is Some
            &&& st.ospf.router_id->0 != endpoint
            &&& !st.ospf.vlinks.contains_key((transit, endpoint))
            &&& st.ospf.areas.contains_key(transit)
            &&& st.ospf.areas[transit].protocol is Ospfv2
            &&& st.ospf.areas[transit].kind is Normal
        },
        lookup(after_add_link(st, transit, endpoint).ospf.vlinks, (transit, endpoint)) is Some,
        after_add_link(st, transit, endpoint).agenda == st.agenda.push(Task::OspfSettle).push(
            Task::EvalVirtualLinks,
        ),
        !after_remove_link(st, transit, endpoint).ospf.vlinks.contains_key((transit, endpoint)),
{
    let t = Task::EvalVirtualLinks;
    lemma_few(st, t, Task::OspfSettle, t, t);
}

/// A virtual link comes up when it can and has no session: it gets a new
/// backbone session, and the backbone is attached. It goes down when it can
/// no longer be up, and its session is removed. Otherwise it stays as it is.
pub proof fn virtual_links_come_and_go(
    st: RouterState,
    id: u32,
    transit: u32,
    endpoint: u32,
    backbone: AreaView,
)
    requires
        st.ospf.router_id == Some(id),
        st.ospf.vlinks.contains_key((transit, endpoint)),
        st.next_handle < u64::MAX,
    ensures
        ({
            let next = after_eval_link(st, transit, endpoint, backbone);
            let carrier = st.ospf.vlinks[(transit, endpoint)].session;
            let up = carrier is Some && st.sessions.contains_key(carrier->0);
            let viable = link_viable(st, transit, endpoint);
            &&& viable && !up ==> {
                let h = st.next_handle;
                &&& next.ospf.vlinks[(transit, endpoint)].session == Some(h)
                &&& next.next_handle == h + 1
                &&& match lookup(next.sessions, h) {
                    Some(Session::Ospf(r)) => r.area_id == 0 && r.router_id == id
                        && r.network_type is PointToPoint && r.protocol is Ospfv2
                        && r.neighbor is Down,
                    _ => false,
                }
                &&& next.ospf.areas.contains_key(0)
                &&& next.ospf.dirty
            }
            &&& !viable && up ==> {
                &&& next.ospf.vlinks[(transit, endpoint)].session is None
                &&& !next.sessions.contains_key(carrier->0)
            }
            &&& viable && up ==> next.sessions == st.sessions && next.ospf.areas == st.ospf.areas
                && next.agenda == st.agenda && next.ospf.vlinks[(transit, endpoint)].session
                == carrier
            &&& !viable && !up ==> next.sessions == st.sessions && next.agenda == st.agenda
        }),
{
}

/// A removed virtual link takes its session along.
pub proof fn removed_links_take_their_session_along(st: RouterState, transit: u32, endpoint: u32)
    requires
        st.ospf.vlinks.contains_key((transit, endpoint)),
        st.ospf.vlinks[(transit, endpoint)].session is Some,
    ensures
        !after_remove_link(st, transit, endpoint).sessions.contains_key(
            st.ospf.vlinks[(transit, endpoint)].session->0,
        ),
{
}

/// The router is a boundary router while anything is redistributed into
/// either version; a virtual link shows in the area it passes through.
pub proof fn flags_follow_the_plane(st: RouterState, n: u32, p: Prefix, k: (u32, u32), area: u32)
    ensures
        st.ospf.externals.contains_key(n) || st.ospf.externals_v3.contains_key(p) ==> asbr(st),
        asbr(st) ==> (exists|m: u32| #[trigger] st.ospf.externals.contains_key(m)) || (exists|
            q: Prefix,
        | #[trigger] st.ospf.externals_v3.contains_key(q)),
        st.ospf.vlinks.contains_key(k) && k.0 == area ==> any_key(st.ospf.vlinks, Through(area)),
        any_key(st.ospf.vlinks, Through(area)) ==> exists|q: (u32, u32)| #[trigger]
            st.ospf.vlinks.contains_key(q) && q.0 == area,
{
    if st.ospf.externals.contains_key(n) {
        assert(st.ospf.externals != Map::<u32, ExternalDestination>::empty());
    }
    if st.ospf.externals_v3.contains_key(p) {
        assert(st.ospf.externals_v3 != Map::<Prefix, V3ExternalDestination>::empty());
    }
    if asbr(st) && !(exists|m: u32| #[trigger] st.ospf.externals.contains_key(m)) {
        assert(st.ospf.externals =~= Map::<u32, ExternalDestination>::empty());
        if !(exists|q: Prefix| #[trigger] st.ospf.externals_v3.contains_key(q)) {
            assert(st.ospf.externals_v3 =~= Map::<Prefix, V3ExternalDestination>::empty());
        }
    }
    if st.ospf.vlinks.contains_key(k) && k.0 == area {
        assert(Through(area).accepts(k));
    }
    if any_key(st.ospf.vlinks, Through(area)) {
        let q = choose|q: (u32, u32)| #[trigger]
            st.ospf.vlinks.contains_key(q) && Through(area).accepts(q);
        assert(q.0 == area);
    }
}

/// LSAs are flooded to every session of an area but the one they came from,
/// in one update each, in the session's version and under its router ID.
pub proof fn floods_reach_every_session(
    st: RouterState,
    area: u32,
    lsas: List<Lsa>,
    except: Option<u64>,
    h: u64,
)
    requires
        is_table(st.sessions),
        st.sessions.contains_key(h),
        st.sessions[h] is Ospf,
        st.sessions[h]->Ospf_0.area_id == area,
        except != Some(h),
        lsas.seq().len() > 0,
    ensures
        exists|i: int|
            0 <= i < flood_tasks(st, area, lsas, except).len() && (
            match #[trigger] flood_tasks(st, area, lsas, except)[i] {
                Task::SendLsas { session, packet } => {
                    &&& session == h
                    &&& packet.lsas == lsas
                    &&& packet.area_id == area
                    &&& packet.router_id == st.sessions[h]->Ospf_0.router_id
                    &&& packet.kind == 4
                    &&& packet.version == (if st.sessions[h]->Ospf_0.protocol is Ospfv3 {
                        3
                    } else {
                        2int
                    })
                    &&& packet.lsa_count as int == lsas.seq().len() as int % 0x1_0000_0000
                },
                _ => false,
            }),
{
    let s = sorted(st.sessions);
    let r = st.sessions[h]->Ospf_0;
    let f = flood_packet(area, lsas, except);
    let i = lemma_key_position(s, h);
    let p = (h, update_packet(r.protocol, r.router_id, area, lsas));
    assert(lsas is Cons);
    assert(f(s[i])[0] == p);
    assert(f(s[i]).contains(p));
    gather_includes(s, f, i, p);
    let all = flood_packets(st.sessions, area, lsas, except);
    let n = choose|n: int| 0 <= n < all.len() && all[n] == p;
    let t = Task::SendLsas { session: p.0, packet: p.1 };
    assert(send_task()(all[n])[0] == t);
    assert(send_task()(all[n]).contains(t));
    gather_includes(all, send_task(), n, t);
    let tasks = flood_tasks(st, area, lsas, except);
    let j = choose|j: int| 0 <= j < tasks.len() && tasks[j] == t;
    assert(tasks[j] == t);
}

/// Received LSAs are taken in one by one, in order: Grace-LSAs are put aside,
/// what the area refuses is passed over, anything else is installed.
pub proof fn received_lsas_are_taken_in(
    st: RouterState,
    session: u64,
    area: u32,
    lsa: Lsa,
    rest: List<Lsa>,
    changed: List<Lsa>,
    grace: List<Lsa>,
)
    requires
        st.ospf.areas.contains_key(area),
    ensures
        ({
            let queue = List::Cons(lsa, Box::new(rest));
            let next = after_take(st, session, area, LsaProgress { queue, changed, grace });
            &&& next.agenda.len() == st.agenda.len() + 1
            &&& next.ospf == st.ospf
            &&& match next.agenda.last() {
                Task::TakeLsas { session: s, area: a, progress: p } => {
                    &&& s == session && a == area
                    &&& p.queue == rest && p.changed == changed
                    &&& grace_lsa(lsa.header) ==> p.grace.seq() == grace.seq().push(lsa)
                    &&& !grace_lsa(lsa.header) ==> p.grace == grace && !area_accepts(
                        st.ospf.areas[area].kind,
                        lsa,
                    )
                },
                Task::InstallLsa { session: s, area: a, lsa: l, progress: p } => {
                    &&& s == session && a == area && l == lsa
                    &&& p.queue == rest && p.changed == changed && p.grace == grace
                    &&& !grace_lsa(lsa.header)
                    &&& area_accepts(st.ospf.areas[area].kind, lsa)
                },
                _ => false,
            }
        }),
{
    List::<Lsa>::seq_of(grace.seq().push(lsa));
}

/// LSAs that arrive on a session are taken in for the session's area, all of
/// them in order.
pub proof fn arriving_lsas_are_queued(st: RouterState, h: u64, lsas: Seq<Lsa>)
    ensures
        match lookup(st.sessions, h) {
            Some(Session::Ospf(r)) if st.ospf.areas.contains_key(r.area_id) => {
                let next = after_receive(st, h, lsas).agenda;
                &&& next.len() == st.agenda.len() + 1
                &&& match next.last() {
                    Task::TakeLsas { session, area, progress } => session == h && area == r.area_id
                        && progress.queue.seq() == lsas && progress.changed.seq().len() == 0
                        && progress.grace.seq().len() == 0,
                    _ => false,
                }
            },
            _ => after_receive(st, h, lsas) == st,
        },
{
    List::<Lsa>::seq_of(lsas);
}

/// An LSA that changed the database is remembered for flooding and makes the
/// databases worth another look; one that was ignored is not.
pub proof fn changes_are_remembered(
    st: RouterState,
    session: u64,
    area: u32,
    lsa: Lsa,
    progress: LsaProgress,
    outcome: InstallOutcome,
)
    ensures
        ({
            let next = after_installed(st, session, area, lsa, progress, outcome);
            &&& next.agenda.len() == st.agenda.len() + 1
            &&& match next.agenda.last() {
                Task::TakeLsas { session: s, area: a, progress: p } => {
                    &&& s == session && a == area && p.queue == progress.queue && p.grace
                        == progress.grace
                    &&& outcome is Ignored ==> p.changed == progress.changed && next.ospf == st.ospf
                    &&& !(outcome is Ignored) ==> p.changed.seq() == progress.changed.seq().push(
                        lsa,
                    ) && next.ospf.dirty
                },
                _ => false,
            }
        }),
{
    List::<Lsa>::seq_of(progress.changed.seq().push(lsa));
}

/// The types flooded through the whole routing domain.
pub proof fn externals_have_domain_scope(lsa: Lsa)
    ensures
        as_scoped(lsa) <==> lsa.header.ls_type == 5 || lsa.header.ls_type == 0x4005
            || lsa.header.ls_type == 0xc025,
{
}

/// Externals that changed one area are passed on to every other normal area
/// of their version.
pub proof fn externals_are_passed_on(area: u32, lsas: Seq<Lsa>, other: u32, view: AreaView)
    requires
        lsas.len() > 0,
        other != area,
        view.kind is Normal,
        lsas[0].header.ls_type == 5 ==> view.protocol is Ospfv2,
        lsas[0].header.ls_type != 5 ==> view.protocol is Ospfv3,
    ensures
        mirror_task(area, lsas)((other, view)).len() == 1,
        match mirror_task(area, lsas)((other, view))[0] {
            Task::MirrorLsas { area: a, queue, newly } => a == other && queue.seq() == lsas
                && newly.seq().len() == 0,
            _ => false,
        },
{
    List::<Lsa>::seq_of(lsas);
}

/// When all received LSAs were looked at, the externals among the changes are
/// passed on, the changes flooded to the other sessions of the area, and the
/// databases settled last.
pub proof fn taken_lsas_are_spread(
    st: RouterState,
    session: u64,
    area: u32,
    changed: List<Lsa>,
    other: u32,
    i: int,
)
    requires
        is_table(st.ospf.areas),
    ensures
        ({
            let progress = LsaProgress { queue: List::Nil, changed, grace: List::Nil };
            let next = after_taken(st, session, area, progress);
            let externals = gather(changed.seq(), as_scope());
            &&& next.agenda.len() > st.agenda.len()
            &&& next.agenda[st.agenda.len() as int] == Task::OspfSettle
            &&& st.ospf.areas.contains_key(other) && mirror_task(area, externals)(
                (other, st.ospf.areas[other]),
            ).len() > 0 ==> next.agenda.contains(
                mirror_task(area, externals)((other, st.ospf.areas[other]))[0],
            )
            &&& 0 <= i < flood_tasks(st, area, changed, Some(session)).len()
                ==> next.agenda.contains(flood_tasks(st, area, changed, Some(session))[i])
            &&& 0 <= i < changed.seq().len() && (changed.seq()[i].header.ls_type == 5
                || changed.seq()[i].header.ls_type == 0x4005 || changed.seq()[i].header.ls_type
                == 0xc025) ==> externals.contains(changed.seq()[i])
        }),
{
    let progress = LsaProgress { queue: List::Nil, changed, grace: List::Nil };
    let next = after_taken(st, session, area, progress);
    let externals = gather(changed.seq(), as_scope());
    let f = mirror_task(area, externals);
    let s = sorted(st.ospf.areas);
    let a = gather(s, f);
    let b = flood_tasks(st, area, changed, Some(session));
    let tasks = a + b + seq![Task::OspfSettle];
    assert(next.agenda =~= st.schedule(tasks).agenda);
    assert(tasks[tasks.len() - 1] == Task::OspfSettle);
    lemma_on_agenda(st, tasks, tasks.len() - 1);
    if st.ospf.areas.contains_key(other) && f((other, st.ospf.areas[other])).len() > 0 {
        let k = lemma_key_position(s, other);
        let t = f(s[k])[0];
        assert(f(s[k]).contains(t));
        gather_includes(s, f, k, t);
        let j = choose|j: int| 0 <= j < a.len() && a[j] == t;
        assert(tasks[j] == t);
        lemma_on_agenda(st, tasks, j);
    }
    if 0 <= i < b.len() {
        assert(tasks[a.len() + i] == b[i]);
        lemma_on_agenda(st, tasks, a.len() + i);
    }
    if 0 <= i < changed.seq().len() && as_scoped(changed.seq()[i]) {
        let l = changed.seq()[i];
        assert(as_scope()(l)[0] == l);
        assert(as_scope()(l).contains(l));
        gather_includes(changed.seq(), as_scope(), i, l);
    }
}

/// Externals passed on to an area are installed there in order, and flooded
/// to all its sessions as far as they changed it.
pub proof fn passed_on_externals_are_installed(
    st: RouterState,
    area: u32,
    lsa: Lsa,
    rest: List<Lsa>,
    newly: List<Lsa>,
    outcome: InstallOutcome,
)
    ensures
        after_mirror(st, area, List::Cons(lsa, Box::new(rest)), newly).agenda == st.agenda.push(
            Task::MirrorLsa { area, lsa, queue: rest, newly },
        ),
        after_mirror(st, area, List::Nil, newly).agenda == st.agenda + flood_tasks(
            st,
            area,
            newly,
            None,
        ).reverse(),
        ({
            let next = after_mirrored(st, area, lsa, rest, newly, outcome);
            match next.agenda.last() {
                Task::MirrorLsas { area: a, queue, newly: n } => {
                    &&& a == area && queue == rest
                    &&& outcome is Ignored ==> n == newly && next.ospf == st.ospf
                    &&& !(outcome is Ignored) ==> n.seq() == newly.seq().push(lsa)
                        && next.ospf.dirty
                },
                _ => false,
            }
        }),
{
    List::<Lsa>::seq_of(newly.seq().push(lsa));
    let t = Task::MirrorLsa { area, lsa, queue: rest, newly };
    lemma_few(st, t, t, t, t);
}

/// A new Grace-LSA is kept for the embedder in the order of arrival, a
/// malformed one is reported, and either is remembered for its area and
/// originator; a stale one changes nothing.
pub proof fn announcements_are_kept(st: RouterState, area: u32, lsa: Lsa)
    ensures
        ({
            let key = (area, lsa.header.advertising_router);
            let seen = lookup(st.ospf.grace_seen, key);
            let next = after_grace(st, area, lsa);
            match grace_verdict(area, lsa, seen) {
                GraceVerdict::Stale => next == st,
                GraceVerdict::Malformed => {
                    &&& next.ospf.grace_events == st.ospf.grace_events
                    &&& next.events == st.events.push(
                        RouterEvent::Log(
                            LogEntry::MalformedGrace {
                                router: lsa.header.advertising_router,
                                area,
                            },
                        ),
                    )
                    &&& lookup(next.ospf.grace_seen, key) == Some(remembered(lsa, seen))
                },
                GraceVerdict::Event(e) => {
                    &&& next.ospf.grace_events == st.ospf.grace_events.push(e)
                    &&& next.events == st.events
                    &&& lookup(next.ospf.grace_seen, key) == Some(remembered(lsa, seen))
                },
            }
        }),
{
}

/// What a Babel session has feasible is published: routes that are new or
/// changed are installed, those that are gone withdrawn. Whether the neighbour
/// was heard of is noted.
pub proof fn babel_routes_are_published(
    st: RouterState,
    h: u64,
    best: Seq<BabelBest>,
    heard: bool,
    k: RouteKey,
)
    requires
        babel_of(st, h) is Some,
        is_table(table_of(babel_of(st, h)->0.published.seq())),
        is_table(
            table_of(
                babel_routes(best, babel_of(st, h)->0.router_id, babel_of(st, h)->0.default_hop()),
            ),
        ),
    ensures
        ({
            let r = babel_of(st, h)->0;
            let current = table_of(babel_routes(best, r.router_id, r.default_hop()));
            let before = table_of(r.published.seq());
            let next = after_babel(st, h, best, heard);
            &&& current.contains_key(k) && lookup(before, k) != Some(current[k])
                ==> next.agenda.contains(Task::InstallDirect { route: current[k] })
            &&& before.contains_key(k) && !current.contains_key(k) ==> next.agenda.contains(
                Task::WithdrawDirect { key: k },
            )
            &&& match lookup(next.sessions, h) {
                Some(Session::Babel(n)) => n.heard == heard && n.address == r.address && n.next_hop
                    == r.next_hop && n.router_id == r.router_id,
                _ => false,
            }
        }),
{
    let r = babel_of(st, h)->0;
    let current = table_of(babel_routes(best, r.router_id, r.default_hop()));
    let before = table_of(r.published.seq());
    let installed = changed_routes(sorted(current), before);
    let withdrawn = gone_keys(sorted(before), current);
    let next = after_babel(st, h, best, heard);
    let base = RouterState { agenda: st.agenda, ..next };
    assert(next.agenda =~= crate::router::origination::after_delta(
        base,
        installed,
        withdrawn,
    ).agenda);
    if current.contains_key(k) && lookup(before, k) != Some(current[k]) {
        let i = lemma_key_position(sorted(current), k);
        lemma_changed(sorted(current), before, i);
        let j = choose|j: int| 0 <= j < installed.len() && installed[j] == current[k];
        differences_are_carried_out(base, installed, withdrawn, j);
    }
    if before.contains_key(k) && !current.contains_key(k) {
        let i = lemma_key_position(sorted(before), k);
        lemma_gone(sorted(before), current, i);
        let j = choose|j: int| 0 <= j < withdrawn.len() && withdrawn[j] == k;
        differences_are_carried_out(base, installed, withdrawn, j);
    }
}

/// A flushed Babel session has nothing published and its table is forgotten.
pub proof fn flushed_babel_sessions_forget_their_table(st: RouterState, h: u64)
    ensures
        match babel_of(st, h) {
            Some(r) => {
                let next = after_babel_flush(st, h);
                &&& next.agenda.len() > 0
                &&& next.agenda.last() == (Task::ForgetBabel { session: h })
                &&& next.agenda.drop_last() == after_babel(st, h, Seq::empty(), r.heard).agenda
            },
            None => after_babel_flush(st, h) == st,
        },
{
    if let Some(r) = babel_of(st, h) {
        let before = after_babel(st, h, Seq::empty(), r.heard);
        let t = Task::ForgetBabel { session: h };
        lemma_few(before, t, t, t, t);
        assert(after_babel_flush(st, h).agenda.drop_last() =~= before.agenda);
    }
}

} // verus!
