//! Topology changes: how the contents of an area's database moved.

use crate::ordmap::{is_table, lookup, sorted, OrdMap};
use crate::ordmap::{lemma_entry, lemma_key_position};
use crate::ospf::facts::{AreaView, SpfFacts};
use crate::ospf::lsa::{
    is_topology_type, lsa_topology_changed, topology_change, topology_type, InstallOutcome, Lsa,
    LsaKey, MAX_AGE_SECS,
};
use crate::seqs::{gather, gather_includes, gather_source, gather_step, gather_whole, one_if};
use crate::value::Value;
use vstd::prelude::*;

verus! {

/// How an LSA came about from the instance that was there before, if any. One
/// that reached its maximum age since is purged.
pub open spec fn came_about(prev: Option<Lsa>, now: Lsa) -> InstallOutcome {
    match prev {
        None => InstallOutcome::New,
        Some(p) => if now.header.ls_age >= MAX_AGE_SECS && p.header.ls_age < MAX_AGE_SECS {
            InstallOutcome::Purged
        } else {
            InstallOutcome::Replaced
        },
    }
}

/// Whether a topology LSA of a database says something else than before.
pub open spec fn moved(prev: Option<Lsa>, now: Lsa) -> bool {
    topology_change(prev, now, came_about(prev, now))
}

/// Whether a topology LSA that was not purged left a database.
pub open spec fn left(prev: Lsa, now: Option<Lsa>) -> bool {
    topology_type(prev.header.ls_type) && prev.header.ls_age < MAX_AGE_SECS && now is None
}

/// The key of an LSA that says something else than before.
pub open spec fn moved_key(before: Map<LsaKey, Lsa>) -> spec_fn((LsaKey, Lsa)) -> Seq<LsaKey> {
    |e: (LsaKey, Lsa)| one_if(moved(lookup(before, e.0), e.1), e.0)
}

/// The key of an LSA that left.
pub open spec fn left_key(now: Map<LsaKey, Lsa>) -> spec_fn((LsaKey, Lsa)) -> Seq<LsaKey> {
    |e: (LsaKey, Lsa)| one_if(left(e.1, lookup(now, e.0)), e.0)
}

/// The topology LSAs whose contents differ between two states of a database.
pub open spec fn topology_changes(before: Map<LsaKey, Lsa>, now: Map<LsaKey, Lsa>) -> Seq<LsaKey> {
    gather(sorted(now), moved_key(before)) + gather(sorted(before), left_key(now))
}

/// A counter raised by a number, capped.
pub open spec fn raised(version: u64, n: nat) -> u64 {
    if version + n > u64::MAX {
        u64::MAX
    } else {
        (version + n) as u64
    }
}

/// An area after its database changed: the topology version counts every
/// topology LSA whose contents differ.
pub open spec fn refreshed(v: AreaView, lsdb: OrdMap<LsaKey, Lsa>, facts: SpfFacts) -> AreaView {
    AreaView {
        topology_version: raised(
            v.topology_version,
            topology_changes(v.lsdb@, lsdb@).len(),
        ),
        lsdb,
        facts,
        ..v
    }
}

fn copied(l: Option<&Lsa>) -> (r: Option<Lsa>)
    ensures
        r == (match l {
            Some(x) => Some(*x),
            None => None,
        }),
{
    match l {
        Some(x) => Some(x.dup()),
        None => None,
    }
}

/// Raises a topology version by the changes between two states of a database.
pub fn count_changes(
    version: u64,
    before: &OrdMap<LsaKey, Lsa>,
    now: &OrdMap<LsaKey, Lsa>,
) -> (r: u64)
    ensures
        r == raised(version, topology_changes(before@, now@).len()),
{
    let mut r: u64 = version;
    let ghost f = moved_key(before@);
    let ghost g = left_key(now@);
    let n: usize = now.len();
    let m: usize = before.len();
    proof {
        gather_whole(now.entries(), f);
        gather_whole(before.entries(), g);
    }
    let mut i: usize = 0;
    while i < n
        invariant
            i <= n == now.entries().len(),
            f == moved_key(before@),
            r == raised(version, gather(now.entries().take(i as int), f).len()),
        decreases n - i,
    {
        proof {
            gather_step(now.entries(), i as int, f);
        }
        let lsa = now.value_at(i);
        let prev = copied(before.get(&now.key_at(i)));
        let purged: bool = match &prev {
            Some(p) => lsa.header.ls_age >= MAX_AGE_SECS && p.header.ls_age < MAX_AGE_SECS,
            None => false,
        };
        let outcome = if prev.is_none() {
            InstallOutcome::New
        } else if purged {
            InstallOutcome::Purged
        } else {
            InstallOutcome::Replaced
        };
        if lsa_topology_changed(&prev, lsa, outcome) && r < u64::MAX {
            r = r + 1;
        }
        i = i + 1;
    }
    let ghost first = gather(now.entries(), f).len();
    let mut j: usize = 0;
    while j < m
        invariant
            j <= m == before.entries().len(),
            g == left_key(now@),
            r == raised(version, first + gather(before.entries().take(j as int), g).len()),
        decreases m - j,
    {
        proof {
            gather_step(before.entries(), j as int, g);
        }
        let lsa = before.value_at(j);
        if is_topology_type(lsa.header.ls_type) && lsa.header.ls_age < MAX_AGE_SECS
            && !now.contains_key(&before.key_at(j)) && r < u64::MAX {
            r = r + 1;
        }
        j = j + 1;
    }
    r
}

/// Every change of a topology LSA counts: a new one, one with other contents,
/// a purged one, and one that left raise the version of the area.
pub proof fn every_topology_change_counts(
    v: AreaView,
    lsdb: OrdMap<LsaKey, Lsa>,
    facts: SpfFacts,
    k: LsaKey,
)
    requires
        is_table(v.lsdb@),
        is_table(lsdb@),
        v.topology_version < u64::MAX,
        (lsdb@.contains_key(k) && moved(lookup(v.lsdb@, k), lsdb@[k])) || (v.lsdb@.contains_key(k)
            && left(v.lsdb@[k], lookup(lsdb@, k))),
    ensures
        refreshed(v, lsdb, facts).topology_version > v.topology_version,
{
    let f = moved_key(v.lsdb@);
    let g = left_key(lsdb@);
    if lsdb@.contains_key(k) && moved(lookup(v.lsdb@, k), lsdb@[k]) {
        let s = sorted(lsdb@);
        let i = lemma_key_position(s, k);
        assert(f(s[i]) == seq![k]);
        assert(f(s[i])[0] == k);
        gather_includes(s, f, i, k);
    } else {
        let s = sorted(v.lsdb@);
        let i = lemma_key_position(s, k);
        assert(g(s[i]) == seq![k]);
        assert(g(s[i])[0] == k);
        gather_includes(s, g, i, k);
    }
}

/// Nothing else counts: where every topology LSA that is there now was there
/// before with the same contents, and none left, the version stays. Refreshed
/// instances, with another age or sequence number, do not count.
pub proof fn refreshes_do_not_count(v: AreaView, lsdb: OrdMap<LsaKey, Lsa>, facts: SpfFacts)
    requires
        is_table(v.lsdb@),
        is_table(lsdb@),
        forall|k: LsaKey| #[trigger]
            lsdb@.contains_key(k) && topology_type(lsdb@[k].header.ls_type) ==> {
                &&& v.lsdb@.contains_key(k)
                &&& v.lsdb@[k].body == lsdb@[k].body
                &&& v.lsdb@[k].header.length == lsdb@[k].header.length
                &&& v.lsdb@[k].header.ls_age < MAX_AGE_SECS ==> lsdb@[k].header.ls_age < MAX_AGE_SECS
            },
        forall|k: LsaKey| #[trigger]
            v.lsdb@.contains_key(k) && topology_type(v.lsdb@[k].header.ls_type)
                ==> lsdb@.contains_key(k),
    ensures
        refreshed(v, lsdb, facts).topology_version == v.topology_version,
{
    let a = gather(sorted(lsdb@), moved_key(v.lsdb@));
    let b = gather(sorted(v.lsdb@), left_key(lsdb@));
    if a.len() > 0 {
        assert(a.contains(a[0]));
        let i = gather_source(sorted(lsdb@), moved_key(v.lsdb@), a[0]);
        lemma_entry(sorted(lsdb@), i);
        assert(lsdb@.contains_key(sorted(lsdb@)[i].0));
    }
    if b.len() > 0 {
        assert(b.contains(b[0]));
        let i = gather_source(sorted(v.lsdb@), left_key(lsdb@), b[0]);
        lemma_entry(sorted(v.lsdb@), i);
        assert(v.lsdb@.contains_key(sorted(v.lsdb@)[i].0));
    }
}

/// An LSA that was not there is new; one that was and reached the maximum age
/// since is purged; any other replaced the instance before it.
pub proof fn ages_tell_how_lsas_came_about(prev: Option<Lsa>, now: Lsa)
    ensures
        prev is None ==> came_about(prev, now) is New,
        prev is Some && now.header.ls_age >= 3600 && prev->0.header.ls_age < 3600 ==> came_about(
            prev,
            now,
        ) is Purged,
        prev is Some && (now.header.ls_age < 3600 || prev->0.header.ls_age >= 3600) ==> came_about(
            prev,
            now,
        ) is Replaced,
{
}

/// A topology LSA left when it is gone before it reached the maximum age.
pub proof fn young_lsas_that_are_gone_left(prev: Lsa, now: Option<Lsa>)
    ensures
        left(prev, now) ==> now is None,
        now is None && topology_type(prev.header.ls_type) && prev.header.ls_age < 3600 ==> left(
            prev,
            now,
        ),
        prev.header.ls_age >= 3600 || !topology_type(prev.header.ls_type) ==> !left(prev, now),
{
}

/// An area's new view has the new database and what was computed from it; its
/// protocol and type stay, and its version never falls.
pub proof fn refreshed_areas_keep_their_type(
    v: AreaView,
    lsdb: OrdMap<LsaKey, Lsa>,
    facts: SpfFacts,
)
    ensures
        refreshed(v, lsdb, facts).lsdb == lsdb,
        refreshed(v, lsdb, facts).facts == facts,
        refreshed(v, lsdb, facts).kind == v.kind,
        refreshed(v, lsdb, facts).protocol == v.protocol,
        refreshed(v, lsdb, facts).topology_version >= v.topology_version,
        v.topology_version + topology_changes(v.lsdb@, lsdb@).len() <= u64::MAX ==> refreshed(
            v,
            lsdb,
            facts,
        ).topology_version == v.topology_version + topology_changes(v.lsdb@, lsdb@).len(),
{
}

} // verus!
