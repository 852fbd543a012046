//! Graceful-restart announcements.

use crate::ospf::lsa::{Lsa, LsaContent, LsaHeader, MAX_AGE_SECS};
use vstd::prelude::*;

verus! {

/// A graceful-restart announcement, handed to the embedder's helper policy.
#[derive(Clone, Copy, Debug, PartialEq, Eq, Structural)]
pub struct OspfGraceEvent {
    pub area: u32,
    pub advertising_router: u32,
    pub grace_period_secs: u32,
    pub reason: u8,
    pub interface_addr_v4: Option<u32>,
    pub interface_addr_v6: Option<u128>,
    pub ls_age_secs: u16,
    pub purged: bool,
}

/// The identity of one instance of an announcement.
#[derive(Clone, Copy, Debug, PartialEq, Eq, Structural)]
pub struct GraceInstance {
    pub sequence: u32,
    pub age: u16,
    pub checksum: u16,
    pub length: u16,
}

/// What is remembered of the announcements of a router.
#[derive(Clone, Copy, Debug, PartialEq, Eq, Structural)]
pub struct GraceRecord {
    /// The instance last seen.
    pub instance: GraceInstance,
    /// The period and the reason last announced.
    pub period: u32,
    pub reason: u8,
}

/// What a received announcement calls for.
#[derive(Clone, Copy, Debug, PartialEq, Eq, Structural)]
pub enum GraceVerdict {
    /// A retransmission or an older instance: nothing happens.
    Stale,
    /// A new instance whose body does not decode: remembered, but reported as
    /// malformed only.
    Malformed,
    /// A new instance for the embedder.
    Event(OspfGraceEvent),
}

/// The instance an announcement's header identifies.
pub open spec fn instance_of(h: LsaHeader) -> GraceInstance {
    GraceInstance {
        sequence: h.ls_sequence_number,
        age: h.ls_age,
        checksum: h.ls_checksum,
        length: h.length,
    }
}

/// A sequence number as the signed integer it stands for.
pub open spec fn signed(seq: u32) -> int {
    if seq >= 0x8000_0000 {
        seq as int - 0x1_0000_0000
    } else {
        seq as int
    }
}

/// Whether an announcement is the instance last seen, or older than it.
pub open spec fn is_stale(h: LsaHeader, seen: Option<GraceRecord>) -> bool {
    match seen {
        None => false,
        Some(s) => s.instance == instance_of(h) || signed(h.ls_sequence_number) < signed(
            s.instance.sequence,
        ),
    }
}

/// The period and the reason an announcement stands for: its own, or those
/// last announced where it is flushed or does not decode.
pub open spec fn announced(lsa: Lsa, seen: Option<GraceRecord>) -> (u32, u8) {
    match (lsa.content, seen) {
        (LsaContent::Grace { period, reason, .. }, _) if lsa.header.ls_age < MAX_AGE_SECS => (
            period,
            reason,
        ),
        (_, Some(s)) => (s.period, s.reason),
        (_, None) => (0, 0),
    }
}

/// What is remembered after an announcement.
pub open spec fn remembered(lsa: Lsa, seen: Option<GraceRecord>) -> GraceRecord {
    GraceRecord {
        instance: instance_of(lsa.header),
        period: announced(lsa, seen).0,
        reason: announced(lsa, seen).1,
    }
}

/// The verdict on an announcement in `area` given what is remembered of its
/// originator. A flushed announcement is reported with the period and the
/// reason last announced, and without address.
pub open spec fn grace_verdict(area: u32, lsa: Lsa, seen: Option<GraceRecord>) -> GraceVerdict {
    let h = lsa.header;
    if is_stale(h, seen) {
        GraceVerdict::Stale
    } else if h.ls_age >= MAX_AGE_SECS {
        GraceVerdict::Event(
            OspfGraceEvent {
                area,
                advertising_router: h.advertising_router,
                grace_period_secs: announced(lsa, seen).0,
                reason: announced(lsa, seen).1,
                interface_addr_v4: None,
                interface_addr_v6: None,
                ls_age_secs: MAX_AGE_SECS,
                purged: true,
            },
        )
    } else {
        match lsa.content {
            LsaContent::Grace { period, reason, addr_v4, addr_v6 } => GraceVerdict::Event(
                OspfGraceEvent {
                    area,
                    advertising_router: h.advertising_router,
                    grace_period_secs: period,
                    reason,
                    interface_addr_v4: addr_v4,
                    interface_addr_v6: addr_v6,
                    ls_age_secs: h.ls_age,
                    purged: false,
                },
            ),
            _ => GraceVerdict::Malformed,
        }
    }
}

fn to_signed(seq: u32) -> (r: i64)
    ensures
        r == signed(seq),
{
    if seq >= 0x8000_0000 {
        seq as i64 - 0x1_0000_0000
    } else {
        seq as i64
    }
}

/// What is remembered after an announcement.
pub fn remember_grace(lsa: &Lsa, seen: Option<GraceRecord>) -> (r: GraceRecord)
    ensures
        r == remembered(*lsa, seen),
{
    let h = &lsa.header;
    let (mut period, mut reason): (u32, u8) = match seen {
        Some(s) => (s.period, s.reason),
        None => (0, 0),
    };
    if h.ls_age < MAX_AGE_SECS {
        if let LsaContent::Grace { period: p, reason: r, .. } = lsa.content {
            period = p;
            reason = r;
        }
    }
    GraceRecord {
        instance: GraceInstance {
            sequence: h.ls_sequence_number,
            age: h.ls_age,
            checksum: h.ls_checksum,
            length: h.length,
        },
        period,
        reason,
    }
}

/// Decides what a received announcement calls for.
pub fn judge_grace_lsa(area: u32, lsa: &Lsa, seen: Option<GraceRecord>) -> (v: GraceVerdict)
    ensures
        v == grace_verdict(area, *lsa, seen),
{
    let record = remember_grace(lsa, seen);
    if let Some(s) = seen {
        if s.instance == record.instance {
            return GraceVerdict::Stale;
        }
        if to_signed(lsa.header.ls_sequence_number) < to_signed(s.instance.sequence) {
            return GraceVerdict::Stale;
        }
    }
    if lsa.header.ls_age >= MAX_AGE_SECS {
        return GraceVerdict::Event(
            OspfGraceEvent {
                area,
                advertising_router: lsa.header.advertising_router,
                grace_period_secs: record.period,
                reason: record.reason,
                interface_addr_v4: None,
                interface_addr_v6: None,
                ls_age_secs: MAX_AGE_SECS,
                purged: true,
            },
        );
    }
    match lsa.content {
        LsaContent::Grace { period, reason, addr_v4, addr_v6 } => GraceVerdict::Event(
            OspfGraceEvent {
                area,
                advertising_router: lsa.header.advertising_router,
                grace_period_secs: period,
                reason,
                interface_addr_v4: addr_v4,
                interface_addr_v6: addr_v6,
                ls_age_secs: lsa.header.ls_age,
                purged: false,
            },
        ),
        _ => GraceVerdict::Malformed,
    }
}

/// A copy of the instance just seen is stale: retransmissions of one
/// announcement produce one event.
pub proof fn grace_is_reported_once(area: u32, lsa: Lsa, seen: Option<GraceRecord>)
    ensures
        grace_verdict(area, lsa, Some(remembered(lsa, seen))) == GraceVerdict::Stale,
{
}

/// Once an instance was seen, no instance with a lower sequence number is
/// ever reported.
pub proof fn grace_never_goes_back(area: u32, lsa: Lsa, seen: GraceRecord)
    requires
        signed(lsa.header.ls_sequence_number) < signed(seen.instance.sequence),
    ensures
        grace_verdict(area, lsa, Some(seen)) == GraceVerdict::Stale,
{
}

/// Sequence numbers count as signed integers: those from the sign bit on come
/// before all others.
pub proof fn sequence_numbers_are_signed(a: u32, b: u32)
    ensures
        a < b < 0x8000_0000 ==> signed(a) < signed(b),
        0x8000_0000 <= a < b ==> signed(a) < signed(b),
        b < 0x8000_0000 <= a ==> signed(a) < signed(b),
{
}

/// A new announcement is reported with its own area, originator, period,
/// reason, addresses and age; one that does not decode is reported as
/// malformed; one that reached its maximum age is reported as purged, with
/// the period and the reason last announced.
pub proof fn announcements_are_reported_as_they_are(
    area: u32,
    lsa: Lsa,
    seen: Option<GraceRecord>,
)
    requires
        match seen {
            None => true,
            Some(s) => signed(lsa.header.ls_sequence_number) > signed(s.instance.sequence),
        },
    ensures
        match (grace_verdict(area, lsa, seen), lsa.content) {
            (GraceVerdict::Stale, _) => false,
            (GraceVerdict::Malformed, LsaContent::Grace { .. }) => false,
            (GraceVerdict::Malformed, _) => lsa.header.ls_age < 3600,
            (GraceVerdict::Event(e), content) => {
                &&& e.area == area
                &&& e.advertising_router == lsa.header.advertising_router
                &&& e.purged <==> lsa.header.ls_age >= 3600
                &&& e.purged ==> {
                    &&& e.ls_age_secs == 3600
                    &&& e.interface_addr_v4 is None && e.interface_addr_v6 is None
                    &&& seen is Some ==> e.grace_period_secs == seen->0.period && e.reason
                        == seen->0.reason
                    &&& seen is None ==> e.grace_period_secs == 0 && e.reason == 0
                }
                &&& !e.purged ==> e.ls_age_secs == lsa.header.ls_age && match content {
                    LsaContent::Grace { period, reason, addr_v4, addr_v6 } => e.grace_period_secs
                        == period && e.reason == reason && e.interface_addr_v4 == addr_v4
                        && e.interface_addr_v6 == addr_v6,
                    _ => false,
                }
            },
        },
{
}

/// What is remembered of an announcement is its instance, and the period and
/// reason it announces; a flush or a body that does not decode leaves those
/// announced before.
pub proof fn announcements_are_remembered(lsa: Lsa, seen: Option<GraceRecord>)
    ensures
        ({
            let r = remembered(lsa, seen);
            &&& r.instance.sequence == lsa.header.ls_sequence_number
            &&& r.instance.age == lsa.header.ls_age
            &&& r.instance.checksum == lsa.header.ls_checksum
            &&& r.instance.length == lsa.header.length
            &&& match lsa.content {
                LsaContent::Grace { period, reason, .. } if lsa.header.ls_age < 3600 => r.period
                    == period && r.reason == reason,
                _ => match seen {
                    Some(s) => r.period == s.period && r.reason == s.reason,
                    None => r.period == 0 && r.reason == 0,
                },
            }
        }),
{
}

} // verus!
