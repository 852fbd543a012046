//! Timer identifiers that carry their owning session.

use vstd::prelude::*;

verus! {

/// A timer identifier as the timer queue sees it.
#[derive(Clone, Copy, Debug, PartialEq, Eq, Structural)]
pub struct TimerId(pub u32);

/// Packs a session handle and a protocol timer code into one identifier: the
/// low 24 bits of the session above the low byte of the code.
pub fn encode_timer(session: u64, timer: TimerId) -> (id: TimerId)
    ensures
        id.0 == (session % 0x100_0000) * 0x100 + timer.0 % 0x100,
{
    let code: u32 = timer.0;
    let packed: u64 = ((session & 0x00ff_ffff) << 8) | (code & 0xff) as u64;
    assert(packed == (session % 0x100_0000) * 0x100 + code % 0x100 && packed <= 0xffff_ffff)
        by (bit_vector)
        requires
            packed == ((session & 0x00ff_ffff) << 8) | (code & 0xff) as u64,
    ;
    TimerId(packed as u32)
}

/// Splits a packed identifier into session and timer code.
pub fn decode_timer(id: TimerId) -> (r: (u64, u8))
    ensures
        r.0 == id.0 / 0x100,
        r.1 == id.0 % 0x100,
{
    let raw: u32 = id.0;
    let session: u64 = (raw as u64) >> 8;
    let code: u8 = (raw & 0xff) as u8;
    assert(session == raw / 0x100 && code == raw % 0x100) by (bit_vector)
        requires
            session == (raw as u64) >> 8,
            code == (raw & 0xff) as u8,
    ;
    (session, code)
}

/// Decoding gives back the session and the timer code that were packed, for
/// every session handle below 2^24 and every one-byte code.
pub proof fn timer_round_trip(session: u64, timer: u32, id: u32)
    requires
        session < 0x100_0000,
        timer < 0x100,
        id == (session % 0x100_0000) * 0x100 + timer % 0x100,
    ensures
        id / 0x100 == session,
        id % 0x100 == timer,
{
}

} // verus!
