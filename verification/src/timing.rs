//! Protocol timing constants and wrap-safe tick arithmetic.
//!
//! All timers are 32-bit microsecond counters that wrap; elapsed time is
//! always computed with wrapping subtraction, never plain subtraction.

use vstd::prelude::*;

verus! {

/// Shortest reply delay a Sub may draw for a broadcast answer.
pub const DOM_BROADCAST_MIN_WAIT_US: u32 = 10_000;

/// The Dom's listen window after a discovery broadcast.
pub const DOM_BROADCAST_MAX_WAIT_US: u32 = 50_000;

/// Shortest reply delay a Sub may draw for a ping answer.
pub const DOM_PING_MIN_WAIT_US: u32 = 10_000;

/// The Dom's listen window after a ping request.
pub const DOM_PING_MAX_WAIT_US: u32 = 50_000;

/// How long a Sub waits for a `DiscoverInitial` before giving up.
pub const SUB_INITIAL_DISCO_WAIT_US: u32 = 2_000_000;

/// How long a Sub waits for a `DiscoverAckAck` beyond its reply slot.
pub const SUB_BROADACKACK_WAIT_US: u32 = 2_000_000;

/// How long a Sub waits for each ping during commissioning.
pub const SUB_PING_WAIT_US: u32 = 2_500_000;

/// The token's time budget, and the Dom's wait for its release.
pub const TOKEN_MAX_TIME_US: u32 = 50_000;

/// An address that answers no grant for this long is evicted.
pub const TOKEN_EVICT_MS: u32 = 5_000;

/// Microseconds from `start` to `now` on a wrapping 32-bit tick counter.
pub open spec fn micros_since_spec(now: u32, start: u32) -> u32 {
    (((now as int) - (start as int)) % 0x1_0000_0000) as u32
}

/// Wrap-safe elapsed microseconds.
pub fn micros_since(now: u32, start: u32) -> (r: u32)
    ensures
        r == micros_since_spec(now, start),
{
    now.wrapping_sub(start)
}

/// Wrap-safe elapsed milliseconds: elapsed microseconds divided by 1000.
pub fn millis_since(now: u32, start: u32) -> (r: u32)
    ensures
        r == micros_since_spec(now, start) / 1000,
{
    now.wrapping_sub(start) / 1000
}

} // verus!
