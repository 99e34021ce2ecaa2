//! Time as whole milliseconds since the Unix epoch, and the expiry rules
//! that are stated over it.

use vstd::prelude::*;

verus! {

/// Milliseconds in one hour.
pub const MILLIS_PER_HOUR: i64 = 3_600_000;

/// Every reading of the system clock lies below this many milliseconds
/// (the clock's calendar ends in the year 262143).
pub const CLOCK_LIMIT_MILLIS: i64 = 10_000_000_000_000_000;

/// The largest time-to-live, in hours of either sign, that a write reading
/// the system clock accepts: any clock reading plus this span still fits
/// in an `i64` of milliseconds.
pub const MAX_TTL_HOURS: i64 = 2_000_000_000_000;

/// Whether `now` plus `expiry_hours` hours is representable.
pub open spec fn expiry_fits(now: i64, expiry_hours: Option<i64>) -> bool {
    match expiry_hours {
        None => true,
        Some(h) => i64::MIN <= now + h * MILLIS_PER_HOUR <= i64::MAX,
    }
}

/// The expiry instant of a write made at `now`: absent without a
/// time-to-live, else `now` plus that many hours.
pub open spec fn expiry_of(now: i64, expiry_hours: Option<i64>) -> Option<i64> {
    match expiry_hours {
        None => None,
        Some(h) => Some((now + h * MILLIS_PER_HOUR) as i64),
    }
}

/// An entry is live at `now` when it has no expiry or its expiry lies
/// strictly after `now`.
pub open spec fn is_live(expires_at: Option<i64>, now: i64) -> bool {
    match expires_at {
        None => true,
        Some(t) => t > now,
    }
}

/// Computes the expiry instant of a write made at `now`.
pub fn expires_at_for(now: i64, expiry_hours: Option<i64>) -> (r: Option<i64>)
    requires
        expiry_fits(now, expiry_hours),
    ensures
        r == expiry_of(now, expiry_hours),
{
    match expiry_hours {
        None => None,
        Some(h) => {
            let at: i128 = (now as i128) + (h as i128) * (MILLIS_PER_HOUR as i128);
            Some(at as i64)
        },
    }
}

/// Tells whether an entry with expiry `expires_at` is live at `now`.
pub fn is_live_at(expires_at: Option<i64>, now: i64) -> (r: bool)
    ensures
        r == is_live(expires_at, now),
{
    match expires_at {
        None => true,
        Some(t) => t > now,
    }
}

/// Any clock reading with a time-to-live within `MAX_TTL_HOURS` has a
/// representable expiry.
pub proof fn lemma_bounded_ttl_fits(now: i64, expiry_hours: Option<i64>)
    requires
        0 <= now < CLOCK_LIMIT_MILLIS,
        match expiry_hours {
            None => true,
            Some(h) => -MAX_TTL_HOURS <= h <= MAX_TTL_HOURS,
        },
    ensures
        expiry_fits(now, expiry_hours),
{
    if let Some(h) = expiry_hours {
        assert(-MAX_TTL_HOURS * MILLIS_PER_HOUR <= h * MILLIS_PER_HOUR <= MAX_TTL_HOURS
            * MILLIS_PER_HOUR) by (nonlinear_arith)
            requires
                -MAX_TTL_HOURS <= h <= MAX_TTL_HOURS,
        ;
    }
}

/// Relies on chrono's `Utc::now` and `DateTime::timestamp_millis`: the
/// current time in milliseconds since the epoch. `Utc::now` panics on a
/// clock before the epoch and its calendar ends in the year 262143, so every
/// reading it returns lies in `[0, CLOCK_LIMIT_MILLIS)`.
#[verifier::external_body]
pub(crate) fn now_millis() -> (r: i64)
    ensures
        0 <= r < CLOCK_LIMIT_MILLIS,
{
    chrono::Utc::now().timestamp_millis()
}

} // verus!
