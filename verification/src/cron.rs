//! Schedule arithmetic for the recurring passes.
//!
//! The daily passes run at fixed UTC times of day; given the current
//! epoch second, these functions compute the next run and the start
//! of the current day.  All times are whole seconds since the epoch,
//! where every day is exactly 86400 seconds.

use vstd::prelude::*;

verus! {

pub const SECS_PER_DAY: u64 = 86400;

/// The second-of-day of an epoch timestamp.
pub open spec fn time_of_day(now: int) -> int {
    now % 86400
}

/// The next epoch second at which a once-daily pass fires: today at
/// `target` seconds after midnight, or tomorrow if that moment has
/// already been reached.
pub fn next_daily_run(now: i64, target: u32) -> (r: i64)
    requires
        now >= 0,
        target < 86400,
        now + 2 * 86400 <= i64::MAX,
    ensures
        r == now - time_of_day(now as int) + target + if time_of_day(now as int) >= target {
            86400int
        } else {
            0int
        },
        r > now,
        time_of_day(r as int) == target,
{
    let tod = now % 86400;
    let midnight = now - tod;
    let r = if tod >= target as i64 {
        midnight + target as i64 + 86400
    } else {
        midnight + target as i64
    };
    assert(time_of_day(r as int) == target) by (nonlinear_arith)
        requires
            r == now - (now as int % 86400) + target + if (now as int % 86400) >= target {
                86400int
            } else {
                0int
            },
            now >= 0,
            0 <= target < 86400,
    ;
    r
}

/// The next epoch second at which a twice-daily pass fires: the
/// morning slot, then the evening slot, then tomorrow's morning.
pub fn next_twice_daily_run(now: i64, morning: u32, evening: u32) -> (r: i64)
    requires
        now >= 0,
        morning < evening,
        evening < 86400,
        now + 2 * 86400 <= i64::MAX,
    ensures
        r == now - time_of_day(now as int) + if time_of_day(now as int) < morning {
            morning as int
        } else if time_of_day(now as int) < evening {
            evening as int
        } else {
            morning + 86400int
        },
        r > now,
{
    let tod = now % 86400;
    let midnight = now - tod;
    if tod < morning as i64 {
        midnight + morning as i64
    } else if tod < evening as i64 {
        midnight + evening as i64
    } else {
        midnight + morning as i64 + 86400
    }
}

/// Midnight of the current day: the start of the reconciliation
/// window the daily pass re-walks.
pub fn day_start(now: i64) -> (r: i64)
    requires
        now >= 0,
    ensures
        r == now - time_of_day(now as int),
        r <= now,
        time_of_day(r as int) == 0,
        now - r < 86400,
{
    let tod = now % 86400;
    let r = now - tod;
    assert(time_of_day(r as int) == 0) by (nonlinear_arith)
        requires
            r == now - (now as int % 86400),
            now >= 0,
    ;
    r
}

} // verus!
