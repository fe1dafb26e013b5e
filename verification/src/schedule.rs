//! When the server's periodic agents tick: daily ticks at a time of day,
//! the traveler tasks' refresh times, and which logs and sessions expire.
use vstd::prelude::*;

verus! {

/// Seconds in a day.
pub const SECONDS_IN_A_DAY: i32 = 86400;

/// Days a storage log is kept.
pub const DELETE_LOGS_AFTER_DAYS: i32 = 14;

/// Microseconds without activity after which a player is signed out.
pub const AUTO_LOGOUT_AFTER_MICROS: i64 = 1800000000;

/// Seconds from `seconds_elapsed` (since the epoch) to the next daily tick,
/// which falls `daily_timestamp_tick` seconds into a day; a tick that has
/// already passed today is taken tomorrow.
pub open spec fn seconds_to_daily_tick(seconds_elapsed: int, daily_timestamp_tick: int) -> int {
    let start_of_day = (seconds_elapsed / SECONDS_IN_A_DAY as int) * SECONDS_IN_A_DAY as int;
    let next = start_of_day + daily_timestamp_tick;
    if next < seconds_elapsed {
        next + SECONDS_IN_A_DAY - seconds_elapsed
    } else {
        next - seconds_elapsed
    }
}

/// The start of the day that second `seconds_elapsed` falls in.
pub open spec fn day_start(seconds_elapsed: int) -> int {
    (seconds_elapsed / SECONDS_IN_A_DAY as int) * SECONDS_IN_A_DAY as int
}

/// Seconds until the first daily tick of an agent that ticks once a day,
/// `daily_timestamp_tick` seconds into the day.
pub fn seconds_until_daily_tick(seconds_elapsed: i32, daily_timestamp_tick: i32) -> (r: i32)
    requires
        seconds_elapsed >= 0,
        day_start(seconds_elapsed as int) + daily_timestamp_tick <= i32::MAX,
        day_start(seconds_elapsed as int) + daily_timestamp_tick < seconds_elapsed ==> {
            let next = day_start(seconds_elapsed as int) + daily_timestamp_tick + SECONDS_IN_A_DAY;
            next <= i32::MAX && i32::MIN <= next - seconds_elapsed
        },
    ensures
        r == seconds_to_daily_tick(seconds_elapsed as int, daily_timestamp_tick as int),
{
    let start_of_current_day_timestamp = (seconds_elapsed / SECONDS_IN_A_DAY) * SECONDS_IN_A_DAY;
    assert(start_of_current_day_timestamp <= seconds_elapsed) by (nonlinear_arith)
        requires
            start_of_current_day_timestamp == (seconds_elapsed / SECONDS_IN_A_DAY) * SECONDS_IN_A_DAY,
            seconds_elapsed >= 0,
    ;
    let mut next_tick = start_of_current_day_timestamp + daily_timestamp_tick;
    if next_tick < seconds_elapsed {
        next_tick = next_tick + SECONDS_IN_A_DAY;
    }
    next_tick - seconds_elapsed
}

/// The first refresh of the traveler tasks at or after `seconds_elapsed`:
/// the first of the listed hours of the day not yet passed today, or else
/// the first listed hour tomorrow.
pub open spec fn traveler_tick(seconds_elapsed: int, hours: Seq<i32>) -> int {
    let start_of_day = (seconds_elapsed / SECONDS_IN_A_DAY as int) * SECONDS_IN_A_DAY as int;
    traveler_tick_from(start_of_day, seconds_elapsed, hours, 0)
}

/// The first listed hour from position `i` on not yet passed today, or
/// else the first listed hour tomorrow.
pub open spec fn traveler_tick_from(start_of_day: int, seconds_elapsed: int, hours: Seq<i32>, i: int) -> int
    decreases hours.len() - i,
{
    if i < 0 || i >= hours.len() {
        start_of_day + hours[0] * 3600 + SECONDS_IN_A_DAY
    } else if start_of_day + hours[i] * 3600 >= seconds_elapsed {
        start_of_day + hours[i] * 3600
    } else {
        traveler_tick_from(start_of_day, seconds_elapsed, hours, i + 1)
    }
}

/// When the traveler tasks are next refreshed, in seconds since the epoch.
pub fn next_traveler_tick(seconds_elapsed: i32, hours_of_day: &Vec<i32>) -> (r: i32)
    requires
        seconds_elapsed >= 0,
        hours_of_day@.len() > 0,
        forall|i: int|
            0 <= i < hours_of_day@.len() ==> i32::MIN <= #[trigger] hours_of_day@[i] * 3600 <= i32::MAX && i32::MIN
                <= day_start(seconds_elapsed as int) + hours_of_day@[i] * 3600 <= i32::MAX,
        day_start(seconds_elapsed as int) + hours_of_day@[0] * 3600 + SECONDS_IN_A_DAY <= i32::MAX,
    ensures
        r == traveler_tick(seconds_elapsed as int, hours_of_day@),
{
    let start_of_current_day_timestamp = (seconds_elapsed / SECONDS_IN_A_DAY) * SECONDS_IN_A_DAY;
    assert(0 <= start_of_current_day_timestamp <= seconds_elapsed) by (nonlinear_arith)
        requires
            start_of_current_day_timestamp == (seconds_elapsed / SECONDS_IN_A_DAY) * SECONDS_IN_A_DAY,
            seconds_elapsed >= 0,
    ;
    let ghost sod = start_of_current_day_timestamp as int;
    assert(traveler_tick(seconds_elapsed as int, hours_of_day@) == traveler_tick_from(sod, seconds_elapsed as int, hours_of_day@, 0));
    let n = hours_of_day.len();
    let mut next_tick: Option<i32> = None;
    let mut i: usize = 0;
    while i < n
        invariant
            i <= n,
            n == hours_of_day@.len(),
            n > 0,
            sod == start_of_current_day_timestamp,
            0 <= start_of_current_day_timestamp <= seconds_elapsed,
            forall|k: int|
                0 <= k < hours_of_day@.len() ==> i32::MIN <= #[trigger] hours_of_day@[k] * 3600 <= i32::MAX && i32::MIN
                    <= sod + hours_of_day@[k] * 3600 <= i32::MAX,
            sod + hours_of_day@[0] * 3600 + SECONDS_IN_A_DAY <= i32::MAX,
            traveler_tick(seconds_elapsed as int, hours_of_day@) == traveler_tick_from(sod, seconds_elapsed as int, hours_of_day@, i as int),
            i == 0 ==> next_tick is None,
            i > 0 ==> next_tick == Some((sod + hours_of_day@[0] * 3600 + SECONDS_IN_A_DAY) as i32),
        decreases n - i,
    {
        let daily_timestamp_tick = hours_of_day[i] * 60 * 60;
        let next_tick_attempt = start_of_current_day_timestamp + daily_timestamp_tick;
        if next_tick_attempt >= seconds_elapsed {
            return next_tick_attempt;
        }
        if next_tick.is_none() {
            next_tick = Some(next_tick_attempt + SECONDS_IN_A_DAY);
        }
        i = i + 1;
    }
    match next_tick {
        Some(t) => t,
        None => 0,
    }
}

/// The days whose storage logs expire on day `days_since_epoch`: the day
/// that just expired and the two before it (in case a day was missed).
pub fn expired_log_days(days_since_epoch: i32) -> (r: [i32; 3])
    requires
        days_since_epoch - DELETE_LOGS_AFTER_DAYS - 3 >= i32::MIN,
    ensures
        r[0] == days_since_epoch - DELETE_LOGS_AFTER_DAYS - 1,
        r[1] == days_since_epoch - DELETE_LOGS_AFTER_DAYS - 2,
        r[2] == days_since_epoch - DELETE_LOGS_AFTER_DAYS - 3,
{
    [
        days_since_epoch - DELETE_LOGS_AFTER_DAYS - 1,
        days_since_epoch - DELETE_LOGS_AFTER_DAYS - 2,
        days_since_epoch - DELETE_LOGS_AFTER_DAYS - 3,
    ]
}

/// Whether a player last active at `last_activity_micros` is to be signed
/// out at `now_micros`: no activity for half an hour.
pub fn is_inactive(now_micros: i64, last_activity_micros: i64) -> (r: bool)
    requires
        now_micros - AUTO_LOGOUT_AFTER_MICROS >= i64::MIN,
    ensures
        r == (last_activity_micros < now_micros - AUTO_LOGOUT_AFTER_MICROS),
{
    last_activity_micros < now_micros - AUTO_LOGOUT_AFTER_MICROS
}

/// The first daily tick comes within a day: never in the past, and at most
/// one day (plus the tick's offset) ahead, at the tick's time of day.
pub proof fn law_daily_tick_within_a_day(seconds_elapsed: int, daily_timestamp_tick: int)
    requires
        seconds_elapsed >= 0,
        0 <= daily_timestamp_tick <= SECONDS_IN_A_DAY,
    ensures
        0 <= seconds_to_daily_tick(seconds_elapsed, daily_timestamp_tick) <= SECONDS_IN_A_DAY,
        (seconds_elapsed + seconds_to_daily_tick(seconds_elapsed, daily_timestamp_tick) - daily_timestamp_tick)
            % (SECONDS_IN_A_DAY as int) == 0,
{
    let d = SECONDS_IN_A_DAY as int;
    let s = seconds_elapsed;
    let q = s / d;
    assert(q * d <= s < q * d + d) by (nonlinear_arith)
        requires
            q == s / d,
            d == 86400,
            s >= 0,
    ;
    let r = seconds_to_daily_tick(s, daily_timestamp_tick);
    if q * d + daily_timestamp_tick < s {
        assert(s + r - daily_timestamp_tick == (q + 1) * d) by (nonlinear_arith)
            requires
                r == q * d + daily_timestamp_tick + d - s,
        ;
        assert(((q + 1) * d) % d == 0) by (nonlinear_arith)
            requires
                d == 86400,
        ;
    } else {
        assert(s + r - daily_timestamp_tick == q * d);
        assert((q * d) % d == 0) by (nonlinear_arith)
            requires
                d == 86400,
        ;
    }
}

} // verus!
