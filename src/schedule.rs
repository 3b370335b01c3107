//! Schedule policies and the calculation of a policy's next firing time.
//!
//! Instants are whole seconds since 1970-01-01T00:00:00Z (UTC), held in an `i64`.
//! 1970-01-01 was a Thursday, so the weekday of day number `n` is `(n + 4) % 7`
//! with Sunday as 0.

use vstd::prelude::*;

verus! {

pub const SECONDS_PER_MINUTE: i64 = 60;

pub const SECONDS_PER_HOUR: i64 = 3600;

pub const SECONDS_PER_DAY: i64 = 86400;

pub const SECONDS_PER_WEEK: i64 = 604800;

/// The last instant the scheduler accepts as "now": 9999-12-31T23:59:59Z.
pub const MAX_INSTANT: i64 = 253402300799;

/// The rule that decides when a task fires.
#[derive(Clone, Copy, Debug, PartialEq, Eq, Structural)]
pub enum ScheduleType {
    /// Every `minutes` minutes after the previous firing.
    Interval { minutes: u32 },
    /// Once per hour, at the given minute.
    Hourly { at_minute: u32 },
    /// Once per day, at the given hour and minute.
    Daily { at_hour: u32, at_minute: u32 },
    /// Once per week, on `day` (0 = Sunday .. 6 = Saturday) at the given time.
    Weekly { day: u32, at_hour: u32, at_minute: u32 },
}

impl ScheduleType {
    /// The fields are in range: a positive interval, minutes below 60, hours
    /// below 24 and weekdays below 7.
    pub open spec fn is_valid(&self) -> bool {
        match *self {
            ScheduleType::Interval { minutes } => minutes >= 1,
            ScheduleType::Hourly { at_minute } => at_minute < 60,
            ScheduleType::Daily { at_hour, at_minute } => at_hour < 24 && at_minute < 60,
            ScheduleType::Weekly { day, at_hour, at_minute } => day < 7 && at_hour < 24
                && at_minute < 60,
        }
    }

    pub fn check_valid(&self) -> (r: bool)
        ensures
            r == self.is_valid(),
    {
        match *self {
            ScheduleType::Interval { minutes } => minutes >= 1,
            ScheduleType::Hourly { at_minute } => at_minute < 60,
            ScheduleType::Daily { at_hour, at_minute } => at_hour < 24 && at_minute < 60,
            ScheduleType::Weekly { day, at_hour, at_minute } => day < 7 && at_hour < 24
                && at_minute < 60,
        }
    }
}

/// A time that the scheduler accepts as "now".
pub open spec fn is_instant(t: int) -> bool {
    0 <= t <= MAX_INSTANT
}

/// Weekday of an instant, 0 = Sunday.
pub open spec fn weekday_of(t: int) -> int {
    (t / SECONDS_PER_DAY as int + 4) % 7
}

/// Seconds after midnight of hour `h`, minute `m`.
pub open spec fn time_of_day(h: int, m: int) -> int {
    h * SECONDS_PER_HOUR + m * SECONDS_PER_MINUTE
}

/// The earliest instant after `now` whose remainder modulo `period` is `offset`.
pub open spec fn next_slot(now: int, period: int, offset: int) -> int {
    let cand = now - now % period + offset;
    if cand <= now {
        cand + period
    } else {
        cand
    }
}

/// Whether a policy with a fixed clock position fires at instant `t`.
/// An interval has no fixed position and fires nowhere by this rule.
pub open spec fn on_slot(policy: ScheduleType, t: int) -> bool {
    match policy {
        ScheduleType::Interval { .. } => false,
        ScheduleType::Hourly { at_minute } => t % SECONDS_PER_HOUR as int == at_minute
            * SECONDS_PER_MINUTE,
        ScheduleType::Daily { at_hour, at_minute } => t % SECONDS_PER_DAY as int == time_of_day(
            at_hour as int,
            at_minute as int,
        ),
        ScheduleType::Weekly { day, at_hour, at_minute } => t % SECONDS_PER_DAY as int
            == time_of_day(at_hour as int, at_minute as int) && weekday_of(t) == day,
    }
}

/// The next firing time of `policy` seen from `now`.
pub open spec fn next_run_after(policy: ScheduleType, now: int) -> int {
    match policy {
        ScheduleType::Interval { minutes } => now + minutes * SECONDS_PER_MINUTE,
        ScheduleType::Hourly { at_minute } => next_slot(
            now,
            SECONDS_PER_HOUR as int,
            at_minute * SECONDS_PER_MINUTE,
        ),
        ScheduleType::Daily { at_hour, at_minute } => next_slot(
            now,
            SECONDS_PER_DAY as int,
            time_of_day(at_hour as int, at_minute as int),
        ),
        ScheduleType::Weekly { day, at_hour, at_minute } => weekly_next(
            now,
            day as int,
            time_of_day(at_hour as int, at_minute as int),
        ),
    }
}

/// The weekly rule: move to the target weekday of the current week (or the
/// coming days), at the given time of day, and a week later if that is not
/// after `now`.
pub open spec fn weekly_next(now: int, day: int, offset: int) -> int {
    let start = now - now % SECONDS_PER_DAY as int;
    let delta = (day - weekday_of(now) + 7) % 7;
    let cand = start + delta * SECONDS_PER_DAY + offset;
    if cand <= now {
        cand + SECONDS_PER_WEEK
    } else {
        cand
    }
}

/// Seen from the Sunday before the epoch, an instant's position in its week is
/// its weekday's days plus its seconds into the day.
proof fn lemma_week_position(t: int)
    requires
        t >= 0,
    ensures
        0 <= weekday_of(t) < 7,
        0 <= t % (SECONDS_PER_DAY as int) < SECONDS_PER_DAY,
        SECONDS_PER_DAY * weekday_of(t) + t % SECONDS_PER_DAY as int == (t + 4
            * SECONDS_PER_DAY) % SECONDS_PER_WEEK as int,
{
    let d = SECONDS_PER_DAY as int;
    let n = t / d;
    let rem = t % d;
    vstd::arithmetic::div_mod::lemma_fundamental_div_mod(t, d);
    vstd::arithmetic::div_mod::lemma_mod_bound(t, d);
    let a = (n + 4) / 7;
    let b = (n + 4) % 7;
    vstd::arithmetic::div_mod::lemma_fundamental_div_mod(n + 4, 7);
    vstd::arithmetic::div_mod::lemma_mod_bound(n + 4, 7);
    assert(t + 4 * d == a * SECONDS_PER_WEEK + (d * b + rem)) by (nonlinear_arith)
        requires
            t == d * n + rem,
            n + 4 == 7 * a + b,
            d == 86400,
    ;
    vstd::arithmetic::div_mod::lemma_fundamental_div_mod_converse_mod(
        t + 4 * d,
        SECONDS_PER_WEEK as int,
        a,
        d * b + rem,
    );
}

/// Two positions in a week agree exactly when their weekdays and seconds into
/// the day agree.
proof fn lemma_position_unique(b1: int, r1: int, b2: int, r2: int)
    requires
        0 <= r1 < SECONDS_PER_DAY,
        0 <= r2 < SECONDS_PER_DAY,
    ensures
        SECONDS_PER_DAY * b1 + r1 == SECONDS_PER_DAY * b2 + r2 <==> (b1 == b2 && r1 == r2),
{
    if SECONDS_PER_DAY * b1 + r1 == SECONDS_PER_DAY * b2 + r2 {
        assert(b1 == b2) by (nonlinear_arith)
            requires
                86400 * b1 + r1 == 86400 * b2 + r2,
                0 <= r1 < 86400,
                0 <= r2 < 86400,
        ;
    }
}

/// The weekly rule lands on the earliest matching instant after `now`.
proof fn lemma_weekly(now: int, day: int, offset: int)
    requires
        now >= 0,
        0 <= day < 7,
        0 <= offset < SECONDS_PER_DAY,
    ensures
        weekly_next(now, day, offset) > now,
        weekly_next(now, day, offset) <= now + SECONDS_PER_WEEK,
        weekly_next(now, day, offset) % SECONDS_PER_DAY as int == offset,
        weekday_of(weekly_next(now, day, offset)) == day,
        forall|t: int|
            now < t < weekly_next(now, day, offset) ==> !(t % SECONDS_PER_DAY as int == offset
                && #[trigger] weekday_of(t) == day),
{
    let d = SECONDS_PER_DAY as int;
    let w = SECONDS_PER_WEEK as int;
    let target = d * day + offset;
    let shifted = now + 4 * d;
    lemma_week_position(now);
    lemma_next_slot(shifted, w, target);
    let r = weekly_next(now, day, offset);
    let wd = weekday_of(now);
    let rem = now % d;
    assert(shifted % w == d * wd + rem);
    let cand2 = shifted - shifted % w + target;
    let cand = now - rem + ((day - wd + 7) % 7) * d + offset;
    if day >= wd {
        assert((day - wd + 7) % 7 == day - wd);
        assert(cand + 4 * d == cand2) by (nonlinear_arith)
            requires
                cand == now - rem + (day - wd) * d + offset,
                cand2 == now + 4 * d - (d * wd + rem) + d * day + offset,
        ;
    } else {
        assert((day - wd + 7) % 7 == day - wd + 7);
        assert(cand + 4 * d == cand2 + w) by (nonlinear_arith)
            requires
                cand == now - rem + (day - wd + 7) * d + offset,
                cand2 == now + 4 * d - (d * wd + rem) + d * day + offset,
                w == 7 * d,
        ;
        assert(d * day + offset < d * wd) by (nonlinear_arith)
            requires
                day < wd,
                offset < d,
                d > 0,
        ;
    }
    assert(r + 4 * d == next_slot(shifted, w, target));
    lemma_week_position(r);
    lemma_position_unique(weekday_of(r), r % d, day, offset);
    assert forall|t: int| now < t < r implies !(t % d == offset && #[trigger] weekday_of(t) == day) by {
        lemma_week_position(t);
        lemma_position_unique(weekday_of(t), t % d, day, offset);
        assert(shifted < t + 4 * d < next_slot(shifted, w, target));
    }
}

/// `next_slot` is the earliest instant after `now` on the slot.
proof fn lemma_next_slot(now: int, period: int, offset: int)
    requires
        now >= 0,
        period > 0,
        0 <= offset < period,
    ensures
        next_slot(now, period, offset) > now,
        next_slot(now, period, offset) % period == offset,
        next_slot(now, period, offset) <= now + period,
        forall|t: int| now < t < next_slot(now, period, offset) ==> #[trigger] (t % period) != offset,
{
    let q = now / period;
    let rem = now % period;
    vstd::arithmetic::div_mod::lemma_fundamental_div_mod(now, period);
    vstd::arithmetic::div_mod::lemma_mod_bound(now, period);
    let cand = now - rem + offset;
    assert(cand == period * q + offset);
    let r = next_slot(now, period, offset);
    if cand <= now {
        assert(r == (q + 1) * period + offset) by (nonlinear_arith)
            requires
                r == cand + period,
                cand == period * q + offset,
        ;
        vstd::arithmetic::div_mod::lemma_fundamental_div_mod_converse_mod(r, period, q + 1, offset);
    } else {
        assert(r == q * period + offset) by (nonlinear_arith)
            requires
                r == cand,
                cand == period * q + offset,
        ;
        vstd::arithmetic::div_mod::lemma_fundamental_div_mod_converse_mod(r, period, q, offset);
    }
    assert forall|t: int| now < t < r implies #[trigger] (t % period) != offset by {
        if t % period == offset {
            let k = t / period;
            vstd::arithmetic::div_mod::lemma_fundamental_div_mod(t, period);
            assert(t == period * k + offset);
            if cand <= now {
                assert(k > q) by (nonlinear_arith)
                    requires
                        period * k + offset > now,
                        now >= period * q + offset,
                        period > 0,
                ;
                assert(period * k >= period * (q + 1)) by (nonlinear_arith)
                    requires
                        k >= q + 1,
                        period > 0,
                ;
            } else {
                assert(k < q) by (nonlinear_arith)
                    requires
                        period * k + offset < period * q + offset,
                        period > 0,
                ;
                assert(period * k <= period * (q - 1)) by (nonlinear_arith)
                    requires
                        k <= q - 1,
                        period > 0,
                ;
                assert(period * (q - 1) == period * q - period) by (nonlinear_arith);
            }
        }
    }
}

/// Computes when `policy` fires next, seen from `now`.
///
/// An interval fires `minutes` minutes after `now`. The other policies fire at
/// the first instant strictly after `now` that matches their clock position,
/// with seconds at zero: a slot equal to `now` is left for the next period.
pub fn compute_next_run(policy: &ScheduleType, now: i64) -> (r: i64)
    requires
        policy.is_valid(),
        is_instant(now as int),
    ensures
        r == next_run_after(*policy, now as int),
        r > now,
        policy matches ScheduleType::Interval { .. } || on_slot(*policy, r as int),
        policy matches ScheduleType::Hourly { .. } ==> r <= now + SECONDS_PER_HOUR,
        policy matches ScheduleType::Daily { .. } ==> r <= now + SECONDS_PER_DAY,
        policy matches ScheduleType::Weekly { .. } ==> r <= now + SECONDS_PER_WEEK,
        forall|t: int| now < t < r ==> !on_slot(*policy, t),
{
    match *policy {
        ScheduleType::Interval { minutes } => {
            now + (minutes as i64) * SECONDS_PER_MINUTE
        },
        ScheduleType::Hourly { at_minute } => {
            let offset = (at_minute as i64) * SECONDS_PER_MINUTE;
            proof {
                lemma_next_slot(now as int, SECONDS_PER_HOUR as int, offset as int);
            }
            let cand = now - now % SECONDS_PER_HOUR + offset;
            if cand <= now {
                cand + SECONDS_PER_HOUR
            } else {
                cand
            }
        },
        ScheduleType::Daily { at_hour, at_minute } => {
            let offset = (at_hour as i64) * SECONDS_PER_HOUR + (at_minute as i64)
                * SECONDS_PER_MINUTE;
            proof {
                lemma_next_slot(now as int, SECONDS_PER_DAY as int, offset as int);
            }
            let cand = now - now % SECONDS_PER_DAY + offset;
            if cand <= now {
                cand + SECONDS_PER_DAY
            } else {
                cand
            }
        },
        ScheduleType::Weekly { day, at_hour, at_minute } => {
            let offset = (at_hour as i64) * SECONDS_PER_HOUR + (at_minute as i64)
                * SECONDS_PER_MINUTE;
            let weekday = (now / SECONDS_PER_DAY + 4) % 7;
            let delta = (day as i64 - weekday + 7) % 7;
            proof {
                lemma_weekly(now as int, day as int, offset as int);
            }
            let cand = now - now % SECONDS_PER_DAY + delta * SECONDS_PER_DAY + offset;
            if cand <= now {
                cand + SECONDS_PER_WEEK
            } else {
                cand
            }
        },
    }
}

/// A valid policy's next run lies after `now`.
pub proof fn lemma_next_run_after_later(policy: ScheduleType, now: int)
    requires
        policy.is_valid(),
        now >= 0,
    ensures
        next_run_after(policy, now) > now,
{
    match policy {
        ScheduleType::Interval { .. } => {},
        ScheduleType::Hourly { at_minute } => {
            lemma_next_slot(now, SECONDS_PER_HOUR as int, at_minute * SECONDS_PER_MINUTE);
        },
        ScheduleType::Daily { at_hour, at_minute } => {
            lemma_next_slot(now, SECONDS_PER_DAY as int, time_of_day(at_hour as int, at_minute as int));
        },
        ScheduleType::Weekly { day, at_hour, at_minute } => {
            lemma_weekly(now, day as int, time_of_day(at_hour as int, at_minute as int));
        },
    }
}

} // verus!
