//! The announcement window: the coming weekend, derived from the ISO
//! week-date of the moment of invocation. The window opens at midnight UTC
//! on the Friday of the current ISO week and closes at midnight UTC on the
//! Monday of the following ISO week, three days later.

use vstd::arithmetic::div_mod::lemma_div_is_ordered;
use vstd::arithmetic::div_mod::lemma_fundamental_div_mod;
use vstd::arithmetic::div_mod::lemma_fundamental_div_mod_converse;
use vstd::arithmetic::div_mod::lemma_mod_division_less_than_divisor;
use vstd::prelude::*;

verus! {

/// Days from 1970-01-01 to January 4 of year `y` of the proleptic Gregorian
/// calendar, by the standard civil-from-days closed form (era = 400 years =
/// 146097 days; January 4 is day 309 of an era year that starts in March).
/// January 4 always lies in ISO week 1 of `y`. Meaningful for `y >= 1`.
pub open spec fn jan4_epoch_day(y: int) -> int {
    let yp = y - 1;
    let era = yp / 400;
    let yoe = yp - era * 400;
    era * 146097 + yoe * 365 + yoe / 4 - yoe / 100 + 309 - 719468
}

/// The day of the week of epoch day `d`, with Monday as 0 and Sunday as 6
/// (1970-01-01, epoch day 0, was a Thursday).
pub open spec fn weekday_of(d: int) -> int {
    (d + 3) % 7
}

/// The epoch day of the Monday that begins ISO week 1 of ISO year `y`: the
/// Monday on or before January 4.
pub open spec fn week1_monday(y: int) -> int {
    jan4_epoch_day(y) - weekday_of(jan4_epoch_day(y))
}

/// The epoch day of the Friday of ISO week `w` of ISO year `y`.
pub open spec fn iso_friday(y: int, w: int) -> int {
    week1_monday(y) + 7 * (w - 1) + 4
}

/// UTC epoch seconds at which the window opens: midnight of the Friday of
/// ISO week `w` of ISO year `y`.
pub open spec fn window_start(y: int, w: int) -> int {
    iso_friday(y, w) * 86400
}

/// UTC epoch seconds at which the window closes: midnight of the Monday of
/// the ISO week after week `w`, three days after the window opens.
pub open spec fn window_end(y: int, w: int) -> int {
    window_start(y, w) + 3 * 86400
}

/// January 4 of any supported year falls between epoch day 3 (in 1970) and
/// epoch day 2932903 (in 9999).
proof fn lemma_jan4_bounds(y: int)
    requires
        1970 <= y <= 9999,
    ensures
        3 <= jan4_epoch_day(y) <= 2932903,
{
    let yp = y - 1;
    let era = yp / 400;
    let yoe = yp - era * 400;
    lemma_fundamental_div_mod(yp, 400);
    lemma_mod_division_less_than_divisor(yp, 400);
    assert(yoe == yp % 400);
    assert(0 <= yoe < 400);
    lemma_fundamental_div_mod_converse(1969, 400, 4, 369);
    lemma_div_is_ordered(1969, yp, 400);
    lemma_fundamental_div_mod_converse(9998, 400, 24, 398);
    lemma_div_is_ordered(yp, 9998, 400);
    assert(4 <= era <= 24);
    lemma_mod_division_less_than_divisor(yoe, 4);
    lemma_mod_division_less_than_divisor(yoe, 100);
    lemma_fundamental_div_mod(yoe, 4);
    lemma_fundamental_div_mod(yoe, 100);
    lemma_fundamental_div_mod_converse(399, 4, 99, 3);
    lemma_div_is_ordered(yoe, 399, 4);
    lemma_fundamental_div_mod_converse(399, 100, 3, 99);
    lemma_div_is_ordered(yoe, 399, 100);
    assert(yoe / 4 <= 99);
    assert(yoe / 100 <= 3);
    assert(0 <= yoe / 4);
    assert(0 <= yoe / 100);
    if era == 4 {
        assert(yoe == yp - 1600);
        assert(yoe >= 369);
        lemma_fundamental_div_mod_converse(369, 4, 92, 1);
        lemma_div_is_ordered(369, yoe, 4);
        assert(yoe / 4 >= 92);
        assert(jan4_epoch_day(y) >= 4 * 146097 + 369 * 365 + 92 - 3 + 309 - 719468);
    } else {
        assert(era >= 5);
        assert(jan4_epoch_day(y) >= 5 * 146097 + 0 + 0 - 3 + 309 - 719468);
    }
    assert(jan4_epoch_day(y) <= 24 * 146097 + 399 * 365 + 99 - 0 + 309 - 719468);
}

/// The window of any supported ISO week opens on a Friday at 00:00:00 UTC
/// and closes on a Monday at 00:00:00 UTC exactly three days later.
pub proof fn lemma_window_on_weekend(y: int, w: int)
    requires
        1970 <= y <= 9999,
        1 <= w <= 53,
    ensures
        window_start(y, w) % 86400 == 0,
        weekday_of(window_start(y, w) / 86400) == 4,
        window_end(y, w) == window_start(y, w) + 3 * 86400,
        window_end(y, w) % 86400 == 0,
        weekday_of(window_end(y, w) / 86400) == 0,
{
    let j = jan4_epoch_day(y);
    let q = j + 3;
    lemma_jan4_bounds(y);
    lemma_fundamental_div_mod(q, 7);
    lemma_mod_division_less_than_divisor(q, 7);
    let f = iso_friday(y, w);
    assert(f == 7 * (q / 7) + 7 * (w - 1) + 4 - 3);
    let s = window_start(y, w);
    lemma_fundamental_div_mod_converse(s, 86400, f, 0);
    assert(f + 3 == 7 * (q / 7 + w - 1) + 4);
    lemma_fundamental_div_mod_converse(f + 3, 7, q / 7 + w - 1, 4);
    assert(weekday_of(f) == 4);
    let e = window_end(y, w);
    assert(e == (f + 3) * 86400);
    lemma_fundamental_div_mod_converse(e, 86400, f + 3, 0);
    assert(f + 6 == 7 * (q / 7 + w));
    lemma_fundamental_div_mod_converse(f + 6, 7, q / 7 + w, 0);
    assert(weekday_of(f + 3) == 0);
}

/// Computes the `[start, end)` window in UTC epoch seconds for ISO week
/// `iso_week` of ISO year `iso_year`. Years outside 1970..=9999 and week
/// numbers outside 1..=53 are rejected.
pub fn weekend_window(iso_year: i64, iso_week: u64) -> (r: Option<(u64, u64)>)
    ensures
        r is Some <==> (1970 <= iso_year <= 9999 && 1 <= iso_week <= 53),
        r matches Some(p) ==> p.0 == window_start(iso_year as int, iso_week as int)
            && p.1 == window_end(iso_year as int, iso_week as int),
{
    if !(1970 <= iso_year && iso_year <= 9999) {
        return None;
    }
    if !(1 <= iso_week && iso_week <= 53) {
        return None;
    }
    proof {
        lemma_jan4_bounds(iso_year as int);
    }
    let yp: u64 = (iso_year - 1) as u64;
    let era: u64 = yp / 400;
    let yoe: u64 = yp - era * 400;
    let gain: u64 = era * 146097 + yoe * 365 + yoe / 4 + 309;
    let loss: u64 = yoe / 100 + 719468;
    let jan4: u64 = gain - loss;
    assert(jan4 == jan4_epoch_day(iso_year as int));
    let wd: u64 = (jan4 + 3) % 7;
    proof {
        lemma_mod_division_less_than_divisor(jan4 + 3, 7);
    }
    let friday: u64 = jan4 + 7 * (iso_week - 1) + 4 - wd;
    assert(friday == iso_friday(iso_year as int, iso_week as int));
    let start: u64 = friday * 86400;
    Some((start, start + 259200))
}

/// Relies on chrono (`Local::now`, `Datelike::iso_week`) for the ISO
/// week-date of the current local date, read once so that year and week
/// agree. Chrono documents that a week number is always 1 through 53.
#[verifier::external_body]
fn now_iso_week() -> (r: (i64, u64))
    ensures
        1 <= r.1 <= 53,
{
    let now = chrono::offset::Local::now();
    let week = chrono::Datelike::iso_week(&now);
    (week.year() as i64, week.week() as u64)
}

/// The announcement window for the moment of invocation. The ISO week-date
/// is read from the clock once and both ends of the window derive from it;
/// whatever the clock says, a returned window is the weekend window of some
/// supported ISO week.
pub fn current_weekend_window() -> (r: Option<(u64, u64)>)
    ensures
        r matches Some(p) ==> exists|y: int, w: int|
            1970 <= y <= 9999 && 1 <= w <= 53 && p.0 == window_start(y, w) && p.1
                == window_end(y, w),
{
    let (year, week) = now_iso_week();
    let r = weekend_window(year, week);
    proof {
        if r is Some {
            let p = r->0;
            assert(1970 <= year as int <= 9999 && 1 <= week as int <= 53 && p.0
                == window_start(year as int, week as int) && p.1
                == window_end(year as int, week as int));
        }
    }
    r
}

} // verus!
