//! Expanding events over a time range: which occurrences of a recurring
//! event fall inside it.
//!
//! Instants are nanoseconds since the Unix epoch (UTC).
use vstd::prelude::*;
use chrono::{Datelike, Timelike};
use crate::caldav::{
    clone_event, strings_view, CalendarEvent, DateTimeModel, EventModel, EventRecurrence, RecurrenceModel,
};
use crate::caldav::ical::weekday_index;
use crate::caldav::dav::events_view;
use crate::caldav::clock::{
    chrono_date_fields, chrono_instant, chrono_rfc3339_instant, compact_utc_instant,
    event_datetime_to_utc, in_chrono, in_chrono_range, is_utc_text, opt_instant, parse_until_utc,
    shift_event_datetime, shifted_time, datetime_read, until_text_read,
};
use crate::text::{chars_of, eq_str};

verus! {

/// Nanoseconds in a day.
pub const DAY_NS: i128 = 86_400_000_000_000;

/// Nanoseconds in a week.
pub const WEEK_NS: i128 = 604_800_000_000_000;

/// A bound on the instants the expansion works with: every instant chrono
/// can represent (years -262,143 to 262,142) lies within it.
pub const SPAN_NS: i128 = 9_000_000_000_000_000_000_000;

/// Months beyond which no date exists (chrono's years end at ±262,143).
pub const MONTHS_LIMIT: i32 = 7_000_000;

/// An occurrence `[start, end)` overlaps the range `[range_start, range_end)`.
pub open spec fn overlaps(start: int, end: int, range_start: int, range_end: int) -> bool {
    start < range_end && end > range_start
}

/// A candidate is past the rule's UNTIL, or the rule's COUNT is used up.
pub open spec fn beyond_limits(candidate: int, until: Option<int>, count_limit: Option<u32>, count: int) -> bool {
    (until is Some && candidate > until->0) || (count_limit is Some && count >= count_limit->0)
}

/// The Monday-based weekday of an instant (1970-01-01 was a Thursday).
pub open spec fn weekday_of(t: int) -> int {
    (t / (DAY_NS as int) + 3) % 7
}

/// The same time of day on the Monday of the instant's week.
pub open spec fn start_of_week(t: int) -> int {
    t - weekday_of(t) * (DAY_NS as int)
}

/// The weekday code of an instant.
pub open spec fn weekday_code_of(t: int) -> Seq<char> {
    let d = weekday_of(t);
    if d == 0 {
        "MO"@
    } else if d == 1 {
        "TU"@
    } else if d == 2 {
        "WE"@
    } else if d == 3 {
        "TH"@
    } else if d == 4 {
        "FR"@
    } else if d == 5 {
        "SA"@
    } else {
        "SU"@
    }
}

// ===================== Daily =====================

/// Occurrence starts of a daily rule from the candidate `c`, the `k`-th.
pub open spec fn daily_from(
    c: int,
    k: int,
    step: int,
    dur: int,
    until: Option<int>,
    limit: Option<u32>,
    rs: int,
    re: int,
) -> Seq<int>
    decreases (if c < re { re - c } else { 0 }),
    when step > 0
{
    if beyond_limits(c, until, limit, k) || c >= re {
        seq![]
    } else {
        let rest = daily_from(c + step, k + 1, step, dur, until, limit, rs, re);
        if overlaps(c, c + dur, rs, re) {
            seq![c] + rest
        } else {
            rest
        }
    }
}

// ===================== Weekly =====================

/// Occurrences found so far, candidates counted, and whether a limit ended the rule.
pub struct WeekState {
    pub occ: Seq<int>,
    pub count: int,
    pub stopped: bool,
}

/// Effect of the weekday codes `codes[j..]` in the week starting at `wc`.
pub open spec fn weekly_codes(
    s: WeekState,
    codes: Seq<Seq<char>>,
    j: int,
    wc: int,
    base: int,
    dur: int,
    until: Option<int>,
    limit: Option<u32>,
    rs: int,
    re: int,
) -> WeekState
    decreases codes.len() - j,
{
    if j >= codes.len() || s.stopped {
        s
    } else {
        let next = match weekday_index(codes[j]) {
            None => s,
            Some(d) => {
                let c = wc + (d as int) * (DAY_NS as int);
                if c < base {
                    s
                } else if beyond_limits(c, until, limit, s.count) {
                    WeekState { stopped: true, ..s }
                } else if c >= re {
                    s
                } else {
                    WeekState {
                        occ: if overlaps(c, c + dur, rs, re) {
                            s.occ.push(c)
                        } else {
                            s.occ
                        },
                        count: s.count + 1,
                        stopped: false,
                    }
                }
            },
        };
        weekly_codes(next, codes, j + 1, wc, base, dur, until, limit, rs, re)
    }
}

/// Effect of the weeks from the `w`-th on, starting at `wc`.
pub open spec fn weekly_from(
    s: WeekState,
    w: int,
    wc: int,
    interval: int,
    codes: Seq<Seq<char>>,
    base: int,
    dur: int,
    until: Option<int>,
    limit: Option<u32>,
    rs: int,
    re: int,
) -> WeekState
    decreases (if wc < re { re - wc } else { 0 }),
{
    if s.stopped || wc >= re {
        s
    } else {
        let after = if w % interval == 0 {
            weekly_codes(s, codes, 0, wc, base, dur, until, limit, rs, re)
        } else {
            s
        };
        weekly_from(after, w + 1, wc + (WEEK_NS as int), interval, codes, base, dur, until, limit, rs, re)
    }
}

// ===================== Monthly =====================

/// Nanoseconds in a second.
pub const SECOND_NS: i128 = 1_000_000_000;

/// Seconds beyond which chrono has no instant (its years end at ±262,143).
pub const CHRONO_SECS: i64 = 8_400_000_000_000;

/// The first second chrono can hold (year -262,143).
pub const CHRONO_MIN_SECS: i64 = -8_334_601_228_800;

/// The last second chrono can hold (year 262,142).
pub const CHRONO_MAX_SECS: i64 = 8_210_266_876_799;

/// Days from the start of the 400-year era to March 1 of the year `y2`
/// counted from March (so that February closes it).
pub open spec fn march_days(y2: int) -> int {
    let era = y2 / 400;
    let yoe = y2 - era * 400;
    era * 146097 + yoe * 365 + yoe / 4 - yoe / 100
}

/// Days from 1970-01-01 to a date of the proleptic Gregorian calendar
/// (counted in 400-year eras of 146,097 days, each year from March on).
pub open spec fn days_from_civil(y: int, m: int, d: int) -> int {
    let y2 = if m <= 2 { y - 1 } else { y };
    let mp = if m > 2 { m - 3 } else { m + 9 };
    march_days(y2) + (153 * mp + 2) / 5 + d - 1 - 719468
}

/// The date of the proleptic Gregorian calendar `z` days after 1970-01-01,
/// as (year, month from 1, day).
pub open spec fn civil_from_days(z: int) -> (int, int, int) {
    let z2 = z + 719468;
    let era = z2 / 146097;
    let doe = z2 - era * 146097;
    let yoe = (doe - doe / 1460 + doe / 36524 - doe / 146096) / 365;
    let doy = doe - (365 * yoe + yoe / 4 - yoe / 100);
    let mp = (5 * doy + 2) / 153;
    let d = doy - (153 * mp + 2) / 5 + 1;
    let m = if mp < 10 { mp + 3 } else { mp - 9 };
    (yoe + era * 400 + if m <= 2 { 1int } else { 0int }, m, d)
}

/// The UTC calendar fields (year, month from 0, day, hour, minute, second)
/// of the instant with the given Unix seconds, as chrono reads them.
#[verifier::opaque]
pub open spec fn chrono_utc_fields(secs: int) -> (int, int, int, int, int, int) {
    let (y, m, d) = civil_from_days(secs / 86400);
    let sod = secs % 86400;
    (y, m - 1, d, sod / 3600, sod % 3600 / 60, sod % 60)
}

/// Gregorian leap year.
pub open spec fn leap_year(y: int) -> bool {
    (y % 4 == 0 && y % 100 != 0) || y % 400 == 0
}

/// Days in a month of the proleptic Gregorian calendar.
pub open spec fn days_in_month(y: int, m: int) -> int {
    if m == 2 {
        if leap_year(y) {
            29
        } else {
            28
        }
    } else if m == 4 || m == 6 || m == 9 || m == 11 {
        30
    } else {
        31
    }
}

/// The last day of a month (1-based), found as the day before the first of
/// the next month: `None` when that first day lies outside chrono's years
/// (-262143 to 262142).
pub open spec fn month_last_day(year: int, month: int) -> Option<int> {
    if month == 12 {
        if -262_143 <= year <= 262_141 {
            Some(31)
        } else {
            None
        }
    } else if -262_143 <= year <= 262_142 {
        Some(days_in_month(year, month))
    } else {
        None
    }
}

/// The Unix seconds of a UTC date and time, as chrono computes them; `None`
/// when chrono has no such date or time of day.
#[verifier::opaque]
pub open spec fn chrono_utc_seconds(year: int, month: int, day: int, hour: int, minute: int, second: int) -> Option<int> {
    if chrono_date(year, month, day) && 0 <= hour < 24 && 0 <= minute < 60 && 0 <= second < 60 {
        Some(days_from_civil(year, month, day) * 86400 + hour * 3600 + minute * 60 + second)
    } else {
        None
    }
}

/// The first day of the month with the given index.
pub open spec fn first_day(k: int) -> int {
    days_from_civil(k / 12, k % 12 + 1, 1)
}

/// Days in the month with the given index.
pub open spec fn month_length(k: int) -> int {
    days_in_month(k / 12, k % 12 + 1)
}

/// Whether a year of an era is a leap year depends on its place in the era.
proof fn lemma_leap_in_era(era: int, j: int)
    requires
        0 < j <= 400,
    ensures
        leap_year(era * 400 + j) == ((j % 4 == 0 && j % 100 != 0) || j == 400),
{
    let y = era * 400 + j;
    vstd::arithmetic::div_mod::lemma_fundamental_div_mod_converse(y, 4, era * 100 + j / 4, j % 4);
    vstd::arithmetic::div_mod::lemma_fundamental_div_mod_converse(y, 100, era * 4 + j / 100, j % 100);
    if j < 400 {
        vstd::arithmetic::div_mod::lemma_fundamental_div_mod_converse(y, 400, era, j);
    } else {
        vstd::arithmetic::div_mod::lemma_fundamental_div_mod_converse(y, 400, era + 1, 0);
    }
}

proof fn lemma_march_days_step(y: int)
    ensures
        march_days(y + 1) == march_days(y) + 365 + if leap_year(y + 1) { 1int } else { 0int },
{
    let era = y / 400;
    let yoe = y - era * 400;
    vstd::arithmetic::div_mod::lemma_fundamental_div_mod(y, 400);
    assert(0 <= yoe < 400);
    lemma_leap_in_era(era, yoe + 1);
    if yoe < 399 {
        vstd::arithmetic::div_mod::lemma_fundamental_div_mod_converse(y + 1, 400, era, yoe + 1);
        assert((yoe + 1) / 4 - yoe / 4 == if (yoe + 1) % 4 == 0 { 1int } else { 0int });
        assert((yoe + 1) / 100 - yoe / 100 == if (yoe + 1) % 100 == 0 { 1int } else { 0int });
    } else {
        vstd::arithmetic::div_mod::lemma_fundamental_div_mod_converse(y + 1, 400, era + 1, 0);
    }
}

proof fn lemma_days_from_civil_day(y: int, m: int, d: int)
    ensures
        days_from_civil(y, m, d) == days_from_civil(y, m, 1) + d - 1,
{
}

/// The first day of the next month is the first day of this one plus its
/// length.
proof fn lemma_first_day_step(k: int)
    ensures
        first_day(k + 1) == first_day(k) + month_length(k),
        28 <= month_length(k) <= 31,
{
    let y = k / 12;
    let m = k % 12 + 1;
    assert(0 <= k % 12 < 12);
    if m < 12 {
        assert((k + 1) / 12 == y);
        assert((k + 1) % 12 + 1 == m + 1);
        if m == 2 {
            lemma_march_days_step(y - 1);
            assert(march_days(y - 1 + 1) == march_days(y));
        }
        assert(days_from_civil(y, m + 1, 1) == days_from_civil(y, m, 1) + days_in_month(y, m));
    } else {
        assert((k + 1) / 12 == y + 1);
        assert((k + 1) % 12 + 1 == 1);
        assert(days_from_civil(y + 1, 1, 1) == days_from_civil(y, 12, 1) + 31);
    }
}

/// Later months start later: at least the length of the earlier month later.
proof fn lemma_first_day_grows(k1: int, k2: int)
    requires
        k1 < k2,
    ensures
        first_day(k2) >= first_day(k1) + month_length(k1),
    decreases k2 - k1,
{
    lemma_first_day_step(k1);
    if k1 + 1 < k2 {
        lemma_first_day_grows(k1 + 1, k2);
        lemma_first_day_step(k1 + 1);
    }
}

/// Calls `DateTime::from_timestamp(secs, 0)` and reads its naive UTC date and
/// time. The contract claims the fields are the proleptic Gregorian reading
/// of the seconds (`chrono_utc_fields`), that they name that very second
/// again, and that they lie in chrono's ranges.
#[verifier::external_body]
pub(crate) fn utc_fields(secs: i64) -> (r: (i32, u32, u32, u32, u32, u32))
    requires
        CHRONO_MIN_SECS <= secs <= CHRONO_MAX_SECS,
    ensures
        (r.0 as int, r.1 as int, r.2 as int, r.3 as int, r.4 as int, r.5 as int) == chrono_utc_fields(secs as int),
        chrono_utc_seconds(r.0 as int, r.1 + 1, r.2 as int, r.3 as int, r.4 as int, r.5 as int) == Some(secs as int),
        -262_143 <= r.0 <= 262_142,
        r.1 < 12,
        1 <= r.2 <= 31,
        r.3 < 24,
        r.4 < 60,
        r.5 < 60,
{
    let n = chrono::DateTime::from_timestamp(secs, 0).unwrap_or_default().naive_utc();
    (n.year(), n.month0(), n.day(), n.hour(), n.minute(), n.second())
}

/// The last day of a month: the day before the first of the next month.
/// December of year -262144 is left out: the first of the next month is
/// chrono's first day, and the day before it does not exist.
pub(crate) fn last_day_of_month(year: i32, month: u32) -> (r: Option<u32>)
    requires
        1 <= month <= 12,
        !(year == -262_144 && month == 12),
    ensures
        match r {
            Some(d) => month_last_day(year as int, month as int) == Some(d as int) && 28 <= d <= 31,
            None => month_last_day(year as int, month as int) is None,
        },
        year > 262_142 ==> r is None,
{
    if month == 12 {
        if -262_143 <= year && year <= 262_141 {
            Some(31)
        } else {
            None
        }
    } else if year < -262_143 || year > 262_142 {
        None
    } else if month == 2 {
        let yp: u64 = (year as i64 + 400_000) as u64;
        proof {
            let y = year as int;
            assert(yp as int == y + 400_000);
            assert((y + 400_000) % 4 == y % 4 && (y + 400_000) % 100 == y % 100 && (y + 400_000) % 400
                == y % 400) by (nonlinear_arith);
        }
        if (yp % 4 == 0 && yp % 100 != 0) || yp % 400 == 0 {
            Some(29)
        } else {
            Some(28)
        }
    } else if month == 4 || month == 6 || month == 9 || month == 11 {
        Some(30)
    } else {
        Some(31)
    }
}

/// A calendar date that chrono's `NaiveDate` holds (`NaiveDate::from_ymd_opt`
/// is `Some`): years -262143 to 262142, a month, and a day of that month.
pub open spec fn chrono_date(y: int, m: int, d: int) -> bool {
    -262_143 <= y <= 262_142 && 1 <= m <= 12 && 1 <= d <= days_in_month(y, m)
}

/// Calls `NaiveDate::from_ymd_opt(..).and_hms_opt(..)` and takes the Unix
/// seconds of that UTC time. The contract claims the result is the count of
/// seconds from 1970-01-01 in the proleptic Gregorian calendar
/// (`chrono_utc_seconds`), that it lies in chrono's range, and that it
/// exists exactly when chrono has the date and the time of day.
#[verifier::external_body]
pub(crate) fn utc_seconds(year: i32, month: u32, day: u32, hour: u32, minute: u32, second: u32) -> (r: Option<i64>)
    ensures
        match r {
            Some(s) => chrono_utc_seconds(year as int, month as int, day as int, hour as int, minute as int, second as int)
                == Some(s as int) && CHRONO_MIN_SECS <= s <= CHRONO_MAX_SECS && chrono_date(
                year as int,
                month as int,
                day as int,
            ) && hour < 24 && minute < 60 && second < 60,
            None => chrono_utc_seconds(year as int, month as int, day as int, hour as int, minute as int, second as int)
                is None && !(chrono_date(year as int, month as int, day as int) && hour < 24 && minute < 60
                && second < 60),
        },
{
    let d = chrono::NaiveDate::from_ymd_opt(year, month, day)?;
    let t = d.and_hms_opt(hour, minute, second)?;
    Some(t.and_utc().timestamp())
}

/// The seconds and sub-second nanoseconds of an instant.
pub open spec fn seconds_of(t: int) -> int {
    t / (SECOND_NS as int)
}

pub(crate) fn split_instant(t: i128) -> (r: (i64, i128))
    requires
        -(CHRONO_SECS as int) * (SECOND_NS as int) <= t <= (CHRONO_SECS as int) * (SECOND_NS as int),
    ensures
        r.0 as int == seconds_of(t as int),
        r.1 == t - r.0 * SECOND_NS,
        0 <= r.1 < SECOND_NS,
{
    let q: i128 = if t >= 0 {
        ((t as u128) / 1_000_000_000u128) as i128
    } else {
        let u: u128 = (-t - 1) as u128;
        -((u / 1_000_000_000u128) as i128) - 1
    };
    let rem: i128 = t - q * SECOND_NS;
    proof {
        let ti = t as int;
        let qi = q as int;
        if t >= 0 {
            assert(qi == ti / 1_000_000_000);
        } else {
            assert(qi == -((-ti - 1) / 1_000_000_000) - 1);
        }
        assert(0 <= ti - qi * 1_000_000_000 < 1_000_000_000 && qi == ti / 1_000_000_000) by (nonlinear_arith)
            requires
                ti >= 0 ==> qi == ti / 1_000_000_000,
                ti < 0 ==> qi == -((-ti - 1) / 1_000_000_000) - 1,
        ;
    }
    (q as i64, rem)
}

/// The instant `months` calendar months after `t` (UTC calendar, time of day
/// kept, day clamped to the month's end, sub-second part dropped).
pub open spec fn add_months(t: int, months: int) -> Option<int> {
    let (year, month0, day, hour, minute, second) = chrono_utc_fields(seconds_of(t));
    let m0 = month0 + months;
    let new_year = year + m0 / 12;
    let new_month = m0 % 12 + 1;
    match month_last_day(new_year, new_month) {
        None => None,
        Some(last) => match chrono_utc_seconds(
            new_year,
            new_month,
            if day < last {
                day
            } else {
                last
            },
            hour,
            minute,
            second,
        ) {
            Some(s) => Some(s * (SECOND_NS as int)),
            None => None,
        },
    }
}

/// The instant `month_offset` months after `base` in UTC.
pub fn add_months_preserving_local(base: i128, month_offset: i32) -> (r: Option<i128>)
    requires
        (CHRONO_MIN_SECS as int) * (SECOND_NS as int) <= base < (CHRONO_MAX_SECS as int + 1) * (SECOND_NS as int),
        0 <= month_offset <= MONTHS_LIMIT,
    ensures
        opt_int(r) == add_months(base as int, month_offset as int),
        match r {
            Some(x) => (CHRONO_MIN_SECS as int) * (SECOND_NS as int) <= x <= (CHRONO_MAX_SECS as int) * (SECOND_NS as int),
            None => true,
        },
        month_offset == MONTHS_LIMIT ==> r is None,
        r matches Some(x) ==> seconds_of(base as int) * (SECOND_NS as int) <= x,
        month_offset > 0 ==> (r matches Some(x) ==> x > base),
{
    let (secs, _) = split_instant(base);
    let (year, month0, day, hour, minute, second) = utc_fields(secs);
    let m0: i32 = month0 as i32 + month_offset;
    let q: i32 = m0 / 12;
    let new_year: i32 = year + q;
    let new_month: u32 = (m0 % 12) as u32 + 1;
    assert(q as int == (m0 as int) / 12 && (m0 % 12) as int == (m0 as int) % 12);
    let last = match last_day_of_month(new_year, new_month) {
        Some(l) => l,
        None => {
            return None;
        },
    };
    let d = if day < last {
        day
    } else {
        last
    };
    match utc_seconds(new_year, new_month, d, hour, minute, second) {
        Some(s) => {
            proof {
                lemma_months_later(
                    secs as int,
                    s as int,
                    (year as int, month0 as int, day as int, hour as int, minute as int, second as int),
                    month_offset as int,
                    new_year as int,
                    new_month as int,
                    d as int,
                );
            }
            Some(s as i128 * SECOND_NS)
        },
        None => None,
    }
}

/// A date-time moved `off` months on, its day kept or clamped to the end of
/// the month, is not earlier; one month or more on, it is at least a day
/// later.
proof fn lemma_months_later(
    secs: int,
    s: int,
    f: (int, int, int, int, int, int),
    off: int,
    ny: int,
    nm: int,
    nd: int,
)
    requires
        chrono_utc_seconds(f.0, f.1 + 1, f.2, f.3, f.4, f.5) == Some(secs),
        chrono_utc_seconds(ny, nm, nd, f.3, f.4, f.5) == Some(s),
        off >= 0,
        0 <= f.1 < 12,
        1 <= nm <= 12,
        ny * 12 + (nm - 1) == f.0 * 12 + f.1 + off,
        nd == f.2 || (nd < f.2 && nd == days_in_month(ny, nm)),
    ensures
        s >= secs,
        off > 0 ==> s >= secs + 86400,
{
    reveal(chrono_utc_seconds);
    let k = f.0 * 12 + f.1;
    let k2 = ny * 12 + (nm - 1);
    vstd::arithmetic::div_mod::lemma_fundamental_div_mod_converse(k, 12, f.0, f.1);
    vstd::arithmetic::div_mod::lemma_fundamental_div_mod_converse(k2, 12, ny, nm - 1);
    lemma_days_from_civil_day(f.0, f.1 + 1, f.2);
    lemma_days_from_civil_day(ny, nm, nd);
    if off == 0 {
        assert(ny == f.0 && nm == f.1 + 1);
    } else {
        lemma_first_day_grows(k, k2);
    }
}

/// Occurrence starts of a monthly rule from month offset `m`, `k` counted.
pub open spec fn monthly_from(
    m: int,
    k: int,
    base: int,
    interval: int,
    dur: int,
    until: Option<int>,
    limit: Option<u32>,
    rs: int,
    re: int,
) -> Seq<int>
    decreases MONTHS_LIMIT - m,
{
    if m >= MONTHS_LIMIT {
        seq![]
    } else {
        match add_months(base, m) {
            None => seq![],
            Some(c) => if m > 0 && m % interval != 0 {
                monthly_from(m + 1, k, base, interval, dur, until, limit, rs, re)
            } else if beyond_limits(c, until, limit, k) || c >= re {
                seq![]
            } else {
                let rest = monthly_from(m + 1, k + 1, base, interval, dur, until, limit, rs, re);
                if overlaps(c, c + dur, rs, re) {
                    seq![c] + rest
                } else {
                    rest
                }
            },
        }
    }
}


// ===================== Occurrence starts =====================

/// An optional instant as an integer.
pub open spec fn opt_int(o: Option<i128>) -> Option<int> {
    match o {
        Some(x) => Some(x as int),
        None => None,
    }
}

/// Instants as integers.
pub open spec fn ints(v: Seq<i128>) -> Seq<int> {
    v.map_values(|x: i128| x as int)
}

/// Within the span the expansion works in.
pub open spec fn in_span(t: int) -> bool {
    -(SPAN_NS as int) <= t <= SPAN_NS as int
}

fn beyond(c: i128, until: Option<i128>, limit: Option<u32>, count: u64) -> (r: bool)
    ensures
        r == beyond_limits(c as int, opt_int(until), limit, count as int),
{
    let past = match until {
        Some(u) => c > u,
        None => false,
    };
    let used = match limit {
        Some(l) => count >= l as u64,
        None => false,
    };
    past || used
}

/// Starts of the occurrences of a daily rule.
fn daily_occurrences(
    base: i128,
    step: i128,
    dur: i128,
    until: Option<i128>,
    limit: Option<u32>,
    rs: i128,
    re: i128,
) -> (r: Vec<i128>)
    requires
        DAY_NS <= step <= (u32::MAX as int) * (DAY_NS as int),
        in_span(base as int),
        in_span(re as int),
        -2 * SPAN_NS <= dur <= 2 * SPAN_NS,
    ensures
        ints(r@) == daily_from(base as int, 0, step as int, dur as int, opt_int(until), limit, rs as int, re as int),
        forall|i: int| 0 <= i < r@.len() ==> base <= #[trigger] r@[i],
{
    let mut occ: Vec<i128> = Vec::new();
    let mut cursor: i128 = base;
    let mut count: u64 = 0;
    let ghost total = daily_from(base as int, 0, step as int, dur as int, opt_int(until), limit, rs as int, re as int);
    assert(ints(occ@) =~= Seq::<int>::empty());
    if base >= re {
        assert(total == Seq::<int>::empty());
        return occ;
    }
    loop
        invariant
            DAY_NS <= step <= (u32::MAX as int) * (DAY_NS as int),
            in_span(base as int),
            in_span(re as int),
            -2 * SPAN_NS <= dur <= 2 * SPAN_NS,
            cursor as int == base as int + (count as int) * (step as int),
            base <= cursor,
            cursor < re + step,
            total == daily_from(base as int, 0, step as int, dur as int, opt_int(until), limit, rs as int, re as int),
            total == ints(occ@) + daily_from(cursor as int, count as int, step as int, dur as int, opt_int(until), limit, rs as int, re as int),
            forall|i: int| 0 <= i < occ@.len() ==> base <= #[trigger] occ@[i],
        ensures
            total == ints(occ@),
            forall|i: int| 0 <= i < occ@.len() ==> base <= #[trigger] occ@[i],
        decreases re - cursor + step,
    {
        if beyond(cursor, until, limit, count) || cursor >= re {
            assert(daily_from(cursor as int, count as int, step as int, dur as int, opt_int(until), limit, rs as int, re as int)
                == Seq::<int>::empty());
            assert(ints(occ@) + Seq::<int>::empty() =~= ints(occ@));
            break;
        }
        assert((count as int) * (step as int) < 2 * (SPAN_NS as int) + step);
        assert(count < 300_000_000) by (nonlinear_arith)
            requires
                (count as int) * (step as int) < 2 * (SPAN_NS as int) + step,
                step >= DAY_NS,
                DAY_NS == 86_400_000_000_000,
                SPAN_NS == 9_000_000_000_000_000_000_000,
        ;
        let ghost before = ints(occ@);
        if cursor < re && cursor + dur > rs {
            occ.push(cursor);
            assert(ints(occ@) =~= before.push(cursor as int));
            assert(before + (seq![cursor as int] + daily_from(cursor + step, count + 1, step as int, dur as int, opt_int(until), limit, rs as int, re as int))
                =~= ints(occ@) + daily_from(cursor + step, count + 1, step as int, dur as int, opt_int(until), limit, rs as int, re as int));
        }
        assert((count as int + 1) * (step as int) == (count as int) * (step as int) + step as int) by (nonlinear_arith);
        cursor = cursor + step;
        count = count + 1;
    }
    occ
}


fn floor_day(t: i128) -> (d: i128)
    requires
        -100_000_000_000_000_000_000_000 <= t <= 100_000_000_000_000_000_000_000,
    ensures
        d as int == (t as int) / (DAY_NS as int),
        -2_000_000_000 <= d <= 2_000_000_000,
{
    let q: i128 = if t >= 0 {
        ((t as u128) / 86_400_000_000_000u128) as i128
    } else {
        let u: u128 = (-t - 1) as u128;
        -((u / 86_400_000_000_000u128) as i128) - 1
    };
    proof {
        let ti = t as int;
        let qi = q as int;
        if t >= 0 {
            assert(qi == ti / 86_400_000_000_000);
        } else {
            assert(qi == -((-ti - 1) / 86_400_000_000_000) - 1);
        }
        assert(qi == ti / 86_400_000_000_000 && -2_000_000_000 <= qi <= 2_000_000_000) by (nonlinear_arith)
            requires
                ti >= 0 ==> qi == ti / 86_400_000_000_000,
                ti < 0 ==> qi == -((-ti - 1) / 86_400_000_000_000) - 1,
                -100_000_000_000_000_000_000_000 <= ti <= 100_000_000_000_000_000_000_000,
        ;
    }
    q
}

/// The Monday-based weekday of an instant.
pub(crate) fn weekday_number(t: i128) -> (r: i128)
    requires
        -100_000_000_000_000_000_000_000 <= t <= 100_000_000_000_000_000_000_000,
    ensures
        r as int == weekday_of(t as int),
        0 <= r < 7,
{
    let d = floor_day(t);
    let shifted: i128 = d + 3 + 7_000_000_000;
    let r = ((shifted as u128) % 7u128) as i128;
    proof {
        let di = d as int;
        assert((di + 3 + 7_000_000_000) % 7 == (di + 3) % 7) by (nonlinear_arith);
    }
    r
}

/// The weekday code of an instant.
fn weekday_code_from_datetime(t: i128) -> (r: String)
    requires
        in_span(t as int),
    ensures
        r@ == weekday_code_of(t as int),
{
    let d = weekday_number(t);
    let code = if d == 0 {
        "MO"
    } else if d == 1 {
        "TU"
    } else if d == 2 {
        "WE"
    } else if d == 3 {
        "TH"
    } else if d == 4 {
        "FR"
    } else if d == 5 {
        "SA"
    } else {
        "SU"
    };
    crate::text::string_of(&crate::text::chars_of(code))
}

/// The state before any week is read.
pub open spec fn week_start_state() -> WeekState {
    WeekState { occ: seq![], count: 0, stopped: false }
}

/// Starts of the occurrences of a weekly rule on the given weekday codes.
fn weekly_occurrences(
    base: i128,
    interval: u32,
    codes: &Vec<String>,
    dur: i128,
    until: Option<i128>,
    limit: Option<u32>,
    rs: i128,
    re: i128,
) -> (r: Vec<i128>)
    requires
        interval >= 1,
        codes@.len() <= u32::MAX,
        in_span(base as int),
        in_span(re as int),
        -2 * SPAN_NS <= dur <= 2 * SPAN_NS,
    ensures
        ints(r@) == weekly_from(
            week_start_state(),
            0,
            start_of_week(base as int),
            interval as int,
            strings_view(codes@),
            base as int,
            dur as int,
            opt_int(until),
            limit,
            rs as int,
            re as int,
        ).occ,
        forall|i: int| 0 <= i < r@.len() ==> base <= #[trigger] r@[i],
{
    let ghost cv = strings_view(codes@);
    let wd = weekday_number(base);
    let sow: i128 = base - wd * DAY_NS;
    let ghost total = weekly_from(
        week_start_state(),
        0,
        sow as int,
        interval as int,
        cv,
        base as int,
        dur as int,
        opt_int(until),
        limit,
        rs as int,
        re as int,
    );
    let mut occ: Vec<i128> = Vec::new();
    let mut count: u64 = 0;
    let mut w: u32 = 0;
    let mut wc: i128 = sow;
    assert(ints(occ@) =~= Seq::<int>::empty());
    while wc < re
        invariant
            interval >= 1,
            codes@.len() <= u32::MAX,
            cv == strings_view(codes@),
            total == weekly_from(week_start_state(), 0, sow as int, interval as int, cv, base as int, dur as int, opt_int(until), limit, rs as int, re as int),
            in_span(base as int),
            in_span(re as int),
            -2 * SPAN_NS <= dur <= 2 * SPAN_NS,
            sow as int == start_of_week(base as int),
            sow <= base,
            base - sow < WEEK_NS,
            wc as int == sow as int + (w as int) * (WEEK_NS as int),
            (count as int) <= (codes@.len() as int) * (w as int),
            forall|i: int| 0 <= i < occ@.len() ==> base <= #[trigger] occ@[i],
            total == weekly_from(
                WeekState { occ: ints(occ@), count: count as int, stopped: false },
                w as int,
                wc as int,
                interval as int,
                cv,
                base as int,
                dur as int,
                opt_int(until),
                limit,
                rs as int,
                re as int,
            ),
        decreases re - wc + WEEK_NS,
    {
        assert((w as int) * (WEEK_NS as int) < 2 * (SPAN_NS as int) + WEEK_NS);
        assert(w < 30_000_000) by (nonlinear_arith)
            requires
                (w as int) * (WEEK_NS as int) < 2 * (SPAN_NS as int) + WEEK_NS,
                WEEK_NS == 604_800_000_000_000,
                SPAN_NS == 9_000_000_000_000_000_000_000,
        ;
        let ghost s0 = WeekState { occ: ints(occ@), count: count as int, stopped: false };
        if w % interval == 0 {
            let mut j: usize = 0;
            while j < codes.len()
                invariant
                    interval >= 1,
                    codes@.len() <= u32::MAX,
                    cv == strings_view(codes@),
                total == weekly_from(week_start_state(), 0, sow as int, interval as int, cv, base as int, dur as int, opt_int(until), limit, rs as int, re as int),
                    in_span(base as int),
                    in_span(re as int),
                    -2 * SPAN_NS <= dur <= 2 * SPAN_NS,
                    wc < re,
                    in_span(wc as int) || wc >= -(SPAN_NS as int) - WEEK_NS,
                    wc <= base || wc as int == sow as int + (w as int) * (WEEK_NS as int),
                    wc as int == sow as int + (w as int) * (WEEK_NS as int),
                    sow as int == start_of_week(base as int),
                    sow <= base,
                    base - sow < WEEK_NS,
                    w < 30_000_000,
                    (w as int) % (interval as int) == 0,
                    total == weekly_from(s0, w as int, wc as int, interval as int, cv, base as int, dur as int, opt_int(until), limit, rs as int, re as int),
                    !s0.stopped,
                    j <= codes.len(),
                    (count as int) <= (codes@.len() as int) * (w as int) + j,
                    forall|i: int| 0 <= i < occ@.len() ==> base <= #[trigger] occ@[i],
                    weekly_codes(s0, cv, 0, wc as int, base as int, dur as int, opt_int(until), limit, rs as int, re as int)
                        == weekly_codes(
                        WeekState { occ: ints(occ@), count: count as int, stopped: false },
                        cv,
                        j as int,
                        wc as int,
                        base as int,
                        dur as int,
                        opt_int(until),
                        limit,
                        rs as int,
                        re as int,
                    ),
                decreases codes.len() - j,
            {
                let ghost cur = WeekState { occ: ints(occ@), count: count as int, stopped: false };
                assert(cv[j as int] == codes@[j as int]@);
                match crate::caldav::ical::weekday_code_to_index(codes[j].as_str()) {
                    None => {},
                    Some(d) => {
                        let c: i128 = wc + (d as i128) * DAY_NS;
                        if c < base {
                        } else if beyond(c, until, limit, count) {
                            proof {
                                let stopped = WeekState { stopped: true, ..cur };
                                assert(weekly_codes(cur, cv, j as int, wc as int, base as int, dur as int, opt_int(until), limit, rs as int, re as int)
                                    == weekly_codes(stopped, cv, j + 1, wc as int, base as int, dur as int, opt_int(until), limit, rs as int, re as int));
                                assert(total == weekly_from(
                                    weekly_codes(s0, cv, 0, wc as int, base as int, dur as int, opt_int(until), limit, rs as int, re as int),
                                    w + 1, wc + WEEK_NS, interval as int, cv, base as int, dur as int, opt_int(until), limit, rs as int, re as int));
                                assert(weekly_codes(stopped, cv, j + 1, wc as int, base as int, dur as int, opt_int(until), limit, rs as int, re as int) == stopped);
                                assert(weekly_from(stopped, w + 1, wc + WEEK_NS, interval as int, cv, base as int, dur as int, opt_int(until), limit, rs as int, re as int) == stopped);
                                assert(total == stopped);
                                assert(total.occ == ints(occ@));
                            }
                            return occ;
                        } else if c >= re {
                        } else {
                            assert((count as int) + 1 <= 4_294_967_295 * 30_000_000 + 4_294_967_295) by (nonlinear_arith)
                                requires
                                    (count as int) <= (codes@.len() as int) * (w as int) + j,
                                    codes@.len() <= u32::MAX,
                                    j < codes@.len(),
                                    w < 30_000_000,
                            ;
                            if c + dur > rs {
                                let ghost before = ints(occ@);
                                occ.push(c);
                                assert(ints(occ@) =~= before.push(c as int));
                            }
                            count = count + 1;
                        }
                    },
                }
                j = j + 1;
            }
            assert((count as int) <= (codes@.len() as int) * (w as int + 1)) by (nonlinear_arith)
                requires
                    (count as int) <= (codes@.len() as int) * (w as int) + codes@.len(),
            ;
        } else {
            assert((count as int) <= (codes@.len() as int) * (w as int + 1)) by (nonlinear_arith)
                requires
                    (count as int) <= (codes@.len() as int) * (w as int),
            ;
        }
        assert((w as int + 1) * (WEEK_NS as int) == (w as int) * (WEEK_NS as int) + WEEK_NS) by (nonlinear_arith);
        wc = wc + WEEK_NS;
        w = w + 1;
    }
    occ
}


/// Starts of the occurrences of a monthly rule.
fn monthly_occurrences(
    base: i128,
    interval: u32,
    dur: i128,
    until: Option<i128>,
    limit: Option<u32>,
    rs: i128,
    re: i128,
) -> (r: Vec<i128>)
    requires
        interval >= 1,
        in_chrono(base as int),
        -2 * SPAN_NS <= dur <= 2 * SPAN_NS,
    ensures
        ints(r@) == monthly_from(0, 0, base as int, interval as int, dur as int, opt_int(until), limit, rs as int, re as int),
        forall|i: int| 0 <= i < r@.len() ==> seconds_of(base as int) * (SECOND_NS as int) <= #[trigger] r@[i],
{
    let mut occ: Vec<i128> = Vec::new();
    let mut count: u64 = 0;
    let mut m: i32 = 0;
    let ghost total = monthly_from(0, 0, base as int, interval as int, dur as int, opt_int(until), limit, rs as int, re as int);
    assert(ints(occ@) =~= Seq::<int>::empty());
    loop
        invariant
            interval >= 1,
            in_chrono(base as int),
            -2 * SPAN_NS <= dur <= 2 * SPAN_NS,
            0 <= m <= MONTHS_LIMIT,
            count <= m,
            total == monthly_from(0, 0, base as int, interval as int, dur as int, opt_int(until), limit, rs as int, re as int),
            total == ints(occ@) + monthly_from(m as int, count as int, base as int, interval as int, dur as int, opt_int(until), limit, rs as int, re as int),
            forall|i: int| 0 <= i < occ@.len() ==> seconds_of(base as int) * (SECOND_NS as int) <= #[trigger] occ@[i],
        ensures
            total == ints(occ@),
            forall|i: int| 0 <= i < occ@.len() ==> seconds_of(base as int) * (SECOND_NS as int) <= #[trigger] occ@[i],
        decreases MONTHS_LIMIT - m,
    {
        let ghost rest = monthly_from(m as int, count as int, base as int, interval as int, dur as int, opt_int(until), limit, rs as int, re as int);
        let candidate = match add_months_preserving_local(base, m) {
            Some(c) => c,
            None => {
                assert(rest == Seq::<int>::empty());
                assert(ints(occ@) + Seq::<int>::empty() =~= ints(occ@));
                break;
            },
        };
        assert(m < MONTHS_LIMIT);
        if m > 0 && (m as u32) % interval != 0 {
            assert((m as int) % (interval as int) != 0);
            m = m + 1;
            continue;
        }
        assert(!(m > 0 && (m as int) % (interval as int) != 0));
        if beyond(candidate, until, limit, count) || candidate >= re {
            assert(rest == Seq::<int>::empty());
            assert(ints(occ@) + Seq::<int>::empty() =~= ints(occ@));
            break;
        }
        let ghost before = ints(occ@);
        let ghost tail = monthly_from(m + 1, count + 1, base as int, interval as int, dur as int, opt_int(until), limit, rs as int, re as int);
        if candidate + dur > rs {
            occ.push(candidate);
            assert(ints(occ@) =~= before.push(candidate as int));
            assert(before + (seq![candidate as int] + tail) =~= ints(occ@) + tail);
        }
        m = m + 1;
        count = count + 1;
    }
    occ
}

// ===================== Any rule =====================

/// The interval a rule steps by (absent or zero counts as one).
pub open spec fn effective_interval(rec: RecurrenceModel) -> int {
    match rec.interval {
        Some(i) => if i >= 1 {
            i as int
        } else {
            1
        },
        None => 1,
    }
}

/// The weekday codes a weekly rule runs on: its BYDAY list, or the weekday
/// of the first occurrence.
pub open spec fn weekly_days(rec: RecurrenceModel, base: int) -> Seq<Seq<char>> {
    if rec.by_day.len() == 0 {
        seq![weekday_code_of(base)]
    } else {
        rec.by_day
    }
}

/// Starts of the occurrences of a rule whose first occurrence starts at
/// `base` and lasts `dur`, that overlap `[rs, re)`; `None` for a frequency
/// the expansion does not step through.
pub open spec fn occurrence_starts(
    rec: RecurrenceModel,
    base: int,
    dur: int,
    until: Option<int>,
    rs: int,
    re: int,
) -> Option<Seq<int>> {
    let iv = effective_interval(rec);
    if rec.frequency == "DAILY"@ {
        Some(daily_from(base, 0, iv * (DAY_NS as int), dur, until, rec.count, rs, re))
    } else if rec.frequency == "WEEKLY"@ {
        Some(
            weekly_from(
                week_start_state(),
                0,
                start_of_week(base),
                iv,
                weekly_days(rec, base),
                base,
                dur,
                until,
                rec.count,
                rs,
                re,
            ).occ,
        )
    } else if rec.frequency == "MONTHLY"@ {
        Some(monthly_from(0, 0, base, iv, dur, until, rec.count, rs, re))
    } else {
        None
    }
}

/// The instants an expansion works with lie within its span (every instant
/// chrono holds does), and a monthly rule starts at an instant chrono holds.
pub open spec fn expansion_in_span(rec: RecurrenceModel, base: int, dur: int, re: int) -> bool {
    &&& in_span(base)
    &&& in_span(re)
    &&& 0 <= dur <= 2 * (SPAN_NS as int)
    &&& rec.frequency == "MONTHLY"@ ==> in_chrono(base)
    &&& rec.frequency == "WEEKLY"@ ==> rec.by_day.len() <= u32::MAX
}

/// The starts of the occurrences of `recurrence` in `[rs, re)`. None starts
/// before the second in which the series starts (a monthly occurrence keeps
/// the whole seconds of the first start's time of day).
pub fn recurrence_starts(
    recurrence: &EventRecurrence,
    base: i128,
    dur: i128,
    until: Option<i128>,
    rs: i128,
    re: i128,
) -> (r: Option<Vec<i128>>)
    requires
        expansion_in_span(recurrence@, base as int, dur as int, re as int),
    ensures
        match r {
            Some(v) => occurrence_starts(recurrence@, base as int, dur as int, opt_int(until), rs as int, re as int)
                == Some(ints(v@)),
            None => occurrence_starts(recurrence@, base as int, dur as int, opt_int(until), rs as int, re as int)
                is None,
        },
        r matches Some(v) ==> forall|i: int|
            0 <= i < v@.len() ==> seconds_of(base as int) * (SECOND_NS as int) <= #[trigger] v@[i],
{
    proof {
        vstd::arithmetic::div_mod::lemma_fundamental_div_mod(base as int, SECOND_NS as int);
        assert(seconds_of(base as int) * (SECOND_NS as int) <= base);
    }
    let interval: u32 = match recurrence.interval {
        Some(i) => if i >= 1 {
            i
        } else {
            1
        },
        None => 1,
    };
    let freq = crate::text::chars_of(recurrence.frequency.as_str());
    if crate::text::eq_str(&freq, "DAILY") {
        assert((interval as int) * (DAY_NS as int) <= (u32::MAX as int) * (DAY_NS as int)) by (nonlinear_arith)
            requires
                interval <= u32::MAX,
        ;
        let step: i128 = interval as i128 * DAY_NS;
        Some(daily_occurrences(base, step, dur, until, recurrence.count, rs, re))
    } else if crate::text::eq_str(&freq, "WEEKLY") {
        if recurrence.by_day.len() == 0 {
            let mut days: Vec<String> = Vec::new();
            days.push(weekday_code_from_datetime(base));
            assert(strings_view(days@) =~= seq![weekday_code_of(base as int)]);
            Some(weekly_occurrences(base, interval, &days, dur, until, recurrence.count, rs, re))
        } else {
            Some(weekly_occurrences(base, interval, &recurrence.by_day, dur, until, recurrence.count, rs, re))
        }
    } else if crate::text::eq_str(&freq, "MONTHLY") {
        Some(monthly_occurrences(base, interval, dur, until, recurrence.count, rs, re))
    } else {
        None
    }
}

// ===================== Events =====================

/// The event moved to start at `start`, lasting `dur`: every field but the
/// start and end is kept.
pub open spec fn shifted_event(event: EventModel, start: int, dur: int, out: EventModel) -> bool {
    &&& out == EventModel { start: out.start, end: out.end, ..event }
    &&& shifted_time(event.start, start, out.start)
    &&& shifted_time(event.end, start + dur, out.end)
}

/// Every occurrence, and its end, can be written as a date.
pub open spec fn all_writable(starts: Seq<int>, dur: int) -> bool {
    forall|i: int| 0 <= i < starts.len() ==> in_chrono(#[trigger] starts[i]) && in_chrono(starts[i] + dur)
}

/// One event per occurrence start, each moved there.
pub open spec fn expanded_events(event: EventModel, starts: Seq<int>, dur: int, out: Seq<EventModel>) -> bool {
    &&& out.len() == starts.len()
    &&& forall|i: int| 0 <= i < starts.len() ==> shifted_event(event, starts[i], dur, #[trigger] out[i])
}

/// The events of a recurring event in `[rs, re)`, given the instants of its
/// first start and end and of its UNTIL limit: none when it ends before it
/// starts; `None` when the range ends beyond the instants chrono holds, or
/// an occurrence or its end could not be written as a date.
pub open spec fn expansion_fits(
    event: EventModel,
    rec: RecurrenceModel,
    bs: int,
    be: int,
    until: Option<int>,
    rs: int,
    re: int,
    r: Option<Seq<EventModel>>,
) -> bool {
    let dur = be - bs;
    if dur < 0 {
        r == Some(Seq::<EventModel>::empty())
    } else {
        match occurrence_starts(rec, bs, dur, until, rs, re) {
            None => if overlaps(bs, be, rs, re) {
                r == Some(seq![event])
            } else {
                r == Some(Seq::<EventModel>::empty())
            },
            Some(starts) => if !expansion_in_span(rec, bs, dur, re) || !all_writable(starts, dur) {
                r is None
            } else {
                r matches Some(out) && expanded_events(event, starts, dur, out)
            },
        }
    }
}

/// The events as models.
pub open spec fn opt_events(r: Option<Vec<CalendarEvent>>) -> Option<Seq<EventModel>> {
    match r {
        Some(v) => Some(events_view(v@)),
        None => None,
    }
}

fn shift_event_instance(event: &CalendarEvent, start: i128, dur: i128) -> (r: CalendarEvent)
    requires
        in_chrono(start as int),
        in_chrono(start + dur),
    ensures
        shifted_event(event@, start as int, dur as int, r@),
{
    let mut shifted = clone_event(event);
    shifted.start = shift_event_datetime(&event.start, start);
    shifted.end = shift_event_datetime(&event.end, start + dur);
    shifted
}

/// The events of a recurring event in `[rs, re)`, given the instants of its
/// first start and end and of its UNTIL limit.
pub fn expand_from_instants(
    event: &CalendarEvent,
    recurrence: &EventRecurrence,
    base_start: i128,
    base_end: i128,
    until: Option<i128>,
    rs: i128,
    re: i128,
) -> (r: Option<Vec<CalendarEvent>>)
    requires
        chrono_instant(base_start as int),
        chrono_instant(base_end as int),
    ensures
        expansion_fits(event@, recurrence@, base_start as int, base_end as int, opt_int(until), rs as int, re as int, opt_events(r)),
{
    proof {
        reveal_strlit("DAILY");
        reveal_strlit("WEEKLY");
        reveal_strlit("MONTHLY");
    }
    let dur: i128 = base_end - base_start;
    if dur < 0 {
        let v: Vec<CalendarEvent> = Vec::new();
        assert(events_view(v@) =~= Seq::<EventModel>::empty());
        return Some(v);
    }
    let freq = chars_of(recurrence.frequency.as_str());
    let known = eq_str(&freq, "DAILY") || eq_str(&freq, "WEEKLY") || eq_str(&freq, "MONTHLY");
    if !known {
        assert(occurrence_starts(recurrence@, base_start as int, dur as int, opt_int(until), rs as int, re as int) is None);
        let mut v: Vec<CalendarEvent> = Vec::new();
        if base_start < re && base_end > rs {
            v.push(clone_event(event));
            assert(events_view(v@) =~= seq![event@]);
        } else {
            assert(events_view(v@) =~= Seq::<EventModel>::empty());
        }
        return Some(v);
    }
    let in_span_now = -SPAN_NS <= base_start && base_start <= SPAN_NS && -SPAN_NS <= re && re <= SPAN_NS
        && dur <= 2 * SPAN_NS;
    if !in_span_now {
        return None;
    }
    if eq_str(&freq, "MONTHLY") && !in_chrono_range(base_start) {
        return None;
    }
    if eq_str(&freq, "WEEKLY") && recurrence.by_day.len() > 4_294_967_295 {
        return None;
    }
    let starts = match recurrence_starts(recurrence, base_start, dur, until, rs, re) {
        Some(st) => st,
        None => {
            return None;
        },
    };
    let ghost st = ints(starts@);
    let mut out: Vec<CalendarEvent> = Vec::new();
    for i in 0..starts.len()
        invariant
            st == ints(starts@),
            occurrence_starts(recurrence@, base_start as int, dur as int, opt_int(until), rs as int, re as int) == Some(st),
            expansion_in_span(recurrence@, base_start as int, dur as int, re as int),
            dur == base_end - base_start,
            0 <= dur <= 2 * SPAN_NS,
            all_writable(st.take(i as int), dur as int),
            expanded_events(event@, st.take(i as int), dur as int, events_view(out@)),
    {
        let c = starts[i];
        if !(in_chrono_range(c) && in_chrono_range(c + dur)) {
            assert(!(in_chrono(st[i as int]) && in_chrono(st[i as int] + dur)));
            assert(!all_writable(st, dur as int));
            return None;
        }
        let e = shift_event_instance(event, c, dur);
        let ghost before = events_view(out@);
        out.push(e);
        assert(events_view(out@) =~= before.push(e@));
        assert(st.take(i + 1) =~= st.take(i as int).push(c as int));
    }
    assert(st.take(starts.len() as int) =~= st);
    Some(out)
}

/// The reading of an event time that does not depend on the machine: for a
/// UTC time, `Some` of its instant (`None` inside when it does not parse);
/// `None` for a date or a local time.
pub open spec fn fixed_reading(dt: DateTimeModel) -> Option<Option<int>> {
    if !dt.all_day && is_utc_text(dt.value) {
        Some(opt_instant(chrono_rfc3339_instant(dt.value)))
    } else {
        None
    }
}

/// The reading of a rule's UNTIL that does not depend on the machine:
/// absent, an RFC 3339 or compact UTC time, or text that reads as nothing;
/// `None` for a date, which ends at a local midnight.
pub open spec fn fixed_until(u: Option<Seq<char>>) -> Option<Option<int>> {
    match u {
        None => Some(None),
        Some(v) => if chrono_rfc3339_instant(v) is Some {
            Some(opt_instant(chrono_rfc3339_instant(v)))
        } else if compact_utc_instant(v) is Some {
            Some(compact_utc_instant(v))
        } else if chrono_date_fields(v, "%Y%m%d"@) is None {
            Some(None)
        } else {
            None
        },
    }
}

/// Every event keeps all fields of `event` but its start and end.
pub open spec fn keeps_fields(event: EventModel, out: Seq<EventModel>) -> bool {
    forall|i: int| 0 <= i < out.len() ==> #[trigger] out[i] == EventModel { start: out[i].start, end: out[i].end, ..event }
}

/// How a rule's UNTIL is read: none without one.
pub open spec fn until_read(u: Option<Seq<char>>, r: Option<int>) -> bool {
    match u {
        Some(v) => until_text_read(v, r),
        None => r is None,
    }
}

/// The expansion for given readings of the event's start and end and of the
/// rule's UNTIL: empty where a time does not read.
pub open spec fn expansion_read_with(
    event: EventModel,
    rec: RecurrenceModel,
    rs: int,
    re: int,
    r: Option<Seq<EventModel>>,
    bs: Option<int>,
    be: Option<int>,
    u: Option<int>,
) -> bool {
    &&& datetime_read(event.start, bs)
    &&& datetime_read(event.end, be)
    &&& until_read(rec.until, u)
    &&& match (bs, be) {
        (Some(s), Some(e)) => expansion_fits(event, rec, s, e, u, rs, re, r),
        _ => r == Some(Seq::<EventModel>::empty()),
    }
}

/// The expansion of a recurring event in `[rs, re)`: exact where its times
/// do not depend on the machine; in every case the expansion for some
/// readings of its times (local ones with some offsets of the time zone),
/// copies of the event that differ only in their start and end.
pub open spec fn recurring_expansion(
    event: EventModel,
    rec: RecurrenceModel,
    rs: int,
    re: int,
    r: Option<Seq<EventModel>>,
) -> bool {
    &&& match (fixed_reading(event.start), fixed_reading(event.end), fixed_until(rec.until)) {
        (Some(Some(bs)), Some(Some(be)), Some(u)) => expansion_fits(event, rec, bs, be, u, rs, re, r),
        (Some(None), _, _) => r == Some(Seq::<EventModel>::empty()),
        (_, Some(None), _) => r == Some(Seq::<EventModel>::empty()),
        _ => true,
    }
    &&& r matches Some(out) ==> keeps_fields(event, out)
    &&& exists|bs: Option<int>, be: Option<int>, u: Option<int>|
        #![trigger expansion_read_with(event, rec, rs, re, r, bs, be, u)]
        expansion_read_with(event, rec, rs, re, r, bs, be, u)
}

proof fn lemma_expansion_keeps_fields(
    event: EventModel,
    rec: RecurrenceModel,
    bs: int,
    be: int,
    u: Option<int>,
    rs: int,
    re: int,
    r: Option<Seq<EventModel>>,
)
    requires
        expansion_fits(event, rec, bs, be, u, rs, re, r),
    ensures
        r matches Some(out) ==> keeps_fields(event, out),
{
    if let Some(out) = r {
        assert forall|i: int| 0 <= i < out.len() implies #[trigger] out[i] == EventModel {
            start: out[i].start,
            end: out[i].end,
            ..event
        } by {
            let dur = be - bs;
            if dur >= 0 {
                match occurrence_starts(rec, bs, dur, u, rs, re) {
                    Some(starts) => {
                        assert(shifted_event(event, starts[i], dur, out[i]));
                    },
                    None => {},
                }
            }
        }
    }
}

/// The events of a recurring event in `[rs, re)`; `None` when an occurrence
/// or its end falls outside the years chrono holds.
pub fn expand_recurring_event(
    event: &CalendarEvent,
    recurrence: &EventRecurrence,
    rs: i128,
    re: i128,
) -> (r: Option<Vec<CalendarEvent>>)
    ensures
        recurring_expansion(event@, recurrence@, rs as int, re as int, opt_events(r)),
{
    let start = event_datetime_to_utc(&event.start);
    let end = event_datetime_to_utc(&event.end);
    let until = match &recurrence.until {
        Some(u) => parse_until_utc(u.as_str()),
        None => None,
    };
    assert(until_read(recurrence@.until, opt_int(until)));
    let (base_start, base_end) = match (start, end) {
        (Some(a), Some(b)) => (a, b),
        _ => {
            let v: Vec<CalendarEvent> = Vec::new();
            assert(events_view(v@) =~= Seq::<EventModel>::empty());
            assert(expansion_read_with(
                event@,
                recurrence@,
                rs as int,
                re as int,
                opt_events(Some(v)),
                opt_int(start),
                opt_int(end),
                opt_int(until),
            ));
            return Some(v);
        },
    };
    let r = expand_from_instants(event, recurrence, base_start, base_end, until, rs, re);
    assert(expansion_read_with(
        event@,
        recurrence@,
        rs as int,
        re as int,
        opt_events(r),
        opt_int(start),
        opt_int(end),
        opt_int(until),
    ));
    proof {
        lemma_expansion_keeps_fields(
            event@,
            recurrence@,
            base_start as int,
            base_end as int,
            opt_int(until),
            rs as int,
            re as int,
            opt_events(r),
        );
    }
    r
}

/// The event's start and end overlap `[rs, re)`: exact where its times do
/// not depend on the machine.
pub open spec fn overlap_read(event: EventModel, rs: int, re: int, r: bool) -> bool {
    match (fixed_reading(event.start), fixed_reading(event.end)) {
        (Some(Some(s)), Some(Some(e))) => r == overlaps(s, e, rs, re),
        (Some(None), _) => !r,
        (_, Some(None)) => !r,
        _ => true,
    }
}

/// The event's start and end overlap `[rs, re)`.
pub fn event_overlaps_range(event: &CalendarEvent, rs: i128, re: i128) -> (r: bool)
    ensures
        overlap_read(event@, rs as int, re as int, r),
{
    match (event_datetime_to_utc(&event.start), event_datetime_to_utc(&event.end)) {
        (Some(s), Some(e)) => s < re && e > rs,
        _ => false,
    }
}

/// What expanding an event over `[rs, re)` gives: the expansion of its
/// recurrence rule, or the event itself exactly when it overlaps the range.
pub open spec fn expansion_read(event: EventModel, rs: int, re: int, r: Option<Seq<EventModel>>) -> bool {
    match event.recurrence {
        Some(rec) => recurring_expansion(event, rec, rs, re, r),
        None => exists|hit: bool|
            overlap_read(event, rs, re, hit) && r == Some(
                if hit {
                    seq![event]
                } else {
                    Seq::<EventModel>::empty()
                },
            ),
    }
}

/// The occurrences of an event in `[rs, re)`: those of its recurrence rule,
/// or the event itself when it overlaps the range; `None` when an occurrence
/// of a recurring event or its end falls outside the years chrono holds.
pub fn expand_event_for_range(event: &CalendarEvent, rs: i128, re: i128) -> (r: Option<Vec<CalendarEvent>>)
    ensures
        expansion_read(event@, rs as int, re as int, opt_events(r)),
{
    match &event.recurrence {
        Some(rec) => expand_recurring_event(event, rec, rs, re),
        None => {
            let hit = event_overlaps_range(event, rs, re);
            let mut v: Vec<CalendarEvent> = Vec::new();
            if hit {
                v.push(clone_event(event));
                assert(events_view(v@) =~= seq![event@]);
            } else {
                assert(events_view(v@) =~= Seq::<EventModel>::empty());
            }
            Some(v)
        },
    }
}

// ===================== Laws =====================

/// Every start in `occ` begins an occurrence that overlaps `[rs, re)` and
/// is not past the UNTIL limit.
pub open spec fn all_overlap(occ: Seq<int>, dur: int, rs: int, re: int, until: Option<int>) -> bool {
    forall|i: int|
        0 <= i < occ.len() ==> overlaps(#[trigger] occ[i], occ[i] + dur, rs, re) && (until matches Some(u) ==> occ[i]
            <= u)
}

proof fn lemma_daily_overlap(
    c: int,
    k: int,
    step: int,
    dur: int,
    until: Option<int>,
    limit: Option<u32>,
    rs: int,
    re: int,
)
    requires
        step > 0,
    ensures
        all_overlap(daily_from(c, k, step, dur, until, limit, rs, re), dur, rs, re, until),
        limit matches Some(l) ==> daily_from(c, k, step, dur, until, limit, rs, re).len() <= if k <= l {
            l - k
        } else {
            0
        },
    decreases (if c < re { re - c } else { 0 }),
{
    if !(beyond_limits(c, until, limit, k) || c >= re) {
        lemma_daily_overlap(c + step, k + 1, step, dur, until, limit, rs, re);
        let rest = daily_from(c + step, k + 1, step, dur, until, limit, rs, re);
        if overlaps(c, c + dur, rs, re) {
            let all = seq![c] + rest;
            assert forall|i: int| 0 <= i < all.len() implies overlaps(#[trigger] all[i], all[i] + dur, rs, re) && (until matches Some(u) ==> all[i] <= u) by {
                if i > 0 {
                    assert(all[i] == rest[i - 1]);
                }
            }
        }
    }
}

proof fn lemma_week_codes_overlap(
    s: WeekState,
    codes: Seq<Seq<char>>,
    j: int,
    wc: int,
    base: int,
    dur: int,
    until: Option<int>,
    limit: Option<u32>,
    rs: int,
    re: int,
)
    requires
        all_overlap(s.occ, dur, rs, re, until),
        s.occ.len() <= s.count,
        limit matches Some(l) ==> s.count <= l,
    ensures
        ({
            let t = weekly_codes(s, codes, j, wc, base, dur, until, limit, rs, re);
            &&& all_overlap(t.occ, dur, rs, re, until)
            &&& t.occ.len() <= t.count
            &&& limit matches Some(l) ==> t.count <= l
        }),
    decreases codes.len() - j,
{
    if !(j >= codes.len() || s.stopped) {
        let next = match weekday_index(codes[j]) {
            None => s,
            Some(d) => {
                let c = wc + (d as int) * (DAY_NS as int);
                if c < base {
                    s
                } else if beyond_limits(c, until, limit, s.count) {
                    WeekState { stopped: true, ..s }
                } else if c >= re {
                    s
                } else {
                    WeekState {
                        occ: if overlaps(c, c + dur, rs, re) {
                            s.occ.push(c)
                        } else {
                            s.occ
                        },
                        count: s.count + 1,
                        stopped: false,
                    }
                }
            },
        };
        assert(all_overlap(next.occ, dur, rs, re, until)) by {
            assert forall|i: int| 0 <= i < next.occ.len() implies overlaps(#[trigger] next.occ[i], next.occ[i] + dur, rs, re) && (until matches Some(u) ==> next.occ[i] <= u) by {
                if i < s.occ.len() {
                    assert(next.occ[i] == s.occ[i]);
                }
            }
        }
        lemma_week_codes_overlap(next, codes, j + 1, wc, base, dur, until, limit, rs, re);
    }
}

proof fn lemma_weekly_overlap(
    s: WeekState,
    w: int,
    wc: int,
    interval: int,
    codes: Seq<Seq<char>>,
    base: int,
    dur: int,
    until: Option<int>,
    limit: Option<u32>,
    rs: int,
    re: int,
)
    requires
        all_overlap(s.occ, dur, rs, re, until),
        s.occ.len() <= s.count,
        limit matches Some(l) ==> s.count <= l,
    ensures
        ({
            let t = weekly_from(s, w, wc, interval, codes, base, dur, until, limit, rs, re);
            &&& all_overlap(t.occ, dur, rs, re, until)
            &&& t.occ.len() <= t.count
            &&& limit matches Some(l) ==> t.count <= l
        }),
    decreases (if wc < re { re - wc } else { 0 }),
{
    if !(s.stopped || wc >= re) {
        let after = if w % interval == 0 {
            weekly_codes(s, codes, 0, wc, base, dur, until, limit, rs, re)
        } else {
            s
        };
        if w % interval == 0 {
            lemma_week_codes_overlap(s, codes, 0, wc, base, dur, until, limit, rs, re);
        }
        lemma_weekly_overlap(after, w + 1, wc + (WEEK_NS as int), interval, codes, base, dur, until, limit, rs, re);
    }
}

proof fn lemma_monthly_overlap(
    m: int,
    k: int,
    base: int,
    interval: int,
    dur: int,
    until: Option<int>,
    limit: Option<u32>,
    rs: int,
    re: int,
)
    ensures
        all_overlap(monthly_from(m, k, base, interval, dur, until, limit, rs, re), dur, rs, re, until),
        limit matches Some(l) ==> monthly_from(m, k, base, interval, dur, until, limit, rs, re).len() <= if k <= l {
            l - k
        } else {
            0
        },
    decreases MONTHS_LIMIT - m,
{
    if m < MONTHS_LIMIT {
        match add_months(base, m) {
            None => {},
            Some(c) => if m > 0 && m % interval != 0 {
                lemma_monthly_overlap(m + 1, k, base, interval, dur, until, limit, rs, re);
            } else if !(beyond_limits(c, until, limit, k) || c >= re) {
                lemma_monthly_overlap(m + 1, k + 1, base, interval, dur, until, limit, rs, re);
                let rest = monthly_from(m + 1, k + 1, base, interval, dur, until, limit, rs, re);
                if overlaps(c, c + dur, rs, re) {
                    let all = seq![c] + rest;
                    assert forall|i: int| 0 <= i < all.len() implies overlaps(#[trigger] all[i], all[i] + dur, rs, re) && (until matches Some(u) ==> all[i] <= u) by {
                        if i > 0 {
                            assert(all[i] == rest[i - 1]);
                        }
                    }
                }
            },
        }
    }
}

/// Every occurrence a recurrence rule yields overlaps the range asked for
/// and starts no later than its UNTIL, and a rule with a COUNT yields no
/// more occurrences than its count.
pub proof fn lemma_occurrences_overlap_range(
    rec: RecurrenceModel,
    base: int,
    dur: int,
    until: Option<int>,
    rs: int,
    re: int,
)
    ensures
        occurrence_starts(rec, base, dur, until, rs, re) matches Some(st) ==> all_overlap(st, dur, rs, re, until)
            && (rec.count matches Some(l) ==> st.len() <= l),
{
    let iv = effective_interval(rec);
    if rec.frequency == "DAILY"@ {
        lemma_daily_overlap(base, 0, iv * (DAY_NS as int), dur, until, rec.count, rs, re);
    } else if rec.frequency == "WEEKLY"@ {
        lemma_weekly_overlap(
            week_start_state(),
            0,
            start_of_week(base),
            iv,
            weekly_days(rec, base),
            base,
            dur,
            until,
            rec.count,
            rs,
            re,
        );
    } else if rec.frequency == "MONTHLY"@ {
        lemma_monthly_overlap(0, 0, base, iv, dur, until, rec.count, rs, re);
    }
}

// ===================== Where occurrences fall =====================

/// The interval of a rule as written: absent or zero counts as one.
pub open spec fn rule_interval(rec: RecurrenceModel) -> int {
    match rec.interval {
        Some(i) => if i >= 1 {
            i as int
        } else {
            1
        },
        None => 1,
    }
}

/// The weekdays a weekly rule runs on: its BYDAY codes, or, without any,
/// the weekday of the first start.
pub open spec fn rule_days(rec: RecurrenceModel, base: int) -> Seq<Seq<char>> {
    if rec.by_day.len() == 0 {
        seq![weekday_code_of(base)]
    } else {
        rec.by_day
    }
}

/// Where the weekday named `code` falls in the `w`-th week after the week
/// starting at `sow` (same time of day); `None` for a code that names no
/// weekday.
pub open spec fn weekly_slot(sow: int, w: int, code: Seq<char>) -> Option<int> {
    match weekday_index(code) {
        Some(d) => Some(sow + w * (WEEK_NS as int) + (d as int) * (DAY_NS as int)),
        None => None,
    }
}

/// Every start is a slot of a week whose number is a multiple of `n`, on
/// one of the codes' weekdays, and not before `base`.
pub open spec fn weekly_shape(occ: Seq<int>, sow: int, n: int, codes: Seq<Seq<char>>, base: int) -> bool {
    forall|i: int|
        0 <= i < occ.len() ==> #[trigger] occ[i] >= base && exists|w: int, j: int|
            #![trigger weekly_slot(sow, w, codes[j])]
            0 <= j < codes.len() && w >= 0 && w % n == 0 && weekly_slot(sow, w, codes[j]) == Some(occ[i])
}

proof fn lemma_daily_shape(
    c: int,
    k: int,
    step: int,
    dur: int,
    until: Option<int>,
    limit: Option<u32>,
    rs: int,
    re: int,
    base: int,
)
    requires
        step > 0,
        c >= base,
        (c - base) % step == 0,
    ensures
        forall|i: int|
            0 <= i < daily_from(c, k, step, dur, until, limit, rs, re).len() ==> ({
                let x = #[trigger] daily_from(c, k, step, dur, until, limit, rs, re)[i];
                x >= base && (x - base) % step == 0
            }),
        forall|i: int, j: int|
            0 <= i < j < daily_from(c, k, step, dur, until, limit, rs, re).len() ==> #[trigger] daily_from(
                c,
                k,
                step,
                dur,
                until,
                limit,
                rs,
                re,
            )[i] < #[trigger] daily_from(c, k, step, dur, until, limit, rs, re)[j],
        forall|i: int|
            0 <= i < daily_from(c, k, step, dur, until, limit, rs, re).len() ==> c <= #[trigger] daily_from(
                c,
                k,
                step,
                dur,
                until,
                limit,
                rs,
                re,
            )[i],
    decreases (if c < re { re - c } else { 0 }),
{
    if !(beyond_limits(c, until, limit, k) || c >= re) {
        assert((c + step - base) % step == 0) by {
            vstd::arithmetic::div_mod::lemma_mod_add_multiples_vanish(c - base, step);
        }
        lemma_daily_shape(c + step, k + 1, step, dur, until, limit, rs, re, base);
        let rest = daily_from(c + step, k + 1, step, dur, until, limit, rs, re);
        if overlaps(c, c + dur, rs, re) {
            let all = seq![c] + rest;
            assert forall|i: int| 0 <= i < all.len() implies all[i] >= base && (all[i] - base) % step == 0 && c
                <= all[i] by {
                if i > 0 {
                    assert(all[i] == rest[i - 1]);
                }
            }
            assert forall|i: int, j: int| 0 <= i < j < all.len() implies #[trigger] all[i] < #[trigger] all[j] by {
                assert(all[j] == rest[j - 1]);
                if i > 0 {
                    assert(all[i] == rest[i - 1]);
                }
            }
        }
    }
}

/// Every start is the first start moved by a number of months, at least
/// `m`, that is a multiple of `n`.
pub open spec fn monthly_shape(occ: Seq<int>, base: int, n: int, m: int) -> bool {
    forall|i: int| #![trigger occ[i]] 0 <= i < occ.len() ==> month_offset_exists(occ[i], base, n, m)
}

/// `t` is the first start moved by some number of months, at least `m`, that
/// is a multiple of `n`.
pub open spec fn month_offset_exists(t: int, base: int, n: int, m: int) -> bool {
    exists|mo: int| #![trigger add_months(base, mo)] mo >= m && mo % n == 0 && add_months(base, mo) == Some(t)
}

proof fn lemma_monthly_shape_weaken(occ: Seq<int>, base: int, n: int, m: int)
    requires
        monthly_shape(occ, base, n, m + 1),
    ensures
        monthly_shape(occ, base, n, m),
{
    assert forall|i: int| 0 <= i < occ.len() implies month_offset_exists(#[trigger] occ[i], base, n, m) by {
        assert(month_offset_exists(occ[i], base, n, m + 1));
        let mo = choose|mo: int|
            #![trigger add_months(base, mo)]
            mo >= m + 1 && mo % n == 0 && add_months(base, mo) == Some(occ[i]);
        assert(add_months(base, mo) == Some(occ[i]));
    }
}

proof fn lemma_monthly_shape(
    m: int,
    k: int,
    base: int,
    interval: int,
    dur: int,
    until: Option<int>,
    limit: Option<u32>,
    rs: int,
    re: int,
)
    requires
        interval >= 1,
        m >= 0,
    ensures
        monthly_shape(monthly_from(m, k, base, interval, dur, until, limit, rs, re), base, interval, m),
    decreases MONTHS_LIMIT - m,
{
    let r = monthly_from(m, k, base, interval, dur, until, limit, rs, re);
    if m < MONTHS_LIMIT {
        match add_months(base, m) {
            None => {
                assert(r.len() == 0);
            },
            Some(c) => if m > 0 && m % interval != 0 {
                lemma_monthly_shape(m + 1, k, base, interval, dur, until, limit, rs, re);
                let rest = monthly_from(m + 1, k, base, interval, dur, until, limit, rs, re);
                lemma_monthly_shape_weaken(rest, base, interval, m);
                assert(r == rest);
            } else if !(beyond_limits(c, until, limit, k) || c >= re) {
                lemma_monthly_shape(m + 1, k + 1, base, interval, dur, until, limit, rs, re);
                let rest = monthly_from(m + 1, k + 1, base, interval, dur, until, limit, rs, re);
                lemma_monthly_shape_weaken(rest, base, interval, m);
                assert(m % interval == 0) by {
                    if m == 0 {
                        vstd::arithmetic::div_mod::lemma_small_mod(0, interval as nat);
                    }
                }
                if overlaps(c, c + dur, rs, re) {
                    let all = seq![c] + rest;
                    assert forall|i: int| 0 <= i < all.len() implies month_offset_exists(
                        #[trigger] all[i],
                        base,
                        interval,
                        m,
                    ) by {
                        if i > 0 {
                            assert(all[i] == rest[i - 1]);
                            assert(month_offset_exists(rest[i - 1], base, interval, m));
                        } else {
                            assert(add_months(base, m) == Some(all[0]));
                        }
                    }
                    assert(r == all);
                } else {
                    assert(r == rest);
                }
            } else {
                assert(r.len() == 0);
            },
        }
    } else {
        assert(r.len() == 0);
    }
}

proof fn lemma_week_codes_shape(
    s: WeekState,
    codes: Seq<Seq<char>>,
    j: int,
    wc: int,
    base: int,
    dur: int,
    until: Option<int>,
    limit: Option<u32>,
    rs: int,
    re: int,
    sow: int,
    w: int,
    n: int,
)
    requires
        0 <= j,
        w >= 0,
        n >= 1,
        w % n == 0,
        wc == sow + w * (WEEK_NS as int),
        weekly_shape(s.occ, sow, n, codes, base),
    ensures
        weekly_shape(weekly_codes(s, codes, j, wc, base, dur, until, limit, rs, re).occ, sow, n, codes, base),
    decreases codes.len() - j,
{
    if !(j >= codes.len() || s.stopped) {
        let next = match weekday_index(codes[j]) {
            None => s,
            Some(d) => {
                let c = wc + (d as int) * (DAY_NS as int);
                if c < base {
                    s
                } else if beyond_limits(c, until, limit, s.count) {
                    WeekState { stopped: true, ..s }
                } else if c >= re {
                    s
                } else {
                    WeekState {
                        occ: if overlaps(c, c + dur, rs, re) {
                            s.occ.push(c)
                        } else {
                            s.occ
                        },
                        count: s.count + 1,
                        stopped: false,
                    }
                }
            },
        };
        if let Some(d) = weekday_index(codes[j]) {
            let c = wc + (d as int) * (DAY_NS as int);
            if !(c < base) && !beyond_limits(c, until, limit, s.count) && !(c >= re) && overlaps(c, c + dur, rs, re) {
                let o = s.occ.push(c);
                assert(weekly_slot(sow, w, codes[j]) == Some(c));
                assert forall|i: int| 0 <= i < o.len() implies #[trigger] o[i] >= base && exists|w2: int, j2: int|
                    #![trigger weekly_slot(sow, w2, codes[j2])]
                    0 <= j2 < codes.len() && w2 >= 0 && w2 % n == 0 && weekly_slot(sow, w2, codes[j2]) == Some(o[i]) by {
                    if i < s.occ.len() {
                        assert(o[i] == s.occ[i]);
                    } else {
                        assert(o[i] == c);
                        assert(weekly_slot(sow, w, codes[j]) == Some(o[i]));
                    }
                }
            }
        }
        assert(weekly_shape(next.occ, sow, n, codes, base));
        lemma_week_codes_shape(next, codes, j + 1, wc, base, dur, until, limit, rs, re, sow, w, n);
    }
}

proof fn lemma_weekly_shape(
    s: WeekState,
    w: int,
    wc: int,
    interval: int,
    codes: Seq<Seq<char>>,
    base: int,
    dur: int,
    until: Option<int>,
    limit: Option<u32>,
    rs: int,
    re: int,
    sow: int,
)
    requires
        w >= 0,
        interval >= 1,
        wc == sow + w * (WEEK_NS as int),
        weekly_shape(s.occ, sow, interval, codes, base),
    ensures
        weekly_shape(
            weekly_from(s, w, wc, interval, codes, base, dur, until, limit, rs, re).occ,
            sow,
            interval,
            codes,
            base,
        ),
    decreases (if wc < re { re - wc } else { 0 }),
{
    if !(s.stopped || wc >= re) {
        let after = if w % interval == 0 {
            weekly_codes(s, codes, 0, wc, base, dur, until, limit, rs, re)
        } else {
            s
        };
        if w % interval == 0 {
            lemma_week_codes_shape(s, codes, 0, wc, base, dur, until, limit, rs, re, sow, w, interval);
        }
        assert(wc + (WEEK_NS as int) == sow + (w + 1) * (WEEK_NS as int)) by (nonlinear_arith)
            requires
                wc == sow + w * (WEEK_NS as int),
        ;
        lemma_weekly_shape(after, w + 1, wc + (WEEK_NS as int), interval, codes, base, dur, until, limit, rs, re, sow);
    }
}

/// The starts `st` lie where the rule `rec` with first start `base` puts
/// occurrences (see `lemma_occurrences_follow_rule`).
pub open spec fn follows_rule(rec: RecurrenceModel, base: int, st: Seq<int>) -> bool {
    let n = rule_interval(rec);
    &&& rec.frequency == "DAILY"@ ==> {
        &&& forall|i: int| 0 <= i < st.len() ==> #[trigger] st[i] >= base && (st[i] - base) % (n * (DAY_NS as int)) == 0
        &&& forall|i: int, j: int| 0 <= i < j < st.len() ==> #[trigger] st[i] < #[trigger] st[j]
    }
    &&& rec.frequency == "WEEKLY"@ ==> weekly_shape(st, start_of_week(base), n, rule_days(rec, base), base)
    &&& rec.frequency == "MONTHLY"@ ==> monthly_shape(st, base, n, 0)
}

proof fn lemma_frequency_names_differ()
    ensures
        "DAILY"@ != "WEEKLY"@,
        "DAILY"@ != "MONTHLY"@,
        "WEEKLY"@ != "MONTHLY"@,
{
    reveal_strlit("DAILY");
    reveal_strlit("WEEKLY");
    reveal_strlit("MONTHLY");
    assert("DAILY"@[0] != "WEEKLY"@[0]);
    assert("DAILY"@[0] != "MONTHLY"@[0]);
    assert("WEEKLY"@[0] != "MONTHLY"@[0]);
}

/// Where the occurrences of a rule fall. Daily: at whole multiples of the
/// interval in days after the first start, in increasing order. Weekly: not
/// before the first start, on a weekday of the rule's BYDAY list (or, without
/// one, of the first start), in a week whose distance in weeks from the
/// first start's week is a multiple of the interval, at the first start's
/// time of day. Monthly: each is the first start moved by a number of months
/// that is a multiple of the interval.
pub proof fn lemma_occurrences_follow_rule(
    rec: RecurrenceModel,
    base: int,
    dur: int,
    until: Option<int>,
    rs: int,
    re: int,
)
    ensures
        occurrence_starts(rec, base, dur, until, rs, re) matches Some(st) ==> follows_rule(rec, base, st),
{
    reveal_strlit("DAILY");
    reveal_strlit("WEEKLY");
    reveal_strlit("MONTHLY");
    let n = rule_interval(rec);
    assert(n == effective_interval(rec));
    if let Some(st) = occurrence_starts(rec, base, dur, until, rs, re) {
        if rec.frequency == "DAILY"@ {
            assert((base - base) % (n * (DAY_NS as int)) == 0) by {
                assert(n * (DAY_NS as int) > 0) by (nonlinear_arith)
                    requires
                        n >= 1,
                ;
                vstd::arithmetic::div_mod::lemma_small_mod(0, (n * (DAY_NS as int)) as nat);
            }
            assert(n * (DAY_NS as int) > 0) by (nonlinear_arith)
                requires
                    n >= 1,
            ;
            lemma_daily_shape(base, 0, n * (DAY_NS as int), dur, until, rec.count, rs, re, base);
            assert(st == daily_from(base, 0, n * (DAY_NS as int), dur, until, rec.count, rs, re));
            assert(forall|i: int| 0 <= i < st.len() ==> #[trigger] st[i] >= base && (st[i] - base) % (n * (DAY_NS as int)) == 0);
            assert(forall|i: int, j: int| 0 <= i < j < st.len() ==> #[trigger] st[i] < #[trigger] st[j]);
            lemma_frequency_names_differ();
            assert(follows_rule(rec, base, st));
        } else if rec.frequency == "WEEKLY"@ {
            let sow = start_of_week(base);
            assert(weekly_days(rec, base) == rule_days(rec, base));
            assert(weekly_shape(week_start_state().occ, sow, n, weekly_days(rec, base), base));
            lemma_weekly_shape(
                week_start_state(),
                0,
                sow,
                n,
                weekly_days(rec, base),
                base,
                dur,
                until,
                rec.count,
                rs,
                re,
                sow,
            );
            assert(st == weekly_from(week_start_state(), 0, sow, n, weekly_days(rec, base), base, dur, until, rec.count, rs, re).occ);
            assert(weekly_shape(st, sow, n, rule_days(rec, base), base));
            lemma_frequency_names_differ();
            assert(follows_rule(rec, base, st));
        } else if rec.frequency == "MONTHLY"@ {
            lemma_monthly_shape(0, 0, base, n, dur, until, rec.count, rs, re);
            assert(st == monthly_from(0, 0, base, n, dur, until, rec.count, rs, re));
            assert(monthly_shape(st, base, n, 0));
            lemma_frequency_names_differ();
            assert(follows_rule(rec, base, st));
        }
    }
}

proof fn lemma_daily_complete(
    c0: int,
    k0: int,
    step: int,
    dur: int,
    until: Option<int>,
    limit: Option<u32>,
    rs: int,
    re: int,
    j: int,
)
    requires
        step > 0,
        j >= k0,
        c0 + (j - k0) * step < re,
        c0 + (j - k0) * step + dur > rs,
        until matches Some(u) ==> c0 + (j - k0) * step <= u,
        limit matches Some(l) ==> j < l,
    ensures
        daily_from(c0, k0, step, dur, until, limit, rs, re).contains(c0 + (j - k0) * step),
    decreases j - k0,
{
    let c = c0 + (j - k0) * step;
    assert(c0 <= c) by (nonlinear_arith)
        requires
            step > 0,
            j >= k0,
            c == c0 + (j - k0) * step,
    ;
    let rest = daily_from(c0 + step, k0 + 1, step, dur, until, limit, rs, re);
    if j == k0 {
        assert(c == c0) by (nonlinear_arith)
            requires
                j == k0,
                c == c0 + (j - k0) * step,
        ;
        let all = seq![c0] + rest;
        assert(all[0] == c);
    } else {
        assert(c0 + (j - k0) * step == (c0 + step) + (j - (k0 + 1)) * step) by (nonlinear_arith);
        lemma_daily_complete(c0 + step, k0 + 1, step, dur, until, limit, rs, re, j);
        let x = choose|x: int| 0 <= x < rest.len() && rest[x] == c;
        if overlaps(c0, c0 + dur, rs, re) {
            let all = seq![c0] + rest;
            assert(all[x + 1] == c);
        }
    }
}

/// Every day a daily rule reaches is an occurrence: for each `j`, the first
/// start moved by `j` times the interval in days is one, when it overlaps
/// the range, is not after UNTIL, and `j` is below COUNT.
pub proof fn lemma_daily_occurrences_complete(
    rec: RecurrenceModel,
    base: int,
    dur: int,
    until: Option<int>,
    rs: int,
    re: int,
    j: int,
)
    requires
        rec.frequency == "DAILY"@,
        j >= 0,
        base + j * rule_interval(rec) * (DAY_NS as int) < re,
        base + j * rule_interval(rec) * (DAY_NS as int) + dur > rs,
        until matches Some(u) ==> base + j * rule_interval(rec) * (DAY_NS as int) <= u,
        rec.count matches Some(l) ==> j < l,
    ensures
        occurrence_starts(rec, base, dur, until, rs, re) matches Some(st) && st.contains(
            base + j * rule_interval(rec) * (DAY_NS as int),
        ),
{
    let n = rule_interval(rec);
    let step = n * (DAY_NS as int);
    assert(step > 0) by (nonlinear_arith)
        requires
            n >= 1,
            step == n * (DAY_NS as int),
    ;
    assert(base + j * n * (DAY_NS as int) == base + (j - 0) * step) by (nonlinear_arith)
        requires
            step == n * (DAY_NS as int),
    ;
    assert(n == effective_interval(rec));
    lemma_daily_complete(base, 0, step, dur, until, rec.count, rs, re, j);
}

/// How many multiples of `n` lie in `[0, m)`.
spec fn multiples_below(m: int, n: int) -> int
    decreases m,
{
    if m <= 0 {
        0
    } else {
        multiples_below(m - 1, n) + if (m - 1) % n == 0 { 1int } else { 0int }
    }
}

proof fn lemma_multiples_below(m: int, n: int)
    requires
        m >= 0,
        n >= 1,
    ensures
        multiples_below(m, n) == (m + n - 1) / n,
    decreases m,
{
    if m == 0 {
        vstd::arithmetic::div_mod::lemma_fundamental_div_mod_converse(n - 1, n, 0, n - 1);
    } else {
        lemma_multiples_below(m - 1, n);
        let x = m - 1;
        let q = x / n;
        let r = x % n;
        vstd::arithmetic::div_mod::lemma_fundamental_div_mod(x, n);
        assert(0 <= r < n);
        assert(x + n == (q + 1) * n + r && x + n - 1 == q * n + (r + n - 1) && x + n - 1 == (q + 1) * n + (r - 1))
            by (nonlinear_arith)
            requires
                x == n * q + r,
        ;
        vstd::arithmetic::div_mod::lemma_fundamental_div_mod_converse(x + n, n, q + 1, r);
        if r == 0 {
            vstd::arithmetic::div_mod::lemma_fundamental_div_mod_converse(x + n - 1, n, q, n - 1);
        } else {
            vstd::arithmetic::div_mod::lemma_fundamental_div_mod_converse(x + n - 1, n, q + 1, r - 1);
        }
    }
}

proof fn lemma_multiples_below_grow(a: int, b: int, n: int)
    requires
        0 <= a <= b,
        n >= 1,
    ensures
        multiples_below(a, n) <= multiples_below(b, n),
        a < b && a % n == 0 ==> multiples_below(a, n) < multiples_below(b, n),
    decreases b - a,
{
    if a < b {
        lemma_multiples_below_grow(a, b - 1, n);
        if a == b - 1 {
            assert(multiples_below(b, n) == multiples_below(a, n) + if a % n == 0 { 1int } else { 0int });
        }
    }
}

proof fn lemma_monthly_complete(
    m0: int,
    k0: int,
    base: int,
    n: int,
    dur: int,
    until: Option<int>,
    limit: Option<u32>,
    rs: int,
    re: int,
    m: int,
    c: int,
)
    requires
        n >= 1,
        0 <= m0 <= m < MONTHS_LIMIT,
        m % n == 0,
        k0 == multiples_below(m0, n),
        forall|m2: int| m0 <= m2 <= m ==> (#[trigger] add_months(base, m2)) is Some,
        forall|m2: int|
            m0 <= m2 < m && m2 % n == 0 ==> (#[trigger] add_months(base, m2))->Some_0 < re && (until matches Some(
                u,
            ) ==> add_months(base, m2)->Some_0 <= u),
        add_months(base, m) == Some(c),
        c < re,
        c + dur > rs,
        until matches Some(u) ==> c <= u,
        limit matches Some(l) ==> multiples_below(m, n) < l,
    ensures
        monthly_from(m0, k0, base, n, dur, until, limit, rs, re).contains(c),
    decreases m - m0,
{
    let c0 = add_months(base, m0)->Some_0;
    assert(add_months(base, m0) is Some);
    lemma_multiples_below_grow(m0, m, n);
    if m0 > 0 && m0 % n != 0 {
        assert(multiples_below(m0 + 1, n) == k0);
        lemma_monthly_complete(m0 + 1, k0, base, n, dur, until, limit, rs, re, m, c);
        assert(monthly_from(m0, k0, base, n, dur, until, limit, rs, re) == monthly_from(
            m0 + 1,
            k0,
            base,
            n,
            dur,
            until,
            limit,
            rs,
            re,
        ));
    } else {
        assert(m0 % n == 0) by {
            if m0 == 0 {
                vstd::arithmetic::div_mod::lemma_small_mod(0, n as nat);
            }
        }
        assert(multiples_below(m0 + 1, n) == k0 + 1);
        let rest = monthly_from(m0 + 1, k0 + 1, base, n, dur, until, limit, rs, re);
        if m0 == m {
            assert(c0 == c);
            assert(!beyond_limits(c0, until, limit, k0));
            let all = seq![c0] + rest;
            assert(all[0] == c);
            assert(monthly_from(m0, k0, base, n, dur, until, limit, rs, re) == all);
        } else {
            assert(c0 < re);
            assert(!beyond_limits(c0, until, limit, k0));
            lemma_monthly_complete(m0 + 1, k0 + 1, base, n, dur, until, limit, rs, re, m, c);
            let x = choose|x: int| 0 <= x < rest.len() && rest[x] == c;
            if overlaps(c0, c0 + dur, rs, re) {
                let all = seq![c0] + rest;
                assert(all[x + 1] == c);
                assert(monthly_from(m0, k0, base, n, dur, until, limit, rs, re) == all);
            } else {
                assert(monthly_from(m0, k0, base, n, dur, until, limit, rs, re) == rest);
            }
        }
    }
}

/// Every month a monthly rule reaches is an occurrence: for a number of
/// months `m` that is a multiple of the interval, the first start moved by
/// `m` months is one when it overlaps the range, is not after UNTIL, and
/// fewer than COUNT multiples of the interval lie below `m`, provided the
/// rule got that far: every month up to `m` has a date, and each earlier
/// occurrence (a multiple of the interval) starts before the range ends and
/// not after UNTIL.
pub proof fn lemma_monthly_occurrences_complete(
    rec: RecurrenceModel,
    base: int,
    dur: int,
    until: Option<int>,
    rs: int,
    re: int,
    m: int,
    c: int,
)
    requires
        rec.frequency == "MONTHLY"@,
        0 <= m < MONTHS_LIMIT,
        m % rule_interval(rec) == 0,
        forall|m2: int| 0 <= m2 <= m ==> (#[trigger] add_months(base, m2)) is Some,
        forall|m2: int|
            0 <= m2 < m && m2 % rule_interval(rec) == 0 ==> (#[trigger] add_months(base, m2))->Some_0 < re && (
            until matches Some(u) ==> add_months(base, m2)->Some_0 <= u),
        add_months(base, m) == Some(c),
        c < re,
        c + dur > rs,
        until matches Some(u) ==> c <= u,
        rec.count matches Some(l) ==> m / rule_interval(rec) < l,
    ensures
        occurrence_starts(rec, base, dur, until, rs, re) matches Some(st) && st.contains(c),
{
    let n = rule_interval(rec);
    lemma_frequency_names_differ();
    assert(n == effective_interval(rec));
    lemma_multiples_below(m, n);
    let q = m / n;
    vstd::arithmetic::div_mod::lemma_fundamental_div_mod(m, n);
    vstd::arithmetic::div_mod::lemma_fundamental_div_mod_converse(m + n - 1, n, q, n - 1);
    assert(multiples_below(0, n) == 0);
    lemma_monthly_complete(0, 0, base, n, dur, until, rec.count, rs, re, m, c);
}

proof fn lemma_weekday_index_bound(code: Seq<char>)
    ensures
        weekday_index(code) matches Some(d) ==> d <= 6,
{
}

proof fn lemma_prefix_contains(a: Seq<int>, b: Seq<int>, x: int)
    requires
        a.is_prefix_of(b),
        a.contains(x),
    ensures
        b.contains(x),
{
    let i = choose|i: int| 0 <= i < a.len() && a[i] == x;
    assert(b[i] == a[i]);
}

proof fn lemma_week_codes_grow(
    s: WeekState,
    codes: Seq<Seq<char>>,
    j: int,
    wc: int,
    base: int,
    dur: int,
    until: Option<int>,
    limit: Option<u32>,
    rs: int,
    re: int,
)
    requires
        0 <= j,
    ensures
        s.occ.is_prefix_of(weekly_codes(s, codes, j, wc, base, dur, until, limit, rs, re).occ),
        !s.stopped && limit is None && (until matches Some(u) ==> wc + 6 * (DAY_NS as int) <= u) ==> !weekly_codes(
            s,
            codes,
            j,
            wc,
            base,
            dur,
            until,
            limit,
            rs,
            re,
        ).stopped,
    decreases codes.len() - j,
{
    if !(j >= codes.len() || s.stopped) {
        lemma_weekday_index_bound(codes[j]);
        let next = match weekday_index(codes[j]) {
            None => s,
            Some(d) => {
                let c = wc + (d as int) * (DAY_NS as int);
                if c < base {
                    s
                } else if beyond_limits(c, until, limit, s.count) {
                    WeekState { stopped: true, ..s }
                } else if c >= re {
                    s
                } else {
                    WeekState {
                        occ: if overlaps(c, c + dur, rs, re) {
                            s.occ.push(c)
                        } else {
                            s.occ
                        },
                        count: s.count + 1,
                        stopped: false,
                    }
                }
            },
        };
        assert(s.occ.is_prefix_of(next.occ)) by {
            assert(next.occ.subrange(0, s.occ.len() as int) =~= s.occ);
        }
        if let Some(d) = weekday_index(codes[j]) {
            assert((d as int) * (DAY_NS as int) <= 6 * (DAY_NS as int)) by (nonlinear_arith)
                requires
                    d <= 6,
            ;
        }
        lemma_week_codes_grow(next, codes, j + 1, wc, base, dur, until, limit, rs, re);
        let t = weekly_codes(next, codes, j + 1, wc, base, dur, until, limit, rs, re);
        assert(s.occ.is_prefix_of(t.occ)) by {
            assert(t.occ.subrange(0, s.occ.len() as int) =~= s.occ) by {
                assert forall|i: int| 0 <= i < s.occ.len() implies t.occ[i] == s.occ[i] by {
                    assert(next.occ[i] == s.occ[i]);
                    assert(t.occ[i] == next.occ[i]);
                }
            }
        }
    } else {
        assert(s.occ.is_prefix_of(s.occ)) by {
            assert(s.occ.subrange(0, s.occ.len() as int) =~= s.occ);
        }
    }
}

proof fn lemma_week_codes_contains(
    s: WeekState,
    codes: Seq<Seq<char>>,
    j0: int,
    wc: int,
    base: int,
    dur: int,
    until: Option<int>,
    limit: Option<u32>,
    rs: int,
    re: int,
    j: int,
    c: int,
)
    requires
        0 <= j0 <= j < codes.len(),
        !s.stopped,
        limit is None,
        until matches Some(u) ==> wc + 6 * (DAY_NS as int) <= u,
        weekday_index(codes[j]) matches Some(d) && c == wc + (d as int) * (DAY_NS as int),
        base <= c,
        c < re,
        c + dur > rs,
    ensures
        weekly_codes(s, codes, j0, wc, base, dur, until, limit, rs, re).occ.contains(c),
    decreases j - j0,
{
    lemma_weekday_index_bound(codes[j0]);
    let next = match weekday_index(codes[j0]) {
        None => s,
        Some(d) => {
            let c0 = wc + (d as int) * (DAY_NS as int);
            if c0 < base {
                s
            } else if beyond_limits(c0, until, limit, s.count) {
                WeekState { stopped: true, ..s }
            } else if c0 >= re {
                s
            } else {
                WeekState {
                    occ: if overlaps(c0, c0 + dur, rs, re) {
                        s.occ.push(c0)
                    } else {
                        s.occ
                    },
                    count: s.count + 1,
                    stopped: false,
                }
            }
        },
    };
    if let Some(d) = weekday_index(codes[j0]) {
        assert((d as int) * (DAY_NS as int) <= 6 * (DAY_NS as int)) by (nonlinear_arith)
            requires
                d <= 6,
        ;
    }
    assert(!next.stopped);
    if j0 == j {
        assert(next.occ == s.occ.push(c));
        assert(next.occ[s.occ.len() as int] == c);
        lemma_week_codes_grow(next, codes, j0 + 1, wc, base, dur, until, limit, rs, re);
        lemma_prefix_contains(next.occ, weekly_codes(next, codes, j0 + 1, wc, base, dur, until, limit, rs, re).occ, c);
    } else {
        lemma_week_codes_contains(next, codes, j0 + 1, wc, base, dur, until, limit, rs, re, j, c);
    }
}

proof fn lemma_weekly_from_grow(
    s: WeekState,
    w: int,
    wc: int,
    interval: int,
    codes: Seq<Seq<char>>,
    base: int,
    dur: int,
    until: Option<int>,
    limit: Option<u32>,
    rs: int,
    re: int,
)
    ensures
        s.occ.is_prefix_of(weekly_from(s, w, wc, interval, codes, base, dur, until, limit, rs, re).occ),
    decreases (if wc < re { re - wc } else { 0 }),
{
    if !(s.stopped || wc >= re) {
        let after = if w % interval == 0 {
            weekly_codes(s, codes, 0, wc, base, dur, until, limit, rs, re)
        } else {
            s
        };
        lemma_week_codes_grow(s, codes, 0, wc, base, dur, until, limit, rs, re);
        assert(s.occ.is_prefix_of(after.occ)) by {
            assert(s.occ.is_prefix_of(s.occ)) by {
                assert(s.occ.subrange(0, s.occ.len() as int) =~= s.occ);
            }
        }
        lemma_weekly_from_grow(after, w + 1, wc + (WEEK_NS as int), interval, codes, base, dur, until, limit, rs, re);
        let t = weekly_from(after, w + 1, wc + (WEEK_NS as int), interval, codes, base, dur, until, limit, rs, re);
        assert(s.occ.is_prefix_of(t.occ)) by {
            assert(t.occ.subrange(0, s.occ.len() as int) =~= s.occ) by {
                assert forall|i: int| 0 <= i < s.occ.len() implies t.occ[i] == s.occ[i] by {
                    assert(after.occ[i] == s.occ[i]);
                    assert(t.occ[i] == after.occ[i]);
                }
            }
        }
    } else {
        assert(s.occ.is_prefix_of(s.occ)) by {
            assert(s.occ.subrange(0, s.occ.len() as int) =~= s.occ);
        }
    }
}

proof fn lemma_weekly_from_contains(
    s: WeekState,
    w0: int,
    wc0: int,
    interval: int,
    codes: Seq<Seq<char>>,
    base: int,
    dur: int,
    until: Option<int>,
    limit: Option<u32>,
    rs: int,
    re: int,
    sow: int,
    w: int,
    j: int,
    c: int,
)
    requires
        interval >= 1,
        0 <= w0 <= w,
        w % interval == 0,
        wc0 == sow + w0 * (WEEK_NS as int),
        !s.stopped,
        limit is None,
        until matches Some(u) ==> sow + w * (WEEK_NS as int) + 6 * (DAY_NS as int) <= u,
        0 <= j < codes.len(),
        weekly_slot(sow, w, codes[j]) == Some(c),
        base <= c,
        c < re,
        c + dur > rs,
    ensures
        weekly_from(s, w0, wc0, interval, codes, base, dur, until, limit, rs, re).occ.contains(c),
    decreases w - w0,
{
    let d = weekday_index(codes[j])->Some_0;
    assert(sow + w0 * (WEEK_NS as int) <= sow + w * (WEEK_NS as int)) by (nonlinear_arith)
        requires
            w0 <= w,
    ;
    assert(wc0 <= c);
    assert(wc0 < re);
    let after = if w0 % interval == 0 {
        weekly_codes(s, codes, 0, wc0, base, dur, until, limit, rs, re)
    } else {
        s
    };
    if w0 == w {
        lemma_week_codes_contains(s, codes, 0, wc0, base, dur, until, limit, rs, re, j, c);
        lemma_weekly_from_grow(after, w0 + 1, wc0 + (WEEK_NS as int), interval, codes, base, dur, until, limit, rs, re);
        lemma_prefix_contains(
            after.occ,
            weekly_from(after, w0 + 1, wc0 + (WEEK_NS as int), interval, codes, base, dur, until, limit, rs, re).occ,
            c,
        );
    } else {
        lemma_week_codes_grow(s, codes, 0, wc0, base, dur, until, limit, rs, re);
        assert(!after.stopped);
        assert(wc0 + (WEEK_NS as int) == sow + (w0 + 1) * (WEEK_NS as int)) by (nonlinear_arith)
            requires
                wc0 == sow + w0 * (WEEK_NS as int),
        ;
        lemma_weekly_from_contains(
            after,
            w0 + 1,
            wc0 + (WEEK_NS as int),
            interval,
            codes,
            base,
            dur,
            until,
            limit,
            rs,
            re,
            sow,
            w,
            j,
            c,
        );
    }
}

/// Every slot a weekly rule without COUNT reaches is an occurrence: on a
/// weekday of the rule (its BYDAY list, or the first start's weekday), in a
/// week whose distance from the first start's week is a multiple of the
/// interval, at the first start's time of day, not before the first start,
/// overlapping the range, when UNTIL is absent or not before the end of
/// that week's Sunday slot.
pub proof fn lemma_weekly_occurrences_complete(
    rec: RecurrenceModel,
    base: int,
    dur: int,
    until: Option<int>,
    rs: int,
    re: int,
    w: int,
    j: int,
    c: int,
)
    requires
        rec.frequency == "WEEKLY"@,
        rec.count is None,
        w >= 0,
        w % rule_interval(rec) == 0,
        0 <= j < rule_days(rec, base).len(),
        weekly_slot(start_of_week(base), w, rule_days(rec, base)[j]) == Some(c),
        base <= c,
        c < re,
        c + dur > rs,
        until matches Some(u) ==> start_of_week(base) + w * (WEEK_NS as int) + 6 * (DAY_NS as int) <= u,
    ensures
        occurrence_starts(rec, base, dur, until, rs, re) matches Some(st) && st.contains(c),
{
    lemma_frequency_names_differ();
    let n = rule_interval(rec);
    assert(n == effective_interval(rec));
    assert(weekly_days(rec, base) == rule_days(rec, base));
    let sow = start_of_week(base);
    lemma_weekly_from_contains(
        week_start_state(),
        0,
        sow,
        n,
        rule_days(rec, base),
        base,
        dur,
        until,
        rec.count,
        rs,
        re,
        sow,
        w,
        j,
        c,
    );
}

} // verus!
