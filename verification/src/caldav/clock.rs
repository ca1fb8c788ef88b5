//! Instants: reading event times, recurrence limits and user-given range
//! bounds, and writing an instant back in an event's own form.
//!
//! An instant is a count of nanoseconds since the Unix epoch (UTC). Reading
//! or writing a local date or time depends on the machine's time zone, and
//! the current time on its clock: those results are not named here.
use vstd::prelude::*;
use chrono::{Datelike, TimeZone, Timelike};
use crate::caldav::ical::known_format;
use crate::caldav::{DateTimeModel, EventDateTime};
use crate::caldav::recurrence::{
    CHRONO_MAX_SECS, CHRONO_MIN_SECS, CHRONO_SECS, SECOND_NS, chrono_utc_fields, utc_fields, month_last_day, chrono_utc_seconds, last_day_of_month, chrono_date, opt_int,
    seconds_of, split_instant, utc_seconds, weekday_number, weekday_of,
};
use crate::text::{chars_of, ends_with, slice_chars, string_of};
use crate::carddav::clone_opt;
use crate::error::Error;

verus! {

/// The instant of a chrono timestamp given as seconds and nanoseconds.
pub open spec fn instant_ns(p: (int, int)) -> int {
    p.0 * (SECOND_NS as int) + p.1
}

/// An optional timestamp as an instant.
pub open spec fn opt_instant(p: Option<(int, int)>) -> Option<int> {
    match p {
        Some(x) => Some(instant_ns(x)),
        None => None,
    }
}

/// Holds a timestamp that chrono can turn back into a date.
pub open spec fn in_chrono(t: int) -> bool {
    (CHRONO_MIN_SECS as int) * (SECOND_NS as int) <= t < (CHRONO_MAX_SECS as int + 1) * (SECOND_NS as int)
}

fn instant_of(p: (i64, u32)) -> (r: i128)
    requires
        -CHRONO_SECS <= p.0 <= CHRONO_SECS,
    ensures
        r as int == instant_ns((p.0 as int, p.1 as int)),
{
    assert(-8_400_000_000_000_000_000_000 <= (p.0 as int) * 1_000_000_000 <= 8_400_000_000_000_000_000_000)
        by (nonlinear_arith)
        requires
            -8_400_000_000_000 <= p.0 <= 8_400_000_000_000,
    ;
    p.0 as i128 * SECOND_NS + p.1 as i128
}

// ===================== chrono =====================

/// chrono: the timestamp (seconds, nanoseconds) of an RFC 3339 text.
pub uninterp spec fn chrono_rfc3339_instant(value: Seq<char>) -> Option<(int, int)>;

/// chrono: the year, month and day of a text read as a date with a pattern.
pub uninterp spec fn chrono_date_fields(value: Seq<char>, fmt: Seq<char>) -> Option<(int, int, int)>;

/// chrono: the year, month, day, hour, minute, second and nanosecond of a
/// text read as a date and time with a pattern.
pub uninterp spec fn chrono_datetime_fields(value: Seq<char>, fmt: Seq<char>) -> Option<(int, int, int, int, int, int, int)>;

/// chrono: the UTC instant with the given timestamp written with a pattern.
pub uninterp spec fn chrono_utc_format(secs: int, nanos: int, fmt: Seq<char>) -> Seq<char>;

/// Calls `DateTime::parse_from_rfc3339` and reads the UTC timestamp. The
/// contract claims the result is a function of the text and lies in
/// chrono's range (a leap second carries its extra second in the
/// nanoseconds).
#[verifier::external_body]
fn rfc3339_instant(value: &str) -> (r: Option<(i64, u32)>)
    ensures
        match r {
            Some(p) => chrono_rfc3339_instant(value@) == Some((p.0 as int, p.1 as int))
                && CHRONO_MIN_SECS <= p.0 <= CHRONO_MAX_SECS && p.1 < 2_000_000_000,
            None => chrono_rfc3339_instant(value@) is None,
        },
{
    match chrono::DateTime::parse_from_rfc3339(value) {
        Ok(d) => Some((d.timestamp(), d.timestamp_subsec_nanos())),
        Err(_) => None,
    }
}

/// Calls `NaiveDate::parse_from_str` and reads the date. The contract claims
/// the result is a function of the two texts, with a year, month and day in
/// chrono's ranges.
#[verifier::external_body]
fn date_fields(value: &str, fmt: &str) -> (r: Option<(i32, u32, u32)>)
    ensures
        match r {
            Some(f) => chrono_date_fields(value@, fmt@) == Some((f.0 as int, f.1 as int, f.2 as int))
                && 1 <= f.1 <= 12 && 1 <= f.2 <= 31 && -262_143 <= f.0 <= 262_142 && chrono_date(
                f.0 as int,
                f.1 as int,
                f.2 as int,
            ),
            None => chrono_date_fields(value@, fmt@) is None,
        },
{
    match chrono::NaiveDate::parse_from_str(value, fmt) {
        Ok(d) => Some((d.year(), d.month(), d.day())),
        Err(_) => None,
    }
}

/// Calls `NaiveDateTime::parse_from_str` and reads the date and time. The
/// contract claims the result is a function of the two texts, with each
/// field in chrono's range.
#[verifier::external_body]
fn datetime_fields(value: &str, fmt: &str) -> (r: Option<(i32, u32, u32, u32, u32, u32, u32)>)
    ensures
        match r {
            Some(f) => chrono_datetime_fields(value@, fmt@) == Some(
                (f.0 as int, f.1 as int, f.2 as int, f.3 as int, f.4 as int, f.5 as int, f.6 as int),
            ) && 1 <= f.1 <= 12 && 1 <= f.2 <= 31 && f.3 < 24 && f.4 < 60 && f.5 < 60 && f.6 < 2_000_000_000
                && -262_143 <= f.0 <= 262_142 && chrono_date(f.0 as int, f.1 as int, f.2 as int) && chrono_time(
                f.3 as int,
                f.4 as int,
                f.5 as int,
                f.6 as int,
            ),
            None => chrono_datetime_fields(value@, fmt@) is None,
        },
{
    match chrono::NaiveDateTime::parse_from_str(value, fmt) {
        Ok(d) => Some((d.year(), d.month(), d.day(), d.hour(), d.minute(), d.second(), d.nanosecond())),
        Err(_) => None,
    }
}

/// A time of day that `NaiveTime::from_hms_nano_opt` accepts: a leap second
/// only as the nanoseconds past 59 seconds.
pub open spec fn chrono_time(h: int, mi: int, s: int, ns: int) -> bool {
    h < 24 && mi < 60 && s < 60 && ns < 2_000_000_000 && (ns >= 1_000_000_000 ==> s == 59)
}

/// The UTC offsets (seconds east of UTC) that the machine's time zone gives
/// a local date and time: one; two where the local clock repeats that time,
/// in chrono's order; or none where the local clock skips it.
#[derive(Clone, Copy)]
pub enum LocalOffsets {
    Single(i32),
    Ambiguous(i32, i32),
    Skipped,
}

/// Offsets that chrono's `FixedOffset` holds: less than a day either way.
pub open spec fn offsets_ok(o: LocalOffsets) -> bool {
    match o {
        LocalOffsets::Single(a) => -86_400 < a < 86_400,
        LocalOffsets::Ambiguous(a, b) => -86_400 < a < 86_400 && -86_400 < b < 86_400,
        LocalOffsets::Skipped => true,
    }
}

/// Calls `Local.offset_from_local_datetime` on the naive date and time whose
/// seconds, read as UTC, are `naive`, and reads each offset it gives with
/// `local_minus_utc`. Which offsets depends on the machine's time zone; the
/// contract claims only that each is less than a day.
#[verifier::external_body]
fn local_offsets(naive: i64) -> (r: LocalOffsets)
    requires
        CHRONO_MIN_SECS <= naive <= CHRONO_MAX_SECS,
    ensures
        offsets_ok(r),
{
    let dt = chrono::DateTime::from_timestamp(naive, 0).unwrap_or_default().naive_utc();
    match chrono::Local.offset_from_local_datetime(&dt) {
        chrono::LocalResult::Single(o) => LocalOffsets::Single(o.local_minus_utc()),
        chrono::LocalResult::Ambiguous(a, b) => LocalOffsets::Ambiguous(a.local_minus_utc(), b.local_minus_utc()),
        chrono::LocalResult::None => LocalOffsets::Skipped,
    }
}

/// Calls `Local.offset_from_utc_datetime` at an instant and reads the offset
/// with `local_minus_utc`. Which offset depends on the machine's time zone;
/// the contract claims only that it is less than a day.
#[verifier::external_body]
fn utc_offset(secs: i64, nanos: u32) -> (r: i32)
    requires
        CHRONO_MIN_SECS <= secs <= CHRONO_MAX_SECS,
        nanos < 1_000_000_000,
    ensures
        -86_400 < r < 86_400,
{
    let dt = chrono::DateTime::from_timestamp(secs, nanos).unwrap_or_default().naive_utc();
    chrono::Local.offset_from_utc_datetime(&dt).local_minus_utc()
}

/// Unix seconds that chrono's dates hold.
pub open spec fn secs_in_chrono(s: int) -> bool {
    CHRONO_MIN_SECS <= s <= CHRONO_MAX_SECS
}

/// The instant (Unix seconds) of a local date and time whose naive seconds
/// (read as UTC) are `naive`, given the offsets the time zone has for it: the
/// naive time less its offset; where the local clock repeats the time, the
/// reading with the first offset; where it skips the time, or the reading
/// would leave chrono's range, the naive time read as UTC.
pub open spec fn local_reading(naive: int, offs: LocalOffsets) -> int {
    match offs {
        LocalOffsets::Single(a) => if secs_in_chrono(naive - a) {
            naive - a
        } else {
            naive
        },
        LocalOffsets::Ambiguous(a, b) => if secs_in_chrono(naive - a) && secs_in_chrono(naive - b) {
            naive - a
        } else {
            naive
        },
        LocalOffsets::Skipped => naive,
    }
}

/// `local_reading`, computed.
pub fn read_local(naive: i64, offs: LocalOffsets) -> (r: i64)
    requires
        secs_in_chrono(naive as int),
        offsets_ok(offs),
    ensures
        r as int == local_reading(naive as int, offs),
        secs_in_chrono(r as int),
        naive - 86_400 < r < naive + 86_400,
{
    match offs {
        LocalOffsets::Single(a) => {
            let c: i64 = naive - a as i64;
            if CHRONO_MIN_SECS <= c && c <= CHRONO_MAX_SECS {
                c
            } else {
                naive
            }
        },
        LocalOffsets::Ambiguous(a, b) => {
            let c: i64 = naive - a as i64;
            let e: i64 = naive - b as i64;
            if CHRONO_MIN_SECS <= c && c <= CHRONO_MAX_SECS && CHRONO_MIN_SECS <= e && e <= CHRONO_MAX_SECS {
                c
            } else {
                naive
            }
        },
        LocalOffsets::Skipped => naive,
    }
}

/// `t` is the local midnight that begins the date `f`, read with some
/// offsets the time zone can have (see `local_reading`).
pub open spec fn local_midnight_read(f: (int, int, int), t: int) -> bool {
    exists|o: LocalOffsets|
        #![trigger local_reading(chrono_utc_seconds(f.0, f.1, f.2, 0, 0, 0)->0, o)]
        offsets_ok(o) && chrono_utc_seconds(f.0, f.1, f.2, 0, 0, 0) is Some && t == local_reading(
            chrono_utc_seconds(f.0, f.1, f.2, 0, 0, 0)->0,
            o,
        ) * (SECOND_NS as int)
}

/// `t` is the local date and time `f` (year, month, day, hour, minute,
/// second, nanosecond), read with some offsets the time zone can have.
pub open spec fn local_time_read(f: (int, int, int, int, int, int, int), t: int) -> bool {
    exists|o: LocalOffsets|
        #![trigger local_reading(chrono_utc_seconds(f.0, f.1, f.2, f.3, f.4, f.5)->0, o)]
        offsets_ok(o) && chrono_utc_seconds(f.0, f.1, f.2, f.3, f.4, f.5) is Some && t == local_reading(
            chrono_utc_seconds(f.0, f.1, f.2, f.3, f.4, f.5)->0,
            o,
        ) * (SECOND_NS as int) + f.6
}

/// The local date and time read with the machine's time zone (see
/// `local_reading`); `None` exactly when chrono has no such date or time of day.
fn local_instant(y: i32, mo: u32, d: u32, h: u32, mi: u32, s: u32, ns: u32) -> (r: Option<(i64, u32)>)
    ensures
        match r {
            Some(p) => CHRONO_MIN_SECS <= p.0 <= CHRONO_MAX_SECS && p.1 == ns && chrono_date(
                y as int,
                mo as int,
                d as int,
            ) && chrono_time(h as int, mi as int, s as int, ns as int) && local_time_read(
                (y as int, mo as int, d as int, h as int, mi as int, s as int, ns as int),
                p.0 * (SECOND_NS as int) + p.1,
            ),
            None => !(chrono_date(y as int, mo as int, d as int) && chrono_time(
                h as int,
                mi as int,
                s as int,
                ns as int,
            )),
        },
{
    if !(ns < 2_000_000_000 && (ns < 1_000_000_000 || s == 59)) {
        return None;
    }
    let naive = match utc_seconds(y, mo, d, h, mi, s) {
        Some(n) => n,
        None => {
            return None;
        },
    };
    let o = local_offsets(naive);
    let t = read_local(naive, o);
    proof {
        let cs = chrono_utc_seconds(y as int, mo as int, d as int, h as int, mi as int, s as int);
        assert(cs->0 == naive as int);
        assert(offsets_ok(o) && cs is Some && t as int == local_reading(cs->0, o));
        assert(t * (SECOND_NS as int) + ns == local_reading(cs->0, o) * (SECOND_NS as int) + ns);
    }
    Some((t, ns))
}

/// Calls `Local::now` and returns its timestamp. The result depends on the
/// clock; chrono panics before the epoch and past its range, so the contract
/// claims the seconds lie between them.
#[verifier::external_body]
fn local_now() -> (r: (i64, u32))
    ensures
        0 <= r.0 <= CHRONO_MAX_SECS,
        r.1 < 1_000_000_000,
{
    let now = chrono::Local::now();
    (now.timestamp(), now.timestamp_subsec_nanos())
}

/// Calls `DateTime::from_timestamp(..).format(fmt)` in UTC. The contract
/// claims the text is a function of the timestamp and the pattern.
#[verifier::external_body]
pub(crate) fn format_utc(secs: i64, nanos: u32, fmt: &str) -> (r: String)
    requires
        CHRONO_MIN_SECS <= secs <= CHRONO_MAX_SECS,
        nanos < 1_000_000_000,
        known_format(fmt@),
    ensures
        r@ == chrono_utc_format(secs as int, nanos as int, fmt@),
{
    chrono::DateTime::from_timestamp(secs, nanos).unwrap_or_default().format(fmt).to_string()
}

/// The instant written with `fmt` in local time for the offset `offset`: its
/// UTC seconds moved by the offset (the UTC text where that would leave
/// chrono's range).
pub open spec fn local_text_with(secs: int, nanos: int, fmt: Seq<char>, offset: int) -> Seq<char> {
    if secs_in_chrono(secs + offset) {
        chrono_utc_format(secs + offset, nanos, fmt)
    } else {
        chrono_utc_format(secs, nanos, fmt)
    }
}

/// `text` is the instant written with `fmt` in local time, for some offset
/// the time zone can have.
pub open spec fn local_text(secs: int, nanos: int, fmt: Seq<char>, text: Seq<char>) -> bool {
    exists|offset: int|
        #![trigger local_text_with(secs, nanos, fmt, offset)]
        -86_400 < offset < 86_400 && text == local_text_with(secs, nanos, fmt, offset)
}

/// Writes an instant in local time: the time zone's offset at the instant,
/// added to its UTC reading, written with `fmt`.
fn format_local(secs: i64, nanos: u32, fmt: &str) -> (r: String)
    requires
        CHRONO_MIN_SECS <= secs <= CHRONO_MAX_SECS,
        nanos < 1_000_000_000,
        known_format(fmt@),
    ensures
        local_text(secs as int, nanos as int, fmt@, r@),
{
    let offset = utc_offset(secs, nanos);
    let l: i64 = secs + offset as i64;
    let at: i64 = if CHRONO_MIN_SECS <= l && l <= CHRONO_MAX_SECS {
        l
    } else {
        secs
    };
    let r = format_utc(at, nanos, fmt);
    assert(r@ == local_text_with(secs as int, nanos as int, fmt@, offset as int));
    r
}

// ===================== Dates =====================

/// The day after a date, `None` past chrono's last date.
pub open spec fn next_day(y: int, m: int, d: int) -> Option<(int, int, int)> {
    match month_last_day(y, m) {
        None => None,
        Some(last) => if d < last {
            Some((y, m, d + 1))
        } else if m < 12 {
            Some((y, m + 1, 1))
        } else {
            Some((y + 1, 1, 1))
        },
    }
}

fn next_date(y: i32, m: u32, d: u32) -> (r: Option<(i32, u32, u32)>)
    requires
        -262_143 <= y,
        1 <= m <= 12,
        1 <= d <= 31,
    ensures
        match r {
            Some(x) => next_day(y as int, m as int, d as int) == Some((x.0 as int, x.1 as int, x.2 as int))
                && 1 <= x.1 <= 12 && 1 <= x.2 <= 31,
            None => next_day(y as int, m as int, d as int) is None,
        },
{
    let last = match last_day_of_month(y, m) {
        Some(l) => l,
        None => {
            return None;
        },
    };
    if d < last {
        Some((y, m, d + 1))
    } else if m < 12 {
        Some((y, m + 1, 1))
    } else {
        Some((y + 1, 1, 1))
    }
}

/// The seconds and nanoseconds of an instant chrono can hold.
pub(crate) fn timestamp_of(t: i128) -> (r: (i64, u32))
    requires
        in_chrono(t as int),
    ensures
        r.0 as int == seconds_of(t as int),
        r.1 as int == t - seconds_of(t as int) * (SECOND_NS as int),
        CHRONO_MIN_SECS <= r.0 <= CHRONO_MAX_SECS,
        r.1 < 1_000_000_000,
{
    let (secs, rem) = split_instant(t);
    proof {
        let ti = t as int;
        let si = secs as int;
        assert(CHRONO_MIN_SECS <= si <= CHRONO_MAX_SECS) by (nonlinear_arith)
            requires
                ti == si * 1_000_000_000 + rem,
                0 <= rem < 1_000_000_000,
                -8_334_601_228_800 * 1_000_000_000 <= ti < (8_210_266_876_799 + 1) * 1_000_000_000,
                CHRONO_MIN_SECS == -8_334_601_228_800,
                CHRONO_MAX_SECS == 8_210_266_876_799,
        ;
    }
    (secs, rem as u32)
}

// ===================== Event times =====================

/// The text ends in `Z`: a UTC time.
pub open spec fn is_utc_text(s: Seq<char>) -> bool {
    s.len() > 0 && s.last() == 'Z'
}

fn is_utc(value: &String) -> (r: bool)
    ensures
        r == is_utc_text(value@),
{
    proof {
        reveal_strlit("Z");
    }
    let cs = chars_of(value.as_str());
    let r = ends_with(&cs, "Z");
    proof {
        if r {
            assert(cs@[cs@.len() - 1] == "Z"@[0]);
        }
        if is_utc_text(value@) {
            assert(cs@.subrange(cs@.len() - 1, cs@.len() as int) =~= "Z"@);
        }
    }
    r
}

/// An instant whose seconds chrono can hold, a leap second aside.
pub open spec fn chrono_instant(t: int) -> bool {
    (CHRONO_MIN_SECS as int) * (SECOND_NS as int) <= t < (CHRONO_MAX_SECS as int + 2) * (SECOND_NS as int)
}

fn instant_in_range(p: (i64, u32)) -> (r: i128)
    requires
        CHRONO_MIN_SECS <= p.0 <= CHRONO_MAX_SECS,
        p.1 < 2_000_000_000,
    ensures
        r as int == instant_ns((p.0 as int, p.1 as int)),
        chrono_instant(r as int),
{
    let r = instant_of(p);
    proof {
        let si = p.0 as int;
        assert(chrono_instant(si * 1_000_000_000 + p.1 as int)) by (nonlinear_arith)
            requires
                -8_334_601_228_800 <= si <= 8_210_266_876_799,
                0 <= p.1 < 2_000_000_000,
                CHRONO_MIN_SECS == -8_334_601_228_800,
                CHRONO_MAX_SECS == 8_210_266_876_799,
                SECOND_NS == 1_000_000_000,
        ;
    }
    r
}

/// Local midnight at the start of a date, read with the machine's time zone
/// (see `local_reading`); `None` exactly when chrono has no such date.
fn local_midnight(f: (i32, u32, u32)) -> (r: Option<i128>)
    ensures
        match r {
            Some(t) => chrono_instant(t as int) && local_midnight_read((f.0 as int, f.1 as int, f.2 as int), t as int),
            None => true,
        },
        r is Some <==> chrono_date(f.0 as int, f.1 as int, f.2 as int),
{
    match local_instant(f.0, f.1, f.2, 0, 0, 0, 0) {
        Some(p) => Some(instant_in_range(p)),
        None => None,
    }
}

/// Reads the instant of an event's start or end: an all-day date is local
/// midnight, a time ending in `Z` is read as RFC 3339, any other time is
/// local time.
pub fn event_datetime_to_utc(dt: &EventDateTime) -> (r: Option<i128>)
    ensures
        datetime_read(dt@, opt_int(r)),
        dt.all_day && chrono_date_fields(dt.value@, "%Y-%m-%d"@) is None ==> r is None,
        !dt.all_day && is_utc_text(dt.value@) ==> opt_int(r) == opt_instant(chrono_rfc3339_instant(dt.value@)),
        !dt.all_day && !is_utc_text(dt.value@) && chrono_datetime_fields(dt.value@, "%Y-%m-%dT%H:%M:%S"@)
            is None ==> r is None,
        dt.all_day ==> (chrono_date_fields(dt.value@, "%Y-%m-%d"@) matches Some(f) ==> r matches Some(t)
            && local_midnight_read(f, t as int)),
        !dt.all_day && !is_utc_text(dt.value@) ==> (chrono_datetime_fields(dt.value@, "%Y-%m-%dT%H:%M:%S"@)
            matches Some(g) ==> r matches Some(t) && local_time_read(g, t as int)),
        match r {
            Some(t) => chrono_instant(t as int),
            None => true,
        },
{
    if dt.all_day {
        return match date_fields(dt.value.as_str(), "%Y-%m-%d") {
            Some(f) => local_midnight(f),
            None => None,
        };
    }
    if is_utc(&dt.value) {
        return match rfc3339_instant(dt.value.as_str()) {
            Some(p) => Some(instant_in_range(p)),
            None => None,
        };
    }
    match datetime_fields(dt.value.as_str(), "%Y-%m-%dT%H:%M:%S") {
        Some(f) => match local_instant(f.0, f.1, f.2, f.3, f.4, f.5, f.6) {
            Some(p) => Some(instant_in_range(p)),
            None => None,
        },
        None => None,
    }
}

/// A compact UTC time (`YYYYMMDDTHHMMSSZ`) as an instant.
pub open spec fn compact_utc_instant(value: Seq<char>) -> Option<int> {
    if !is_utc_text(value) {
        None
    } else {
        match chrono_datetime_fields(value.drop_last(), "%Y%m%dT%H%M%S"@) {
            None => None,
            Some(f) => match chrono_utc_seconds(f.0, f.1, f.2, f.3, f.4, f.5) {
                Some(s) => Some(s * (SECOND_NS as int) + f.6),
                None => None,
            },
        }
    }
}

/// How an event's start or end is read: an all-day date as the local
/// midnight that begins it, a time ending in `Z` as RFC 3339, any other time
/// as local time (local readings with some offsets of the time zone); `None`
/// where the text does not parse.
pub open spec fn datetime_read(dt: DateTimeModel, r: Option<int>) -> bool {
    if dt.all_day {
        match chrono_date_fields(dt.value, "%Y-%m-%d"@) {
            Some(f) => r matches Some(t) && local_midnight_read(f, t),
            None => r is None,
        }
    } else if is_utc_text(dt.value) {
        r == opt_instant(chrono_rfc3339_instant(dt.value))
    } else {
        match chrono_datetime_fields(dt.value, "%Y-%m-%dT%H:%M:%S"@) {
            Some(g) => r matches Some(t) && local_time_read(g, t),
            None => r is None,
        }
    }
}

/// How a rule's UNTIL text is read: an RFC 3339 time, a compact UTC time, or
/// a date as the local midnight that ends it (none past chrono's last
/// month); `None` for anything else.
pub open spec fn until_text_read(v: Seq<char>, r: Option<int>) -> bool {
    if chrono_rfc3339_instant(v) is Some {
        r == opt_instant(chrono_rfc3339_instant(v))
    } else if compact_utc_instant(v) is Some {
        r == compact_utc_instant(v)
    } else {
        match chrono_date_fields(v, "%Y%m%d"@) {
            Some(f) => match next_day(f.0, f.1, f.2) {
                Some(n) => r matches Some(t) && local_midnight_read(n, t),
                None => r is None,
            },
            None => r is None,
        }
    }
}

/// Reads a recurrence rule's UNTIL: an RFC 3339 time, a compact UTC time, or
/// a date (the rule then runs through that whole local day).
pub fn parse_until_utc(value: &str) -> (r: Option<i128>)
    ensures
        chrono_rfc3339_instant(value@) is Some ==> opt_int(r) == opt_instant(chrono_rfc3339_instant(value@)),
        chrono_rfc3339_instant(value@) is None && compact_utc_instant(value@) is Some ==> opt_int(r)
            == compact_utc_instant(value@),
        chrono_rfc3339_instant(value@) is None && compact_utc_instant(value@) is None && chrono_date_fields(
            value@,
            "%Y%m%d"@,
        ) is None ==> r is None,
        until_text_read(value@, opt_int(r)),
        match r {
            Some(t) => chrono_instant(t as int),
            None => true,
        },
{
    if let Some(p) = rfc3339_instant(value) {
        return Some(instant_in_range(p));
    }
    let owned = value.to_string();
    if is_utc(&owned) {
        let cs = chars_of(value);
        let stripped = string_of(&slice_chars(&cs, 0, cs.len() - 1));
        assert(stripped@ =~= value@.drop_last());
        if let Some(f) = datetime_fields(stripped.as_str(), "%Y%m%dT%H%M%S") {
            if let Some(s) = utc_seconds(f.0, f.1, f.2, f.3, f.4, f.5) {
                return Some(instant_in_range((s, f.6)));
            }
        }
    }
    match date_fields(value, "%Y%m%d") {
        Some(f) => {
            proof {
                lemma_next_day_valid(f.0 as int, f.1 as int, f.2 as int);
            }
            match next_date(f.0, f.1, f.2) {
                Some(n) => local_midnight(n),
                None => None,
            }
        },
        None => None,
    }
}

// ===================== Range bounds =====================

/// The message for a range bound that does not parse.
pub open spec fn invalid_range_message(value: Seq<char>) -> Seq<char> {
    "Invalid date/time '"@ + value + "'. Use YYYY-MM-DD or RFC3339."@
}

/// What a bound read from `value` may be: an RFC 3339 time exactly; a date or
/// a local time (`YYYY-MM-DDTHH:MM[:SS]`) as some local instant; anything
/// else the error naming `value`.
pub open spec fn range_bound_read(value: Seq<char>, r: Result<i128, Error>) -> bool {
    &&& chrono_rfc3339_instant(value) is Some ==> (r matches Ok(t) && opt_instant(
        chrono_rfc3339_instant(value),
    ) == Some(t as int))
    &&& r is Err ==> (r matches Err(Error::Config(m)) && m@ == invalid_range_message(value))
    &&& chrono_rfc3339_instant(value) is None && chrono_date_fields(value, "%Y-%m-%d"@) is None
        && chrono_datetime_fields(value, "%Y-%m-%dT%H:%M"@) is None && chrono_datetime_fields(
        value,
        "%Y-%m-%dT%H:%M:%S"@,
    ) is None ==> r is Err
    &&& r matches Ok(t) ==> chrono_instant(t as int)
}

/// How a date or a local time is read as a range bound, where the text is not
/// an RFC 3339 time: a date (`YYYY-MM-DD`) as the local midnight that begins
/// it, or for an end the one that begins the next day (an error past
/// chrono's last month); a local time (`YYYY-MM-DDTHH:MM[:SS]`) as that
/// local time; both read with some offsets of the time zone.
pub open spec fn range_bound_local(value: Seq<char>, end_of_day: bool, r: Result<i128, Error>) -> bool {
    let fd = chrono_date_fields(value, "%Y-%m-%d"@);
    let f1 = chrono_datetime_fields(value, "%Y-%m-%dT%H:%M"@);
    let fl = if f1 is Some {
        f1
    } else {
        chrono_datetime_fields(value, "%Y-%m-%dT%H:%M:%S"@)
    };
    chrono_rfc3339_instant(value) is None ==> match fd {
        Some(f) => match (if end_of_day {
            next_day(f.0, f.1, f.2)
        } else {
            Some(f)
        }) {
            Some(d) => r matches Ok(t) && local_midnight_read(d, t as int),
            None => r is Err,
        },
        None => match fl {
            Some(g) => r matches Ok(t) && local_time_read(g, t as int),
            None => r is Err,
        },
    }
}

/// The day after a date chrono holds is one too.
proof fn lemma_next_day_valid(y: int, m: int, d: int)
    requires
        chrono_date(y, m, d),
    ensures
        next_day(y, m, d) matches Some(n) ==> chrono_date(n.0, n.1, n.2),
{
}

fn invalid_range(value: &str) -> (r: Error)
    ensures
        r matches Error::Config(m) && m@ == invalid_range_message(value@),
{
    let mut v: Vec<char> = Vec::new();
    crate::text::extend_str(&mut v, "Invalid date/time '");
    crate::text::extend_str(&mut v, value);
    crate::text::extend_str(&mut v, "'. Use YYYY-MM-DD or RFC3339.");
    Error::Config(string_of(&v))
}

fn parse_user_range_datetime(value: &str, end_of_day: bool) -> (r: Result<i128, Error>)
    ensures
        range_bound_read(value@, r),
        range_bound_local(value@, end_of_day, r),
{
    if let Some(p) = rfc3339_instant(value) {
        return Ok(instant_in_range(p));
    }
    if let Some(f) = date_fields(value, "%Y-%m-%d") {
        proof {
            lemma_next_day_valid(f.0 as int, f.1 as int, f.2 as int);
        }
        let day = if end_of_day {
            next_date(f.0, f.1, f.2)
        } else {
            Some(f)
        };
        let t = match day {
            Some(d) => local_midnight(d),
            None => None,
        };
        return match t {
            Some(t) => Ok(t),
            None => Err(invalid_range(value)),
        };
    }
    let mut fields = datetime_fields(value, "%Y-%m-%dT%H:%M");
    if fields.is_none() {
        fields = datetime_fields(value, "%Y-%m-%dT%H:%M:%S");
    }
    match fields {
        Some(f) => match local_instant(f.0, f.1, f.2, f.3, f.4, f.5, f.6) {
            Some(p) => Ok(instant_in_range(p)),
            None => Err(invalid_range(value)),
        },
        None => Err(invalid_range(value)),
    }
}

/// Reads the start of a user-given range: an RFC 3339 time, a date (its
/// local midnight) or a local time.
pub fn parse_range_start(value: &str) -> (r: Result<i128, Error>)
    ensures
        range_bound_read(value@, r),
        range_bound_local(value@, false, r),
{
    parse_user_range_datetime(value, false)
}

/// Reads the end of a user-given range: an RFC 3339 time, a date (the local
/// midnight that ends it) or a local time.
pub fn parse_range_end(value: &str) -> (r: Result<i128, Error>)
    ensures
        range_bound_read(value@, r),
        range_bound_local(value@, true, r),
{
    parse_user_range_datetime(value, true)
}

/// The naive seconds of the midnight that begins the day holding the naive
/// seconds `local`.
pub open spec fn day_start(local: int) -> int {
    local - local % 86_400
}

fn day_start_of(local: i64) -> (r: i64)
    requires
        -86_400 < local <= CHRONO_MAX_SECS + 86_400,
    ensures
        r as int == day_start(local as int),
        local - 86_400 < r <= local,
{
    let y: u64 = (local + 86_400) as u64;
    let m: u64 = y % 86_400;
    proof {
        let l = local as int;
        assert((l + 86_400) % 86_400 == l % 86_400 && 0 <= l % 86_400 < 86_400) by (nonlinear_arith);
    }
    local - m as i64
}

/// The naive seconds of the Monday midnight that begins the week holding the
/// naive seconds `local`.
pub open spec fn week_start(local: int) -> int {
    let d = day_start(local);
    d - weekday_of(d * (SECOND_NS as int)) * 86_400
}

fn week_start_of(local: i64) -> (r: i64)
    requires
        -86_400 < local <= CHRONO_MAX_SECS + 86_400,
    ensures
        r as int == week_start(local as int),
        local - 8 * 86_400 < r <= local,
{
    let d = day_start_of(local);
    let k = weekday_number(d as i128 * 1_000_000_000);
    d - (k as i64) * 86_400
}

/// An optional pair of instants as integers.
pub open spec fn opt_pair(r: Option<(i128, i128)>) -> Option<(int, int)> {
    match r {
        Some(p) => Some((p.0 as int, p.1 as int)),
        None => None,
    }
}

/// From the instant `now` to the local midnight that ends its local day, for
/// the offset `offset` that the time zone has at `now` and the offsets `next`
/// it has for that midnight: `None` when the next local day is not one
/// chrono holds.
pub open spec fn today_range_spec(now: (int, int), offset: int, next: LocalOffsets) -> Option<(int, int)> {
    let t = day_start(now.0 + offset) + 86_400;
    if t <= CHRONO_MAX_SECS - 86_399 {
        Some((instant_ns(now), local_reading(t, next) * (SECOND_NS as int)))
    } else {
        None
    }
}

/// `today_range_spec`, computed.
pub fn today_range_of(now: (i64, u32), offset: i32, next: LocalOffsets) -> (r: Option<(i128, i128)>)
    requires
        0 <= now.0 <= CHRONO_MAX_SECS,
        now.1 < 1_000_000_000,
        -86_400 < offset < 86_400,
        offsets_ok(next),
    ensures
        opt_pair(r) == today_range_spec((now.0 as int, now.1 as int), offset as int, next),
        match r {
            Some(p) => chrono_instant(p.0 as int) && chrono_instant(p.1 as int),
            None => true,
        },
{
    let t = day_start_of(now.0 + offset as i64) + 86_400;
    if t > CHRONO_MAX_SECS - 86_399 {
        return None;
    }
    let start = instant_in_range(now);
    let end = read_local(t, next);
    Some((start, instant_in_range((end, 0))))
}

/// From now to the next local midnight; `None` when the next local day is
/// not one chrono holds. For the clock's reading `now`, the time zone's
/// offset at it, and its offsets for that midnight, the range is
/// `today_range_spec` of them.
pub fn default_today_range() -> (r: Option<(i128, i128)>)
    ensures
        exists|now: (int, int), offset: int, next: LocalOffsets|
            #![trigger today_range_spec(now, offset, next)]
            0 <= now.0 <= CHRONO_MAX_SECS && 0 <= now.1 < 1_000_000_000 && -86_400 < offset < 86_400
                && offsets_ok(next) && opt_pair(r) == today_range_spec(now, offset, next),
        match r {
            Some(p) => chrono_instant(p.0 as int) && chrono_instant(p.1 as int),
            None => true,
        },
{
    let now = local_now();
    let offset = utc_offset(now.0, now.1);
    let t = day_start_of(now.0 + offset as i64) + 86_400;
    let ghost nw = (now.0 as int, now.1 as int);
    if t > CHRONO_MAX_SECS - 86_399 {
        assert(opt_pair(None) == today_range_spec(nw, offset as int, LocalOffsets::Skipped));
        return None;
    }
    let next = local_offsets(t);
    let r = today_range_of(now, offset, next);
    assert(opt_pair(r) == today_range_spec(nw, offset as int, next));
    r
}

/// The local midnights that begin the week holding the naive seconds of
/// `now_secs + offset` and the next week, for the offsets `first` and
/// `second` that the time zone has for them: `None` when chrono does not
/// hold those days.
pub open spec fn week_range_spec(now_secs: int, offset: int, first: LocalOffsets, second: LocalOffsets) -> Option<(int, int)> {
    let a = week_start(now_secs + offset);
    let b = a + 7 * 86_400;
    if CHRONO_MIN_SECS <= a && b <= CHRONO_MAX_SECS - 86_399 {
        Some((local_reading(a, first) * (SECOND_NS as int), local_reading(b, second) * (SECOND_NS as int)))
    } else {
        None
    }
}

/// `week_range_spec`, computed; the week starts before it ends.
pub fn week_range_of(now_secs: i64, offset: i32, first: LocalOffsets, second: LocalOffsets) -> (r: Option<(i128, i128)>)
    requires
        0 <= now_secs <= CHRONO_MAX_SECS,
        -86_400 < offset < 86_400,
        offsets_ok(first),
        offsets_ok(second),
    ensures
        opt_pair(r) == week_range_spec(now_secs as int, offset as int, first, second),
        match r {
            Some(p) => chrono_instant(p.0 as int) && chrono_instant(p.1 as int) && p.0 < p.1,
            None => true,
        },
{
    let a = week_start_of(now_secs + offset as i64);
    if a < CHRONO_MIN_SECS || a > CHRONO_MAX_SECS - 86_399 - 7 * 86_400 {
        return None;
    }
    let b = a + 7 * 86_400;
    let x = read_local(a, first);
    let y = read_local(b, second);
    let p = (instant_in_range((x, 0)), instant_in_range((y, 0)));
    assert(p.0 < p.1) by (nonlinear_arith)
        requires
            p.0 == x * 1_000_000_000,
            p.1 == y * 1_000_000_000,
            x < a + 86_400,
            y > b - 86_400,
            b == a + 7 * 86_400,
    ;
    Some(p)
}

/// The local midnights that begin this week's Monday and the next; `None`
/// near the ends of chrono's range. For the clock's reading, the time zone's
/// offset at it, and its offsets for the two midnights, the range is
/// `week_range_spec` of them.
pub fn current_week_range() -> (r: Option<(i128, i128)>)
    ensures
        exists|now_secs: int, offset: int, first: LocalOffsets, second: LocalOffsets|
            #![trigger week_range_spec(now_secs, offset, first, second)]
            0 <= now_secs <= CHRONO_MAX_SECS && -86_400 < offset < 86_400 && offsets_ok(first) && offsets_ok(
                second,
            ) && opt_pair(r) == week_range_spec(now_secs, offset, first, second),
        match r {
            Some(p) => chrono_instant(p.0 as int) && chrono_instant(p.1 as int) && p.0 < p.1,
            None => true,
        },
{
    let now = local_now();
    let offset = utc_offset(now.0, now.1);
    let a = week_start_of(now.0 + offset as i64);
    if a < CHRONO_MIN_SECS || a > CHRONO_MAX_SECS - 86_399 - 7 * 86_400 {
        assert(opt_pair(None) == week_range_spec(now.0 as int, offset as int, LocalOffsets::Skipped, LocalOffsets::Skipped));
        return None;
    }
    let first = local_offsets(a);
    let second = local_offsets(a + 7 * 86_400);
    let r = week_range_of(now.0, offset, first, second);
    assert(opt_pair(r) == week_range_spec(now.0 as int, offset as int, first, second));
    r
}

// ===================== Writing instants =====================

/// What shifting an event time to an instant gives: an all-day date stays
/// all-day with no zone; a UTC time is written in UTC; a local time keeps
/// its zone.
pub open spec fn shifted_time(template: DateTimeModel, t: int, out: DateTimeModel) -> bool {
    let secs = seconds_of(t);
    &&& template.all_day ==> out.all_day && out.timezone is None && local_text(
        secs,
        t - secs * (SECOND_NS as int),
        "%Y-%m-%d"@,
        out.value,
    )
    &&& !template.all_day && is_utc_text(template.value) ==> out == DateTimeModel {
        value: chrono_utc_format(secs, t - secs * (SECOND_NS as int), "%Y-%m-%dT%H:%M:%SZ"@),
        timezone: None,
        all_day: false,
    }
    &&& !template.all_day && !is_utc_text(template.value) ==> !out.all_day && out.timezone == template.timezone
        && local_text(secs, t - secs * (SECOND_NS as int), "%Y-%m-%dT%H:%M:%S"@, out.value)
}

/// Writes the instant in the form of `template`: a local date, a UTC time or
/// a local time.
pub fn shift_event_datetime(template: &EventDateTime, t: i128) -> (r: EventDateTime)
    requires
        in_chrono(t as int),
    ensures
        shifted_time(template@, t as int, r@),
{
    let p = timestamp_of(t);
    if template.all_day {
        proof {
            reveal_strlit("%Y-%m-%d");
        }
        return EventDateTime { value: format_local(p.0, p.1, "%Y-%m-%d"), timezone: None, all_day: true };
    }
    if is_utc(&template.value) {
        proof {
            reveal_strlit("%Y-%m-%dT%H:%M:%SZ");
        }
        EventDateTime { value: format_utc(p.0, p.1, "%Y-%m-%dT%H:%M:%SZ"), timezone: None, all_day: false }
    } else {
        proof {
            reveal_strlit("%Y-%m-%dT%H:%M:%S");
        }
        EventDateTime {
            value: format_local(p.0, p.1, "%Y-%m-%dT%H:%M:%S"),
            timezone: clone_opt(&template.timezone),
            all_day: false,
        }
    }
}

/// Whether chrono can write the instant as a date.
pub fn in_chrono_range(t: i128) -> (r: bool)
    ensures
        r == in_chrono(t as int),
{
    (CHRONO_MIN_SECS as i128) * SECOND_NS <= t && t < (CHRONO_MAX_SECS as i128 + 1) * SECOND_NS
}

} // verus!
