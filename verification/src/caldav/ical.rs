//! The iCalendar (RFC 5545) codec for single VEVENTs.
use vstd::prelude::*;
use crate::folding::{
    escape_text, escape_text_chars, fold, fold_all, fold_into, trim_end_char, trim_end_char_chars,
    lemma_escape_text_single_line,
    unescape_text, unescape_text_chars, unfold, unfold_chars,
};
use crate::carddav::opt_view;
use crate::carddav::vcard::opt_chars_view;
use crate::carddav::clone_opt;
use crate::carddav::vcard::opt_string;
use crate::caldav::{
    AttendeeModel, CalendarEvent, DateTimeModel, EventAttendee, EventDateTime, EventModel,
    EventRecurrence, EventReminder, RecurrenceModel, ReminderModel, attendees_view,
    recurrence_view, reminders_view, strings_view,
};
use crate::caldav::recurrence::chrono_date;
use crate::caldav::readback::{
    canonical_datetime, chrono_round_trips, exact_event, lemma_canonical_trim, lemma_exact_event_round_trip,
};
use crate::text::{
    digits_value,
    after_last, after_last_char, all_digits, before_first, before_first_char, byte_len, chars_of,
    eq_ignore_ascii_case, eq_str, extend_chars, extend_str, lower_ascii, lower_ascii_chars,
    slice_chars, split_chars, split_on, split_once, split_once_char, starts_with, string_of,
    decimal, decimal_chars, find_char, first_index_of, join, join_chars, parse_i32, parse_i32_chars,
    parse_u32, parse_u32_chars, strings_of, lines, split_lines, trim, trim_chars, single_line,
    lemma_single_line_concat, lemma_decimal_single_line, lemma_join_single_line, is_digit,
    lemma_decimal_value, lemma_parse_i32_decimal, lemma_first_index_of_unique,
    lemma_last_index_of_unique,
    strip_all_prefix, strip_all_prefix_chars, upper_ascii, upper_ascii_chars, utf8_width,
};

verus! {

// ===================== Text values =====================

/// Unfold iCalendar lines per RFC 5545 §3.1.
pub fn unfold_ical(raw: &str) -> (r: String)
    ensures
        r@ == unfold(raw@),
{
    let cs = chars_of(raw);
    let u = unfold_chars(&cs);
    string_of(&u)
}

/// Fold one content line at 75 octets per RFC 5545 §3.1, ending it in CRLF.
pub fn fold_ical_line(line: &str) -> (r: String)
    ensures
        r@ == fold(line@),
{
    let cs = chars_of(line);
    let mut out: Vec<char> = Vec::new();
    fold_into(&cs, &mut out);
    string_of(&out)
}

/// Escape a TEXT value per RFC 5545 §3.3.11.
pub fn escape_ical_value(value: &str) -> (r: String)
    ensures
        r@ == escape_text(value@),
{
    let cs = chars_of(value);
    let e = escape_text_chars(&cs);
    string_of(&e)
}

/// Unescape a TEXT value per RFC 5545 §3.3.11 (`\n` and `\N` are newlines).
pub fn unescape_ical_value(value: &str) -> (r: String)
    ensures
        r@ == unescape_text(value@, true),
{
    let cs = chars_of(value);
    let e = unescape_text_chars(&cs, true);
    string_of(&e)
}

/// The unescaped value of a content line: the text after the first `:`.
pub open spec fn line_value(line: Seq<char>) -> Seq<char> {
    match split_once(line, ':') {
        Some((_, v)) => unescape_text(v, true),
        None => seq![],
    }
}

/// The unescaped value of a content line.
pub fn extract_ical_value(line: &str) -> (r: String)
    ensures
        r@ == line_value(line@),
{
    let cs = chars_of(line);
    let v = value_of_line(&cs);
    string_of(&v)
}

/// `line_value` on characters.
pub fn value_of_line(line: &Vec<char>) -> (r: Vec<char>)
    ensures
        r@ == line_value(line@),
{
    match split_once_char(line, ':') {
        Some((_, v)) => unescape_text_chars(&v, true),
        None => Vec::new(),
    }
}

/// The parameters of a content line: the `;`-separated pieces of the text
/// before the first `:`, without the property name.
pub open spec fn line_params(line: Seq<char>) -> Seq<Seq<char>> {
    split_on(before_first(line, ':'), ';').skip(1)
}


/// `line_params` on characters.
fn params_of(line: &Vec<char>) -> (r: Vec<Vec<char>>)
    ensures
        r@.map_values(|l: Vec<char>| l@) == split_on(before_first(line@, ':'), ';'),
        r.len() >= 1,
{
    let head = before_first_char(line, ':');
    let r = split_chars(&head, ';');
    assert(r@.map_values(|l: Vec<char>| l@).len() == r.len());
    r
}

// ===================== Attendees =====================

/// Effect of one ATTENDEE parameter.
pub open spec fn attendee_param(a: AttendeeModel, part: Seq<char>) -> AttendeeModel {
    if "CN="@.is_prefix_of(part) {
        AttendeeModel { name: Some(unescape_text(part.skip(3), true)), ..a }
    } else if "ROLE="@.is_prefix_of(part) {
        AttendeeModel { role: Some(part.skip(5)), ..a }
    } else if "PARTSTAT="@.is_prefix_of(part) {
        AttendeeModel { partstat: Some(part.skip(9)), ..a }
    } else if "RSVP="@.is_prefix_of(part) {
        AttendeeModel { rsvp: Some(eq_ignore_ascii_case(part.skip(5), "TRUE"@)), ..a }
    } else {
        a
    }
}

/// Effect of a sequence of ATTENDEE parameters, the later ones winning.
pub open spec fn attendee_params(a: AttendeeModel, ps: Seq<Seq<char>>) -> AttendeeModel
    decreases ps.len(),
{
    if ps.len() == 0 {
        a
    } else {
        attendee_param(attendee_params(a, ps.drop_last()), ps.last())
    }
}

/// The attendee an ATTENDEE line describes: `None` when its address is empty.
pub open spec fn attendee_of(line: Seq<char>) -> Option<AttendeeModel> {
    let email = strip_all_prefix(after_last(line, ':'), "mailto:"@);
    if email.len() == 0 {
        None
    } else {
        Some(
            attendee_params(
                AttendeeModel { email, name: None, role: None, partstat: None, rsvp: None },
                line_params(line),
            ),
        )
    }
}

fn apply_attendee_param(a: &mut EventAttendee, part: &Vec<char>)
    ensures
        final(a)@ == attendee_param(old(a)@, part@),
{
    proof {
        reveal_strlit("CN=");
        reveal_strlit("ROLE=");
        reveal_strlit("PARTSTAT=");
        reveal_strlit("RSVP=");
        reveal_strlit("TRUE");
        reveal_strlit("true");
    }
    if starts_with(part, "CN=") {
        let rest = slice_chars(part, 3, part.len());
        let v = unescape_text_chars(&rest, true);
        a.name = Some(string_of(&v));
    } else if starts_with(part, "ROLE=") {
        let rest = slice_chars(part, 5, part.len());
        a.role = Some(string_of(&rest));
    } else if starts_with(part, "PARTSTAT=") {
        let rest = slice_chars(part, 9, part.len());
        a.partstat = Some(string_of(&rest));
    } else if starts_with(part, "RSVP=") {
        let rest = slice_chars(part, 5, part.len());
        let low = lower_ascii_chars(&rest);
        assert(lower_ascii("TRUE"@) =~= "true"@);
        a.rsvp = Some(eq_str(&low, "true"));
    }
}

/// Parse an ATTENDEE content line.
pub fn parse_attendee(line: &str) -> (r: Option<EventAttendee>)
    ensures
        match r {
            Some(a) => attendee_of(line@) == Some(a@),
            None => attendee_of(line@) is None,
        },
{
    proof {
        reveal_strlit("mailto:");
    }
    let cs = chars_of(line);
    let last = after_last_char(&cs, ':');
    let email = strip_all_prefix_chars(&last, "mailto:");
    if email.len() == 0 {
        return None;
    }
    let mut a = EventAttendee { email: string_of(&email), name: None, role: None, partstat: None, rsvp: None };
    let parts = params_of(&cs);
    let ghost pv = parts@.map_values(|l: Vec<char>| l@);
    let ghost base = a@;
    assert(pv.subrange(1, 1) =~= Seq::<Seq<char>>::empty());
    for k in 1..parts.len()
        invariant
            pv == parts@.map_values(|l: Vec<char>| l@),
            a@ == attendee_params(base, pv.subrange(1, k as int)),
    {
        apply_attendee_param(&mut a, &parts[k]);
        assert(pv.subrange(1, k + 1).drop_last() =~= pv.subrange(1, k as int));
    }
    assert(pv.subrange(1, parts.len() as int) =~= pv.skip(1));
    Some(a)
}

// ===================== Validation (RFC 5545) =====================

/// RFC 5545 §3.3.10: FREQ is one of the seven literal values, in any ASCII case.
pub open spec fn valid_freq(s: Seq<char>) -> bool {
    let u = upper_ascii(s);
    ||| u == "SECONDLY"@
    ||| u == "MINUTELY"@
    ||| u == "HOURLY"@
    ||| u == "DAILY"@
    ||| u == "WEEKLY"@
    ||| u == "MONTHLY"@
    ||| u == "YEARLY"@
}

pub fn is_valid_freq(s: &str) -> (r: bool)
    ensures
        r == valid_freq(s@),
{
    let cs = chars_of(s);
    let u = upper_ascii_chars(&cs);
    eq_str(&u, "SECONDLY") || eq_str(&u, "MINUTELY") || eq_str(&u, "HOURLY") || eq_str(&u, "DAILY")
        || eq_str(&u, "WEEKLY") || eq_str(&u, "MONTHLY") || eq_str(&u, "YEARLY")
}

/// RFC 5545 §3.3.10: UNTIL is a DATE (8 digits) or a UTC DATE-TIME
/// (`YYYYMMDDTHHMMSSZ`).
pub open spec fn valid_until(s: Seq<char>) -> bool {
    ||| (s.len() == 8 && all_digits(s))
    ||| (s.len() == 16 && s[8] == 'T' && s[15] == 'Z' && all_digits(s.take(8)) && all_digits(
        s.subrange(9, 15),
    ))
}

fn digits_between(s: &Vec<char>, lo: usize, hi: usize) -> (r: bool)
    requires
        lo <= hi <= s.len(),
    ensures
        r == all_digits(s@.subrange(lo as int, hi as int)),
{
    for i in lo..hi
        invariant
            lo <= hi <= s.len(),
            all_digits(s@.subrange(lo as int, i as int)),
    {
        if !('0' <= s[i] && s[i] <= '9') {
            assert(s@.subrange(lo as int, hi as int)[i - lo] == s@[i as int]);
            return false;
        }
        assert(s@.subrange(lo as int, i + 1) =~= s@.subrange(lo as int, i as int).push(s@[i as int]));
    }
    true
}

pub fn is_valid_rrule_until(s: &str) -> (r: bool)
    ensures
        r == valid_until(s@),
{
    let cs = chars_of(s);
    let n = cs.len();
    if n == 8 {
        let d = digits_between(&cs, 0, 8);
        assert(cs@.subrange(0, 8) =~= cs@);
        d
    } else if n == 16 && cs[8] == 'T' && cs[15] == 'Z' {
        assert(cs@.subrange(0, 8) =~= cs@.take(8));
        digits_between(&cs, 0, 8) && digits_between(&cs, 9, 15)
    } else {
        false
    }
}

/// A two-letter weekday code.
pub open spec fn weekday_code(s: Seq<char>) -> bool {
    s == "SU"@ || s == "MO"@ || s == "TU"@ || s == "WE"@ || s == "TH"@ || s == "FR"@ || s == "SA"@
}

/// RFC 5545 §3.3.10 weekdaynum: an optional ordinal of one or two digits,
/// signed or not, then a weekday code.
pub open spec fn valid_byday(s: Seq<char>) -> bool {
    let up = upper_ascii(s);
    &&& up.len() >= 2
    &&& weekday_code(up.skip(up.len() - 2))
    &&& {
        let prefix = up.take(up.len() - 2);
        ||| prefix.len() == 0
        ||| {
            let p = if prefix[0] == '+' || prefix[0] == '-' {
                prefix.drop_first()
            } else {
                prefix
            };
            0 < p.len() <= 2 && all_digits(p)
        }
    }
}

pub fn is_valid_byday(s: &str) -> (r: bool)
    ensures
        r == valid_byday(s@),
{
    let cs = chars_of(s);
    let up = upper_ascii_chars(&cs);
    let n = up.len();
    if n < 2 {
        return false;
    }
    let wd = slice_chars(&up, n - 2, n);
    assert(wd@ =~= up@.skip(up@.len() - 2));
    if !(eq_str(&wd, "SU") || eq_str(&wd, "MO") || eq_str(&wd, "TU") || eq_str(&wd, "WE") || eq_str(
        &wd,
        "TH",
    ) || eq_str(&wd, "FR") || eq_str(&wd, "SA")) {
        return false;
    }
    let prefix = slice_chars(&up, 0, n - 2);
    assert(prefix@ =~= up@.take(up@.len() - 2));
    if prefix.len() == 0 {
        return true;
    }
    let p = if prefix[0] == '+' || prefix[0] == '-' {
        let t = slice_chars(&prefix, 1, prefix.len());
        assert(t@ =~= prefix@.drop_first());
        t
    } else {
        prefix
    };
    let all = digits_between(&p, 0, p.len());
    assert(p@.subrange(0, p@.len() as int) =~= p@);
    p.len() > 0 && p.len() <= 2 && all
}

/// ATTENDEE ROLE values of RFC 5545, upper-cased; `None` for anything else.
pub open spec fn sanitized_role(role: Seq<char>) -> Option<Seq<char>> {
    let up = upper_ascii(role);
    if up == "CHAIR"@ || up == "REQ-PARTICIPANT"@ || up == "OPT-PARTICIPANT"@ || up
        == "NON-PARTICIPANT"@ {
        Some(up)
    } else {
        None
    }
}

/// ATTENDEE PARTSTAT values of RFC 5545, upper-cased; `None` for anything else.
pub open spec fn sanitized_partstat(partstat: Seq<char>) -> Option<Seq<char>> {
    let up = upper_ascii(partstat);
    if up == "NEEDS-ACTION"@ || up == "ACCEPTED"@ || up == "DECLINED"@ || up == "TENTATIVE"@ || up
        == "DELEGATED"@ || up == "COMPLETED"@ || up == "IN-PROCESS"@ {
        Some(up)
    } else {
        None
    }
}

fn sanitize_role_chars(role: &Vec<char>) -> (r: Option<Vec<char>>)
    ensures
        opt_chars_view(r) == sanitized_role(role@),
{
    let up = upper_ascii_chars(role);
    if eq_str(&up, "CHAIR") || eq_str(&up, "REQ-PARTICIPANT") || eq_str(&up, "OPT-PARTICIPANT")
        || eq_str(&up, "NON-PARTICIPANT") {
        Some(up)
    } else {
        None
    }
}

fn sanitize_partstat_chars(partstat: &Vec<char>) -> (r: Option<Vec<char>>)
    ensures
        opt_chars_view(r) == sanitized_partstat(partstat@),
{
    let up = upper_ascii_chars(partstat);
    if eq_str(&up, "NEEDS-ACTION") || eq_str(&up, "ACCEPTED") || eq_str(&up, "DECLINED") || eq_str(
        &up,
        "TENTATIVE",
    ) || eq_str(&up, "DELEGATED") || eq_str(&up, "COMPLETED") || eq_str(&up, "IN-PROCESS") {
        Some(up)
    } else {
        None
    }
}

/// Normalize and validate an ATTENDEE ROLE parameter value.
pub fn sanitize_role(role: &str) -> (r: Option<String>)
    ensures
        opt_view(r) == sanitized_role(role@),
{
    let cs = chars_of(role);
    match sanitize_role_chars(&cs) {
        Some(u) => Some(string_of(&u)),
        None => None,
    }
}

/// Normalize and validate an ATTENDEE PARTSTAT parameter value.
pub fn sanitize_partstat(partstat: &str) -> (r: Option<String>)
    ensures
        opt_view(r) == sanitized_partstat(partstat@),
{
    let cs = chars_of(partstat);
    match sanitize_partstat_chars(&cs) {
        Some(u) => Some(string_of(&u)),
        None => None,
    }
}

/// The `;CN=` parameter of an attendee, if it has a name.
pub open spec fn cn_param(a: AttendeeModel) -> Seq<char> {
    match a.name {
        Some(n) => ";CN="@ + escape_text(n),
        None => seq![],
    }
}

/// The `;ROLE=` parameter of an attendee, if its role is valid.
pub open spec fn role_param(a: AttendeeModel) -> Seq<char> {
    match a.role {
        Some(r) => match sanitized_role(r) {
            Some(u) => ";ROLE="@ + u,
            None => seq![],
        },
        None => seq![],
    }
}

/// The `;PARTSTAT=` parameter of an attendee, if its status is valid.
pub open spec fn partstat_param(a: AttendeeModel) -> Seq<char> {
    match a.partstat {
        Some(p) => match sanitized_partstat(p) {
            Some(u) => ";PARTSTAT="@ + u,
            None => seq![],
        },
        None => seq![],
    }
}

/// The `;RSVP=` parameter of an attendee, if it has one.
pub open spec fn rsvp_param(a: AttendeeModel) -> Seq<char> {
    match a.rsvp {
        Some(b) => ";RSVP="@ + if b {
            "TRUE"@
        } else {
            "FALSE"@
        },
        None => seq![],
    }
}

/// The ATTENDEE content line for an attendee (unfolded). Invalid ROLE and
/// PARTSTAT values are dropped and every TEXT value is escaped, so the line
/// never spans more than one logical line.
pub open spec fn attendee_line(a: AttendeeModel) -> Seq<char> {
    "ATTENDEE"@ + cn_param(a) + role_param(a) + partstat_param(a) + rsvp_param(a) + ":mailto:"@
        + escape_text(a.email)
}

fn push_cn(a: &EventAttendee, out: &mut Vec<char>)
    ensures
        final(out)@ == old(out)@ + cn_param(a@),
{
    match &a.name {
        Some(n) => {
            extend_str(out, ";CN=");
            let nc = chars_of(n.as_str());
            let e = escape_text_chars(&nc);
            extend_chars(out, &e);
        },
        None => {
            assert(old(out)@ + cn_param(a@) =~= old(out)@);
        },
    }
}

fn push_role(a: &EventAttendee, out: &mut Vec<char>)
    ensures
        final(out)@ == old(out)@ + role_param(a@),
{
    match &a.role {
        Some(role) => {
            let rc = chars_of(role.as_str());
            match sanitize_role_chars(&rc) {
                Some(u) => {
                    extend_str(out, ";ROLE=");
                    extend_chars(out, &u);
                },
                None => {
                    assert(old(out)@ + role_param(a@) =~= old(out)@);
                },
            }
        },
        None => {
            assert(old(out)@ + role_param(a@) =~= old(out)@);
        },
    }
}

fn push_partstat(a: &EventAttendee, out: &mut Vec<char>)
    ensures
        final(out)@ == old(out)@ + partstat_param(a@),
{
    match &a.partstat {
        Some(p) => {
            let pc = chars_of(p.as_str());
            match sanitize_partstat_chars(&pc) {
                Some(u) => {
                    extend_str(out, ";PARTSTAT=");
                    extend_chars(out, &u);
                },
                None => {
                    assert(old(out)@ + partstat_param(a@) =~= old(out)@);
                },
            }
        },
        None => {
            assert(old(out)@ + partstat_param(a@) =~= old(out)@);
        },
    }
}

fn push_rsvp(a: &EventAttendee, out: &mut Vec<char>)
    ensures
        final(out)@ == old(out)@ + rsvp_param(a@),
{
    match a.rsvp {
        Some(b) => {
            extend_str(out, ";RSVP=");
            if b {
                extend_str(out, "TRUE");
            } else {
                extend_str(out, "FALSE");
            }
        },
        None => {
            assert(old(out)@ + rsvp_param(a@) =~= old(out)@);
        },
    }
}

pub fn serialize_attendee(attendee: &EventAttendee) -> (r: String)
    ensures
        r@ == attendee_line(attendee@),
{
    let mut out: Vec<char> = Vec::new();
    extend_str(&mut out, "ATTENDEE");
    push_cn(attendee, &mut out);
    push_role(attendee, &mut out);
    push_partstat(attendee, &mut out);
    push_rsvp(attendee, &mut out);
    extend_str(&mut out, ":mailto:");
    let ec = chars_of(attendee.email.as_str());
    let e = escape_text_chars(&ec);
    extend_chars(&mut out, &e);
    assert(out@ =~= attendee_line(attendee@));
    string_of(&out)
}


// ===================== Recurrence rules =====================

/// The empty recurrence rule that parsing starts from.
pub open spec fn empty_recurrence() -> RecurrenceModel {
    RecurrenceModel { frequency: seq![], interval: None, count: None, until: None, by_day: seq![] }
}

/// Effect of one `KEY=VALUE` piece of an RRULE; a piece without `=` makes the
/// whole rule invalid.
pub open spec fn rrule_part(r: Option<RecurrenceModel>, part: Seq<char>) -> Option<RecurrenceModel> {
    match r {
        None => None,
        Some(x) => match split_once(part, '=') {
            None => None,
            Some((k, v)) => Some(
                if k == "FREQ"@ {
                    RecurrenceModel { frequency: v, ..x }
                } else if k == "INTERVAL"@ {
                    RecurrenceModel { interval: parse_u32(v), ..x }
                } else if k == "COUNT"@ {
                    RecurrenceModel { count: parse_u32(v), ..x }
                } else if k == "UNTIL"@ {
                    RecurrenceModel { until: Some(v), ..x }
                } else if k == "BYDAY"@ {
                    RecurrenceModel { by_day: split_on(v, ','), ..x }
                } else {
                    x
                },
            ),
        },
    }
}

/// Effect of a sequence of RRULE pieces.
pub open spec fn rrule_parts(ps: Seq<Seq<char>>) -> Option<RecurrenceModel>
    decreases ps.len(),
{
    if ps.len() == 0 {
        Some(empty_recurrence())
    } else {
        rrule_part(rrule_parts(ps.drop_last()), ps.last())
    }
}

/// The recurrence an RRULE value describes: `None` when a piece has no `=`
/// or no FREQ is given.
pub open spec fn rrule_of(value: Seq<char>) -> Option<RecurrenceModel> {
    match rrule_parts(split_on(value, ';')) {
        Some(x) => if x.frequency.len() > 0 {
            Some(x)
        } else {
            None
        },
        None => None,
    }
}

proof fn lemma_rrule_parts_none(ps: Seq<Seq<char>>, k: int)
    requires
        0 <= k <= ps.len(),
        rrule_parts(ps.take(k)) is None,
    ensures
        rrule_parts(ps) is None,
    decreases ps.len() - k,
{
    if k < ps.len() {
        assert(ps.take(k + 1).drop_last() =~= ps.take(k));
        lemma_rrule_parts_none(ps, k + 1);
    } else {
        assert(ps.take(k) =~= ps);
    }
}

/// Parse an RRULE value.
pub fn parse_rrule(value: &str) -> (r: Option<EventRecurrence>)
    ensures
        match r {
            Some(x) => rrule_of(value@) == Some(x@),
            None => rrule_of(value@) is None,
        },
{
    let cs = chars_of(value);
    let parts = split_chars(&cs, ';');
    let ghost pv = parts@.map_values(|l: Vec<char>| l@);
    let mut rec = EventRecurrence::default();
    assert(pv.take(0) =~= Seq::<Seq<char>>::empty());
    for i in 0..parts.len()
        invariant
            pv == parts@.map_values(|l: Vec<char>| l@),
            pv == split_on(value@, ';'),
            rrule_parts(pv.take(i as int)) == Some(rec@),
    {
        assert(pv.take(i + 1).drop_last() =~= pv.take(i as int));
        assert(pv.take(i + 1).last() == parts@[i as int]@);
        proof {
            reveal_strlit("FREQ");
            reveal_strlit("INTERVAL");
            reveal_strlit("COUNT");
            reveal_strlit("UNTIL");
            reveal_strlit("BYDAY");
        }
        match split_once_char(&parts[i], '=') {
            None => {
                proof {
                    lemma_rrule_parts_none(pv, i + 1);
                }
                return None;
            },
            Some((k, v)) => {
                if eq_str(&k, "FREQ") {
                    rec.frequency = string_of(&v);
                } else if eq_str(&k, "INTERVAL") {
                    rec.interval = parse_u32_chars(&v);
                } else if eq_str(&k, "COUNT") {
                    rec.count = parse_u32_chars(&v);
                } else if eq_str(&k, "UNTIL") {
                    rec.until = Some(string_of(&v));
                } else if eq_str(&k, "BYDAY") {
                    let days = split_chars(&v, ',');
                    rec.by_day = strings_of(&days);
                }
            },
        }
    }
    assert(pv.take(parts.len() as int) =~= pv);
    if rec.frequency.as_str().is_empty() {
        None
    } else {
        Some(rec)
    }
}

/// The valid BYDAY entries, upper-cased, in order.
pub open spec fn valid_days(days: Seq<Seq<char>>) -> Seq<Seq<char>>
    decreases days.len(),
{
    if days.len() == 0 {
        seq![]
    } else if valid_byday(days.last()) {
        valid_days(days.drop_last()).push(upper_ascii(days.last()))
    } else {
        valid_days(days.drop_last())
    }
}

/// The `KEY=VALUE` pieces written for a recurrence rule. An invalid FREQ is
/// written empty; an invalid UNTIL and invalid BYDAY entries are dropped.
pub open spec fn rrule_fields(r: RecurrenceModel) -> Seq<Seq<char>> {
    let freq = if valid_freq(r.frequency) {
        upper_ascii(r.frequency)
    } else {
        seq![]
    };
    let p1 = seq!["FREQ="@ + freq];
    let p2 = match r.interval {
        Some(i) => p1.push("INTERVAL="@ + decimal(i as nat)),
        None => p1,
    };
    let p3 = match r.count {
        Some(c) => p2.push("COUNT="@ + decimal(c as nat)),
        None => p2,
    };
    let p4 = match r.until {
        Some(u) => if valid_until(u) {
            p3.push("UNTIL="@ + u)
        } else {
            p3
        },
        None => p3,
    };
    let days = valid_days(r.by_day);
    if days.len() > 0 {
        p4.push("BYDAY="@ + join(days, ","@))
    } else {
        p4
    }
}

/// The RRULE value written for a recurrence rule.
pub open spec fn rrule_text(r: RecurrenceModel) -> Seq<char> {
    join(rrule_fields(r), ";"@)
}

fn valid_days_of(days: &Vec<String>) -> (r: Vec<Vec<char>>)
    ensures
        r@.map_values(|l: Vec<char>| l@) == valid_days(strings_view(days@)),
{
    let ghost dv = strings_view(days@);
    let mut r: Vec<Vec<char>> = Vec::new();
    assert(dv.take(0) =~= Seq::<Seq<char>>::empty());
    assert(r@.map_values(|l: Vec<char>| l@) =~= Seq::<Seq<char>>::empty());
    for i in 0..days.len()
        invariant
            dv == strings_view(days@),
            r@.map_values(|l: Vec<char>| l@) == valid_days(dv.take(i as int)),
    {
        assert(dv.take(i + 1).drop_last() =~= dv.take(i as int));
        assert(dv.take(i + 1).last() == days@[i as int]@);
        if is_valid_byday(days[i].as_str()) {
            let cs = chars_of(days[i].as_str());
            let up = upper_ascii_chars(&cs);
            let ghost before = r@;
            r.push(up);
            assert(r@.map_values(|l: Vec<char>| l@) =~= before.map_values(|l: Vec<char>| l@).push(up@));
        }
    }
    assert(dv.take(days.len() as int) =~= dv);
    r
}

fn push_field(parts: &mut Vec<Vec<char>>, key: &str, value: &Vec<char>)
    ensures
        final(parts)@.map_values(|l: Vec<char>| l@) == old(parts)@.map_values(|l: Vec<char>| l@).push(
            key@ + value@,
        ),
{
    let mut f: Vec<char> = Vec::new();
    extend_str(&mut f, key);
    extend_chars(&mut f, value);
    let ghost before = parts@;
    parts.push(f);
    assert(parts@.map_values(|l: Vec<char>| l@) =~= before.map_values(|l: Vec<char>| l@).push(
        key@ + value@,
    ));
}

/// Serialize a recurrence rule as an RRULE value.
pub fn serialize_rrule(recurrence: &EventRecurrence) -> (r: String)
    ensures
        r@ == rrule_text(recurrence@),
{
    let ghost x = recurrence@;
    let mut parts: Vec<Vec<char>> = Vec::new();
    let freq = if is_valid_freq(recurrence.frequency.as_str()) {
        let fc = chars_of(recurrence.frequency.as_str());
        upper_ascii_chars(&fc)
    } else {
        Vec::new()
    };
    push_field(&mut parts, "FREQ=", &freq);
    assert(parts@.map_values(|l: Vec<char>| l@) =~= seq!["FREQ="@ + freq@]);
    match recurrence.interval {
        Some(i) => {
            let d = decimal_chars(i as u64);
            push_field(&mut parts, "INTERVAL=", &d);
        },
        None => {},
    }
    match recurrence.count {
        Some(c) => {
            let d = decimal_chars(c as u64);
            push_field(&mut parts, "COUNT=", &d);
        },
        None => {},
    }
    match &recurrence.until {
        Some(u) => {
            if is_valid_rrule_until(u.as_str()) {
                let uc = chars_of(u.as_str());
                push_field(&mut parts, "UNTIL=", &uc);
            }
        },
        None => {},
    }
    let days = valid_days_of(&recurrence.by_day);
    if days.len() > 0 {
        let joined = join_chars(&days, ",");
        push_field(&mut parts, "BYDAY=", &joined);
    }
    assert(parts@.map_values(|l: Vec<char>| l@) == rrule_fields(x));
    let out = join_chars(&parts, ";");
    string_of(&out)
}

// ===================== Alarm triggers =====================

/// The hours of a `-PT…` trigger body: the number before the first `H`, when there is one.
pub open spec fn trigger_hours(rest: Seq<char>) -> int {
    if first_index_of(rest, 'H') is Some {
        match parse_i32(before_first(rest, 'H')) {
            Some(h) => h as int,
            None => 0,
        }
    } else {
        0
    }
}

/// The minutes of a `-PT…` trigger body: the number between the last `H` and a final `M`.
pub open spec fn trigger_mins(rest: Seq<char>) -> int {
    let tail = after_last(rest, 'H');
    if tail.len() > 0 && tail.last() == 'M' {
        match parse_i32(tail.drop_last()) {
            Some(m) => m as int,
            None => 0,
        }
    } else {
        0
    }
}

/// Minutes before the event that a TRIGGER value stands for (0 unless it starts with `-PT`).
pub open spec fn trigger_value(t: Seq<char>) -> int {
    if "-PT"@.is_prefix_of(t) {
        trigger_hours(t.skip(3)) * 60 + trigger_mins(t.skip(3))
    } else {
        0
    }
}

/// Parsing the TRIGGER value stays within `i32`.
pub open spec fn trigger_fits(t: Seq<char>) -> bool {
    "-PT"@.is_prefix_of(t) ==> {
        &&& i32::MIN <= trigger_hours(t.skip(3)) * 60 <= i32::MAX
        &&& i32::MIN <= trigger_value(t) <= i32::MAX
    }
}

/// Minutes before the event from a TRIGGER value such as `-PT1H30M`.
pub fn parse_trigger_minutes(trigger: &str) -> (r: i32)
    requires
        trigger_fits(trigger@),
    ensures
        r as int == trigger_value(trigger@),
{
    let cs = chars_of(trigger);
    proof {
        reveal_strlit("-PT");
    }
    if !starts_with(&cs, "-PT") {
        return 0;
    }
    let rest = slice_chars(&cs, 3, cs.len());
    assert(rest@ =~= cs@.skip(3));
    let mut minutes: i64 = 0;
    if find_char(&rest, 'H').is_some() {
        let head = before_first_char(&rest, 'H');
        let h: i64 = match parse_i32_chars(&head) {
            Some(h) => h as i64,
            None => 0,
        };
        minutes = h * 60;
    }
    let tail = after_last_char(&rest, 'H');
    if tail.len() > 0 && tail[tail.len() - 1] == 'M' {
        let body = slice_chars(&tail, 0, tail.len() - 1);
        assert(body@ =~= tail@.drop_last());
        let m: i64 = match parse_i32_chars(&body) {
            Some(m) => m as i64,
            None => 0,
        };
        minutes = minutes + m;
    }
    minutes as i32
}

/// The TRIGGER value written for a reminder `minutes_before` minutes ahead.
pub open spec fn trigger_text(minutes_before: int) -> Seq<char> {
    let total = if minutes_before < 0 {
        -minutes_before
    } else {
        minutes_before
    };
    let h = total / 60;
    let m = total % 60;
    if h == 0 {
        "-PT"@ + decimal(m as nat) + "M"@
    } else if m == 0 {
        "-PT"@ + decimal(h as nat) + "H"@
    } else {
        "-PT"@ + decimal(h as nat) + "H"@ + decimal(m as nat) + "M"@
    }
}

pub fn serialize_trigger_minutes(minutes_before: i32) -> (r: String)
    requires
        minutes_before != i32::MIN,
    ensures
        r@ == trigger_text(minutes_before as int),
{
    let total: i32 = if minutes_before < 0 {
        -minutes_before
    } else {
        minutes_before
    };
    let h = total / 60;
    let m = total % 60;
    let mut out: Vec<char> = Vec::new();
    extend_str(&mut out, "-PT");
    if h == 0 {
        let d = decimal_chars(m as u64);
        extend_chars(&mut out, &d);
        extend_str(&mut out, "M");
    } else if m == 0 {
        let d = decimal_chars(h as u64);
        extend_chars(&mut out, &d);
        extend_str(&mut out, "H");
    } else {
        let d = decimal_chars(h as u64);
        extend_chars(&mut out, &d);
        extend_str(&mut out, "H");
        let d2 = decimal_chars(m as u64);
        extend_chars(&mut out, &d2);
        extend_str(&mut out, "M");
    }
    string_of(&out)
}

// ===================== Weekdays =====================

/// Monday-based index of a weekday code.
pub open spec fn weekday_index(s: Seq<char>) -> Option<u32> {
    if s == "MO"@ {
        Some(0)
    } else if s == "TU"@ {
        Some(1)
    } else if s == "WE"@ {
        Some(2)
    } else if s == "TH"@ {
        Some(3)
    } else if s == "FR"@ {
        Some(4)
    } else if s == "SA"@ {
        Some(5)
    } else if s == "SU"@ {
        Some(6)
    } else {
        None
    }
}

pub fn weekday_code_to_index(value: &str) -> (r: Option<u32>)
    ensures
        r == weekday_index(value@),
{
    let cs = chars_of(value);
    if eq_str(&cs, "MO") {
        Some(0)
    } else if eq_str(&cs, "TU") {
        Some(1)
    } else if eq_str(&cs, "WE") {
        Some(2)
    } else if eq_str(&cs, "TH") {
        Some(3)
    } else if eq_str(&cs, "FR") {
        Some(4)
    } else if eq_str(&cs, "SA") {
        Some(5)
    } else if eq_str(&cs, "SU") {
        Some(6)
    } else {
        None
    }
}


// ===================== Dates and times =====================

/// The strftime patterns this module hands to chrono; each is valid.
pub open spec fn known_format(f: Seq<char>) -> bool {
    ||| f == "%Y%m%d"@
    ||| f == "%Y-%m-%d"@
    ||| f == "%Y%m%dT%H%M%S"@
    ||| f == "%Y-%m-%dT%H:%M:%S"@
    ||| f == "%Y%m%dT%H%M%SZ"@
    ||| f == "%Y-%m-%dT%H:%M:%SZ"@
    ||| f == "%Y-%m-%dT%H:%M"@
}

/// What chrono writes for the patterns of `known_format`: the numeric fields
/// (`%Y` zero-padded to four digits, with a sign outside 0..=9999; `%m`,
/// `%d`, `%H`, `%M`, `%S` as two digits) and the pattern's own separators.
pub open spec fn chrono_text(s: Seq<char>) -> bool {
    &&& s.len() > 0
    &&& forall|i: int|
        0 <= i < s.len() ==> is_digit(#[trigger] s[i]) || s[i] == '+' || s[i] == '-' || s[i] == 'T' || s[i]
            == ':' || s[i] == 'Z'
}

/// chrono: `value` parsed as a `NaiveDate` with `parse_fmt`, then formatted
/// with `out_fmt`; `None` when it does not parse.
pub uninterp spec fn chrono_date_reformat(value: Seq<char>, parse_fmt: Seq<char>, out_fmt: Seq<char>) -> Option<Seq<char>>;

/// chrono: `value` parsed as a `NaiveDateTime` with `parse_fmt`, then
/// formatted with `out_fmt`; `None` when it does not parse.
pub uninterp spec fn chrono_datetime_reformat(value: Seq<char>, parse_fmt: Seq<char>, out_fmt: Seq<char>) -> Option<Seq<char>>;

/// chrono: `value` parsed as an RFC 3339 date-time, converted to UTC and
/// formatted with `out_fmt`; `None` when it does not parse.
pub uninterp spec fn chrono_rfc3339_utc(value: Seq<char>, out_fmt: Seq<char>) -> Option<Seq<char>>;

/// A date written `YYYY-MM-DD` (four digits of year, two of month, two of
/// day) that names a day of the proleptic Gregorian calendar.
pub open spec fn dashed_date(v: Seq<char>) -> bool {
    &&& v.len() == 10
    &&& v[4] == '-'
    &&& v[7] == '-'
    &&& all_digits(v.subrange(0, 4))
    &&& all_digits(v.subrange(5, 7))
    &&& all_digits(v.subrange(8, 10))
    &&& chrono_date(
        digits_value(v.subrange(0, 4)) as int,
        digits_value(v.subrange(5, 7)) as int,
        digits_value(v.subrange(8, 10)) as int,
    )
}

/// The same date written `YYYYMMDD`.
pub open spec fn compact_date(v: Seq<char>) -> Seq<char> {
    v.subrange(0, 4) + v.subrange(5, 7) + v.subrange(8, 10)
}

/// A time of day written `YYYY-MM-DDTHH:MM:SS`: a `dashed_date`, then two
/// digits each of an hour below 24, a minute and a second below 60.
pub open spec fn dashed_datetime(v: Seq<char>) -> bool {
    &&& v.len() == 19
    &&& dashed_date(v.subrange(0, 10))
    &&& v[10] == 'T'
    &&& v[13] == ':'
    &&& v[16] == ':'
    &&& all_digits(v.subrange(11, 13))
    &&& all_digits(v.subrange(14, 16))
    &&& all_digits(v.subrange(17, 19))
    &&& digits_value(v.subrange(11, 13)) < 24
    &&& digits_value(v.subrange(14, 16)) < 60
    &&& digits_value(v.subrange(17, 19)) < 60
}

/// The same time written `YYYYMMDDTHHMMSS`.
pub open spec fn compact_datetime(v: Seq<char>) -> Seq<char> {
    compact_date(v.subrange(0, 10)) + "T"@ + v.subrange(11, 13) + v.subrange(14, 16) + v.subrange(17, 19)
}

/// Calls `chrono::NaiveDate::parse_from_str` and formats the date it returns
/// with a date pattern. The contract claims that the result is a function of
/// the three strings and that what chrono writes for these patterns is
/// `chrono_text`; and, for a `YYYY-MM-DD` date rewritten as `%Y%m%d`, that
/// chrono reads it (`%Y` takes up to four digits, `%m` and `%d` up to two),
/// writes its zero-padded digits without the dashes, and reads that back with
/// `%Y%m%d` as the same date. Which other values chrono accepts is not
/// stated here.
#[verifier::external_body]
pub(crate) fn reformat_date(value: &str, parse_fmt: &str, out_fmt: &str) -> (r: Option<String>)
    requires
        out_fmt@ == "%Y%m%d"@ || out_fmt@ == "%Y-%m-%d"@,
    ensures
        opt_view(r) == chrono_date_reformat(value@, parse_fmt@, out_fmt@),
        r matches Some(x) ==> chrono_text(x@),
        parse_fmt@ == "%Y-%m-%d"@ && out_fmt@ == "%Y%m%d"@ && dashed_date(value@) ==> opt_view(r) == Some(
            compact_date(value@),
        ),
        parse_fmt@ == "%Y-%m-%d"@ && out_fmt@ == "%Y%m%d"@ && dashed_date(value@) ==> chrono_date_reformat(
            or_else(opt_view(r), value@),
            "%Y%m%d"@,
            "%Y-%m-%d"@,
        ) == Some(value@),
{
    match chrono::NaiveDate::parse_from_str(value, parse_fmt) {
        Ok(d) => Some(d.format(out_fmt).to_string()),
        Err(_) => None,
    }
}

/// Calls `chrono::NaiveDateTime::parse_from_str` and formats the result; the
/// contract claims that the result is a function of the three strings and
/// that what chrono writes for these patterns is `chrono_text`; and, for a
/// `YYYY-MM-DDTHH:MM:SS` time rewritten as `%Y%m%dT%H%M%S`, that chrono
/// reads it, writes its zero-padded digits without the dashes and colons,
/// and reads that back with `%Y%m%dT%H%M%S` as the same time.
#[verifier::external_body]
pub(crate) fn reformat_datetime(value: &str, parse_fmt: &str, out_fmt: &str) -> (r: Option<String>)
    requires
        known_format(out_fmt@),
    ensures
        opt_view(r) == chrono_datetime_reformat(value@, parse_fmt@, out_fmt@),
        r matches Some(x) ==> chrono_text(x@),
        parse_fmt@ == "%Y-%m-%dT%H:%M:%S"@ && out_fmt@ == "%Y%m%dT%H%M%S"@ && dashed_datetime(value@) ==> opt_view(r)
            == Some(compact_datetime(value@)),
        parse_fmt@ == "%Y-%m-%dT%H:%M:%S"@ && out_fmt@ == "%Y%m%dT%H%M%S"@ && dashed_datetime(value@)
            ==> chrono_datetime_reformat(or_else(opt_view(r), value@), "%Y%m%dT%H%M%S"@, "%Y-%m-%dT%H:%M:%S"@)
            == Some(value@),
{
    match chrono::NaiveDateTime::parse_from_str(value, parse_fmt) {
        Ok(d) => Some(d.format(out_fmt).to_string()),
        Err(_) => None,
    }
}

/// Calls `chrono::DateTime::parse_from_rfc3339`, converts to UTC and formats
/// the result; the contract claims that the result is a function of the two
/// strings and that what chrono writes for these patterns is `chrono_text`.
#[verifier::external_body]
pub(crate) fn reformat_rfc3339_utc(value: &str, out_fmt: &str) -> (r: Option<String>)
    requires
        known_format(out_fmt@),
    ensures
        opt_view(r) == chrono_rfc3339_utc(value@, out_fmt@),
        r matches Some(x) ==> chrono_text(x@),
{
    match chrono::DateTime::parse_from_rfc3339(value) {
        Ok(d) => Some(d.with_timezone(&chrono::Utc).format(out_fmt).to_string()),
        Err(_) => None,
    }
}

/// The value of an option, or a fallback.
pub open spec fn or_else(o: Option<Seq<char>>, fallback: Seq<char>) -> Seq<char> {
    match o {
        Some(x) => x,
        None => fallback,
    }
}

/// Effect of one DTSTART/DTEND parameter on (time zone, all-day flag).
pub open spec fn dt_param(st: (Option<Seq<char>>, bool), part: Seq<char>) -> (Option<Seq<char>>, bool) {
    (
        if "TZID="@.is_prefix_of(part) {
            Some(part.skip(5))
        } else {
            st.0
        },
        if part == "VALUE=DATE"@ {
            true
        } else {
            st.1
        },
    )
}

/// Effect of a sequence of DTSTART/DTEND parameters.
pub open spec fn dt_params(ps: Seq<Seq<char>>) -> (Option<Seq<char>>, bool)
    decreases ps.len(),
{
    if ps.len() == 0 {
        (None, false)
    } else {
        dt_param(dt_params(ps.drop_last()), ps.last())
    }
}

/// The date-time a DTSTART or DTEND line describes. Values chrono cannot
/// read are kept as written.
pub open spec fn event_datetime_of(line: Seq<char>) -> DateTimeModel {
    let (tz, all_day) = dt_params(line_params(line));
    let raw = after_last(line, ':');
    let value = if all_day {
        or_else(chrono_date_reformat(raw, "%Y%m%d"@, "%Y-%m-%d"@), raw)
    } else if raw.len() > 0 && raw.last() == 'Z' {
        match chrono_datetime_reformat(raw.drop_last(), "%Y%m%dT%H%M%S"@, "%Y-%m-%dT%H:%M:%S"@) {
            Some(x) => x.push('Z'),
            None => raw,
        }
    } else {
        or_else(chrono_datetime_reformat(raw, "%Y%m%dT%H%M%S"@, "%Y-%m-%dT%H:%M:%S"@), raw)
    };
    DateTimeModel { value, timezone: tz, all_day }
}

fn or_else_chars(o: Option<String>, fallback: &Vec<char>) -> (r: Vec<char>)
    ensures
        r@ == or_else(opt_view(o), fallback@),
{
    match o {
        Some(x) => chars_of(x.as_str()),
        None => fallback.clone(),
    }
}

/// Parse a DTSTART or DTEND content line.
pub fn parse_event_datetime(line: &str) -> (r: EventDateTime)
    ensures
        r@ == event_datetime_of(line@),
{
    proof {
        reveal_strlit("TZID=");
        reveal_strlit("%Y%m%d");
        reveal_strlit("%Y-%m-%d");
        reveal_strlit("%Y%m%dT%H%M%S");
        reveal_strlit("%Y-%m-%dT%H:%M:%S");
    }
    let cs = chars_of(line);
    let parts = params_of(&cs);
    let ghost pv = parts@.map_values(|l: Vec<char>| l@);
    let mut timezone: Option<String> = None;
    let mut all_day = false;
    assert(pv.subrange(1, 1) =~= Seq::<Seq<char>>::empty());
    for k in 1..parts.len()
        invariant
            pv == parts@.map_values(|l: Vec<char>| l@),
            dt_params(pv.subrange(1, k as int)) == (opt_view(timezone), all_day),
    {
        assert(pv.subrange(1, k + 1).drop_last() =~= pv.subrange(1, k as int));
        assert(pv.subrange(1, k + 1).last() == parts@[k as int]@);
        let part = &parts[k];
        proof {
            reveal_strlit("TZID=");
        }
        if starts_with(part, "TZID=") {
            let tz = slice_chars(part, 5, part.len());
            timezone = Some(string_of(&tz));
        }
        if eq_str(part, "VALUE=DATE") {
            all_day = true;
        }
    }
    assert(pv.subrange(1, parts.len() as int) =~= pv.skip(1));
    let raw = after_last_char(&cs, ':');
    let rs = string_of(&raw);
    let value = if all_day {
        let d = reformat_date(rs.as_str(), "%Y%m%d", "%Y-%m-%d");
        or_else_chars(d, &raw)
    } else if raw.len() > 0 && raw[raw.len() - 1] == 'Z' {
        let stripped = slice_chars(&raw, 0, raw.len() - 1);
        assert(stripped@ =~= raw@.drop_last());
        let ss = string_of(&stripped);
        match reformat_datetime(ss.as_str(), "%Y%m%dT%H%M%S", "%Y-%m-%dT%H:%M:%S") {
            Some(x) => {
                let mut v = chars_of(x.as_str());
                v.push('Z');
                v
            },
            None => raw.clone(),
        }
    } else {
        let d = reformat_datetime(rs.as_str(), "%Y%m%dT%H%M%S", "%Y-%m-%dT%H:%M:%S");
        or_else_chars(d, &raw)
    };
    EventDateTime { value: string_of(&value), timezone, all_day }
}

/// The DTSTART / DTEND content line for a date-time (unfolded).
pub open spec fn datetime_property(name: Seq<char>, dt: DateTimeModel) -> Seq<char> {
    if dt.all_day {
        name + ";VALUE=DATE:"@ + or_else(chrono_date_reformat(dt.value, "%Y-%m-%d"@, "%Y%m%d"@), dt.value)
    } else {
        let z = dt.value.len() > 0 && dt.value.last() == 'Z';
        let a = chrono_datetime_reformat(trim_end_char(dt.value, 'Z'), "%Y-%m-%dT%H:%M:%S"@, "%Y%m%dT%H%M%S"@);
        let b = chrono_rfc3339_utc(dt.value, "%Y%m%dT%H%M%SZ"@);
        if z && a is Some {
            name + ":"@ + a->0 + "Z"@
        } else if z && b is Some {
            name + ":"@ + b->0
        } else {
            match chrono_datetime_reformat(dt.value, "%Y-%m-%dT%H:%M:%S"@, "%Y%m%dT%H%M%S"@) {
                Some(x) => match dt.timezone {
                    Some(t) => name + ";TZID="@ + t + ":"@ + x,
                    None => name + ":"@ + x,
                },
                None => name + ":"@ + dt.value,
            }
        }
    }
}

/// Serialize a date-time as a DTSTART / DTEND content line.
pub fn serialize_datetime_property(name: &str, dt: &EventDateTime) -> (r: String)
    ensures
        r@ == datetime_property(name@, dt@),
        canonical_datetime(dt@) ==> chrono_round_trips(dt@),
{
    proof {
        reveal_strlit("%Y%m%d");
        reveal_strlit("%Y-%m-%d");
        reveal_strlit("%Y%m%dT%H%M%S");
        reveal_strlit("%Y-%m-%dT%H:%M:%S");
        reveal_strlit("%Y%m%dT%H%M%SZ");
    }
    let mut out: Vec<char> = Vec::new();
    extend_str(&mut out, name);
    let vc = chars_of(dt.value.as_str());
    if dt.all_day {
        let d = reformat_date(dt.value.as_str(), "%Y-%m-%d", "%Y%m%d");
        let v = or_else_chars(d, &vc);
        assert(canonical_datetime(dt@) ==> chrono_round_trips(dt@));
        extend_str(&mut out, ";VALUE=DATE:");
        extend_chars(&mut out, &v);
        return string_of(&out);
    }
    if vc.len() > 0 && vc[vc.len() - 1] == 'Z' {
        let trimmed = trim_end_char_chars(&vc, 'Z');
        let ts = string_of(&trimmed);
        proof {
            if canonical_datetime(dt@) {
                lemma_canonical_trim(dt@);
            }
        }
        match reformat_datetime(ts.as_str(), "%Y-%m-%dT%H:%M:%S", "%Y%m%dT%H%M%S") {
            Some(x) => {
                assert(canonical_datetime(dt@) ==> chrono_round_trips(dt@));
                extend_str(&mut out, ":");
                extend_str(&mut out, x.as_str());
                extend_str(&mut out, "Z");
                return string_of(&out);
            },
            None => {},
        }
        match reformat_rfc3339_utc(dt.value.as_str(), "%Y%m%dT%H%M%SZ") {
            Some(x) => {
                extend_str(&mut out, ":");
                extend_str(&mut out, x.as_str());
                return string_of(&out);
            },
            None => {},
        }
    }
    proof {
        if canonical_datetime(dt@) {
            lemma_canonical_trim(dt@);
        }
    }
    match reformat_datetime(dt.value.as_str(), "%Y-%m-%dT%H:%M:%S", "%Y%m%dT%H%M%S") {
        Some(x) => {
            assert(canonical_datetime(dt@) ==> chrono_round_trips(dt@));
            match &dt.timezone {
                Some(t) => {
                    extend_str(&mut out, ";TZID=");
                    extend_str(&mut out, t.as_str());
                },
                None => {},
            }
            extend_str(&mut out, ":");
            extend_str(&mut out, x.as_str());
        },
        None => {
            extend_str(&mut out, ":");
            extend_chars(&mut out, &vc);
        },
    }
    string_of(&out)
}


// ===================== Events =====================

/// What has been read of a VEVENT so far.
pub struct IcalScan {
    pub in_event: bool,
    pub in_alarm: bool,
    /// END:VEVENT was reached; later lines are ignored.
    pub done: bool,
    /// A TRIGGER value did not fit in `i32`.
    pub overflow: bool,
    pub alarm: ReminderModel,
    pub id: Seq<char>,
    pub title: Seq<char>,
    pub start: DateTimeModel,
    pub end: DateTimeModel,
    pub location: Option<Seq<char>>,
    pub description: Option<Seq<char>>,
    pub attendees: Seq<AttendeeModel>,
    pub recurrence: Option<RecurrenceModel>,
    pub reminders: Seq<ReminderModel>,
}

/// A reminder before any of its lines is read.
pub open spec fn blank_reminder() -> ReminderModel {
    ReminderModel { minutes_before: 0, action: None }
}

/// A date-time before its line is read.
pub open spec fn blank_datetime() -> DateTimeModel {
    DateTimeModel { value: seq![], timezone: None, all_day: false }
}

/// Effect of one line inside a VALARM.
pub open spec fn alarm_step(s: IcalScan, line: Seq<char>) -> IcalScan {
    if "ACTION"@.is_prefix_of(line) {
        IcalScan { alarm: ReminderModel { action: Some(line_value(line)), ..s.alarm }, ..s }
    } else if "TRIGGER"@.is_prefix_of(line) {
        let v = line_value(line);
        IcalScan {
            alarm: ReminderModel { minutes_before: trigger_value(v), ..s.alarm },
            overflow: s.overflow || !trigger_fits(v),
            ..s
        }
    } else {
        s
    }
}

/// Effect of one property line of the VEVENT itself.
pub open spec fn property_step(s: IcalScan, line: Seq<char>) -> IcalScan {
    if "UID"@.is_prefix_of(line) {
        IcalScan { id: line_value(line), ..s }
    } else if "SUMMARY"@.is_prefix_of(line) {
        IcalScan { title: line_value(line), ..s }
    } else if "DTSTART"@.is_prefix_of(line) {
        IcalScan { start: event_datetime_of(line), ..s }
    } else if "DTEND"@.is_prefix_of(line) {
        IcalScan { end: event_datetime_of(line), ..s }
    } else if "LOCATION"@.is_prefix_of(line) {
        IcalScan { location: Some(line_value(line)), ..s }
    } else if "DESCRIPTION"@.is_prefix_of(line) {
        IcalScan { description: Some(line_value(line)), ..s }
    } else if "ATTENDEE"@.is_prefix_of(line) {
        match attendee_of(line) {
            Some(a) => IcalScan { attendees: s.attendees.push(a), ..s },
            None => s,
        }
    } else if "RRULE"@.is_prefix_of(line) {
        IcalScan { recurrence: rrule_of(line_value(line)), ..s }
    } else {
        s
    }
}

/// Effect of one unfolded line of an iCalendar object.
pub open spec fn ical_step(s: IcalScan, raw: Seq<char>) -> IcalScan {
    let line = trim(raw);
    if s.done {
        s
    } else if line == "BEGIN:VEVENT"@ {
        IcalScan { in_event: true, ..s }
    } else if line == "END:VEVENT"@ {
        IcalScan { done: true, ..s }
    } else if !s.in_event {
        s
    } else if line == "BEGIN:VALARM"@ {
        IcalScan { in_alarm: true, alarm: blank_reminder(), ..s }
    } else if line == "END:VALARM"@ {
        IcalScan { in_alarm: false, reminders: s.reminders.push(s.alarm), ..s }
    } else if s.in_alarm {
        alarm_step(s, line)
    } else {
        property_step(s, line)
    }
}

/// The state before any line is read.
pub open spec fn ical_start() -> IcalScan {
    IcalScan {
        in_event: false,
        in_alarm: false,
        done: false,
        overflow: false,
        alarm: blank_reminder(),
        id: seq![],
        title: seq![],
        start: blank_datetime(),
        end: blank_datetime(),
        location: None,
        description: None,
        attendees: seq![],
        recurrence: None,
        reminders: seq![],
    }
}

/// The state after reading a sequence of unfolded lines.
pub open spec fn ical_scan(ls: Seq<Seq<char>>) -> IcalScan
    decreases ls.len(),
{
    if ls.len() == 0 {
        ical_start()
    } else {
        ical_step(ical_scan(ls.drop_last()), ls.last())
    }
}

/// The unfolded lines of an iCalendar object.
pub open spec fn ical_lines(ical: Seq<char>) -> Seq<Seq<char>> {
    lines(unfold(ical))
}

/// The block structure of an iCalendar object as it is read: inside a
/// VEVENT, inside a VALARM, past END:VEVENT, and whether a TRIGGER value read
/// so far overflowed `i32`.
pub open spec fn block_step(st: (bool, bool, bool, bool), raw: Seq<char>) -> (bool, bool, bool, bool) {
    let (in_event, in_alarm, done, overflow) = st;
    let line = trim(raw);
    if done {
        st
    } else if line == "BEGIN:VEVENT"@ {
        (true, in_alarm, done, overflow)
    } else if line == "END:VEVENT"@ {
        (in_event, in_alarm, true, overflow)
    } else if !in_event {
        st
    } else if line == "BEGIN:VALARM"@ {
        (in_event, true, done, overflow)
    } else if line == "END:VALARM"@ {
        (in_event, false, done, overflow)
    } else if in_alarm && !"ACTION"@.is_prefix_of(line) && "TRIGGER"@.is_prefix_of(line) {
        (in_event, in_alarm, done, overflow || !trigger_fits(line_value(line)))
    } else {
        st
    }
}

/// The block structure after a sequence of unfolded lines.
pub open spec fn block_scan(ls: Seq<Seq<char>>) -> (bool, bool, bool, bool)
    decreases ls.len(),
{
    if ls.len() == 0 {
        (false, false, false, false)
    } else {
        block_step(block_scan(ls.drop_last()), ls.last())
    }
}

/// Every TRIGGER read inside the first VEVENT fits in `i32`.
pub open spec fn ical_readable(ical: Seq<char>) -> bool {
    !block_scan(ical_lines(ical)).3
}

/// The block structure follows the reader's own state, line by line.
pub proof fn lemma_block_scan(ls: Seq<Seq<char>>)
    ensures
        ({
            let s = ical_scan(ls);
            block_scan(ls) == (s.in_event, s.in_alarm, s.done, s.overflow)
        }),
    decreases ls.len(),
{
    if ls.len() > 0 {
        lemma_block_scan(ls.drop_last());
    }
}

/// The event an iCalendar object describes: `None` unless its first VEVENT
/// has a UID, a SUMMARY, a start and an end.
pub open spec fn event_of(
    ical: Seq<char>,
    href: Option<Seq<char>>,
    etag: Option<Seq<char>>,
    calendar_id: Seq<char>,
    calendar_name: Option<Seq<char>>,
) -> Option<EventModel> {
    let s = ical_scan(ical_lines(ical));
    if s.id.len() == 0 || s.title.len() == 0 || s.start.value.len() == 0 || s.end.value.len() == 0 {
        None
    } else {
        Some(
            EventModel {
                id: s.id,
                calendar_id,
                calendar_name,
                href,
                etag,
                title: s.title,
                start: s.start,
                end: s.end,
                location: s.location,
                description: s.description,
                attendees: s.attendees,
                recurrence: s.recurrence,
                reminders: s.reminders,
            },
        )
    }
}

proof fn lemma_scan_overflow_prefix(ls: Seq<Seq<char>>, i: int)
    requires
        0 <= i <= ls.len(),
        !ical_scan(ls).overflow,
    ensures
        !ical_scan(ls.take(i)).overflow,
    decreases ls.len() - i,
{
    if i < ls.len() {
        lemma_scan_overflow_prefix(ls, i + 1);
        assert(ls.take(i + 1).drop_last() =~= ls.take(i));
    } else {
        assert(ls.take(i) =~= ls);
    }
}

proof fn lemma_scan_done(ls: Seq<Seq<char>>, i: int)
    requires
        0 <= i <= ls.len(),
        ical_scan(ls.take(i)).done,
    ensures
        ical_scan(ls) == ical_scan(ls.take(i)),
    decreases ls.len() - i,
{
    if i < ls.len() {
        assert(ls.take(i + 1).drop_last() =~= ls.take(i));
        lemma_scan_done(ls, i + 1);
    } else {
        assert(ls.take(i) =~= ls);
    }
}

/// What has been read of a VEVENT so far (executable form of `IcalScan`).
struct IcalAccum {
    in_event: bool,
    in_alarm: bool,
    done: bool,
    alarm: EventReminder,
    id: Vec<char>,
    title: Vec<char>,
    start: EventDateTime,
    end: EventDateTime,
    location: Option<Vec<char>>,
    description: Option<Vec<char>>,
    attendees: Vec<EventAttendee>,
    recurrence: Option<EventRecurrence>,
    reminders: Vec<EventReminder>,
}

impl View for IcalAccum {
    type V = IcalScan;

    closed spec fn view(&self) -> IcalScan {
        IcalScan {
            in_event: self.in_event,
            in_alarm: self.in_alarm,
            done: self.done,
            overflow: false,
            alarm: self.alarm@,
            id: self.id@,
            title: self.title@,
            start: self.start@,
            end: self.end@,
            location: opt_chars_view(self.location),
            description: opt_chars_view(self.description),
            attendees: attendees_view(self.attendees@),
            recurrence: recurrence_view(self.recurrence),
            reminders: reminders_view(self.reminders@),
        }
    }
}

fn apply_alarm_line(acc: &mut IcalAccum, line: &Vec<char>)
    requires
        !alarm_step(old(acc)@, line@).overflow,
    ensures
        final(acc)@ == alarm_step(old(acc)@, line@),
{
    if starts_with(line, "ACTION") {
        let v = value_of_line(line);
        acc.alarm.action = Some(string_of(&v));
    } else if starts_with(line, "TRIGGER") {
        let v = value_of_line(line);
        let vs = string_of(&v);
        acc.alarm.minutes_before = parse_trigger_minutes(vs.as_str());
    }
}

fn apply_property_line(acc: &mut IcalAccum, line: &Vec<char>)
    ensures
        final(acc)@ == property_step(old(acc)@, line@),
{
    if starts_with(line, "UID") {
        acc.id = value_of_line(line);
    } else if starts_with(line, "SUMMARY") {
        acc.title = value_of_line(line);
    } else if starts_with(line, "DTSTART") {
        let ls = string_of(line);
        acc.start = parse_event_datetime(ls.as_str());
    } else if starts_with(line, "DTEND") {
        let ls = string_of(line);
        acc.end = parse_event_datetime(ls.as_str());
    } else if starts_with(line, "LOCATION") {
        acc.location = Some(value_of_line(line));
    } else if starts_with(line, "DESCRIPTION") {
        acc.description = Some(value_of_line(line));
    } else if starts_with(line, "ATTENDEE") {
        let ls = string_of(line);
        match parse_attendee(ls.as_str()) {
            Some(a) => {
                let ghost before = acc.attendees@;
                acc.attendees.push(a);
                assert(attendees_view(acc.attendees@) =~= attendees_view(before).push(a@));
            },
            None => {},
        }
    } else if starts_with(line, "RRULE") {
        let v = value_of_line(line);
        let vs = string_of(&v);
        acc.recurrence = parse_rrule(vs.as_str());
    }
}

fn apply_ical_line(acc: &mut IcalAccum, raw: &Vec<char>)
    requires
        !old(acc)@.done,
        !ical_step(old(acc)@, raw@).overflow,
    ensures
        final(acc)@ == ical_step(old(acc)@, raw@),
{
    let line = trim_chars(raw);
    if eq_str(&line, "BEGIN:VEVENT") {
        acc.in_event = true;
    } else if eq_str(&line, "END:VEVENT") {
        acc.done = true;
    } else if !acc.in_event {
    } else if eq_str(&line, "BEGIN:VALARM") {
        acc.in_alarm = true;
        acc.alarm = EventReminder { minutes_before: 0, action: None };
    } else if eq_str(&line, "END:VALARM") {
        acc.in_alarm = false;
        let a = EventReminder { minutes_before: acc.alarm.minutes_before, action: clone_opt(&acc.alarm.action) };
        let ghost before = acc.reminders@;
        acc.reminders.push(a);
        assert(reminders_view(acc.reminders@) =~= reminders_view(before).push(a@));
    } else if acc.in_alarm {
        apply_alarm_line(acc, &line);
    } else {
        apply_property_line(acc, &line);
    }
}

/// Parse the first VEVENT of an iCalendar object into an event of the given
/// calendar: `None` unless it has a UID, a SUMMARY, a start and an end.
pub fn parse_ical_event(
    ical: &str,
    href: Option<String>,
    etag: Option<String>,
    calendar_id: String,
    calendar_name: Option<String>,
) -> (r: Option<CalendarEvent>)
    requires
        ical_readable(ical@),
    ensures
        match r {
            Some(e) => event_of(ical@, opt_view(href), opt_view(etag), calendar_id@, opt_view(calendar_name))
                == Some(e@),
            None => event_of(ical@, opt_view(href), opt_view(etag), calendar_id@, opt_view(calendar_name))
                is None,
        },
{
    let raw = chars_of(ical);
    let unfolded = unfold_chars(&raw);
    let ls = split_lines(&unfolded);
    let ghost lv = ls@.map_values(|l: Vec<char>| l@);
    assert(lv == ical_lines(ical@));
    proof {
        lemma_block_scan(lv);
    }
    let mut acc = IcalAccum {
        in_event: false,
        in_alarm: false,
        done: false,
        alarm: EventReminder { minutes_before: 0, action: None },
        id: Vec::new(),
        title: Vec::new(),
        start: EventDateTime::default(),
        end: EventDateTime::default(),
        location: None,
        description: None,
        attendees: Vec::new(),
        recurrence: None,
        reminders: Vec::new(),
    };
    assert(attendees_view(acc.attendees@) =~= Seq::<AttendeeModel>::empty());
    assert(reminders_view(acc.reminders@) =~= Seq::<ReminderModel>::empty());
    assert(acc@ == ical_scan(lv.take(0)));
    let mut i: usize = 0;
    while i < ls.len()
        invariant
            i <= ls.len(),
            lv == ls@.map_values(|l: Vec<char>| l@),
            lv == ical_lines(ical@),
            !ical_scan(lv).overflow,
            acc@ == ical_scan(lv.take(i as int)),
            !acc@.done,
        decreases ls.len() - i,
    {
        assert(lv.take(i + 1).drop_last() =~= lv.take(i as int));
        assert(lv.take(i + 1).last() == ls@[i as int]@);
        proof {
            lemma_scan_overflow_prefix(lv, i + 1);
        }
        apply_ical_line(&mut acc, &ls[i]);
        i = i + 1;
        if acc.done {
            proof {
                lemma_scan_done(lv, i as int);
            }
            return finish_event(acc, href, etag, calendar_id, calendar_name);
        }
    }
    assert(lv.take(ls.len() as int) =~= lv);
    finish_event(acc, href, etag, calendar_id, calendar_name)
}

fn finish_event(
    acc: IcalAccum,
    href: Option<String>,
    etag: Option<String>,
    calendar_id: String,
    calendar_name: Option<String>,
) -> (r: Option<CalendarEvent>)
    ensures
        ({
            let s = acc@;
            if s.id.len() == 0 || s.title.len() == 0 || s.start.value.len() == 0 || s.end.value.len()
                == 0 {
                r is None
            } else {
                r is Some && r->0@ == (EventModel {
                    id: s.id,
                    calendar_id: calendar_id@,
                    calendar_name: opt_view(calendar_name),
                    href: opt_view(href),
                    etag: opt_view(etag),
                    title: s.title,
                    start: s.start,
                    end: s.end,
                    location: s.location,
                    description: s.description,
                    attendees: s.attendees,
                    recurrence: s.recurrence,
                    reminders: s.reminders,
                })
            }
        }),
{
    if acc.id.len() == 0 || acc.title.len() == 0 || acc.start.value.as_str().is_empty()
        || acc.end.value.as_str().is_empty() {
        return None;
    }
    Some(
        CalendarEvent {
            id: string_of(&acc.id),
            calendar_id,
            calendar_name,
            href,
            etag,
            title: string_of(&acc.title),
            start: acc.start,
            end: acc.end,
            location: opt_string(acc.location),
            description: opt_string(acc.description),
            attendees: acc.attendees,
            recurrence: acc.recurrence,
            reminders: acc.reminders,
        },
    )
}


// ===================== Writing events =====================

/// The lines of a VALARM written for a reminder.
pub open spec fn reminder_lines(r: ReminderModel) -> Seq<Seq<char>> {
    seq![
        "BEGIN:VALARM"@,
        "ACTION:"@ + or_else(r.action, "DISPLAY"@),
        "TRIGGER:"@ + trigger_text(r.minutes_before),
        "DESCRIPTION:Reminder"@,
        "END:VALARM"@,
    ]
}

/// The VALARM lines of a list of reminders, in order.
pub open spec fn reminders_lines(rs: Seq<ReminderModel>) -> Seq<Seq<char>>
    decreases rs.len(),
{
    if rs.len() == 0 {
        seq![]
    } else {
        reminders_lines(rs.drop_last()) + reminder_lines(rs.last())
    }
}

/// A line for an optional TEXT property, written only when present and non-empty.
pub open spec fn optional_text_line(prop: Seq<char>, v: Option<Seq<char>>) -> Seq<Seq<char>> {
    match v {
        Some(x) => if x.len() > 0 {
            seq![prop + escape_text(x)]
        } else {
            seq![]
        },
        None => seq![],
    }
}

/// The unfolded lines of the VCALENDAR written for an event, with `stamp` as DTSTAMP.
pub open spec fn event_lines(e: EventModel, stamp: Seq<char>) -> Seq<Seq<char>> {
    seq![
        "BEGIN:VCALENDAR"@,
        "VERSION:2.0"@,
        "PRODID:-//fastmail-cli//EN"@,
        "CALSCALE:GREGORIAN"@,
        "BEGIN:VEVENT"@,
        "UID:"@ + escape_text(e.id),
        "DTSTAMP:"@ + stamp,
        "SUMMARY:"@ + escape_text(e.title),
        datetime_property("DTSTART"@, e.start),
        datetime_property("DTEND"@, e.end),
    ] + optional_text_line("LOCATION:"@, e.location) + optional_text_line(
        "DESCRIPTION:"@,
        e.description,
    ) + e.attendees.map_values(|a: AttendeeModel| attendee_line(a)) + match e.recurrence {
        Some(r) => seq!["RRULE:"@ + rrule_text(r)],
        None => seq![],
    } + reminders_lines(e.reminders) + seq!["END:VEVENT"@, "END:VCALENDAR"@]
}

/// The folded VCALENDAR text written for an event.
pub open spec fn event_ical(e: EventModel, stamp: Seq<char>) -> Seq<char> {
    fold_all(event_lines(e, stamp))
}

/// The event can be written without overflow: no reminder is `i32::MIN`
/// minutes ahead.
pub open spec fn event_writable(e: EventModel) -> bool {
    forall|i: int| 0 <= i < e.reminders.len() ==> #[trigger] e.reminders[i].minutes_before != i32::MIN
}

fn push_line(ls: &mut Vec<Vec<char>>, line: Vec<char>)
    ensures
        final(ls)@.map_values(|l: Vec<char>| l@) == old(ls)@.map_values(|l: Vec<char>| l@).push(line@),
{
    let ghost before = ls@;
    ls.push(line);
    assert(ls@.map_values(|l: Vec<char>| l@) =~= before.map_values(|l: Vec<char>| l@).push(line@));
}

fn push_text_line(ls: &mut Vec<Vec<char>>, prop: &str, value: &String)
    ensures
        final(ls)@.map_values(|l: Vec<char>| l@) == old(ls)@.map_values(|l: Vec<char>| l@).push(
            prop@ + escape_text(value@),
        ),
{
    let mut v: Vec<char> = Vec::new();
    extend_str(&mut v, prop);
    let vc = chars_of(value.as_str());
    let e = escape_text_chars(&vc);
    extend_chars(&mut v, &e);
    push_line(ls, v);
}

fn push_optional_text_line(ls: &mut Vec<Vec<char>>, prop: &str, value: &Option<String>)
    ensures
        final(ls)@.map_values(|l: Vec<char>| l@) == old(ls)@.map_values(|l: Vec<char>| l@) + optional_text_line(
            prop@,
            opt_view(*value),
        ),
{
    match value {
        Some(x) => {
            if !x.as_str().is_empty() {
                push_text_line(ls, prop, x);
                assert(old(ls)@.map_values(|l: Vec<char>| l@).push(prop@ + escape_text(x@)) =~= old(
                    ls,
                )@.map_values(|l: Vec<char>| l@) + seq![prop@ + escape_text(x@)]);
            } else {
                assert(old(ls)@.map_values(|l: Vec<char>| l@) + optional_text_line(prop@, opt_view(*value))
                    =~= old(ls)@.map_values(|l: Vec<char>| l@));
            }
        },
        None => {
            assert(old(ls)@.map_values(|l: Vec<char>| l@) + optional_text_line(prop@, opt_view(*value))
                =~= old(ls)@.map_values(|l: Vec<char>| l@));
        },
    }
}

fn push_str_line(ls: &mut Vec<Vec<char>>, line: &str)
    ensures
        final(ls)@.map_values(|l: Vec<char>| l@) == old(ls)@.map_values(|l: Vec<char>| l@).push(line@),
{
    let v = chars_of(line);
    push_line(ls, v);
}

fn push_head_lines(ls: &mut Vec<Vec<char>>, event: &CalendarEvent, stamp: &str)
    requires
        old(ls)@.len() == 0,
    ensures
        final(ls)@.map_values(|l: Vec<char>| l@) == seq![
            "BEGIN:VCALENDAR"@,
            "VERSION:2.0"@,
            "PRODID:-//fastmail-cli//EN"@,
            "CALSCALE:GREGORIAN"@,
            "BEGIN:VEVENT"@,
            "UID:"@ + escape_text(event@.id),
            "DTSTAMP:"@ + stamp@,
            "SUMMARY:"@ + escape_text(event@.title),
            datetime_property("DTSTART"@, event@.start),
            datetime_property("DTEND"@, event@.end),
        ],
        canonical_datetime(event@.start) ==> chrono_round_trips(event@.start),
        canonical_datetime(event@.end) ==> chrono_round_trips(event@.end),
{
    assert(ls@.map_values(|l: Vec<char>| l@) =~= Seq::<Seq<char>>::empty());
    push_str_line(ls, "BEGIN:VCALENDAR");
    push_str_line(ls, "VERSION:2.0");
    push_str_line(ls, "PRODID:-//fastmail-cli//EN");
    push_str_line(ls, "CALSCALE:GREGORIAN");
    push_str_line(ls, "BEGIN:VEVENT");
    push_text_line(ls, "UID:", &event.id);
    let mut st: Vec<char> = Vec::new();
    extend_str(&mut st, "DTSTAMP:");
    extend_str(&mut st, stamp);
    push_line(ls, st);
    push_text_line(ls, "SUMMARY:", &event.title);
    let ds = serialize_datetime_property("DTSTART", &event.start);
    push_line(ls, chars_of(ds.as_str()));
    let de = serialize_datetime_property("DTEND", &event.end);
    push_line(ls, chars_of(de.as_str()));
    assert(ls@.map_values(|l: Vec<char>| l@) =~= seq![
        "BEGIN:VCALENDAR"@,
        "VERSION:2.0"@,
        "PRODID:-//fastmail-cli//EN"@,
        "CALSCALE:GREGORIAN"@,
        "BEGIN:VEVENT"@,
        "UID:"@ + escape_text(event@.id),
        "DTSTAMP:"@ + stamp@,
        "SUMMARY:"@ + escape_text(event@.title),
        datetime_property("DTSTART"@, event@.start),
        datetime_property("DTEND"@, event@.end),
    ]);
}

fn push_attendee_lines(ls: &mut Vec<Vec<char>>, attendees: &Vec<EventAttendee>)
    ensures
        final(ls)@.map_values(|l: Vec<char>| l@) == old(ls)@.map_values(|l: Vec<char>| l@)
            + attendees_view(attendees@).map_values(|a: AttendeeModel| attendee_line(a)),
{
    let ghost base = old(ls)@.map_values(|l: Vec<char>| l@);
    let ghost av = attendees_view(attendees@).map_values(|a: AttendeeModel| attendee_line(a));
    assert(base + av.take(0) =~= base);
    for i in 0..attendees.len()
        invariant
            base == old(ls)@.map_values(|l: Vec<char>| l@),
            av == attendees_view(attendees@).map_values(|a: AttendeeModel| attendee_line(a)),
            ls@.map_values(|l: Vec<char>| l@) == base + av.take(i as int),
    {
        let a = serialize_attendee(&attendees[i]);
        push_line(ls, chars_of(a.as_str()));
        assert(av[i as int] == attendee_line(attendees@[i as int]@));
        assert(base + av.take(i + 1) =~= (base + av.take(i as int)).push(a@));
    }
    assert(av.take(attendees.len() as int) =~= av);
}

fn push_reminder_lines(ls: &mut Vec<Vec<char>>, reminders: &Vec<EventReminder>)
    requires
        forall|i: int| 0 <= i < reminders@.len() ==> #[trigger] reminders@[i].minutes_before != i32::MIN,
    ensures
        final(ls)@.map_values(|l: Vec<char>| l@) == old(ls)@.map_values(|l: Vec<char>| l@)
            + reminders_lines(reminders_view(reminders@)),
{
    let ghost base = old(ls)@.map_values(|l: Vec<char>| l@);
    let ghost rv = reminders_view(reminders@);
    assert(rv.take(0) =~= Seq::<ReminderModel>::empty());
    assert(base + reminders_lines(rv.take(0)) =~= base);
    for i in 0..reminders.len()
        invariant
            base == old(ls)@.map_values(|l: Vec<char>| l@),
            rv == reminders_view(reminders@),
            forall|i: int| 0 <= i < reminders@.len() ==> #[trigger] reminders@[i].minutes_before != i32::MIN,
            ls@.map_values(|l: Vec<char>| l@) == base + reminders_lines(rv.take(i as int)),
    {
        let r = &reminders[i];
        assert(rv.take(i + 1).drop_last() =~= rv.take(i as int));
        assert(rv.take(i + 1).last() == r@);
        let ghost mid = ls@.map_values(|l: Vec<char>| l@);
        push_str_line(ls, "BEGIN:VALARM");
        let mut act: Vec<char> = Vec::new();
        extend_str(&mut act, "ACTION:");
        match &r.action {
            Some(a) => extend_str(&mut act, a.as_str()),
            None => extend_str(&mut act, "DISPLAY"),
        }
        push_line(ls, act);
        let mut trig: Vec<char> = Vec::new();
        extend_str(&mut trig, "TRIGGER:");
        let t = serialize_trigger_minutes(r.minutes_before);
        extend_str(&mut trig, t.as_str());
        push_line(ls, trig);
        push_str_line(ls, "DESCRIPTION:Reminder");
        push_str_line(ls, "END:VALARM");
        assert(ls@.map_values(|l: Vec<char>| l@) =~= mid + reminder_lines(r@));
        assert(base + reminders_lines(rv.take(i + 1)) =~= base + reminders_lines(rv.take(i as int))
            + reminder_lines(r@));
    }
    assert(rv.take(reminders.len() as int) =~= rv);
}

/// Serialize an event as an iCalendar object with the given DTSTAMP value.
pub fn serialize_ical_event_at(event: &CalendarEvent, stamp: &str) -> (r: String)
    requires
        event_writable(event@),
    ensures
        r@ == event_ical(event@, stamp@),
        exact_event(event@) && single_line(stamp@) ==> ical_readable(r@) && event_of(
            r@,
            event@.href,
            event@.etag,
            event@.calendar_id,
            event@.calendar_name,
        ) == Some(event@),
{
    let mut ls: Vec<Vec<char>> = Vec::new();
    push_head_lines(&mut ls, event, stamp);
    push_optional_text_line(&mut ls, "LOCATION:", &event.location);
    push_optional_text_line(&mut ls, "DESCRIPTION:", &event.description);
    push_attendee_lines(&mut ls, &event.attendees);
    let ghost before_rr = ls@.map_values(|l: Vec<char>| l@);
    match &event.recurrence {
        Some(rec) => {
            let mut v: Vec<char> = Vec::new();
            extend_str(&mut v, "RRULE:");
            let t = serialize_rrule(rec);
            extend_str(&mut v, t.as_str());
            push_line(&mut ls, v);
            assert(ls@.map_values(|l: Vec<char>| l@) =~= before_rr + seq!["RRULE:"@ + rrule_text(rec@)]);
        },
        None => {},
    }
    assert(forall|i: int| 0 <= i < event.reminders@.len() ==> #[trigger] event.reminders@[i].minutes_before != i32::MIN) by {
        assert forall|i: int| 0 <= i < event.reminders@.len() implies #[trigger] event.reminders@[i].minutes_before != i32::MIN by {
            assert(reminders_view(event.reminders@).len() == event.reminders@.len());
            assert(reminders_view(event.reminders@)[i] == event.reminders@[i]@);
            assert(event@.reminders[i].minutes_before != i32::MIN);
        }
    }
    push_reminder_lines(&mut ls, &event.reminders);
    push_str_line(&mut ls, "END:VEVENT");
    push_str_line(&mut ls, "END:VCALENDAR");
    let ghost lv = ls@.map_values(|l: Vec<char>| l@);
    assert(lv =~= event_lines(event@, stamp@));
    let mut out: Vec<char> = Vec::new();
    assert(lv.take(0) =~= Seq::<Seq<char>>::empty());
    for i in 0..ls.len()
        invariant
            lv == ls@.map_values(|l: Vec<char>| l@),
            out@ == fold_all(lv.take(i as int)),
    {
        assert(lv.take(i + 1).drop_last() =~= lv.take(i as int));
        assert(lv.take(i + 1).last() == ls@[i as int]@);
        fold_into(&ls[i], &mut out);
    }
    assert(lv.take(ls.len() as int) =~= lv);
    proof {
        if exact_event(event@) && single_line(stamp@) {
            lemma_exact_event_round_trip(event@, stamp@);
        }
    }
    string_of(&out)
}

/// The current UTC time as an iCalendar DATE-TIME (`%Y%m%dT%H%M%SZ`).
/// Calls `chrono::Utc::now` and formats it; which time it is depends on the
/// clock, so the contract claims only that the text is `chrono_text`.
#[verifier::external_body]
fn utc_now_stamp() -> (r: String)
    ensures
        chrono_text(r@),
{
    chrono::Utc::now().format("%Y%m%dT%H%M%SZ").to_string()
}

/// Serialize an event as an iCalendar object stamped with the current time.
pub fn serialize_ical_event(event: &CalendarEvent) -> (r: String)
    requires
        event_writable(event@),
    ensures
        exists|stamp: Seq<char>| chrono_text(stamp) && r@ == event_ical(event@, stamp),
        exact_event(event@) ==> ical_readable(r@) && event_of(
            r@,
            event@.href,
            event@.etag,
            event@.calendar_id,
            event@.calendar_name,
        ) == Some(event@),
{
    let stamp = utc_now_stamp();
    assert(single_line(stamp@)) by {
        assert forall|i: int| 0 <= i < stamp@.len() implies stamp@[i] != '\n' by {
            assert(is_digit(stamp@[i]) || stamp@[i] == '+' || stamp@[i] == '-' || stamp@[i] == 'T' || stamp@[i]
                == ':' || stamp@[i] == 'Z');
        }
    }
    serialize_ical_event_at(event, stamp.as_str())
}


// ===================== Readability =====================

fn trigger_fits_chars(t: &Vec<char>) -> (r: bool)
    ensures
        r == trigger_fits(t@),
{
    proof {
        reveal_strlit("-PT");
    }
    if !starts_with(t, "-PT") {
        return true;
    }
    let rest = slice_chars(t, 3, t.len());
    assert(rest@ =~= t@.skip(3));
    let mut hm: i64 = 0;
    if find_char(&rest, 'H').is_some() {
        let head = before_first_char(&rest, 'H');
        let h: i64 = match parse_i32_chars(&head) {
            Some(h) => h as i64,
            None => 0,
        };
        hm = h * 60;
    }
    let tail = after_last_char(&rest, 'H');
    let mut m: i64 = 0;
    if tail.len() > 0 && tail[tail.len() - 1] == 'M' {
        let body = slice_chars(&tail, 0, tail.len() - 1);
        assert(body@ =~= tail@.drop_last());
        m = match parse_i32_chars(&body) {
            Some(m) => m as i64,
            None => 0,
        };
    }
    let lo = i32::MIN as i64;
    let hi = i32::MAX as i64;
    lo <= hm && hm <= hi && lo <= hm + m && hm + m <= hi
}

/// Whether every TRIGGER read inside the first VEVENT fits in `i32`, so that
/// `parse_ical_event` accepts the text.
pub fn ical_is_readable(ical: &str) -> (r: bool)
    ensures
        r == ical_readable(ical@),
{
    let raw = chars_of(ical);
    let unfolded = unfold_chars(&raw);
    let ls = split_lines(&unfolded);
    let ghost lv = ls@.map_values(|l: Vec<char>| l@);
    assert(lv == ical_lines(ical@));
    let mut in_event = false;
    let mut in_alarm = false;
    let mut done = false;
    let mut overflow = false;
    assert(lv.take(0) =~= Seq::<Seq<char>>::empty());
    for i in 0..ls.len()
        invariant
            lv == ls@.map_values(|l: Vec<char>| l@),
            block_scan(lv.take(i as int)) == (in_event, in_alarm, done, overflow),
    {
        assert(lv.take(i + 1).drop_last() =~= lv.take(i as int));
        assert(lv.take(i + 1).last() == ls@[i as int]@);
        let line = trim_chars(&ls[i]);
        if done {
        } else if eq_str(&line, "BEGIN:VEVENT") {
            in_event = true;
        } else if eq_str(&line, "END:VEVENT") {
            done = true;
        } else if !in_event {
        } else if eq_str(&line, "BEGIN:VALARM") {
            in_alarm = true;
        } else if eq_str(&line, "END:VALARM") {
            in_alarm = false;
        } else if in_alarm && !starts_with(&line, "ACTION") && starts_with(&line, "TRIGGER") {
            let v = value_of_line(&line);
            if !trigger_fits_chars(&v) {
                overflow = true;
            }
        }
    }
    assert(lv.take(ls.len() as int) =~= lv);
    !overflow
}


// ===================== Laws =====================

proof fn lemma_role_single_line(r: Seq<char>)
    ensures
        match sanitized_role(r) {
            Some(u) => single_line(u),
            None => true,
        },
{
    reveal_strlit("CHAIR");
    reveal_strlit("REQ-PARTICIPANT");
    reveal_strlit("OPT-PARTICIPANT");
    reveal_strlit("NON-PARTICIPANT");
}

proof fn lemma_partstat_single_line(p: Seq<char>)
    ensures
        match sanitized_partstat(p) {
            Some(u) => single_line(u),
            None => true,
        },
{
    reveal_strlit("NEEDS-ACTION");
    reveal_strlit("ACCEPTED");
    reveal_strlit("DECLINED");
    reveal_strlit("TENTATIVE");
    reveal_strlit("DELEGATED");
    reveal_strlit("COMPLETED");
    reveal_strlit("IN-PROCESS");
}

/// An ATTENDEE line never spans two lines, whatever the attendee's fields
/// hold: no value can inject another property.
pub proof fn lemma_attendee_line_single_line(a: AttendeeModel)
    ensures
        single_line(attendee_line(a)),
{
    reveal_strlit("ATTENDEE");
    reveal_strlit(";CN=");
    reveal_strlit(";ROLE=");
    reveal_strlit(";PARTSTAT=");
    reveal_strlit(";RSVP=");
    reveal_strlit("TRUE");
    reveal_strlit("FALSE");
    reveal_strlit(":mailto:");
    lemma_escape_text_single_line(a.email);
    let cn = cn_param(a);
    match a.name {
        Some(n) => {
            lemma_escape_text_single_line(n);
            lemma_single_line_concat(";CN="@, escape_text(n));
        },
        None => {},
    }
    match a.role {
        Some(r) => {
            lemma_role_single_line(r);
            match sanitized_role(r) {
                Some(u) => lemma_single_line_concat(";ROLE="@, u),
                None => {},
            }
        },
        None => {},
    }
    match a.partstat {
        Some(p) => {
            lemma_partstat_single_line(p);
            match sanitized_partstat(p) {
                Some(u) => lemma_single_line_concat(";PARTSTAT="@, u),
                None => {},
            }
        },
        None => {},
    }
    match a.rsvp {
        Some(b) => {
            lemma_single_line_concat(";RSVP="@, if b { "TRUE"@ } else { "FALSE"@ });
        },
        None => {},
    }
    assert(single_line(rsvp_param(a)));
    lemma_single_line_concat("ATTENDEE"@, cn_param(a));
    lemma_single_line_concat("ATTENDEE"@ + cn_param(a), role_param(a));
    lemma_single_line_concat("ATTENDEE"@ + cn_param(a) + role_param(a), partstat_param(a));
    lemma_single_line_concat("ATTENDEE"@ + cn_param(a) + role_param(a) + partstat_param(a), rsvp_param(a));
    lemma_single_line_concat(
        "ATTENDEE"@ + cn_param(a) + role_param(a) + partstat_param(a) + rsvp_param(a),
        ":mailto:"@,
    );
    lemma_single_line_concat(
        "ATTENDEE"@ + cn_param(a) + role_param(a) + partstat_param(a) + rsvp_param(a) + ":mailto:"@,
        escape_text(a.email),
    );
}

proof fn lemma_freq_single_line(f: Seq<char>)
    ensures
        valid_freq(f) ==> single_line(upper_ascii(f)),
{
    reveal_strlit("SECONDLY");
    reveal_strlit("MINUTELY");
    reveal_strlit("HOURLY");
    reveal_strlit("DAILY");
    reveal_strlit("WEEKLY");
    reveal_strlit("MONTHLY");
    reveal_strlit("YEARLY");
}

proof fn lemma_until_single_line(u: Seq<char>)
    requires
        valid_until(u),
    ensures
        single_line(u),
{
    assert forall|i: int| 0 <= i < u.len() implies u[i] != '\n' by {
        if u.len() == 8 {
            assert(is_digit(u[i]));
        } else if i < 8 {
            assert(u.take(8)[i] == u[i]);
            assert(is_digit(u.take(8)[i]));
        } else if 9 <= i < 15 {
            assert(u.subrange(9, 15)[i - 9] == u[i]);
            assert(is_digit(u.subrange(9, 15)[i - 9]));
        }
    }
}

proof fn lemma_byday_single_line(d: Seq<char>)
    requires
        valid_byday(d),
    ensures
        single_line(upper_ascii(d)),
{
    let up = upper_ascii(d);
    let n = up.len();
    let wd = up.skip(n - 2);
    let prefix = up.take(n - 2);
    reveal_strlit("SU");
    reveal_strlit("MO");
    reveal_strlit("TU");
    reveal_strlit("WE");
    reveal_strlit("TH");
    reveal_strlit("FR");
    reveal_strlit("SA");
    assert forall|i: int| 0 <= i < n implies up[i] != '\n' by {
        if i >= n - 2 {
            assert(wd[i - (n - 2)] == up[i]);
        } else {
            assert(prefix[i] == up[i]);
            if prefix[0] == '+' || prefix[0] == '-' {
                if i > 0 {
                    assert(prefix.drop_first()[i - 1] == prefix[i]);
                    assert(is_digit(prefix.drop_first()[i - 1]));
                }
            } else {
                assert(is_digit(prefix[i]));
            }
        }
    }
}

proof fn lemma_valid_days_single_line(days: Seq<Seq<char>>)
    ensures
        forall|i: int| 0 <= i < valid_days(days).len() ==> single_line(#[trigger] valid_days(days)[i]),
    decreases days.len(),
{
    if days.len() > 0 {
        lemma_valid_days_single_line(days.drop_last());
        if valid_byday(days.last()) {
            lemma_byday_single_line(days.last());
            let v = valid_days(days);
            let rest = valid_days(days.drop_last());
            assert forall|i: int| 0 <= i < v.len() implies single_line(#[trigger] v[i]) by {
                if i < rest.len() {
                    assert(v[i] == rest[i]);
                }
            }
        }
    }
}

/// An RRULE value never spans two lines: FREQ, UNTIL and BYDAY are
/// validated and the numbers are decimal.
pub proof fn lemma_rrule_text_single_line(r: RecurrenceModel)
    ensures
        single_line(rrule_text(r)),
{
    reveal_strlit("FREQ=");
    reveal_strlit("INTERVAL=");
    reveal_strlit("COUNT=");
    reveal_strlit("UNTIL=");
    reveal_strlit("BYDAY=");
    reveal_strlit(",");
    reveal_strlit(";");
    lemma_freq_single_line(r.frequency);
    let freq = if valid_freq(r.frequency) { upper_ascii(r.frequency) } else { seq![] };
    lemma_single_line_concat("FREQ="@, freq);
    match r.interval {
        Some(i) => {
            lemma_decimal_single_line(i as nat);
            lemma_single_line_concat("INTERVAL="@, decimal(i as nat));
        },
        None => {},
    }
    match r.count {
        Some(c) => {
            lemma_decimal_single_line(c as nat);
            lemma_single_line_concat("COUNT="@, decimal(c as nat));
        },
        None => {},
    }
    match r.until {
        Some(u) => {
            if valid_until(u) {
                lemma_until_single_line(u);
                lemma_single_line_concat("UNTIL="@, u);
            }
        },
        None => {},
    }
    let days = valid_days(r.by_day);
    lemma_valid_days_single_line(r.by_day);
    lemma_join_single_line(days, ","@);
    lemma_single_line_concat("BYDAY="@, join(days, ","@));
    let fields = rrule_fields(r);
    assert forall|i: int| 0 <= i < fields.len() implies single_line(#[trigger] fields[i]) by {}
    lemma_join_single_line(fields, ";"@);
}

proof fn lemma_no_h_in_decimal(n: nat)
    ensures
        forall|j: int| 0 <= j < decimal(n).len() ==> decimal(n)[j] != 'H' && decimal(n)[j] != 'M',
{
    lemma_decimal_value(n);
    assert forall|j: int| 0 <= j < decimal(n).len() implies decimal(n)[j] != 'H' && decimal(n)[j] != 'M' by {
        assert(is_digit(decimal(n)[j]));
    }
}

proof fn lemma_trigger_minutes_only(mi: nat)
    requires
        mi <= i32::MAX,
    ensures
        trigger_hours(decimal(mi) + "M"@) == 0,
        trigger_mins(decimal(mi) + "M"@) == mi,
{
    reveal_strlit("M");
    let dm = decimal(mi);
    lemma_no_h_in_decimal(mi);
    lemma_parse_i32_decimal(mi);
    let rest = dm + "M"@;
    lemma_first_index_of_unique(rest, 'H', rest.len() as int);
    lemma_last_index_of_unique(rest, 'H', -1);
    assert(rest.drop_last() =~= dm);
}

proof fn lemma_trigger_hours_only(h: nat)
    requires
        h <= i32::MAX,
    ensures
        trigger_hours(decimal(h) + "H"@) == h,
        trigger_mins(decimal(h) + "H"@) == 0,
{
    reveal_strlit("H");
    let dh = decimal(h);
    lemma_no_h_in_decimal(h);
    lemma_parse_i32_decimal(h);
    let rest = dh + "H"@;
    lemma_first_index_of_unique(rest, 'H', dh.len() as int);
    lemma_last_index_of_unique(rest, 'H', dh.len() as int);
    assert(rest.take(dh.len() as int) =~= dh);
    assert(rest.skip(dh.len() as int + 1) =~= Seq::<char>::empty());
}

proof fn lemma_trigger_both(h: nat, mi: nat)
    requires
        h <= i32::MAX,
        mi <= i32::MAX,
    ensures
        trigger_hours(decimal(h) + "H"@ + decimal(mi) + "M"@) == h,
        trigger_mins(decimal(h) + "H"@ + decimal(mi) + "M"@) == mi,
{
    reveal_strlit("H");
    reveal_strlit("M");
    let dh = decimal(h);
    let dm = decimal(mi);
    lemma_no_h_in_decimal(h);
    lemma_no_h_in_decimal(mi);
    lemma_parse_i32_decimal(h);
    lemma_parse_i32_decimal(mi);
    let rest = dh + "H"@ + dm + "M"@;
    lemma_first_index_of_unique(rest, 'H', dh.len() as int);
    lemma_last_index_of_unique(rest, 'H', dh.len() as int);
    assert(rest.take(dh.len() as int) =~= dh);
    assert(rest.skip(dh.len() as int + 1) =~= dm + "M"@);
    assert((dm + "M"@).drop_last() =~= dm);
}

/// Reading back a written TRIGGER gives the reminder's distance from the
/// event: `parse_trigger_minutes(serialize_trigger_minutes(m)) == |m|`.
pub proof fn lemma_trigger_round_trip(m: int)
    requires
        i32::MIN < m <= i32::MAX,
    ensures
        trigger_fits(trigger_text(m)),
        trigger_value(trigger_text(m)) == if m < 0 { -m } else { m },
{
    reveal_strlit("-PT");
    let total = if m < 0 { -m } else { m };
    let h = total / 60;
    let mi = total % 60;
    let t = trigger_text(m);
    if h == 0 {
        lemma_trigger_minutes_only(mi as nat);
        assert(t.skip(3) =~= decimal(mi as nat) + "M"@);
    } else if mi == 0 {
        lemma_trigger_hours_only(h as nat);
        assert(t.skip(3) =~= decimal(h as nat) + "H"@);
    } else {
        lemma_trigger_both(h as nat, mi as nat);
        assert(t.skip(3) =~= decimal(h as nat) + "H"@ + decimal(mi as nat) + "M"@);
    }
}

/// `event_writable`, checked: no reminder is `i32::MIN` minutes ahead.
pub fn event_is_writable(event: &CalendarEvent) -> (r: bool)
    ensures
        r == event_writable(event@),
{
    let ghost rv = reminders_view(event.reminders@);
    for i in 0..event.reminders.len()
        invariant
            rv == reminders_view(event.reminders@),
            forall|j: int| 0 <= j < i ==> (#[trigger] rv[j]).minutes_before != i32::MIN,
    {
        assert(rv[i as int] == event.reminders@[i as int]@);
        if event.reminders[i].minutes_before == i32::MIN {
            assert(event@.reminders == rv);
            assert(event@.reminders[i as int].minutes_before == i32::MIN);
            return false;
        }
    }
    true
}

/// Serialize an event, or `None` when it holds a reminder `i32::MIN` minutes
/// ahead.
pub fn serialize_ical_event_checked(event: &CalendarEvent) -> (r: Option<String>)
    ensures
        r is Some <==> event_writable(event@),
        r matches Some(text) ==> exists|stamp: Seq<char>| chrono_text(stamp) && text@ == event_ical(
            event@,
            stamp,
        ),
{
    if event_is_writable(event) {
        Some(serialize_ical_event(event))
    } else {
        None
    }
}

} // verus!
