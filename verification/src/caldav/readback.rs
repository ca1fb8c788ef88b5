//! Reading a written event back: what `serialize_ical_event` writes is read
//! by `parse_ical_event` with the same UID, summary, location, description
//! and reminders, and with the date-times, attendees and rule that its own
//! lines describe.
use vstd::prelude::*;
use crate::caldav::ical::{
    chrono_date_reformat, chrono_datetime_reformat, compact_date, compact_datetime, dashed_date,
    dashed_datetime, dt_param, dt_params, line_params,
    attendee_line, attendee_of, datetime_property, event_datetime_of, event_ical, event_lines, event_of,
    ical_lines, ical_readable, ical_scan, ical_start, ical_step, lemma_attendee_line_single_line,
    lemma_block_scan, lemma_rrule_text_single_line, lemma_trigger_round_trip, line_value,
    optional_text_line, or_else, reminder_lines, reminders_lines, rrule_of, rrule_text, trigger_fits,
    trigger_text, trigger_value, IcalScan,
};
use crate::caldav::{AttendeeModel, DateTimeModel, EventModel, RecurrenceModel, ReminderModel};
use crate::folding::{
    content_line, escape_text, lemma_escape_text_empty, lemma_escape_text_end, lemma_escape_text_single_line,
    lemma_lines_of_folded, lemma_unescape_escape, text_end_ok,
};
use crate::folding::trim_end_char;
use crate::text::{
    after_last, all_digits, before_first, is_digit, lemma_last_index_of_unique, split_on,
    decimal, is_whitespace, lemma_decimal_single_line, lemma_first_index_of_unique,
    lemma_literal_single_line, lemma_not_prefix, lemma_prefix_of_concat, lemma_single_line_concat,
    lemma_trim_keeps_prefix, lemma_trim_plain, single_line, strip_cr, trim,
};

verus! {

// ===================== Reading lines one after another =====================

/// The reader's state after more lines, starting from a given state.
pub open spec fn ical_more(s: IcalScan, ls: Seq<Seq<char>>) -> IcalScan
    decreases ls.len(),
{
    if ls.len() == 0 {
        s
    } else {
        ical_step(ical_more(s, ls.drop_last()), ls.last())
    }
}

proof fn lemma_ical_more_concat(s: IcalScan, x: Seq<Seq<char>>, y: Seq<Seq<char>>)
    ensures
        ical_more(s, x + y) == ical_more(ical_more(s, x), y),
    decreases y.len(),
{
    if y.len() == 0 {
        assert(x + y =~= x);
    } else {
        lemma_ical_more_concat(s, x, y.drop_last());
        assert((x + y).drop_last() =~= x + y.drop_last());
        assert((x + y).last() == y.last());
    }
}

proof fn lemma_ical_scan_more(ls: Seq<Seq<char>>)
    ensures
        ical_scan(ls) == ical_more(ical_start(), ls),
    decreases ls.len(),
{
    if ls.len() > 0 {
        lemma_ical_scan_more(ls.drop_last());
    }
}

proof fn lemma_ical_more_one(s: IcalScan, l: Seq<char>)
    ensures
        ical_more(s, seq![l]) == ical_step(s, l),
{
    let one = seq![l];
    assert(one.drop_last() =~= Seq::<Seq<char>>::empty());
    assert(one.last() == l);
    assert(ical_more(s, one.drop_last()) == s);
}

proof fn lemma_ical_more_push(s: IcalScan, ls: Seq<Seq<char>>, l: Seq<char>)
    ensures
        ical_more(s, ls.push(l)) == ical_step(ical_more(s, ls), l),
{
    assert(ls.push(l).drop_last() =~= ls);
}

/// Two texts that differ in their first character differ.
proof fn lemma_first_differs(t: Seq<char>, u: Seq<char>)
    requires
        t.len() > 0,
        u.len() > 0,
        t[0] != u[0],
    ensures
        t != u,
{
}

/// A prefix that ends in non-whitespace survives `strip_cr` and `trim`.
proof fn lemma_read_keeps_prefix(p: Seq<char>, l: Seq<char>)
    requires
        p.is_prefix_of(l),
        p.len() > 0,
        !is_whitespace(p[0]),
        !is_whitespace(p.last()),
    ensures
        p.is_prefix_of(trim(strip_cr(l))),
        trim(strip_cr(l)).len() > 0,
        trim(strip_cr(l))[0] == p[0],
{
    let x = strip_cr(l);
    if l.len() > 0 && l.last() == '\r' {
        assert(l[p.len() - 1] == p.last());
        assert(l.len() > p.len());
        assert(x.subrange(0, p.len() as int) =~= l.subrange(0, p.len() as int));
    }
    lemma_trim_keeps_prefix(p, x);
    let t = trim(x);
    assert(t.subrange(0, p.len() as int)[0] == t[0]);
}


/// The line as the reader sees it: without a trailing carriage return and trimmed.
pub open spec fn seen(l: Seq<char>) -> Seq<char> {
    trim(strip_cr(l))
}

proof fn lemma_prefix_char(p: Seq<char>, t: Seq<char>, i: int)
    requires
        p.is_prefix_of(t),
        0 <= i < p.len(),
    ensures
        t[i] == p[i],
{
    assert(t.subrange(0, p.len() as int)[i] == t[i]);
}

// ===================== One line at a time =====================

/// Inside the VEVENT, outside any VALARM, before END:VEVENT.
spec fn in_body(s: IcalScan) -> bool {
    s.in_event && !s.in_alarm && !s.done
}

/// A line inside the VEVENT body that starts with neither `B` nor `E` is a property line.
proof fn lemma_body_line(s: IcalScan, raw: Seq<char>)
    requires
        in_body(s),
        trim(raw).len() > 0,
        trim(raw)[0] != 'B',
        trim(raw)[0] != 'E',
    ensures
        ical_step(s, raw) == crate::caldav::ical::property_step(s, trim(raw)),
{
    reveal_strlit("BEGIN:VEVENT");
    reveal_strlit("END:VEVENT");
    reveal_strlit("BEGIN:VALARM");
    reveal_strlit("END:VALARM");
    let t = trim(raw);
    lemma_first_differs(t, "BEGIN:VEVENT"@);
    lemma_first_differs(t, "END:VEVENT"@);
    lemma_first_differs(t, "BEGIN:VALARM"@);
    lemma_first_differs(t, "END:VALARM"@);
}

/// A `key:escaped` line: one content line, read back as its value.
proof fn lemma_ical_text_line(key: Seq<char>, v: Seq<char>)
    requires
        key.len() > 0,
        single_line(key),
        !key.contains(':'),
        !is_whitespace(key[0]),
        key[0] != ' ' && key[0] != '\t',
        text_end_ok(v),
    ensures
        ({
            let t = key + ":"@ + escape_text(v);
            &&& content_line(t)
            &&& seen(t) == t
            &&& key.is_prefix_of(t)
            &&& line_value(t) == v
        }),
{
    reveal_strlit(":");
    let e = escape_text(v);
    let t = key + ":"@ + e;
    if v.len() > 0 {
        lemma_escape_text_end(v);
        assert(t.last() == e.last());
    } else {
        lemma_escape_text_empty();
        assert(t.last() == ':');
    }
    assert(t[0] == key[0]);
    assert(strip_cr(t) == t);
    lemma_trim_plain(t);
    assert forall|j: int| 0 <= j < key.len() implies t[j] != ':' by {
        assert(t[j] == key[j]);
        if key[j] == ':' {
            assert(key.contains(':'));
        }
    }
    lemma_first_index_of_unique(t, ':', key.len() as int);
    assert(t.skip(key.len() as int + 1) =~= e);
    lemma_unescape_escape(v, true);
    assert(t =~= key + (":"@ + e));
    lemma_prefix_of_concat(key, ":"@ + e);
    lemma_literal_single_line(":"@);
    lemma_escape_text_single_line(v);
    lemma_single_line_concat(key, ":"@);
    lemma_single_line_concat(key + ":"@, e);
}

proof fn lemma_step_uid(s: IcalScan, id: Seq<char>)
    requires
        in_body(s),
        text_end_ok(id),
    ensures
        content_line("UID:"@ + escape_text(id)),
        ical_step(s, strip_cr("UID:"@ + escape_text(id))) == (IcalScan { id, ..s }),
{
    reveal_strlit("UID:");
    reveal_strlit("UID");
    reveal_strlit(":");
    assert("UID:"@ =~= "UID"@ + ":"@);
    lemma_literal_single_line("UID"@);
    lemma_ical_text_line("UID"@, id);
    let t = "UID"@ + ":"@ + escape_text(id);
    lemma_body_line(s, strip_cr(t));
}

proof fn lemma_step_summary(s: IcalScan, title: Seq<char>)
    requires
        in_body(s),
        text_end_ok(title),
    ensures
        content_line("SUMMARY:"@ + escape_text(title)),
        ical_step(s, strip_cr("SUMMARY:"@ + escape_text(title))) == (IcalScan { title, ..s }),
{
    reveal_strlit("SUMMARY:");
    reveal_strlit("SUMMARY");
    reveal_strlit("UID");
    reveal_strlit(":");
    assert("SUMMARY:"@ =~= "SUMMARY"@ + ":"@);
    lemma_literal_single_line("SUMMARY"@);
    lemma_ical_text_line("SUMMARY"@, title);
    let t = "SUMMARY"@ + ":"@ + escape_text(title);
    lemma_body_line(s, strip_cr(t));
    lemma_not_prefix("UID"@, t, 0);
}

proof fn lemma_step_location(s: IcalScan, v: Seq<char>)
    requires
        in_body(s),
        text_end_ok(v),
    ensures
        content_line("LOCATION:"@ + escape_text(v)),
        ical_step(s, strip_cr("LOCATION:"@ + escape_text(v))) == (IcalScan { location: Some(v), ..s }),
{
    reveal_strlit("LOCATION:");
    reveal_strlit("LOCATION");
    reveal_strlit("UID");
    reveal_strlit("SUMMARY");
    reveal_strlit("DTSTART");
    reveal_strlit("DTEND");
    reveal_strlit(":");
    assert("LOCATION:"@ =~= "LOCATION"@ + ":"@);
    lemma_literal_single_line("LOCATION"@);
    lemma_ical_text_line("LOCATION"@, v);
    let t = "LOCATION"@ + ":"@ + escape_text(v);
    lemma_body_line(s, strip_cr(t));
    lemma_not_prefix("UID"@, t, 0);
    lemma_not_prefix("SUMMARY"@, t, 0);
    lemma_not_prefix("DTSTART"@, t, 0);
    lemma_not_prefix("DTEND"@, t, 0);
}

proof fn lemma_step_description(s: IcalScan, v: Seq<char>)
    requires
        in_body(s),
        text_end_ok(v),
    ensures
        content_line("DESCRIPTION:"@ + escape_text(v)),
        ical_step(s, strip_cr("DESCRIPTION:"@ + escape_text(v))) == (IcalScan { description: Some(v), ..s }),
{
    reveal_strlit("DESCRIPTION:");
    reveal_strlit("DESCRIPTION");
    reveal_strlit("UID");
    reveal_strlit("SUMMARY");
    reveal_strlit("DTSTART");
    reveal_strlit("DTEND");
    reveal_strlit("LOCATION");
    reveal_strlit(":");
    assert("DESCRIPTION:"@ =~= "DESCRIPTION"@ + ":"@);
    lemma_literal_single_line("DESCRIPTION"@);
    lemma_ical_text_line("DESCRIPTION"@, v);
    let t = "DESCRIPTION"@ + ":"@ + escape_text(v);
    lemma_body_line(s, strip_cr(t));
    lemma_not_prefix("UID"@, t, 0);
    lemma_not_prefix("SUMMARY"@, t, 0);
    lemma_not_prefix("DTSTART"@, t, 1);
    lemma_not_prefix("DTEND"@, t, 1);
    lemma_not_prefix("LOCATION"@, t, 0);
}

/// The DTSTAMP line changes nothing the reader keeps.
proof fn lemma_step_dtstamp(s: IcalScan, stamp: Seq<char>)
    requires
        in_body(s),
        single_line(stamp),
    ensures
        content_line("DTSTAMP:"@ + stamp),
        ical_step(s, strip_cr("DTSTAMP:"@ + stamp)) == s,
{
    reveal_strlit("DTSTAMP:");
    reveal_strlit("UID");
    reveal_strlit("SUMMARY");
    reveal_strlit("DTSTART");
    reveal_strlit("DTEND");
    reveal_strlit("LOCATION");
    reveal_strlit("DESCRIPTION");
    reveal_strlit("ATTENDEE");
    reveal_strlit("RRULE");
    let p = "DTSTAMP:"@;
    let l = p + stamp;
    lemma_literal_single_line(p);
    lemma_single_line_concat(p, stamp);
    lemma_prefix_of_concat(p, stamp);
    assert(l[0] == 'D');
    lemma_read_keeps_prefix(p, l);
    let t = seen(l);
    lemma_body_line(s, strip_cr(l));
    lemma_prefix_char(p, t, 1);
    lemma_prefix_char(p, t, 2);
    lemma_prefix_char(p, t, 5);
    lemma_not_prefix("UID"@, t, 0);
    lemma_not_prefix("SUMMARY"@, t, 0);
    lemma_not_prefix("DTSTART"@, t, 5);
    lemma_not_prefix("DTEND"@, t, 2);
    lemma_not_prefix("LOCATION"@, t, 0);
    lemma_not_prefix("DESCRIPTION"@, t, 1);
    lemma_not_prefix("ATTENDEE"@, t, 0);
    lemma_not_prefix("RRULE"@, t, 0);
}

/// A DTSTART or DTEND line starts with its property name.
proof fn lemma_datetime_property_prefix(name: Seq<char>, dt: DateTimeModel)
    ensures
        name.is_prefix_of(datetime_property(name, dt)),
{
    let l = datetime_property(name, dt);
    assert(l.subrange(0, name.len() as int) =~= name);
}

/// A time zone name that a TZID parameter carries back unchanged: it holds
/// no `:`, `;` or line break.
pub open spec fn plain_tzid(t: Seq<char>) -> bool {
    forall|i: int| 0 <= i < t.len() ==> t[i] != ':' && t[i] != ';' && t[i] != '\n'
}

/// A date-time that is written and read back unchanged: a date
/// `YYYY-MM-DD`; a UTC time `YYYY-MM-DDTHH:MM:SSZ`; or a local time
/// `YYYY-MM-DDTHH:MM:SS`, floating or in a time zone with a `plain_tzid`
/// name.
pub open spec fn canonical_datetime(dt: DateTimeModel) -> bool {
    if dt.all_day {
        dashed_date(dt.value) && dt.timezone is None
    } else if dt.value.len() == 20 {
        dt.value.last() == 'Z' && dashed_datetime(dt.value.drop_last()) && dt.timezone is None
    } else {
        dashed_datetime(dt.value) && (dt.timezone matches Some(t) ==> plain_tzid(t))
    }
}

/// What chrono does with the text of a date-time: rewrites it compactly, and
/// reads the compact text back as the text it came from.
pub open spec fn chrono_round_trips(dt: DateTimeModel) -> bool {
    if dt.all_day {
        &&& chrono_date_reformat(dt.value, "%Y-%m-%d"@, "%Y%m%d"@) == Some(compact_date(dt.value))
        &&& chrono_date_reformat(compact_date(dt.value), "%Y%m%d"@, "%Y-%m-%d"@) == Some(dt.value)
    } else {
        let v = trim_end_char(dt.value, 'Z');
        &&& chrono_datetime_reformat(v, "%Y-%m-%dT%H:%M:%S"@, "%Y%m%dT%H%M%S"@) == Some(compact_datetime(v))
        &&& chrono_datetime_reformat(compact_datetime(v), "%Y%m%dT%H%M%S"@, "%Y-%m-%dT%H:%M:%S"@) == Some(v)
    }
}

/// Where the text of a canonical date-time ends, and what is left of it
/// without a final `Z`.
pub(crate) proof fn lemma_canonical_trim(dt: DateTimeModel)
    requires
        canonical_datetime(dt),
    ensures
        dt.value.len() > 0,
        !dt.all_day && dt.value.len() == 20 ==> dt.value.last() == 'Z' && trim_end_char(dt.value, 'Z')
            == dt.value.drop_last() && dashed_datetime(dt.value.drop_last()),
        !dt.all_day && dt.value.len() != 20 ==> dt.value.last() != 'Z' && trim_end_char(dt.value, 'Z') == dt.value
            && dashed_datetime(dt.value),
{
    let v = dt.value;
    if !dt.all_day {
        if v.len() == 20 {
            let w = v.drop_last();
            assert(w.subrange(17, 19)[1] == w[18]);
            assert(w.last() == w[18]);
            assert(trim_end_char(w, 'Z') == w);
        } else {
            assert(v.subrange(17, 19)[1] == v[18]);
            assert(v.last() == v[18]);
        }
    }
}

/// The characters of a compact date are digits.
proof fn lemma_compact_date_digits(v: Seq<char>)
    requires
        dashed_date(v),
    ensures
        compact_date(v).len() == 8,
        forall|i: int| 0 <= i < 8 ==> is_digit(#[trigger] compact_date(v)[i]),
{
    let c = compact_date(v);
    assert forall|i: int| 0 <= i < 8 implies is_digit(#[trigger] c[i]) by {
        if i < 4 {
            assert(c[i] == v.subrange(0, 4)[i]);
        } else if i < 6 {
            assert(c[i] == v.subrange(5, 7)[i - 4]);
        } else {
            assert(c[i] == v.subrange(8, 10)[i - 6]);
        }
    }
}

/// The characters of a compact time are digits and one `T`.
proof fn lemma_compact_datetime_chars(v: Seq<char>)
    requires
        dashed_datetime(v),
    ensures
        compact_datetime(v).len() == 15,
        forall|i: int| 0 <= i < 15 ==> is_digit(#[trigger] compact_datetime(v)[i]) || compact_datetime(v)[i] == 'T',
        is_digit(compact_datetime(v).last()),
{
    reveal_strlit("T");
    let d = v.subrange(0, 10);
    lemma_compact_date_digits(d);
    let c = compact_datetime(v);
    assert forall|i: int| 0 <= i < 15 implies is_digit(#[trigger] c[i]) || c[i] == 'T' by {
        if i < 8 {
            assert(c[i] == compact_date(d)[i]);
        } else if i == 8 {
        } else if i < 11 {
            assert(c[i] == v.subrange(11, 13)[i - 9]);
        } else if i < 13 {
            assert(c[i] == v.subrange(14, 16)[i - 11]);
        } else {
            assert(c[i] == v.subrange(17, 19)[i - 13]);
        }
    }
    assert(c.last() == v.subrange(17, 19)[1]);
}

/// `s.split(';')` on text without `;` and on two such pieces joined by one.
proof fn lemma_split_semicolon(a: Seq<char>, b: Seq<char>)
    requires
        forall|i: int| 0 <= i < a.len() ==> a[i] != ';',
        forall|i: int| 0 <= i < b.len() ==> b[i] != ';',
    ensures
        split_on(a, ';') == seq![a],
        split_on(a + ";"@ + b, ';') == seq![a, b],
{
    reveal_strlit(";");
    lemma_first_index_of_unique(a, ';', a.len() as int);
    lemma_first_index_of_unique(b, ';', b.len() as int);
    let l = a + ";"@ + b;
    assert forall|j: int| 0 <= j < a.len() implies l[j] != ';' by {
        assert(l[j] == a[j]);
    }
    lemma_first_index_of_unique(l, ';', a.len() as int);
    assert(l.take(a.len() as int) =~= a);
    assert(l.skip(a.len() as int + 1) =~= b);
    assert(split_on(b, ';') == seq![b]);
    assert(seq![a].add(seq![b]) =~= seq![a, b]);
}

/// A date-time line `name params:value` is seen as written, and splits at
/// its one `:`.
proof fn lemma_dt_line(name: Seq<char>, params: Seq<char>, value: Seq<char>)
    requires
        name == "DTSTART"@ || name == "DTEND"@,
        forall|i: int| 0 <= i < params.len() ==> params[i] != ':' && params[i] != '\n',
        value.len() > 0,
        forall|i: int| 0 <= i < value.len() ==> is_digit(#[trigger] value[i]) || value[i] == 'T' || value[i] == 'Z',
        is_digit(value.last()) || value.last() == 'Z',
    ensures
        seen(name + params + ":"@ + value) == name + params + ":"@ + value,
        single_line(name + params + ":"@ + value),
        before_first(name + params + ":"@ + value, ':') == name + params,
        after_last(name + params + ":"@ + value, ':') == value,
        forall|i: int| 0 <= i < name.len() ==> name[i] != ':' && name[i] != ';',
{
    reveal_strlit("DTSTART");
    reveal_strlit("DTEND");
    reveal_strlit(":");
    let head = name + params;
    let l = head + ":"@ + value;
    assert(forall|i: int| 0 <= i < name.len() ==> name[i] != ':' && name[i] != ';');
    assert forall|i: int| 0 <= i < head.len() implies head[i] != ':' && head[i] != '\n' by {
        if i < name.len() {
            assert(head[i] == name[i]);
        } else {
            assert(head[i] == params[i - name.len()]);
        }
    }
    assert forall|i: int| 0 <= i < l.len() implies l[i] != '\n' by {
        if i < head.len() {
            assert(l[i] == head[i]);
        } else if i > head.len() {
            assert(l[i] == value[i - head.len() - 1]);
        }
    }
    assert(l.last() == value.last());
    assert(l[0] == name[0]);
    assert(strip_cr(l) == l);
    lemma_trim_plain(l);
    lemma_first_index_of_unique(l, ':', head.len() as int);
    assert(l.take(head.len() as int) =~= head);
    assert forall|j: int| head.len() < j < l.len() implies l[j] != ':' by {
        assert(l[j] == value[j - head.len() - 1]);
    }
    lemma_last_index_of_unique(l, ':', head.len() as int);
    assert(l.skip(head.len() as int + 1) =~= value);
}

/// The parameters of a date-time line: none, or one after a `;`.
proof fn lemma_dt_line_params(name: Seq<char>, p: Option<Seq<char>>, value: Seq<char>)
    requires
        name == "DTSTART"@ || name == "DTEND"@,
        p matches Some(x) ==> forall|i: int| 0 <= i < x.len() ==> x[i] != ':' && x[i] != ';' && x[i] != '\n',
        value.len() > 0,
        forall|i: int| 0 <= i < value.len() ==> is_digit(#[trigger] value[i]) || value[i] == 'T' || value[i] == 'Z',
        is_digit(value.last()) || value.last() == 'Z',
    ensures
        ({
            let ps = match p {
                Some(x) => ";"@ + x,
                None => Seq::<char>::empty(),
            };
            let l = name + ps + ":"@ + value;
            &&& seen(l) == l
            &&& single_line(l)
            &&& after_last(l, ':') == value
            &&& line_params(l) == match p {
                Some(x) => seq![x],
                None => Seq::<Seq<char>>::empty(),
            }
        }),
{
    reveal_strlit(";");
    let ps = match p {
        Some(x) => ";"@ + x,
        None => Seq::<char>::empty(),
    };
    assert forall|i: int| 0 <= i < ps.len() implies ps[i] != ':' && ps[i] != '\n' by {
        if let Some(x) = p {
            if i >= 1 {
                assert(ps[i] == x[i - 1]);
            }
        }
    }
    lemma_dt_line(name, ps, value);
    match p {
        Some(x) => {
            lemma_split_semicolon(name, x);
            assert(name + ps =~= name + ";"@ + x);
        },
        None => {
            lemma_split_semicolon(name, Seq::<char>::empty());
            assert(name + ps =~= name);
        },
    }
}

proof fn lemma_dt_params_one(p: Seq<char>)
    ensures
        dt_params(Seq::<Seq<char>>::empty()) == (None::<Seq<char>>, false),
        dt_params(seq![p]) == dt_param((None, false), p),
{
    assert(seq![p].drop_last() =~= Seq::<Seq<char>>::empty());
}

proof fn lemma_read_canonical_date(name: Seq<char>, dt: DateTimeModel)
    requires
        name == "DTSTART"@ || name == "DTEND"@,
        dt.all_day,
        canonical_datetime(dt),
        chrono_round_trips(dt),
    ensures
        single_line(datetime_property(name, dt)),
        read_datetime(name, dt) == dt,
{
    reveal_strlit(";VALUE=DATE:");
    reveal_strlit(";");
    reveal_strlit("VALUE=DATE");
    reveal_strlit("TZID=");
    reveal_strlit(":");
    let v = dt.value;
    let l = datetime_property(name, dt);
    let c = compact_date(v);
    lemma_compact_date_digits(v);
    assert(c.last() == c[7]);
    let p = "VALUE=DATE"@;
    lemma_dt_line_params(name, Some(p), c);
    assert(l =~= name + (";"@ + p) + ":"@ + c);
    lemma_not_prefix("TZID="@, p, 0);
    lemma_dt_params_one(p);
    assert(dt_params(line_params(l)) == (None::<Seq<char>>, true));
    assert(after_last(seen(l), ':') == c);
    assert(event_datetime_of(seen(l)) =~= dt);
}

#[verifier::rlimit(40)]
proof fn lemma_read_canonical_utc(name: Seq<char>, dt: DateTimeModel)
    requires
        name == "DTSTART"@ || name == "DTEND"@,
        !dt.all_day,
        dt.value.len() == 20,
        canonical_datetime(dt),
        chrono_round_trips(dt),
    ensures
        single_line(datetime_property(name, dt)),
        read_datetime(name, dt) == dt,
{
    reveal_strlit(":");
    reveal_strlit("Z");
    let v = dt.value;
    let w = v.drop_last();
    lemma_canonical_trim(dt);
    lemma_compact_datetime_chars(w);
    let c = compact_datetime(w);
    let x = c + "Z"@;
    assert forall|i: int| 0 <= i < x.len() implies is_digit(#[trigger] x[i]) || x[i] == 'T' || x[i] == 'Z' by {
        if i < c.len() {
            assert(x[i] == c[i]);
        }
    }
    let l = datetime_property(name, dt);
    lemma_dt_line_params(name, None, x);
    assert(l =~= name + Seq::<char>::empty() + ":"@ + x);
    lemma_dt_params_one(x);
    assert(dt_params(line_params(l)) == (None::<Seq<char>>, false));
    assert(after_last(seen(l), ':') == x);
    assert(x.drop_last() =~= c);
    assert(x.last() == 'Z');
    assert(w.push('Z') =~= v);
    assert(event_datetime_of(seen(l)) =~= dt);
}

proof fn lemma_read_canonical_local(name: Seq<char>, dt: DateTimeModel)
    requires
        name == "DTSTART"@ || name == "DTEND"@,
        !dt.all_day,
        dt.value.len() != 20,
        canonical_datetime(dt),
        chrono_round_trips(dt),
    ensures
        single_line(datetime_property(name, dt)),
        read_datetime(name, dt) == dt,
{
    reveal_strlit(";TZID=");
    reveal_strlit(";");
    reveal_strlit("TZID=");
    reveal_strlit("VALUE=DATE");
    reveal_strlit(":");
    let v = dt.value;
    lemma_compact_datetime_chars(v);
    assert(v.last() == v[18]);
    assert(trim_end_char(v, 'Z') == v);
    let c = compact_datetime(v);
    let l = datetime_property(name, dt);
    match dt.timezone {
        Some(t) => {
            let p = "TZID="@ + t;
            assert forall|i: int| 0 <= i < p.len() implies p[i] != ':' && p[i] != ';' && p[i] != '\n' by {
                if i >= 5 {
                    assert(p[i] == t[i - 5]);
                }
            }
            lemma_dt_line_params(name, Some(p), c);
            assert(l =~= name + (";"@ + p) + ":"@ + c);
            lemma_dt_params_one(p);
            assert("TZID="@.is_prefix_of(p)) by {
                assert(p.subrange(0, 5) =~= "TZID="@);
            }
            assert(p.skip(5) =~= t);
            assert(p != "VALUE=DATE"@) by {
                assert(p[0] != "VALUE=DATE"@[0]);
            }
            assert(dt_params(line_params(l)) == (Some(t), false));
        },
        None => {
            lemma_dt_line_params(name, None, c);
            assert(l =~= name + Seq::<char>::empty() + ":"@ + c);
            lemma_dt_params_one(c);
            assert(dt_params(line_params(l)) == (None::<Seq<char>>, false));
        },
    }
    assert(after_last(seen(l), ':') == c);
    assert(c.last() != 'Z');
    assert(event_datetime_of(seen(l)) =~= dt);
}

/// A date-time written from its canonical text is one line and is read back
/// as the date-time it was written from.
pub(crate) proof fn lemma_read_canonical_datetime(name: Seq<char>, dt: DateTimeModel)
    requires
        name == "DTSTART"@ || name == "DTEND"@,
        canonical_datetime(dt),
        chrono_round_trips(dt),
    ensures
        single_line(datetime_property(name, dt)),
        read_datetime(name, dt) == dt,
{
    if dt.all_day {
        lemma_read_canonical_date(name, dt);
    } else if dt.value.len() == 20 {
        lemma_read_canonical_utc(name, dt);
    } else {
        lemma_read_canonical_local(name, dt);
    }
}

/// How a written date-time line is read: the date-time its own text describes.
pub open spec fn read_datetime(name: Seq<char>, dt: DateTimeModel) -> DateTimeModel {
    event_datetime_of(seen(datetime_property(name, dt)))
}

proof fn lemma_step_dtstart(s: IcalScan, dt: DateTimeModel)
    requires
        in_body(s),
    ensures
        ical_step(s, strip_cr(datetime_property("DTSTART"@, dt))) == (IcalScan {
            start: read_datetime("DTSTART"@, dt),
            ..s
        }),
{
    reveal_strlit("DTSTART");
    reveal_strlit("UID");
    reveal_strlit("SUMMARY");
    let p = "DTSTART"@;
    let l = datetime_property(p, dt);
    lemma_datetime_property_prefix(p, dt);
    lemma_read_keeps_prefix(p, l);
    let t = seen(l);
    lemma_body_line(s, strip_cr(l));
    lemma_not_prefix("UID"@, t, 0);
    lemma_not_prefix("SUMMARY"@, t, 0);
}

proof fn lemma_step_dtend(s: IcalScan, dt: DateTimeModel)
    requires
        in_body(s),
    ensures
        ical_step(s, strip_cr(datetime_property("DTEND"@, dt))) == (IcalScan {
            end: read_datetime("DTEND"@, dt),
            ..s
        }),
{
    reveal_strlit("DTEND");
    reveal_strlit("UID");
    reveal_strlit("SUMMARY");
    reveal_strlit("DTSTART");
    let p = "DTEND"@;
    let l = datetime_property(p, dt);
    lemma_datetime_property_prefix(p, dt);
    lemma_read_keeps_prefix(p, l);
    let t = seen(l);
    lemma_body_line(s, strip_cr(l));
    lemma_prefix_char(p, t, 2);
    lemma_not_prefix("UID"@, t, 0);
    lemma_not_prefix("SUMMARY"@, t, 0);
    lemma_not_prefix("DTSTART"@, t, 2);
}

/// An ATTENDEE line adds the attendee its own text describes.
proof fn lemma_step_attendee(s: IcalScan, a: AttendeeModel)
    requires
        in_body(s),
    ensures
        content_line(attendee_line(a)),
        ical_step(s, strip_cr(attendee_line(a))) == (match attendee_of(seen(attendee_line(a))) {
            Some(x) => IcalScan { attendees: s.attendees.push(x), ..s },
            None => s,
        }),
{
    reveal_strlit("ATTENDEE");
    reveal_strlit("UID");
    reveal_strlit("SUMMARY");
    reveal_strlit("DTSTART");
    reveal_strlit("DTEND");
    reveal_strlit("LOCATION");
    reveal_strlit("DESCRIPTION");
    let p = "ATTENDEE"@;
    let l = attendee_line(a);
    assert(l.subrange(0, 8) =~= p);
    lemma_attendee_line_single_line(a);
    lemma_read_keeps_prefix(p, l);
    let t = seen(l);
    lemma_body_line(s, strip_cr(l));
    lemma_not_prefix("UID"@, t, 0);
    lemma_not_prefix("SUMMARY"@, t, 0);
    lemma_not_prefix("DTSTART"@, t, 0);
    lemma_not_prefix("DTEND"@, t, 0);
    lemma_not_prefix("LOCATION"@, t, 0);
    lemma_not_prefix("DESCRIPTION"@, t, 0);
}

/// The RRULE line sets the rule its own text describes.
proof fn lemma_step_rrule(s: IcalScan, r: RecurrenceModel)
    requires
        in_body(s),
    ensures
        content_line("RRULE:"@ + rrule_text(r)),
        ical_step(s, strip_cr("RRULE:"@ + rrule_text(r))) == (IcalScan {
            recurrence: rrule_of(line_value(seen("RRULE:"@ + rrule_text(r)))),
            ..s
        }),
{
    reveal_strlit("RRULE:");
    reveal_strlit("RRULE");
    reveal_strlit("UID");
    reveal_strlit("SUMMARY");
    reveal_strlit("DTSTART");
    reveal_strlit("DTEND");
    reveal_strlit("LOCATION");
    reveal_strlit("DESCRIPTION");
    reveal_strlit("ATTENDEE");
    let p = "RRULE:"@;
    let l = p + rrule_text(r);
    lemma_rrule_text_single_line(r);
    lemma_literal_single_line(p);
    lemma_single_line_concat(p, rrule_text(r));
    lemma_prefix_of_concat(p, rrule_text(r));
    assert(l[0] == 'R');
    lemma_read_keeps_prefix(p, l);
    let t = seen(l);
    lemma_body_line(s, strip_cr(l));
    lemma_prefix_char(p, t, 4);
    assert(t.subrange(0, 5) =~= "RRULE"@);
    lemma_not_prefix("UID"@, t, 0);
    lemma_not_prefix("SUMMARY"@, t, 0);
    lemma_not_prefix("DTSTART"@, t, 0);
    lemma_not_prefix("DTEND"@, t, 0);
    lemma_not_prefix("LOCATION"@, t, 0);
    lemma_not_prefix("DESCRIPTION"@, t, 0);
    lemma_not_prefix("ATTENDEE"@, t, 0);
}


// ===================== Reminders =====================

/// An ACTION value that reads back unchanged: one line, no backslash, and no
/// whitespace at its end.
pub open spec fn action_ok(action: Option<Seq<char>>) -> bool {
    match action {
        Some(a) => single_line(a) && !a.contains('\\') && (a.len() == 0 || !is_whitespace(a.last())),
        None => true,
    }
}

/// The reminder a written VALARM is read as: the distance before the event,
/// and the action written (DISPLAY when none was given).
pub open spec fn read_reminder(r: ReminderModel) -> ReminderModel {
    ReminderModel {
        minutes_before: if r.minutes_before < 0 {
            -r.minutes_before
        } else {
            r.minutes_before
        },
        action: Some(or_else(r.action, "DISPLAY"@)),
    }
}

/// Characters of a TRIGGER value: digits and the letters of `-PT..H..M`.
spec fn trigger_char(c: char) -> bool {
    ('0' <= c && c <= '9') || c == '-' || c == 'P' || c == 'T' || c == 'H' || c == 'M'
}

spec fn trigger_chars(s: Seq<char>) -> bool {
    forall|i: int| 0 <= i < s.len() ==> trigger_char(#[trigger] s[i])
}

proof fn lemma_trigger_chars_concat(a: Seq<char>, b: Seq<char>)
    requires
        trigger_chars(a),
        trigger_chars(b),
    ensures
        trigger_chars(a + b),
{
    assert forall|i: int| 0 <= i < (a + b).len() implies trigger_char(#[trigger] (a + b)[i]) by {
        if i < a.len() {
            assert((a + b)[i] == a[i]);
        } else {
            assert((a + b)[i] == b[i - a.len()]);
        }
    }
}

proof fn lemma_decimal_trigger_chars(n: nat)
    ensures
        trigger_chars(decimal(n)),
{
    lemma_decimal_single_line(n);
    assert forall|i: int| 0 <= i < decimal(n).len() implies trigger_char(#[trigger] decimal(n)[i]) by {
        assert(crate::text::is_digit(decimal(n)[i]));
    }
}

/// A TRIGGER value is made of digits and the letters `-PTHM`, and ends in `H` or `M`.
proof fn lemma_trigger_text_chars(m: int)
    ensures
        trigger_chars(trigger_text(m)),
        trigger_text(m).len() > 0,
        trigger_text(m).last() == 'H' || trigger_text(m).last() == 'M',
{
    reveal_strlit("-PT");
    reveal_strlit("M");
    reveal_strlit("H");
    let total = if m < 0 { -m } else { m };
    let h = total / 60;
    let mi = total % 60;
    assert(trigger_chars("-PT"@));
    assert(trigger_chars("M"@));
    assert(trigger_chars("H"@));
    lemma_decimal_trigger_chars(h as nat);
    lemma_decimal_trigger_chars(mi as nat);
    lemma_trigger_chars_concat("-PT"@, decimal(mi as nat));
    lemma_trigger_chars_concat("-PT"@ + decimal(mi as nat), "M"@);
    lemma_trigger_chars_concat("-PT"@, decimal(h as nat));
    lemma_trigger_chars_concat("-PT"@ + decimal(h as nat), "H"@);
    lemma_trigger_chars_concat("-PT"@ + decimal(h as nat) + "H"@, decimal(mi as nat));
    lemma_trigger_chars_concat("-PT"@ + decimal(h as nat) + "H"@ + decimal(mi as nat), "M"@);
}

/// Inside a VALARM of the VEVENT, before END:VEVENT.
spec fn in_alarm(s: IcalScan) -> bool {
    s.in_event && s.in_alarm && !s.done
}

/// A line inside a VALARM that starts with neither `B` nor `E` goes to `alarm_step`.
proof fn lemma_alarm_line(s: IcalScan, raw: Seq<char>)
    requires
        in_alarm(s),
        trim(raw).len() > 0,
        trim(raw)[0] != 'B',
        trim(raw)[0] != 'E',
    ensures
        ical_step(s, raw) == crate::caldav::ical::alarm_step(s, trim(raw)),
{
    reveal_strlit("BEGIN:VEVENT");
    reveal_strlit("END:VEVENT");
    reveal_strlit("BEGIN:VALARM");
    reveal_strlit("END:VALARM");
    let t = trim(raw);
    lemma_first_differs(t, "BEGIN:VEVENT"@);
    lemma_first_differs(t, "END:VEVENT"@);
    lemma_first_differs(t, "BEGIN:VALARM"@);
    lemma_first_differs(t, "END:VALARM"@);
}

/// A literal line that starts and ends with non-whitespace is seen as itself.
proof fn lemma_seen_plain(l: Seq<char>)
    requires
        l.len() > 0,
        !is_whitespace(l[0]),
        !is_whitespace(l.last()),
    ensures
        seen(l) == l,
{
    assert(strip_cr(l) == l);
    lemma_trim_plain(l);
}

/// The lines of a written VALARM: content lines, each seen as written, with
/// the action and the TRIGGER value as their values.
proof fn lemma_reminder_lines(r: ReminderModel)
    requires
        action_ok(r.action),
    ensures
        ({
            let x = or_else(r.action, "DISPLAY"@);
            let tt = trigger_text(r.minutes_before);
            let ls = reminder_lines(r);
            &&& ls == seq!["BEGIN:VALARM"@, "ACTION:"@ + x, "TRIGGER:"@ + tt, "DESCRIPTION:Reminder"@, "END:VALARM"@]
            &&& forall|i: int| 0 <= i < ls.len() ==> content_line(#[trigger] ls[i]) && strip_cr(ls[i]) == ls[i]
                && seen(ls[i]) == ls[i]
            &&& line_value("ACTION:"@ + x) == x
            &&& line_value("TRIGGER:"@ + tt) == tt
        }),
{
    reveal_strlit("BEGIN:VALARM");
    reveal_strlit("END:VALARM");
    reveal_strlit("ACTION:");
    reveal_strlit("TRIGGER:");
    reveal_strlit("DESCRIPTION:Reminder");
    reveal_strlit("DISPLAY");
    let b = "BEGIN:VALARM"@;
    let x = or_else(r.action, "DISPLAY"@);
    let a = "ACTION:"@ + x;
    let tt = trigger_text(r.minutes_before);
    let t = "TRIGGER:"@ + tt;
    let d = "DESCRIPTION:Reminder"@;
    let e = "END:VALARM"@;
    let ls = reminder_lines(r);
    assert(ls =~= seq![b, a, t, d, e]);
    lemma_seen_plain(b);
    lemma_seen_plain(e);
    lemma_seen_plain(d);
    assert(single_line(x) && !x.contains('\\') && (x.len() == 0 || !is_whitespace(x.last())));
    if x.len() > 0 {
        assert(a.last() == x.last());
    }
    assert(a[0] == 'A');
    lemma_seen_plain(a);
    lemma_trigger_text_chars(r.minutes_before);
    assert(t.last() == tt.last());
    assert(t[0] == 'T');
    lemma_seen_plain(t);
    lemma_literal_single_line(b);
    lemma_literal_single_line(e);
    lemma_literal_single_line(d);
    lemma_literal_single_line("ACTION:"@);
    lemma_single_line_concat("ACTION:"@, x);
    lemma_literal_single_line("TRIGGER:"@);
    assert(single_line(tt)) by {
        assert forall|i: int| 0 <= i < tt.len() implies tt[i] != '\n' by {
            assert(trigger_char(tt[i]));
        }
    }
    lemma_single_line_concat("TRIGGER:"@, tt);
    assert forall|i: int| 0 <= i < ls.len() implies content_line(#[trigger] ls[i]) && strip_cr(ls[i]) == ls[i]
        && seen(ls[i]) == ls[i] by {}
    lemma_first_index_of_unique(a, ':', 6);
    assert(a.skip(7) =~= x);
    crate::folding::lemma_unescape_plain_then(x, Seq::<char>::empty(), true);
    assert(crate::folding::unescape_text(Seq::<char>::empty(), true) =~= Seq::<char>::empty());
    assert(x + Seq::<char>::empty() =~= x);
    assert forall|j: int| 0 <= j < 7 implies t[j] != ':' by {}
    lemma_first_index_of_unique(t, ':', 7);
    assert(t.skip(8) =~= tt);
    assert(!tt.contains('\\')) by {
        if tt.contains('\\') {
            let i = choose|i: int| 0 <= i < tt.len() && tt[i] == '\\';
            assert(trigger_char(tt[i]));
        }
    }
    crate::folding::lemma_unescape_plain_then(tt, Seq::<char>::empty(), true);
    assert(tt + Seq::<char>::empty() =~= tt);
}

/// The reader's steps over the five lines of a VALARM.
proof fn lemma_alarm_steps(s: IcalScan, x: Seq<char>, tt: Seq<char>, rem: ReminderModel)
    requires
        in_body(s),
        trim("ACTION:"@ + x) == "ACTION:"@ + x,
        trim("TRIGGER:"@ + tt) == "TRIGGER:"@ + tt,
        line_value("ACTION:"@ + x) == x,
        line_value("TRIGGER:"@ + tt) == tt,
        trigger_fits(tt),
        rem == (ReminderModel { minutes_before: trigger_value(tt), action: Some(x) }),
    ensures
        ical_more(s, seq!["BEGIN:VALARM"@, "ACTION:"@ + x, "TRIGGER:"@ + tt, "DESCRIPTION:Reminder"@, "END:VALARM"@])
            == (IcalScan { alarm: rem, reminders: s.reminders.push(rem), ..s }),
{
    reveal_strlit("BEGIN:VALARM");
    reveal_strlit("END:VALARM");
    reveal_strlit("BEGIN:VEVENT");
    reveal_strlit("END:VEVENT");
    reveal_strlit("ACTION");
    reveal_strlit("ACTION:");
    reveal_strlit("TRIGGER");
    reveal_strlit("TRIGGER:");
    reveal_strlit("DESCRIPTION:Reminder");
    let b = "BEGIN:VALARM"@;
    let a = "ACTION:"@ + x;
    let t = "TRIGGER:"@ + tt;
    let d = "DESCRIPTION:Reminder"@;
    let e = "END:VALARM"@;
    lemma_trim_plain(b);
    lemma_trim_plain(d);
    lemma_trim_plain(e);
    assert(seq![b, a, t, d, e] =~= seq![b].push(a).push(t).push(d).push(e));
    assert(b[7] != "BEGIN:VEVENT"@[7]);
    let s1 = IcalScan { in_alarm: true, alarm: crate::caldav::ical::blank_reminder(), ..s };
    lemma_ical_more_one(s, b);
    assert(ical_step(s, b) == s1);
    let s2 = IcalScan { alarm: ReminderModel { action: Some(x), ..s1.alarm }, ..s1 };
    assert(a[0] == 'A');
    lemma_alarm_line(s1, a);
    assert(a.subrange(0, 6) =~= "ACTION"@);
    lemma_ical_more_push(s, seq![b], a);
    assert(ical_step(s1, a) == s2);
    let s3 = IcalScan { alarm: rem, ..s1 };
    assert(t[0] == 'T');
    lemma_alarm_line(s2, t);
    lemma_not_prefix("ACTION"@, t, 0);
    assert(t.subrange(0, 7) =~= "TRIGGER"@);
    lemma_ical_more_push(s, seq![b].push(a), t);
    assert(ical_step(s2, t) == s3);
    lemma_alarm_line(s3, d);
    lemma_not_prefix("ACTION"@, d, 0);
    lemma_not_prefix("TRIGGER"@, d, 0);
    lemma_ical_more_push(s, seq![b].push(a).push(t), d);
    assert(ical_step(s3, d) == s3);
    assert(e[5] != "END:VEVENT"@[5]);
    lemma_ical_more_push(s, seq![b].push(a).push(t).push(d), e);
}

/// A written VALARM is read as one more reminder.
proof fn lemma_reminder_block(s: IcalScan, r: ReminderModel)
    requires
        in_body(s),
        action_ok(r.action),
        i32::MIN < r.minutes_before <= i32::MAX,
    ensures
        forall|i: int| 0 <= i < reminder_lines(r).len() ==> content_line(#[trigger] reminder_lines(r)[i]),
        ical_more(s, reminder_lines(r).map_values(|l: Seq<char>| strip_cr(l))) == (IcalScan {
            alarm: read_reminder(r),
            reminders: s.reminders.push(read_reminder(r)),
            ..s
        }),
{
    lemma_reminder_lines(r);
    let x = or_else(r.action, "DISPLAY"@);
    let tt = trigger_text(r.minutes_before);
    let ls = reminder_lines(r);
    lemma_trigger_round_trip(r.minutes_before);
    assert(strip_cr(ls[1]) == ls[1] && seen(ls[1]) == ls[1]);
    assert(strip_cr(ls[2]) == ls[2] && seen(ls[2]) == ls[2]);
    assert(ls.map_values(|l: Seq<char>| strip_cr(l)) =~= ls) by {
        assert forall|i: int| 0 <= i < ls.len() implies strip_cr(ls[i]) == ls[i] by {}
    }
    lemma_alarm_steps(s, x, tt, read_reminder(r));
}


// ===================== Groups of lines =====================

spec fn all_content(ls: Seq<Seq<char>>) -> bool {
    forall|i: int| 0 <= i < ls.len() ==> content_line(#[trigger] ls[i])
}

proof fn lemma_all_content_concat(x: Seq<Seq<char>>, y: Seq<Seq<char>>)
    requires
        all_content(x),
        all_content(y),
    ensures
        all_content(x + y),
{
    assert forall|i: int| 0 <= i < (x + y).len() implies content_line(#[trigger] (x + y)[i]) by {
        if i < x.len() {
            assert((x + y)[i] == x[i]);
        } else {
            assert((x + y)[i] == y[i - x.len()]);
        }
    }
}

proof fn lemma_strip_map_concat(x: Seq<Seq<char>>, y: Seq<Seq<char>>)
    ensures
        (x + y).map_values(|l: Seq<char>| strip_cr(l)) == x.map_values(|l: Seq<char>| strip_cr(l))
            + y.map_values(|l: Seq<char>| strip_cr(l)),
{
    assert((x + y).map_values(|l: Seq<char>| strip_cr(l)) =~= x.map_values(|l: Seq<char>| strip_cr(l))
        + y.map_values(|l: Seq<char>| strip_cr(l)));
}

/// An optional text property as it is read back: present when written, and
/// written only when present and not empty.
pub open spec fn read_text(v: Option<Seq<char>>) -> Option<Seq<char>> {
    match v {
        Some(x) => if x.len() > 0 {
            Some(x)
        } else {
            None
        },
        None => None,
    }
}

proof fn lemma_read_location(s: IcalScan, v: Option<Seq<char>>)
    requires
        in_body(s),
        s.location is None,
        v matches Some(x) ==> text_end_ok(x),
    ensures
        all_content(optional_text_line("LOCATION:"@, v)),
        ical_more(s, optional_text_line("LOCATION:"@, v).map_values(|l: Seq<char>| strip_cr(l))) == (IcalScan {
            location: read_text(v),
            ..s
        }),
{
    let ls = optional_text_line("LOCATION:"@, v);
    match v {
        Some(x) => {
            if x.len() > 0 {
                lemma_step_location(s, x);
                assert(ls.map_values(|l: Seq<char>| strip_cr(l)) =~= seq![strip_cr("LOCATION:"@ + escape_text(x))]);
                lemma_ical_more_one(s, strip_cr("LOCATION:"@ + escape_text(x)));
            } else {
                assert(ls.map_values(|l: Seq<char>| strip_cr(l)) =~= Seq::<Seq<char>>::empty());
            }
        },
        None => {
            assert(ls.map_values(|l: Seq<char>| strip_cr(l)) =~= Seq::<Seq<char>>::empty());
        },
    }
}

proof fn lemma_read_description(s: IcalScan, v: Option<Seq<char>>)
    requires
        in_body(s),
        s.description is None,
        v matches Some(x) ==> text_end_ok(x),
    ensures
        all_content(optional_text_line("DESCRIPTION:"@, v)),
        ical_more(s, optional_text_line("DESCRIPTION:"@, v).map_values(|l: Seq<char>| strip_cr(l))) == (IcalScan {
            description: read_text(v),
            ..s
        }),
{
    let ls = optional_text_line("DESCRIPTION:"@, v);
    match v {
        Some(x) => {
            if x.len() > 0 {
                lemma_step_description(s, x);
                assert(ls.map_values(|l: Seq<char>| strip_cr(l)) =~= seq![strip_cr("DESCRIPTION:"@ + escape_text(x))]);
                lemma_ical_more_one(s, strip_cr("DESCRIPTION:"@ + escape_text(x)));
            } else {
                assert(ls.map_values(|l: Seq<char>| strip_cr(l)) =~= Seq::<Seq<char>>::empty());
            }
        },
        None => {
            assert(ls.map_values(|l: Seq<char>| strip_cr(l)) =~= Seq::<Seq<char>>::empty());
        },
    }
}

/// The attendees read from written ATTENDEE lines: each line is read as the
/// attendee its own text describes.
pub open spec fn read_attendees(attendees: Seq<AttendeeModel>) -> Seq<AttendeeModel>
    decreases attendees.len(),
{
    if attendees.len() == 0 {
        seq![]
    } else {
        let prev = read_attendees(attendees.drop_last());
        match attendee_of(seen(attendee_line(attendees.last()))) {
            Some(x) => prev.push(x),
            None => prev,
        }
    }
}

proof fn lemma_read_attendees(s: IcalScan, attendees: Seq<AttendeeModel>)
    requires
        in_body(s),
    ensures
        all_content(attendees.map_values(|a: AttendeeModel| attendee_line(a))),
        ical_more(
            s,
            attendees.map_values(|a: AttendeeModel| attendee_line(a)).map_values(|l: Seq<char>| strip_cr(l)),
        ) == (IcalScan { attendees: s.attendees + read_attendees(attendees), ..s }),
    decreases attendees.len(),
{
    let ls = attendees.map_values(|a: AttendeeModel| attendee_line(a));
    assert forall|i: int| 0 <= i < ls.len() implies content_line(#[trigger] ls[i]) by {
        lemma_step_attendee(s, attendees[i]);
    }
    if attendees.len() == 0 {
        assert(ls.map_values(|l: Seq<char>| strip_cr(l)) =~= Seq::<Seq<char>>::empty());
        assert(s.attendees + read_attendees(attendees) =~= s.attendees);
    } else {
        let init = attendees.drop_last();
        lemma_read_attendees(s, init);
        let m = ls.map_values(|l: Seq<char>| strip_cr(l));
        let mi = init.map_values(|a: AttendeeModel| attendee_line(a)).map_values(|l: Seq<char>| strip_cr(l));
        assert(m =~= mi.push(strip_cr(attendee_line(attendees.last()))));
        lemma_ical_more_push(s, mi, strip_cr(attendee_line(attendees.last())));
        let s1 = IcalScan { attendees: s.attendees + read_attendees(init), ..s };
        lemma_step_attendee(s1, attendees.last());
        match attendee_of(seen(attendee_line(attendees.last()))) {
            Some(x) => {
                assert((s.attendees + read_attendees(init)).push(x) =~= s.attendees + read_attendees(attendees));
            },
            None => {},
        }
    }
}

/// The rule read from a written RRULE line: the rule its own text describes.
pub open spec fn read_recurrence(rec: Option<RecurrenceModel>) -> Option<RecurrenceModel> {
    match rec {
        Some(r) => rrule_of(line_value(seen("RRULE:"@ + rrule_text(r)))),
        None => None,
    }
}

/// The RRULE lines written for an optional rule.
spec fn rrule_lines(rec: Option<RecurrenceModel>) -> Seq<Seq<char>> {
    match rec {
        Some(r) => seq!["RRULE:"@ + rrule_text(r)],
        None => seq![],
    }
}

proof fn lemma_read_rrule(s: IcalScan, rec: Option<RecurrenceModel>)
    requires
        in_body(s),
        s.recurrence is None,
    ensures
        all_content(rrule_lines(rec)),
        ical_more(s, rrule_lines(rec).map_values(|l: Seq<char>| strip_cr(l))) == (IcalScan {
            recurrence: read_recurrence(rec),
            ..s
        }),
{
    let ls = rrule_lines(rec);
    match rec {
        Some(r) => {
            lemma_step_rrule(s, r);
            assert(ls.map_values(|l: Seq<char>| strip_cr(l)) =~= seq![strip_cr("RRULE:"@ + rrule_text(r))]);
            lemma_ical_more_one(s, strip_cr("RRULE:"@ + rrule_text(r)));
        },
        None => {
            assert(ls.map_values(|l: Seq<char>| strip_cr(l)) =~= Seq::<Seq<char>>::empty());
        },
    }
}

/// Reminders that read back: each action reads back and each distance fits in `i32`.
pub open spec fn reminders_ok(rs: Seq<ReminderModel>) -> bool {
    forall|i: int|
        0 <= i < rs.len() ==> action_ok(#[trigger] rs[i].action) && i32::MIN < rs[i].minutes_before
            <= i32::MAX
}

/// The alarm being read after the reminder blocks.
spec fn last_alarm(before: ReminderModel, rs: Seq<ReminderModel>) -> ReminderModel {
    if rs.len() == 0 {
        before
    } else {
        read_reminder(rs.last())
    }
}

proof fn lemma_read_reminders(s: IcalScan, rs: Seq<ReminderModel>)
    requires
        in_body(s),
        reminders_ok(rs),
    ensures
        all_content(reminders_lines(rs)),
        ical_more(s, reminders_lines(rs).map_values(|l: Seq<char>| strip_cr(l))) == (IcalScan {
            alarm: last_alarm(s.alarm, rs),
            reminders: s.reminders + rs.map_values(|r: ReminderModel| read_reminder(r)),
            ..s
        }),
    decreases rs.len(),
{
    if rs.len() == 0 {
        assert(reminders_lines(rs).map_values(|l: Seq<char>| strip_cr(l)) =~= Seq::<Seq<char>>::empty());
        assert(s.reminders + rs.map_values(|r: ReminderModel| read_reminder(r)) =~= s.reminders);
    } else {
        let init = rs.drop_last();
        let last = rs.last();
        assert(reminders_ok(init)) by {
            assert forall|i: int| 0 <= i < init.len() implies action_ok(#[trigger] init[i].action) && i32::MIN
                < init[i].minutes_before <= i32::MAX by {
                assert(init[i] == rs[i]);
            }
        }
        assert(action_ok(rs[rs.len() - 1].action));
        lemma_read_reminders(s, init);
        let s1 = IcalScan {
            alarm: last_alarm(s.alarm, init),
            reminders: s.reminders + init.map_values(|r: ReminderModel| read_reminder(r)),
            ..s
        };
        lemma_reminder_block(s1, last);
        lemma_strip_map_concat(reminders_lines(init), reminder_lines(last));
        lemma_ical_more_concat(
            s,
            reminders_lines(init).map_values(|l: Seq<char>| strip_cr(l)),
            reminder_lines(last).map_values(|l: Seq<char>| strip_cr(l)),
        );
        lemma_all_content_concat(reminders_lines(init), reminder_lines(last));
        assert((s.reminders + init.map_values(|r: ReminderModel| read_reminder(r))).push(read_reminder(last))
            =~= s.reminders + rs.map_values(|r: ReminderModel| read_reminder(r)));
    }
}


// ===================== The head of the VCALENDAR =====================

/// A line before BEGIN:VEVENT that is not a block marker changes nothing.
proof fn lemma_outside_line(s: IcalScan, l: Seq<char>)
    requires
        !s.in_event,
        !s.done,
        seen(l) != "BEGIN:VEVENT"@,
        seen(l) != "END:VEVENT"@,
    ensures
        ical_step(s, strip_cr(l)) == s,
{
}

/// The first lines written: the VCALENDAR header and BEGIN:VEVENT.
spec fn calendar_header() -> Seq<Seq<char>> {
    seq!["BEGIN:VCALENDAR"@, "VERSION:2.0"@, "PRODID:-//fastmail-cli//EN"@, "CALSCALE:GREGORIAN"@, "BEGIN:VEVENT"@]
}

proof fn lemma_read_calendar_header()
    ensures
        all_content(calendar_header()),
        ical_more(ical_start(), calendar_header().map_values(|l: Seq<char>| strip_cr(l))) == (IcalScan {
            in_event: true,
            ..ical_start()
        }),
{
    reveal_strlit("BEGIN:VCALENDAR");
    reveal_strlit("VERSION:2.0");
    reveal_strlit("PRODID:-//fastmail-cli//EN");
    reveal_strlit("CALSCALE:GREGORIAN");
    reveal_strlit("BEGIN:VEVENT");
    reveal_strlit("END:VEVENT");
    let l0 = "BEGIN:VCALENDAR"@;
    let l1 = "VERSION:2.0"@;
    let l2 = "PRODID:-//fastmail-cli//EN"@;
    let l3 = "CALSCALE:GREGORIAN"@;
    let l4 = "BEGIN:VEVENT"@;
    let h = calendar_header();
    lemma_seen_plain(l0);
    lemma_seen_plain(l1);
    lemma_seen_plain(l2);
    lemma_seen_plain(l3);
    lemma_seen_plain(l4);
    lemma_literal_single_line(l0);
    lemma_literal_single_line(l1);
    lemma_literal_single_line(l2);
    lemma_literal_single_line(l3);
    lemma_literal_single_line(l4);
    assert(all_content(h)) by {
        assert forall|i: int| 0 <= i < h.len() implies content_line(#[trigger] h[i]) by {}
    }
    let s0 = ical_start();
    assert(h.map_values(|l: Seq<char>| strip_cr(l)) =~= seq![l0].push(l1).push(l2).push(l3).push(l4));
    lemma_outside_line(s0, l0);
    lemma_first_differs(l1, "BEGIN:VEVENT"@);
    lemma_first_differs(l1, "END:VEVENT"@);
    lemma_outside_line(s0, l1);
    lemma_first_differs(l2, "BEGIN:VEVENT"@);
    lemma_first_differs(l2, "END:VEVENT"@);
    lemma_outside_line(s0, l2);
    lemma_first_differs(l3, "BEGIN:VEVENT"@);
    lemma_first_differs(l3, "END:VEVENT"@);
    lemma_outside_line(s0, l3);
    lemma_ical_more_one(s0, l0);
    lemma_ical_more_push(s0, seq![l0], l1);
    lemma_ical_more_push(s0, seq![l0].push(l1), l2);
    lemma_ical_more_push(s0, seq![l0].push(l1).push(l2), l3);
    lemma_ical_more_push(s0, seq![l0].push(l1).push(l2).push(l3), l4);
}

/// The VEVENT's own first lines: UID, DTSTAMP, SUMMARY, DTSTART, DTEND.
spec fn event_head(e: EventModel, stamp: Seq<char>) -> Seq<Seq<char>> {
    seq![
        "UID:"@ + escape_text(e.id),
        "DTSTAMP:"@ + stamp,
        "SUMMARY:"@ + escape_text(e.title),
        datetime_property("DTSTART"@, e.start),
        datetime_property("DTEND"@, e.end),
    ]
}

proof fn lemma_read_event_head(s: IcalScan, e: EventModel, stamp: Seq<char>)
    requires
        in_body(s),
        text_end_ok(e.id),
        text_end_ok(e.title),
        single_line(stamp),
        single_line(datetime_property("DTSTART"@, e.start)),
        single_line(datetime_property("DTEND"@, e.end)),
    ensures
        all_content(event_head(e, stamp)),
        ical_more(s, event_head(e, stamp).map_values(|l: Seq<char>| strip_cr(l))) == (IcalScan {
            id: e.id,
            title: e.title,
            start: read_datetime("DTSTART"@, e.start),
            end: read_datetime("DTEND"@, e.end),
            ..s
        }),
{
    reveal_strlit("DTSTART");
    reveal_strlit("DTEND");
    let h = event_head(e, stamp);
    let l0 = h[0];
    let l1 = h[1];
    let l2 = h[2];
    let l3 = h[3];
    let l4 = h[4];
    lemma_step_uid(s, e.id);
    let s1 = IcalScan { id: e.id, ..s };
    lemma_step_dtstamp(s1, stamp);
    lemma_step_summary(s1, e.title);
    let s3 = IcalScan { title: e.title, ..s1 };
    lemma_step_dtstart(s3, e.start);
    let s4 = IcalScan { start: read_datetime("DTSTART"@, e.start), ..s3 };
    lemma_step_dtend(s4, e.end);
    lemma_datetime_property_prefix("DTSTART"@, e.start);
    lemma_datetime_property_prefix("DTEND"@, e.end);
    lemma_prefix_char("DTSTART"@, l3, 0);
    lemma_prefix_char("DTEND"@, l4, 0);
    assert(all_content(h)) by {
        assert forall|i: int| 0 <= i < h.len() implies content_line(#[trigger] h[i]) by {}
    }
    let m0 = strip_cr(l0);
    let m1 = strip_cr(l1);
    let m2 = strip_cr(l2);
    let m3 = strip_cr(l3);
    let m4 = strip_cr(l4);
    assert(h.map_values(|l: Seq<char>| strip_cr(l)) =~= seq![m0].push(m1).push(m2).push(m3).push(m4));
    lemma_ical_more_one(s, m0);
    lemma_ical_more_push(s, seq![m0], m1);
    lemma_ical_more_push(s, seq![m0].push(m1), m2);
    lemma_ical_more_push(s, seq![m0].push(m1).push(m2), m3);
    lemma_ical_more_push(s, seq![m0].push(m1).push(m2).push(m3), m4);
}


// ===================== The law =====================

/// The properties written after DTEND and before END:VEVENT.
spec fn event_body(e: EventModel) -> Seq<Seq<char>> {
    optional_text_line("LOCATION:"@, e.location) + optional_text_line("DESCRIPTION:"@, e.description)
        + e.attendees.map_values(|a: AttendeeModel| attendee_line(a)) + rrule_lines(e.recurrence)
        + reminders_lines(e.reminders)
}

proof fn lemma_read_event_body(s: IcalScan, e: EventModel)
    requires
        in_body(s),
        s.location is None,
        s.description is None,
        s.recurrence is None,
        e.location matches Some(x) ==> text_end_ok(x),
        e.description matches Some(x) ==> text_end_ok(x),
        reminders_ok(e.reminders),
    ensures
        all_content(event_body(e)),
        ical_more(s, event_body(e).map_values(|l: Seq<char>| strip_cr(l))) == (IcalScan {
            location: read_text(e.location),
            description: read_text(e.description),
            attendees: s.attendees + read_attendees(e.attendees),
            recurrence: read_recurrence(e.recurrence),
            alarm: last_alarm(s.alarm, e.reminders),
            reminders: s.reminders + e.reminders.map_values(|r: ReminderModel| read_reminder(r)),
            ..s
        }),
{
    let lo = optional_text_line("LOCATION:"@, e.location);
    let de = optional_text_line("DESCRIPTION:"@, e.description);
    let at = e.attendees.map_values(|a: AttendeeModel| attendee_line(a));
    let rr = rrule_lines(e.recurrence);
    let re = reminders_lines(e.reminders);
    lemma_read_location(s, e.location);
    let s1 = IcalScan { location: read_text(e.location), ..s };
    lemma_read_description(s1, e.description);
    let s2 = IcalScan { description: read_text(e.description), ..s1 };
    lemma_read_attendees(s2, e.attendees);
    let s3 = IcalScan { attendees: s.attendees + read_attendees(e.attendees), ..s2 };
    lemma_read_rrule(s3, e.recurrence);
    let s4 = IcalScan { recurrence: read_recurrence(e.recurrence), ..s3 };
    lemma_read_reminders(s4, e.reminders);
    lemma_strip_map_concat(lo, de);
    lemma_strip_map_concat(lo + de, at);
    lemma_strip_map_concat(lo + de + at, rr);
    lemma_strip_map_concat(lo + de + at + rr, re);
    let f = |l: Seq<char>| strip_cr(l);
    lemma_ical_more_concat(s, lo.map_values(f), de.map_values(f));
    lemma_ical_more_concat(s, lo.map_values(f) + de.map_values(f), at.map_values(f));
    lemma_ical_more_concat(s, lo.map_values(f) + de.map_values(f) + at.map_values(f), rr.map_values(f));
    lemma_ical_more_concat(
        s,
        lo.map_values(f) + de.map_values(f) + at.map_values(f) + rr.map_values(f),
        re.map_values(f),
    );
    lemma_all_content_concat(lo, de);
    lemma_all_content_concat(lo + de, at);
    lemma_all_content_concat(lo + de + at, rr);
    lemma_all_content_concat(lo + de + at + rr, re);
}

/// An event whose written VCALENDAR reads back: its text values keep their
/// ends, its date-time lines stay on one line each, and its reminders read
/// back.
pub open spec fn event_readable(e: EventModel) -> bool {
    &&& text_end_ok(e.id)
    &&& text_end_ok(e.title)
    &&& single_line(datetime_property("DTSTART"@, e.start))
    &&& single_line(datetime_property("DTEND"@, e.end))
    &&& (e.location matches Some(x) ==> text_end_ok(x))
    &&& (e.description matches Some(x) ==> text_end_ok(x))
    &&& reminders_ok(e.reminders)
}

/// The lines the reader sees in a written VCALENDAR.
proof fn lemma_read_event_lines(e: EventModel, stamp: Seq<char>)
    requires
        event_readable(e),
        single_line(stamp),
    ensures
        ical_lines(event_ical(e, stamp)) == (calendar_header() + event_head(e, stamp) + event_body(e)
            + seq!["END:VEVENT"@]).map_values(|l: Seq<char>| strip_cr(l)).push("END:VCALENDAR"@),
{
    reveal_strlit("END:VEVENT");
    reveal_strlit("END:VCALENDAR");
    let l = event_lines(e, stamp);
    let x = calendar_header() + event_head(e, stamp) + event_body(e) + seq!["END:VEVENT"@];
    assert(l =~= x.push("END:VCALENDAR"@));
    assert(l.drop_last() =~= x);
    lemma_read_calendar_header();
    let s1 = IcalScan { in_event: true, ..ical_start() };
    lemma_read_event_head(s1, e, stamp);
    lemma_read_event_body(s1, e);
    lemma_all_content_concat(calendar_header(), event_head(e, stamp));
    lemma_all_content_concat(calendar_header() + event_head(e, stamp), event_body(e));
    lemma_literal_single_line("END:VEVENT"@);
    lemma_literal_single_line("END:VCALENDAR"@);
    let tail = seq!["END:VEVENT"@, "END:VCALENDAR"@];
    assert(all_content(tail)) by {
        assert forall|i: int| 0 <= i < tail.len() implies content_line(#[trigger] tail[i]) by {}
    }
    lemma_all_content_concat(calendar_header() + event_head(e, stamp) + event_body(e), tail);
    assert(l =~= calendar_header() + event_head(e, stamp) + event_body(e) + tail);
    lemma_lines_of_folded(l);
}

/// Reading back a written event: the VCALENDAR that `serialize_ical_event`
/// writes for an event is read by `parse_ical_event` (it always can be) with
/// the same UID and summary, the same location and description (an empty one
/// is not written), the same reminders (their distance before the event, and
/// their action, DISPLAY when none was given), and with the start, end,
/// attendees and rule that its own DTSTART, DTEND, ATTENDEE and RRULE lines
/// describe. The event is found when its UID, summary, start and end are not
/// empty.
pub proof fn lemma_event_round_trip(
    e: EventModel,
    stamp: Seq<char>,
    href: Option<Seq<char>>,
    etag: Option<Seq<char>>,
    calendar_id: Seq<char>,
    calendar_name: Option<Seq<char>>,
)
    requires
        event_readable(e),
        single_line(stamp),
    ensures
        ical_readable(event_ical(e, stamp)),
        event_of(event_ical(e, stamp), href, etag, calendar_id, calendar_name) == (if e.id.len() > 0
            && e.title.len() > 0 && read_datetime("DTSTART"@, e.start).value.len() > 0 && read_datetime(
            "DTEND"@,
            e.end,
        ).value.len() > 0 {
            Some(
                EventModel {
                    id: e.id,
                    calendar_id,
                    calendar_name,
                    href,
                    etag,
                    title: e.title,
                    start: read_datetime("DTSTART"@, e.start),
                    end: read_datetime("DTEND"@, e.end),
                    location: read_text(e.location),
                    description: read_text(e.description),
                    attendees: read_attendees(e.attendees),
                    recurrence: read_recurrence(e.recurrence),
                    reminders: e.reminders.map_values(|r: ReminderModel| read_reminder(r)),
                },
            )
        } else {
            None
        }),
{
    reveal_strlit("END:VEVENT");
    reveal_strlit("END:VCALENDAR");
    reveal_strlit("BEGIN:VEVENT");
    let text = event_ical(e, stamp);
    let ls = ical_lines(text);
    lemma_read_event_lines(e, stamp);
    let f = |l: Seq<char>| strip_cr(l);
    let h = calendar_header();
    let eh = event_head(e, stamp);
    let b = event_body(e);
    let end = seq!["END:VEVENT"@];
    lemma_strip_map_concat(h, eh);
    lemma_strip_map_concat(h + eh, b);
    lemma_strip_map_concat(h + eh + b, end);
    assert(end.map_values(f) =~= end);
    let s0 = ical_start();
    lemma_read_calendar_header();
    let s1 = IcalScan { in_event: true, ..s0 };
    lemma_read_event_head(s1, e, stamp);
    let s2 = IcalScan {
        id: e.id,
        title: e.title,
        start: read_datetime("DTSTART"@, e.start),
        end: read_datetime("DTEND"@, e.end),
        ..s1
    };
    lemma_read_event_body(s2, e);
    let s3 = IcalScan {
        location: read_text(e.location),
        description: read_text(e.description),
        attendees: s2.attendees + read_attendees(e.attendees),
        recurrence: read_recurrence(e.recurrence),
        alarm: last_alarm(s2.alarm, e.reminders),
        reminders: s2.reminders + e.reminders.map_values(|r: ReminderModel| read_reminder(r)),
        ..s2
    };
    lemma_ical_more_concat(s0, h.map_values(f), eh.map_values(f));
    lemma_ical_more_concat(s0, h.map_values(f) + eh.map_values(f), b.map_values(f));
    lemma_ical_more_concat(s0, h.map_values(f) + eh.map_values(f) + b.map_values(f), end);
    lemma_ical_more_one(s3, "END:VEVENT"@);
    lemma_trim_plain("END:VEVENT"@);
    lemma_trim_plain("END:VCALENDAR"@);
    let s4 = IcalScan { done: true, ..s3 };
    assert(ical_more(s0, h.map_values(f)) == s1);
    assert(ical_more(s0, h.map_values(f) + eh.map_values(f)) == s2);
    assert(ical_more(s0, h.map_values(f) + eh.map_values(f) + b.map_values(f)) == s3);
    assert(ical_step(s3, "END:VEVENT"@) == s4);
    let body = h.map_values(f) + eh.map_values(f) + b.map_values(f) + end;
    assert(ical_more(s0, body) == s4);
    assert(ical_step(s4, "END:VCALENDAR"@) == s4);
    assert(ls == body.push("END:VCALENDAR"@));
    lemma_ical_more_push(s0, body, "END:VCALENDAR"@);
    lemma_ical_scan_more(ls);
    assert(ical_scan(ls) == s4);
    lemma_block_scan(ls);
    assert(s2.attendees + read_attendees(e.attendees) =~= read_attendees(e.attendees));
    assert(s2.reminders + e.reminders.map_values(|r: ReminderModel| read_reminder(r)) =~= e.reminders.map_values(
        |r: ReminderModel| read_reminder(r),
    ));
}

/// An event that reads back exactly as it was written: UID and summary not
/// empty, canonical start and end, a location and description that are
/// absent or not empty, no attendees, no rule, and reminders at zero or more
/// minutes before the event with an action; its texts keep their ends and
/// its reminders read back.
pub open spec fn exact_event(e: EventModel) -> bool {
    &&& e.id.len() > 0
    &&& text_end_ok(e.id)
    &&& e.title.len() > 0
    &&& text_end_ok(e.title)
    &&& canonical_datetime(e.start)
    &&& canonical_datetime(e.end)
    &&& (e.location matches Some(x) ==> x.len() > 0 && text_end_ok(x))
    &&& (e.description matches Some(x) ==> x.len() > 0 && text_end_ok(x))
    &&& e.attendees.len() == 0
    &&& e.recurrence is None
    &&& reminders_ok(e.reminders)
    &&& forall|i: int| 0 <= i < e.reminders.len() ==> #[trigger] e.reminders[i].minutes_before >= 0
        && e.reminders[i].action is Some
}

/// An exact event is read back unchanged from what is written for it, given
/// what chrono does with the texts of its start and end.
pub(crate) proof fn lemma_exact_event_round_trip(
    e: EventModel,
    stamp: Seq<char>,
)
    requires
        exact_event(e),
        chrono_round_trips(e.start),
        chrono_round_trips(e.end),
        single_line(stamp),
    ensures
        ical_readable(event_ical(e, stamp)),
        event_of(event_ical(e, stamp), e.href, e.etag, e.calendar_id, e.calendar_name) == Some(e),
{
    reveal_strlit("DTSTART");
    reveal_strlit("DTEND");
    lemma_read_canonical_datetime("DTSTART"@, e.start);
    lemma_read_canonical_datetime("DTEND"@, e.end);
    assert(event_readable(e));
    lemma_event_round_trip(e, stamp, e.href, e.etag, e.calendar_id, e.calendar_name);
    lemma_canonical_trim(e.start);
    lemma_canonical_trim(e.end);
    assert(read_text(e.location) == e.location);
    assert(read_text(e.description) == e.description);
    assert(read_attendees(e.attendees) =~= e.attendees);
    assert(e.reminders.map_values(|r: ReminderModel| read_reminder(r)) =~= e.reminders) by {
        assert forall|i: int| 0 <= i < e.reminders.len() implies #[trigger] read_reminder(e.reminders[i])
            == e.reminders[i] by {
            let r = e.reminders[i];
            assert(r.minutes_before >= 0 && r.action is Some);
        }
    }
}

} // verus!
