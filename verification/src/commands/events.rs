//! New events from user input, and partial updates of stored ones.
use vstd::prelude::*;
use crate::carddav::{clone_opt, opt_view};
use crate::caldav::{
    CalendarEvent, DateTimeModel, EventAttendee, EventDateTime, EventModel, EventRecurrence,
    EventReminder, attendees_view, clone_attendees, clone_datetime, clone_opt_recurrence,
    clone_reminders, recurrence_view, reminders_view,
};
use crate::caldav::ical::{
    chrono_date_reformat, chrono_datetime_reformat, chrono_rfc3339_utc, reformat_date,
    reformat_datetime, reformat_rfc3339_utc,
};
use crate::caldav::clock::{
    current_week_range, default_today_range, parse_range_end, parse_range_start, range_bound_read,
    week_range_spec, today_range_spec, offsets_ok, LocalOffsets,
};
use crate::caldav::recurrence::CHRONO_MAX_SECS;
use crate::commands::{new_uuid_string, uuid_text};
use crate::error::Error;
use crate::text::{extend_str, string_of};

verus! {

/// Fields of an event to create; times as the user wrote them.
#[derive(Debug, Clone)]
pub struct EventInput {
    pub calendar_id: Option<String>,
    pub title: String,
    pub start: String,
    pub end: String,
    pub timezone: Option<String>,
    pub location: Option<String>,
    pub description: Option<String>,
    pub attendees: Vec<EventAttendee>,
    pub recurrence: Option<EventRecurrence>,
    pub reminders: Vec<EventReminder>,
}

/// Fields of an event to replace; `None` keeps the stored value.
#[derive(Debug, Clone)]
pub struct EventPatch {
    pub title: Option<String>,
    pub start: Option<String>,
    pub end: Option<String>,
    pub timezone: Option<String>,
    pub location: Option<String>,
    pub description: Option<String>,
    pub attendees: Option<Vec<EventAttendee>>,
    pub recurrence: Option<EventRecurrence>,
    pub clear_recurrence: bool,
    pub reminders: Option<Vec<EventReminder>>,
    pub clear_reminders: bool,
}

impl Default for EventInput {
    fn default() -> (r: Self)
        ensures
            r.calendar_id is None,
            r.title@ == Seq::<char>::empty(),
            r.start@ == Seq::<char>::empty(),
            r.end@ == Seq::<char>::empty(),
            r.timezone is None,
            r.location is None,
            r.description is None,
            r.attendees@.len() == 0,
            r.recurrence is None,
            r.reminders@.len() == 0,
    {
        EventInput {
            calendar_id: None,
            title: String::new(),
            start: String::new(),
            end: String::new(),
            timezone: None,
            location: None,
            description: None,
            attendees: Vec::new(),
            recurrence: None,
            reminders: Vec::new(),
        }
    }
}

impl Default for EventPatch {
    fn default() -> (r: Self)
        ensures
            r.title is None,
            r.start is None,
            r.end is None,
            r.timezone is None,
            r.location is None,
            r.description is None,
            r.attendees is None,
            r.recurrence is None,
            !r.clear_recurrence,
            r.reminders is None,
            !r.clear_reminders,
    {
        EventPatch {
            title: None,
            start: None,
            end: None,
            timezone: None,
            location: None,
            description: None,
            attendees: None,
            recurrence: None,
            clear_recurrence: false,
            reminders: None,
            clear_reminders: false,
        }
    }
}

/// The date-time a user-supplied value stands for: a date (`YYYY-MM-DD`) is
/// all-day and kept as written; an RFC 3339 value becomes a UTC instant; a
/// local `YYYY-MM-DDTHH:MM[:SS]` keeps the time zone. `None` for anything else.
pub open spec fn normalized_datetime(value: Seq<char>, tz: Option<Seq<char>>) -> Option<DateTimeModel> {
    let utc = chrono_rfc3339_utc(value, "%Y-%m-%dT%H:%M:%SZ"@);
    let short = chrono_datetime_reformat(value, "%Y-%m-%dT%H:%M"@, "%Y-%m-%dT%H:%M:%S"@);
    let long = chrono_datetime_reformat(value, "%Y-%m-%dT%H:%M:%S"@, "%Y-%m-%dT%H:%M:%S"@);
    if chrono_date_reformat(value, "%Y-%m-%d"@, "%Y-%m-%d"@) is Some {
        Some(DateTimeModel { value, timezone: None, all_day: true })
    } else if utc is Some {
        Some(DateTimeModel { value: utc->0, timezone: None, all_day: false })
    } else if short is Some {
        Some(DateTimeModel { value: short->0, timezone: tz, all_day: false })
    } else if long is Some {
        Some(DateTimeModel { value: long->0, timezone: tz, all_day: false })
    } else {
        None
    }
}

/// The message for a date-time that cannot be read.
pub open spec fn datetime_error(value: Seq<char>) -> Seq<char> {
    "Invalid event date/time '"@ + value + "'. Use YYYY-MM-DD, YYYY-MM-DDTHH:MM[:SS], or RFC3339."@
}

/// What a result says, for the configuration errors these functions report.
pub open spec fn config_outcome<T, V>(r: Result<T, Error>, view: spec_fn(T) -> V) -> Option<Result<V, Seq<char>>> {
    match r {
        Ok(x) => Some(Ok(view(x))),
        Err(Error::Config(m)) => Some(Err(m@)),
        Err(_) => None,
    }
}

/// The date-time as a result: the message of `datetime_error` when it cannot be read.
pub open spec fn datetime_outcome(value: Seq<char>, tz: Option<Seq<char>>) -> Result<DateTimeModel, Seq<char>> {
    match normalized_datetime(value, tz) {
        Some(d) => Ok(d),
        None => Err(datetime_error(value)),
    }
}

fn datetime_error_of(value: &str) -> (r: Error)
    ensures
        r matches Error::Config(m) && m@ == datetime_error(value@),
{
    let mut v: Vec<char> = Vec::new();
    extend_str(&mut v, "Invalid event date/time '");
    extend_str(&mut v, value);
    extend_str(&mut v, "'. Use YYYY-MM-DD, YYYY-MM-DDTHH:MM[:SS], or RFC3339.");
    Error::Config(string_of(&v))
}

/// Read a user-supplied start or end time.
pub fn normalize_event_datetime(value: &str, timezone: Option<String>) -> (r: Result<EventDateTime, Error>)
    ensures
        config_outcome(r, |d: EventDateTime| d@) == Some(datetime_outcome(value@, opt_view(timezone))),
{
    proof {
        reveal_strlit("%Y-%m-%d");
        reveal_strlit("%Y-%m-%dT%H:%M:%SZ");
        reveal_strlit("%Y-%m-%dT%H:%M");
        reveal_strlit("%Y-%m-%dT%H:%M:%S");
    }
    if reformat_date(value, "%Y-%m-%d", "%Y-%m-%d").is_some() {
        return Ok(EventDateTime { value: value.to_string(), timezone: None, all_day: true });
    }
    match reformat_rfc3339_utc(value, "%Y-%m-%dT%H:%M:%SZ") {
        Some(v) => {
            return Ok(EventDateTime { value: v, timezone: None, all_day: false });
        },
        None => {},
    }
    match reformat_datetime(value, "%Y-%m-%dT%H:%M", "%Y-%m-%dT%H:%M:%S") {
        Some(v) => {
            return Ok(EventDateTime { value: v, timezone, all_day: false });
        },
        None => {},
    }
    match reformat_datetime(value, "%Y-%m-%dT%H:%M:%S", "%Y-%m-%dT%H:%M:%S") {
        Some(v) => {
            return Ok(EventDateTime { value: v, timezone, all_day: false });
        },
        None => {},
    }
    Err(datetime_error_of(value))
}

/// An optional value, dropped when empty.
pub open spec fn non_empty(o: Option<Seq<char>>) -> Option<Seq<char>> {
    match o {
        Some(v) => if v.len() > 0 {
            Some(v)
        } else {
            None
        },
        None => None,
    }
}

fn non_empty_string(o: Option<String>) -> (r: Option<String>)
    ensures
        opt_view(r) == non_empty(opt_view(o)),
{
    match o {
        Some(v) => if v.as_str().is_empty() {
            None
        } else {
            Some(v)
        },
        None => None,
    }
}

/// The event created from `input` under the id `id`, its times already read.
pub open spec fn event_from_input(input: EventInput, id: Seq<char>, start: DateTimeModel, end: DateTimeModel) -> EventModel {
    EventModel {
        id,
        calendar_id: match opt_view(input.calendar_id) {
            Some(c) => c,
            None => seq![],
        },
        calendar_name: None,
        href: None,
        etag: None,
        title: input.title@,
        start,
        end,
        location: non_empty(opt_view(input.location)),
        description: non_empty(opt_view(input.description)),
        attendees: attendees_view(input.attendees@),
        recurrence: recurrence_view(input.recurrence),
        reminders: reminders_view(input.reminders@),
    }
}

/// The event created from `input` under the id `id`, or the message for the
/// first of its times that cannot be read.
pub open spec fn built_event(input: EventInput, id: Seq<char>) -> Result<EventModel, Seq<char>> {
    let tz = opt_view(input.timezone);
    match (datetime_outcome(input.start@, tz), datetime_outcome(input.end@, tz)) {
        (Err(m), _) => Err(m),
        (Ok(_), Err(m)) => Err(m),
        (Ok(s), Ok(e)) => Ok(event_from_input(input, id, s, e)),
    }
}

/// The event created from `input` under a given id.
pub fn build_event_with_id(input: EventInput, id: String) -> (r: Result<CalendarEvent, Error>)
    ensures
        config_outcome(r, |e: CalendarEvent| e@) == Some(built_event(input, id@)),
{
    let ghost inp = input;
    let start = match normalize_event_datetime(input.start.as_str(), clone_opt(&input.timezone)) {
        Ok(d) => d,
        Err(e) => {
            return Err(e);
        },
    };
    let end = match normalize_event_datetime(input.end.as_str(), clone_opt(&input.timezone)) {
        Ok(d) => d,
        Err(e) => {
            return Err(e);
        },
    };
    let e = CalendarEvent {
        id,
        calendar_id: match input.calendar_id {
            Some(c) => c,
            None => String::new(),
        },
        calendar_name: None,
        href: None,
        etag: None,
        title: input.title,
        start,
        end,
        location: non_empty_string(input.location),
        description: non_empty_string(input.description),
        attendees: input.attendees,
        recurrence: input.recurrence,
        reminders: input.reminders,
    };
    Ok(e)
}

/// The event created from `input` under a fresh random UUID.
pub fn build_event(input: EventInput) -> (r: Result<CalendarEvent, Error>)
    ensures
        match r {
            Ok(e) => uuid_text(e.id@) && built_event(input, e.id@) == Ok::<EventModel, Seq<char>>(e@),
            Err(Error::Config(m)) => exists|id: Seq<char>| built_event(input, id) == Err::<EventModel, Seq<char>>(m@),
            Err(_) => false,
        },
{
    let id = new_uuid_string();
    let ghost idv = id@;
    let r = build_event_with_id(input, id);
    r
}

/// The time zone a patch leaves on the event.
pub open spec fn patch_timezone(ex: EventModel, p: EventPatch) -> Option<Seq<char>> {
    if p.timezone is Some {
        opt_view(p.timezone)
    } else {
        ex.start.timezone
    }
}

/// A stored time after a patch that does not replace it: a new time zone
/// moves a timed value to that zone; all-day values keep none.
pub open spec fn kept_time(d: DateTimeModel, p: EventPatch, tz: Option<Seq<char>>) -> DateTimeModel {
    if p.timezone is Some && !d.all_day {
        DateTimeModel { timezone: tz, ..d }
    } else {
        d
    }
}

/// A time after a patch: the supplied value read in the patch's time zone, or the stored one.
pub open spec fn patched_time(d: DateTimeModel, new: Option<String>, p: EventPatch, tz: Option<Seq<char>>) -> Result<DateTimeModel, Seq<char>> {
    match new {
        Some(v) => datetime_outcome(v@, tz),
        None => Ok(kept_time(d, p, tz)),
    }
}

/// An optional TEXT field after a patch: a supplied empty value clears it.
pub open spec fn patched_text(new: Option<Seq<char>>, old: Option<Seq<char>>) -> Option<Seq<char>> {
    match new {
        Some(v) => if v.len() > 0 {
            Some(v)
        } else {
            None
        },
        None => old,
    }
}

/// A stored event with a patch applied, or the message for the first
/// supplied time that cannot be read.
pub open spec fn patched_event(ex: EventModel, p: EventPatch) -> Result<EventModel, Seq<char>> {
    let tz = patch_timezone(ex, p);
    match (patched_time(ex.start, p.start, p, tz), patched_time(ex.end, p.end, p, tz)) {
        (Err(m), _) => Err(m),
        (Ok(_), Err(m)) => Err(m),
        (Ok(start), Ok(end)) => Ok(
            EventModel {
                title: match opt_view(p.title) {
                    Some(t) => t,
                    None => ex.title,
                },
                start,
                end,
                location: patched_text(opt_view(p.location), ex.location),
                description: patched_text(opt_view(p.description), ex.description),
                attendees: match p.attendees {
                    Some(a) => attendees_view(a@),
                    None => ex.attendees,
                },
                recurrence: if p.clear_recurrence {
                    None
                } else {
                    match p.recurrence {
                        Some(r) => Some(r@),
                        None => ex.recurrence,
                    }
                },
                reminders: if p.clear_reminders {
                    seq![]
                } else {
                    match p.reminders {
                        Some(r) => reminders_view(r@),
                        None => ex.reminders,
                    }
                },
                ..ex
            },
        ),
    }
}

fn patch_time(d: &EventDateTime, new: Option<String>, patch_tz: bool, tz: &Option<String>) -> (r: Result<EventDateTime, Error>)
    ensures
        config_outcome(r, |x: EventDateTime| x@) == Some(
            match new {
                Some(v) => datetime_outcome(v@, opt_view(*tz)),
                None => Ok(
                    if patch_tz && !d@.all_day {
                        DateTimeModel { timezone: opt_view(*tz), ..d@ }
                    } else {
                        d@
                    },
                ),
            },
        ),
{
    match new {
        Some(v) => normalize_event_datetime(v.as_str(), clone_opt(tz)),
        None => {
            let mut t = clone_datetime(d);
            if patch_tz && !t.all_day {
                t.timezone = clone_opt(tz);
            }
            Ok(t)
        },
    }
}

fn patched_text_of(new: Option<String>, old: &Option<String>) -> (r: Option<String>)
    ensures
        opt_view(r) == patched_text(opt_view(new), opt_view(*old)),
{
    match new {
        Some(v) => if v.as_str().is_empty() {
            None
        } else {
            Some(v)
        },
        None => clone_opt(old),
    }
}

/// Apply a patch to a stored event.
pub fn apply_event_patch(existing: &CalendarEvent, patch: EventPatch) -> (r: Result<CalendarEvent, Error>)
    ensures
        config_outcome(r, |e: CalendarEvent| e@) == Some(patched_event(existing@, patch)),
{
    let ghost p = patch;
    let patch_tz = patch.timezone.is_some();
    let timezone = if patch_tz {
        clone_opt(&patch.timezone)
    } else {
        clone_opt(&existing.start.timezone)
    };
    let start = match patch_time(&existing.start, patch.start, patch_tz, &timezone) {
        Ok(d) => d,
        Err(e) => {
            return Err(e);
        },
    };
    let end = match patch_time(&existing.end, patch.end, patch_tz, &timezone) {
        Ok(d) => d,
        Err(e) => {
            return Err(e);
        },
    };
    let attendees = match patch.attendees {
        Some(a) => a,
        None => clone_attendees(&existing.attendees),
    };
    let recurrence = if patch.clear_recurrence {
        None
    } else {
        match patch.recurrence {
            Some(r) => Some(r),
            None => clone_opt_recurrence(&existing.recurrence),
        }
    };
    let reminders = if patch.clear_reminders {
        let v: Vec<EventReminder> = Vec::new();
        assert(reminders_view(v@) =~= Seq::<crate::caldav::ReminderModel>::empty());
        v
    } else {
        match patch.reminders {
            Some(r) => r,
            None => clone_reminders(&existing.reminders),
        }
    };
    Ok(
        CalendarEvent {
            id: existing.id.clone(),
            calendar_id: existing.calendar_id.clone(),
            calendar_name: clone_opt(&existing.calendar_name),
            href: clone_opt(&existing.href),
            etag: clone_opt(&existing.etag),
            title: match patch.title {
                Some(t) => t,
                None => existing.title.clone(),
            },
            start,
            end,
            location: patched_text_of(patch.location, &existing.location),
            description: patched_text_of(patch.description, &existing.description),
            attendees,
            recurrence,
            reminders,
        },
    )
}


/// The patch that changes nothing.
pub open spec fn empty_event_patch() -> EventPatch {
    EventPatch {
        title: None,
        start: None,
        end: None,
        timezone: None,
        location: None,
        description: None,
        attendees: None,
        recurrence: None,
        clear_recurrence: false,
        reminders: None,
        clear_reminders: false,
    }
}

/// An empty patch leaves an event as it is.
pub proof fn lemma_empty_event_patch(ex: EventModel)
    ensures
        patched_event(ex, empty_event_patch()) == Ok::<EventModel, Seq<char>>(ex),
{
}

/// A patch that supplies no new times always succeeds and keeps the stored
/// times' values and all-day flags; only a new time zone moves timed values.
pub proof fn lemma_patch_without_times_keeps_times(ex: EventModel, p: EventPatch)
    requires
        p.start is None,
        p.end is None,
    ensures
        patched_event(ex, p) is Ok,
        patched_event(ex, p)->Ok_0.start.value == ex.start.value,
        patched_event(ex, p)->Ok_0.end.value == ex.end.value,
        patched_event(ex, p)->Ok_0.start.all_day == ex.start.all_day,
        patched_event(ex, p)->Ok_0.end.all_day == ex.end.all_day,
        p.timezone is None ==> patched_event(ex, p)->Ok_0.start == ex.start
            && patched_event(ex, p)->Ok_0.end == ex.end,
{
}
/// What a patch does to each field of an event: a supplied title, attendee
/// list, rule or reminder list replaces the stored one (clearing the rule or
/// the reminders wins over a new one); a supplied location or description
/// replaces the stored one, or removes it when the supplied text is empty;
/// a supplied start or end is read in the patch's time zone (or the stored
/// one), and the patch fails exactly when one of them cannot be read; every
/// field it leaves out, and the id, calendar, href and ETag, stay as stored.
pub proof fn lemma_event_patch_fields(ex: EventModel, p: EventPatch)
    ensures
        ({
            let tz = if p.timezone is Some {
                opt_view(p.timezone)
            } else {
                ex.start.timezone
            };
            let start_ok = match p.start {
                Some(v) => datetime_outcome(v@, tz) is Ok,
                None => true,
            };
            let end_ok = match p.end {
                Some(v) => datetime_outcome(v@, tz) is Ok,
                None => true,
            };
            &&& (patched_event(ex, p) is Ok <==> start_ok && end_ok)
            &&& patched_event(ex, p) matches Ok(e) ==> {
                &&& e.id == ex.id && e.calendar_id == ex.calendar_id && e.calendar_name == ex.calendar_name
                &&& e.href == ex.href && e.etag == ex.etag
                &&& match p.title {
                    Some(t) => e.title == t@,
                    None => e.title == ex.title,
                }
                &&& match p.location {
                    Some(v) => e.location == if v@.len() > 0 { Some(v@) } else { None },
                    None => e.location == ex.location,
                }
                &&& match p.description {
                    Some(v) => e.description == if v@.len() > 0 { Some(v@) } else { None },
                    None => e.description == ex.description,
                }
                &&& match p.attendees {
                    Some(a) => e.attendees == attendees_view(a@),
                    None => e.attendees == ex.attendees,
                }
                &&& e.recurrence == if p.clear_recurrence {
                    None
                } else {
                    match p.recurrence {
                        Some(r) => Some(r@),
                        None => ex.recurrence,
                    }
                }
                &&& e.reminders == if p.clear_reminders {
                    Seq::empty()
                } else {
                    match p.reminders {
                        Some(r) => reminders_view(r@),
                        None => ex.reminders,
                    }
                }
                &&& match p.start {
                    Some(v) => Ok::<DateTimeModel, Seq<char>>(e.start) == datetime_outcome(v@, tz),
                    None => e.start.value == ex.start.value && e.start.all_day == ex.start.all_day,
                }
                &&& match p.end {
                    Some(v) => Ok::<DateTimeModel, Seq<char>>(e.end) == datetime_outcome(v@, tz),
                    None => e.end.value == ex.end.value && e.end.all_day == ex.end.all_day,
                }
            }
        }),
{
}

/// What a new event holds: the title, location and description of its
/// input (an empty location or description is left out), its attendees,
/// rule and reminders, its calendar (none when not given), the id it was
/// created under, and its start and end read in the input's time zone; it
/// is built exactly when both times can be read.
pub proof fn lemma_built_event_fields(input: EventInput, id: Seq<char>)
    ensures
        ({
            let tz = opt_view(input.timezone);
            &&& (built_event(input, id) is Ok <==> datetime_outcome(input.start@, tz) is Ok && datetime_outcome(
                input.end@,
                tz,
            ) is Ok)
            &&& built_event(input, id) matches Ok(e) ==> {
                &&& e.id == id && e.title == input.title@
                &&& e.href is None && e.etag is None && e.calendar_name is None
                &&& match input.calendar_id {
                    Some(c) => e.calendar_id == c@,
                    None => e.calendar_id.len() == 0,
                }
                &&& match input.location {
                    Some(v) => e.location == if v@.len() > 0 { Some(v@) } else { None },
                    None => e.location is None,
                }
                &&& match input.description {
                    Some(v) => e.description == if v@.len() > 0 { Some(v@) } else { None },
                    None => e.description is None,
                }
                &&& e.attendees == attendees_view(input.attendees@)
                &&& e.recurrence == match input.recurrence {
                    Some(r) => Some(r@),
                    None => None::<crate::caldav::RecurrenceModel>,
                }
                &&& e.reminders == reminders_view(input.reminders@)
                &&& Ok::<DateTimeModel, Seq<char>>(e.start) == datetime_outcome(input.start@, tz)
                &&& Ok::<DateTimeModel, Seq<char>>(e.end) == datetime_outcome(input.end@, tz)
            }
        }),
{
}

// ===================== Listing range =====================

/// Two range bounds read, the first error if either failed.
pub open spec fn both_bounds(a: Result<i128, Error>, b: Result<i128, Error>) -> Result<(Option<i128>, Option<i128>), Error> {
    match a {
        Err(e) => Err(e),
        Ok(x) => match b {
            Err(e) => Err(e),
            Ok(y) => Ok((Some(x), Some(y))),
        },
    }
}

/// The message when only one bound of a range is given.
pub open spec fn half_range_message() -> Seq<char> {
    "Explicit event ranges require both start and end."@
}

/// The message when the clock reads a date at the end of chrono's range.
pub open spec fn clock_range_message() -> Seq<char> {
    "The current date is outside the supported range."@
}

/// The listing range `r` for the range `spec` of the clock's readings: both
/// bounds, or the clock error where the readings lie at chrono's end.
pub open spec fn clock_range_result(r: Result<(Option<i128>, Option<i128>), Error>, spec: Option<(int, int)>) -> bool {
    match spec {
        Some(p) => r matches Ok(x) && x.0 matches Some(a) && x.1 matches Some(b) && a == p.0 && b == p.1,
        None => r matches Err(Error::Config(m)) && m@ == clock_range_message(),
    }
}

/// The range to list events in: this week (`week`), both bounds as given,
/// or from now to the end of today when neither is given.
pub fn resolve_event_list_range(start: Option<&str>, end: Option<&str>, week: bool) -> (r: Result<
    (Option<i128>, Option<i128>),
    Error,
>)
    ensures
        (week || (start is None && end is None)) ==> match r {
            Ok(p) => p.0 is Some && p.1 is Some,
            Err(e) => e matches Error::Config(m) && m@ == clock_range_message(),
        },
        !week && start is Some && end is Some ==> exists|a: Result<i128, Error>, b: Result<i128, Error>|
            range_bound_read(start->0@, a) && range_bound_read(end->0@, b) && r == both_bounds(a, b),
        !week && (start is Some) != (end is Some) ==> (r matches Err(Error::Config(m)) && m@ == half_range_message()),
        week ==> exists|now_secs: int, offset: int, first: LocalOffsets, second: LocalOffsets|
            #![trigger week_range_spec(now_secs, offset, first, second)]
            0 <= now_secs <= CHRONO_MAX_SECS && -86_400 < offset < 86_400 && offsets_ok(first) && offsets_ok(second)
                && clock_range_result(r, week_range_spec(now_secs, offset, first, second)),
        week ==> (r matches Ok(x) ==> x.0->0 < x.1->0),
        !week && start is None && end is None ==> exists|now: (int, int), offset: int, next: LocalOffsets|
            #![trigger today_range_spec(now, offset, next)]
            0 <= now.0 <= CHRONO_MAX_SECS && 0 <= now.1 < 1_000_000_000 && -86_400 < offset < 86_400
                && offsets_ok(next) && clock_range_result(r, today_range_spec(now, offset, next)),
{
    if week {
        return match current_week_range() {
            Some((a, b)) => Ok((Some(a), Some(b))),
            None => Err(Error::Config("The current date is outside the supported range.".to_string())),
        };
    }
    match (start, end) {
        (Some(s), Some(e)) => {
            let a = parse_range_start(s);
            let b = parse_range_end(e);
            let r = match a {
                Err(err) => Err(err),
                Ok(x) => match b {
                    Err(err) => Err(err),
                    Ok(y) => Ok((Some(x), Some(y))),
                },
            };
            assert(range_bound_read(s@, a) && range_bound_read(e@, b) && r == both_bounds(a, b));
            r
        },
        (None, None) => match default_today_range() {
            Some((a, b)) => Ok((Some(a), Some(b))),
            None => Err(Error::Config("The current date is outside the supported range.".to_string())),
        },
        _ => Err(Error::Config("Explicit event ranges require both start and end.".to_string())),
    }
}

// ===================== Command-line fields =====================

/// The recurrence rule the `--recurrence-*` options describe: none without a
/// frequency.
pub fn recurrence_from_options(
    frequency: Option<String>,
    interval: Option<u32>,
    count: Option<u32>,
    until: Option<String>,
    by_day: Vec<String>,
) -> (r: Option<EventRecurrence>)
    ensures
        match frequency {
            Some(f) => r matches Some(x) && x.frequency@ == f@ && x.interval == interval && x.count == count
                && opt_view(x.until) == opt_view(until) && x.by_day@ == by_day@,
            None => r is None,
        },
{
    match frequency {
        Some(f) => Some(EventRecurrence { frequency: f, interval, count, until, by_day }),
        None => None,
    }
}

/// A display reminder for each number of minutes, in order.
pub fn reminders_from_minutes(minutes: Vec<i32>) -> (r: Vec<EventReminder>)
    ensures
        r@.len() == minutes@.len(),
        forall|i: int|
            0 <= i < r@.len() ==> (#[trigger] r@[i]).minutes_before == minutes@[i] && opt_view(r@[i].action)
                == Some("DISPLAY"@),
{
    let mut r: Vec<EventReminder> = Vec::new();
    for i in 0..minutes.len()
        invariant
            r@.len() == i,
            forall|j: int|
                0 <= j < i ==> (#[trigger] r@[j]).minutes_before == minutes@[j] && opt_view(r@[j].action)
                    == Some("DISPLAY"@),
    {
        r.push(EventReminder { minutes_before: minutes[i], action: Some("DISPLAY".to_string()) });
    }
    r
}

/// An attendee with only an address for each e-mail, in order.
pub fn attendees_from_emails(emails: Vec<String>) -> (r: Vec<EventAttendee>)
    ensures
        r@.len() == emails@.len(),
        forall|i: int|
            0 <= i < r@.len() ==> (#[trigger] r@[i]).email@ == emails@[i]@ && r@[i].name is None && r@[i].role
                is None && r@[i].partstat is None && r@[i].rsvp is None,
{
    let mut r: Vec<EventAttendee> = Vec::new();
    for i in 0..emails.len()
        invariant
            r@.len() == i,
            forall|j: int|
                0 <= j < i ==> (#[trigger] r@[j]).email@ == emails@[j]@ && r@[j].name is None && r@[j].role
                    is None && r@[j].partstat is None && r@[j].rsvp is None,
    {
        r.push(EventAttendee { email: emails[i].clone(), name: None, role: None, partstat: None, rsvp: None });
    }
    r
}

/// The attendees an update sets: none when clearing, the given ones when
/// there are any, else the stored ones are kept (`None`).
pub fn patch_attendees(emails: Vec<String>, clear: bool) -> (r: Option<Vec<EventAttendee>>)
    ensures
        clear ==> (r matches Some(v) && v@.len() == 0),
        !clear && emails@.len() == 0 ==> r is None,
        !clear && emails@.len() > 0 ==> (r matches Some(v) && v@.len() == emails@.len() && forall|i: int|
            0 <= i < v@.len() ==> (#[trigger] v@[i]).email@ == emails@[i]@),
{
    if clear {
        Some(Vec::new())
    } else if emails.len() == 0 {
        None
    } else {
        Some(attendees_from_emails(emails))
    }
}

/// The reminders an update sets: the given ones when there are any, else
/// the stored ones are kept (`None`).
pub fn patch_reminders(minutes: Vec<i32>) -> (r: Option<Vec<EventReminder>>)
    ensures
        minutes@.len() == 0 ==> r is None,
        minutes@.len() > 0 ==> (r matches Some(v) && v@.len() == minutes@.len() && forall|i: int|
            0 <= i < v@.len() ==> (#[trigger] v@[i]).minutes_before == minutes@[i]),
{
    if minutes.len() == 0 {
        None
    } else {
        Some(reminders_from_minutes(minutes))
    }
}

} // verus!
