//! CalDAV calendars and events: the data model, the iCalendar codec and the
//! WebDAV request bodies and response readers.
//!
//! The HTTP transport lives in the application; this module holds everything
//! it computes.
use vstd::prelude::*;
use crate::carddav::{clone_opt, opt_view};

pub mod ical;
pub mod dav;
pub mod responses;
pub mod recurrence;
pub mod clock;
pub mod lookup;
pub mod writes;
pub mod readback;

pub use ical::{
    escape_ical_value, extract_ical_value, fold_ical_line, is_valid_byday, is_valid_freq,
    is_valid_rrule_until, parse_attendee, parse_event_datetime, parse_ical_event, parse_rrule,
    parse_trigger_minutes, sanitize_partstat, sanitize_role, serialize_attendee,
    serialize_datetime_property, serialize_ical_event, serialize_ical_event_at, serialize_rrule,
    serialize_trigger_minutes, unescape_ical_value, unfold_ical, weekday_code_to_index,
};
pub use clock::{
    current_week_range, default_today_range, event_datetime_to_utc, parse_range_end,
    parse_range_start, parse_until_utc, shift_event_datetime,
};
pub use recurrence::{
    add_months_preserving_local, event_overlaps_range, expand_event_for_range,
    expand_from_instants, expand_recurring_event, recurrence_starts,
};
pub use dav::{
    build_event_href, build_uid_report_body, collect_partial_events, extract_location_path,
    map_calendar_write_error, map_event_write_error, mkcalendar_body, proppatch_calendar_body,
    resource_id_from_href, should_retry_calendar_delete_without_etag, slugify, xml_escape,
    xml_escape_uid,
};

verus! {

/// A calendar collection.
#[derive(Debug, Clone, PartialEq, Eq)]
pub struct Calendar {
    pub id: String,
    pub name: String,
    pub color: Option<String>,
    pub description: Option<String>,
    pub href: String,
    pub etag: Option<String>,
    pub ctag: Option<String>,
    pub is_default: bool,
}

/// A start or end time: an all-day date (`YYYY-MM-DD`), a UTC instant
/// (`YYYY-MM-DDTHH:MM:SSZ`) or a floating / zoned local time.
#[derive(Debug, Clone, PartialEq, Eq)]
pub struct EventDateTime {
    pub value: String,
    pub timezone: Option<String>,
    pub all_day: bool,
}

#[derive(Debug, Clone, PartialEq, Eq)]
pub struct EventAttendee {
    pub email: String,
    pub name: Option<String>,
    pub role: Option<String>,
    pub partstat: Option<String>,
    pub rsvp: Option<bool>,
}

#[derive(Debug, Clone, PartialEq, Eq)]
pub struct EventRecurrence {
    pub frequency: String,
    pub interval: Option<u32>,
    pub count: Option<u32>,
    pub until: Option<String>,
    pub by_day: Vec<String>,
}

#[derive(Debug, Clone, PartialEq, Eq)]
pub struct EventReminder {
    pub minutes_before: i32,
    pub action: Option<String>,
}

#[derive(Debug, Clone, PartialEq, Eq)]
pub struct CalendarEvent {
    pub id: String,
    pub calendar_id: String,
    pub calendar_name: Option<String>,
    pub href: Option<String>,
    pub etag: Option<String>,
    pub title: String,
    pub start: EventDateTime,
    pub end: EventDateTime,
    pub location: Option<String>,
    pub description: Option<String>,
    pub attendees: Vec<EventAttendee>,
    pub recurrence: Option<EventRecurrence>,
    pub reminders: Vec<EventReminder>,
}

// ===================== Models =====================

pub struct CalendarModel {
    pub id: Seq<char>,
    pub name: Seq<char>,
    pub color: Option<Seq<char>>,
    pub description: Option<Seq<char>>,
    pub href: Seq<char>,
    pub etag: Option<Seq<char>>,
    pub ctag: Option<Seq<char>>,
    pub is_default: bool,
}

pub struct DateTimeModel {
    pub value: Seq<char>,
    pub timezone: Option<Seq<char>>,
    pub all_day: bool,
}

pub struct AttendeeModel {
    pub email: Seq<char>,
    pub name: Option<Seq<char>>,
    pub role: Option<Seq<char>>,
    pub partstat: Option<Seq<char>>,
    pub rsvp: Option<bool>,
}

pub struct RecurrenceModel {
    pub frequency: Seq<char>,
    pub interval: Option<u32>,
    pub count: Option<u32>,
    pub until: Option<Seq<char>>,
    pub by_day: Seq<Seq<char>>,
}

pub struct ReminderModel {
    pub minutes_before: int,
    pub action: Option<Seq<char>>,
}

pub struct EventModel {
    pub id: Seq<char>,
    pub calendar_id: Seq<char>,
    pub calendar_name: Option<Seq<char>>,
    pub href: Option<Seq<char>>,
    pub etag: Option<Seq<char>>,
    pub title: Seq<char>,
    pub start: DateTimeModel,
    pub end: DateTimeModel,
    pub location: Option<Seq<char>>,
    pub description: Option<Seq<char>>,
    pub attendees: Seq<AttendeeModel>,
    pub recurrence: Option<RecurrenceModel>,
    pub reminders: Seq<ReminderModel>,
}

/// The characters of each string.
pub open spec fn strings_view(v: Seq<String>) -> Seq<Seq<char>> {
    v.map_values(|s: String| s@)
}

impl View for Calendar {
    type V = CalendarModel;

    open spec fn view(&self) -> CalendarModel {
        CalendarModel {
            id: self.id@,
            name: self.name@,
            color: opt_view(self.color),
            description: opt_view(self.description),
            href: self.href@,
            etag: opt_view(self.etag),
            ctag: opt_view(self.ctag),
            is_default: self.is_default,
        }
    }
}

impl View for EventDateTime {
    type V = DateTimeModel;

    open spec fn view(&self) -> DateTimeModel {
        DateTimeModel { value: self.value@, timezone: opt_view(self.timezone), all_day: self.all_day }
    }
}

impl View for EventAttendee {
    type V = AttendeeModel;

    open spec fn view(&self) -> AttendeeModel {
        AttendeeModel {
            email: self.email@,
            name: opt_view(self.name),
            role: opt_view(self.role),
            partstat: opt_view(self.partstat),
            rsvp: self.rsvp,
        }
    }
}

impl View for EventRecurrence {
    type V = RecurrenceModel;

    open spec fn view(&self) -> RecurrenceModel {
        RecurrenceModel {
            frequency: self.frequency@,
            interval: self.interval,
            count: self.count,
            until: opt_view(self.until),
            by_day: strings_view(self.by_day@),
        }
    }
}

impl View for EventReminder {
    type V = ReminderModel;

    open spec fn view(&self) -> ReminderModel {
        ReminderModel { minutes_before: self.minutes_before as int, action: opt_view(self.action) }
    }
}

/// The model of an optional recurrence rule.
pub open spec fn recurrence_view(r: Option<EventRecurrence>) -> Option<RecurrenceModel> {
    match r {
        Some(x) => Some(x@),
        None => None,
    }
}

/// The models of a list of attendees.
pub open spec fn attendees_view(v: Seq<EventAttendee>) -> Seq<AttendeeModel> {
    v.map_values(|a: EventAttendee| a@)
}

/// The models of a list of reminders.
pub open spec fn reminders_view(v: Seq<EventReminder>) -> Seq<ReminderModel> {
    v.map_values(|r: EventReminder| r@)
}

impl View for CalendarEvent {
    type V = EventModel;

    open spec fn view(&self) -> EventModel {
        EventModel {
            id: self.id@,
            calendar_id: self.calendar_id@,
            calendar_name: opt_view(self.calendar_name),
            href: opt_view(self.href),
            etag: opt_view(self.etag),
            title: self.title@,
            start: self.start@,
            end: self.end@,
            location: opt_view(self.location),
            description: opt_view(self.description),
            attendees: attendees_view(self.attendees@),
            recurrence: recurrence_view(self.recurrence),
            reminders: reminders_view(self.reminders@),
        }
    }
}

// ===================== Defaults =====================

impl Default for EventDateTime {
    fn default() -> (r: Self)
        ensures
            r@ == (DateTimeModel { value: seq![], timezone: None, all_day: false }),
    {
        EventDateTime { value: String::new(), timezone: None, all_day: false }
    }
}

impl Default for EventAttendee {
    fn default() -> (r: Self)
        ensures
            r@ == (AttendeeModel { email: seq![], name: None, role: None, partstat: None, rsvp: None }),
    {
        EventAttendee { email: String::new(), name: None, role: None, partstat: None, rsvp: None }
    }
}

impl Default for EventRecurrence {
    fn default() -> (r: Self)
        ensures
            r@ == (RecurrenceModel {
                frequency: seq![],
                interval: None,
                count: None,
                until: None,
                by_day: seq![],
            }),
    {
        let r = EventRecurrence {
            frequency: String::new(),
            interval: None,
            count: None,
            until: None,
            by_day: Vec::new(),
        };
        assert(strings_view(r.by_day@) =~= seq![]);
        r
    }
}

impl Default for EventReminder {
    fn default() -> (r: Self)
        ensures
            r@ == (ReminderModel { minutes_before: 0, action: None }),
    {
        EventReminder { minutes_before: 0, action: None }
    }
}

impl Default for CalendarEvent {
    fn default() -> (r: Self)
        ensures
            r.id@ == Seq::<char>::empty(),
            r.calendar_id@ == Seq::<char>::empty(),
            r.title@ == Seq::<char>::empty(),
            r.calendar_name is None,
            r.href is None,
            r.etag is None,
            r.start@ == (DateTimeModel { value: seq![], timezone: None, all_day: false }),
            r.end@ == (DateTimeModel { value: seq![], timezone: None, all_day: false }),
            r.location is None,
            r.description is None,
            r.attendees@.len() == 0,
            r.recurrence is None,
            r.reminders@.len() == 0,
    {
        CalendarEvent {
            id: String::new(),
            calendar_id: String::new(),
            calendar_name: None,
            href: None,
            etag: None,
            title: String::new(),
            start: EventDateTime::default(),
            end: EventDateTime::default(),
            location: None,
            description: None,
            attendees: Vec::new(),
            recurrence: None,
            reminders: Vec::new(),
        }
    }
}

// ===================== Copies =====================

/// Copies a date-time.
pub fn clone_datetime(d: &EventDateTime) -> (r: EventDateTime)
    ensures
        r@ == d@,
{
    EventDateTime { value: d.value.clone(), timezone: clone_opt(&d.timezone), all_day: d.all_day }
}

/// Copies an attendee.
pub fn clone_attendee(a: &EventAttendee) -> (r: EventAttendee)
    ensures
        r@ == a@,
{
    EventAttendee {
        email: a.email.clone(),
        name: clone_opt(&a.name),
        role: clone_opt(&a.role),
        partstat: clone_opt(&a.partstat),
        rsvp: a.rsvp,
    }
}

/// Copies a list of strings.
pub fn clone_strings(v: &Vec<String>) -> (r: Vec<String>)
    ensures
        strings_view(r@) == strings_view(v@),
{
    let mut r: Vec<String> = Vec::new();
    for i in 0..v.len()
        invariant
            r.len() == i,
            forall|j: int| 0 <= j < i ==> (#[trigger] r@[j])@ == v@[j]@,
    {
        r.push(v[i].clone());
    }
    assert(strings_view(r@) =~= strings_view(v@));
    r
}

/// Copies a recurrence rule.
pub fn clone_recurrence(x: &EventRecurrence) -> (r: EventRecurrence)
    ensures
        r@ == x@,
{
    EventRecurrence {
        frequency: x.frequency.clone(),
        interval: x.interval,
        count: x.count,
        until: clone_opt(&x.until),
        by_day: clone_strings(&x.by_day),
    }
}

/// Copies an optional recurrence rule.
pub fn clone_opt_recurrence(x: &Option<EventRecurrence>) -> (r: Option<EventRecurrence>)
    ensures
        recurrence_view(r) == recurrence_view(*x),
{
    match x {
        Some(v) => Some(clone_recurrence(v)),
        None => None,
    }
}

/// Copies a list of attendees.
pub fn clone_attendees(v: &Vec<EventAttendee>) -> (r: Vec<EventAttendee>)
    ensures
        attendees_view(r@) == attendees_view(v@),
{
    let mut r: Vec<EventAttendee> = Vec::new();
    for i in 0..v.len()
        invariant
            r.len() == i,
            forall|j: int| 0 <= j < i ==> (#[trigger] r@[j])@ == v@[j]@,
    {
        r.push(clone_attendee(&v[i]));
    }
    assert(attendees_view(r@) =~= attendees_view(v@));
    r
}

/// Copies a list of reminders.
pub fn clone_reminders(v: &Vec<EventReminder>) -> (r: Vec<EventReminder>)
    ensures
        reminders_view(r@) == reminders_view(v@),
{
    let mut r: Vec<EventReminder> = Vec::new();
    for i in 0..v.len()
        invariant
            r.len() == i,
            forall|j: int| 0 <= j < i ==> (#[trigger] r@[j])@ == v@[j]@,
    {
        r.push(EventReminder { minutes_before: v[i].minutes_before, action: clone_opt(&v[i].action) });
    }
    assert(reminders_view(r@) =~= reminders_view(v@));
    r
}

/// Copies an event.
pub fn clone_event(e: &CalendarEvent) -> (r: CalendarEvent)
    ensures
        r@ == e@,
{
    CalendarEvent {
        id: e.id.clone(),
        calendar_id: e.calendar_id.clone(),
        calendar_name: clone_opt(&e.calendar_name),
        href: clone_opt(&e.href),
        etag: clone_opt(&e.etag),
        title: e.title.clone(),
        start: clone_datetime(&e.start),
        end: clone_datetime(&e.end),
        location: clone_opt(&e.location),
        description: clone_opt(&e.description),
        attendees: clone_attendees(&e.attendees),
        recurrence: clone_opt_recurrence(&e.recurrence),
        reminders: clone_reminders(&e.reminders),
    }
}

} // verus!
