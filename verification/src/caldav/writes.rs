//! What a calendar or event write leads to once the server has answered:
//! the record as it now stands, the error to report, or one more request.
use vstd::prelude::*;
use crate::carddav::opt_view;
use crate::caldav::{Calendar, CalendarEvent, CalendarModel, EventModel, clone_event};
use crate::caldav::dav::{
    PRECONDITION_FAILED, calendar_write_error, event_write_error, extract_location_path,
    location_path, map_calendar_write_error, map_event_write_error, resource_id,
    resource_id_from_href, should_retry_calendar_delete_without_etag, slug, slugify,
};
use crate::caldav::responses::clone_calendar;
use crate::commands::{is_lower_hex};
use crate::error::Error;
use crate::folding::{trim_end_char, trim_end_char_chars};
use crate::text::{chars_of, extend_str, string_of};

verus! {

/// The text of an optional string argument.
pub open spec fn opt_str(o: Option<&str>) -> Option<Seq<char>> {
    match o {
        Some(s) => Some(s@),
        None => None,
    }
}

fn own_opt(o: Option<&str>) -> (r: Option<String>)
    ensures
        opt_view(r) == opt_str(o),
{
    match o {
        Some(s) => Some(s.to_string()),
        None => None,
    }
}

/// The href of a new calendar: a slug of its name and a fresh identifier
/// under the calendar home.
pub open spec fn new_calendar_href_of(home: Seq<char>, name: Seq<char>, id: Seq<char>) -> Seq<char> {
    trim_end_char(home, '/') + "/"@ + slug(name) + "-"@ + id + "/"@
}

/// The href of a new calendar under `home`, made unique by `id`.
pub fn calendar_href(home: &str, name: &str, id: &str) -> (r: String)
    ensures
        r@ == new_calendar_href_of(home@, name@, id@),
{
    let h = chars_of(home);
    let mut out = trim_end_char_chars(&h, '/');
    extend_str(&mut out, "/");
    let s = slugify(name);
    extend_str(&mut out, s.as_str());
    extend_str(&mut out, "-");
    extend_str(&mut out, id);
    extend_str(&mut out, "/");
    string_of(&out)
}

/// 32 lowercase hexadecimal digits: a random (version 4, RFC 4122 variant)
/// UUID in its simple form, version digit `4`, variant digit `8`, `9`, `a` or `b`.
pub open spec fn simple_uuid_text(s: Seq<char>) -> bool {
    &&& s.len() == 32
    &&& forall|i: int| 0 <= i < 32 ==> is_lower_hex(#[trigger] s[i])
    &&& s[12] == '4'
    &&& (s[16] == '8' || s[16] == '9' || s[16] == 'a' || s[16] == 'b')
}

/// A fresh random identifier: `uuid::Uuid::new_v4().simple()` as text.
/// Which UUID comes back is chance; the contract states only its shape,
/// which uuid's formatting code and the version and variant bits that
/// `new_v4` sets fix.
#[verifier::external_body]
fn new_simple_uuid() -> (r: String)
    ensures
        simple_uuid_text(r@),
{
    uuid::Uuid::new_v4().simple().to_string()
}

/// The href of a new calendar under `home`, made unique by a fresh UUID.
pub fn new_calendar_href(home: &str, name: &str) -> (r: String)
    ensures
        exists|id: Seq<char>| simple_uuid_text(id) && r@ == new_calendar_href_of(home@, name@, id),
{
    let id = new_simple_uuid();
    calendar_href(home, name, id.as_str())
}

// ===================== Calendars =====================

/// A MKCALENDAR answer that created the calendar (201, 200 or 204).
pub open spec fn mkcalendar_ok(status: u16) -> bool {
    status == 201 || status == 200 || status == 204
}

/// The message of a refused MKCALENDAR.
pub open spec fn mkcalendar_failure(status_text: Seq<char>, body: Seq<char>) -> Seq<char> {
    "CalDAV MKCALENDAR failed: "@ + status_text + " - "@ + body
}

/// The calendar a MKCALENDAR created: at the `Location` the server gave, or
/// else where it was asked for.
pub open spec fn created_calendar_of(
    name: Seq<char>,
    color: Option<Seq<char>>,
    requested_href: Seq<char>,
    location: Option<Seq<char>>,
    etag: Option<Seq<char>>,
) -> CalendarModel {
    let href = match location_path(location) {
        Some(p) => p,
        None => requested_href,
    };
    CalendarModel {
        id: resource_id(href),
        name: name,
        color: color,
        description: None,
        href: href,
        etag: etag,
        ctag: None,
        is_default: false,
    }
}

/// What a MKCALENDAR answer means: the new calendar, or the error with the
/// status and body.
pub fn calendar_created(
    name: &str,
    color: Option<&str>,
    requested_href: String,
    status: u16,
    status_text: &str,
    location: Option<String>,
    etag: Option<String>,
    body: &str,
) -> (r: Result<Calendar, Error>)
    ensures
        mkcalendar_ok(status) ==> (r matches Ok(c) && c@ == created_calendar_of(
            name@,
            opt_str(color),
            requested_href@,
            opt_view(location),
            opt_view(etag),
        )),
        !mkcalendar_ok(status) ==> (r matches Err(Error::Server(m)) && m@ == mkcalendar_failure(status_text@, body@)),
{
    if !(status == 201 || status == 200 || status == 204) {
        let mut v = chars_of("CalDAV MKCALENDAR failed: ");
        extend_str(&mut v, status_text);
        extend_str(&mut v, " - ");
        extend_str(&mut v, body);
        return Err(Error::Server(string_of(&v)));
    }
    let href = match extract_location_path(location) {
        Some(p) => p,
        None => requested_href,
    };
    Ok(Calendar {
        id: resource_id_from_href(href.as_str()),
        name: name.to_string(),
        color: own_opt(color),
        description: None,
        href: href,
        etag: etag,
        ctag: None,
        is_default: false,
    })
}

/// A PROPPATCH answer that applied the change (200, 204 or 207).
pub open spec fn proppatch_ok(status: u16) -> bool {
    status == 200 || status == 204 || status == 207
}

/// The calendar after a PROPPATCH: the new name and colour where given, the
/// server's ETag where it sent one.
pub open spec fn updated_calendar_of(
    c: CalendarModel,
    name: Option<Seq<char>>,
    color: Option<Seq<char>>,
    server_etag: Option<Seq<char>>,
) -> CalendarModel {
    CalendarModel {
        name: match name {
            Some(n) => n,
            None => c.name,
        },
        color: match color {
            Some(x) => Some(x),
            None => c.color,
        },
        etag: match server_etag {
            Some(e) => Some(e),
            None => c.etag,
        },
        ..c
    }
}

/// What a PROPPATCH answer means: the updated calendar, or the write error.
pub fn calendar_updated(
    calendar: &Calendar,
    name: Option<&str>,
    color: Option<&str>,
    status: u16,
    status_text: &str,
    server_etag: Option<String>,
    body: &str,
) -> (r: Result<Calendar, Error>)
    ensures
        proppatch_ok(status) ==> (r matches Ok(c) && c@ == updated_calendar_of(
            calendar@,
            opt_str(name),
            opt_str(color),
            opt_view(server_etag),
        )),
        !proppatch_ok(status) ==> (r matches Err(e) && calendar_write_error(
            calendar@,
            status,
            status_text@,
            opt_view(server_etag),
            body@,
            e,
        )),
{
    if !(status == 200 || status == 204 || status == 207) {
        return Err(map_calendar_write_error(calendar, status, status_text, server_etag, body));
    }
    let mut updated = clone_calendar(calendar);
    match name {
        Some(n) => {
            updated.name = n.to_string();
        },
        None => {},
    }
    match color {
        Some(c) => {
            updated.color = Some(c.to_string());
        },
        None => {},
    }
    match server_etag {
        Some(e) => {
            updated.etag = Some(e);
        },
        None => {},
    }
    Ok(updated)
}

/// What to do after a DELETE answer.
pub enum DeleteStep {
    /// The resource is gone.
    Done,
    /// Send the DELETE again without `If-Match`.
    RetryWithoutEtag,
    /// Report the error.
    Failed(Error),
}

/// A DELETE answer that removed the resource (204, 200 or 202).
pub open spec fn delete_ok(status: u16) -> bool {
    status == 204 || status == 200 || status == 202
}

/// What a calendar DELETE answer means. A first attempt refused with 412,
/// having sent an ETag and got none back, is retried once without it.
pub fn calendar_delete_step(
    calendar: &Calendar,
    retried: bool,
    status: u16,
    status_text: &str,
    server_etag: Option<String>,
    body: &str,
) -> (r: DeleteStep)
    ensures
        delete_ok(status) ==> r is Done,
        !delete_ok(status) && !retried && status == PRECONDITION_FAILED && calendar.etag is Some
            && server_etag is None ==> r is RetryWithoutEtag,
        !delete_ok(status) && !(!retried && status == PRECONDITION_FAILED && calendar.etag is Some
            && server_etag is None) ==> (r matches DeleteStep::Failed(e) && calendar_write_error(
            calendar@,
            status,
            status_text@,
            opt_view(server_etag),
            body@,
            e,
        )),
{
    if status == 204 || status == 200 || status == 202 {
        return DeleteStep::Done;
    }
    let sent = match &calendar.etag {
        Some(e) => Some(e.as_str()),
        None => None,
    };
    if !retried && should_retry_calendar_delete_without_etag(status, sent, &server_etag) {
        return DeleteStep::RetryWithoutEtag;
    }
    DeleteStep::Failed(map_calendar_write_error(calendar, status, status_text, server_etag, body))
}

// ===================== Events =====================

/// A PUT answer that stored the event (201, 204 or 200).
pub open spec fn put_ok(status: u16) -> bool {
    status == 201 || status == 204 || status == 200
}

/// The event a PUT created in `calendar`: at the `Location` the server gave,
/// or else where it was put, with the server's ETag.
pub open spec fn created_event_of(
    ev: EventModel,
    calendar: CalendarModel,
    requested_href: Seq<char>,
    location: Option<Seq<char>>,
    etag: Option<Seq<char>>,
) -> EventModel {
    EventModel {
        calendar_id: calendar.id,
        calendar_name: Some(calendar.name),
        href: Some(
            match location_path(location) {
                Some(p) => p,
                None => requested_href,
            },
        ),
        etag: etag,
        ..ev
    }
}

/// What the answer to creating an event means: the stored event, or the
/// write error.
pub fn event_created(
    event: &CalendarEvent,
    calendar: &Calendar,
    requested_href: String,
    status: u16,
    status_text: &str,
    location: Option<String>,
    etag: Option<String>,
    body: &str,
) -> (r: Result<CalendarEvent, Error>)
    ensures
        put_ok(status) ==> (r matches Ok(e) && e@ == created_event_of(
            event@,
            calendar@,
            requested_href@,
            opt_view(location),
            opt_view(etag),
        )),
        !put_ok(status) ==> (r matches Err(e) && event_write_error(
            event@,
            None,
            status,
            status_text@,
            opt_view(etag),
            body@,
            e,
        )),
{
    if !(status == 201 || status == 204 || status == 200) {
        return Err(map_event_write_error(event, None, status, status_text, etag, body));
    }
    let mut created = clone_event(event);
    created.calendar_id = calendar.id.clone();
    created.calendar_name = Some(calendar.name.clone());
    created.href = Some(
        match extract_location_path(location) {
            Some(p) => p,
            None => requested_href,
        },
    );
    created.etag = etag;
    Ok(created)
}

/// Where an event is updated or deleted: its href, or not found without one.
pub fn event_href(event: &CalendarEvent) -> (r: Result<String, Error>)
    ensures
        match event.href {
            Some(h) => r matches Ok(x) && x@ == h@,
            None => r matches Err(Error::EventNotFound(id)) && id@ == event.id@,
        },
{
    match &event.href {
        Some(h) => Ok(h.clone()),
        None => Err(Error::EventNotFound(event.id.clone())),
    }
}

/// What the answer to updating an event means: the event with the server's
/// new ETag (or its old one), or the write error.
pub fn event_updated(
    event: &CalendarEvent,
    previous_etag: &str,
    status: u16,
    status_text: &str,
    server_etag: Option<String>,
    body: &str,
) -> (r: Result<CalendarEvent, Error>)
    ensures
        put_ok(status) ==> (r matches Ok(e) && e@ == EventModel {
            etag: match opt_view(server_etag) {
                Some(x) => Some(x),
                None => event@.etag,
            },
            ..event@
        }),
        !put_ok(status) ==> (r matches Err(e) && event_write_error(
            event@,
            Some(previous_etag@),
            status,
            status_text@,
            opt_view(server_etag),
            body@,
            e,
        )),
{
    if !(status == 201 || status == 204 || status == 200) {
        return Err(map_event_write_error(event, Some(previous_etag), status, status_text, server_etag, body));
    }
    let mut updated = clone_event(event);
    match server_etag {
        Some(e) => {
            updated.etag = Some(e);
        },
        None => {},
    }
    Ok(updated)
}

/// What an event DELETE is sent with: its href and ETag; not found without
/// an href, a conflict with nothing sent without an ETag.
pub fn event_delete_target(event: &CalendarEvent) -> (r: Result<(String, String), Error>)
    ensures
        match (event.href, event.etag) {
            (Some(h), Some(t)) => r matches Ok((x, y)) && x@ == h@ && y@ == t@,
            (None, _) => r matches Err(Error::EventNotFound(id)) && id@ == event.id@,
            (Some(_), None) => r matches Err(Error::EventConflict { id, sent_etag, server_etag }) && id@
                == event.id@ && sent_etag@ == Seq::<char>::empty() && server_etag is None,
        },
{
    let href = match &event.href {
        Some(h) => h.clone(),
        None => {
            return Err(Error::EventNotFound(event.id.clone()));
        },
    };
    match &event.etag {
        Some(t) => Ok((href, t.clone())),
        None => Err(Error::EventConflict { id: event.id.clone(), sent_etag: String::new(), server_etag: None }),
    }
}

/// What the answer to an event DELETE means.
pub fn event_deleted(
    event: &CalendarEvent,
    etag: &str,
    status: u16,
    status_text: &str,
    server_etag: Option<String>,
    body: &str,
) -> (r: Result<(), Error>)
    ensures
        delete_ok(status) ==> r is Ok,
        !delete_ok(status) ==> (r matches Err(e) && event_write_error(
            event@,
            Some(etag@),
            status,
            status_text@,
            opt_view(server_etag),
            body@,
            e,
        )),
{
    if status == 204 || status == 200 || status == 202 {
        return Ok(());
    }
    Err(map_event_write_error(event, Some(etag), status, status_text, server_etag, body))
}

/// The ETag an event update is sent with: the stored one; a conflict with
/// nothing sent, naming the event as the user gave it, when there is none.
pub fn event_update_etag(existing: &CalendarEvent, event_id: &str) -> (r: Result<String, Error>)
    ensures
        match existing.etag {
            Some(t) => r matches Ok(x) && x@ == t@,
            None => r matches Err(Error::EventConflict { id, sent_etag, server_etag }) && id@ == event_id@
                && sent_etag@ == Seq::<char>::empty() && server_etag is None,
        },
{
    match &existing.etag {
        Some(t) => Ok(t.clone()),
        None => Err(Error::EventConflict { id: event_id.to_string(), sent_etag: String::new(), server_etag: None }),
    }
}

} // verus!
