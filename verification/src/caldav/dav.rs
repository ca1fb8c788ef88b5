//! WebDAV / CalDAV request bodies, resource paths and response handling.
use vstd::prelude::*;
use crate::carddav::opt_view;
use crate::caldav::{Calendar, CalendarEvent, CalendarModel, EventModel, clone_event};
use crate::error::Error;
use crate::folding::{trim_end_char, trim_end_char_chars};
use crate::text::{
    after_last, after_last_char, ascii_lower, chars_lt, chars_of, extend_str,
    is_ascii_alnum, lemma_seq_lt_irreflexive, lemma_seq_lt_transitive, seq_lt, slice_chars,
    starts_with, string_of, strip_all_suffix, strip_all_suffix_chars,
};

verus! {

/// Origin of Fastmail's CalDAV service.
pub const CALDAV_BASE: &'static str = "https://caldav.fastmail.com";

// ===================== XML text =====================

/// Escaping of one character in XML text (`&`, `<`, `>`).
pub open spec fn xml_char(c: char) -> Seq<char> {
    if c == '&' {
        "&amp;"@
    } else if c == '<' {
        "&lt;"@
    } else if c == '>' {
        "&gt;"@
    } else {
        seq![c]
    }
}

/// Escaping of one character in a quoted UID (`&`, `<`, `>`, `"`, `'`).
pub open spec fn xml_uid_char(c: char) -> Seq<char> {
    if c == '"' {
        "&quot;"@
    } else if c == '\'' {
        "&apos;"@
    } else {
        xml_char(c)
    }
}

/// XML text with `&`, `<` and `>` escaped.
pub open spec fn xml_text(s: Seq<char>) -> Seq<char> {
    s.flat_map(|c: char| xml_char(c))
}

/// XML text with `&`, `<`, `>`, `"` and `'` escaped.
pub open spec fn xml_uid_text(s: Seq<char>) -> Seq<char> {
    s.flat_map(|c: char| xml_uid_char(c))
}

proof fn lemma_flat_map_push(s: Seq<char>, c: char, f: spec_fn(char) -> Seq<char>)
    ensures
        s.push(c).flat_map(f) == s.flat_map(f) + f(c),
{
    s.lemma_flat_map_push(f, c);
}

/// Escape `&`, `<` and `>` for XML text.
pub fn xml_escape(value: &str) -> (r: String)
    ensures
        r@ == xml_text(value@),
{
    let cs = chars_of(value);
    let mut out: Vec<char> = Vec::new();
    assert(cs@.take(0) =~= Seq::<char>::empty());
    for i in 0..cs.len()
        invariant
            out@ == xml_text(cs@.take(i as int)),
    {
        let c = cs[i];
        if c == '&' {
            extend_str(&mut out, "&amp;");
        } else if c == '<' {
            extend_str(&mut out, "&lt;");
        } else if c == '>' {
            extend_str(&mut out, "&gt;");
        } else {
            out.push(c);
        }
        assert(cs@.take(i + 1) =~= cs@.take(i as int).push(c));
        proof {
            lemma_flat_map_push(cs@.take(i as int), c, |c: char| xml_char(c));
        }
    }
    assert(cs@.take(cs.len() as int) =~= cs@);
    string_of(&out)
}

/// Escape XML special characters in a UID for embedding in XML text content.
pub fn xml_escape_uid(uid: &str) -> (r: String)
    ensures
        r@ == xml_uid_text(uid@),
{
    let cs = chars_of(uid);
    let mut out: Vec<char> = Vec::new();
    assert(cs@.take(0) =~= Seq::<char>::empty());
    for i in 0..cs.len()
        invariant
            out@ == xml_uid_text(cs@.take(i as int)),
    {
        let c = cs[i];
        if c == '"' {
            extend_str(&mut out, "&quot;");
        } else if c == '\'' {
            extend_str(&mut out, "&apos;");
        } else if c == '&' {
            extend_str(&mut out, "&amp;");
        } else if c == '<' {
            extend_str(&mut out, "&lt;");
        } else if c == '>' {
            extend_str(&mut out, "&gt;");
        } else {
            out.push(c);
        }
        assert(cs@.take(i + 1) =~= cs@.take(i as int).push(c));
        proof {
            lemma_flat_map_push(cs@.take(i as int), c, |c: char| xml_uid_char(c));
        }
    }
    assert(cs@.take(cs.len() as int) =~= cs@);
    string_of(&out)
}

// ===================== Request bodies =====================

/// Text of a calendar-query REPORT body before the UID.
pub const UID_REPORT_HEAD: &'static str = "<?xml version=\"1.0\" encoding=\"utf-8\" ?>\n<C:calendar-query xmlns:D=\"DAV:\" xmlns:C=\"urn:ietf:params:xml:ns:caldav\">\n  <D:prop>\n    <D:getetag/>\n    <C:calendar-data/>\n  </D:prop>\n  <C:filter>\n    <C:comp-filter name=\"VCALENDAR\">\n      <C:comp-filter name=\"VEVENT\">\n        <C:prop-filter name=\"UID\">\n          <C:text-match collation=\"i;unicode-casemap\" match-type=\"equals\">";

/// Text of a calendar-query REPORT body after the UID.
pub const UID_REPORT_TAIL: &'static str = "</C:text-match>\n        </C:prop-filter>\n      </C:comp-filter>\n    </C:comp-filter>\n  </C:filter>\n</C:calendar-query>";

/// Build an RFC 4791 calendar-query REPORT body matching one event UID
/// exactly (`i;unicode-casemap`, `equals`), with the UID XML-escaped.
pub fn build_uid_report_body(uid: &str) -> (r: String)
    ensures
        r@ == UID_REPORT_HEAD@ + xml_uid_text(uid@) + UID_REPORT_TAIL@,
{
    let mut out: Vec<char> = Vec::new();
    extend_str(&mut out, UID_REPORT_HEAD);
    let e = xml_escape_uid(uid);
    extend_str(&mut out, e.as_str());
    extend_str(&mut out, UID_REPORT_TAIL);
    string_of(&out)
}

/// Text of a MKCALENDAR body before the display name.
pub const MKCALENDAR_HEAD: &'static str = "<?xml version=\"1.0\" encoding=\"utf-8\"?>\n<c:mkcalendar xmlns:d=\"DAV:\" xmlns:c=\"urn:ietf:params:xml:ns:caldav\" xmlns:apple=\"http://apple.com/ns/ical/\">\n  <d:set>\n    <d:prop>\n      <d:displayname>";

/// Text of a MKCALENDAR body after the color element.
pub const MKCALENDAR_TAIL: &'static str = "\n    </d:prop>\n  </d:set>\n</c:mkcalendar>";

/// Text of a PROPPATCH body before the display name.
pub const PROPPATCH_HEAD: &'static str = "<?xml version=\"1.0\" encoding=\"utf-8\"?>\n<d:propertyupdate xmlns:d=\"DAV:\" xmlns:apple=\"http://apple.com/ns/ical/\">\n  <d:set>\n    <d:prop>\n      <d:displayname>";

/// Text of a PROPPATCH body after the color element.
pub const PROPPATCH_TAIL: &'static str = "\n    </d:prop>\n  </d:set>\n</d:propertyupdate>";

/// Text between the display name and the color element.
pub const NAME_TAIL: &'static str = "</d:displayname>\n      ";

/// The `apple:calendar-color` element for an optional color.
pub open spec fn color_xml(color: Option<Seq<char>>) -> Seq<char> {
    match color {
        Some(c) => "<apple:calendar-color>"@ + xml_text(c) + "</apple:calendar-color>"@,
        None => seq![],
    }
}

/// The display-name and color properties shared by MKCALENDAR and PROPPATCH.
pub open spec fn calendar_props(name: Seq<char>, color: Option<Seq<char>>) -> Seq<char> {
    xml_text(name) + NAME_TAIL@ + color_xml(color)
}

fn push_calendar_props(out: &mut Vec<char>, name: &str, color: Option<&str>)
    ensures
        final(out)@ == old(out)@ + calendar_props(
            name@,
            match color {
                Some(c) => Some(c@),
                None => None,
            },
        ),
{
    let n = xml_escape(name);
    extend_str(out, n.as_str());
    extend_str(out, NAME_TAIL);
    match color {
        Some(c) => {
            extend_str(out, "<apple:calendar-color>");
            let e = xml_escape(c);
            extend_str(out, e.as_str());
            extend_str(out, "</apple:calendar-color>");
        },
        None => {},
    }
}

/// The MKCALENDAR body creating a calendar with a name and optional color.
pub fn mkcalendar_body(name: &str, color: Option<&str>) -> (r: String)
    ensures
        r@ == MKCALENDAR_HEAD@ + calendar_props(
            name@,
            match color {
                Some(c) => Some(c@),
                None => None,
            },
        ) + MKCALENDAR_TAIL@,
{
    let mut out: Vec<char> = Vec::new();
    extend_str(&mut out, MKCALENDAR_HEAD);
    push_calendar_props(&mut out, name, color);
    extend_str(&mut out, MKCALENDAR_TAIL);
    string_of(&out)
}

/// The PROPPATCH body renaming / recoloring a calendar.
pub fn proppatch_calendar_body(name: &str, color: Option<&str>) -> (r: String)
    ensures
        r@ == PROPPATCH_HEAD@ + calendar_props(
            name@,
            match color {
                Some(c) => Some(c@),
                None => None,
            },
        ) + PROPPATCH_TAIL@,
{
    let mut out: Vec<char> = Vec::new();
    extend_str(&mut out, PROPPATCH_HEAD);
    push_calendar_props(&mut out, name, color);
    extend_str(&mut out, PROPPATCH_TAIL);
    string_of(&out)
}

// ===================== Resource paths =====================

/// Slug characters of a name and whether the last one written was a dash:
/// ASCII letters and digits lower-cased, each run of other characters one `-`.
pub open spec fn slug_scan(s: Seq<char>) -> (Seq<char>, bool)
    decreases s.len(),
{
    if s.len() == 0 {
        (seq![], false)
    } else {
        let (out, prev_dash) = slug_scan(s.drop_last());
        let c = s.last();
        if is_ascii_alnum(c) {
            (out.push(ascii_lower(c)), false)
        } else if !prev_dash {
            (out.push('-'), true)
        } else {
            (out, prev_dash)
        }
    }
}

/// Removes every leading occurrence of `c`.
pub open spec fn trim_start_char(s: Seq<char>, c: char) -> Seq<char>
    decreases s.len(),
{
    if s.len() > 0 && s[0] == c {
        trim_start_char(s.drop_first(), c)
    } else {
        s
    }
}

/// The slug of a calendar name: dashes trimmed at both ends, `calendar` when empty.
pub open spec fn slug(name: Seq<char>) -> Seq<char> {
    let t = trim_start_char(trim_end_char(slug_scan(name).0, '-'), '-');
    if t.len() == 0 {
        "calendar"@
    } else {
        t
    }
}

fn trim_start_char_chars(s: &Vec<char>, c: char) -> (r: Vec<char>)
    ensures
        r@ == trim_start_char(s@, c),
{
    let mut lo: usize = 0;
    assert(s@.skip(0) == s@);
    while lo < s.len() && s[lo] == c
        invariant
            lo <= s.len(),
            trim_start_char(s@, c) == trim_start_char(s@.skip(lo as int), c),
        decreases s.len() - lo,
    {
        assert(s@.skip(lo as int).drop_first() == s@.skip(lo + 1));
        lo = lo + 1;
    }
    slice_chars(s, lo, s.len())
}

/// A URL-safe resource name for a new calendar.
pub fn slugify(name: &str) -> (r: String)
    ensures
        r@ == slug(name@),
{
    let cs = chars_of(name);
    let mut out: Vec<char> = Vec::new();
    let mut prev_dash = false;
    assert(cs@.take(0) =~= Seq::<char>::empty());
    for i in 0..cs.len()
        invariant
            slug_scan(cs@.take(i as int)) == (out@, prev_dash),
    {
        let ch = cs[i];
        assert(cs@.take(i + 1).drop_last() =~= cs@.take(i as int));
        if ('0' <= ch && ch <= '9') || ('a' <= ch && ch <= 'z') || ('A' <= ch && ch <= 'Z') {
            prev_dash = false;
            let low = if 'A' <= ch && ch <= 'Z' {
                ascii_lower_char(ch)
            } else {
                ch
            };
            out.push(low);
        } else if !prev_dash {
            prev_dash = true;
            out.push('-');
        }
    }
    assert(cs@.take(cs.len() as int) =~= cs@);
    let t1 = trim_end_char_chars(&out, '-');
    let t2 = trim_start_char_chars(&t1, '-');
    if t2.len() == 0 {
        "calendar".to_string()
    } else {
        string_of(&t2)
    }
}

fn ascii_lower_char(c: char) -> (r: char)
    requires
        'A' <= c <= 'Z',
    ensures
        r == ascii_lower(c),
{
    let b: u8 = (c as u32 + 32) as u8;
    b as char
}

/// The id of a resource: the last path segment of its href, without `.ics`.
pub open spec fn resource_id(href: Seq<char>) -> Seq<char> {
    strip_all_suffix(after_last(trim_end_char(href, '/'), '/'), ".ics"@)
}

pub fn resource_id_from_href(href: &str) -> (r: String)
    ensures
        r@ == resource_id(href@),
{
    proof {
        reveal_strlit(".ics");
    }
    let cs = chars_of(href);
    let t = trim_end_char_chars(&cs, '/');
    let last = after_last_char(&t, '/');
    let id = strip_all_suffix_chars(&last, ".ics");
    string_of(&id)
}

/// The href of an event inside a calendar collection.
pub open spec fn event_href(calendar_href: Seq<char>, event_id: Seq<char>) -> Seq<char> {
    trim_end_char(calendar_href, '/') + "/"@ + event_id + ".ics"@
}

pub fn build_event_href(calendar_href: &str, event_id: &str) -> (r: String)
    ensures
        r@ == event_href(calendar_href@, event_id@),
{
    let cs = chars_of(calendar_href);
    let mut out = trim_end_char_chars(&cs, '/');
    extend_str(&mut out, "/");
    extend_str(&mut out, event_id);
    extend_str(&mut out, ".ics");
    string_of(&out)
}

/// The path a `Location` header points to on a server at `base`: the part
/// after the origin, or the header itself when it is already a path.
pub open spec fn location_path_under(base: Seq<char>, location: Option<Seq<char>>) -> Option<Seq<char>> {
    match location {
        Some(l) => if base.is_prefix_of(l) {
            Some(l.skip(base.len() as int))
        } else if l.len() > 0 && l[0] == '/' {
            Some(l)
        } else {
            None
        },
        None => None,
    }
}

/// The path a `Location` header points to on the CalDAV server.
pub open spec fn location_path(location: Option<Seq<char>>) -> Option<Seq<char>> {
    location_path_under(CALDAV_BASE@, location)
}

/// The resource path of a `Location` header for a server at `base`.
pub fn location_path_from(base: &str, location: Option<String>) -> (r: Option<String>)
    ensures
        opt_view(r) == location_path_under(base@, opt_view(location)),
{
    match location {
        Some(l) => {
            let cs = chars_of(l.as_str());
            if starts_with(&cs, base) {
                let b = chars_of(base);
                let rest = slice_chars(&cs, b.len(), cs.len());
                assert(rest@ =~= cs@.skip(base@.len() as int));
                Some(string_of(&rest))
            } else if cs.len() > 0 && cs[0] == '/' {
                Some(l)
            } else {
                None
            }
        },
        None => None,
    }
}

/// The resource path of a `Location` response header, if it names one.
pub fn extract_location_path(location: Option<String>) -> (r: Option<String>)
    ensures
        opt_view(r) == location_path(opt_view(location)),
{
    location_path_from(CALDAV_BASE, location)
}

// ===================== Write responses =====================

/// HTTP 412 Precondition Failed.
pub const PRECONDITION_FAILED: u16 = 412;

/// HTTP 404 Not Found.
pub const NOT_FOUND: u16 = 404;

/// The detail of a failed write: `"<what> write failed for <id>: <status> - <body>"`.
pub open spec fn write_failure(what: Seq<char>, id: Seq<char>, status: Seq<char>, body: Seq<char>) -> Seq<char> {
    what + " write failed for "@ + id + ": "@ + status + " - "@ + body
}

pub(crate) fn write_failure_text(what: &str, id: &String, status: &str, body: &str) -> (r: String)
    ensures
        r@ == write_failure(what@, id@, status@, body@),
{
    let mut out: Vec<char> = Vec::new();
    extend_str(&mut out, what);
    extend_str(&mut out, " write failed for ");
    extend_str(&mut out, id.as_str());
    extend_str(&mut out, ": ");
    extend_str(&mut out, status);
    extend_str(&mut out, " - ");
    extend_str(&mut out, body);
    string_of(&out)
}

/// The error for a refused calendar write: a conflict on 412 (with the ETag
/// sent and the server's), not found on 404, else the status and body.
pub open spec fn calendar_write_error(
    c: CalendarModel,
    status: u16,
    status_text: Seq<char>,
    server_etag: Option<Seq<char>>,
    body: Seq<char>,
    r: Error,
) -> bool {
    &&& status == PRECONDITION_FAILED ==> (r matches Error::CalendarConflict { id, sent_etag, server_etag: se }
        && id@ == c.id && sent_etag@ == match c.etag {
        Some(e) => e,
        None => seq![],
    } && opt_view(se) == server_etag)
    &&& status == NOT_FOUND ==> (r matches Error::CalendarNotFound(id) && id@ == c.id)
    &&& status != PRECONDITION_FAILED && status != NOT_FOUND ==> (r matches Error::Server(m) && m@
        == write_failure("CalDAV calendar"@, c.id, status_text, body))
}

/// The error for a refused calendar write. `status_text` is how the status
/// prints (`"500 Internal Server Error"`), `server_etag` the response's ETag.
pub fn map_calendar_write_error(
    calendar: &Calendar,
    status: u16,
    status_text: &str,
    server_etag: Option<String>,
    body: &str,
) -> (r: Error)
    ensures
        calendar_write_error(calendar@, status, status_text@, opt_view(server_etag), body@, r),
{
    if status == PRECONDITION_FAILED {
        let sent = match &calendar.etag {
            Some(e) => e.clone(),
            None => String::new(),
        };
        Error::CalendarConflict { id: calendar.id.clone(), sent_etag: sent, server_etag }
    } else if status == NOT_FOUND {
        Error::CalendarNotFound(calendar.id.clone())
    } else {
        Error::Server(write_failure_text("CalDAV calendar", &calendar.id, status_text, body))
    }
}

/// The error for a refused event write: a conflict on 412 (with the ETag
/// sent and the server's), not found on 404, else the status and body.
pub open spec fn event_write_error(
    ev: EventModel,
    sent_etag: Option<Seq<char>>,
    status: u16,
    status_text: Seq<char>,
    server_etag: Option<Seq<char>>,
    body: Seq<char>,
    r: Error,
) -> bool {
    &&& status == PRECONDITION_FAILED ==> (r matches Error::EventConflict { id, sent_etag: s, server_etag: se }
        && id@ == ev.id && s@ == match sent_etag {
        Some(e) => e,
        None => seq![],
    } && opt_view(se) == server_etag)
    &&& status == NOT_FOUND ==> (r matches Error::EventNotFound(id) && id@ == ev.id)
    &&& status != PRECONDITION_FAILED && status != NOT_FOUND ==> (r matches Error::Server(m) && m@
        == write_failure("CalDAV event"@, ev.id, status_text, body))
}

/// The error for a refused event write, `sent_etag` being the ETag sent with it.
pub fn map_event_write_error(
    event: &CalendarEvent,
    sent_etag: Option<&str>,
    status: u16,
    status_text: &str,
    server_etag: Option<String>,
    body: &str,
) -> (r: Error)
    ensures
        event_write_error(
            event@,
            match sent_etag {
                Some(e) => Some(e@),
                None => None,
            },
            status,
            status_text@,
            opt_view(server_etag),
            body@,
            r,
        ),
{
    if status == PRECONDITION_FAILED {
        let sent = match sent_etag {
            Some(e) => e.to_string(),
            None => String::new(),
        };
        Error::EventConflict { id: event.id.clone(), sent_etag: sent, server_etag }
    } else if status == NOT_FOUND {
        Error::EventNotFound(event.id.clone())
    } else {
        Error::Server(write_failure_text("CalDAV event", &event.id, status_text, body))
    }
}

/// A calendar DELETE refused with 412 is retried without `If-Match` when an
/// ETag was sent and the server did not supply a replacement one.
pub fn should_retry_calendar_delete_without_etag(
    status: u16,
    sent_etag: Option<&str>,
    server_etag: &Option<String>,
) -> (r: bool)
    ensures
        r == (status == PRECONDITION_FAILED && sent_etag is Some && server_etag is None),
{
    status == PRECONDITION_FAILED && sent_etag.is_some() && server_etag.is_none()
}

// ===================== Listing events =====================

/// The models of a list of events.
pub open spec fn events_view(v: Seq<CalendarEvent>) -> Seq<EventModel> {
    v.map_values(|e: CalendarEvent| e@)
}

/// The events of the calendars that were fetched, in calendar order; failed
/// fetches contribute nothing.
pub open spec fn partial_events(rs: Seq<Result<(String, Vec<CalendarEvent>), Error>>) -> Seq<EventModel>
    decreases rs.len(),
{
    if rs.len() == 0 {
        seq![]
    } else {
        partial_events(rs.drop_last()) + match rs.last() {
            Ok((_, evs)) => events_view(evs@),
            Err(_) => seq![],
        }
    }
}

/// Flatten the results of per-calendar fetches: the events of every
/// successful fetch, in order; never an error, even when every fetch failed.
pub fn collect_partial_events(results: Vec<Result<(String, Vec<CalendarEvent>), Error>>) -> (r: Vec<
    CalendarEvent,
>)
    ensures
        events_view(r@) == partial_events(results@),
{
    let mut all: Vec<CalendarEvent> = Vec::new();
    assert(results@.take(0) =~= Seq::<Result<(String, Vec<CalendarEvent>), Error>>::empty());
    assert(events_view(all@) =~= Seq::<EventModel>::empty());
    for i in 0..results.len()
        invariant
            events_view(all@) == partial_events(results@.take(i as int)),
    {
        assert(results@.take(i + 1).drop_last() =~= results@.take(i as int));
        assert(results@.take(i + 1).last() == results@[i as int]);
        match &results[i] {
            Ok((_, events)) => {
                let ghost before = events_view(all@);
                for j in 0..events.len()
                    invariant
                        events_view(all@) == before + events_view(events@.take(j as int)),
                {
                    let ghost prev = all@;
                    all.push(clone_event(&events[j]));
                    assert(events_view(all@) =~= events_view(prev).push(events@[j as int]@));
                    assert(events_view(events@.take(j + 1)) =~= events_view(events@.take(j as int)).push(
                        events@[j as int]@,
                    ));
                }
                assert(events@.take(events.len() as int) =~= events@);
            },
            Err(_) => {
                assert(events_view(all@) =~= events_view(all@) + Seq::<EventModel>::empty());
            },
        }
    }
    assert(results@.take(results.len() as int) =~= results@);
    all
}


// ===================== Laws =====================

/// Escaped XML text holds no `<` or `>`: no value can open or close an element.
pub proof fn lemma_xml_text_has_no_markup(s: Seq<char>)
    ensures
        forall|i: int| 0 <= i < xml_text(s).len() ==> xml_text(s)[i] != '<' && xml_text(s)[i] != '>',
    decreases s.len(),
{
    if s.len() > 0 {
        let init = s.drop_last();
        lemma_xml_text_has_no_markup(init);
        lemma_flat_map_push(init, s.last(), |c: char| xml_char(c));
        assert(init.push(s.last()) =~= s);
        reveal_strlit("&amp;");
        reveal_strlit("&lt;");
        reveal_strlit("&gt;");
        let a = xml_text(init);
        let b = xml_char(s.last());
        assert forall|i: int| 0 <= i < xml_text(s).len() implies xml_text(s)[i] != '<' && xml_text(s)[i] != '>' by {
            if i < a.len() {
                assert(xml_text(s)[i] == a[i]);
            } else {
                assert(xml_text(s)[i] == b[i - a.len()]);
            }
        }
    }
}

/// An escaped UID holds no `<`, `>`, `"` or `'`: it cannot leave the text
/// node or an attribute it is placed in.
pub proof fn lemma_xml_uid_text_is_inert(s: Seq<char>)
    ensures
        forall|i: int|
            0 <= i < xml_uid_text(s).len() ==> xml_uid_text(s)[i] != '<' && xml_uid_text(s)[i] != '>'
                && xml_uid_text(s)[i] != '"' && xml_uid_text(s)[i] != '\'',
    decreases s.len(),
{
    if s.len() > 0 {
        let init = s.drop_last();
        lemma_xml_uid_text_is_inert(init);
        lemma_flat_map_push(init, s.last(), |c: char| xml_uid_char(c));
        assert(init.push(s.last()) =~= s);
        reveal_strlit("&amp;");
        reveal_strlit("&lt;");
        reveal_strlit("&gt;");
        reveal_strlit("&quot;");
        reveal_strlit("&apos;");
        let a = xml_uid_text(init);
        let b = xml_uid_char(s.last());
        assert forall|i: int| 0 <= i < xml_uid_text(s).len() implies xml_uid_text(s)[i] != '<'
            && xml_uid_text(s)[i] != '>' && xml_uid_text(s)[i] != '"' && xml_uid_text(s)[i] != '\'' by {
            if i < a.len() {
                assert(xml_uid_text(s)[i] == a[i]);
            } else {
                assert(xml_uid_text(s)[i] == b[i - a.len()]);
            }
        }
    }
}

/// A slug character: a lowercase ASCII letter, a digit or a dash.
pub open spec fn slug_char(c: char) -> bool {
    ('a' <= c && c <= 'z') || ('0' <= c && c <= '9') || c == '-'
}

proof fn lemma_slug_scan_chars(s: Seq<char>)
    ensures
        forall|i: int| 0 <= i < slug_scan(s).0.len() ==> slug_char(#[trigger] slug_scan(s).0[i]),
    decreases s.len(),
{
    if s.len() > 0 {
        lemma_slug_scan_chars(s.drop_last());
        let prev = slug_scan(s.drop_last()).0;
        let out = slug_scan(s).0;
        assert forall|i: int| 0 <= i < out.len() implies slug_char(#[trigger] out[i]) by {
            if i < prev.len() {
                assert(out[i] == prev[i]);
            } else {
                let c = s.last();
                if is_ascii_alnum(c) {
                    assert(out[i] == ascii_lower(c));
                    if 'A' <= c && c <= 'Z' {
                        assert((c as u32) + 32 <= ('z' as u32));
                    }
                }
            }
        }
    }
}

proof fn lemma_trim_end_char_sub(s: Seq<char>, c: char)
    ensures
        trim_end_char(s, c).len() <= s.len(),
        forall|i: int| 0 <= i < trim_end_char(s, c).len() ==> trim_end_char(s, c)[i] == s[i],
        trim_end_char(s, c).len() > 0 ==> trim_end_char(s, c).last() != c,
    decreases s.len(),
{
    if s.len() > 0 && s.last() == c {
        lemma_trim_end_char_sub(s.drop_last(), c);
        let t = trim_end_char(s, c);
        assert forall|i: int| 0 <= i < t.len() implies t[i] == s[i] by {
            assert(t[i] == s.drop_last()[i]);
        }
    }
}

proof fn lemma_trim_start_char_sub(s: Seq<char>, c: char) -> (k: int)
    ensures
        0 <= k <= s.len(),
        trim_start_char(s, c) == s.skip(k),
        trim_start_char(s, c).len() > 0 ==> trim_start_char(s, c)[0] != c,
    decreases s.len(),
{
    if s.len() > 0 && s[0] == c {
        let k = lemma_trim_start_char_sub(s.drop_first(), c);
        assert(s.drop_first().skip(k) =~= s.skip(k + 1));
        k + 1
    } else {
        assert(s.skip(0) =~= s);
        0
    }
}

/// A slug is never empty, holds only lowercase letters, digits and dashes,
/// and neither starts nor ends with a dash.
pub proof fn lemma_slug_shape(name: Seq<char>)
    ensures
        slug(name).len() > 0,
        forall|i: int| 0 <= i < slug(name).len() ==> slug_char(#[trigger] slug(name)[i]),
        slug(name)[0] != '-',
        slug(name).last() != '-',
{
    let raw = slug_scan(name).0;
    lemma_slug_scan_chars(name);
    let e = trim_end_char(raw, '-');
    lemma_trim_end_char_sub(raw, '-');
    let k = lemma_trim_start_char_sub(e, '-');
    let t = trim_start_char(e, '-');
    reveal_strlit("calendar");
    if t.len() > 0 {
        assert forall|i: int| 0 <= i < t.len() implies slug_char(#[trigger] t[i]) by {
            assert(t[i] == e[i + k]);
            assert(e[i + k] == raw[i + k]);
        }
        assert(t.last() == e.last());
    }
}

/// When every fetch failed the listing is empty, never an error.
pub proof fn lemma_all_failed_is_empty(rs: Seq<Result<(String, Vec<CalendarEvent>), Error>>)
    requires
        forall|i: int| 0 <= i < rs.len() ==> (#[trigger] rs[i]) is Err,
    ensures
        partial_events(rs) == Seq::<EventModel>::empty(),
    decreases rs.len(),
{
    if rs.len() > 0 {
        let init = rs.drop_last();
        assert forall|i: int| 0 <= i < init.len() implies (#[trigger] init[i]) is Err by {
            assert(init[i] == rs[i]);
        }
        lemma_all_failed_is_empty(init);
        assert(rs.last() is Err);
    }
}
// ===================== Ordering events =====================

/// Where an event goes among events sorted by start text: before the first
/// one whose start is greater, so equal starts keep their order.
pub open spec fn start_position(sorted: Seq<EventModel>, key: Seq<char>) -> int
    decreases sorted.len(),
{
    if sorted.len() == 0 {
        0
    } else if seq_lt(key, sorted[0].start.value) {
        0
    } else {
        1 + start_position(sorted.drop_first(), key)
    }
}

/// The events stably sorted by the text of their start (`sort_by` on
/// `start.value`).
pub open spec fn sort_by_start(es: Seq<EventModel>) -> Seq<EventModel>
    decreases es.len(),
{
    if es.len() == 0 {
        seq![]
    } else {
        let sorted = sort_by_start(es.drop_last());
        let x = es.last();
        let k = start_position(sorted, x.start.value);
        sorted.take(k).push(x) + sorted.skip(k)
    }
}

proof fn lemma_start_position_bound(sorted: Seq<EventModel>, key: Seq<char>)
    ensures
        0 <= start_position(sorted, key) <= sorted.len(),
    decreases sorted.len(),
{
    if sorted.len() > 0 && !seq_lt(key, sorted[0].start.value) {
        lemma_start_position_bound(sorted.drop_first(), key);
    }
}

fn find_start_position(keys: &Vec<Vec<char>>, sorted: Ghost<Seq<EventModel>>, key: &Vec<char>) -> (r: usize)
    requires
        keys@.len() == sorted@.len(),
        forall|j: int| 0 <= j < keys@.len() ==> (#[trigger] keys@[j])@ == sorted@[j].start.value,
    ensures
        r as int == start_position(sorted@, key@),
{
    let ghost s = sorted@;
    let mut p: usize = 0;
    assert(s.skip(0) == s);
    while p < keys.len() && !chars_lt(key, &keys[p])
        invariant
            p <= keys@.len(),
            keys@.len() == s.len(),
            forall|j: int| 0 <= j < keys@.len() ==> (#[trigger] keys@[j])@ == s[j].start.value,
            start_position(s, key@) == p + start_position(s.skip(p as int), key@),
        decreases keys.len() - p,
    {
        assert(s.skip(p as int)[0] == s[p as int]);
        assert(s.skip(p as int).drop_first() == s.skip(p + 1));
        p = p + 1;
    }
    if p < keys.len() {
        assert(s.skip(p as int)[0] == s[p as int]);
    }
    p
}

/// The events sorted by the text of their start, equal starts in their
/// original order.
pub fn sort_events_by_start(events: &Vec<CalendarEvent>) -> (r: Vec<CalendarEvent>)
    ensures
        events_view(r@) == sort_by_start(events_view(events@)),
{
    let ghost unsorted = events_view(events@);
    let mut sorted: Vec<CalendarEvent> = Vec::new();
    let mut keys: Vec<Vec<char>> = Vec::new();
    assert(unsorted.take(0) =~= Seq::<EventModel>::empty());
    assert(events_view(sorted@) =~= Seq::<EventModel>::empty());
    for i in 0..events.len()
        invariant
            unsorted == events_view(events@),
            events_view(sorted@) == sort_by_start(unsorted.take(i as int)),
            keys@.len() == sorted@.len(),
            forall|j: int| 0 <= j < keys@.len() ==> (#[trigger] keys@[j])@ == sorted@[j]@.start.value,
    {
        assert(unsorted.take(i + 1).drop_last() =~= unsorted.take(i as int));
        assert(unsorted.take(i + 1).last() == events@[i as int]@);
        let e = clone_event(&events[i]);
        let key = chars_of(e.start.value.as_str());
        let ghost sv = events_view(sorted@);
        assert(forall|j: int| 0 <= j < keys@.len() ==> (#[trigger] keys@[j])@ == sv[j].start.value);
        let p = find_start_position(&keys, Ghost(sv), &key);
        proof {
            lemma_start_position_bound(sv, key@);
        }
        let ghost old_sorted = sorted@;
        let ghost old_keys = keys@;
        sorted.insert(p, e);
        keys.insert(p, key);
        assert(events_view(sorted@) =~= sv.take(p as int).push(e@) + sv.skip(p as int));
        assert forall|j: int| 0 <= j < keys@.len() implies (#[trigger] keys@[j])@ == sorted@[j]@.start.value by {
            if j < p {
                assert(keys@[j] == old_keys[j]);
                assert(sorted@[j] == old_sorted[j]);
            } else if j > p {
                assert(keys@[j] == old_keys[j - 1]);
                assert(sorted@[j] == old_sorted[j - 1]);
            }
        }
    }
    assert(unsorted.take(events.len() as int) =~= unsorted);
    sorted
}

/// The events of every successful per-calendar fetch, sorted by start;
/// failed fetches contribute nothing.
pub fn merge_calendar_events(results: Vec<Result<(String, Vec<CalendarEvent>), Error>>) -> (r: Vec<CalendarEvent>)
    ensures
        events_view(r@) == sort_by_start(partial_events(results@)),
{
    let all = collect_partial_events(results);
    sort_events_by_start(&all)
}

/// No event starts (as text) before one listed ahead of it.
pub open spec fn ordered_by_start(s: Seq<EventModel>) -> bool {
    forall|i: int, j: int| 0 <= i < j < s.len() ==> !seq_lt(#[trigger] s[j].start.value, #[trigger] s[i].start.value)
}

proof fn lemma_start_position_spec(s: Seq<EventModel>, key: Seq<char>)
    ensures
        forall|j: int| 0 <= j < start_position(s, key) ==> !seq_lt(key, #[trigger] s[j].start.value),
        start_position(s, key) < s.len() ==> seq_lt(key, s[start_position(s, key)].start.value),
    decreases s.len(),
{
    lemma_start_position_bound(s, key);
    if s.len() > 0 && !seq_lt(key, s[0].start.value) {
        lemma_start_position_spec(s.drop_first(), key);
        lemma_start_position_bound(s.drop_first(), key);
        assert forall|j: int| 0 <= j < start_position(s, key) implies !seq_lt(key, #[trigger] s[j].start.value) by {
            if j > 0 {
                assert(s[j] == s.drop_first()[j - 1]);
            }
        }
        if start_position(s, key) < s.len() {
            assert(s[start_position(s, key)] == s.drop_first()[start_position(s.drop_first(), key)]);
        }
    }
}

proof fn lemma_insert_keeps_order(s: Seq<EventModel>, x: EventModel)
    requires
        ordered_by_start(s),
    ensures
        ordered_by_start(
            s.take(start_position(s, x.start.value)).push(x) + s.skip(start_position(s, x.start.value)),
        ),
{
    let key = x.start.value;
    let k = start_position(s, key);
    lemma_start_position_bound(s, key);
    lemma_start_position_spec(s, key);
    let t = s.take(k).push(x) + s.skip(k);
    assert(t.len() == s.len() + 1);
    assert forall|i: int, j: int| 0 <= i < j < t.len() implies !seq_lt(#[trigger] t[j].start.value, #[trigger] t[i].start.value) by {
        // Positions in t: before k the old prefix, at k the new event, after k the old suffix shifted.
        let vi = t[i].start.value;
        let vj = t[j].start.value;
        if j < k {
            assert(t[i] == s[i] && t[j] == s[j]);
        } else if j == k {
            assert(t[i] == s[i]);
            assert(t[j] == x);
            assert(!seq_lt(key, s[i].start.value));
        } else if i < k {
            assert(t[i] == s[i]);
            assert(t[j] == s[j - 1]);
        } else if i == k {
            assert(t[i] == x);
            assert(t[j] == s[j - 1]);
            // s[k] is above key and s[j - 1] is not below s[k].
            if seq_lt(vj, key) {
                lemma_seq_lt_transitive(vj, key, s[k].start.value);
                if j - 1 == k {
                    lemma_seq_lt_irreflexive(vj);
                }
            }
        } else {
            assert(t[i] == s[i - 1]);
            assert(t[j] == s[j - 1]);
        }
    }
}

/// Listed events come in order of their start text: sorting by start leaves
/// no event before one that starts earlier.
pub proof fn lemma_sort_by_start_ordered(es: Seq<EventModel>)
    ensures
        ordered_by_start(sort_by_start(es)),
    decreases es.len(),
{
    if es.len() > 0 {
        lemma_sort_by_start_ordered(es.drop_last());
        lemma_insert_keeps_order(sort_by_start(es.drop_last()), es.last());
    }
}

/// Sorting by start keeps every event: the result holds the same events,
/// each as often.
pub proof fn lemma_sort_by_start_permutes(es: Seq<EventModel>)
    ensures
        sort_by_start(es).to_multiset() == es.to_multiset(),
    decreases es.len(),
{
    broadcast use vstd::seq_lib::group_to_multiset_ensures;
    if es.len() > 0 {
        let rest = es.drop_last();
        lemma_sort_by_start_permutes(rest);
        let sorted = sort_by_start(rest);
        let x = es.last();
        let k = start_position(sorted, x.start.value);
        lemma_start_position_bound(sorted, x.start.value);
        vstd::seq_lib::lemma_multiset_commutative(sorted.take(k).push(x), sorted.skip(k));
        vstd::seq_lib::lemma_multiset_commutative(sorted.take(k), sorted.skip(k));
        assert(sorted.take(k) + sorted.skip(k) =~= sorted);
        assert(es =~= rest.push(x));
    }
}

// ===================== Requests =====================

/// The PROPFIND body asking a principal for its calendar home.
pub const CALENDAR_HOME_PROPFIND: &'static str = "<?xml version=\"1.0\" encoding=\"utf-8\"?>\n<d:propfind xmlns:d=\"DAV:\" xmlns:c=\"urn:ietf:params:xml:ns:caldav\">\n  <d:prop>\n    <c:calendar-home-set/>\n  </d:prop>\n</d:propfind>";

/// The PROPFIND body listing the calendars of a calendar home.
pub const CALENDARS_PROPFIND: &'static str = "<?xml version=\"1.0\" encoding=\"utf-8\"?>\n<d:propfind xmlns:d=\"DAV:\" xmlns:c=\"urn:ietf:params:xml:ns:caldav\" xmlns:apple=\"http://apple.com/ns/ical/\">\n  <d:prop>\n    <d:displayname/>\n    <d:resourcetype/>\n    <d:getetag/>\n    <c:supported-calendar-component-set/>\n    <apple:calendar-color/>\n    <apple:calendar-order/>\n    <apple:calendar-description/>\n    <cs:getctag xmlns:cs=\"http://calendarserver.org/ns/\"/>\n  </d:prop>\n</d:propfind>";

/// A read answer that can be used: any 2xx status (207 Multi-Status among them).
pub open spec fn read_ok(status: u16) -> bool {
    200 <= status < 300
}

/// Whether a PROPFIND or REPORT answer can be read.
pub fn read_succeeded(status: u16) -> (r: bool)
    ensures
        r == read_ok(status),
{
    200 <= status && status < 300
}

/// The text of a failed request: what was asked, how the status prints and
/// the body the server sent.
pub open spec fn request_failure_text(what: Seq<char>, status_text: Seq<char>, body: Seq<char>) -> Seq<char> {
    what + " failed: "@ + status_text + " - "@ + body
}

/// The error for a request the server refused.
pub fn request_failed(what: &str, status_text: &str, body: &str) -> (r: Error)
    ensures
        r matches Error::Server(m) && m@ == request_failure_text(what@, status_text@, body@),
{
    let mut v = chars_of(what);
    extend_str(&mut v, " failed: ");
    extend_str(&mut v, status_text);
    extend_str(&mut v, " - ");
    extend_str(&mut v, body);
    Error::Server(string_of(&v))
}

/// The error for an event REPORT a calendar refused.
pub fn event_report_failed(calendar_id: &str, status_text: &str, body: &str) -> (r: Error)
    ensures
        r matches Error::Server(m) && m@ == "CalDAV event REPORT failed for calendar "@ + calendar_id@ + ": "@
            + status_text@ + " - "@ + body@,
{
    let mut v = chars_of("CalDAV event REPORT failed for calendar ");
    extend_str(&mut v, calendar_id);
    extend_str(&mut v, ": ");
    extend_str(&mut v, status_text);
    extend_str(&mut v, " - ");
    extend_str(&mut v, body);
    Error::Server(string_of(&v))
}

/// The calendar home a discovery answer names; an error when it names none.
pub fn calendar_home_from(found: Result<Option<String>, Error>) -> (r: Result<String, Error>)
    ensures
        match found {
            Ok(Some(h)) => r matches Ok(x) && x@ == h@,
            Ok(None) => r matches Err(Error::Server(m)) && m@ == "CalDAV calendar-home-set missing in discovery"@,
            Err(e) => r == Err::<String, Error>(e),
        },
{
    match found {
        Ok(Some(h)) => Ok(h),
        Ok(None) => Err(Error::Server("CalDAV calendar-home-set missing in discovery".to_string())),
        Err(e) => Err(e),
    }
}

} // verus!
