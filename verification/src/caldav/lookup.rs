//! Picking calendars and events out of what the server listed, and where a
//! calendar home is when the server does not say.
use vstd::prelude::*;
use crate::caldav::{Calendar, CalendarEvent, CalendarModel, EventModel, clone_event};
use crate::caldav::dav::events_view;
use crate::caldav::responses::{
    calendars_view, clone_calendar, events_in, events_readable, parse_events_response,
    events_response_readable,
};
use crate::error::Error;
use crate::text::{chars_of, eq_chars, extend_str, string_of};
use crate::xml::xml_document;

verus! {

/// Index of the first calendar marked default.
pub open spec fn first_default(cs: Seq<CalendarModel>) -> Option<int>
    decreases cs.len(),
{
    if cs.len() == 0 {
        None
    } else if cs[0].is_default {
        Some(0)
    } else {
        match first_default(cs.drop_first()) {
            Some(k) => Some(k + 1),
            None => None,
        }
    }
}

/// Index of the first calendar with the id.
pub open spec fn first_with_calendar_id(cs: Seq<CalendarModel>, id: Seq<char>) -> Option<int>
    decreases cs.len(),
{
    if cs.len() == 0 {
        None
    } else if cs[0].id == id {
        Some(0)
    } else {
        match first_with_calendar_id(cs.drop_first(), id) {
            Some(k) => Some(k + 1),
            None => None,
        }
    }
}

/// Index of the first event with the id.
pub open spec fn first_with_event_id(es: Seq<EventModel>, id: Seq<char>) -> Option<int>
    decreases es.len(),
{
    if es.len() == 0 {
        None
    } else if es[0].id == id {
        Some(0)
    } else {
        match first_with_event_id(es.drop_first(), id) {
            Some(k) => Some(k + 1),
            None => None,
        }
    }
}

proof fn lemma_first_default_step(cs: Seq<CalendarModel>, i: int)
    requires
        0 <= i < cs.len(),
    ensures
        first_default(cs.skip(i)) == if cs[i].is_default {
            Some(0int)
        } else {
            match first_default(cs.skip(i + 1)) {
                Some(k) => Some(k + 1),
                None => None,
            }
        },
{
    assert(cs.skip(i)[0] == cs[i]);
    assert(cs.skip(i).drop_first() =~= cs.skip(i + 1));
}

fn default_index(calendars: &Vec<Calendar>) -> (r: Option<usize>)
    ensures
        match r {
            Some(k) => first_default(calendars_view(calendars@)) == Some(k as int) && k < calendars@.len(),
            None => first_default(calendars_view(calendars@)) is None,
        },
{
    let ghost cv = calendars_view(calendars@);
    let mut i: usize = calendars.len();
    let mut found: Option<usize> = None;
    assert(cv.skip(cv.len() as int) =~= Seq::<CalendarModel>::empty());
    while i > 0
        invariant
            i <= calendars@.len(),
            cv == calendars_view(calendars@),
            match found {
                Some(k) => first_default(cv.skip(i as int)) == Some(k - i),
                None => first_default(cv.skip(i as int)) is None,
            },
            found matches Some(k) ==> i <= k < calendars@.len(),
        decreases i,
    {
        i = i - 1;
        proof {
            lemma_first_default_step(cv, i as int);
        }
        assert(cv[i as int] == calendars@[i as int]@);
        if calendars[i].is_default {
            found = Some(i);
        }
    }
    assert(cv.skip(0) =~= cv);
    found
}

/// The calendar new events go to: the first one marked default, else the
/// first one; an error when there is none.
pub fn choose_default_calendar(calendars: &Vec<Calendar>) -> (r: Result<Calendar, Error>)
    ensures
        match r {
            Ok(c) => c@ == match first_default(calendars_view(calendars@)) {
                Some(k) => calendars@[k]@,
                None => calendars@[0]@,
            } && calendars@.len() > 0,
            Err(e) => calendars@.len() == 0 && (e matches Error::Server(m) && m@ == "No calendars found"@),
        },
{
    match default_index(calendars) {
        Some(k) => Ok(clone_calendar(&calendars[k])),
        None => {
            if calendars.len() > 0 {
                Ok(clone_calendar(&calendars[0]))
            } else {
                Err(Error::Server("No calendars found".to_string()))
            }
        },
    }
}

/// The calendar with the id; an error naming the id when there is none.
pub fn find_calendar(calendars: &Vec<Calendar>, calendar_id: &str) -> (r: Result<Calendar, Error>)
    ensures
        match first_with_calendar_id(calendars_view(calendars@), calendar_id@) {
            Some(k) => 0 <= k < calendars@.len() && (r matches Ok(c) && c@ == calendars@[k]@),
            None => r matches Err(Error::CalendarNotFound(id)) && id@ == calendar_id@,
        },
{
    let ghost cv = calendars_view(calendars@);
    let want = chars_of(calendar_id);
    let mut i: usize = 0;
    assert(cv.skip(0) =~= cv);
    while i < calendars.len()
        invariant
            i <= calendars@.len(),
            cv == calendars_view(calendars@),
            want@ == calendar_id@,
            first_with_calendar_id(cv, calendar_id@) == match first_with_calendar_id(cv.skip(i as int), calendar_id@) {
                Some(k) => Some(k + i),
                None => None,
            },
        decreases calendars.len() - i,
    {
        assert(cv.skip(i as int)[0] == cv[i as int]);
        assert(cv.skip(i as int).drop_first() =~= cv.skip(i + 1));
        assert(cv[i as int] == calendars@[i as int]@);
        let id = chars_of(calendars[i].id.as_str());
        if eq_chars(&id, &want) {
            return Ok(clone_calendar(&calendars[i]));
        }
        i = i + 1;
    }
    assert(cv.skip(i as int) =~= Seq::<CalendarModel>::empty());
    Err(Error::CalendarNotFound(calendar_id.to_string()))
}

/// The first event with the id.
pub fn find_event(events: &Vec<CalendarEvent>, event_id: &str) -> (r: Option<CalendarEvent>)
    ensures
        match first_with_event_id(events_view(events@), event_id@) {
            Some(k) => 0 <= k < events@.len() && (r matches Some(e) && e@ == events@[k]@),
            None => r is None,
        },
{
    let ghost ev = events_view(events@);
    let want = chars_of(event_id);
    let mut i: usize = 0;
    assert(ev.skip(0) =~= ev);
    while i < events.len()
        invariant
            i <= events@.len(),
            ev == events_view(events@),
            want@ == event_id@,
            first_with_event_id(ev, event_id@) == match first_with_event_id(ev.skip(i as int), event_id@) {
                Some(k) => Some(k + i),
                None => None,
            },
        decreases events.len() - i,
    {
        assert(ev.skip(i as int)[0] == ev[i as int]);
        assert(ev.skip(i as int).drop_first() =~= ev.skip(i + 1));
        assert(ev[i as int] == events@[i as int]@);
        let id = chars_of(events[i].id.as_str());
        if eq_chars(&id, &want) {
            return Some(clone_event(&events[i]));
        }
        i = i + 1;
    }
    assert(ev.skip(i as int) =~= Seq::<EventModel>::empty());
    None
}

// ===================== Looking an event up by UID =====================

/// What the UID REPORTs sent to each calendar tell: the event, that the
/// server cannot answer them and every calendar must be listed instead, or
/// that no calendar holds it.
pub enum UidLookup {
    Found(CalendarEvent),
    FullFetch,
    NotFound,
}

/// The server does not support the REPORT (400 or 501).
pub open spec fn report_unsupported(status: u16) -> bool {
    status == 400 || status == 501
}

/// The event with the id that one REPORT answer holds.
pub open spec fn event_in_report(report: Result<(u16, String, Calendar), Error>, id: Seq<char>) -> Option<EventModel> {
    match report {
        Ok((status, text, calendar)) => if !report_unsupported(status) && 200 <= status < 300 {
            match xml_document(text@) {
                Ok(nodes) => {
                    let es = events_in(nodes, nodes.len() as int, calendar@);
                    match first_with_event_id(es, id) {
                        Some(k) => Some(es[k]),
                        None => None,
                    }
                },
                Err(_) => None,
            }
        } else {
            None
        },
        Err(_) => None,
    }
}

/// The outcome of the REPORT answers `rs`, as models: the event from the
/// first answer holding it, else a full fetch when some answer says the
/// REPORT is unsupported, else not found.
pub open spec fn uid_outcome(rs: Seq<Result<(u16, String, Calendar), Error>>, id: Seq<char>) -> Option<Option<EventModel>>
    decreases rs.len(),
{
    if rs.len() == 0 {
        Some(None)
    } else {
        match event_in_report(rs[0], id) {
            Some(e) => Some(Some(e)),
            None => {
                let rest = uid_outcome(rs.drop_first(), id);
                match rs[0] {
                    Ok((status, _, _)) => if report_unsupported(status) && !(rest matches Some(Some(_))) {
                        None
                    } else {
                        rest
                    },
                    Err(_) => rest,
                }
            },
        }
    }
}

/// Every answer that would be read can be read.
pub open spec fn reports_readable(rs: Seq<Result<(u16, String, Calendar), Error>>) -> bool {
    forall|i: int|
        0 <= i < rs.len() ==> match #[trigger] rs[i] {
            Ok((status, text, _)) => !report_unsupported(status) && 200 <= status < 300 ==> events_readable(text@),
            Err(_) => true,
        }
}

/// The outcome as a model: `Some(Some(e))` found, `None` full fetch,
/// `Some(None)` not found.
pub open spec fn lookup_view(l: UidLookup) -> Option<Option<EventModel>> {
    match l {
        UidLookup::Found(e) => Some(Some(e@)),
        UidLookup::FullFetch => None,
        UidLookup::NotFound => Some(None),
    }
}

/// Decide what the UID REPORTs sent to each calendar found.
pub fn resolve_uid_reports(reports: &Vec<Result<(u16, String, Calendar), Error>>, event_id: &str) -> (r: UidLookup)
    requires
        reports_readable(reports@),
    ensures
        lookup_view(r) == uid_outcome(reports@, event_id@),
{
    let ghost rv = reports@;
    let mut i: usize = reports.len();
    let mut found: Option<CalendarEvent> = None;
    let mut fallback = false;
    assert(rv.skip(rv.len() as int) =~= Seq::<Result<(u16, String, Calendar), Error>>::empty());
    // Scanned from the back: the outcome of reports[i..] is known at each step.
    while i > 0
        invariant
            i <= rv.len(),
            rv == reports@,
            reports_readable(rv),
            uid_outcome(rv.skip(i as int), event_id@) == match found {
                Some(e) => Some(Some(e@)),
                None => if fallback {
                    None
                } else {
                    Some(None::<EventModel>)
                },
            },
        decreases i,
    {
        i = i - 1;
        assert(rv.skip(i as int)[0] == rv[i as int]);
        assert(rv.skip(i as int).drop_first() =~= rv.skip(i + 1));
        let ghost rest = uid_outcome(rv.skip(i + 1), event_id@);
        assert(uid_outcome(rv.skip(i as int), event_id@) == match event_in_report(rv[i as int], event_id@) {
            Some(e) => Some(Some(e)),
            None => match rv[i as int] {
                Ok((status, _, _)) => if report_unsupported(status) && !(rest matches Some(Some(_))) {
                    None
                } else {
                    rest
                },
                Err(_) => rest,
            },
        });
        match &reports[i] {
            Ok((status, text, calendar)) => {
                let status = *status;
                if status == 400 || status == 501 {
                    if found.is_none() {
                        fallback = true;
                    }
                } else if 200 <= status && status < 300 {
                    assert(events_readable(text@));
                    match parse_events_response(text.as_str(), calendar) {
                        Ok(events) => match find_event(&events, event_id) {
                            Some(e) => {
                                assert(event_in_report(rv[i as int], event_id@) == Some(e@));
                                found = Some(e);
                            },
                            None => {
                                assert(event_in_report(rv[i as int], event_id@) is None);
                            },
                        },
                        Err(_) => {
                            assert(event_in_report(rv[i as int], event_id@) is None);
                        },
                    }
                } else {
                    assert(event_in_report(rv[i as int], event_id@) is None);
                }
            },
            Err(_) => {},
        }
    }
    assert(rv.skip(0) =~= rv);
    match found {
        Some(e) => UidLookup::Found(e),
        None => if fallback {
            UidLookup::FullFetch
        } else {
            UidLookup::NotFound
        },
    }
}

/// `reports_readable`, checked.
pub fn uid_reports_readable(reports: &Vec<Result<(u16, String, Calendar), Error>>) -> (r: bool)
    ensures
        r == reports_readable(reports@),
{
    for i in 0..reports.len()
        invariant
            forall|j: int|
                0 <= j < i ==> match #[trigger] reports@[j] {
                    Ok((status, text, _)) => !report_unsupported(status) && 200 <= status < 300 ==> events_readable(text@),
                    Err(_) => true,
                },
    {
        match &reports[i] {
            Ok((status, text, _)) => {
                let status = *status;
                if status != 400 && status != 501 && 200 <= status && status < 300 {
                    if !events_response_readable(text.as_str()) {
                        return false;
                    }
                }
            },
            Err(_) => {},
        }
    }
    true
}

/// Decide what the UID REPORTs found, or `None` when an answer holds a
/// TRIGGER too large for `i32` and cannot be read.
pub fn resolve_uid_reports_checked(reports: &Vec<Result<(u16, String, Calendar), Error>>, event_id: &str) -> (r: Option<UidLookup>)
    ensures
        r is None <==> !reports_readable(reports@),
        r matches Some(l) ==> lookup_view(l) == uid_outcome(reports@, event_id@),
{
    if uid_reports_readable(reports) {
        Some(resolve_uid_reports(reports, event_id))
    } else {
        None
    }
}

// ===================== Calendar homes =====================

/// The principal of a user, where the calendar home is asked for.
pub open spec fn principal_href_of(username: Seq<char>) -> Seq<char> {
    "/dav/principals/user/"@ + username + "/"@
}

/// The principal of a user.
pub fn principal_href(username: &str) -> (r: String)
    ensures
        r@ == principal_href_of(username@),
{
    let mut v: Vec<char> = Vec::new();
    extend_str(&mut v, "/dav/principals/user/");
    extend_str(&mut v, username);
    extend_str(&mut v, "/");
    string_of(&v)
}

/// The calendar home assumed when the principal does not name one.
pub open spec fn fallback_home_of(username: Seq<char>) -> Seq<char> {
    "/dav/calendars/user/"@ + username + "/"@
}

/// The calendar home assumed when the principal does not name one.
pub fn fallback_calendar_home(username: &str) -> (r: String)
    ensures
        r@ == fallback_home_of(username@),
{
    let mut v: Vec<char> = Vec::new();
    extend_str(&mut v, "/dav/calendars/user/");
    extend_str(&mut v, username);
    extend_str(&mut v, "/");
    string_of(&v)
}

} // verus!
