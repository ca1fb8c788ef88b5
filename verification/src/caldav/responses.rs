//! Reading the multistatus answers of the CalDAV server.
use vstd::prelude::*;
use crate::carddav::{clone_opt, opt_view};
use crate::caldav::{Calendar, CalendarEvent, CalendarModel, EventModel};
use crate::caldav::dav::events_view;
use crate::caldav::clock::{chrono_utc_format, format_utc, in_chrono, timestamp_of};
use crate::caldav::recurrence::{SECOND_NS, expand_event_for_range, expansion_read, seconds_of};
use crate::caldav::ical::{event_of, ical_is_readable, ical_readable, parse_ical_event};
use crate::caldav::dav::{resource_id, resource_id_from_href};
use crate::error::Error;
use crate::text::{
    chars_lt, chars_of, contains, contains_seq, eq_ignore_ascii_case, eq_ignore_case_str, extend_str,
    lemma_seq_lt_irreflexive, lemma_seq_lt_transitive, parse_u32, parse_u32_chars, seq_lt, string_of, to_lowercase, unicode_lower,
};
use crate::xml::{
    APPLE_ICAL_NS, CALDAV_NS, DAV_NS, XmlNode, XmlNodeModel, find_named, find_tag, first_named_in,
    first_tag_in, has_tag, is_tag, lemma_first_named_in_range, lemma_first_tag_in_range, nodes_view,
    parse_xml, subtree_has, subtree_tag, subtree_text, text_in_subtree, well_nested, xml_document,
};

verus! {

/// The message for a document that does not parse.
pub open spec fn xml_failure(detail: Seq<char>) -> Seq<char> {
    "Failed to parse XML: "@ + detail
}

pub(crate) fn xml_error(detail: &String) -> (r: Error)
    ensures
        r matches Error::Server(m) && m@ == xml_failure(detail@),
{
    let mut v: Vec<char> = Vec::new();
    extend_str(&mut v, "Failed to parse XML: ");
    extend_str(&mut v, detail.as_str());
    Error::Server(string_of(&v))
}

/// A text or the empty text.
pub open spec fn text_or_empty(o: Option<Seq<char>>) -> Seq<char> {
    match o {
        Some(t) => t,
        None => seq![],
    }
}

// ===================== Calendar home =====================

/// The calendar home a PROPFIND answer names: the text of the first `href`
/// inside the first `calendar-home-set`.
pub open spec fn calendar_home(nodes: Seq<XmlNodeModel>) -> Option<Seq<char>> {
    match first_tag_in(nodes, 0, nodes.len() as int, CALDAV_NS@, "calendar-home-set"@) {
        Some(j) => subtree_text(nodes, j, DAV_NS@, "href"@),
        None => None,
    }
}

/// Read the calendar-home-set of a PROPFIND answer.
pub fn parse_calendar_home_response(xml: &str) -> (r: Result<Option<String>, Error>)
    ensures
        match xml_document(xml@) {
            Ok(nodes) => r matches Ok(h) && opt_view(h) == calendar_home(nodes),
            Err(e) => r matches Err(Error::Server(m)) && m@ == xml_failure(e),
        },
{
    let nodes = match parse_xml(xml) {
        Ok(n) => n,
        Err(e) => {
            return Err(xml_error(&e));
        },
    };
    proof {
        lemma_first_tag_in_range(nodes_view(nodes@), 0, nodes@.len() as int, CALDAV_NS@, "calendar-home-set"@);
    }
    match find_tag(&nodes, 0, nodes.len(), CALDAV_NS, "calendar-home-set") {
        Some(j) => Ok(text_in_subtree(&nodes, j, DAV_NS, "href")),
        None => Ok(None),
    }
}

// ===================== Calendars =====================

/// The calendar a `response` element at node `i` describes, whether its
/// href or name marks it as the likely default, and its `calendar-order`;
/// `None` when it is not a calendar or has no href.
pub open spec fn calendar_at(nodes: Seq<XmlNodeModel>, i: int) -> Option<(CalendarModel, bool, Option<u32>)> {
    let href = text_or_empty(subtree_text(nodes, i, DAV_NS@, "href"@));
    let is_calendar = subtree_tag(nodes, i, CALDAV_NS@, "calendar"@) is Some;
    if !is_calendar || href.len() == 0 {
        None
    } else {
        let name = match subtree_text(nodes, i, DAV_NS@, "displayname"@) {
            Some(n) => n,
            None => resource_id(href),
        };
        let ctag = match first_named_in(nodes, i, i + nodes[i].extent, "getctag"@) {
            Some(j) => nodes[j].text,
            None => None,
        };
        let order = match subtree_text(nodes, i, APPLE_ICAL_NS@, "calendar-order"@) {
            Some(t) => parse_u32(t),
            None => None,
        };
        let likely = contains_seq(href, "/Default/"@) || eq_ignore_ascii_case(name, "default"@)
            || eq_ignore_ascii_case(name, "calendar"@);
        Some(
            (
                CalendarModel {
                    id: resource_id(href),
                    name,
                    color: subtree_text(nodes, i, APPLE_ICAL_NS@, "calendar-color"@),
                    description: subtree_text(nodes, i, APPLE_ICAL_NS@, "calendar-description"@),
                    href,
                    etag: subtree_text(nodes, i, DAV_NS@, "getetag"@),
                    ctag,
                    is_default: false,
                },
                likely,
                order,
            ),
        )
    }
}

/// Calendars read so far, the id of the default candidate and the lowest
/// `calendar-order` seen among candidates chosen by order.
pub struct CalendarScan {
    pub calendars: Seq<CalendarModel>,
    pub default_id: Option<Seq<char>>,
    pub best_order: Option<u32>,
}

/// Effect of node `i` on the calendar scan.
pub open spec fn calendar_step(s: CalendarScan, nodes: Seq<XmlNodeModel>, i: int) -> CalendarScan {
    if !has_tag(nodes[i], DAV_NS@, "response"@) {
        s
    } else {
        match calendar_at(nodes, i) {
            None => s,
            Some((c, likely, order)) => {
                let calendars = s.calendars.push(c);
                if likely {
                    CalendarScan { calendars, default_id: Some(c.id), best_order: s.best_order }
                } else {
                    match order {
                        Some(o) => if s.best_order is None || o < s.best_order->0 {
                            CalendarScan { calendars, default_id: Some(c.id), best_order: Some(o) }
                        } else {
                            CalendarScan { calendars, ..s }
                        },
                        None => CalendarScan { calendars, ..s },
                    }
                }
            },
        }
    }
}

/// The calendar scan over nodes `0..k`.
pub open spec fn calendar_scan(nodes: Seq<XmlNodeModel>, k: int) -> CalendarScan
    decreases k,
{
    if k <= 0 {
        CalendarScan { calendars: seq![], default_id: None, best_order: None }
    } else {
        calendar_step(calendar_scan(nodes, k - 1), nodes, k - 1)
    }
}

/// Where a calendar goes among calendars sorted by lower-cased name: before
/// the first one whose key is greater, so equal keys keep their order.
pub open spec fn insert_position(sorted: Seq<CalendarModel>, key: Seq<char>) -> int
    decreases sorted.len(),
{
    if sorted.len() == 0 {
        0
    } else if seq_lt(key, unicode_lower(sorted[0].name)) {
        0
    } else {
        1 + insert_position(sorted.drop_first(), key)
    }
}

/// The calendars stably sorted by lower-cased name (`sort_by` on `to_lowercase`).
pub open spec fn sort_by_name(cs: Seq<CalendarModel>) -> Seq<CalendarModel>
    decreases cs.len(),
{
    if cs.len() == 0 {
        seq![]
    } else {
        let sorted = sort_by_name(cs.drop_last());
        let x = cs.last();
        let k = insert_position(sorted, unicode_lower(x.name));
        sorted.take(k).push(x) + sorted.skip(k)
    }
}

/// Index of the first calendar with id `id`.
pub open spec fn index_of_id(cs: Seq<CalendarModel>, id: Seq<char>) -> Option<int>
    decreases cs.len(),
{
    if cs.len() == 0 {
        None
    } else if cs[0].id == id {
        Some(0)
    } else {
        match index_of_id(cs.drop_first(), id) {
            Some(k) => Some(k + 1),
            None => None,
        }
    }
}

/// The calendars with the default marked: the candidate when there is one,
/// otherwise the first.
pub open spec fn mark_default(cs: Seq<CalendarModel>, default_id: Option<Seq<char>>) -> Seq<CalendarModel> {
    let k = match default_id {
        Some(d) => match index_of_id(cs, d) {
            Some(k) => k,
            None => 0,
        },
        None => 0,
    };
    if 0 <= k < cs.len() {
        cs.update(k, CalendarModel { is_default: true, ..cs[k] })
    } else {
        cs
    }
}

/// The calendars a PROPFIND answer lists, sorted by name, one marked default.
pub open spec fn calendars_of(nodes: Seq<XmlNodeModel>) -> Seq<CalendarModel> {
    let s = calendar_scan(nodes, nodes.len() as int);
    mark_default(sort_by_name(s.calendars), s.default_id)
}

/// Models of a list of calendars.
pub open spec fn calendars_view(v: Seq<Calendar>) -> Seq<CalendarModel> {
    v.map_values(|c: Calendar| c@)
}

fn calendar_from(nodes: &Vec<XmlNode>, i: usize) -> (r: Option<(Calendar, bool, Option<u32>)>)
    requires
        i < nodes.len(),
        well_nested(nodes_view(nodes@)),
    ensures
        match r {
            Some((c, likely, order)) => calendar_at(nodes_view(nodes@), i as int) == Some((c@, likely, order)),
            None => calendar_at(nodes_view(nodes@), i as int) is None,
        },
{
    let ghost nv = nodes_view(nodes@);
    let href = match text_in_subtree(nodes, i, DAV_NS, "href") {
        Some(h) => h,
        None => String::new(),
    };
    let is_calendar = subtree_has(nodes, i, CALDAV_NS, "calendar");
    if !is_calendar || href.as_str().is_empty() {
        return None;
    }
    let name = match text_in_subtree(nodes, i, DAV_NS, "displayname") {
        Some(n) => n,
        None => resource_id_from_href(href.as_str()),
    };
    assert(nv[i as int] == nodes@[i as int]@);
    let hi = i + nodes[i].extent;
    proof {
        lemma_first_named_in_range(nv, i as int, hi as int, "getctag"@);
    }
    let ctag = match find_named(nodes, i, hi, "getctag") {
        Some(j) => {
            assert(nv[j as int] == nodes@[j as int]@);
            clone_opt(&nodes[j].text)
        },
        None => None,
    };
    let order = match text_in_subtree(nodes, i, APPLE_ICAL_NS, "calendar-order") {
        Some(t) => parse_u32_chars(&chars_of(t.as_str())),
        None => None,
    };
    let hc = chars_of(href.as_str());
    let nc = chars_of(name.as_str());
    let likely = contains(&hc, "/Default/") || eq_ignore_case_str(&nc, "default") || eq_ignore_case_str(
        &nc,
        "calendar",
    );
    let c = Calendar {
        id: resource_id_from_href(href.as_str()),
        name,
        color: text_in_subtree(nodes, i, APPLE_ICAL_NS, "calendar-color"),
        description: text_in_subtree(nodes, i, APPLE_ICAL_NS, "calendar-description"),
        href,
        etag: text_in_subtree(nodes, i, DAV_NS, "getetag"),
        ctag,
        is_default: false,
    };
    Some((c, likely, order))
}

pub(crate) fn clone_calendar(c: &Calendar) -> (r: Calendar)
    ensures
        r@ == c@,
{
    Calendar {
        id: c.id.clone(),
        name: c.name.clone(),
        color: clone_opt(&c.color),
        description: clone_opt(&c.description),
        href: c.href.clone(),
        etag: clone_opt(&c.etag),
        ctag: clone_opt(&c.ctag),
        is_default: c.is_default,
    }
}

proof fn lemma_insert_position_bound(sorted: Seq<CalendarModel>, key: Seq<char>)
    ensures
        0 <= insert_position(sorted, key) <= sorted.len(),
    decreases sorted.len(),
{
    if sorted.len() > 0 && !seq_lt(key, unicode_lower(sorted[0].name)) {
        lemma_insert_position_bound(sorted.drop_first(), key);
    }
}

/// Where a calendar with lower-cased name `key` goes among `sorted`, whose
/// lower-cased names are `keys`.
fn find_insert_position(keys: &Vec<Vec<char>>, sorted: Ghost<Seq<CalendarModel>>, key: &Vec<char>) -> (r: usize)
    requires
        keys@.len() == sorted@.len(),
        forall|j: int| 0 <= j < keys@.len() ==> (#[trigger] keys@[j])@ == unicode_lower(sorted@[j].name),
    ensures
        r as int == insert_position(sorted@, key@),
{
    let ghost s = sorted@;
    let mut p: usize = 0;
    assert(s.skip(0) == s);
    while p < keys.len() && !chars_lt(key, &keys[p])
        invariant
            p <= keys@.len(),
            keys@.len() == s.len(),
            forall|j: int| 0 <= j < keys@.len() ==> (#[trigger] keys@[j])@ == unicode_lower(s[j].name),
            insert_position(s, key@) == p + insert_position(s.skip(p as int), key@),
        decreases keys.len() - p,
    {
        assert(s.skip(p as int)[0] == s[p as int]);
        assert(s.skip(p as int).drop_first() == s.skip(p + 1));
        p = p + 1;
    }
    if p < keys.len() {
        assert(s.skip(p as int)[0] == s[p as int]);
    }
    p
}

/// Read the calendars of a PROPFIND answer: every `response` with a
/// `calendar` resource type and an href, sorted by lower-cased name, the
/// likely default (or else the lowest `calendar-order`, or else the first)
/// marked as default.
pub fn parse_calendars_response(xml: &str) -> (r: Result<Vec<Calendar>, Error>)
    ensures
        match xml_document(xml@) {
            Ok(nodes) => r matches Ok(cs) && calendars_view(cs@) == calendars_of(nodes),
            Err(e) => r matches Err(Error::Server(m)) && m@ == xml_failure(e),
        },
{
    let nodes = match parse_xml(xml) {
        Ok(n) => n,
        Err(e) => {
            return Err(xml_error(&e));
        },
    };
    let ghost nv = nodes_view(nodes@);
    // Scan the responses.
    let mut cals: Vec<Calendar> = Vec::new();
    let mut default_id: Option<String> = None;
    let mut best_order: Option<u32> = None;
    assert(calendars_view(cals@) =~= Seq::<CalendarModel>::empty());
    for i in 0..nodes.len()
        invariant
            nv == nodes_view(nodes@),
            well_nested(nv),
            ({
                let s = calendar_scan(nv, i as int);
                calendars_view(cals@) == s.calendars && opt_view(default_id) == s.default_id
                    && best_order == s.best_order
            }),
    {
        assert(nv[i as int] == nodes@[i as int]@);
        if is_tag(&nodes[i], DAV_NS, "response") {
            match calendar_from(&nodes, i) {
                Some((c, likely, order)) => {
                    let id = c.id.clone();
                    let ghost before = cals@;
                    cals.push(c);
                    assert(calendars_view(cals@) =~= calendars_view(before).push(c@));
                    if likely {
                        default_id = Some(id);
                    } else {
                        match order {
                            Some(o) => {
                                let better = match best_order {
                                    Some(b) => o < b,
                                    None => true,
                                };
                                if better {
                                    best_order = Some(o);
                                    default_id = Some(id);
                                }
                            },
                            None => {},
                        }
                    }
                },
                None => {},
            }
        }
    }
    // Sort by lower-cased name (stable insertion).
    let ghost unsorted = calendars_view(cals@);
    let mut sorted: Vec<Calendar> = Vec::new();
    let mut keys: Vec<Vec<char>> = Vec::new();
    assert(unsorted.take(0) =~= Seq::<CalendarModel>::empty());
    assert(calendars_view(sorted@) =~= Seq::<CalendarModel>::empty());
    for i in 0..cals.len()
        invariant
            unsorted == calendars_view(cals@),
            calendars_view(sorted@) == sort_by_name(unsorted.take(i as int)),
            keys@.len() == sorted@.len(),
            forall|j: int| 0 <= j < keys@.len() ==> (#[trigger] keys@[j])@ == unicode_lower(sorted@[j]@.name),
    {
        assert(unsorted.take(i + 1).drop_last() =~= unsorted.take(i as int));
        assert(unsorted.take(i + 1).last() == cals@[i as int]@);
        let c = clone_calendar(&cals[i]);
        let key_s = to_lowercase(c.name.as_str());
        let key = chars_of(key_s.as_str());
        let ghost sv = calendars_view(sorted@);
        assert(forall|j: int| 0 <= j < keys@.len() ==> (#[trigger] keys@[j])@ == unicode_lower(sv[j].name));
        let p = find_insert_position(&keys, Ghost(sv), &key);
        proof {
            lemma_insert_position_bound(sv, key@);
        }
        let ghost old_sorted = sorted@;
        let ghost old_keys = keys@;
        sorted.insert(p, c);
        keys.insert(p, key);
        assert(calendars_view(sorted@) =~= sv.take(p as int).push(c@) + sv.skip(p as int));
        assert forall|j: int| 0 <= j < keys@.len() implies (#[trigger] keys@[j])@ == unicode_lower(sorted@[j]@.name) by {
            if j < p {
                assert(keys@[j] == old_keys[j]);
                assert(sorted@[j] == old_sorted[j]);
            } else if j > p {
                assert(keys@[j] == old_keys[j - 1]);
                assert(sorted@[j] == old_sorted[j - 1]);
            }
        }
    }
    assert(unsorted.take(cals.len() as int) =~= unsorted);
    // Mark the default.
    let ghost sv = calendars_view(sorted@);
    let mut k: usize = 0;
    assert(sv.len() == sorted@.len());
    match &default_id {
        Some(d) => {
            let mut j: usize = 0;
            assert(sv.skip(0) == sv);
            while j < sorted.len() && !same_string(&sorted[j].id, d)
                invariant
                    j <= sorted.len(),
                    sv == calendars_view(sorted@),
                    sv.len() == sorted@.len(),
                    index_of_id(sv, d@) == match index_of_id(sv.skip(j as int), d@) {
                        Some(x) => Some(x + j),
                        None => None,
                    },
                decreases sorted.len() - j,
            {
                assert(sv.skip(j as int)[0] == sorted@[j as int]@);
                assert(sv.skip(j as int).drop_first() == sv.skip(j + 1));
                j = j + 1;
            }
            if j < sorted.len() {
                assert(sv.skip(j as int)[0] == sorted@[j as int]@);
                assert(index_of_id(sv.skip(j as int), d@) == Some(0int));
                k = j;
            } else {
                assert(sv.skip(j as int).len() == 0);
                assert(index_of_id(sv.skip(j as int), d@) is None);
            }
        },
        None => {},
    }
    assert(k as int == match opt_view(default_id) {
        Some(d) => match index_of_id(sv, d) {
            Some(x) => x,
            None => 0,
        },
        None => 0,
    });
    if k < sorted.len() {
        let ghost before = sorted@;
        sorted[k].is_default = true;
        assert(calendars_view(sorted@) =~= sv.update(k as int, CalendarModel { is_default: true, ..sv[k as int] }));
    }
    assert(calendars_view(sorted@) == mark_default(sv, opt_view(default_id)));
    Ok(sorted)
}

fn same_string(a: &String, b: &String) -> (r: bool)
    ensures
        r == (a@ == b@),
{
    let x = chars_of(a.as_str());
    let y = chars_of(b.as_str());
    crate::text::eq_chars(&x, &y)
}


// ===================== Events =====================

/// Every `calendar-data` of a REPORT answer can be read by `parse_ical_event`.
pub open spec fn events_readable(xml: Seq<char>) -> bool {
    match xml_document(xml) {
        Ok(nodes) => forall|i: int|
            0 <= i < nodes.len() && has_tag(nodes[i], DAV_NS@, "response"@) && #[trigger] subtree_text(
                nodes,
                i,
                CALDAV_NS@,
                "calendar-data"@,
            ) is Some ==> ical_readable(subtree_text(nodes, i, CALDAV_NS@, "calendar-data"@)->0),
        Err(_) => true,
    }
}

/// The event a `response` element at node `i` carries, if its calendar data describes one.
pub open spec fn event_at(nodes: Seq<XmlNodeModel>, i: int, calendar: CalendarModel) -> Option<EventModel> {
    if !has_tag(nodes[i], DAV_NS@, "response"@) {
        None
    } else {
        match subtree_text(nodes, i, CALDAV_NS@, "calendar-data"@) {
            Some(t) => event_of(
                t,
                subtree_text(nodes, i, DAV_NS@, "href"@),
                subtree_text(nodes, i, DAV_NS@, "getetag"@),
                calendar.id,
                Some(calendar.name),
            ),
            None => None,
        }
    }
}

/// The events of the responses among nodes `0..k`, in order.
pub open spec fn events_in(nodes: Seq<XmlNodeModel>, k: int, calendar: CalendarModel) -> Seq<EventModel>
    decreases k,
{
    if k <= 0 {
        seq![]
    } else {
        let rest = events_in(nodes, k - 1, calendar);
        match event_at(nodes, k - 1, calendar) {
            Some(e) => rest.push(e),
            None => rest,
        }
    }
}

/// Read the events of a calendar-query REPORT answer for a calendar.
pub fn parse_events_response(xml: &str, calendar: &Calendar) -> (r: Result<Vec<CalendarEvent>, Error>)
    requires
        events_readable(xml@),
    ensures
        match xml_document(xml@) {
            Ok(nodes) => r matches Ok(v) && events_view(v@) == events_in(nodes, nodes.len() as int, calendar@),
            Err(e) => r matches Err(Error::Server(m)) && m@ == xml_failure(e),
        },
{
    let nodes = match parse_xml(xml) {
        Ok(n) => n,
        Err(e) => {
            return Err(xml_error(&e));
        },
    };
    let ghost nv = nodes_view(nodes@);
    let mut events: Vec<CalendarEvent> = Vec::new();
    assert(events_view(events@) =~= Seq::<EventModel>::empty());
    for i in 0..nodes.len()
        invariant
            nv == nodes_view(nodes@),
            well_nested(nv),
            events_readable(xml@),
            xml_document(xml@) == Ok::<Seq<XmlNodeModel>, Seq<char>>(nv),
            events_view(events@) == events_in(nv, i as int, calendar@),
    {
        assert(nv[i as int] == nodes@[i as int]@);
        if is_tag(&nodes[i], DAV_NS, "response") {
            let data = text_in_subtree(&nodes, i, CALDAV_NS, "calendar-data");
            match data {
                Some(t) => {
                    assert(subtree_text(nv, i as int, CALDAV_NS@, "calendar-data"@) is Some);
                    let href = text_in_subtree(&nodes, i, DAV_NS, "href");
                    let etag = text_in_subtree(&nodes, i, DAV_NS, "getetag");
                    match parse_ical_event(t.as_str(), href, etag, calendar.id.clone(), Some(calendar.name.clone())) {
                        Some(e) => {
                            let ghost before = events@;
                            events.push(e);
                            assert(events_view(events@) =~= events_view(before).push(e@));
                        },
                        None => {},
                    }
                },
                None => {},
            }
        }
    }
    Ok(events)
}

/// `events_readable`, checked.
pub fn events_response_readable(xml: &str) -> (r: bool)
    ensures
        r == events_readable(xml@),
{
    let nodes = match parse_xml(xml) {
        Ok(n) => n,
        Err(_) => {
            return true;
        },
    };
    let ghost nv = nodes_view(nodes@);
    for i in 0..nodes.len()
        invariant
            nv == nodes_view(nodes@),
            well_nested(nv),
            xml_document(xml@) == Ok::<Seq<XmlNodeModel>, Seq<char>>(nv),
            forall|j: int|
                0 <= j < i && has_tag(nv[j], DAV_NS@, "response"@) && #[trigger] subtree_text(
                    nv,
                    j,
                    CALDAV_NS@,
                    "calendar-data"@,
                ) is Some ==> ical_readable(subtree_text(nv, j, CALDAV_NS@, "calendar-data"@)->0),
    {
        assert(nv[i as int] == nodes@[i as int]@);
        if is_tag(&nodes[i], DAV_NS, "response") {
            match text_in_subtree(&nodes, i, CALDAV_NS, "calendar-data") {
                Some(t) => {
                    if !ical_is_readable(t.as_str()) {
                        return false;
                    }
                },
                None => {},
            }
        }
    }
    true
}

/// Read the events of a REPORT answer, or `None` when some calendar data
/// has a TRIGGER too large for `i32` and cannot be read.
pub fn parse_events_response_checked(xml: &str, calendar: &Calendar) -> (r: Option<Result<Vec<CalendarEvent>, Error>>)
    ensures
        r is None <==> !events_readable(xml@),
        match r {
            Some(res) => match xml_document(xml@) {
                Ok(nodes) => res matches Ok(v) && events_view(v@) == events_in(nodes, nodes.len() as int, calendar@),
                Err(e) => res matches Err(Error::Server(m)) && m@ == xml_failure(e),
            },
            None => true,
        },
{
    if events_response_readable(xml) {
        Some(parse_events_response(xml, calendar))
    } else {
        None
    }
}

// ===================== Events over a range =====================

/// The pieces joined in order.
pub open spec fn concat_all(parts: Seq<Seq<EventModel>>) -> Seq<EventModel>
    decreases parts.len(),
{
    if parts.len() == 0 {
        seq![]
    } else {
        concat_all(parts.drop_last()) + parts.last()
    }
}

/// `out` is the expansion of each event over `[rs, re)`, in order.
pub open spec fn expanded_in_range(events: Seq<EventModel>, rs: int, re: int, out: Seq<EventModel>) -> bool {
    exists|parts: Seq<Seq<EventModel>>|
        parts.len() == events.len() && (forall|k: int|
            0 <= k < events.len() ==> expansion_read(#[trigger] events[k], rs, re, Some(parts[k])))
            && out == concat_all(parts)
}

/// The message when an event cannot be expanded over the range.
pub open spec fn expansion_span_message() -> Seq<char> {
    "A recurring event's dates lie outside the range that can be expanded."@
}

/// Read the events of a calendar-query REPORT answer; with both bounds of a
/// range, each event is replaced by its occurrences in that range.
pub fn parse_events_response_for_range(
    xml: &str,
    calendar: &Calendar,
    range_start: Option<i128>,
    range_end: Option<i128>,
) -> (r: Result<Vec<CalendarEvent>, Error>)
    requires
        events_readable(xml@),
    ensures
        match xml_document(xml@) {
            Err(e) => r matches Err(Error::Server(m)) && m@ == xml_failure(e),
            Ok(nodes) => {
                let evs = events_in(nodes, nodes.len() as int, calendar@);
                match (range_start, range_end) {
                    (Some(a), Some(b)) => match r {
                        Ok(v) => expanded_in_range(evs, a as int, b as int, events_view(v@)),
                        Err(e) => (e matches Error::Config(m) && m@ == expansion_span_message()) && exists|k: int|
                            0 <= k < evs.len() && expansion_read(#[trigger] evs[k], a as int, b as int, None),
                    },
                    _ => r matches Ok(v) && events_view(v@) == evs,
                }
            },
        },
{
    let events = match parse_events_response(xml, calendar) {
        Ok(v) => v,
        Err(e) => {
            return Err(e);
        },
    };
    let (a, b) = match (range_start, range_end) {
        (Some(a), Some(b)) => (a, b),
        _ => {
            return Ok(events);
        },
    };
    let ghost evs = events_view(events@);
    let ghost mut parts: Seq<Seq<EventModel>> = seq![];
    let mut out: Vec<CalendarEvent> = Vec::new();
    assert(events_view(out@) =~= concat_all(parts));
    for i in 0..events.len()
        invariant
            evs == events_view(events@),
            range_start == Some(a),
            range_end == Some(b),
            match xml_document(xml@) {
                Ok(nodes) => evs == events_in(nodes, nodes.len() as int, calendar@),
                Err(_) => false,
            },
            parts.len() == i,
            forall|k: int| 0 <= k < i ==> expansion_read(#[trigger] evs[k], a as int, b as int, Some(parts[k])),
            events_view(out@) == concat_all(parts),
    {
        assert(evs[i as int] == events@[i as int]@);
        match expand_event_for_range(&events[i], a, b) {
            Some(mut v) => {
                let ghost piece = events_view(v@);
                let ghost before = events_view(out@);
                out.append(&mut v);
                proof {
                    let old_parts = parts;
                    parts = parts.push(piece);
                    assert(parts.drop_last() =~= old_parts);
                    assert(parts.last() == piece);
                    assert(events_view(out@) =~= before + piece);
                    assert(forall|k: int| 0 <= k < i ==> parts[k] == old_parts[k]);
                }
            },
            None => {
                proof {
                    reveal_strlit("A recurring event's dates lie outside the range that can be expanded.");
                    assert(expansion_read(evs[i as int], a as int, b as int, None));
                }
                return Err(Error::Config(
                    "A recurring event's dates lie outside the range that can be expanded.".to_string(),
                ));
            },
        }
    }
    assert(parts.len() == evs.len());
    assert(expanded_in_range(evs, a as int, b as int, events_view(out@)));
    Ok(out)
}

/// The calendar-query REPORT body before its time range.
pub const QUERY_HEAD: &'static str = "<?xml version=\"1.0\" encoding=\"utf-8\"?>\n<c:calendar-query xmlns:d=\"DAV:\" xmlns:c=\"urn:ietf:params:xml:ns:caldav\">\n  <d:prop>\n    <d:getetag/>\n    <c:calendar-data/>\n  </d:prop>\n  <c:filter>\n    <c:comp-filter name=\"VCALENDAR\">\n      <c:comp-filter name=\"VEVENT\">\n        ";

/// The calendar-query REPORT body after its time range.
pub const QUERY_TAIL: &'static str = "\n      </c:comp-filter>\n    </c:comp-filter>\n  </c:filter>\n</c:calendar-query>";

/// An instant in the compact UTC form of iCalendar.
pub open spec fn compact_utc(t: int) -> Seq<char> {
    chrono_utc_format(seconds_of(t), t - seconds_of(t) * (SECOND_NS as int), "%Y%m%dT%H%M%SZ"@)
}

/// The time-range filter of a query: present only with both bounds.
pub open spec fn time_range_text(start: Option<i128>, end: Option<i128>) -> Seq<char> {
    match (start, end) {
        (Some(a), Some(b)) => "<c:time-range start=\""@ + compact_utc(a as int) + "\" end=\""@ + compact_utc(b as int)
            + "\"/>"@,
        _ => ""@,
    }
}

/// The calendar-query REPORT body that lists a calendar's events, limited
/// to a time range when both bounds are given.
pub fn calendar_query_body(start: Option<i128>, end: Option<i128>) -> (r: String)
    requires
        start is Some && end is Some ==> in_chrono(start->0 as int) && in_chrono(end->0 as int),
    ensures
        r@ == QUERY_HEAD@ + time_range_text(start, end) + QUERY_TAIL@,
{
    proof {
        reveal_strlit("");
        reveal_strlit("%Y%m%dT%H%M%SZ");
    }
    let mut out: Vec<char> = Vec::new();
    extend_str(&mut out, QUERY_HEAD);
    match (start, end) {
        (Some(a), Some(b)) => {
            extend_str(&mut out, "<c:time-range start=\"");
            let pa = timestamp_of(a);
            let fa = format_utc(pa.0, pa.1, "%Y%m%dT%H%M%SZ");
            extend_str(&mut out, fa.as_str());
            extend_str(&mut out, "\" end=\"");
            let pb = timestamp_of(b);
            let fb = format_utc(pb.0, pb.1, "%Y%m%dT%H%M%SZ");
            extend_str(&mut out, fb.as_str());
            extend_str(&mut out, "\"/>");
        },
        _ => {
            assert(out@ =~= out@ + ""@);
        },
    }
    extend_str(&mut out, QUERY_TAIL);
    string_of(&out)
}

// ===================== Laws =====================

/// No calendar's lower-cased name is below that of one listed ahead of it.
pub open spec fn calendars_ordered(s: Seq<CalendarModel>) -> bool {
    forall|i: int, j: int| 0 <= i < j < s.len() ==> !seq_lt(unicode_lower(#[trigger] s[j].name), unicode_lower(#[trigger] s[i].name))
}

proof fn lemma_insert_position_spec(s: Seq<CalendarModel>, key: Seq<char>)
    ensures
        forall|j: int| 0 <= j < insert_position(s, key) ==> !seq_lt(key, unicode_lower(#[trigger] s[j].name)),
        insert_position(s, key) < s.len() ==> seq_lt(key, unicode_lower(s[insert_position(s, key)].name)),
    decreases s.len(),
{
    lemma_insert_position_bound(s, key);
    if s.len() > 0 && !seq_lt(key, unicode_lower(s[0].name)) {
        lemma_insert_position_spec(s.drop_first(), key);
        lemma_insert_position_bound(s.drop_first(), key);
        assert forall|j: int| 0 <= j < insert_position(s, key) implies !seq_lt(key, unicode_lower(#[trigger] s[j].name)) by {
            if j > 0 {
                assert(s[j] == s.drop_first()[j - 1]);
            }
        }
        if insert_position(s, key) < s.len() {
            assert(s[insert_position(s, key)] == s.drop_first()[insert_position(s.drop_first(), key)]);
        }
    }
}

proof fn lemma_calendar_insert_keeps_order(s: Seq<CalendarModel>, x: CalendarModel)
    requires
        calendars_ordered(s),
    ensures
        calendars_ordered(s.take(insert_position(s, unicode_lower(x.name))).push(x) + s.skip(insert_position(s, unicode_lower(x.name)))),
{
    let key = unicode_lower(x.name);
    let k = insert_position(s, key);
    lemma_insert_position_bound(s, key);
    lemma_insert_position_spec(s, key);
    let t = s.take(k).push(x) + s.skip(k);
    assert(t.len() == s.len() + 1);
    assert forall|i: int, j: int| 0 <= i < j < t.len() implies !seq_lt(unicode_lower(#[trigger] t[j].name), unicode_lower(#[trigger] t[i].name)) by {
        let vj = unicode_lower(t[j].name);
        if j < k {
            assert(t[i] == s[i] && t[j] == s[j]);
        } else if j == k {
            assert(t[i] == s[i]);
            assert(t[j] == x);
            assert(!seq_lt(key, unicode_lower(s[i].name)));
        } else if i < k {
            assert(t[i] == s[i]);
            assert(t[j] == s[j - 1]);
        } else if i == k {
            assert(t[i] == x);
            assert(t[j] == s[j - 1]);
            if seq_lt(vj, key) {
                lemma_seq_lt_transitive(vj, key, unicode_lower(s[k].name));
                if j - 1 == k {
                    lemma_seq_lt_irreflexive(vj);
                }
            }
        } else {
            assert(t[i] == s[i - 1]);
            assert(t[j] == s[j - 1]);
        }
    }
}

/// Listed calendars come in order of their lower-cased names.
pub proof fn lemma_sort_by_name_ordered(es: Seq<CalendarModel>)
    ensures
        calendars_ordered(sort_by_name(es)),
    decreases es.len(),
{
    if es.len() > 0 {
        lemma_sort_by_name_ordered(es.drop_last());
        lemma_calendar_insert_keeps_order(sort_by_name(es.drop_last()), es.last());
    }
}

/// Sorting calendars keeps every calendar, each as often.
pub proof fn lemma_sort_by_name_permutes(es: Seq<CalendarModel>)
    ensures
        sort_by_name(es).to_multiset() == es.to_multiset(),
    decreases es.len(),
{
    broadcast use vstd::seq_lib::group_to_multiset_ensures;
    if es.len() > 0 {
        let rest = es.drop_last();
        lemma_sort_by_name_permutes(rest);
        let sorted = sort_by_name(rest);
        let x = es.last();
        let k = insert_position(sorted, unicode_lower(x.name));
        lemma_insert_position_bound(sorted, unicode_lower(x.name));
        vstd::seq_lib::lemma_multiset_commutative(sorted.take(k).push(x), sorted.skip(k));
        vstd::seq_lib::lemma_multiset_commutative(sorted.take(k), sorted.skip(k));
        assert(sorted.take(k) + sorted.skip(k) =~= sorted);
        assert(es =~= rest.push(x));
    }
}

/// No calendar is marked default.
pub open spec fn none_default(cs: Seq<CalendarModel>) -> bool {
    forall|i: int| 0 <= i < cs.len() ==> !(#[trigger] cs[i]).is_default
}

proof fn lemma_scan_none_default(nodes: Seq<XmlNodeModel>, k: int)
    ensures
        none_default(calendar_scan(nodes, k).calendars),
    decreases k,
{
    if k > 0 {
        lemma_scan_none_default(nodes, k - 1);
        let s = calendar_scan(nodes, k - 1);
        let t = calendar_scan(nodes, k);
        assert forall|i: int| 0 <= i < t.calendars.len() implies !(#[trigger] t.calendars[i]).is_default by {
            if i < s.calendars.len() {
                assert(t.calendars[i] == s.calendars[i]);
            }
        }
    }
}

proof fn lemma_sort_none_default(cs: Seq<CalendarModel>)
    requires
        none_default(cs),
    ensures
        none_default(sort_by_name(cs)),
        sort_by_name(cs).len() == cs.len(),
    decreases cs.len(),
{
    if cs.len() > 0 {
        let rest = cs.drop_last();
        assert(none_default(rest)) by {
            assert forall|i: int| 0 <= i < rest.len() implies !(#[trigger] rest[i]).is_default by {
                assert(rest[i] == cs[i]);
            }
        }
        lemma_sort_none_default(rest);
        let sorted = sort_by_name(rest);
        let x = cs.last();
        let k = insert_position(sorted, unicode_lower(x.name));
        lemma_insert_position_bound(sorted, unicode_lower(x.name));
        let t = sorted.take(k).push(x) + sorted.skip(k);
        assert forall|i: int| 0 <= i < t.len() implies !(#[trigger] t[i]).is_default by {
            if i < k {
                assert(t[i] == sorted[i]);
            } else if i > k {
                assert(t[i] == sorted[i - 1]);
            }
        }
    }
}

proof fn lemma_index_of_id_bound(cs: Seq<CalendarModel>, id: Seq<char>)
    ensures
        index_of_id(cs, id) matches Some(k) ==> 0 <= k < cs.len(),
    decreases cs.len(),
{
    if cs.len() > 0 && cs[0].id != id {
        lemma_index_of_id_bound(cs.drop_first(), id);
    }
}

/// A PROPFIND answer that lists any calendar lists exactly one default.
pub proof fn lemma_one_default_calendar(nodes: Seq<XmlNodeModel>)
    ensures
        ({
            let cs = calendars_of(nodes);
            cs.len() > 0 ==> exists|i: int|
                0 <= i < cs.len() && (#[trigger] cs[i]).is_default && forall|j: int|
                    0 <= j < cs.len() && j != i ==> !(#[trigger] cs[j]).is_default
        }),
{
    let s = calendar_scan(nodes, nodes.len() as int);
    lemma_scan_none_default(nodes, nodes.len() as int);
    lemma_sort_none_default(s.calendars);
    let sorted = sort_by_name(s.calendars);
    let cs = calendars_of(nodes);
    if cs.len() > 0 {
        let k = match s.default_id {
            Some(d) => match index_of_id(sorted, d) {
                Some(k) => k,
                None => 0,
            },
            None => 0,
        };
        if let Some(d) = s.default_id {
            lemma_index_of_id_bound(sorted, d);
        }
        assert(0 <= k < sorted.len());
        assert(cs[k].is_default);
        assert forall|j: int| 0 <= j < cs.len() && j != k implies !(#[trigger] cs[j]).is_default by {
            assert(cs[j] == sorted[j]);
        }
    }
}

/// After a response that names its calendar as the default, by its href
/// (`/Default/`) or its display name (`default` or `calendar`, in any ASCII
/// case), and with no later calendar that names itself so or gives a
/// `calendar-order`, the scan keeps that calendar and chooses it.
proof fn lemma_scan_keeps_named_default(nodes: Seq<XmlNodeModel>, i: int, k: int, c: CalendarModel)
    requires
        0 <= i < k <= nodes.len(),
        has_tag(nodes[i], DAV_NS@, "response"@),
        calendar_at(nodes, i) matches Some((x, _, _)) && x == c,
        contains_seq(c.href, "/Default/"@) || eq_ignore_ascii_case(c.name, "default"@) || eq_ignore_ascii_case(
            c.name,
            "calendar"@,
        ),
        forall|j: int|
            i < j < nodes.len() && has_tag(nodes[j], DAV_NS@, "response"@) ==> match #[trigger] calendar_at(nodes, j) {
                Some((x, _, o)) => !(contains_seq(x.href, "/Default/"@) || eq_ignore_ascii_case(x.name, "default"@)
                    || eq_ignore_ascii_case(x.name, "calendar"@)) && o is None,
                None => true,
            },
    ensures
        calendar_scan(nodes, k).default_id == Some(c.id),
        calendar_scan(nodes, k).calendars.contains(c),
    decreases k,
{
    let s = calendar_scan(nodes, k - 1);
    if k - 1 == i {
        assert(calendar_scan(nodes, k).calendars == s.calendars.push(c));
        assert(s.calendars.push(c)[s.calendars.len() as int] == c);
    } else {
        lemma_scan_keeps_named_default(nodes, i, k - 1, c);
        let j = k - 1;
        let idx = choose|idx: int| 0 <= idx < s.calendars.len() && s.calendars[idx] == c;
        if has_tag(nodes[j], DAV_NS@, "response"@) {
            match calendar_at(nodes, j) {
                Some((x, l, o)) => {
                    assert(!l);
                    assert(calendar_scan(nodes, k).calendars == s.calendars.push(x));
                    assert(s.calendars.push(x)[idx] == c);
                },
                None => {},
            }
        }
    }
}

proof fn lemma_index_of_id_found(cs: Seq<CalendarModel>, id: Seq<char>)
    requires
        exists|i: int| 0 <= i < cs.len() && (#[trigger] cs[i]).id == id,
    ensures
        index_of_id(cs, id) matches Some(k) && 0 <= k < cs.len() && cs[k].id == id,
    decreases cs.len(),
{
    if cs[0].id != id {
        let i = choose|i: int| 0 <= i < cs.len() && (#[trigger] cs[i]).id == id;
        assert(cs.drop_first()[i - 1] == cs[i]);
        lemma_index_of_id_found(cs.drop_first(), id);
    }
}

/// The calendar marked default: the last calendar listed that names itself
/// the default, by an href holding `/Default/` or a display name `default`
/// or `calendar` (in any ASCII case), when no calendar listed after it does
/// so or gives a `calendar-order`.
pub proof fn lemma_named_default_is_marked(nodes: Seq<XmlNodeModel>, i: int)
    requires
        0 <= i < nodes.len(),
        has_tag(nodes[i], DAV_NS@, "response"@),
        calendar_at(nodes, i) matches Some((c, _, _)) && (contains_seq(c.href, "/Default/"@) || eq_ignore_ascii_case(
            c.name,
            "default"@,
        ) || eq_ignore_ascii_case(c.name, "calendar"@)),
        forall|j: int|
            i < j < nodes.len() && has_tag(nodes[j], DAV_NS@, "response"@) ==> match #[trigger] calendar_at(nodes, j) {
                Some((x, _, o)) => !(contains_seq(x.href, "/Default/"@) || eq_ignore_ascii_case(x.name, "default"@)
                    || eq_ignore_ascii_case(x.name, "calendar"@)) && o is None,
                None => true,
            },
    ensures
        exists|k: int|
            0 <= k < calendars_of(nodes).len() && (#[trigger] calendars_of(nodes)[k]).is_default && calendars_of(
                nodes,
            )[k].id == calendar_at(nodes, i)->Some_0.0.id,
{
    broadcast use vstd::seq_lib::group_to_multiset_ensures;
    let c = calendar_at(nodes, i)->Some_0.0;
    let n = nodes.len() as int;
    lemma_scan_keeps_named_default(nodes, i, n, c);
    let sc = calendar_scan(nodes, n);
    let sorted = sort_by_name(sc.calendars);
    lemma_sort_by_name_permutes(sc.calendars);
    assert(sc.calendars.to_multiset().count(c) > 0);
    assert(sorted.contains(c));
    let a = choose|a: int| 0 <= a < sorted.len() && sorted[a] == c;
    assert(sorted[a].id == c.id);
    lemma_index_of_id_found(sorted, c.id);
    let k = index_of_id(sorted, c.id)->Some_0;
    let cs = calendars_of(nodes);
    assert(cs == sorted.update(k, CalendarModel { is_default: true, ..sorted[k] }));
    assert(cs[k].is_default && cs[k].id == c.id);
}

/// A calendar names itself the default: its href holds `/Default/`, or its
/// display name is `default` or `calendar` in any ASCII case.
pub open spec fn names_itself_default(c: CalendarModel) -> bool {
    contains_seq(c.href, "/Default/"@) || eq_ignore_ascii_case(c.name, "default"@) || eq_ignore_ascii_case(
        c.name,
        "calendar"@,
    )
}

proof fn lemma_scan_without_candidates(nodes: Seq<XmlNodeModel>, k: int)
    requires
        0 <= k <= nodes.len(),
        forall|j: int|
            0 <= j < nodes.len() && has_tag(nodes[j], DAV_NS@, "response"@) ==> match #[trigger] calendar_at(nodes, j) {
                Some((x, _, o)) => !names_itself_default(x) && o is None,
                None => true,
            },
    ensures
        calendar_scan(nodes, k).default_id is None,
    decreases k,
{
    if k > 0 {
        lemma_scan_without_candidates(nodes, k - 1);
        let j = k - 1;
        if has_tag(nodes[j], DAV_NS@, "response"@) {
            match calendar_at(nodes, j) {
                Some((x, l, o)) => {
                    assert(!l);
                },
                None => {},
            }
        }
    }
}

/// Without any calendar that names itself the default or gives a
/// `calendar-order`, the first calendar listed (by name) is the default.
pub proof fn lemma_first_calendar_is_fallback_default(nodes: Seq<XmlNodeModel>)
    requires
        forall|j: int|
            0 <= j < nodes.len() && has_tag(nodes[j], DAV_NS@, "response"@) ==> match #[trigger] calendar_at(nodes, j) {
                Some((x, _, o)) => !names_itself_default(x) && o is None,
                None => true,
            },
    ensures
        calendars_of(nodes).len() > 0 ==> calendars_of(nodes)[0].is_default,
{
    lemma_scan_without_candidates(nodes, nodes.len() as int);
}

proof fn lemma_scan_lowest_order(nodes: Seq<XmlNodeModel>, i: int, k: int, c: CalendarModel, o: u32)
    requires
        0 <= i < nodes.len(),
        0 <= k <= nodes.len(),
        has_tag(nodes[i], DAV_NS@, "response"@),
        calendar_at(nodes, i) matches Some((x, _, ox)) && x == c && ox == Some(o),
        forall|j: int|
            0 <= j < nodes.len() && has_tag(nodes[j], DAV_NS@, "response"@) ==> match #[trigger] calendar_at(nodes, j) {
                Some((x, _, oj)) => !names_itself_default(x) && (oj matches Some(v) ==> (j < i ==> v > o) && (j > i
                    ==> v >= o)),
                None => true,
            },
    ensures
        k <= i ==> (calendar_scan(nodes, k).best_order matches Some(b) ==> b > o),
        k <= i ==> (calendar_scan(nodes, k).best_order is None ==> calendar_scan(nodes, k).default_id is None),
        k > i ==> calendar_scan(nodes, k).best_order == Some(o) && calendar_scan(nodes, k).default_id == Some(c.id)
            && calendar_scan(nodes, k).calendars.contains(c),
    decreases k,
{
    if k > 0 {
        lemma_scan_lowest_order(nodes, i, k - 1, c, o);
        let j = k - 1;
        let s = calendar_scan(nodes, k - 1);
        if has_tag(nodes[j], DAV_NS@, "response"@) {
            match calendar_at(nodes, j) {
                Some((x, l, oj)) => {
                    assert(!l);
                    assert(calendar_scan(nodes, k).calendars == s.calendars.push(x));
                    if j == i {
                        assert(s.calendars.push(x)[s.calendars.len() as int] == c);
                    } else if j > i {
                        let idx = choose|idx: int| 0 <= idx < s.calendars.len() && s.calendars[idx] == c;
                        assert(s.calendars.push(x)[idx] == c);
                    }
                },
                None => {},
            }
        } else if j > i {
            let idx = choose|idx: int| 0 <= idx < s.calendars.len() && s.calendars[idx] == c;
            assert(calendar_scan(nodes, k).calendars[idx] == c);
        }
    }
}

/// Without a calendar that names itself the default, the calendar with the
/// lowest `calendar-order` (the first listed among equal lowest ones) is the
/// default.
pub proof fn lemma_lowest_order_is_default(nodes: Seq<XmlNodeModel>, i: int, o: u32)
    requires
        0 <= i < nodes.len(),
        has_tag(nodes[i], DAV_NS@, "response"@),
        calendar_at(nodes, i) matches Some((_, _, ox)) && ox == Some(o),
        forall|j: int|
            0 <= j < nodes.len() && has_tag(nodes[j], DAV_NS@, "response"@) ==> match #[trigger] calendar_at(nodes, j) {
                Some((x, _, oj)) => !names_itself_default(x) && (oj matches Some(v) ==> (j < i ==> v > o) && (j > i
                    ==> v >= o)),
                None => true,
            },
    ensures
        exists|k: int|
            0 <= k < calendars_of(nodes).len() && (#[trigger] calendars_of(nodes)[k]).is_default && calendars_of(
                nodes,
            )[k].id == calendar_at(nodes, i)->Some_0.0.id,
{
    broadcast use vstd::seq_lib::group_to_multiset_ensures;
    let c = calendar_at(nodes, i)->Some_0.0;
    let n = nodes.len() as int;
    lemma_scan_lowest_order(nodes, i, n, c, o);
    let sc = calendar_scan(nodes, n);
    let sorted = sort_by_name(sc.calendars);
    lemma_sort_by_name_permutes(sc.calendars);
    assert(sc.calendars.to_multiset().count(c) > 0);
    assert(sorted.contains(c));
    let a = choose|a: int| 0 <= a < sorted.len() && sorted[a] == c;
    assert(sorted[a].id == c.id);
    lemma_index_of_id_found(sorted, c.id);
    let k = index_of_id(sorted, c.id)->Some_0;
    let cs = calendars_of(nodes);
    assert(cs == sorted.update(k, CalendarModel { is_default: true, ..sorted[k] }));
    assert(cs[k].is_default && cs[k].id == c.id);
}

proof fn lemma_events_in_members(nodes: Seq<XmlNodeModel>, k: int, calendar: CalendarModel)
    requires
        0 <= k <= nodes.len(),
    ensures
        forall|i: int|
            0 <= i < k && (#[trigger] event_at(nodes, i, calendar)) is Some ==> events_in(nodes, k, calendar).contains(
                event_at(nodes, i, calendar)->Some_0,
            ),
        forall|x: EventModel|
            #[trigger] events_in(nodes, k, calendar).contains(x) ==> exists|i: int|
                0 <= i < k && #[trigger] event_at(nodes, i, calendar) == Some(x),
    decreases k,
{
    if k > 0 {
        lemma_events_in_members(nodes, k - 1, calendar);
        let rest = events_in(nodes, k - 1, calendar);
        let all = events_in(nodes, k, calendar);
        assert(rest.is_prefix_of(all)) by {
            assert(all.subrange(0, rest.len() as int) =~= rest);
        }
        assert forall|i: int|
            0 <= i < k && (#[trigger] event_at(nodes, i, calendar)) is Some implies all.contains(
                event_at(nodes, i, calendar)->Some_0,
            ) by {
            if i < k - 1 {
                let e = event_at(nodes, i, calendar)->Some_0;
                let x = choose|x: int| 0 <= x < rest.len() && rest[x] == e;
                assert(all[x] == rest[x]);
            } else {
                assert(all[rest.len() as int] == event_at(nodes, i, calendar)->Some_0);
            }
        }
        assert forall|x: EventModel| #[trigger] all.contains(x) implies exists|i: int|
            0 <= i < k && #[trigger] event_at(nodes, i, calendar) == Some(x) by {
            let a = choose|a: int| 0 <= a < all.len() && all[a] == x;
            if a < rest.len() {
                assert(rest[a] == x);
                assert(rest.contains(x));
            } else {
                assert(event_at(nodes, k - 1, calendar) == Some(x));
            }
        }
    }
}

/// The event the calendar data of `response` node `i` describes, read with
/// that response's href and ETag and the calendar's id and name.
pub open spec fn response_event(nodes: Seq<XmlNodeModel>, i: int, calendar: CalendarModel) -> Option<EventModel> {
    event_of(
        subtree_text(nodes, i, CALDAV_NS@, "calendar-data"@)->Some_0,
        subtree_text(nodes, i, DAV_NS@, "href"@),
        subtree_text(nodes, i, DAV_NS@, "getetag"@),
        calendar.id,
        Some(calendar.name),
    )
}

/// The events of a REPORT answer for a calendar: every `response` whose
/// `calendar-data` describes an event gives that event, with the
/// response's href and ETag and the calendar's id and name; and every event
/// listed is one so given.
pub proof fn lemma_report_events(nodes: Seq<XmlNodeModel>, calendar: CalendarModel)
    ensures
        forall|i: int|
            0 <= i < nodes.len() && has_tag(nodes[i], DAV_NS@, "response"@) && subtree_text(
                nodes,
                i,
                CALDAV_NS@,
                "calendar-data"@,
            ) is Some && (#[trigger] response_event(nodes, i, calendar)) is Some ==> events_in(
                nodes,
                nodes.len() as int,
                calendar,
            ).contains(response_event(nodes, i, calendar)->Some_0),
        forall|x: EventModel|
            #[trigger] events_in(nodes, nodes.len() as int, calendar).contains(x) ==> x.calendar_id == calendar.id
                && x.calendar_name == Some(calendar.name) && exists|i: int|
                0 <= i < nodes.len() && has_tag(nodes[i], DAV_NS@, "response"@) && subtree_text(
                    nodes,
                    i,
                    CALDAV_NS@,
                    "calendar-data"@,
                ) is Some && #[trigger] response_event(nodes, i, calendar) == Some(x) && x.href == subtree_text(
                    nodes,
                    i,
                    DAV_NS@,
                    "href"@,
                ) && x.etag == subtree_text(nodes, i, DAV_NS@, "getetag"@),
{
    let n = nodes.len() as int;
    lemma_events_in_members(nodes, n, calendar);
    let ev = events_in(nodes, n, calendar);
    assert forall|i: int|
        0 <= i < nodes.len() && has_tag(nodes[i], DAV_NS@, "response"@) && subtree_text(
            nodes,
            i,
            CALDAV_NS@,
            "calendar-data"@,
        ) is Some && (#[trigger] response_event(nodes, i, calendar)) is Some implies ev.contains(
        response_event(nodes, i, calendar)->Some_0,
    ) by {
        assert(event_at(nodes, i, calendar) == response_event(nodes, i, calendar));
    }
    assert forall|x: EventModel| #[trigger] ev.contains(x) implies x.calendar_id == calendar.id && x.calendar_name
        == Some(calendar.name) && exists|i: int|
        0 <= i < nodes.len() && has_tag(nodes[i], DAV_NS@, "response"@) && subtree_text(
            nodes,
            i,
            CALDAV_NS@,
            "calendar-data"@,
        ) is Some && #[trigger] response_event(nodes, i, calendar) == Some(x) && x.href == subtree_text(
            nodes,
            i,
            DAV_NS@,
            "href"@,
        ) && x.etag == subtree_text(nodes, i, DAV_NS@, "getetag"@) by {
        let i = choose|i: int| 0 <= i < n && #[trigger] event_at(nodes, i, calendar) == Some(x);
        assert(subtree_text(nodes, i, CALDAV_NS@, "calendar-data"@) is Some);
        assert(response_event(nodes, i, calendar) == Some(x));
    }
}

proof fn lemma_scan_members(nodes: Seq<XmlNodeModel>, k: int)
    requires
        0 <= k <= nodes.len(),
    ensures
        forall|i: int|
            0 <= i < k && has_tag(nodes[i], DAV_NS@, "response"@) && (#[trigger] calendar_at(nodes, i)) is Some
                ==> calendar_scan(nodes, k).calendars.contains(calendar_at(nodes, i)->Some_0.0),
        forall|x: CalendarModel|
            #[trigger] calendar_scan(nodes, k).calendars.contains(x) ==> exists|i: int|
                0 <= i < k && has_tag(nodes[i], DAV_NS@, "response"@) && (#[trigger] calendar_at(nodes, i)) is Some
                    && calendar_at(nodes, i)->Some_0.0 == x,
    decreases k,
{
    if k > 0 {
        lemma_scan_members(nodes, k - 1);
        let rest = calendar_scan(nodes, k - 1).calendars;
        let all = calendar_scan(nodes, k).calendars;
        let j = k - 1;
        let grows = has_tag(nodes[j], DAV_NS@, "response"@) && calendar_at(nodes, j) is Some;
        if grows {
            assert(all == rest.push(calendar_at(nodes, j)->Some_0.0));
        } else {
            assert(all == rest);
        }
        assert forall|i: int|
            0 <= i < k && has_tag(nodes[i], DAV_NS@, "response"@) && (#[trigger] calendar_at(nodes, i)) is Some
                implies all.contains(calendar_at(nodes, i)->Some_0.0) by {
            if i < k - 1 {
                let e = calendar_at(nodes, i)->Some_0.0;
                let x = choose|x: int| 0 <= x < rest.len() && rest[x] == e;
                assert(all[x] == rest[x]);
            } else {
                assert(all[rest.len() as int] == calendar_at(nodes, i)->Some_0.0);
            }
        }
        assert forall|x: CalendarModel| #[trigger] all.contains(x) implies exists|i: int|
            0 <= i < k && has_tag(nodes[i], DAV_NS@, "response"@) && (#[trigger] calendar_at(nodes, i)) is Some
                && calendar_at(nodes, i)->Some_0.0 == x by {
            let a = choose|a: int| 0 <= a < all.len() && all[a] == x;
            if a < rest.len() {
                assert(rest[a] == x);
                assert(rest.contains(x));
            } else {
                assert(calendar_at(nodes, j)->Some_0.0 == x);
            }
        }
    }
}

/// A `response` that lists a calendar: it has the CalDAV `calendar`
/// resource type and a non-empty href.
pub open spec fn lists_calendar(nodes: Seq<XmlNodeModel>, i: int) -> bool {
    &&& has_tag(nodes[i], DAV_NS@, "response"@)
    &&& subtree_tag(nodes, i, CALDAV_NS@, "calendar"@) is Some
    &&& text_or_empty(subtree_text(nodes, i, DAV_NS@, "href"@)).len() > 0
}

/// What a listed calendar holds, read from its `response`: the href, the id
/// taken from it, the display name (or, without one, the id), the color,
/// description and ETag.
pub open spec fn holds_response_calendar(c: CalendarModel, nodes: Seq<XmlNodeModel>, i: int) -> bool {
    let href = text_or_empty(subtree_text(nodes, i, DAV_NS@, "href"@));
    &&& c.href == href
    &&& c.id == resource_id(href)
    &&& c.name == match subtree_text(nodes, i, DAV_NS@, "displayname"@) {
        Some(n) => n,
        None => resource_id(href),
    }
    &&& c.color == subtree_text(nodes, i, APPLE_ICAL_NS@, "calendar-color"@)
    &&& c.description == subtree_text(nodes, i, APPLE_ICAL_NS@, "calendar-description"@)
    &&& c.etag == subtree_text(nodes, i, DAV_NS@, "getetag"@)
}

/// Every calendar listed from a PROPFIND answer comes from a response that
/// lists a calendar, and holds what that response says.
pub proof fn lemma_listed_calendar_from_response(nodes: Seq<XmlNodeModel>, k: int)
    requires
        0 <= k < calendars_of(nodes).len(),
    ensures
        exists|i: int|
            #![trigger lists_calendar(nodes, i)]
            0 <= i < nodes.len() && lists_calendar(nodes, i) && holds_response_calendar(calendars_of(nodes)[k], nodes, i),
{
    broadcast use vstd::seq_lib::group_to_multiset_ensures;
    let n = nodes.len() as int;
    lemma_scan_members(nodes, n);
    let sc = calendar_scan(nodes, n);
    lemma_sort_by_name_permutes(sc.calendars);
    let sorted = sort_by_name(sc.calendars);
    let cs = calendars_of(nodes);
    assert(cs.len() == sorted.len());
    assert(cs[k] == (CalendarModel { is_default: cs[k].is_default, ..sorted[k] }));
    let c = sorted[k];
    assert(sorted.contains(c));
    assert(sorted.to_multiset().count(c) > 0);
    assert(sc.calendars.contains(c));
    let i = choose|i: int|
        0 <= i < n && has_tag(nodes[i], DAV_NS@, "response"@) && (#[trigger] calendar_at(nodes, i)) is Some
            && calendar_at(nodes, i)->Some_0.0 == c;
    assert(lists_calendar(nodes, i));
    assert(holds_response_calendar(cs[k], nodes, i));
}

/// Every response of a PROPFIND answer that lists a calendar gives a listed
/// calendar that holds what the response says.
pub proof fn lemma_response_calendar_listed(nodes: Seq<XmlNodeModel>, i: int)
    requires
        0 <= i < nodes.len(),
        lists_calendar(nodes, i),
    ensures
        exists|k: int|
            0 <= k < calendars_of(nodes).len() && holds_response_calendar(#[trigger] calendars_of(nodes)[k], nodes, i),
{
    broadcast use vstd::seq_lib::group_to_multiset_ensures;
    let n = nodes.len() as int;
    lemma_scan_members(nodes, n);
    let sc = calendar_scan(nodes, n);
    lemma_sort_by_name_permutes(sc.calendars);
    let sorted = sort_by_name(sc.calendars);
    let cs = calendars_of(nodes);
    assert(cs.len() == sorted.len());
    assert(calendar_at(nodes, i) is Some);
    let c = calendar_at(nodes, i)->Some_0.0;
    assert(sc.calendars.contains(c));
    assert(sc.calendars.to_multiset().count(c) > 0);
    assert(sorted.contains(c));
    let k = choose|k: int| 0 <= k < sorted.len() && sorted[k] == c;
    assert(cs[k] == (CalendarModel { is_default: cs[k].is_default, ..sorted[k] }));
    assert(holds_response_calendar(cs[k], nodes, i));
}

} // verus!
