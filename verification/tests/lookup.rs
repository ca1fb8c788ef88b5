use fastmail_cli::caldav::dav::{merge_calendar_events, sort_events_by_start};
use fastmail_cli::caldav::lookup::{
    choose_default_calendar, fallback_calendar_home, find_calendar, find_event, principal_href,
    resolve_uid_reports, resolve_uid_reports_checked, UidLookup,
};
use fastmail_cli::caldav::responses::{calendar_query_body, parse_events_response_for_range};
use fastmail_cli::caldav::writes::{
    calendar_created, calendar_delete_step, calendar_href, calendar_updated, event_created,
    event_delete_target, event_deleted, event_href, event_updated, new_calendar_href, DeleteStep,
};
use fastmail_cli::caldav::{Calendar, CalendarEvent, EventDateTime};
use fastmail_cli::carddav::lookup::{
    after_group_by_id, contact_created, contact_deleted, contact_updated, find_contact,
    first_addressbook_href, group_write_target, new_group, search_contacts_in,
};
use fastmail_cli::carddav::{AddressBook, Contact, ContactEmail, ContactGroup};
use fastmail_cli::error::Error;

fn cal(id: &str, name: &str, is_default: bool) -> Calendar {
    Calendar {
        id: id.to_string(),
        name: name.to_string(),
        color: None,
        description: None,
        href: format!("/dav/calendars/user/u/{id}/"),
        etag: Some("\"c1\"".to_string()),
        ctag: None,
        is_default,
    }
}

fn event(id: &str, start: &str) -> CalendarEvent {
    CalendarEvent {
        id: id.to_string(),
        title: id.to_string(),
        start: EventDateTime { value: start.to_string(), timezone: None, all_day: false },
        end: EventDateTime { value: start.to_string(), timezone: None, all_day: false },
        ..CalendarEvent::default()
    }
}

fn contact(id: &str, name: &str, email: &str, org: Option<&str>) -> Contact {
    Contact {
        id: id.to_string(),
        name: name.to_string(),
        emails: vec![ContactEmail { email: email.to_string(), label: None }],
        phones: vec![],
        organization: org.map(|o| o.to_string()),
        title: None,
        notes: None,
        address: None,
        href: None,
        etag: None,
    }
}

const REPORT: &str = r#"<d:multistatus xmlns:d="DAV:" xmlns:c="urn:ietf:params:xml:ns:caldav">
  <d:response><d:href>/dav/cal/work/e1.ics</d:href><d:propstat><d:prop><d:getetag>"t1"</d:getetag><c:calendar-data>BEGIN:VCALENDAR
BEGIN:VEVENT
UID:e1
SUMMARY:Standup
DTSTART:20260401T090000Z
DTEND:20260401T091500Z
RRULE:FREQ=DAILY;COUNT=3
END:VEVENT
END:VCALENDAR</c:calendar-data></d:prop></d:propstat></d:response>
</d:multistatus>"#;

#[test]
fn default_calendar_is_marked_or_first() {
    let cals = vec![cal("a", "A", false), cal("b", "B", true)];
    assert_eq!(choose_default_calendar(&cals).unwrap().id, "b");
    let cals = vec![cal("a", "A", false), cal("b", "B", false)];
    assert_eq!(choose_default_calendar(&cals).unwrap().id, "a");
    match choose_default_calendar(&vec![]) {
        Err(Error::Server(m)) => assert_eq!(m, "No calendars found"),
        other => panic!("unexpected: {other:?}"),
    }
}

#[test]
fn calendars_and_events_are_found_by_id() {
    let cals = vec![cal("a", "A", false), cal("b", "B", true)];
    assert_eq!(find_calendar(&cals, "b").unwrap().name, "B");
    match find_calendar(&cals, "z") {
        Err(Error::CalendarNotFound(id)) => assert_eq!(id, "z"),
        other => panic!("unexpected: {other:?}"),
    }
    let events = vec![event("x", "1"), event("y", "2"), event("y", "3")];
    assert_eq!(find_event(&events, "y").unwrap().start.value, "2");
    assert!(find_event(&events, "q").is_none());
}

#[test]
fn uid_reports_find_the_event_or_ask_for_a_full_fetch() {
    let work = cal("work", "Work", true);
    let found = resolve_uid_reports(
        &vec![Ok((501, String::new(), work.clone())), Ok((207, REPORT.to_string(), work.clone()))],
        "e1",
    );
    match found {
        UidLookup::Found(e) => assert_eq!(e.title, "Standup"),
        _ => panic!("expected the event"),
    }
    let fallback = resolve_uid_reports(
        &vec![Ok((400, String::new(), work.clone())), Ok((207, REPORT.to_string(), work.clone()))],
        "other",
    );
    assert!(matches!(fallback, UidLookup::FullFetch));
    let missing = resolve_uid_reports(
        &vec![Err(Error::Server("down".to_string())), Ok((500, String::new(), work.clone()))],
        "e1",
    );
    assert!(matches!(missing, UidLookup::NotFound));
    assert!(resolve_uid_reports_checked(&vec![], "e1").is_some());
}

#[test]
fn calendar_homes_and_hrefs() {
    assert_eq!(principal_href("u@x"), "/dav/principals/user/u@x/");
    assert_eq!(fallback_calendar_home("u@x"), "/dav/calendars/user/u@x/");
    assert_eq!(calendar_href("/dav/calendars/user/u/", "My Cal!", "abc"), "/dav/calendars/user/u/my-cal-abc/");
    let href = new_calendar_href("/home//", "Work");
    assert!(href.starts_with("/home/work-"));
    assert_eq!(href.len(), "/home/work-".len() + 32 + 1);
    assert!(href.ends_with('/'));
}

#[test]
fn mkcalendar_answers() {
    let created = calendar_created(
        "Work",
        Some("#ff0000"),
        "/dav/calendars/user/u/work-1/".to_string(),
        201,
        "201 Created",
        Some("https://caldav.fastmail.com/dav/calendars/user/u/work-2/".to_string()),
        Some("\"e\"".to_string()),
        "",
    )
    .unwrap();
    assert_eq!(created.href, "/dav/calendars/user/u/work-2/");
    assert_eq!(created.id, "work-2");
    assert_eq!(created.color.as_deref(), Some("#ff0000"));
    assert!(!created.is_default);
    match calendar_created("W", None, "/h/".to_string(), 403, "403 Forbidden", None, None, "no") {
        Err(Error::Server(m)) => assert_eq!(m, "CalDAV MKCALENDAR failed: 403 Forbidden - no"),
        other => panic!("unexpected: {other:?}"),
    }
}

#[test]
fn proppatch_and_delete_answers() {
    let c = cal("a", "A", false);
    let updated = calendar_updated(&c, Some("New"), None, 207, "207 Multi-Status", None, "").unwrap();
    assert_eq!(updated.name, "New");
    assert_eq!(updated.etag.as_deref(), Some("\"c1\""));
    match calendar_updated(&c, None, None, 412, "412 Precondition Failed", Some("\"n\"".to_string()), "") {
        Err(Error::CalendarConflict { sent_etag, server_etag, .. }) => {
            assert_eq!(sent_etag, "\"c1\"");
            assert_eq!(server_etag.as_deref(), Some("\"n\""));
        }
        other => panic!("unexpected: {other:?}"),
    }
    assert!(matches!(calendar_delete_step(&c, false, 204, "", None, ""), DeleteStep::Done));
    assert!(matches!(calendar_delete_step(&c, false, 412, "", None, ""), DeleteStep::RetryWithoutEtag));
    assert!(matches!(
        calendar_delete_step(&c, true, 412, "", None, ""),
        DeleteStep::Failed(Error::CalendarConflict { .. })
    ));
}

#[test]
fn event_write_answers() {
    let c = cal("work", "Work", true);
    let e = event("e1", "2026-04-01T09:00:00Z");
    let created = event_created(&e, &c, "/dav/calendars/user/u/work/e1.ics".to_string(), 201, "201 Created", None, Some("\"t\"".to_string()), "").unwrap();
    assert_eq!(created.calendar_id, "work");
    assert_eq!(created.calendar_name.as_deref(), Some("Work"));
    assert_eq!(created.href.as_deref(), Some("/dav/calendars/user/u/work/e1.ics"));
    assert_eq!(created.etag.as_deref(), Some("\"t\""));
    assert!(matches!(event_href(&e), Err(Error::EventNotFound(_))));
    let mut stored = created.clone();
    stored.etag = Some("\"t\"".to_string());
    assert_eq!(event_updated(&stored, "\"t\"", 204, "", None, "").unwrap().etag.as_deref(), Some("\"t\""));
    assert_eq!(event_delete_target(&stored).unwrap().1, "\"t\"");
    stored.etag = None;
    assert!(matches!(event_delete_target(&stored), Err(Error::EventConflict { .. })));
    assert!(event_deleted(&stored, "\"t\"", 202, "", None, "").is_ok());
    assert!(matches!(event_deleted(&stored, "\"t\"", 404, "", None, ""), Err(Error::EventNotFound(_))));
}

#[test]
fn events_are_listed_in_start_order() {
    let events = vec![event("c", "2026-04-03"), event("a", "2026-04-01"), event("b", "2026-04-03"), event("d", "2026-04-02")];
    let sorted = sort_events_by_start(&events);
    let ids: Vec<&str> = sorted.iter().map(|e| e.id.as_str()).collect();
    assert_eq!(ids, vec!["a", "d", "c", "b"]);
    let merged = merge_calendar_events(vec![
        Ok(("/c1/".to_string(), vec![event("z", "2")])),
        Err(Error::Server("x".to_string())),
        Ok(("/c2/".to_string(), vec![event("y", "1")])),
    ]);
    let ids: Vec<&str> = merged.iter().map(|e| e.id.as_str()).collect();
    assert_eq!(ids, vec!["y", "z"]);
}

#[test]
fn report_answers_expand_over_a_range() {
    let work = cal("work", "Work", true);
    let all = parse_events_response_for_range(REPORT, &work, None, None).unwrap();
    assert_eq!(all.len(), 1);
    // 2026-04-02T00:00:00Z .. 2026-04-10T00:00:00Z holds the 2nd and 3rd occurrences.
    let expanded = parse_events_response_for_range(
        REPORT,
        &work,
        Some(1775088000 * 1_000_000_000),
        Some(1775779200 * 1_000_000_000),
    )
    .unwrap();
    assert_eq!(expanded.len(), 2);
    assert_eq!(expanded[0].start.value, "2026-04-02T09:00:00Z");
    assert_eq!(expanded[1].end.value, "2026-04-03T09:15:00Z");
}

#[test]
fn query_body_carries_the_time_range() {
    let body = calendar_query_body(Some(1775088000 * 1_000_000_000), Some(1775779200 * 1_000_000_000));
    assert!(body.contains(r#"<c:time-range start="20260402T000000Z" end="20260410T000000Z"/>"#));
    assert!(body.starts_with("<?xml version=\"1.0\" encoding=\"utf-8\"?>\n<c:calendar-query"));
    let open = calendar_query_body(None, Some(0));
    assert!(!open.contains("time-range"));
    assert!(open.ends_with("</c:calendar-query>"));
}

#[test]
fn contact_search_ignores_case() {
    let contacts = vec![
        contact("1", "Alice Smith", "alice@example.com", None),
        contact("2", "Bob", "BOB@WORK.ORG", Some("Acme")),
        contact("3", "Carol", "carol@x.net", Some("ACME Labs")),
    ];
    let ids = |v: Vec<Contact>| v.into_iter().map(|c| c.id).collect::<Vec<_>>();
    assert_eq!(ids(search_contacts_in(&contacts, "smith")), vec!["1"]);
    assert_eq!(ids(search_contacts_in(&contacts, "work.org")), vec!["2"]);
    assert_eq!(ids(search_contacts_in(&contacts, "acme")), vec!["2", "3"]);
    assert_eq!(ids(search_contacts_in(&contacts, "")), vec!["1", "2", "3"]);
    assert!(search_contacts_in(&contacts, "zed").is_empty());
}

#[test]
fn contacts_and_address_books_are_found() {
    let contacts = vec![contact("1", "A", "a@x", None)];
    assert_eq!(find_contact(&contacts, "1").unwrap().name, "A");
    assert!(matches!(find_contact(&contacts, "2"), Err(Error::ContactNotFound(id)) if id == "2"));
    let books = vec![AddressBook { href: "/ab/1/".to_string(), name: "One".to_string() }];
    assert_eq!(first_addressbook_href(&books).unwrap(), "/ab/1/");
    assert!(matches!(first_addressbook_href(&vec![]), Err(Error::Server(m)) if m == "No CardDAV address books found"));
}

#[test]
fn contact_write_answers() {
    let c = contact("1", "A", "a@x", None);
    let created = contact_created(&c, "/ab/1/1.vcf".to_string(), 201, "201 Created", None, Some("\"e\"".to_string()), "").unwrap();
    assert_eq!(created.href, "/ab/1/1.vcf");
    assert_eq!(created.etag.as_deref(), Some("\"e\""));
    assert_eq!(contact_updated(&c, "\"old\"", 204, "", None, "").unwrap(), "\"old\"");
    assert_eq!(contact_updated(&c, "\"old\"", 204, "", Some("\"new\"".to_string()), "").unwrap(), "\"new\"");
    assert!(matches!(contact_deleted("1", "/ab/1/1.vcf", "\"e\"", 404, "", None, ""), Err(Error::ContactNotFound(id)) if id == "1"));
    assert!(contact_deleted("1", "/ab/1/1.vcf", "\"e\"", 204, "", None, "").is_ok());
}

#[test]
fn groups_need_href_and_etag() {
    let g = new_group("Friends");
    assert_eq!(g.name, "Friends");
    assert_eq!(g.id.len(), 36);
    assert!(matches!(group_write_target(&g, "Friends"), Err(Error::GroupNotFound(id)) if id == "Friends"));
    let with_href = ContactGroup { href: Some("/ab/g.vcf".to_string()), ..g.clone() };
    assert!(matches!(group_write_target(&with_href, "Friends"), Err(Error::GroupConflict { .. })));
    let full = ContactGroup { etag: Some("\"e\"".to_string()), ..with_href };
    assert_eq!(group_write_target(&full, "Friends").unwrap(), ("/ab/g.vcf".to_string(), "\"e\"".to_string()));
    assert!(after_group_by_id(Err(Error::GroupNotFound("x".to_string()))).is_none());
    assert!(matches!(after_group_by_id(Err(Error::RateLimited)), Some(Err(Error::RateLimited))));
    assert!(matches!(after_group_by_id(Ok(full)), Some(Ok(_))));
}
