use fastmail_cli::caldav::responses::{
    parse_calendar_home_response, parse_calendars_response, parse_events_response_checked,
};
use fastmail_cli::caldav::Calendar;
use fastmail_cli::carddav::responses::{
    map_write_response, parse_addressbooks_response, parse_contacts_response,
};
use fastmail_cli::carddav::{Contact, ContactEmail};
use fastmail_cli::error::Error;

#[test]
fn test_parse_calendar_home_response() {
    let xml = r#"<?xml version="1.0" encoding="utf-8"?>
<d:multistatus xmlns:d="DAV:" xmlns:c="urn:ietf:params:xml:ns:caldav">
  <d:response>
    <d:propstat>
      <d:prop>
        <c:calendar-home-set>
          <d:href>/dav/calendars/user/test@example.com/</d:href>
        </c:calendar-home-set>
      </d:prop>
    </d:propstat>
  </d:response>
</d:multistatus>"#;
    assert_eq!(
        parse_calendar_home_response(xml).unwrap().as_deref(),
        Some("/dav/calendars/user/test@example.com/")
    );
}

#[test]
fn test_parse_calendars_response_marks_default_and_color() {
    let xml = r#"<?xml version="1.0" encoding="utf-8"?>
<d:multistatus xmlns:d="DAV:" xmlns:c="urn:ietf:params:xml:ns:caldav" xmlns:apple="http://apple.com/ns/ical/">
  <d:response>
    <d:href>/dav/calendars/user/test/Default/</d:href>
    <d:propstat>
      <d:prop>
        <d:displayname>Default</d:displayname>
        <d:getetag>"etag-1"</d:getetag>
        <d:resourcetype><d:collection/><c:calendar/></d:resourcetype>
        <apple:calendar-color>#00ff00</apple:calendar-color>
      </d:prop>
    </d:propstat>
  </d:response>
</d:multistatus>"#;
    let calendars = parse_calendars_response(xml).unwrap();
    assert_eq!(calendars.len(), 1);
    assert_eq!(calendars[0].id, "Default");
    assert_eq!(calendars[0].color.as_deref(), Some("#00ff00"));
    assert!(calendars[0].is_default);
}

#[test]
fn parse_calendars_response_sorts_and_prefers_lowest_order() {
    let xml = r#"<d:multistatus xmlns:d="DAV:" xmlns:c="urn:ietf:params:xml:ns:caldav" xmlns:apple="http://apple.com/ns/ical/" xmlns:cs="http://calendarserver.org/ns/">
  <d:response><d:href>/dav/cal/zeta/</d:href><d:propstat><d:prop><d:displayname>zeta</d:displayname><d:resourcetype><c:calendar/></d:resourcetype><apple:calendar-order>5</apple:calendar-order></d:prop></d:propstat></d:response>
  <d:response><d:href>/dav/cal/alpha/</d:href><d:propstat><d:prop><d:displayname>Alpha</d:displayname><d:resourcetype><c:calendar/></d:resourcetype><apple:calendar-order>2</apple:calendar-order><cs:getctag>ct-1</cs:getctag></d:prop></d:propstat></d:response>
  <d:response><d:href>/dav/cal/</d:href><d:propstat><d:prop><d:resourcetype><d:collection/></d:resourcetype></d:prop></d:propstat></d:response>
</d:multistatus>"#;
    let calendars = parse_calendars_response(xml).unwrap();
    assert_eq!(calendars.len(), 2);
    assert_eq!(calendars[0].name, "Alpha");
    assert_eq!(calendars[1].name, "zeta");
    assert!(calendars[0].is_default);
    assert!(!calendars[1].is_default);
    assert_eq!(calendars[0].ctag.as_deref(), Some("ct-1"));
}

#[test]
fn parse_calendars_response_rejects_bad_xml() {
    match parse_calendars_response("<not-closed>") {
        Err(Error::Server(m)) => assert!(m.starts_with("Failed to parse XML: ")),
        other => panic!("unexpected {other:?}"),
    }
}

#[test]
fn parse_events_response_reads_calendar_data() {
    let xml = r#"<d:multistatus xmlns:d="DAV:" xmlns:c="urn:ietf:params:xml:ns:caldav">
  <d:response><d:href>/dav/cal/work/e1.ics</d:href><d:propstat><d:prop><d:getetag>"t1"</d:getetag><c:calendar-data>BEGIN:VCALENDAR
BEGIN:VEVENT
UID:e1
SUMMARY:Standup
DTSTART:20260401T090000Z
DTEND:20260401T091500Z
END:VEVENT
END:VCALENDAR</c:calendar-data></d:prop></d:propstat></d:response>
</d:multistatus>"#;
    let cal = Calendar {
        id: "work".into(),
        name: "Work".into(),
        color: None,
        description: None,
        href: "/dav/cal/work/".into(),
        etag: None,
        ctag: None,
        is_default: true,
    };
    let events = parse_events_response_checked(xml, &cal).unwrap().unwrap();
    assert_eq!(events.len(), 1);
    assert_eq!(events[0].id, "e1");
    assert_eq!(events[0].calendar_name.as_deref(), Some("Work"));
    assert_eq!(events[0].href.as_deref(), Some("/dav/cal/work/e1.ics"));
    assert_eq!(events[0].etag.as_deref(), Some("\"t1\""));
}

#[test]
fn test_parse_contacts_response_extracts_href_etag() {
    let xml = r#"<?xml version="1.0" encoding="utf-8"?>
<d:multistatus xmlns:d="DAV:" xmlns:card="urn:ietf:params:xml:ns:carddav">
  <d:response>
    <d:href>/dav/addressbooks/user/testuser/Default/contact1.vcf</d:href>
    <d:propstat>
      <d:prop>
        <d:getetag>"etag-value-123"</d:getetag>
        <card:address-data>BEGIN:VCARD
VERSION:3.0
UID:uid-001
FN:Test Contact
EMAIL:test@example.com
END:VCARD</card:address-data>
      </d:prop>
    </d:propstat>
  </d:response>
</d:multistatus>"#;
    let contacts = parse_contacts_response(xml).unwrap();
    assert_eq!(contacts.len(), 1);
    assert_eq!(
        contacts[0].href,
        Some("/dav/addressbooks/user/testuser/Default/contact1.vcf".to_string())
    );
    assert_eq!(contacts[0].etag, Some("\"etag-value-123\"".to_string()));
}

#[test]
fn parse_addressbooks_response_skips_home() {
    let xml = r#"<d:multistatus xmlns:d="DAV:" xmlns:card="urn:ietf:params:xml:ns:carddav">
  <d:response><d:href>/dav/addressbooks/user/bob/</d:href><d:propstat><d:prop><d:resourcetype><card:addressbook/></d:resourcetype></d:prop></d:propstat></d:response>
  <d:response><d:href>/dav/addressbooks/user/bob/Default/</d:href><d:propstat><d:prop><d:resourcetype><card:addressbook/></d:resourcetype></d:prop></d:propstat></d:response>
</d:multistatus>"#;
    let books = parse_addressbooks_response(xml, "bob").unwrap();
    assert_eq!(books.len(), 1);
    assert_eq!(books[0].name, "Default");
    assert_eq!(books[0].href, "/dav/addressbooks/user/bob/Default/");
}

fn make_basic_contact() -> Contact {
    Contact {
        id: "test-uid-001".to_string(),
        name: "Alice Smith".to_string(),
        emails: vec![ContactEmail {
            email: "alice@example.com".to_string(),
            label: None,
        }],
        phones: vec![],
        organization: None,
        title: None,
        notes: None,
        address: None,
        href: None,
        etag: None,
    }
}

#[test]
fn test_map_write_response_success_extracts_etag() {
    let contact = make_basic_contact();
    let etag = map_write_response(&contact, None, 201, "201 Created", Some("\"etag-123\"".into()), "").unwrap();
    assert_eq!(etag.as_deref(), Some("\"etag-123\""));
}

#[test]
fn test_map_write_response_conflict_uses_server_etag() {
    let contact = make_basic_contact();
    let error = map_write_response(
        &contact,
        Some("\"etag-old\""),
        412,
        "412 Precondition Failed",
        Some("\"etag-server\"".into()),
        "",
    )
    .unwrap_err();
    match error {
        Error::ContactConflict { id, sent_etag, server_etag } => {
            assert_eq!(id, contact.id);
            assert_eq!(sent_etag, "\"etag-old\"");
            assert_eq!(server_etag.as_deref(), Some("\"etag-server\""));
        }
        other => panic!("unexpected error: {other:?}"),
    }
}

#[test]
fn test_map_write_response_not_found() {
    let contact = make_basic_contact();
    let error = map_write_response(&contact, Some("\"etag-old\""), 404, "404 Not Found", None, "").unwrap_err();
    match error {
        Error::ContactNotFound(id) => assert_eq!(id, contact.id),
        other => panic!("unexpected error: {other:?}"),
    }
}
