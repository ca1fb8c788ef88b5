use fastmail_cli::caldav::{
    build_event_href, build_uid_report_body, collect_partial_events, extract_location_path,
    map_calendar_write_error, map_event_write_error, mkcalendar_body, parse_attendee,
    parse_event_datetime, parse_ical_event, parse_rrule, parse_trigger_minutes,
    proppatch_calendar_body, resource_id_from_href, serialize_attendee,
    serialize_datetime_property, serialize_ical_event, serialize_ical_event_at, serialize_rrule,
    serialize_trigger_minutes, should_retry_calendar_delete_without_etag, slugify, unfold_ical,
    weekday_code_to_index, xml_escape, Calendar, CalendarEvent, EventAttendee, EventDateTime,
    EventRecurrence, EventReminder,
};
use fastmail_cli::caldav::is_valid_byday;
use fastmail_cli::error::Error;

#[test]
fn build_uid_report_body_contains_prop_filter_uid() {
    let body = build_uid_report_body("abc-123");
    assert!(
        body.contains(r#"<C:prop-filter name="UID">"#),
        "missing prop-filter UID: {body}"
    );
}

#[test]
fn build_uid_report_body_contains_correct_collation_and_match_type() {
    let body = build_uid_report_body("abc-123");
    assert!(
        body.contains(r#"collation="i;unicode-casemap""#),
        "missing collation: {body}"
    );
    assert!(
        body.contains(r#"match-type="equals""#),
        "missing match-type=equals: {body}"
    );
}

#[test]
fn build_uid_report_body_contains_uid_text() {
    let body = build_uid_report_body("my-uid-value");
    assert!(body.contains("my-uid-value"), "missing UID text: {body}");
}

#[test]
fn build_uid_report_body_escapes_ampersand_in_uid() {
    let body = build_uid_report_body("a&b");
    assert!(body.contains("a&amp;b"), "missing &amp; escape: {body}");
    assert!(!body.contains("a&b\n"), "unescaped & present: {body}");
}

#[test]
fn build_uid_report_body_escapes_xml_special_chars_in_uid() {
    let body = build_uid_report_body("a&b<c>d\"e'f");
    assert!(body.contains("a&amp;b"), "missing &amp;: {body}");
    assert!(body.contains("&lt;c&gt;"), "missing &lt;&gt;: {body}");
    assert!(body.contains("&quot;e&apos;f"), "missing &quot;&apos;: {body}");
}

fn make_event(id: &str) -> CalendarEvent {
    CalendarEvent {
        id: id.to_string(),
        calendar_id: "default".to_string(),
        title: id.to_string(),
        start: EventDateTime {
            value: "2026-04-03T09:00:00Z".to_string(),
            timezone: None,
            all_day: false,
        },
        end: EventDateTime {
            value: "2026-04-03T10:00:00Z".to_string(),
            timezone: None,
            all_day: false,
        },
        ..Default::default()
    }
}

#[test]
fn list_events_partial_failure_returns_successes() {
    let results: Vec<Result<(String, Vec<CalendarEvent>), Error>> = vec![
        Ok(("/cal1".to_string(), vec![make_event("event-a")])),
        Err(Error::Server("connection refused".to_string())),
        Ok(("/cal3".to_string(), vec![make_event("event-c")])),
    ];
    let events = collect_partial_events(results);
    assert_eq!(events.len(), 2);
    let ids: Vec<&str> = events.iter().map(|e| e.id.as_str()).collect();
    assert!(ids.contains(&"event-a"));
    assert!(ids.contains(&"event-c"));
}

#[test]
fn list_events_all_success_flattened_in_order() {
    let results: Vec<Result<(String, Vec<CalendarEvent>), Error>> = vec![
        Ok(("/cal1".to_string(), vec![make_event("event-a"), make_event("event-b")])),
        Ok(("/cal2".to_string(), vec![make_event("event-c")])),
    ];
    let events = collect_partial_events(results);
    assert_eq!(events.len(), 3);
    assert_eq!(events[0].id, "event-a");
    assert_eq!(events[1].id, "event-b");
    assert_eq!(events[2].id, "event-c");
}

#[test]
fn list_events_all_failure_returns_empty() {
    let results: Vec<Result<(String, Vec<CalendarEvent>), Error>> = vec![
        Err(Error::Server("timeout".to_string())),
        Err(Error::Server("timeout".to_string())),
    ];
    let events = collect_partial_events(results);
    assert!(events.is_empty());
}

#[test]
fn test_attendee_email_newline_escaped() {
    let a = EventAttendee {
        email: "a@b.com\nSUMMARY:Injected".into(),
        ..Default::default()
    };
    let s = serialize_attendee(&a);
    assert!(s.contains(r"mailto:a@b.com\nSUMMARY:Injected"), "got: {s}");
    assert_eq!(s.lines().count(), 1, "must not produce multiple lines: {s}");
}

#[test]
fn test_attendee_role_invalid_dropped() {
    let a = EventAttendee {
        email: "a@b.com".into(),
        role: Some("INJECT;X".into()),
        ..Default::default()
    };
    let s = serialize_attendee(&a);
    assert!(!s.contains("ROLE="), "bad role should be dropped: {s}");
}

#[test]
fn test_attendee_partstat_case_normalized() {
    let a = EventAttendee {
        email: "a@b.com".into(),
        partstat: Some("accepted".into()),
        ..Default::default()
    };
    let s = serialize_attendee(&a);
    assert!(s.contains("PARTSTAT=ACCEPTED"), "got: {s}");
}

#[test]
fn test_rrule_until_invalid_dropped() {
    let r = EventRecurrence {
        frequency: "DAILY".into(),
        until: Some("2026-04-30;INJECT".into()),
        ..Default::default()
    };
    let s = serialize_rrule(&r);
    assert!(!s.contains("UNTIL="), "bad until should be dropped: {s}");
}

#[test]
fn test_rrule_until_valid_kept() {
    let r1 = EventRecurrence {
        frequency: "DAILY".into(),
        until: Some("20260430".into()),
        ..Default::default()
    };
    assert!(serialize_rrule(&r1).contains("UNTIL=20260430"));
    let r2 = EventRecurrence {
        frequency: "DAILY".into(),
        until: Some("20260430T120000Z".into()),
        ..Default::default()
    };
    assert!(serialize_rrule(&r2).contains("UNTIL=20260430T120000Z"));
}

#[test]
fn test_rrule_byday_invalid_dropped() {
    let r = EventRecurrence {
        frequency: "WEEKLY".into(),
        by_day: vec!["MO".into(), "BAD\n".into(), "-1SU".into()],
        ..Default::default()
    };
    let s = serialize_rrule(&r);
    assert!(s.contains("BYDAY=MO,-1SU"), "got: {s}");
}

#[test]
fn test_rrule_freq_invalid_empty() {
    let r = EventRecurrence {
        frequency: "EVIL;X".into(),
        ..Default::default()
    };
    let s = serialize_rrule(&r);
    assert!(s.starts_with("FREQ=;") || s == "FREQ=", "bad freq should be empty: {s}");
}

#[test]
fn test_parse_and_serialize_event_round_trip() {
    let ics = "BEGIN:VCALENDAR\r\nVERSION:2.0\r\nBEGIN:VEVENT\r\nUID:event-1\r\nSUMMARY:Team Sync\r\nDTSTART;TZID=America/New_York:20260403T090000\r\nDTEND;TZID=America/New_York:20260403T093000\r\nLOCATION:Room 1\r\nDESCRIPTION:Agenda\\nLine 2\r\nATTENDEE;CN=Alice;ROLE=REQ-PARTICIPANT;PARTSTAT=ACCEPTED:mailto:alice@example.com\r\nRRULE:FREQ=WEEKLY;INTERVAL=1;BYDAY=MO,WE\r\nBEGIN:VALARM\r\nACTION:DISPLAY\r\nTRIGGER:-PT15M\r\nDESCRIPTION:Reminder\r\nEND:VALARM\r\nEND:VEVENT\r\nEND:VCALENDAR\r\n";
    let event = parse_ical_event(
        ics,
        Some("/dav/calendars/user/test/default/event-1.ics".into()),
        Some("\"etag\"".into()),
        "default".into(),
        Some("Default".into()),
    )
    .unwrap();
    assert_eq!(event.id, "event-1");
    assert_eq!(event.title, "Team Sync");
    assert_eq!(event.start.timezone.as_deref(), Some("America/New_York"));
    assert_eq!(event.start.value, "2026-04-03T09:00:00");
    assert_eq!(event.description.as_deref(), Some("Agenda\nLine 2"));
    assert_eq!(event.attendees.len(), 1);
    assert_eq!(event.attendees[0].name.as_deref(), Some("Alice"));
    assert_eq!(event.reminders[0].minutes_before, 15);

    let serialized = serialize_ical_event(&event);
    assert!(serialized.contains("SUMMARY:Team Sync"));
    assert!(serialized.contains("RRULE:FREQ=WEEKLY;INTERVAL=1;BYDAY=MO,WE"));
    assert!(serialized.contains("TRIGGER:-PT15M"));
    assert!(serialized.contains("DTSTART;TZID=America/New_York:20260403T090000"));
}

#[test]
fn test_parse_event_datetime_all_day() {
    let parsed = parse_event_datetime("DTSTART;VALUE=DATE:20260403");
    assert!(parsed.all_day);
    assert_eq!(parsed.value, "2026-04-03");
}

#[test]
fn parse_event_datetime_utc() {
    let parsed = parse_event_datetime("DTSTART:20260401T130000Z");
    assert!(!parsed.all_day);
    assert_eq!(parsed.value, "2026-04-01T13:00:00Z");
    assert!(parsed.timezone.is_none());
}

#[test]
fn parse_event_datetime_keeps_unreadable_value() {
    let parsed = parse_event_datetime("DTSTART:tomorrow");
    assert_eq!(parsed.value, "tomorrow");
}

#[test]
fn test_serialize_datetime_property_with_timezone() {
    let dt = EventDateTime {
        value: "2026-04-03T09:00:00".into(),
        timezone: Some("America/New_York".into()),
        all_day: false,
    };
    assert_eq!(
        serialize_datetime_property("DTSTART", &dt),
        "DTSTART;TZID=America/New_York:20260403T090000"
    );
}

#[test]
fn serialize_datetime_property_all_day_and_utc() {
    let day = EventDateTime { value: "2026-04-03".into(), timezone: None, all_day: true };
    assert_eq!(serialize_datetime_property("DTSTART", &day), "DTSTART;VALUE=DATE:20260403");
    let utc = EventDateTime { value: "2026-04-03T09:00:00Z".into(), timezone: None, all_day: false };
    assert_eq!(serialize_datetime_property("DTEND", &utc), "DTEND:20260403T090000Z");
    let odd = EventDateTime { value: "soon".into(), timezone: None, all_day: false };
    assert_eq!(serialize_datetime_property("DTEND", &odd), "DTEND:soon");
}

#[test]
fn parse_ical_event_requires_uid_summary_and_times() {
    let ics = "BEGIN:VEVENT\r\nUID:x\r\nDTSTART:20260401T130000Z\r\nDTEND:20260401T133000Z\r\nEND:VEVENT\r\n";
    assert!(parse_ical_event(ics, None, None, "c".into(), None).is_none());
}

#[test]
fn parse_ical_event_ignores_lines_outside_the_event() {
    let ics = "SUMMARY:Outside\r\nBEGIN:VEVENT\r\nUID:x\r\nSUMMARY:Inside\r\nDTSTART:20260401T130000Z\r\nDTEND:20260401T133000Z\r\nEND:VEVENT\r\nSUMMARY:After\r\n";
    let event = parse_ical_event(ics, None, None, "c".into(), None).unwrap();
    assert_eq!(event.title, "Inside");
    assert_eq!(event.calendar_id, "c");
}

#[test]
fn serialize_ical_event_at_is_folded_and_stamped() {
    let mut event = make_event("e1");
    event.description = Some("d".repeat(100));
    let text = serialize_ical_event_at(&event, "20260101T000000Z");
    assert!(text.starts_with("BEGIN:VCALENDAR\r\n"));
    assert!(text.contains("DTSTAMP:20260101T000000Z\r\n"));
    assert!(text.contains("\r\n "));
    assert!(text.ends_with("END:VEVENT\r\nEND:VCALENDAR\r\n"));
    let back = parse_ical_event(&text, None, None, "default".into(), None).unwrap();
    assert_eq!(back.description, event.description);
}

#[test]
fn trigger_minutes_round_trip() {
    for m in [0, 15, 60, 90, 1440] {
        let text = serialize_trigger_minutes(m);
        assert_eq!(parse_trigger_minutes(&text), m);
    }
    assert_eq!(serialize_trigger_minutes(90), "-PT1H30M");
    assert_eq!(serialize_trigger_minutes(-120), "-PT2H");
    assert_eq!(parse_trigger_minutes("PT15M"), 0);
}

#[test]
fn parse_attendee_reads_parameters() {
    let a = parse_attendee("ATTENDEE;CN=Bob\\, Jr;RSVP=true;PARTSTAT=TENTATIVE:mailto:bob@example.com").unwrap();
    assert_eq!(a.email, "bob@example.com");
    assert_eq!(a.name.as_deref(), Some("Bob, Jr"));
    assert_eq!(a.rsvp, Some(true));
    assert_eq!(a.partstat.as_deref(), Some("TENTATIVE"));
    assert!(parse_attendee("ATTENDEE:mailto:").is_none());
}

#[test]
fn parse_rrule_reads_fields() {
    let r = parse_rrule("FREQ=DAILY;COUNT=5;UNTIL=20260101;BYDAY=MO,TU").unwrap();
    assert_eq!(r.frequency, "DAILY");
    assert_eq!(r.count, Some(5));
    assert_eq!(r.until.as_deref(), Some("20260101"));
    assert_eq!(r.by_day, vec!["MO".to_string(), "TU".to_string()]);
    assert!(parse_rrule("FREQ=DAILY;BROKEN").is_none());
    assert!(parse_rrule("COUNT=5").is_none());
}

#[test]
fn weekday_codes_are_monday_based() {
    assert_eq!(weekday_code_to_index("MO"), Some(0));
    assert_eq!(weekday_code_to_index("SU"), Some(6));
    assert_eq!(weekday_code_to_index("mo"), None);
}

#[test]
fn unfold_ical_joins_continuations() {
    assert_eq!(unfold_ical("A:b\r\n c\r\nD:e"), "A:bc\nD:e");
}

#[test]
fn slugify_and_resource_paths() {
    assert_eq!(slugify("My Work Calendar!"), "my-work-calendar");
    assert_eq!(slugify("***"), "calendar");
    assert_eq!(resource_id_from_href("/dav/calendars/user/x/Default/"), "Default");
    assert_eq!(resource_id_from_href("/dav/cal/event-1.ics"), "event-1");
    assert_eq!(build_event_href("/dav/cal/", "e1"), "/dav/cal/e1.ics");
}

#[test]
fn calendar_bodies_escape_names() {
    let body = mkcalendar_body("A & B", Some("#ff0000"));
    assert!(body.contains("<d:displayname>A &amp; B</d:displayname>"));
    assert!(body.contains("<apple:calendar-color>#ff0000</apple:calendar-color>"));
    let patch = proppatch_calendar_body("<x>", None);
    assert!(patch.contains("<d:displayname>&lt;x&gt;</d:displayname>"));
    assert!(!patch.contains("calendar-color"));
    assert_eq!(xml_escape("a<b>&"), "a&lt;b&gt;&amp;");
}

#[test]
fn location_paths() {
    assert_eq!(
        extract_location_path(Some("https://caldav.fastmail.com/dav/calendars/user/test/abc/".into())).as_deref(),
        Some("/dav/calendars/user/test/abc/")
    );
    assert_eq!(
        extract_location_path(Some("/dav/calendars/user/test/xyz/".into())).as_deref(),
        Some("/dav/calendars/user/test/xyz/")
    );
    assert_eq!(extract_location_path(Some("https://elsewhere.example/".into())), None);
    assert_eq!(extract_location_path(None), None);
}

#[test]
fn calendar_delete_retry_decision() {
    assert!(should_retry_calendar_delete_without_etag(412, Some("\"abc\""), &None));
    assert!(!should_retry_calendar_delete_without_etag(412, None, &None));
    assert!(!should_retry_calendar_delete_without_etag(412, Some("\"abc\""), &Some("\"next\"".into())));
    assert!(!should_retry_calendar_delete_without_etag(500, Some("\"abc\""), &None));
}

#[test]
fn write_errors_by_status() {
    let cal = Calendar {
        id: "work".into(),
        name: "Work".into(),
        color: None,
        description: None,
        href: "/dav/work/".into(),
        etag: Some("\"e1\"".into()),
        ctag: None,
        is_default: false,
    };
    match map_calendar_write_error(&cal, 412, "412 Precondition Failed", Some("\"e2\"".into()), "") {
        Error::CalendarConflict { id, sent_etag, server_etag } => {
            assert_eq!(id, "work");
            assert_eq!(sent_etag, "\"e1\"");
            assert_eq!(server_etag.as_deref(), Some("\"e2\""));
        }
        other => panic!("unexpected {other:?}"),
    }
    assert!(matches!(map_calendar_write_error(&cal, 404, "404 Not Found", None, ""), Error::CalendarNotFound(_)));
    match map_event_write_error(&make_event("e9"), None, 500, "500 Internal Server Error", None, "boom") {
        Error::Server(m) => assert_eq!(m, "CalDAV event write failed for e9: 500 Internal Server Error - boom"),
        other => panic!("unexpected {other:?}"),
    }
}

#[test]
fn reminders_serialize_with_default_action() {
    let mut event = make_event("e2");
    event.reminders = vec![EventReminder { minutes_before: 30, action: None }];
    let text = serialize_ical_event_at(&event, "20260101T000000Z");
    assert!(text.contains("BEGIN:VALARM\r\nACTION:DISPLAY\r\nTRIGGER:-PT30M\r\n"));
}

#[test]
fn calendar_delete_retries_when_server_rejects_if_match_without_replacement_etag() {
    assert!(should_retry_calendar_delete_without_etag(412, Some("\"abc\""), &None));
}

#[test]
fn calendar_delete_does_not_retry_without_sent_etag() {
    assert!(!should_retry_calendar_delete_without_etag(412, None, &None));
}

#[test]
fn calendar_delete_does_not_retry_when_server_supplies_new_etag() {
    assert!(!should_retry_calendar_delete_without_etag(
        412,
        Some("\"abc\""),
        &Some("\"next\"".to_string()),
    ));
}

#[test]
fn mod_test_extract_location_path_handles_absolute_and_relative_urls() {
    assert_eq!(
        extract_location_path(Some(
            "https://caldav.fastmail.com/dav/calendars/user/test/abc/".to_string()
        ))
        .as_deref(),
        Some("/dav/calendars/user/test/abc/")
    );
    assert_eq!(
        extract_location_path(Some("/dav/calendars/user/test/xyz/".to_string())).as_deref(),
        Some("/dav/calendars/user/test/xyz/")
    );
    assert_eq!(
        fastmail_cli::carddav::responses::extract_location_path(Some(
            "https://carddav.fastmail.com/dav/addressbooks/user/test/Default/abc.vcf".to_string()
        ))
        .as_deref(),
        Some("/dav/addressbooks/user/test/Default/abc.vcf")
    );
    assert_eq!(
        fastmail_cli::carddav::responses::extract_location_path(Some(
            "/dav/addressbooks/user/test/Default/xyz.vcf".to_string()
        ))
        .as_deref(),
        Some("/dav/addressbooks/user/test/Default/xyz.vcf")
    );
}

#[test]
fn event_read_back_keeps_written_fields() {
    let mut event = make_event("uid-read-back; with, escapes");
    event.title = "Planning \\ review, part 1".to_string();
    event.start = EventDateTime { value: "2026-04-03T09:00:00".to_string(), timezone: Some("Europe/London".to_string()), all_day: false };
    event.end = EventDateTime { value: "2026-04-03".to_string(), timezone: None, all_day: true };
    event.location = Some("Room 7; second floor".to_string());
    event.description = Some(String::new());
    event.reminders = vec![
        EventReminder { minutes_before: 90, action: None },
        EventReminder { minutes_before: -15, action: Some("AUDIO".to_string()) },
    ];
    let written = serialize_ical_event(&event);
    let read = parse_ical_event(&written, Some("/h.ics".to_string()), None, "cal".to_string(), None).unwrap();
    assert_eq!(read.id, event.id);
    assert_eq!(read.title, event.title);
    assert_eq!(read.location, event.location);
    assert_eq!(read.description, None);
    assert_eq!(read.start, event.start);
    assert_eq!(read.end, event.end);
    assert_eq!(read.reminders.len(), 2);
    assert_eq!(read.reminders[0].minutes_before, 90);
    assert_eq!(read.reminders[0].action.as_deref(), Some("DISPLAY"));
    assert_eq!(read.reminders[1].minutes_before, 15);
    assert_eq!(read.reminders[1].action.as_deref(), Some("AUDIO"));
    assert_eq!(read.calendar_id, "cal");
    assert_eq!(read.href.as_deref(), Some("/h.ics"));
}

#[test]
fn serialized_event_stamp_is_a_utc_date_time() {
    let written = serialize_ical_event(&make_event("stamped"));
    let stamp = written
        .lines()
        .find_map(|l| l.strip_prefix("DTSTAMP:"))
        .expect("DTSTAMP line");
    assert_eq!(stamp.len(), 16);
    assert!(stamp.chars().all(|c| c.is_ascii_digit() || c == 'T' || c == 'Z'));
    assert!(stamp.ends_with('Z'));
    assert_eq!(&stamp[8..9], "T");
}

#[test]
fn byday_ordinals_have_one_or_two_digits() {
    assert!(is_valid_byday("MO"));
    assert!(is_valid_byday("-1SU"));
    assert!(is_valid_byday("+53fr"));
    assert!(!is_valid_byday("123MO"));
    assert!(!is_valid_byday("+MO"));
    assert!(!is_valid_byday("ÄÖ"));
    assert!(!is_valid_byday("1Ö"));
    let r = EventRecurrence {
        frequency: "MONTHLY".into(),
        by_day: vec!["123MO".into(), "2TU".into(), "Ö".into()],
        ..Default::default()
    };
    assert_eq!(serialize_rrule(&r), "FREQ=MONTHLY;BYDAY=2TU");
}

fn exact_round_trip(event: CalendarEvent) {
    let written = serialize_ical_event(&event);
    let read = parse_ical_event(
        &written,
        event.href.clone(),
        event.etag.clone(),
        event.calendar_id.clone(),
        event.calendar_name.clone(),
    );
    assert_eq!(read, Some(event));
}

#[test]
fn exact_events_read_back_unchanged() {
    let base = CalendarEvent {
        id: "round-1".to_string(),
        calendar_id: "default".to_string(),
        calendar_name: Some("Default".to_string()),
        href: Some("/dav/calendars/user/test/default/round-1.ics".to_string()),
        etag: Some("\"e1\"".to_string()),
        title: "Planning; review, notes".to_string(),
        start: EventDateTime {
            value: "2024-02-29T10:30:00".to_string(),
            timezone: Some("Europe/Berlin".to_string()),
            all_day: false,
        },
        end: EventDateTime {
            value: "2024-02-29T11:00:05".to_string(),
            timezone: Some("Europe/Berlin".to_string()),
            all_day: false,
        },
        location: Some("Room 4".to_string()),
        description: Some("Line 1\nLine 2".to_string()),
        attendees: vec![],
        recurrence: None,
        reminders: vec![EventReminder { minutes_before: 0, action: Some("DISPLAY".to_string()) }],
    };
    exact_round_trip(base.clone());
    exact_round_trip(CalendarEvent {
        start: EventDateTime { value: "0999-12-31".to_string(), timezone: None, all_day: true },
        end: EventDateTime { value: "1000-01-01".to_string(), timezone: None, all_day: true },
        location: None,
        reminders: vec![],
        ..base.clone()
    });
    exact_round_trip(CalendarEvent {
        start: EventDateTime { value: "2026-04-01T13:00:00Z".to_string(), timezone: None, all_day: false },
        end: EventDateTime { value: "2026-04-01T23:59:59Z".to_string(), timezone: None, all_day: false },
        description: None,
        ..base
    });
}
