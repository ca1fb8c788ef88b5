use fastmail_cli::caldav::{CalendarEvent, EventAttendee, EventReminder};
use fastmail_cli::carddav::{Contact, ContactEmail, ContactPhone};
use fastmail_cli::commands::contacts::{apply_contact_patch, build_contact, ContactInput, ContactPatch};
use fastmail_cli::commands::events::{
    apply_event_patch, build_event, build_event_with_id, normalize_event_datetime, EventInput,
    EventPatch,
};
use fastmail_cli::error::Error;
use uuid::Uuid;

fn sample_contact() -> Contact {
    Contact {
        id: "contact-1".to_string(),
        name: "Jane Doe".to_string(),
        emails: vec![ContactEmail {
            email: "jane@example.com".to_string(),
            label: None,
        }],
        phones: vec![ContactPhone {
            number: "+1 555 0000".to_string(),
            label: None,
        }],
        organization: Some("Acme".to_string()),
        title: Some("Manager".to_string()),
        notes: Some("Met at conference".to_string()),
        address: Some("123 Main St".to_string()),
        href: Some("/dav/addressbooks/user/test/default/contact-1.vcf".to_string()),
        etag: Some("\"etag-1\"".to_string()),
    }
}

#[test]
fn test_build_contact_uses_uuid_and_optional_fields() {
    let contact = build_contact(ContactInput {
        name: "Jane Doe".to_string(),
        email: Some("jane@example.com".to_string()),
        phone: Some("+1 555 0000".to_string()),
        organization: Some("Acme".to_string()),
        title: Some("Manager".to_string()),
        address: Some("123 Main St".to_string()),
        notes: Some("Met at conference".to_string()),
    });

    assert_eq!(contact.name, "Jane Doe");
    assert_eq!(contact.emails[0].email, "jane@example.com");
    assert_eq!(contact.phones[0].number, "+1 555 0000");
    assert_eq!(contact.organization.as_deref(), Some("Acme"));
    assert_eq!(contact.title.as_deref(), Some("Manager"));
    assert_eq!(contact.address.as_deref(), Some("123 Main St"));
    assert_eq!(contact.notes.as_deref(), Some("Met at conference"));
    assert!(Uuid::parse_str(&contact.id).is_ok());
}

#[test]
fn test_apply_contact_patch_only_overrides_supplied_fields() {
    let existing = sample_contact();
    let updated = apply_contact_patch(
        &existing,
        ContactPatch {
            phone: Some("+1 555 0100".to_string()),
            notes: Some("Updated note".to_string()),
            ..Default::default()
        },
    );

    assert_eq!(updated.name, existing.name);
    assert_eq!(updated.emails, existing.emails);
    assert_eq!(updated.phones[0].number, "+1 555 0100");
    assert_eq!(updated.notes.as_deref(), Some("Updated note"));
    assert_eq!(updated.organization, existing.organization);
    assert_eq!(updated.href, existing.href);
    assert_eq!(updated.etag, existing.etag);
}

#[test]
fn build_contact_without_optional_fields() {
    let contact = build_contact(ContactInput { name: "Solo".to_string(), ..Default::default() });
    assert!(contact.emails.is_empty());
    assert!(contact.phones.is_empty());
    assert!(contact.href.is_none());
    assert_eq!(contact.id.len(), 36);
}

#[test]
fn empty_contact_patch_changes_nothing() {
    let existing = sample_contact();
    let updated = apply_contact_patch(&existing, ContactPatch::default());
    assert_eq!(updated, existing);
}

#[test]
fn test_build_event_supports_all_day_dates() {
    let event = build_event(EventInput {
        title: "All day".into(),
        start: "2026-04-03".into(),
        end: "2026-04-04".into(),
        ..Default::default()
    })
    .unwrap();
    assert!(event.start.all_day);
    assert_eq!(event.start.value, "2026-04-03");
}

#[test]
fn test_apply_event_patch_replaces_selected_fields() {
    let existing = build_event(EventInput {
        title: "Before".into(),
        start: "2026-04-03T09:00:00".into(),
        end: "2026-04-03T10:00:00".into(),
        description: Some("Old".into()),
        ..Default::default()
    })
    .unwrap();

    let updated = apply_event_patch(
        &existing,
        EventPatch {
            title: Some("After".into()),
            description: Some(String::new()),
            clear_reminders: true,
            ..Default::default()
        },
    )
    .unwrap();

    assert_eq!(updated.title, "After");
    assert!(updated.description.is_none());
    assert!(updated.reminders.is_empty());
}

#[test]
fn test_apply_event_patch_can_clear_attendees() {
    let existing = CalendarEvent {
        attendees: vec![EventAttendee {
            email: "person@example.com".into(),
            ..Default::default()
        }],
        ..build_event(EventInput {
            title: "Before".into(),
            start: "2026-04-03T09:00:00".into(),
            end: "2026-04-03T10:00:00".into(),
            ..Default::default()
        })
        .unwrap()
    };

    let updated = apply_event_patch(
        &existing,
        EventPatch {
            attendees: Some(Vec::new()),
            ..Default::default()
        },
    )
    .unwrap();

    assert!(updated.attendees.is_empty());
}

#[test]
fn test_apply_event_patch_updates_timezone_without_replacing_times() {
    let existing = build_event(EventInput {
        title: "Before".into(),
        start: "2026-04-03T09:00:00".into(),
        end: "2026-04-03T10:00:00".into(),
        timezone: Some("America/New_York".into()),
        ..Default::default()
    })
    .unwrap();

    let updated = apply_event_patch(
        &existing,
        EventPatch {
            timezone: Some("America/Chicago".into()),
            ..Default::default()
        },
    )
    .unwrap();

    assert_eq!(updated.start.value, existing.start.value);
    assert_eq!(updated.end.value, existing.end.value);
    assert_eq!(updated.start.timezone.as_deref(), Some("America/Chicago"));
    assert_eq!(updated.end.timezone.as_deref(), Some("America/Chicago"));
}

#[test]
fn test_apply_event_patch_ignores_timezone_only_change_for_all_day_events() {
    let existing = build_event(EventInput {
        title: "All day".into(),
        start: "2026-04-03".into(),
        end: "2026-04-04".into(),
        ..Default::default()
    })
    .unwrap();

    let updated = apply_event_patch(
        &existing,
        EventPatch {
            timezone: Some("America/Chicago".into()),
            ..Default::default()
        },
    )
    .unwrap();

    assert!(updated.start.all_day);
    assert!(updated.end.all_day);
    assert!(updated.start.timezone.is_none());
    assert!(updated.end.timezone.is_none());
}

#[test]
fn normalize_event_datetime_forms() {
    let d = normalize_event_datetime("2026-04-03", Some("Europe/Paris".into())).unwrap();
    assert!(d.all_day);
    assert!(d.timezone.is_none());
    let u = normalize_event_datetime("2026-04-03T12:00:00+02:00", None).unwrap();
    assert_eq!(u.value, "2026-04-03T10:00:00Z");
    let short = normalize_event_datetime("2026-04-03T09:30", Some("Europe/Paris".into())).unwrap();
    assert_eq!(short.value, "2026-04-03T09:30:00");
    assert_eq!(short.timezone.as_deref(), Some("Europe/Paris"));
}

#[test]
fn normalize_event_datetime_rejects_garbage() {
    match normalize_event_datetime("next tuesday", None) {
        Err(Error::Config(m)) => assert_eq!(
            m,
            "Invalid event date/time 'next tuesday'. Use YYYY-MM-DD, YYYY-MM-DDTHH:MM[:SS], or RFC3339."
        ),
        other => panic!("unexpected {other:?}"),
    }
}

#[test]
fn build_event_reports_bad_end_time() {
    let r = build_event_with_id(
        EventInput {
            title: "x".into(),
            start: "2026-04-03".into(),
            end: "later".into(),
            ..Default::default()
        },
        "id-1".into(),
    );
    assert!(matches!(r, Err(Error::Config(m)) if m.contains("'later'")));
}

#[test]
fn build_event_drops_empty_location_and_keeps_reminders() {
    let event = build_event_with_id(
        EventInput {
            title: "x".into(),
            start: "2026-04-03".into(),
            end: "2026-04-04".into(),
            location: Some(String::new()),
            reminders: vec![EventReminder { minutes_before: 10, action: None }],
            ..Default::default()
        },
        "id-2".into(),
    )
    .unwrap();
    assert_eq!(event.id, "id-2");
    assert!(event.location.is_none());
    assert_eq!(event.reminders.len(), 1);
    assert_eq!(event.calendar_id, "");
}

#[test]
fn apply_event_patch_clears_recurrence() {
    let mut existing = build_event_with_id(
        EventInput { title: "x".into(), start: "2026-04-03".into(), end: "2026-04-04".into(), ..Default::default() },
        "id-3".into(),
    )
    .unwrap();
    existing.recurrence = fastmail_cli::caldav::parse_rrule("FREQ=DAILY");
    let updated = apply_event_patch(&existing, EventPatch { clear_recurrence: true, ..Default::default() }).unwrap();
    assert!(updated.recurrence.is_none());
    assert_eq!(updated.id, "id-3");
}

#[test]
fn built_contact_id_is_a_version_4_uuid() {
    let contact = build_contact(ContactInput { name: "V4".to_string(), ..Default::default() });
    let id: Vec<char> = contact.id.chars().collect();
    assert_eq!(id.len(), 36);
    assert_eq!(id[14], '4');
    assert!(matches!(id[19], '8' | '9' | 'a' | 'b'));
    assert_eq!(Uuid::parse_str(&contact.id).unwrap().get_version_num(), 4);
}
