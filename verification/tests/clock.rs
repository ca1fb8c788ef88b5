use chrono::Datelike;
use fastmail_cli::caldav::{
    add_months_preserving_local, event_datetime_to_utc, expand_event_for_range,
    expand_from_instants, parse_ical_event, parse_range_end, parse_range_start, parse_until_utc,
    recurrence_starts, shift_event_datetime, CalendarEvent, EventDateTime, EventRecurrence,
};
use fastmail_cli::caldav::clock::{today_range_of, week_range_of, LocalOffsets};
use fastmail_cli::commands::events::resolve_event_list_range;

const NS: i128 = 1_000_000_000;

fn at(secs: i64) -> i128 {
    secs as i128 * NS
}

fn utc(value: &str) -> EventDateTime {
    EventDateTime { value: value.to_string(), timezone: None, all_day: false }
}

fn rule(frequency: &str, interval: Option<u32>, count: Option<u32>, by_day: &[&str]) -> EventRecurrence {
    EventRecurrence {
        frequency: frequency.to_string(),
        interval,
        count,
        until: None,
        by_day: by_day.iter().map(|d| d.to_string()).collect(),
    }
}

fn event_between(start: &str, end: &str, recurrence: Option<EventRecurrence>) -> CalendarEvent {
    CalendarEvent {
        id: "ev".to_string(),
        calendar_id: "default".to_string(),
        title: "Sync".to_string(),
        start: utc(start),
        end: utc(end),
        recurrence,
        ..CalendarEvent::default()
    }
}

fn weekday_of(instant: i128) -> u32 {
    chrono::DateTime::from_timestamp((instant.div_euclid(NS)) as i64, 0)
        .unwrap()
        .weekday()
        .num_days_from_monday()
}

fn parse_day(instant: i128) -> String {
    chrono::DateTime::from_timestamp((instant.div_euclid(NS)) as i64, 0)
        .unwrap()
        .format("%Y-%m-%d")
        .to_string()
}

#[test]
fn test_recurring_all_day_event_expands_to_matching_occurrence() {
    let event = parse_ical_event(
        "BEGIN:VCALENDAR\r\nVERSION:2.0\r\nBEGIN:VEVENT\r\nUID:payday\r\nSUMMARY:Payday\r\nDTSTART;VALUE=DATE:20260123\r\nDTEND;VALUE=DATE:20260124\r\nRRULE:FREQ=WEEKLY;INTERVAL=2\r\nEND:VEVENT\r\nEND:VCALENDAR\r\n",
        Some("/dav/calendars/user/test/default/payday.ics".into()),
        Some("\"etag\"".into()),
        "default".into(),
        Some("Default".into()),
    )
    .unwrap();

    let range_start = parse_range_start("2026-04-03").unwrap();
    let range_end = parse_range_end("2026-04-03").unwrap();
    let expanded = expand_event_for_range(&event, range_start, range_end).unwrap();

    assert_eq!(expanded.len(), 1);
    assert_eq!(expanded[0].start.value, "2026-04-03");
    assert_eq!(expanded[0].end.value, "2026-04-04");
}

#[test]
fn test_non_matching_recurring_event_is_filtered_out() {
    let event = parse_ical_event(
        "BEGIN:VCALENDAR\r\nVERSION:2.0\r\nBEGIN:VEVENT\r\nUID:weekly-sync\r\nSUMMARY:Weekly Sync\r\nDTSTART:20260401T130000Z\r\nDTEND:20260401T133000Z\r\nRRULE:FREQ=WEEKLY;INTERVAL=1;BYDAY=WE\r\nEND:VEVENT\r\nEND:VCALENDAR\r\n",
        Some("/dav/calendars/user/test/default/weekly-sync.ics".into()),
        Some("\"etag\"".into()),
        "default".into(),
        Some("Default".into()),
    )
    .unwrap();

    let range_start = parse_range_start("2026-04-03").unwrap();
    let range_end = parse_range_end("2026-04-03").unwrap();
    let expanded = expand_event_for_range(&event, range_start, range_end).unwrap();

    assert!(expanded.is_empty());
}

#[test]
fn test_parse_range_helpers_accept_date_and_rfc3339() {
    assert!(parse_range_start("2026-04-03").is_ok());
    assert!(parse_range_end("2026-04-03T12:00:00Z").is_ok());
}

#[test]
fn test_resolve_event_list_range_defaults_to_today() {
    let (start, end) = resolve_event_list_range(None, None, false).unwrap();
    let start = start.unwrap();
    let end = end.unwrap();

    assert!(end > start);
    assert!((end - start) <= 24 * 3600 * NS);
}

#[test]
fn test_resolve_event_list_range_supports_week_mode() {
    let (start, end) = resolve_event_list_range(None, None, true).unwrap();
    let start = start.unwrap();
    let end = end.unwrap();

    assert_eq!(weekday_of(start), 0);
    assert_eq!(weekday_of(end), 0);
}

#[test]
fn test_resolve_event_list_range_supports_explicit_bounds() {
    let (start, end) =
        resolve_event_list_range(Some("2026-04-05"), Some("2026-04-06"), false).unwrap();
    let start = start.unwrap();
    let end = end.unwrap();

    assert_eq!(parse_day(start), "2026-04-05");
    assert_eq!(parse_day(end), "2026-04-07");
}

#[test]
fn test_resolve_event_list_range_rejects_start_only() {
    let error = resolve_event_list_range(Some("2026-04-05"), None, false).unwrap_err();
    assert_eq!(
        error.message(),
        "Config error: Explicit event ranges require both start and end."
    );
}

#[test]
fn test_resolve_event_list_range_rejects_end_only() {
    let error = resolve_event_list_range(None, Some("2026-04-05"), false).unwrap_err();
    assert_eq!(
        error.message(),
        "Config error: Explicit event ranges require both start and end."
    );
}

#[test]
fn range_bound_reads_rfc3339_exactly() {
    assert_eq!(parse_range_start("2026-04-03T12:00:00Z").unwrap(), at(1775217600));
    assert_eq!(parse_range_end("2026-04-03T14:00:00+02:00").unwrap(), at(1775217600));
}

#[test]
fn range_bound_rejects_other_text() {
    let error = parse_range_start("next tuesday").unwrap_err();
    assert_eq!(
        error.message(),
        "Config error: Invalid date/time 'next tuesday'. Use YYYY-MM-DD or RFC3339."
    );
}

#[test]
fn until_reads_rfc3339_and_compact_utc() {
    assert_eq!(parse_until_utc("2026-04-10T00:00:00Z"), Some(at(1775779200)));
    assert_eq!(parse_until_utc("20260410T000000Z"), Some(at(1775779200)));
    assert_eq!(parse_until_utc("soon"), None);
    assert!(parse_until_utc("20260409").is_some());
}

#[test]
fn utc_event_time_reads_exactly() {
    assert_eq!(event_datetime_to_utc(&utc("2026-04-01T13:00:00Z")), Some(at(1775048400)));
    assert_eq!(event_datetime_to_utc(&utc("13:00Z")), None);
    let day = EventDateTime { value: "not a date".to_string(), timezone: None, all_day: true };
    assert_eq!(event_datetime_to_utc(&day), None);
}

#[test]
fn shifting_a_utc_time_writes_utc() {
    let shifted = shift_event_datetime(&utc("2026-01-01T00:00:00Z"), at(1775048400));
    assert_eq!(shifted.value, "2026-04-01T13:00:00Z");
    assert_eq!(shifted.timezone, None);
    assert!(!shifted.all_day);
    let local = EventDateTime {
        value: "2026-01-01T09:00:00".to_string(),
        timezone: Some("Europe/Paris".to_string()),
        all_day: false,
    };
    let shifted = shift_event_datetime(&local, at(1775048400));
    assert_eq!(shifted.timezone.as_deref(), Some("Europe/Paris"));
    assert!(!shifted.all_day);
}

#[test]
fn months_are_added_with_the_day_clamped() {
    assert_eq!(add_months_preserving_local(at(1769853600), 1), Some(at(1772272800)));
    assert_eq!(add_months_preserving_local(at(1769853600), 0), Some(at(1769853600)));
}

#[test]
fn daily_rule_stops_at_its_count() {
    let starts = recurrence_starts(
        &rule("DAILY", None, Some(3), &[]),
        at(1775034000),
        30 * 60 * NS,
        None,
        at(1775034000),
        at(1775779200),
    )
    .unwrap();
    assert_eq!(starts, vec![at(1775034000), at(1775034000 + 86400), at(1775034000 + 2 * 86400)]);
}

#[test]
fn weekly_rule_visits_each_listed_weekday() {
    // 2026-04-06 is a Monday.
    let starts = recurrence_starts(
        &rule("WEEKLY", Some(1), None, &["MO", "WE"]),
        at(1775433600),
        3600 * NS,
        None,
        at(1775433600),
        at(1776038400 + 86400),
    )
    .unwrap();
    assert_eq!(
        starts,
        vec![at(1775433600), at(1775433600 + 2 * 86400), at(1776038400)]
    );
}

#[test]
fn weekly_rule_skips_weeks_by_interval_and_honours_until() {
    let starts = recurrence_starts(
        &rule("WEEKLY", Some(2), None, &["MO"]),
        at(1775433600),
        3600 * NS,
        Some(at(1775433600 + 14 * 86400)),
        at(1775433600),
        at(1775433600 + 60 * 86400),
    )
    .unwrap();
    assert_eq!(starts, vec![at(1775433600), at(1775433600 + 14 * 86400)]);
}

#[test]
fn monthly_rule_clamps_to_month_end() {
    let starts = recurrence_starts(
        &rule("MONTHLY", None, Some(2), &[]),
        at(1769853600),
        3600 * NS,
        None,
        at(1769853600),
        at(1775779200),
    )
    .unwrap();
    assert_eq!(starts, vec![at(1769853600), at(1772272800)]);
}

#[test]
fn unknown_frequency_has_no_steps() {
    let starts = recurrence_starts(
        &rule("YEARLY", None, None, &[]),
        at(1775034000),
        3600 * NS,
        None,
        at(1775034000),
        at(1775779200),
    );
    assert!(starts.is_none());
}

#[test]
fn daily_expansion_moves_each_copy() {
    let event = event_between(
        "2026-04-01T09:00:00Z",
        "2026-04-01T09:30:00Z",
        Some(rule("DAILY", None, None, &[])),
    );
    let expanded = expand_event_for_range(&event, at(1775034000 + 86400), at(1775034000 + 3 * 86400)).unwrap();
    assert_eq!(expanded.len(), 2);
    assert_eq!(expanded[0].start.value, "2026-04-02T09:00:00Z");
    assert_eq!(expanded[0].end.value, "2026-04-02T09:30:00Z");
    assert_eq!(expanded[1].start.value, "2026-04-03T09:00:00Z");
    assert_eq!(expanded[1].title, "Sync");
}

#[test]
fn expansion_of_an_event_that_ends_before_it_starts_is_empty() {
    let event = event_between(
        "2026-04-01T10:00:00Z",
        "2026-04-01T09:00:00Z",
        Some(rule("DAILY", None, None, &[])),
    );
    let expanded = expand_from_instants(
        &event,
        &rule("DAILY", None, None, &[]),
        at(1775037600),
        at(1775034000),
        None,
        at(1775034000),
        at(1775779200),
    )
    .unwrap();
    assert!(expanded.is_empty());
}

#[test]
fn unknown_frequency_keeps_the_event_when_it_overlaps() {
    let event = event_between(
        "2026-04-01T09:00:00Z",
        "2026-04-01T09:30:00Z",
        Some(rule("HOURLY", None, None, &[])),
    );
    let hit = expand_event_for_range(&event, at(1775034000), at(1775779200)).unwrap();
    assert_eq!(hit.len(), 1);
    assert_eq!(hit[0], event);
    let miss = expand_event_for_range(&event, at(1775779200), at(1775779200 + 86400)).unwrap();
    assert!(miss.is_empty());
}

#[test]
fn single_event_is_kept_only_when_it_overlaps() {
    let event = event_between("2026-04-01T09:00:00Z", "2026-04-01T09:30:00Z", None);
    assert_eq!(expand_event_for_range(&event, at(1775034000), at(1775034000 + 60)).unwrap().len(), 1);
    assert!(expand_event_for_range(&event, at(1775034000 + 1800), at(1775034000 + 3600)).unwrap().is_empty());
}

#[test]
fn today_range_of_starts_now_and_ends_at_the_next_local_midnight() {
    // 2026-04-03 09:00:00 UTC, one hour east of UTC: the local day ends at 2026-04-03 23:00 UTC
    let (start, end) = today_range_of((1_775_206_800, 5), 3_600, LocalOffsets::Single(3_600)).unwrap();
    assert_eq!(start, at(1_775_206_800) + 5);
    assert_eq!(end, at(1_775_260_800 - 3_600));
    // the local clock skips midnight: read as UTC
    let (_, skipped) = today_range_of((1_775_206_800, 0), 3_600, LocalOffsets::Skipped).unwrap();
    assert_eq!(skipped, at(1_775_260_800));
    // the local clock repeats midnight: the first reading
    let (_, repeated) = today_range_of((1_775_206_800, 0), 0, LocalOffsets::Ambiguous(7_200, 3_600)).unwrap();
    assert_eq!(repeated, at(1_775_260_800 - 7_200));
    assert!(today_range_of((8_210_266_876_799, 0), 86_399, LocalOffsets::Skipped).is_none());
}

#[test]
fn week_range_of_spans_a_monday_to_the_next() {
    // Friday 2026-04-03 in UTC: Monday 2026-03-30 and Monday 2026-04-06
    let (a, b) = week_range_of(1_775_206_800, 0, LocalOffsets::Skipped, LocalOffsets::Single(-7_200)).unwrap();
    assert_eq!(a, at(1_774_828_800));
    assert_eq!(b, at(1_774_828_800 + 7 * 86_400 + 7_200));
    // west of UTC, Friday 00:30 UTC is still Thursday: the same week
    let (a2, _) = week_range_of(1_775_176_200, -3_600, LocalOffsets::Single(0), LocalOffsets::Single(0)).unwrap();
    assert_eq!(a2, at(1_774_828_800));
    assert!(week_range_of(8_210_266_876_799, 0, LocalOffsets::Skipped, LocalOffsets::Skipped).is_none());
}

#[test]
fn daily_rule_with_an_interval_of_millennia_expands() {
    let event = event_between(
        "2026-04-01T09:00:00Z",
        "2026-04-01T09:30:00Z",
        Some(rule("DAILY", Some(50_000_000), None, &[])),
    );
    let expanded = expand_event_for_range(&event, at(1775034000 - 86400), at(1775034000 + 86400)).unwrap();
    assert_eq!(expanded.len(), 1);
    assert_eq!(expanded[0].start.value, "2026-04-01T09:00:00Z");
    let starts = recurrence_starts(
        &rule("DAILY", Some(50_000_000), None, &[]),
        at(1775034000),
        1800 * NS,
        None,
        at(1775034000),
        at(1775034000 + 4_400_000_000_000),
    )
    .unwrap();
    assert_eq!(starts, vec![at(1775034000), at(1775034000) + 50_000_000 * 86_400 * NS]);
}
