use galopen::calendar::check_calendar_permission;
use galopen::provider::{
    calendar_event_from, fetch_window, settle, Authorization, CallOutcome, ProviderEvent,
    ProviderStatus,
};

fn occurrence(start: Option<i64>, end: Option<i64>, is_all_day: bool) -> ProviderEvent {
    ProviderEvent {
        title: Some("Standup".to_string()),
        start,
        end,
        is_all_day,
        identifier: Some("ev-1".to_string()),
        location: Some("Room 4".to_string()),
        notes: Some("bring notes".to_string()),
        url: Some("https://example.com".to_string()),
        status: ProviderStatus::Confirmed,
        calendar_id: Some("cal-1".to_string()),
        calendar_name: Some("Work".to_string()),
        external_url: Some("x-ext://1".to_string()),
    }
}

#[test]
fn a_timed_occurrence_carries_date_times() {
    let raw = occurrence(Some(1704103200), Some(1704106800), false);
    let event = calendar_event_from(&raw).unwrap();
    assert_eq!(event.start.date_time.as_deref(), Some("2024-01-01T10:00:00+00:00"));
    assert_eq!(event.start.date, None);
    assert_eq!(event.end.date_time.as_deref(), Some("2024-01-01T11:00:00+00:00"));
    assert_eq!(event.end.date, None);
    assert!(!event.is_all_day);
}

#[test]
fn an_all_day_occurrence_carries_days() {
    let raw = occurrence(Some(1704067200), Some(1704153599), true);
    let event = calendar_event_from(&raw).unwrap();
    assert_eq!(event.start.date.as_deref(), Some("2024-01-01"));
    assert_eq!(event.start.date_time, None);
    assert_eq!(event.end.date.as_deref(), Some("2024-01-01"));
    assert_eq!(event.end.date_time, None);
    assert!(event.is_all_day);
}

#[test]
fn the_fields_of_an_occurrence_carry_over() {
    let raw = occurrence(Some(1704103200), Some(1704106800), false);
    let event = calendar_event_from(&raw).unwrap();
    assert_eq!(event.id, "ev-1");
    assert_eq!(event.summary, "Standup");
    assert_eq!(event.location.as_deref(), Some("Room 4"));
    assert_eq!(event.description.as_deref(), Some("bring notes"));
    assert_eq!(event.url.as_deref(), Some("https://example.com"));
    assert_eq!(event.status.as_deref(), Some("confirmed"));
    assert_eq!(event.calendar_id.as_deref(), Some("cal-1"));
    assert_eq!(event.calendar_name.as_deref(), Some("Work"));
    assert_eq!(event.external_url.as_deref(), Some("x-ext://1"));
}

#[test]
fn an_occurrence_without_start_or_end_makes_no_event() {
    assert!(calendar_event_from(&occurrence(None, Some(1704106800), false)).is_none());
    assert!(calendar_event_from(&occurrence(Some(1704103200), None, false)).is_none());
    assert!(calendar_event_from(&occurrence(None, None, true)).is_none());
}

#[test]
fn missing_title_and_identifier_become_empty() {
    let mut raw = occurrence(Some(1704103200), Some(1704106800), false);
    raw.title = None;
    raw.identifier = None;
    raw.location = None;
    raw.notes = None;
    raw.url = None;
    raw.calendar_id = None;
    raw.calendar_name = None;
    raw.external_url = None;
    let event = calendar_event_from(&raw).unwrap();
    assert_eq!(event.id, "");
    assert_eq!(event.summary, "");
    assert_eq!(event.location, None);
    assert_eq!(event.description, None);
    assert_eq!(event.url, None);
    assert_eq!(event.calendar_id, None);
    assert_eq!(event.calendar_name, None);
    assert_eq!(event.external_url, None);
}

#[test]
fn each_status_has_its_word() {
    let mut raw = occurrence(Some(0), Some(60), false);
    raw.status = ProviderStatus::Tentative;
    assert_eq!(calendar_event_from(&raw).unwrap().status.as_deref(), Some("tentative"));
    raw.status = ProviderStatus::Canceled;
    assert_eq!(calendar_event_from(&raw).unwrap().status.as_deref(), Some("cancelled"));
    raw.status = ProviderStatus::Confirmed;
    assert_eq!(calendar_event_from(&raw).unwrap().status.as_deref(), Some("confirmed"));
    raw.status = ProviderStatus::Unset;
    assert_eq!(calendar_event_from(&raw).unwrap().status, None);
}

#[test]
fn a_date_out_of_the_calendar_reads_as_the_epoch() {
    let raw = occurrence(Some(i64::MAX), Some(i64::MIN), false);
    let event = calendar_event_from(&raw).unwrap();
    assert_eq!(event.start.date_time.as_deref(), Some("1970-01-01T00:00:00+00:00"));
    assert_eq!(event.end.date_time.as_deref(), Some("1970-01-01T00:00:00+00:00"));
    let raw = occurrence(Some(i64::MAX), Some(i64::MIN), true);
    let event = calendar_event_from(&raw).unwrap();
    assert_eq!(event.start.date.as_deref(), Some("1970-01-01"));
}

#[test]
fn permissions_are_reported_by_word() {
    let word = |status| check_calendar_permission(status);
    assert_eq!(word(Authorization::FullAccess), Ok("granted".to_string()));
    assert_eq!(word(Authorization::Denied), Ok("denied".to_string()));
    assert_eq!(word(Authorization::Restricted), Ok("restricted".to_string()));
    assert_eq!(word(Authorization::NotDetermined), Ok("not_determined".to_string()));
    assert_eq!(word(Authorization::WriteOnly), Ok("not_determined".to_string()));
}

#[test]
fn settle_hands_an_answer_on() {
    assert_eq!(settle(CallOutcome::Returned(Ok(7))), Ok(7));
    let failed: CallOutcome<i32> = CallOutcome::Returned(Err("no store".to_string()));
    assert_eq!(settle(failed), Err("no store".to_string()));
}

#[test]
fn settle_turns_faults_into_failures() {
    let raised: CallOutcome<i32> = CallOutcome::Raised("NSRangeException".to_string());
    assert_eq!(settle(raised), Err("ObjC exception: NSRangeException".to_string()));
    let panicked: CallOutcome<i32> = CallOutcome::Panicked;
    assert_eq!(settle(panicked), Err("EventKit panic".to_string()));
}

#[test]
fn the_window_needs_both_bounds() {
    assert_eq!(fetch_window(Some(1704067200), Some(1704239999)), Ok((1704067200, 1704239999)));
    assert_eq!(
        fetch_window(None, Some(1704239999)),
        Err("Failed to convert start to UTC".to_string())
    );
    assert_eq!(
        fetch_window(Some(1704067200), None),
        Err("Failed to convert end to UTC".to_string())
    );
    assert_eq!(fetch_window(None, None), Err("Failed to convert start to UTC".to_string()));
}
