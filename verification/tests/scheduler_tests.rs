use galopen::calendar::{sync_events, CalendarEvent, CalendarState, EventDateTime};
use galopen::clock::UtcInstant;
use galopen::locale::speaks_japanese;
use galopen::scheduler::{
    notification_body, qualifies_for_open, send_notification, SchedulerConfig, SchedulerState,
    TickStep, CHECK_INTERVAL_SECS, DEFAULT_MINUTES_BEFORE, DEFAULT_TRAY_COUNTDOWN_MINUTES,
    OPEN_DELAY_SECS, POLL_INTERVAL_SECS,
};

fn meeting(id: &str, start: &str, location: Option<&str>) -> CalendarEvent {
    CalendarEvent {
        id: id.to_string(),
        summary: format!("Meeting {}", id),
        start: EventDateTime { date_time: Some(start.to_string()), date: None },
        end: EventDateTime { date_time: Some(start.to_string()), date: None },
        description: None,
        location: location.map(|s| s.to_string()),
        url: None,
        is_all_day: false,
        status: None,
        calendar_id: None,
        calendar_name: None,
        external_url: None,
    }
}

// 2024-01-01T10:00:00Z
const TEN: UtcInstant = UtcInstant { secs: 1704103200, nanos: 0 };

const MEET: &str = "https://meet.google.com/abc-defg-hij";

#[test]
fn the_cadences_are_as_documented() {
    assert_eq!(POLL_INTERVAL_SECS, 300);
    assert_eq!(CHECK_INTERVAL_SECS, 10);
    assert_eq!(OPEN_DELAY_SECS, 3);
    assert_eq!(DEFAULT_MINUTES_BEFORE, 1);
    assert_eq!(DEFAULT_TRAY_COUNTDOWN_MINUTES, 30);
}

#[test]
fn settings_fall_back_to_their_defaults() {
    let config = SchedulerConfig::from_settings(None, None);
    assert_eq!(config, SchedulerConfig { minutes_before: 1, tray_countdown_minutes: 30 });
    let config = SchedulerConfig::from_settings(Some(5), None);
    assert_eq!(config, SchedulerConfig { minutes_before: 5, tray_countdown_minutes: 30 });
    let config = SchedulerConfig::from_settings(None, Some(0));
    assert_eq!(config, SchedulerConfig { minutes_before: 1, tray_countdown_minutes: 0 });
    let config = SchedulerConfig::from_settings(Some(0), Some(90));
    assert_eq!(config, SchedulerConfig { minutes_before: 0, tray_countdown_minutes: 90 });
}

#[test]
fn the_lead_time_itself_qualifies() {
    assert!(qualifies_for_open(60, 1));
    assert!(!qualifies_for_open(61, 1));
    assert!(qualifies_for_open(300, 5));
    assert!(!qualifies_for_open(301, 5));
    assert!(qualifies_for_open(0, 0));
    assert!(!qualifies_for_open(1, 0));
}

#[test]
fn two_minutes_past_qualifies_three_do_not() {
    // -2 whole minutes: from -120 s down to -179 s; -3 begins at -180 s.
    assert!(qualifies_for_open(-120, 1));
    assert!(qualifies_for_open(-179, 1));
    assert!(!qualifies_for_open(-180, 1));
    assert!(!qualifies_for_open(-181, 1));
    assert!(qualifies_for_open(-1, 1));
    assert!(qualifies_for_open(-119, 0));
}

#[test]
fn a_negative_lead_time_opens_after_the_start() {
    assert!(!qualifies_for_open(0, -1));
    assert!(qualifies_for_open(-60, -1));
    assert!(qualifies_for_open(-120, -2));
    assert!(!qualifies_for_open(-180, -3));
    assert!(!qualifies_for_open(-200, -3));
}

#[test]
fn huge_values_do_not_overflow() {
    assert!(!qualifies_for_open(i128::MAX, i64::MAX));
    assert!(qualifies_for_open(60 * (i64::MAX as i128), i64::MAX));
    assert!(!qualifies_for_open(i128::MIN, i64::MAX));
    assert!(!qualifies_for_open(0, i64::MIN));
}

#[test]
fn the_first_tick_syncs_at_once() {
    let state = SchedulerState::new();
    assert!(state.poll_due(0));
    assert_eq!(state.begin_tick(true, 0), TickStep::Sync);
    assert_eq!(state.begin_tick(true, 10_000), TickStep::Sync);
}

#[test]
fn without_permission_the_tick_is_over() {
    let mut state = SchedulerState::new();
    assert_eq!(state.begin_tick(false, 10_000), TickStep::Skip);
    assert_eq!(state.finish_sync(&Ok(()), 10_000), TickStep::Evaluate);
    assert_eq!(state.begin_tick(false, 400_000), TickStep::Skip);
}

#[test]
fn a_sync_is_due_after_the_poll_interval() {
    let mut state = SchedulerState::new();
    assert_eq!(state.finish_sync(&Ok(()), 10_000), TickStep::Evaluate);
    assert_eq!(state.begin_tick(true, 10_000), TickStep::Evaluate);
    assert_eq!(state.begin_tick(true, 20_000), TickStep::Evaluate);
    assert_eq!(state.begin_tick(true, 309_999), TickStep::Evaluate);
    assert_eq!(state.begin_tick(true, 310_000), TickStep::Sync);
    assert_eq!(state.begin_tick(true, 320_000), TickStep::Sync);
    assert!(!state.poll_due(5_000));
}

#[test]
fn a_failed_sync_is_tried_again_on_the_next_tick() {
    let mut calendar = CalendarState::new();
    let mut state = SchedulerState::new();
    let first = vec![meeting("a", "2024-01-01T10:00:30Z", Some(MEET))];
    let outcome = sync_events(&mut calendar, Ok(first), TEN);
    assert_eq!(state.finish_sync(&outcome, 10_000), TickStep::Evaluate);

    assert_eq!(state.begin_tick(true, 310_000), TickStep::Sync);
    let outcome = sync_events(&mut calendar, Err("fetch failed".to_string()), TEN);
    assert_eq!(outcome, Err("fetch failed".to_string()));
    assert_eq!(state.finish_sync(&outcome, 310_500), TickStep::Skip);
    assert_eq!(calendar.events().len(), 1);
    assert_eq!(calendar.events()[0].id, "a");
    assert_eq!(calendar.last_synced(), Some(TEN));

    // Ten seconds on, the sync is still due: no full interval is waited.
    assert_eq!(state.begin_tick(true, 320_000), TickStep::Sync);
    assert_eq!(state.finish_sync(&Ok(()), 320_400), TickStep::Evaluate);
    assert_eq!(state.begin_tick(true, 330_000), TickStep::Evaluate);
    assert_eq!(state.begin_tick(true, 620_399), TickStep::Evaluate);
    assert_eq!(state.begin_tick(true, 620_400), TickStep::Sync);
}

#[test]
fn a_failed_first_sync_stays_due() {
    let mut state = SchedulerState::new();
    assert_eq!(state.finish_sync(&Err("no answer".to_string()), 10_000), TickStep::Skip);
    assert_eq!(state.begin_tick(true, 20_000), TickStep::Sync);
}

#[test]
fn a_meeting_within_the_lead_time_opens() {
    let state = SchedulerState::new();
    let events = vec![
        meeting("far", "2024-01-01T10:10:00Z", Some(MEET)),
        meeting("near", "2024-01-01T10:00:45Z", Some("Join https://zoom.us/j/42 now")),
    ];
    let opening = state.next_opening(&events, 0, &TEN, 1).unwrap();
    assert_eq!(opening.index, 1);
    assert_eq!(opening.url, "https://zoom.us/j/42");
    assert_eq!(opening.summary, "Meeting near");
    assert!(state.next_opening(&events, 2, &TEN, 1).is_none());
}

#[test]
fn the_window_closes_three_minutes_after_the_start() {
    let state = SchedulerState::new();
    let events = vec![meeting("a", "2024-01-01T10:00:00Z", Some(MEET))];
    let at = |secs: i64| UtcInstant { secs: 1704103200 + secs, nanos: 0 };
    assert!(state.next_opening(&events, 0, &at(-61), 1).is_none());
    assert!(state.next_opening(&events, 0, &at(-60), 1).is_some());
    assert!(state.next_opening(&events, 0, &at(0), 1).is_some());
    assert!(state.next_opening(&events, 0, &at(179), 1).is_some());
    assert!(state.next_opening(&events, 0, &at(180), 1).is_none());
}

#[test]
fn a_meeting_without_a_link_is_not_opened() {
    let state = SchedulerState::new();
    let events = vec![
        meeting("a", "2024-01-01T10:00:30Z", Some("Room 4")),
        meeting("b", "2024-01-01T10:00:30Z", None),
    ];
    assert!(state.next_opening(&events, 0, &TEN, 1).is_none());
}

#[test]
fn an_event_whose_start_does_not_resolve_is_not_opened() {
    let state = SchedulerState::new();
    let mut day = meeting("day", "", Some(MEET));
    day.start = EventDateTime { date_time: None, date: Some("2024-01-01".to_string()) };
    day.is_all_day = true;
    let events = vec![day, meeting("odd", "ten o'clock", Some(MEET))];
    assert!(state.next_opening(&events, 0, &TEN, 1).is_none());
}

#[test]
fn openings_come_in_the_order_of_the_snapshot() {
    let mut state = SchedulerState::new();
    let events = vec![
        meeting("a", "2024-01-01T10:00:10Z", Some(MEET)),
        meeting("b", "2024-01-01T10:00:20Z", Some("https://zoom.us/j/7")),
        meeting("c", "2024-01-01T10:30:00Z", Some(MEET)),
    ];
    let first = state.next_opening(&events, 0, &TEN, 1).unwrap();
    assert_eq!(first.index, 0);
    state.record_opening(&events[first.index].id, true);
    let second = state.next_opening(&events, first.index + 1, &TEN, 1).unwrap();
    assert_eq!(second.index, 1);
    assert_eq!(second.url, "https://zoom.us/j/7");
    state.record_opening(&events[second.index].id, true);
    assert!(state.next_opening(&events, second.index + 1, &TEN, 1).is_none());
    assert_eq!(state.opened_count(), 2);
}

#[test]
fn an_opened_meeting_is_not_opened_again() {
    let mut state = SchedulerState::new();
    let events = vec![meeting("a", "2024-01-01T10:00:30Z", Some(MEET))];

    let opening = state.next_opening(&events, 0, &TEN, 1).unwrap();
    state.record_opening(&events[opening.index].id, true);
    state.prune(&events);
    assert!(state.has_opened("a"));

    // The next tick, ten seconds on, with the snapshot unchanged.
    let later = UtcInstant { secs: TEN.secs + 10, nanos: 0 };
    assert!(state.next_opening(&events, 0, &later, 1).is_none());
    state.prune(&events);
    assert!(state.next_opening(&events, 0, &later, 5).is_none());
    assert_eq!(state.opened_count(), 1);
}

#[test]
fn two_events_with_one_id_open_once() {
    let mut state = SchedulerState::new();
    let events = vec![
        meeting("same", "2024-01-01T10:00:30Z", Some(MEET)),
        meeting("same", "2024-01-01T10:00:40Z", Some("https://zoom.us/j/7")),
    ];
    let first = state.next_opening(&events, 0, &TEN, 1).unwrap();
    assert_eq!(first.index, 0);
    state.record_opening(&events[0].id, true);
    assert!(state.next_opening(&events, 1, &TEN, 1).is_none());
}

#[test]
fn a_link_that_failed_to_open_is_tried_again() {
    let mut state = SchedulerState::new();
    let events = vec![meeting("a", "2024-01-01T10:00:30Z", Some(MEET))];
    let opening = state.next_opening(&events, 0, &TEN, 1).unwrap();
    state.record_opening(&events[opening.index].id, false);
    assert!(!state.has_opened("a"));
    assert_eq!(state.opened_count(), 0);
    let again = state.next_opening(&events, 0, &TEN, 1).unwrap();
    assert_eq!(again.index, 0);
    assert_eq!(again.url, MEET);
}

#[test]
fn recording_an_id_twice_keeps_it_once() {
    let mut state = SchedulerState::new();
    state.record_opening("a", true);
    state.record_opening("a", true);
    state.record_opening("b", true);
    assert_eq!(state.opened_count(), 2);
    assert!(state.has_opened("a"));
    assert!(state.has_opened("b"));
    assert!(!state.has_opened("c"));
}

#[test]
fn pruning_forgets_what_left_the_snapshot() {
    let mut state = SchedulerState::new();
    state.record_opening("a", true);
    state.record_opening("b", true);
    state.record_opening("c", true);
    let events = vec![
        meeting("b", "2024-01-01T10:00:30Z", Some(MEET)),
        meeting("d", "2024-01-01T10:00:30Z", Some(MEET)),
    ];
    state.prune(&events);
    assert!(!state.has_opened("a"));
    assert!(state.has_opened("b"));
    assert!(!state.has_opened("c"));
    assert!(!state.has_opened("d"));
    assert_eq!(state.opened_count(), 1);

    state.prune(&Vec::new());
    assert!(!state.has_opened("b"));
    assert_eq!(state.opened_count(), 0);
}

#[test]
fn an_id_absent_from_two_snapshots_is_forgotten() {
    let mut state = SchedulerState::new();
    let first = vec![meeting("a", "2024-01-01T10:00:30Z", Some(MEET))];
    let opening = state.next_opening(&first, 0, &TEN, 1).unwrap();
    state.record_opening(&first[opening.index].id, true);
    state.prune(&first);
    assert!(state.has_opened("a"));

    let second = vec![meeting("b", "2024-01-01T10:00:30Z", Some(MEET))];
    let opening = state.next_opening(&second, 0, &TEN, 1).unwrap();
    state.record_opening(&second[opening.index].id, true);
    state.prune(&second);
    assert!(!state.has_opened("a"));

    let third = vec![meeting("c", "2024-01-01T10:00:30Z", Some(MEET))];
    state.prune(&third);
    assert!(!state.has_opened("a"));
    assert!(!state.has_opened("b"));
}

#[test]
fn pruning_leaves_the_poll_time() {
    let mut state = SchedulerState::new();
    assert_eq!(state.finish_sync(&Ok(()), 10_000), TickStep::Evaluate);
    state.record_opening("a", true);
    state.prune(&Vec::new());
    assert_eq!(state.begin_tick(true, 20_000), TickStep::Evaluate);
    assert_eq!(state.begin_tick(true, 310_000), TickStep::Sync);
}

#[test]
fn the_notification_names_the_meeting() {
    assert_eq!(notification_body("Standup", false), "Opening: Standup");
    assert_eq!(notification_body("Standup", true), "開始: Standup");
    assert_eq!(notification_body("", false), "Opening: ");
    let body = send_notification("Standup");
    assert!(body == "Opening: Standup" || body == "開始: Standup");
}

#[test]
fn a_locale_that_begins_with_ja_is_japanese() {
    assert!(speaks_japanese(&Some("ja".to_string())));
    assert!(speaks_japanese(&Some("ja-JP".to_string())));
    assert!(speaks_japanese(&Some("jam".to_string())));
    assert!(!speaks_japanese(&Some("en-US".to_string())));
    assert!(!speaks_japanese(&Some("j".to_string())));
    assert!(!speaks_japanese(&Some("".to_string())));
    assert!(!speaks_japanese(&Some("JA".to_string())));
    assert!(!speaks_japanese(&None));
}
