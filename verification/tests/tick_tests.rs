use galopen::calendar::{
    check_calendar_permission, fetch_todays_events, has_permission, sync_events, CalendarState,
};
use galopen::clock::UtcInstant;
use galopen::countdown::countdown_label;
use galopen::provider::{Authorization, ProviderEvent, ProviderStatus};
use galopen::scheduler::{SchedulerConfig, SchedulerState, TickStep};

/// What a tick did, as a caller of the library sees it.
#[derive(Debug, PartialEq)]
struct Outcome {
    synced: bool,
    opened: Vec<String>,
    label: Option<String>,
}

/// The gateway and the machine around the scheduler, with every answer fixed
/// in advance.
struct World {
    permission: Authorization,
    fetch: Result<Vec<ProviderEvent>, String>,
    links_open: bool,
    minutes_before: Option<i64>,
    tray_countdown_minutes: Option<i64>,
}

fn occurrence(id: &str, start: i64, notes: &str, status: ProviderStatus) -> ProviderEvent {
    ProviderEvent {
        title: Some(format!("Meeting {}", id)),
        start: Some(start),
        end: Some(start + 1800),
        is_all_day: false,
        identifier: Some(id.to_string()),
        location: None,
        notes: Some(notes.to_string()),
        url: None,
        status,
        calendar_id: None,
        calendar_name: None,
        external_url: None,
    }
}

/// One tick, driven as an application drives the library.
fn tick(
    state: &mut SchedulerState,
    calendar: &mut CalendarState,
    world: &World,
    now_ms: u64,
    now: UtcInstant,
) -> Option<Outcome> {
    let mut synced = false;
    let permitted = has_permission(&check_calendar_permission(world.permission));
    match state.begin_tick(permitted, now_ms) {
        TickStep::Skip => return None,
        TickStep::Sync => {
            let fetched = match &world.fetch {
                Ok(raw) => Ok(fetch_todays_events(raw)),
                Err(reason) => Err(reason.clone()),
            };
            let outcome = sync_events(calendar, fetched, now);
            if state.finish_sync(&outcome, now_ms) == TickStep::Skip {
                return None;
            }
            synced = true;
        }
        TickStep::Evaluate => {}
    }
    let config = SchedulerConfig::from_settings(world.minutes_before, world.tray_countdown_minutes);
    let events = calendar.events();
    let mut opened = Vec::new();
    let mut from = 0;
    while let Some(opening) = state.next_opening(&events, from, &now, config.minutes_before) {
        if world.links_open {
            opened.push(opening.url.clone());
        }
        state.record_opening(&events[opening.index].id, world.links_open);
        from = opening.index + 1;
    }
    state.prune(&calendar.events());
    let label = countdown_label(&events, &now, config.tray_countdown_minutes, false);
    Some(Outcome { synced, opened, label })
}

// 2024-01-01T10:00:00Z
const TEN: i64 = 1704103200;

fn at(secs: i64) -> UtcInstant {
    UtcInstant { secs, nanos: 0 }
}

fn world(fetch: Result<Vec<ProviderEvent>, String>) -> World {
    World {
        permission: Authorization::FullAccess,
        fetch,
        links_open: true,
        minutes_before: None,
        tray_countdown_minutes: None,
    }
}

fn standup() -> Vec<ProviderEvent> {
    vec![
        occurrence("review", TEN + 1800, "https://zoom.us/j/22", ProviderStatus::Confirmed),
        occurrence("off", TEN + 300, "https://zoom.us/j/33", ProviderStatus::Canceled),
        occurrence(
            "standup",
            TEN + 300,
            "Join https://meet.google.com/abc-defg-hij",
            ProviderStatus::Confirmed,
        ),
    ]
}

#[test]
fn a_run_opens_each_meeting_once() {
    let mut state = SchedulerState::new();
    let mut calendar = CalendarState::new();
    let w = world(Ok(standup()));

    // The first tick syncs; the stand-up is five minutes off.
    let first = tick(&mut state, &mut calendar, &w, 10_000, at(TEN)).unwrap();
    assert_eq!(
        first,
        Outcome { synced: true, opened: vec![], label: Some("5m".to_string()) }
    );

    // One minute before the start the link opens.
    let second = tick(&mut state, &mut calendar, &w, 250_000, at(TEN + 240)).unwrap();
    assert_eq!(
        second,
        Outcome {
            synced: false,
            opened: vec!["https://meet.google.com/abc-defg-hij".to_string()],
            label: Some("1m".to_string()),
        }
    );

    // Ten seconds on nothing opens again.
    let third = tick(&mut state, &mut calendar, &w, 260_000, at(TEN + 250)).unwrap();
    assert_eq!(
        third,
        Outcome { synced: false, opened: vec![], label: Some("1m".to_string()) }
    );

    // After the poll interval the tick syncs again; the stand-up has begun,
    // and the countdown runs to the review.
    let fourth = tick(&mut state, &mut calendar, &w, 310_000, at(TEN + 300)).unwrap();
    assert_eq!(
        fourth,
        Outcome { synced: true, opened: vec![], label: Some("25m".to_string()) }
    );
    assert!(state.has_opened("standup"));
    assert!(!state.has_opened("off"));
}

#[test]
fn a_cancelled_meeting_never_opens() {
    let mut state = SchedulerState::new();
    let mut calendar = CalendarState::new();
    let w = world(Ok(vec![occurrence(
        "off",
        TEN + 30,
        "https://zoom.us/j/33",
        ProviderStatus::Canceled,
    )]));
    let outcome = tick(&mut state, &mut calendar, &w, 10_000, at(TEN)).unwrap();
    assert_eq!(outcome, Outcome { synced: true, opened: vec![], label: None });
    assert!(calendar.events().is_empty());
}

#[test]
fn without_permission_a_tick_does_nothing() {
    let mut state = SchedulerState::new();
    let mut calendar = CalendarState::new();
    for permission in [
        Authorization::Denied,
        Authorization::Restricted,
        Authorization::NotDetermined,
        Authorization::WriteOnly,
    ] {
        let w = World { permission, ..world(Ok(standup())) };
        assert_eq!(tick(&mut state, &mut calendar, &w, 10_000, at(TEN + 240)), None);
    }
    assert!(calendar.events().is_empty());
    assert_eq!(calendar.last_synced(), None);
    assert_eq!(state.opened_count(), 0);
    assert!(state.poll_due(10_000));
}

#[test]
fn a_failed_fetch_ends_the_tick_and_is_retried() {
    let mut state = SchedulerState::new();
    let mut calendar = CalendarState::new();
    let good = world(Ok(standup()));
    tick(&mut state, &mut calendar, &good, 10_000, at(TEN)).unwrap();

    let bad = world(Err("EventKit panic".to_string()));
    assert_eq!(tick(&mut state, &mut calendar, &bad, 310_000, at(TEN + 240)), None);
    assert_eq!(calendar.events().len(), 2);
    assert_eq!(calendar.last_synced(), Some(at(TEN)));
    assert!(!state.has_opened("standup"));

    // The next tick tries the sync again, and then opens the link.
    let retried = tick(&mut state, &mut calendar, &good, 320_000, at(TEN + 250)).unwrap();
    assert!(retried.synced);
    assert_eq!(retried.opened, vec!["https://meet.google.com/abc-defg-hij".to_string()]);
    assert_eq!(calendar.last_synced(), Some(at(TEN + 250)));
}

#[test]
fn a_link_that_does_not_open_is_tried_on_the_next_tick() {
    let mut state = SchedulerState::new();
    let mut calendar = CalendarState::new();
    let stuck = World { links_open: false, ..world(Ok(standup())) };
    let first = tick(&mut state, &mut calendar, &stuck, 10_000, at(TEN + 240)).unwrap();
    assert_eq!(first.opened, Vec::<String>::new());
    assert!(!state.has_opened("standup"));

    let free = world(Ok(standup()));
    let second = tick(&mut state, &mut calendar, &free, 20_000, at(TEN + 250)).unwrap();
    assert_eq!(second.opened, vec!["https://meet.google.com/abc-defg-hij".to_string()]);
    assert!(state.has_opened("standup"));
}

#[test]
fn a_meeting_that_leaves_the_calendar_is_forgotten() {
    let mut state = SchedulerState::new();
    let mut calendar = CalendarState::new();
    let w = world(Ok(standup()));
    tick(&mut state, &mut calendar, &w, 10_000, at(TEN + 240)).unwrap();
    assert!(state.has_opened("standup"));

    let moved = world(Ok(vec![occurrence(
        "review",
        TEN + 1800,
        "https://zoom.us/j/22",
        ProviderStatus::Confirmed,
    )]));
    tick(&mut state, &mut calendar, &moved, 310_000, at(TEN + 540)).unwrap();
    assert!(!state.has_opened("standup"));
    assert_eq!(state.opened_count(), 0);
}

#[test]
fn the_settings_are_read_on_every_tick() {
    let mut state = SchedulerState::new();
    let mut calendar = CalendarState::new();
    let w = world(Ok(standup()));
    let first = tick(&mut state, &mut calendar, &w, 10_000, at(TEN)).unwrap();
    assert_eq!(first.opened, Vec::<String>::new());

    // With a lead time of five minutes the same instant opens the link, and
    // a threshold of three minutes hides the countdown.
    let eager =
        World { minutes_before: Some(5), tray_countdown_minutes: Some(3), ..world(Ok(standup())) };
    let second = tick(&mut state, &mut calendar, &eager, 20_000, at(TEN)).unwrap();
    assert_eq!(second.opened, vec!["https://meet.google.com/abc-defg-hij".to_string()]);
    assert_eq!(second.label, None);
}
