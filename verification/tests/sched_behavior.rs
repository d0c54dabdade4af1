use event_reminder::event::Event;
use event_reminder::sched::{get_events, get_next_event, split_duration, Scheduler, TickAction};
use event_reminder::timestamp::Timestamp;

fn named(title: &str, start_at: Timestamp) -> Event {
    Event::new(
        title.to_owned(),
        "prompt".to_owned(),
        "desc".to_owned(),
        start_at,
        None,
    )
}

#[test]
fn threshold_reminder_fires_once_then_goes_quiet() {
    let now = Timestamp { secs: 10_000 };
    let store = vec![named("meeting", Timestamp { secs: now.secs + 7 * 60 })];
    let mut sched = Scheduler::new();
    assert_eq!(sched.threshold_minutes, 10);
    assert!(sched.armed);

    match sched.tick(&store, now) {
        TickAction::StartsSoon { title, minutes } => {
            assert_eq!(title, "meeting");
            assert_eq!(minutes, 7);
        }
        _ => panic!("expected a reminder on the first tick"),
    }
    assert_eq!(sched.threshold_minutes, 5);
    assert!(!sched.armed);

    let next_minute = Timestamp { secs: now.secs + 60 };
    match sched.tick(&store, next_minute) {
        TickAction::Idle => {}
        _ => panic!("expected silence while disarmed"),
    }
    assert_eq!(sched.threshold_minutes, 5);
    assert!(!sched.armed);
}

#[test]
fn event_starting_right_now_rearms() {
    let now = Timestamp { secs: 77_000 };
    let store = vec![named("launch", now)];
    let mut sched = Scheduler::new();
    sched.tick(&store, Timestamp { secs: now.secs - 8 * 60 });
    assert!(!sched.armed);

    match sched.tick(&store, now) {
        TickAction::EventNow { title } => assert_eq!(title, "launch"),
        _ => panic!("expected the immediate announcement"),
    }
    assert_eq!(sched.threshold_minutes, 10);
    assert!(sched.armed);
}

#[test]
fn empty_store_halts() {
    let now = Timestamp { secs: 1 };
    let store: Vec<Event> = Vec::new();
    let mut sched = Scheduler::new();
    match sched.tick(&store, now) {
        TickAction::Halt => {}
        _ => panic!("expected the session to halt"),
    }
    assert_eq!(sched.threshold_minutes, 10);
    assert!(sched.armed);
}

#[test]
fn past_event_is_never_next() {
    let now = Timestamp { secs: 50_000 };
    let past = named("gone", Timestamp { secs: now.secs - 60 });
    let future = named("ahead", Timestamp { secs: now.secs + 90 * 60 });
    let future_id = future.id;
    let store = vec![past, future];

    let upcoming = get_events(&store, now);
    assert_eq!(upcoming.len(), 1);
    assert_eq!(upcoming[0].id, future_id);

    let (next, total) = get_next_event(&store, now);
    assert_eq!(total, 1);
    assert_eq!(next.expect("one event is upcoming").id, future_id);

    let mut sched = Scheduler::new();
    match sched.tick(&store, now) {
        TickAction::Idle => {}
        _ => panic!("ninety minutes out is too early for a reminder"),
    }
}

#[test]
fn far_future_event_stays_quiet() {
    let now = Timestamp { secs: 0 };
    let store = vec![named("someday", Timestamp { secs: 3 * 3600 })];
    let mut sched = Scheduler::new();
    match sched.tick(&store, now) {
        TickAction::Idle => {}
        _ => panic!("expected no reminder three hours out"),
    }
    assert_eq!(sched.threshold_minutes, 10);
    assert!(sched.armed);
}

#[test]
fn split_duration_breaks_seconds_apart() {
    assert_eq!(split_duration(3725), (1, 2, 5));
    assert_eq!(split_duration(0), (0, 0, 0));
    assert_eq!(split_duration(59), (0, 0, 59));
    assert_eq!(split_duration(3600), (1, 0, 0));
    assert_eq!(split_duration(86399), (23, 59, 59));
}
