use skyblock_calendar::errors::CalendarError;
use skyblock_calendar::event::Event;

fn hourly_event() -> Event {
    Event::new(
        String::from("Hourly"),
        Some(String::from("fires on the hour")),
        7020,
        7200,
        10800,
        3600,
        Some(3600),
        Some(120),
    )
}

#[test]
fn modulo_examples() {
    let e = hourly_event();
    assert_eq!(e.modulo(3600), 0);
    assert_eq!(e.modulo(7200), 0);
    // Rust's truncating remainder semantics.
    assert_eq!(e.modulo(5400), 1800);
    assert_eq!(e.modulo(9000), -1800);
}

#[test]
fn matches_tick_fires_on_whole_periods() {
    let e = hourly_event();
    assert_eq!(e.matches_tick(0), Ok(true));
    assert_eq!(e.matches_tick(3600), Ok(true));
    assert_eq!(e.matches_tick(10800), Ok(true));
    assert_eq!(e.matches_tick(3601), Ok(false));
    assert_eq!(e.matches_tick(5400), Ok(false));
}

#[test]
fn matches_tick_rejects_non_recurring() {
    let e = Event::new(String::from("Once"), None, 0, 100, 200, 100, None, None);
    assert_eq!(e.matches_tick(100), Err(CalendarError::PreconditionViolation));
}

#[test]
fn is_upcoming_is_strict() {
    let e = hourly_event();
    assert!(e.is_upcoming(7199));
    assert!(!e.is_upcoming(7200));
    assert!(!e.is_upcoming(7201));
}

#[test]
fn get_start_time_returns_start() {
    assert_eq!(hourly_event().get_start_time(), 7200);
}

#[test]
fn next_occurrence_examples() {
    let e = hourly_event();
    // Before the first occurrence: the start itself.
    assert_eq!(e.next_occurrence(0), Some(7200));
    // At an occurrence: the one after it.
    assert_eq!(e.next_occurrence(7200), Some(10800));
    // Strictly between occurrences.
    assert_eq!(e.next_occurrence(12_345), Some(14_400));
    // No recurrence: no occurrence.
    let once = Event::new(String::from("Once"), None, 0, 100, 200, 100, None, None);
    assert_eq!(once.next_occurrence(500), None);
}

#[test]
fn clone_preserves_every_field() {
    let e = hourly_event();
    let c = e.clone();
    assert_eq!(c.title, e.title);
    assert_eq!(c.description, e.description);
    assert_eq!(c.notify_at, e.notify_at);
    assert_eq!(c.start_time, e.start_time);
    assert_eq!(c.end_time, e.end_time);
    assert_eq!(c.duration, e.duration);
    assert_eq!(c.recurrence, e.recurrence);
    assert_eq!(c.remind, e.remind);
}
