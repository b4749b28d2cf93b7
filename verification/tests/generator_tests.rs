use skyblock_calendar::database::{DataBase, User, DEFAULT_WINDOW_SECONDS};
use skyblock_calendar::election::{Election, Perk};
use skyblock_calendar::errors::CalendarError;
use skyblock_calendar::event::Event;
use skyblock_calendar::generator::{generate_calendar, generate_calendar_from_sources};
use skyblock_calendar::time::EPOCH_SECONDS;

fn recurring_event(title: &str, start: i64, recurrence: i64) -> Event {
    Event::new(
        String::from(title),
        None,
        start - 180,
        start,
        start + 3600,
        3600,
        Some(recurrence),
        Some(120),
    )
}

fn myth_election(year: i16, start: i64) -> Election {
    Election::new(
        String::from("Mayor"),
        String::from("Minister"),
        vec![Perk::MythologicalRitual],
        year,
        start,
        start + 403_200,
    )
}

#[test]
fn empty_window_generates_empty_calendar() {
    let events = vec![recurring_event("e", EPOCH_SECONDS, 1200)];
    let elections: Vec<Election> = Vec::new();
    let from = EPOCH_SECONDS + 500;
    let cal = generate_calendar(from, from, &events, &elections).expect("empty window is fine");
    assert_eq!(cal.list_events().len(), 0);
    assert_eq!(cal.title, "Skyblock");
    let cal = generate_calendar(from, from - 40_000, &events, &elections).unwrap();
    assert_eq!(cal.list_events().len(), 0);
}

#[test]
fn generates_base_and_derived_events_across_ticks() {
    // The epoch sits on the grid, so the first tick of the window is one
    // fictional day later; the window holds exactly two ticks.
    let tick1 = EPOCH_SECONDS + 1200;
    let tick2 = EPOCH_SECONDS + 2400;
    let every_tick = recurring_event("every tick", tick1, 1200);
    let every_other = recurring_event("every other", tick1, 2400);
    // The generator looks elections up one fictional year past the tick's
    // year; both ticks fall in year 1.
    let elections = vec![myth_election(2, tick2)];
    let events = vec![every_tick.clone(), every_other.clone()];
    let cal = generate_calendar(EPOCH_SECONDS, tick2 + 1, &events, &elections).unwrap();
    let listed = cal.list_events();
    let titles: Vec<&str> = listed.iter().map(|e| e.title.as_str()).collect();
    assert_eq!(
        titles,
        vec!["every tick", "every other", "every tick", "Mythological Ritual"]
    );
    // Insertion order: the ticks in order, base matches before derived ones.
    assert_eq!(listed[0].start_time, tick1);
    assert_eq!(listed[2].start_time, tick1);
    assert_eq!(listed[3].start_time, tick2);
}

#[test]
fn derived_event_must_start_exactly_at_a_tick() {
    let tick1 = EPOCH_SECONDS + 1200;
    // An election event starting off-grid is never collected.
    let elections = vec![myth_election(2, tick1 + 600)];
    let events: Vec<Event> = vec![recurring_event("base", tick1, 1200)];
    let cal = generate_calendar(EPOCH_SECONDS, tick1 + 1, &events, &elections).unwrap();
    let titles: Vec<String> =
        cal.list_events().iter().map(|e| e.title.clone()).collect();
    assert_eq!(titles, vec![String::from("base")]);
}

#[test]
fn non_recurring_base_event_fails_generation_atomically() {
    let once = Event::new(String::from("once"), None, 0, 1000, 2000, 1000, None, None);
    let events = vec![once];
    let elections: Vec<Election> = Vec::new();
    let r = generate_calendar(EPOCH_SECONDS, EPOCH_SECONDS + 5000, &events, &elections);
    match r {
        Err(e) => assert_eq!(e, CalendarError::PreconditionViolation),
        Ok(_) => panic!("generation with a non-recurring base event must fail"),
    }
    // Without any tick in range the fault is never reached.
    let r = generate_calendar(EPOCH_SECONDS, EPOCH_SECONDS, &events, &elections);
    assert!(r.is_ok());
}

#[test]
fn missing_sources_fail_with_data_unavailable() {
    let events = vec![recurring_event("e", EPOCH_SECONDS, 1200)];
    let elections: Vec<Election> = Vec::new();
    let r = generate_calendar_from_sources(EPOCH_SECONDS, EPOCH_SECONDS + 1, None, Some(&elections));
    assert_eq!(r.err(), Some(CalendarError::DataUnavailable));
    let r = generate_calendar_from_sources(EPOCH_SECONDS, EPOCH_SECONDS + 1, Some(&events), None);
    assert_eq!(r.err(), Some(CalendarError::DataUnavailable));
    let r = generate_calendar_from_sources(
        EPOCH_SECONDS,
        EPOCH_SECONDS + 1,
        Some(&events),
        Some(&elections),
    );
    assert!(r.is_ok());
}

#[test]
fn directory_holds_global_user_with_generated_calendar() {
    // One base event fires at every tick of the default window: the window
    // holds 372 ticks (1200 s each over 447600 s, the first one excluded
    // because the epoch itself is already on the grid).
    let events = vec![recurring_event("every tick", EPOCH_SECONDS, 1200)];
    let elections: Vec<Election> = Vec::new();
    let db = DataBase::new(EPOCH_SECONDS, &events, &elections);
    let users = db.list_users();
    assert_eq!(users.len(), 1);
    assert_eq!(users[0].get_name(), "GLOBAL");
    assert_eq!(users[0].get_id(), 0);
    let global = db.get_user(0).expect("GLOBAL user");
    let calendars = global.list_calendars();
    assert_eq!(calendars.len(), 1);
    assert_eq!(calendars[0].title, "Skyblock");
    assert_eq!(DEFAULT_WINDOW_SECONDS, 7460 * 60);
    assert_eq!(calendars[0].list_events().len(), 372);
}

#[test]
fn directory_assigns_fresh_user_identities() {
    let events = vec![recurring_event("e", EPOCH_SECONDS, 1200)];
    let elections: Vec<Election> = Vec::new();
    let mut db = DataBase::new(EPOCH_SECONDS, &events, &elections);
    db.add_user(User::new(String::from("alice")));
    db.add_user(User::new(String::from("bob")));
    assert_eq!(db.list_users().len(), 3);
    assert_eq!(db.get_user(1).unwrap().get_name(), "alice");
    assert_eq!(db.get_user(2).unwrap().get_name(), "bob");
    assert!(db.get_user(3).is_none());
}
