use skyblock_calendar::election::{Election, Perk};
use skyblock_calendar::time::{EPOCH_SECONDS, SkyblockDay};

fn election_with(perks: Vec<Perk>, year: i16) -> Election {
    Election::new(
        String::from("Mayor"),
        String::from("Minister"),
        perks,
        year,
        EPOCH_SECONDS,
        EPOCH_SECONDS + 403_200,
    )
}

/// Start instant of day 1 of the given month offset (month may be 0, as the
/// derivation's `i % 12` produces it).
fn month_start(year: i64, month: i64) -> i64 {
    EPOCH_SECONDS + ((year - 1) * 372 + (month - 1) * 31) * 1200
}

#[test]
fn fishing_festival_derives_ten_hourly_events() {
    let el = election_with(vec![Perk::FishingFestival], 1);
    let events = el.get_events();
    assert_eq!(events.len(), 10);
    for (k, e) in events.iter().enumerate() {
        let i = k as i64 + 5;
        assert_eq!(e.title, "Fishing Festival");
        assert_eq!(e.recurrence, Some(3600));
        assert_eq!(e.start_time, month_start(1, i % 12));
        assert_eq!(e.end_time, e.start_time + 3600);
        assert_eq!(e.duration, 3600);
        assert_eq!(e.notify_at, EPOCH_SECONDS - 180);
        assert_eq!(e.remind, Some(120));
        assert_eq!(e.description.as_deref(), Some(""));
    }
    // Month offsets wrap: i = 12 gives month 0, one month before the epoch date.
    assert_eq!(events[7].start_time, EPOCH_SECONDS - 31 * 1200);
}

#[test]
fn mining_fiesta_derives_three_five_hour_events() {
    let el = election_with(vec![Perk::MiningFiesta], 2);
    let events = el.get_events();
    assert_eq!(events.len(), 3);
    for (k, e) in events.iter().enumerate() {
        assert_eq!(e.title, "Mining Fiesta");
        assert_eq!(e.recurrence, Some(18000));
        assert_eq!(e.start_time, month_start(2, k as i64 % 12));
        assert_eq!(e.end_time, e.start_time + 18000);
    }
}

#[test]
fn mythological_ritual_derives_one_event_at_election_start() {
    let el = election_with(vec![Perk::Other, Perk::MythologicalRitual], 1);
    let events = el.get_events();
    assert_eq!(events.len(), 1);
    assert_eq!(events[0].title, "Mythological Ritual");
    assert_eq!(events[0].start_time, EPOCH_SECONDS);
    assert_eq!(events[0].end_time, EPOCH_SECONDS + 18000);
    assert_eq!(events[0].recurrence, Some(446_400));
}

#[test]
fn chivalrous_carnival_derives_one_event_at_election_start() {
    let el = election_with(vec![Perk::ChivalrousCarnival], 1);
    let events = el.get_events();
    assert_eq!(events.len(), 1);
    assert_eq!(events[0].title, "Chivalrous Carnival");
    assert_eq!(events[0].start_time, EPOCH_SECONDS);
    assert_eq!(events[0].recurrence, Some(446_400));
}

#[test]
fn branch_priority_is_fixed() {
    // The Fishing Festival wins over every later branch.
    let el = election_with(
        vec![Perk::MythologicalRitual, Perk::MiningFiesta, Perk::FishingFestival],
        1,
    );
    let events = el.get_events();
    assert_eq!(events.len(), 10);
    assert_eq!(events[0].title, "Fishing Festival");
    // Mining Fiesta wins over the single-event branches.
    let el = election_with(vec![Perk::ChivalrousCarnival, Perk::MiningFiesta], 1);
    let events = el.get_events();
    assert_eq!(events.len(), 3);
    assert_eq!(events[0].title, "Mining Fiesta");
}

#[test]
fn unknown_perks_derive_nothing() {
    let el = election_with(vec![Perk::Other], 1);
    assert_eq!(el.get_events().len(), 0);
    let el = election_with(vec![], 1);
    assert_eq!(el.get_events().len(), 0);
}

#[test]
fn has_perk_scans_the_list() {
    let el = election_with(vec![Perk::Other, Perk::MiningFiesta], 1);
    assert!(el.has_perk(Perk::MiningFiesta));
    assert!(el.has_perk(Perk::Other));
    assert!(!el.has_perk(Perk::FishingFestival));
}

#[test]
fn for_year_runs_from_day_27_of_month_5() {
    let el = Election::for_year(
        String::from("Mayor"),
        String::from("Minister"),
        vec![Perk::FishingFestival],
        1,
    );
    // Day 27 of month 5 of year 1: 150 fictional days past the epoch.
    assert_eq!(el.start, EPOCH_SECONDS + 150 * 1200);
    // The window spans 403200 real seconds, a whole number of ticks.
    assert_eq!(el.end, el.start + 403_200);
    assert_eq!(el.year, 1);
}

#[test]
fn get_election_finds_first_matching_year() {
    let elections = vec![
        election_with(vec![Perk::Other], 3),
        election_with(vec![Perk::MiningFiesta], 5),
        election_with(vec![Perk::FishingFestival], 5),
    ];
    let found = SkyblockDay::get_election(5, &elections).expect("year 5 is present");
    assert_eq!(found.year, 5);
    assert!(found.has_perk(Perk::MiningFiesta));
    assert!(SkyblockDay::get_election(4, &elections).is_none());
}
