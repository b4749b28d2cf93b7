use skyblock_calendar::errors::CalendarError;
use skyblock_calendar::time::{
    seconds_to_dhm, SkyblockDay, EPOCH_SECONDS, INSTANT_LIMIT, SECONDS_PER_FICTIONAL_DAY,
};

#[test]
fn epoch_is_first_fictional_day() {
    let d = SkyblockDay::new(1, 1, 1);
    assert_eq!(d.as_datetime(), 1_560_275_700);
    assert_eq!(EPOCH_SECONDS, 1_560_275_700);
}

#[test]
fn one_tick_after_epoch_is_day_two() {
    // 2019-06-11T18:15:00Z, one 20-minute tick after the epoch.
    let d = SkyblockDay::date_to_skyblock(1_560_276_900);
    assert_eq!(d.day, 2);
    assert_eq!(d.month, 1);
    assert_eq!(d.year, 1);
}

#[test]
fn conversion_examples() {
    // Exactly at the epoch.
    let d = SkyblockDay::date_to_skyblock(EPOCH_SECONDS);
    assert_eq!((d.day, d.month, d.year), (1, 1, 1));
    // 31 days later: second month.
    let d = SkyblockDay::date_to_skyblock(EPOCH_SECONDS + 31 * 1200);
    assert_eq!((d.day, d.month, d.year), (1, 2, 1));
    // 372 days later: second year.
    let d = SkyblockDay::date_to_skyblock(EPOCH_SECONDS + 372 * 1200);
    assert_eq!((d.day, d.month, d.year), (1, 1, 2));
    // Mid-tick instants truncate to the containing day.
    let d = SkyblockDay::date_to_skyblock(EPOCH_SECONDS + 1199);
    assert_eq!((d.day, d.month, d.year), (1, 1, 1));
}

#[test]
fn round_trip_lands_within_one_tick() {
    let samples: Vec<i64> = vec![
        EPOCH_SECONDS,
        EPOCH_SECONDS + 1,
        EPOCH_SECONDS + 1199,
        EPOCH_SECONDS + 1200,
        1_600_000_000,
        1_700_000_013,
        2_000_000_000,
        INSTANT_LIMIT - 1,
    ];
    for t in samples {
        let d = SkyblockDay::date_to_skyblock(t);
        let back = d.as_datetime();
        assert!(back <= t, "start of day after instant: {back} > {t}");
        assert!(t < back + SECONDS_PER_FICTIONAL_DAY, "more than one tick early: {back} for {t}");
    }
}

#[test]
fn next_aligned_tick_examples() {
    // 2020-01-01T00:00:00Z is 1577836800; minute 0 -> :15.
    assert_eq!(SkyblockDay::get_next_skyblock_day(1_577_836_800), 1_577_836_800 + 900);
    // Exactly :15 advances to :35.
    assert_eq!(SkyblockDay::get_next_skyblock_day(1_577_836_800 + 900), 1_577_836_800 + 2100);
    // Exactly :55 advances to the next hour's :15.
    assert_eq!(SkyblockDay::get_next_skyblock_day(1_577_836_800 + 3300), 1_577_836_800 + 4500);
    // One second before :55.
    assert_eq!(SkyblockDay::get_next_skyblock_day(1_577_836_800 + 3299), 1_577_836_800 + 3300);
}

#[test]
fn next_aligned_tick_is_minimal_and_aligned() {
    let samples: Vec<i64> = vec![
        EPOCH_SECONDS,
        EPOCH_SECONDS + 7,
        1_577_836_800,
        1_577_836_800 + 899,
        1_577_836_800 + 900,
        1_577_836_800 + 2100,
        1_577_836_800 + 3300,
        1_577_836_800 + 3599,
    ];
    for t in samples {
        let r = SkyblockDay::get_next_skyblock_day(t);
        assert!(r > t);
        assert!(r - t <= SECONDS_PER_FICTIONAL_DAY);
        let minute = (r / 60) % 60;
        assert!(minute == 15 || minute == 35 || minute == 55, "minute {minute}");
        assert_eq!(r % 60, 0);
        // Minimality: every earlier instant is off the grid.
        for u in (t + 1)..r {
            let m = (u / 60) % 60;
            assert!(!((m == 15 || m == 35 || m == 55) && u % 60 == 0));
        }
    }
}

#[test]
fn rejects_instants_before_the_epoch() {
    match SkyblockDay::try_date_to_skyblock(EPOCH_SECONDS - 1) {
        Err(e) => assert_eq!(e, CalendarError::ConversionError),
        Ok(_) => panic!("instant before the epoch accepted"),
    }
    let d = SkyblockDay::try_date_to_skyblock(EPOCH_SECONDS).unwrap();
    assert_eq!((d.day, d.month, d.year), (1, 1, 1));
}

#[test]
fn seconds_to_dhm_examples() {
    assert_eq!(seconds_to_dhm(0), (0, 0, 0));
    assert_eq!(seconds_to_dhm(90_061), (1, 1, 1));
    assert_eq!(seconds_to_dhm(86_399), (0, 23, 59));
    assert_eq!(seconds_to_dhm(447_600), (5, 4, 20));
}
