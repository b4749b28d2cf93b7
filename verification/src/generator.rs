use vstd::prelude::*;

use crate::calendar::Calendar;
use crate::election::{
    derived_event_views, election_view_wf, first_election_with_year, lemma_election_vec_deep_view,
    Election, ElectionView,
};
use crate::errors::CalendarError;
use crate::event::{
    event_matches_tick, event_view_wf, lemma_event_vec_deep_view, Event, EventView,
};
use crate::time::{
    fictional_year_of, instant_of_date, lemma_aligned_on_tick_grid, lemma_date_round_trip,
    lemma_tick_converts_exactly, next_aligned, valid_instant, SkyblockDay, EPOCH_SECONDS,
    INSTANT_LIMIT, SECONDS_PER_FICTIONAL_DAY,
};

verus! {

/// Whether an event fires at the given tick (see [`event_matches_tick`]).
pub open spec fn tick_match_pred(tick: int) -> spec_fn(EventView) -> bool {
    |v: EventView| event_matches_tick(v, tick)
}

/// Whether an event starts exactly at the given instant.
pub open spec fn starts_at_pred(start: int) -> spec_fn(EventView) -> bool {
    |v: EventView| v.start_time == start
}

/// Every event of the sequence carries a recurrence interval.
pub open spec fn all_recurring(base: Seq<EventView>) -> bool {
    forall|i: int| 0 <= i < base.len() ==> (#[trigger] base[i]).recurrence is Some
}

/// Every event of the sequence satisfies the event invariant.
pub open spec fn all_events_wf(base: Seq<EventView>) -> bool {
    forall|i: int| 0 <= i < base.len() ==> event_view_wf(#[trigger] base[i])
}

/// Every election of the sequence satisfies the election invariant.
pub open spec fn all_elections_wf(els: Seq<ElectionView>) -> bool {
    forall|i: int| 0 <= i < els.len() ==> election_view_wf(#[trigger] els[i])
}

/// The events collected at one tick, in order: first every base event that
/// fires at the tick, then every event derived from the election of the
/// following fictional year that starts exactly at the tick.
pub open spec fn tick_event_views(
    tick: int,
    base: Seq<EventView>,
    els: Seq<ElectionView>,
) -> Seq<EventView> {
    base.filter(tick_match_pred(tick)) + match first_election_with_year(
        els,
        fictional_year_of(tick) + 1,
    ) {
        Some(el) => derived_event_views(el).filter(starts_at_pred(tick)),
        None => Seq::empty(),
    }
}

/// The events collected across the whole window: one tick every 20 real
/// minutes, from `tick` (inclusive) up to `to` (exclusive), in tick order.
pub open spec fn generated_event_views(
    tick: int,
    to: int,
    base: Seq<EventView>,
    els: Seq<ElectionView>,
) -> Seq<EventView>
    decreases to + SECONDS_PER_FICTIONAL_DAY - tick,
{
    if tick >= to {
        Seq::empty()
    } else {
        tick_event_views(tick, base, els) + generated_event_views(
            tick + SECONDS_PER_FICTIONAL_DAY,
            to,
            base,
            els,
        )
    }
}

/// What a successfully generated calendar holds for the window `[from, to)`.
pub open spec fn generated_calendar_ok(
    cal: Calendar,
    from: int,
    to: int,
    base: Seq<EventView>,
    els: Seq<ElectionView>,
) -> bool {
    &&& cal.wf()
    &&& cal.id == 0
    &&& cal.title@ == "Skyblock"@
    &&& cal.description@ == Seq::<char>::empty()
    &&& cal.event_views() == generated_event_views(next_aligned(from), to, base, els)
}

impl SkyblockDay {
    /// The first supplied election held in the given fictional year, if any.
    pub fn get_election<'a>(sb_year: i16, previous_elections: &'a Vec<Election>) -> (r: Option<
        &'a Election,
    >)
        ensures
            match r {
                Some(el) => {
                    &&& first_election_with_year(
                        previous_elections.deep_view(),
                        sb_year as int,
                    ) == Some(el@)
                    &&& previous_elections.deep_view().contains(el@)
                },
                None => first_election_with_year(
                    previous_elections.deep_view(),
                    sb_year as int,
                ) is None,
            },
    {
        proof {
            lemma_election_vec_deep_view(previous_elections);
            assert(previous_elections.deep_view().skip(0) =~= previous_elections.deep_view());
        }
        let ghost els = previous_elections.deep_view();
        let mut idx: usize = 0;
        while idx < previous_elections.len()
            invariant
                0 <= idx <= els.len(),
                els == previous_elections.deep_view(),
                els.len() == previous_elections@.len(),
                forall|i: int| 0 <= i < els.len() ==> els[i] == (#[trigger] previous_elections@[i])@,
                first_election_with_year(els, sb_year as int) == first_election_with_year(
                    els.skip(idx as int),
                    sb_year as int,
                ),
            decreases els.len() - idx,
        {
            let election = &previous_elections[idx];
            proof {
                assert(els.skip(idx as int)[0] == els[idx as int]);
            }
            if election.year == sb_year {
                return Some(election);
            }
            proof {
                assert(els.skip(idx as int).drop_first() =~= els.skip(idx as int + 1));
            }
            idx = idx + 1;
        }
        proof {
            assert(els.skip(els.len() as int) =~= Seq::<ElectionView>::empty());
        }
        None
    }

    /// The events that fall on this fictional day: base events whose
    /// recurrence fires at the day's start instant, then events derived from
    /// the next fictional year's election that start exactly at it. Fails
    /// with `PreconditionViolation`, collecting nothing, when a base event
    /// has no recurrence.
    pub fn get_events(&self, previous_events: &Vec<Event>, previous_elections: &Vec<Election>)
        -> (r: Result<Vec<Event>, CalendarError>)
        requires
            self.wf(),
            all_events_wf(previous_events.deep_view()),
            all_elections_wf(previous_elections.deep_view()),
        ensures
            match r {
                Ok(evs) => {
                    &&& all_recurring(previous_events.deep_view())
                    &&& evs.deep_view() == tick_event_views(
                        instant_of_date(self.day as int, self.month as int, self.year as int),
                        previous_events.deep_view(),
                        previous_elections.deep_view(),
                    )
                    &&& all_events_wf(evs.deep_view())
                },
                Err(e) => {
                    &&& e == CalendarError::PreconditionViolation
                    &&& !all_recurring(previous_events.deep_view())
                },
            },
    {
        proof {
            lemma_date_round_trip(self.day as int, self.month as int, self.year as int);
            lemma_event_vec_deep_view(previous_events);
        }
        let ghost base = previous_events.deep_view();
        let ghost els = previous_elections.deep_view();
        let tick: i64 = self.as_datetime();
        let mut events: Vec<Event> = Vec::new();
        let mut idx: usize = 0;
        while idx < previous_events.len()
            invariant
                self.wf(),
                all_events_wf(base),
                0 <= idx <= base.len(),
                base == previous_events.deep_view(),
                base.len() == previous_events@.len(),
                forall|i: int| 0 <= i < base.len() ==> base[i] == (#[trigger] previous_events@[i])@,
                valid_instant(tick as int),
                tick == instant_of_date(self.day as int, self.month as int, self.year as int),
                forall|i: int| 0 <= i < idx ==> (#[trigger] base[i]).recurrence is Some,
                events.deep_view() == base.take(idx as int).filter(tick_match_pred(tick as int)),
                forall|i: int| 0 <= i < events@.len() ==> (#[trigger] events@[i]).wf(),
            decreases base.len() - idx,
        {
            let ghost pre = events.deep_view();
            let event = &previous_events[idx];
            match event.matches_tick(tick) {
                Ok(fires) => {
                    if fires {
                        events.push(event.clone());
                    }
                },
                Err(e) => {
                    return Err(e);
                },
            }
            proof {
                reveal(Seq::filter);
                lemma_event_vec_deep_view(&events);
                assert(base.take(idx + 1).drop_last() =~= base.take(idx as int));
                assert(base.take(idx + 1).last() == base[idx as int]);
                if event_matches_tick(base[idx as int], tick as int) {
                    assert(events.deep_view() =~= pre.push(event@));
                } else {
                    assert(events.deep_view() =~= pre);
                }
            }
            idx = idx + 1;
        }
        proof {
            assert(base.take(base.len() as int) =~= base);
        }
        let ghost base_part = events.deep_view();
        let next_year: i16 = self.year + 1;
        match Self::get_election(next_year, previous_elections) {
            Some(election) => {
                let derived = election.get_events();
                let ghost der = derived.deep_view();
                let mut j: usize = 0;
                while j < derived.len()
                    invariant
                        0 <= j <= der.len(),
                        der == derived.deep_view(),
                        der.len() == derived@.len(),
                        forall|i: int| 0 <= i < der.len() ==> der[i] == (#[trigger] derived@[i])@,
                        forall|i: int| 0 <= i < derived@.len() ==> (#[trigger] derived@[i]).wf(),
                        valid_instant(tick as int),
                        events.deep_view() == base_part + der.take(j as int).filter(
                            starts_at_pred(tick as int),
                        ),
                        forall|i: int| 0 <= i < events@.len() ==> (#[trigger] events@[i]).wf(),
                    decreases der.len() - j,
                {
                    let ghost pre = events.deep_view();
                    let derived_event = &derived[j];
                    if derived_event.get_start_time() == tick {
                        events.push(derived_event.clone());
                    }
                    proof {
                        reveal(Seq::filter);
                        lemma_event_vec_deep_view(&events);
                        lemma_event_vec_deep_view(&derived);
                        assert(der.take(j + 1).drop_last() =~= der.take(j as int));
                        assert(der.take(j + 1).last() == der[j as int]);
                        if der[j as int].start_time == tick {
                            assert(events.deep_view() =~= pre.push(derived_event@));
                            assert(events.deep_view() =~= base_part + der.take(j + 1).filter(
                                starts_at_pred(tick as int),
                            ));
                        } else {
                            assert(events.deep_view() =~= pre);
                            assert(events.deep_view() =~= base_part + der.take(j + 1).filter(
                                starts_at_pred(tick as int),
                            ));
                        }
                    }
                    j = j + 1;
                }
                proof {
                    assert(der.take(der.len() as int) =~= der);
                    assert(events.deep_view() =~= tick_event_views(tick as int, base, els));
                }
                Ok(events)
            },
            None => {
                proof {
                    assert(events.deep_view() =~= tick_event_views(tick as int, base, els));
                }
                Ok(events)
            },
        }
    }
}

/// Walks the fictional-day grid across `[from, to)` and populates a fresh
/// calendar titled "Skyblock" with every base event that fires at a tick and
/// every election-derived event that starts at one. Fails atomically with
/// `PreconditionViolation` when the window holds a tick and a base event has
/// no recurrence.
pub fn generate_calendar(
    from: i64,
    to: i64,
    previous_events: &Vec<Event>,
    previous_elections: &Vec<Election>,
) -> (r: Result<Calendar, CalendarError>)
    requires
        EPOCH_SECONDS <= from <= INSTANT_LIMIT,
        to <= INSTANT_LIMIT,
        all_events_wf(previous_events.deep_view()),
        all_elections_wf(previous_elections.deep_view()),
    ensures
        match r {
            Ok(cal) => {
                &&& generated_calendar_ok(
                    cal,
                    from as int,
                    to as int,
                    previous_events.deep_view(),
                    previous_elections.deep_view(),
                )
                &&& next_aligned(from as int) < to ==> all_recurring(
                    previous_events.deep_view(),
                )
            },
            Err(e) => {
                &&& e == CalendarError::PreconditionViolation
                &&& next_aligned(from as int) < to
                &&& !all_recurring(previous_events.deep_view())
            },
        },
{
    let ghost base = previous_events.deep_view();
    let ghost els = previous_elections.deep_view();
    let mut calendar = Calendar::new(String::from_str("Skyblock"), None);
    let mut next_valid_day: i64 = SkyblockDay::get_next_skyblock_day(from);
    let ghost t0 = next_valid_day as int;
    proof {
        lemma_aligned_on_tick_grid(t0);
        assert(calendar.event_views() =~= Seq::<EventView>::empty());
    }
    while next_valid_day < to
        invariant
            EPOCH_SECONDS <= next_valid_day,
            to <= INSTANT_LIMIT,
            t0 == next_aligned(from as int),
            t0 <= next_valid_day,
            (next_valid_day as int - EPOCH_SECONDS) % (SECONDS_PER_FICTIONAL_DAY as int) == 0,
            base == previous_events.deep_view(),
            els == previous_elections.deep_view(),
            all_events_wf(base),
            all_elections_wf(els),
            calendar.wf(),
            calendar.id == 0,
            calendar.title@ == "Skyblock"@,
            calendar.description@ == Seq::<char>::empty(),
            next_valid_day == t0 || all_recurring(base),
            calendar.event_views() + generated_event_views(next_valid_day as int, to as int, base,
                els,
            ) == generated_event_views(t0, to as int, base, els),
        decreases to + SECONDS_PER_FICTIONAL_DAY - next_valid_day,
    {
        let ghost cal_pre = calendar.event_views();
        let sb_day = SkyblockDay::date_to_skyblock(next_valid_day);
        let sb_events = match sb_day.get_events(previous_events, previous_elections) {
            Ok(evs) => evs,
            Err(e) => {
                return Err(e);
            },
        };
        proof {
            lemma_tick_converts_exactly(next_valid_day as int);
            lemma_event_vec_deep_view(&sb_events);
        }
        let ghost svs = sb_events.deep_view();
        let mut k: usize = 0;
        while k < sb_events.len()
            invariant
                0 <= k <= svs.len(),
                svs == sb_events.deep_view(),
                svs.len() == sb_events@.len(),
                forall|i: int| 0 <= i < svs.len() ==> svs[i] == (#[trigger] sb_events@[i])@,
                calendar.wf(),
                calendar.id == 0,
                calendar.title@ == "Skyblock"@,
                calendar.description@ == Seq::<char>::empty(),
                calendar.event_views() == cal_pre + svs.take(k as int),
            decreases svs.len() - k,
        {
            calendar.add_event(sb_events[k].clone());
            proof {
                assert(cal_pre + svs.take(k as int + 1) =~= (cal_pre + svs.take(k as int)).push(
                    svs[k as int],
                ));
            }
            k = k + 1;
        }
        proof {
            assert(svs.take(svs.len() as int) =~= svs);
            assert(calendar.event_views() =~= cal_pre + tick_event_views(
                next_valid_day as int,
                base,
                els,
            ));
            assert(generated_event_views(next_valid_day as int, to as int, base, els)
                == tick_event_views(next_valid_day as int, base, els) + generated_event_views(
                next_valid_day as int + SECONDS_PER_FICTIONAL_DAY,
                to as int,
                base,
                els,
            ));
            assert(calendar.event_views() + generated_event_views(
                next_valid_day as int + SECONDS_PER_FICTIONAL_DAY,
                to as int,
                base,
                els,
            ) =~= generated_event_views(t0, to as int, base, els));
            vstd::arithmetic::div_mod::lemma_mod_add_multiples_vanish(
                next_valid_day as int - EPOCH_SECONDS,
                SECONDS_PER_FICTIONAL_DAY as int,
            );
        }
        next_valid_day = next_valid_day + SECONDS_PER_FICTIONAL_DAY;
    }
    proof {
        assert(generated_event_views(next_valid_day as int, to as int, base, els)
            =~= Seq::<EventView>::empty());
        assert(calendar.event_views() + Seq::<EventView>::empty() =~= calendar.event_views());
    }
    Ok(calendar)
}

/// An empty or inverted window generates nothing: the first tick strictly
/// after `from` already lies at or past `to`, so no tick is visited.
pub proof fn lemma_empty_window(from: int, to: int, base: Seq<EventView>, els: Seq<ElectionView>)
    requires
        to <= from,
    ensures
        generated_event_views(next_aligned(from), to, base, els) == Seq::<EventView>::empty(),
{
    vstd::arithmetic::div_mod::lemma_mod_bound(from, 3600);
}

/// The generator as called with externally loaded sources: a missing source
/// fails the whole call with `DataUnavailable` and no partial calendar.
pub fn generate_calendar_from_sources(
    from: i64,
    to: i64,
    previous_events: Option<&Vec<Event>>,
    previous_elections: Option<&Vec<Election>>,
) -> (r: Result<Calendar, CalendarError>)
    requires
        EPOCH_SECONDS <= from <= INSTANT_LIMIT,
        to <= INSTANT_LIMIT,
        match previous_events {
            Some(evs) => all_events_wf(evs.deep_view()),
            None => true,
        },
        match previous_elections {
            Some(els) => all_elections_wf(els.deep_view()),
            None => true,
        },
    ensures
        match r {
            Ok(cal) => {
                &&& previous_events is Some
                &&& previous_elections is Some
                &&& generated_calendar_ok(
                    cal,
                    from as int,
                    to as int,
                    previous_events->0.deep_view(),
                    previous_elections->0.deep_view(),
                )
                &&& next_aligned(from as int) < to ==> all_recurring(
                    previous_events->0.deep_view(),
                )
            },
            Err(e) => {
                if previous_events is None || previous_elections is None {
                    e == CalendarError::DataUnavailable
                } else {
                    &&& e == CalendarError::PreconditionViolation
                    &&& next_aligned(from as int) < to
                    &&& !all_recurring(previous_events->0.deep_view())
                }
            },
        },
{
    match (previous_events, previous_elections) {
        (Some(evs), Some(els)) => generate_calendar(from, to, evs, els),
        _ => Err(CalendarError::DataUnavailable),
    }
}

} // verus!
