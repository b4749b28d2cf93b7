use vstd::prelude::*;

use crate::event::{lemma_event_vec_deep_view, Event, EventView};
use crate::time::{
    instant_of_date, DAYS_PER_MONTH, DAYS_PER_YEAR, EPOCH_SECONDS, INSTANT_LIMIT, MAX_YEAR,
    SkyblockDay, SECONDS_PER_FICTIONAL_DAY,
};

verus! {

/// The closed set of perks the engine derives events from; any other perk is
/// `Other` and produces nothing.
#[derive(Clone, Copy, Debug, PartialEq, Eq, Structural)]
pub enum Perk {
    FishingFestival,
    MiningFiesta,
    MythologicalRitual,
    ChivalrousCarnival,
    Other,
}

/// The mathematical value of an [`Election`].
pub ghost struct ElectionView {
    pub mayor: Seq<char>,
    pub minister: Seq<char>,
    pub perks: Seq<Perk>,
    pub year: int,
    pub start: int,
    pub end: int,
}

/// A time-bounded ruling configuration: a set of active perks for one
/// fictional year, with real start and end instants.
#[derive(Debug)]
pub struct Election {
    pub mayor: String,
    pub minister: String,
    pub perks: Vec<Perk>,
    pub year: i16,
    pub start: i64,
    pub end: i64,
}

impl View for Election {
    type V = ElectionView;

    open spec fn view(&self) -> ElectionView {
        ElectionView {
            mayor: self.mayor@,
            minister: self.minister@,
            perks: self.perks@,
            year: self.year as int,
            start: self.start as int,
            end: self.end as int,
        }
    }
}

impl DeepView for Election {
    type V = ElectionView;

    open spec fn deep_view(&self) -> ElectionView {
        self.view()
    }
}

/// The election invariant: it starts before it ends, its year lies in the
/// fictional calendar's range, and its instants keep derived-event
/// arithmetic inside `i64`.
pub open spec fn election_view_wf(v: ElectionView) -> bool {
    &&& 0 <= v.start < v.end
    &&& v.start <= INSTANT_LIMIT
    &&& 1 <= v.year <= MAX_YEAR
}

/// One derived event of the Fishing Festival perk, for month offset `i`.
pub open spec fn fishing_event_view(el: ElectionView, i: int) -> EventView {
    let start = instant_of_date(1, i % 12, el.year);
    EventView {
        title: "Fishing Festival"@,
        description: Some(Seq::<char>::empty()),
        notify_at: el.start - 180,
        start_time: start,
        end_time: start + 3600,
        duration: 3600,
        recurrence: Some(3600),
        remind: Some(120),
    }
}

/// One derived event of the Mining Fiesta perk, for month offset `i`.
pub open spec fn mining_event_view(el: ElectionView, i: int) -> EventView {
    let start = instant_of_date(1, i % 12, el.year);
    EventView {
        title: "Mining Fiesta"@,
        description: Some(Seq::<char>::empty()),
        notify_at: el.start - 180,
        start_time: start,
        end_time: start + 18000,
        duration: 18000,
        recurrence: Some(18000),
        remind: Some(120),
    }
}

/// The single derived event of the Mythological Ritual perk.
pub open spec fn mythological_event_view(el: ElectionView) -> EventView {
    EventView {
        title: "Mythological Ritual"@,
        description: Some(Seq::<char>::empty()),
        notify_at: el.start - 180,
        start_time: el.start,
        end_time: el.start + 18000,
        duration: 18000,
        recurrence: Some(446400),
        remind: Some(120),
    }
}

/// The single derived event of the Chivalrous Carnival perk.
pub open spec fn carnival_event_view(el: ElectionView) -> EventView {
    EventView {
        title: "Chivalrous Carnival"@,
        description: Some(Seq::<char>::empty()),
        notify_at: el.start - 180,
        start_time: el.start,
        end_time: el.start + 18000,
        duration: 18000,
        recurrence: Some(446400),
        remind: Some(120),
    }
}

/// The events an election's perks produce. Exactly one branch applies, in a
/// fixed priority order, so derivation is deterministic even when several of
/// the perks are present.
pub open spec fn derived_event_views(el: ElectionView) -> Seq<EventView> {
    if el.perks.contains(Perk::FishingFestival) {
        Seq::new(10, |i: int| fishing_event_view(el, i + 5))
    } else if el.perks.contains(Perk::MiningFiesta) {
        Seq::new(3, |i: int| mining_event_view(el, i))
    } else if el.perks.contains(Perk::MythologicalRitual) {
        seq![mythological_event_view(el)]
    } else if el.perks.contains(Perk::ChivalrousCarnival) {
        seq![carnival_event_view(el)]
    } else {
        Seq::empty()
    }
}

/// The first election of the sequence held in the given fictional year.
pub open spec fn first_election_with_year(els: Seq<ElectionView>, year: int) -> Option<
    ElectionView,
>
    decreases els.len(),
{
    if els.len() == 0 {
        None
    } else if els[0].year == year {
        Some(els[0])
    } else {
        first_election_with_year(els.drop_first(), year)
    }
}

impl Election {
    /// The election invariant, stated on the concrete value.
    pub open spec fn wf(&self) -> bool {
        election_view_wf(self@)
    }

    pub fn new(
        mayor: String,
        minister: String,
        perks: Vec<Perk>,
        year: i16,
        start: i64,
        end: i64,
    ) -> (r: Election)
        requires
            0 <= start < end,
            start <= INSTANT_LIMIT,
            1 <= year <= MAX_YEAR,
        ensures
            r.mayor == mayor,
            r.minister == minister,
            r.perks == perks,
            r.year == year,
            r.start == start,
            r.end == end,
            r.wf(),
    {
        Election { mayor, minister, perks, year, start, end }
    }

    /// The election of the given fictional year, as built from an upstream
    /// snapshot: it runs from day 27 of month 5 of its year and ends at the
    /// start of the fictional day 403200 real seconds (336 ticks) later.
    pub fn for_year(mayor: String, minister: String, perks: Vec<Perk>, year: i16) -> (r: Election)
        requires
            1 <= year < MAX_YEAR,
        ensures
            r.mayor == mayor,
            r.minister == minister,
            r.perks == perks,
            r.year == year,
            r.start == instant_of_date(27, 5, year as int),
            r.end == r.start + 403_200,
            r.wf(),
    {
        let start_day = SkyblockDay::new(27, 5, year);
        let start: i64 = start_day.as_datetime();
        proof {
            crate::time::lemma_date_round_trip(27, 5, year as int);
            crate::time::lemma_tick_step_stays_on_grid(start as int, 336);
            crate::time::lemma_tick_converts_exactly(start as int + 403_200);
        }
        let end: i64 = SkyblockDay::date_to_skyblock(start + 403_200).as_datetime();
        Election { mayor, minister, perks, year, start, end }
    }

    /// Whether the given perk is active in this election.
    pub fn has_perk(&self, perk: Perk) -> (r: bool)
        ensures
            r == self.perks@.contains(perk),
    {
        let mut idx: usize = 0;
        while idx < self.perks.len()
            invariant
                0 <= idx <= self.perks@.len(),
                forall|j: int| 0 <= j < idx ==> self.perks@[j] != perk,
            decreases self.perks@.len() - idx,
        {
            if self.perks[idx] == perk {
                return true;
            }
            idx = idx + 1;
        }
        false
    }

    /// The events this election's perks produce (see [`derived_event_views`]).
    pub fn get_events(&self) -> (r: Vec<Event>)
        requires
            self.wf(),
        ensures
            r.deep_view() == derived_event_views(self@),
            forall|i: int| 0 <= i < r@.len() ==> (#[trigger] r@[i]).wf(),
    {
        let mut events: Vec<Event> = Vec::new();
        if self.has_perk(Perk::FishingFestival) {
            let mut i: i64 = 5;
            while i < 15
                invariant
                    self.wf(),
                    self@.perks.contains(Perk::FishingFestival),
                    5 <= i <= 15,
                    events@.len() == i - 5,
                    forall|j: int|
                        0 <= j < events@.len() ==> (#[trigger] events@[j])@
                            == fishing_event_view(self@, j + 5),
                    forall|j: int| 0 <= j < events@.len() ==> (#[trigger] events@[j]).wf(),
                decreases 15 - i,
            {
                let month: i64 = i % 12;
                let start: i64 = month_start(self.year, month);
                let ev = Event {
                    title: String::from_str("Fishing Festival"),
                    description: Some(String::new()),
                    notify_at: self.start - 180,
                    start_time: start,
                    end_time: start + 3600,
                    duration: 3600,
                    recurrence: Some(3600),
                    remind: Some(120),
                };
                proof {
                    assert(ev@ == fishing_event_view(self@, i as int));
                }
                events.push(ev);
                i = i + 1;
            }
            proof {
                lemma_event_vec_deep_view(&events);
                assert(events.deep_view() =~= derived_event_views(self@));
            }
            events
        } else if self.has_perk(Perk::MiningFiesta) {
            let mut i: i64 = 0;
            while i < 3
                invariant
                    self.wf(),
                    !self@.perks.contains(Perk::FishingFestival),
                    self@.perks.contains(Perk::MiningFiesta),
                    0 <= i <= 3,
                    events@.len() == i,
                    forall|j: int|
                        0 <= j < events@.len() ==> (#[trigger] events@[j])@
                            == mining_event_view(self@, j),
                    forall|j: int| 0 <= j < events@.len() ==> (#[trigger] events@[j]).wf(),
                decreases 3 - i,
            {
                let month: i64 = i % 12;
                let start: i64 = month_start(self.year, month);
                let ev = Event {
                    title: String::from_str("Mining Fiesta"),
                    description: Some(String::new()),
                    notify_at: self.start - 180,
                    start_time: start,
                    end_time: start + 18000,
                    duration: 18000,
                    recurrence: Some(18000),
                    remind: Some(120),
                };
                proof {
                    assert(ev@ == mining_event_view(self@, i as int));
                }
                events.push(ev);
                i = i + 1;
            }
            proof {
                lemma_event_vec_deep_view(&events);
                assert(events.deep_view() =~= derived_event_views(self@));
            }
            events
        } else if self.has_perk(Perk::MythologicalRitual) {
            let ev = Event {
                title: String::from_str("Mythological Ritual"),
                description: Some(String::new()),
                notify_at: self.start - 180,
                start_time: self.start,
                end_time: self.start + 18000,
                duration: 18000,
                recurrence: Some(446400),
                remind: Some(120),
            };
            events.push(ev);
            proof {
                lemma_event_vec_deep_view(&events);
                assert(events.deep_view() =~= derived_event_views(self@));
            }
            events
        } else if self.has_perk(Perk::ChivalrousCarnival) {
            let ev = Event {
                title: String::from_str("Chivalrous Carnival"),
                description: Some(String::new()),
                notify_at: self.start - 180,
                start_time: self.start,
                end_time: self.start + 18000,
                duration: 18000,
                recurrence: Some(446400),
                remind: Some(120),
            };
            events.push(ev);
            proof {
                lemma_event_vec_deep_view(&events);
                assert(events.deep_view() =~= derived_event_views(self@));
            }
            events
        } else {
            proof {
                lemma_event_vec_deep_view(&events);
                assert(events.deep_view() =~= derived_event_views(self@));
            }
            events
        }
    }
}

/// An election whose perks include the Fishing Festival derives exactly ten
/// events — one per month offset in [5, 15) — each recurring every 3600
/// seconds.
pub proof fn lemma_fishing_festival_derivation(el: ElectionView)
    requires
        el.perks.contains(Perk::FishingFestival),
    ensures
        derived_event_views(el).len() == 10,
        forall|i: int|
            0 <= i < 10 ==> (#[trigger] derived_event_views(el)[i]).recurrence == Some(3600int),
        forall|i: int|
            0 <= i < 10 ==> (#[trigger] derived_event_views(el)[i]).start_time == instant_of_date(
                1,
                (i + 5) % 12,
                el.year,
            ),
{
}

/// A vector of elections viewed deeply is the element-wise sequence of views.
pub proof fn lemma_election_vec_deep_view(v: &Vec<Election>)
    ensures
        v.deep_view().len() == v@.len(),
        forall|i: int| 0 <= i < v@.len() ==> v.deep_view()[i] == (#[trigger] v@[i])@,
{
    assert(v.deep_view() == Seq::new(v@.len(), |i: int| v@[i].deep_view()));
}

/// The real instant at which day 1 of the given month offset begins; unlike
/// a well-formed date, the month offset may be 0 (the derivation's
/// `i % 12` produces it).
fn month_start(year: i16, month: i64) -> (t: i64)
    requires
        1 <= year <= MAX_YEAR,
        0 <= month <= 11,
    ensures
        t == instant_of_date(1, month as int, year as int),
        0 <= t < INSTANT_LIMIT,
{
    EPOCH_SECONDS + ((year as i64 - 1) * DAYS_PER_YEAR + (month - 1) * DAYS_PER_MONTH)
        * SECONDS_PER_FICTIONAL_DAY
}

} // verus!
