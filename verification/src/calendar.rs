use vstd::multiset::Multiset;
use vstd::prelude::*;
use vstd::seq_lib::group_to_multiset_ensures;

use crate::event::{Event, EventView};

verus! {

/// Views of a sequence of borrowed events, element by element.
pub open spec fn views_of_events(s: Seq<&Event>) -> Seq<EventView> {
    Seq::new(s.len(), |i: int| s[i]@)
}

/// The events of `s` that start strictly after `date`.
pub open spec fn upcoming_pred(date: int) -> spec_fn(EventView) -> bool {
    |v: EventView| v.start_time > date
}

/// An aggregate owning events, each under a fresh numeric identity assigned
/// at insertion: the key of an event is its insertion index.
#[derive(Debug)]
pub struct Calendar {
    pub id: u64,
    pub title: String,
    pub description: String,
    pub events: Vec<(u64, Event)>,
}

impl Calendar {
    /// The calendar invariant: each event's key is its insertion index.
    pub open spec fn wf(&self) -> bool {
        forall|i: int| 0 <= i < self.events@.len() ==> (#[trigger] self.events@[i]).0 == i
    }

    /// The views of the owned events, in insertion order.
    pub open spec fn event_views(&self) -> Seq<EventView> {
        Seq::new(self.events@.len(), |i: int| self.events@[i].1@)
    }

    /// An empty calendar with the given title; an absent description is
    /// stored as the empty string.
    pub fn new(title: String, description: Option<String>) -> (r: Self)
        ensures
            r.title == title,
            match description {
                Some(d) => r.description == d,
                None => r.description@ == Seq::<char>::empty(),
            },
            r.id == 0,
            r.events@.len() == 0,
            r.wf(),
    {
        let desc: String = match description {
            Some(d) => d,
            None => String::new(),
        };
        Calendar { id: 0, title, description: desc, events: Vec::new() }
    }

    pub fn get_id(&self) -> (r: u64)
        ensures
            r == self.id,
    {
        self.id
    }

    pub fn get_description(&self) -> (r: &str)
        ensures
            r@ == self.description@,
    {
        self.description.as_str()
    }

    /// Inserts an event under a fresh identity. Re-adding an equal event
    /// value yields a distinct entry: identities never repeat.
    pub fn add_event(&mut self, event: Event)
        requires
            old(self).wf(),
        ensures
            final(self).wf(),
            final(self).events@ == old(self).events@.push(
                (old(self).events@.len() as u64, event),
            ),
            final(self).event_views() == old(self).event_views().push(event@),
            final(self).id == old(self).id,
            final(self).title == old(self).title,
            final(self).description == old(self).description,
    {
        let key: u64 = self.events.len() as u64;
        self.events.push((key, event));
        proof {
            assert(final(self).event_views() =~= old(self).event_views().push(
                final(self).events@[final(self).events@.len() - 1].1@,
            ));
        }
    }

    /// The event stored under the given identity, if any.
    pub fn get_event(&self, event_id: u64) -> (r: Option<&Event>)
        requires
            self.wf(),
        ensures
            match r {
                Some(e) => event_id < self.events@.len() && *e == self.events@[event_id as int].1,
                None => event_id >= self.events@.len(),
            },
    {
        let n: usize = self.events.len();
        if event_id < n as u64 {
            Some(&self.events[event_id as usize].1)
        } else {
            None
        }
    }

    /// All owned events, in insertion order.
    pub fn list_events(&self) -> (r: Vec<&Event>)
        ensures
            views_of_events(r@) == self.event_views(),
    {
        let mut out: Vec<&Event> = Vec::new();
        let mut idx: usize = 0;
        while idx < self.events.len()
            invariant
                0 <= idx <= self.events@.len(),
                out@.len() == idx,
                forall|j: int| 0 <= j < idx ==> out@[j] == &(#[trigger] self.events@[j]).1,
            decreases self.events@.len() - idx,
        {
            out.push(&self.events[idx].1);
            idx = idx + 1;
        }
        proof {
            assert(views_of_events(out@) =~= self.event_views());
        }
        out
    }

    /// The owned events that start strictly after `date`, in ascending order
    /// of start time. Events at or before `date` are excluded.
    pub fn find_upcoming_events(&self, date: i64) -> (r: Vec<&Event>)
        ensures
            forall|i: int|
                0 <= i < r@.len() ==> (#[trigger] views_of_events(r@)[i]).start_time > date,
            forall|i: int, j: int|
                0 <= i < j < r@.len() ==> views_of_events(r@)[i].start_time <= views_of_events(
                    r@,
                )[j].start_time,
            views_of_events(r@).to_multiset() == self.event_views().filter(
                upcoming_pred(date as int),
            ).to_multiset(),
    {
        let mut collected: Vec<&Event> = Vec::new();
        let mut idx: usize = 0;
        while idx < self.events.len()
            invariant
                0 <= idx <= self.events@.len(),
                views_of_events(collected@) == self.event_views().take(idx as int).filter(
                    upcoming_pred(date as int),
                ),
            decreases self.events@.len() - idx,
        {
            let ghost pre = collected@;
            let e: &Event = &self.events[idx].1;
            if e.start_time > date {
                collected.push(e);
            }
            proof {
                reveal(Seq::filter);
                assert(self.event_views().take(idx + 1).drop_last() =~= self.event_views().take(
                    idx as int,
                ));
                assert(self.event_views().take(idx + 1).last() == self.events@[idx as int].1@);
                if e.start_time > date {
                    assert(views_of_events(collected@) =~= views_of_events(pre).push(e@));
                } else {
                    assert(views_of_events(collected@) =~= views_of_events(pre));
                }
            }
            idx = idx + 1;
        }
        proof {
            assert(self.event_views().take(self.events@.len() as int) =~= self.event_views());
        }
        let sorted = sort_events_by_start(collected);
        proof {
            broadcast use group_to_multiset_ensures;
            broadcast use vstd::seq_lib::group_filter_ensures;

            let filtered = self.event_views().filter(upcoming_pred(date as int));
            assert forall|i: int| 0 <= i < sorted@.len() implies (#[trigger] views_of_events(
                sorted@,
            )[i]).start_time > date by {
                let v = views_of_events(sorted@)[i];
                assert(views_of_events(sorted@).to_multiset().contains(v));
                assert(filtered.to_multiset().count(v) > 0);
                assert(filtered.contains(v));
                let k = choose|k: int| 0 <= k < filtered.len() && filtered[k] == v;
                assert(upcoming_pred(date as int)(filtered[k]));
            }
        }
        sorted
    }
}

/// Two successive insertions — even of one and the same event value — create
/// two distinct calendar entries: the calendar grows by two, and the two new
/// keys differ.
pub proof fn lemma_insertion_identity(
    c0: Calendar,
    c1: Calendar,
    c2: Calendar,
    e1: Event,
    e2: Event,
)
    requires
        c0.wf(),
        c0.events@.len() + 1 < u64::MAX,
        c1.events@ == c0.events@.push((c0.events@.len() as u64, e1)),
        c2.events@ == c1.events@.push((c1.events@.len() as u64, e2)),
    ensures
        c2.events@.len() == c0.events@.len() + 2,
        c2.events@[c0.events@.len() as int].0 != c2.events@[c0.events@.len() as int + 1].0,
{
}

/// Sorts borrowed events ascending by start time, preserving the multiset of
/// their views: repeatedly extracts a minimal remaining element.
fn sort_events_by_start(events: Vec<&Event>) -> (r: Vec<&Event>)
    ensures
        forall|i: int, j: int|
            0 <= i < j < r@.len() ==> views_of_events(r@)[i].start_time <= views_of_events(
                r@,
            )[j].start_time,
        views_of_events(r@).to_multiset() == views_of_events(events@).to_multiset(),
        forall|i: int|
            0 <= i < r@.len() ==> views_of_events(r@).to_multiset().contains(
                #[trigger] views_of_events(r@)[i],
            ),
{
    let ghost orig = views_of_events(events@);
    let mut src: Vec<&Event> = events;
    let mut out: Vec<&Event> = Vec::new();
    proof {
        broadcast use group_to_multiset_ensures;

        assert(views_of_events(out@) =~= Seq::<EventView>::empty());
        assert(views_of_events(out@).to_multiset().add(views_of_events(src@).to_multiset())
            =~= orig.to_multiset());
    }
    while src.len() > 0
        invariant
            forall|a: int, b: int|
                0 <= a < b < out@.len() ==> views_of_events(out@)[a].start_time
                    <= views_of_events(out@)[b].start_time,
            forall|a: int, b: int|
                0 <= a < out@.len() && 0 <= b < src@.len() ==> views_of_events(out@)[
                    a
                ].start_time <= views_of_events(src@)[b].start_time,
            views_of_events(out@).to_multiset().add(views_of_events(src@).to_multiset())
                == orig.to_multiset(),
        decreases src@.len(),
    {
        let mut m: usize = 0;
        let mut k: usize = 1;
        while k < src.len()
            invariant
                0 <= m < src@.len(),
                1 <= k <= src@.len(),
                forall|j: int|
                    0 <= j < k ==> views_of_events(src@)[m as int].start_time
                        <= (#[trigger] views_of_events(src@)[j]).start_time,
            decreases src@.len() - k,
        {
            if src[k].start_time < src[m].start_time {
                m = k;
            }
            k = k + 1;
        }
        let ghost pre_src = src@;
        let ghost pre_out = out@;
        let e: &Event = src.remove(m);
        out.push(e);
        proof {
            broadcast use group_to_multiset_ensures;

            assert(views_of_events(src@) =~= views_of_events(pre_src).remove(m as int));
            assert(views_of_events(out@) =~= views_of_events(pre_out).push(e@));
            assert(views_of_events(pre_src)[m as int] == e@);
            assert(views_of_events(out@).to_multiset().add(
                views_of_events(src@).to_multiset(),
            ) =~= orig.to_multiset());
        }
    }
    proof {
        broadcast use group_to_multiset_ensures;

        assert(views_of_events(src@) =~= Seq::<EventView>::empty());
        assert(views_of_events(src@).to_multiset() =~= Multiset::<EventView>::empty());
        assert(views_of_events(out@).to_multiset() =~= orig.to_multiset());
    }
    out
}

} // verus!
