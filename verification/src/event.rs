use vstd::arithmetic::div_mod::{lemma_fundamental_div_mod, lemma_mod_bound};
use vstd::prelude::*;

use crate::errors::CalendarError;
use crate::time::INSTANT_LIMIT;

verus! {

/// The mathematical value of an [`Event`]: strings as character sequences,
/// instants and durations as unbounded integers.
pub ghost struct EventView {
    pub title: Seq<char>,
    pub description: Option<Seq<char>>,
    pub notify_at: int,
    pub start_time: int,
    pub end_time: int,
    pub duration: int,
    pub recurrence: Option<int>,
    pub remind: Option<int>,
}

/// A nameable occurrence with optional recurrence.
///
/// Instants (`notify_at`, `start_time`, `end_time`) are real-world seconds
/// since the Unix epoch; `duration`, `recurrence` and `remind` are in seconds.
#[derive(Debug)]
pub struct Event {
    pub title: String,
    pub description: Option<String>,
    pub notify_at: i64,
    pub start_time: i64,
    pub end_time: i64,
    pub duration: i64,
    pub recurrence: Option<i64>,
    pub remind: Option<i64>,
}

impl View for Event {
    type V = EventView;

    open spec fn view(&self) -> EventView {
        EventView {
            title: self.title@,
            description: match self.description {
                Some(s) => Some(s@),
                None => None,
            },
            notify_at: self.notify_at as int,
            start_time: self.start_time as int,
            end_time: self.end_time as int,
            duration: self.duration as int,
            recurrence: match self.recurrence {
                Some(r) => Some(r as int),
                None => None,
            },
            remind: match self.remind {
                Some(r) => Some(r as int),
                None => None,
            },
        }
    }
}

impl DeepView for Event {
    type V = EventView;

    open spec fn deep_view(&self) -> EventView {
        self.view()
    }
}

/// The event invariant: the end does not precede the start, a recurrence, if
/// present, is positive, and the quantities the engine computes with stay in
/// a range where `i64` arithmetic cannot overflow.
pub open spec fn event_view_wf(v: EventView) -> bool {
    &&& 0 <= v.start_time <= INSTANT_LIMIT
    &&& v.start_time <= v.end_time
    &&& match v.recurrence {
        Some(r) => 0 < r <= INSTANT_LIMIT,
        None => true,
    }
}

/// Rust's truncating remainder of `a` by a positive `b`.
pub open spec fn truncated_rem(a: int, b: int) -> int {
    if a >= 0 {
        a % b
    } else {
        -((-a) % b)
    }
}

/// A periodic event fires at `tick` when the distance from its start time is
/// a whole number of recurrence intervals; an event without a recurrence
/// never fires.
pub open spec fn event_matches_tick(v: EventView, tick: int) -> bool {
    match v.recurrence {
        Some(r) => (v.start_time - tick) % r == 0,
        None => false,
    }
}

impl Event {
    /// The event invariant, stated on the concrete value.
    pub open spec fn wf(&self) -> bool {
        event_view_wf(self@)
    }

    pub fn new(
        title: String,
        description: Option<String>,
        notify_at: i64,
        start_time: i64,
        end_time: i64,
        duration: i64,
        recurrence: Option<i64>,
        remind: Option<i64>,
    ) -> (r: Self)
        requires
            0 <= start_time <= INSTANT_LIMIT,
            start_time <= end_time,
            match recurrence {
                Some(rec) => 0 < rec <= INSTANT_LIMIT,
                None => true,
            },
        ensures
            r.title == title,
            r.description == description,
            r.notify_at == notify_at,
            r.start_time == start_time,
            r.end_time == end_time,
            r.duration == duration,
            r.recurrence == recurrence,
            r.remind == remind,
            r.wf(),
    {
        Event { title, description, notify_at, start_time, end_time, duration, recurrence, remind }
    }

    /// Remainder of the signed distance from `date` back to the event's start
    /// time, by the recurrence interval; zero exactly when the event fires at
    /// `date`.
    pub fn modulo(&self, date: i64) -> (r: i64)
        requires
            self.wf(),
            self.recurrence is Some,
            0 <= date <= INSTANT_LIMIT,
        ensures
            r == truncated_rem(self.start_time - date, self.recurrence->0 as int),
            (r == 0) == event_matches_tick(self@, date as int),
    {
        let rec: i64 = match self.recurrence {
            Some(rec) => rec,
            None => 0,
        };
        let diff: i64 = self.start_time - date;
        proof {
            lemma_neg_rem_zero(diff as int, rec as int);
            lemma_mod_bound(diff as int, rec as int);
            lemma_mod_bound(-diff as int, rec as int);
        }
        if diff >= 0 {
            diff % rec
        } else {
            -((-diff) % rec)
        }
    }

    /// Whether the event fires at `date`; an event with no recurrence is
    /// rejected with `PreconditionViolation`.
    pub fn matches_tick(&self, date: i64) -> (r: Result<bool, CalendarError>)
        requires
            self.wf(),
            0 <= date <= INSTANT_LIMIT,
        ensures
            match r {
                Ok(fires) => self.recurrence is Some && fires == event_matches_tick(
                    self@,
                    date as int,
                ),
                Err(e) => e == CalendarError::PreconditionViolation && self.recurrence is None,
            },
    {
        if self.recurrence.is_some() {
            Ok(self.modulo(date) == 0)
        } else {
            Err(CalendarError::PreconditionViolation)
        }
    }

    /// Whether the event starts strictly after `date`.
    pub fn is_upcoming(&self, date: i64) -> (r: bool)
        ensures
            r == (self.start_time > date),
    {
        self.start_time > date
    }

    pub fn get_start_time(&self) -> (r: i64)
        ensures
            r == self.start_time,
    {
        self.start_time
    }

    /// The earliest occurrence `start_time + k * recurrence` (k >= 0) that
    /// lies strictly after `date`; `None` for an event without recurrence.
    pub fn next_occurrence(&self, date: i64) -> (r: Option<i64>)
        requires
            self.wf(),
            0 <= date <= INSTANT_LIMIT,
        ensures
            match r {
                Some(occ) => {
                    &&& self.recurrence is Some
                    &&& occ > date
                    &&& exists|k: int|
                        0 <= k && occ == self.start_time + #[trigger] (k * (self.recurrence->0
                            as int)) && (k == 0 || self.start_time + (k - 1) * (self.recurrence->0
                            as int) <= date)
                },
                None => self.recurrence is None,
            },
    {
        match self.recurrence {
            Some(rec) => {
                let mut occurrence_start: i64 = self.start_time;
                let ghost mut k: int = 0;
                while occurrence_start <= date
                    invariant
                        self.wf(),
                        0 <= date <= INSTANT_LIMIT,
                        self.recurrence == Some(rec),
                        0 < rec <= INSTANT_LIMIT,
                        0 <= k,
                        occurrence_start == self.start_time + k * (rec as int),
                        k == 0 || self.start_time + (k - 1) * (rec as int) <= date,
                    decreases date + rec - occurrence_start,
                {
                    proof {
                        assert((k + 1) * (rec as int) == k * (rec as int) + rec)
                            by (nonlinear_arith);
                        k = k + 1;
                    }
                    occurrence_start = occurrence_start + rec;
                }
                Some(occurrence_start)
            }
            None => None,
        }
    }
}

impl Clone for Event {
    /// A clone is equal to the original, field for field.
    fn clone(&self) -> (r: Self)
        ensures
            r == *self,
    {
        Event {
            title: self.title.clone(),
            description: match &self.description {
                Some(s) => Some(s.clone()),
                None => None,
            },
            notify_at: self.notify_at,
            start_time: self.start_time,
            end_time: self.end_time,
            duration: self.duration,
            recurrence: self.recurrence,
            remind: self.remind,
        }
    }
}

/// A vector of events viewed deeply is the element-wise sequence of views.
pub proof fn lemma_event_vec_deep_view(v: &Vec<Event>)
    ensures
        v.deep_view().len() == v@.len(),
        forall|i: int| 0 <= i < v@.len() ==> v.deep_view()[i] == (#[trigger] v@[i])@,
{
    assert(v.deep_view() == Seq::new(v@.len(), |i: int| v@[i].deep_view()));
}

/// For a positive divisor, negating the dividend preserves divisibility.
proof fn lemma_neg_rem_zero(a: int, b: int)
    requires
        0 < b,
    ensures
        ((-a) % b == 0) <==> (a % b == 0),
{
    lemma_fundamental_div_mod(a, b);
    lemma_fundamental_div_mod(-a, b);
    if a % b == 0 {
        assert(-a == b * (-(a / b))) by (nonlinear_arith)
            requires
                a == b * (a / b),
        ;
        crate::time::lemma_mod_multiples_vanish_int(-(a / b), 0, b);
    }
    if (-a) % b == 0 {
        assert(a == b * (-((-a) / b))) by (nonlinear_arith)
            requires
                -a == b * ((-a) / b),
        ;
        crate::time::lemma_mod_multiples_vanish_int(-((-a) / b), 0, b);
    }
}

} // verus!
