use vstd::arithmetic::div_mod::{
    lemma_div_is_ordered, lemma_fundamental_div_mod, lemma_fundamental_div_mod_converse,
    lemma_mod_bound,
};
use vstd::prelude::*;

use crate::errors::CalendarError;

verus! {

/// Real-world instant, in seconds since the Unix epoch, of fictional date (1, 1, 1):
/// 2019-06-11T17:55:00Z.
pub const EPOCH_SECONDS: i64 = 1_560_275_700;

/// One fictional day lasts 20 real minutes.
pub const SECONDS_PER_FICTIONAL_DAY: i64 = 1_200;

/// Every fictional month has exactly 31 days.
pub const DAYS_PER_MONTH: i64 = 31;

/// Every fictional year has exactly 12 months.
pub const MONTHS_PER_YEAR: i64 = 12;

/// 12 months of 31 days.
pub const DAYS_PER_YEAR: i64 = 372;

/// One fictional year in real seconds: 372 days of 1200 seconds.
pub const SECONDS_PER_FICTIONAL_YEAR: i64 = 446_400;

/// Largest fictional year the converter accepts; keeps every computation
/// comfortably inside `i64` and inside the `i16` year field.
pub const MAX_YEAR: i64 = 30_000;

/// First real instant past the supported conversion range:
/// the start of fictional year `MAX_YEAR + 1`.
pub const INSTANT_LIMIT: i64 = EPOCH_SECONDS + MAX_YEAR * SECONDS_PER_FICTIONAL_YEAR;

/// An instant the bidirectional converter is defined on.
pub open spec fn valid_instant(t: int) -> bool {
    EPOCH_SECONDS <= t < INSTANT_LIMIT
}

/// Number of whole fictional days between the epoch and `t`.
pub open spec fn day_index_of(t: int) -> int {
    (t - EPOCH_SECONDS) / (SECONDS_PER_FICTIONAL_DAY as int)
}

/// Days from the epoch date (1, 1, 1) to the given fictional date.
pub open spec fn day_number_of_date(day: int, month: int, year: int) -> int {
    (year - 1) * DAYS_PER_YEAR + (month - 1) * DAYS_PER_MONTH + (day - 1)
}

/// The real instant a fictional date begins at.
pub open spec fn instant_of_date(day: int, month: int, year: int) -> int {
    EPOCH_SECONDS + day_number_of_date(day, month, year) * SECONDS_PER_FICTIONAL_DAY
}

/// Fictional year that contains the instant `t`.
pub open spec fn fictional_year_of(t: int) -> int {
    day_index_of(t) / (DAYS_PER_YEAR as int) + 1
}

/// Fictional month that contains the instant `t`.
pub open spec fn fictional_month_of(t: int) -> int {
    (day_index_of(t) % (DAYS_PER_YEAR as int)) / (DAYS_PER_MONTH as int) + 1
}

/// Fictional day-of-month that contains the instant `t`.
pub open spec fn fictional_day_of(t: int) -> int {
    (day_index_of(t) % (DAYS_PER_YEAR as int)) % (DAYS_PER_MONTH as int) + 1
}

/// Fictional days begin on the 20-minute grid at minutes 15, 35 and 55 of
/// each real hour.
pub open spec fn is_aligned(t: int) -> bool {
    t % 3600 == 900 || t % 3600 == 2100 || t % 3600 == 3300
}

/// The first grid instant strictly after `t`.
pub open spec fn next_aligned(t: int) -> int {
    let m = t % 3600;
    if m < 900 {
        t - m + 900
    } else if m < 2100 {
        t - m + 2100
    } else if m < 3300 {
        t - m + 3300
    } else {
        t - m + 4500
    }
}

/// A fictional calendar date: `day` in [1, 31], `month` in [1, 12],
/// `year` in [1, MAX_YEAR].
#[derive(Clone, Copy, Debug, PartialEq, Eq, Structural)]
pub struct SkyblockDay {
    pub day: i8,
    pub month: i8,
    pub year: i16,
}

impl SkyblockDay {
    /// The date lies inside the fictional calendar's range.
    pub open spec fn wf(&self) -> bool {
        &&& 1 <= self.day <= DAYS_PER_MONTH
        &&& 1 <= self.month <= MONTHS_PER_YEAR
        &&& 1 <= self.year <= MAX_YEAR
    }

    pub fn new(day: i8, month: i8, year: i16) -> (r: Self)
        ensures
            r.day == day,
            r.month == month,
            r.year == year,
    {
        SkyblockDay { day, month, year }
    }

    /// The real instant this fictional date begins at.
    pub fn as_datetime(&self) -> (t: i64)
        requires
            self.wf(),
        ensures
            t == instant_of_date(self.day as int, self.month as int, self.year as int),
            valid_instant(t as int),
    {
        let total_days: i64 = (self.year as i64 - 1) * DAYS_PER_YEAR
            + (self.month as i64 - 1) * DAYS_PER_MONTH + (self.day as i64 - 1);
        EPOCH_SECONDS + total_days * SECONDS_PER_FICTIONAL_DAY
    }

    /// The fictional date that contains the real instant `date`.
    pub fn date_to_skyblock(date: i64) -> (r: SkyblockDay)
        requires
            valid_instant(date as int),
        ensures
            r.day == fictional_day_of(date as int),
            r.month == fictional_month_of(date as int),
            r.year == fictional_year_of(date as int),
            r.wf(),
    {
        proof {
            lemma_date_parts_bounded(date as int);
        }
        let delta_minutes: i64 = (date - EPOCH_SECONDS) / 60;
        let delta_days: i64 = delta_minutes / 20;
        proof {
            vstd::arithmetic::div_mod::lemma_div_denominator(
                (date - EPOCH_SECONDS) as int,
                60,
                20,
            );
        }
        let delta_years: i64 = delta_days / DAYS_PER_YEAR;
        let year: i64 = 1 + delta_years;
        let remaining_days: i64 = delta_days % DAYS_PER_YEAR;
        let month: i64 = remaining_days / DAYS_PER_MONTH + 1;
        let day: i64 = remaining_days % DAYS_PER_MONTH + 1;
        SkyblockDay { day: day as i8, month: month as i8, year: year as i16 }
    }

    /// Total conversion: rejects instants before the fictional epoch with
    /// `ConversionError` instead of leaving them undefined.
    pub fn try_date_to_skyblock(date: i64) -> (r: Result<SkyblockDay, CalendarError>)
        requires
            date < INSTANT_LIMIT,
        ensures
            match r {
                Ok(d) => {
                    &&& date >= EPOCH_SECONDS
                    &&& d.day == fictional_day_of(date as int)
                    &&& d.month == fictional_month_of(date as int)
                    &&& d.year == fictional_year_of(date as int)
                    &&& d.wf()
                },
                Err(e) => e == CalendarError::ConversionError && date < EPOCH_SECONDS,
            },
    {
        if date < EPOCH_SECONDS {
            Err(CalendarError::ConversionError)
        } else {
            Ok(Self::date_to_skyblock(date))
        }
    }

    /// The next instant strictly after `date` on the fictional-day grid
    /// (minutes 15, 35 and 55 of each real hour).
    pub fn get_next_skyblock_day(date: i64) -> (r: i64)
        requires
            0 <= date <= INSTANT_LIMIT,
        ensures
            r == next_aligned(date as int),
            date < r <= date + SECONDS_PER_FICTIONAL_DAY,
            is_aligned(r as int),
    {
        proof {
            lemma_fundamental_div_mod(date as int, 3600);
            lemma_mod_bound(date as int, 3600);
            lemma_next_aligned_properties(date as int);
        }
        let m: i64 = date % 3600;
        if m < 900 {
            date - m + 900
        } else if m < 2100 {
            date - m + 2100
        } else if m < 3300 {
            date - m + 3300
        } else {
            date - m + 4500
        }
    }
}

/// Bounds for the parts computed by the instant-to-date conversion.
proof fn lemma_date_parts_bounded(t: int)
    requires
        valid_instant(t),
    ensures
        0 <= day_index_of(t) < MAX_YEAR * DAYS_PER_YEAR,
        0 <= day_index_of(t) / (DAYS_PER_YEAR as int) < MAX_YEAR,
        0 <= day_index_of(t) % (DAYS_PER_YEAR as int) < DAYS_PER_YEAR,
        0 <= (day_index_of(t) % (DAYS_PER_YEAR as int)) / (DAYS_PER_MONTH as int)
            < MONTHS_PER_YEAR,
        0 <= (day_index_of(t) % (DAYS_PER_YEAR as int)) % (DAYS_PER_MONTH as int)
            < DAYS_PER_MONTH,
{
    let d = day_index_of(t);
    lemma_div_is_ordered(0, t - EPOCH_SECONDS, 1200);
    lemma_div_is_ordered(t - EPOCH_SECONDS, MAX_YEAR * DAYS_PER_YEAR * 1200 - 1, 1200);
    assert((MAX_YEAR * DAYS_PER_YEAR * 1200 - 1) / 1200 == MAX_YEAR * DAYS_PER_YEAR - 1);
    lemma_div_is_ordered(0, d, DAYS_PER_YEAR as int);
    lemma_div_is_ordered(d, MAX_YEAR * DAYS_PER_YEAR - 1, DAYS_PER_YEAR as int);
    assert((MAX_YEAR * DAYS_PER_YEAR - 1) / (DAYS_PER_YEAR as int) == MAX_YEAR - 1);
    lemma_mod_bound(d, DAYS_PER_YEAR as int);
    let rem = d % (DAYS_PER_YEAR as int);
    lemma_div_is_ordered(0, rem, DAYS_PER_MONTH as int);
    lemma_div_is_ordered(rem, DAYS_PER_YEAR - 1, DAYS_PER_MONTH as int);
    assert((DAYS_PER_YEAR - 1) / (DAYS_PER_MONTH as int) == MONTHS_PER_YEAR - 1);
    lemma_mod_bound(rem, DAYS_PER_MONTH as int);
}

/// Converting an instant to a fictional date and back lands on the start of
/// the fictional day that contains it: at most one tick (20 minutes) earlier.
pub proof fn lemma_round_trip(t: int)
    requires
        valid_instant(t),
    ensures
        ({
            let back = instant_of_date(fictional_day_of(t), fictional_month_of(t),
                fictional_year_of(t));
            back <= t < back + SECONDS_PER_FICTIONAL_DAY
        }),
{
    let d = day_index_of(t);
    lemma_fundamental_div_mod(t - EPOCH_SECONDS, 1200);
    lemma_mod_bound(t - EPOCH_SECONDS, 1200);
    lemma_fundamental_div_mod(d, DAYS_PER_YEAR as int);
    lemma_fundamental_div_mod(d % (DAYS_PER_YEAR as int), DAYS_PER_MONTH as int);
    lemma_date_parts_bounded(t);
}

/// The next grid instant is strictly later, itself on the grid, at most one
/// tick away, and minimal: no grid instant lies strictly between.
pub proof fn lemma_next_aligned_properties(t: int)
    requires
        0 <= t,
    ensures
        t < next_aligned(t) <= t + SECONDS_PER_FICTIONAL_DAY,
        is_aligned(next_aligned(t)),
        forall|u: int| t < u < next_aligned(t) ==> !is_aligned(u),
{
    let m = t % 3600;
    let h = t - m;
    let r = next_aligned(t);
    lemma_fundamental_div_mod(t, 3600);
    lemma_mod_bound(t, 3600);
    let q = t / 3600;
    assert(h == 3600 * q);
    assert forall|u: int| h <= u < h + 7200 implies #[trigger] (u % 3600) == u - h || u % 3600
        == u - h - 3600 by {
        if u < h + 3600 {
            lemma_mod_multiples_vanish_int(q, u - h, 3600);
        } else {
            lemma_mod_multiples_vanish_int(q + 1, u - h - 3600, 3600);
        }
    }
    assert(r % 3600 == r - h || r % 3600 == r - h - 3600);
    assert(is_aligned(r));
    assert forall|u: int| t < u < r implies !is_aligned(u) by {
        assert(u % 3600 == u - h || u % 3600 == u - h - 3600);
    }
}

/// `(a * m + b) % m == b` for `0 <= b < m`.
pub(crate) proof fn lemma_mod_multiples_vanish_int(a: int, b: int, m: int)
    requires
        0 < m,
        0 <= b < m,
    ensures
        (m * a + b) % m == b,
{
    vstd::arithmetic::div_mod::lemma_mod_multiples_vanish(a, b, m);
    vstd::arithmetic::div_mod::lemma_small_mod(b as nat, m as nat);
}

/// Every grid instant differs from the epoch by a whole number of ticks.
pub proof fn lemma_aligned_on_tick_grid(t: int)
    requires
        0 <= t,
        is_aligned(t),
    ensures
        (t - EPOCH_SECONDS) % (SECONDS_PER_FICTIONAL_DAY as int) == 0,
{
    lemma_fundamental_div_mod(t, 3600);
    lemma_mod_bound(t, 3600);
    let q = t / 3600;
    let m = t % 3600;
    assert(t == 3600 * q + m);
    assert(EPOCH_SECONDS == 3600 * 433409 + 3300);
    let k = 3 * (q - 433409) + (if m == 900 { -2int } else if m == 2100 { -1int } else { 0int });
    assert(t - EPOCH_SECONDS == 1200 * k);
    lemma_mod_multiples_vanish_int(k, 0, 1200);
}

/// A well-formed fictional date converts to an instant that converts back to
/// the same date, and that instant lies on the whole-tick grid of the epoch.
pub proof fn lemma_date_round_trip(day: int, month: int, year: int)
    requires
        1 <= day <= DAYS_PER_MONTH,
        1 <= month <= MONTHS_PER_YEAR,
        1 <= year <= MAX_YEAR,
    ensures
        ({
            let s = instant_of_date(day, month, year);
            &&& fictional_day_of(s) == day
            &&& fictional_month_of(s) == month
            &&& fictional_year_of(s) == year
            &&& (s - EPOCH_SECONDS) % (SECONDS_PER_FICTIONAL_DAY as int) == 0
            &&& valid_instant(s)
        }),
{
    let s = instant_of_date(day, month, year);
    let n = day_number_of_date(day, month, year);
    let rem = (month - 1) * DAYS_PER_MONTH + (day - 1);
    lemma_fundamental_div_mod_converse(s - EPOCH_SECONDS, 1200, n, 0);
    lemma_fundamental_div_mod_converse(n, DAYS_PER_YEAR as int, year - 1, rem);
    lemma_fundamental_div_mod_converse(rem, DAYS_PER_MONTH as int, month - 1, day - 1);
}

/// Stepping a whole number of ticks keeps an instant on the tick grid.
pub proof fn lemma_tick_step_stays_on_grid(t: int, k: int)
    requires
        (t - EPOCH_SECONDS) % (SECONDS_PER_FICTIONAL_DAY as int) == 0,
    ensures
        (t + k * SECONDS_PER_FICTIONAL_DAY - EPOCH_SECONDS) % (SECONDS_PER_FICTIONAL_DAY as int)
            == 0,
{
    lemma_fundamental_div_mod(t - EPOCH_SECONDS, 1200);
    let q = (t - EPOCH_SECONDS) / 1200;
    assert(t + k * 1200 - EPOCH_SECONDS == 1200 * (q + k)) by (nonlinear_arith)
        requires
            t - EPOCH_SECONDS == 1200 * q,
    ;
    lemma_mod_multiples_vanish_int(q + k, 0, 1200);
}

/// An instant a whole number of ticks past the epoch converts to a fictional
/// date that converts back to it exactly.
pub proof fn lemma_tick_converts_exactly(t: int)
    requires
        valid_instant(t),
        (t - EPOCH_SECONDS) % (SECONDS_PER_FICTIONAL_DAY as int) == 0,
    ensures
        instant_of_date(fictional_day_of(t), fictional_month_of(t), fictional_year_of(t))
            == t,
{
    lemma_round_trip(t);
    lemma_fundamental_div_mod(t - EPOCH_SECONDS, 1200);
}

/// Splits a nonnegative number of seconds into whole days, hours and minutes.
pub fn seconds_to_dhm(seconds: i64) -> (r: (i64, i64, i64))
    requires
        0 <= seconds,
    ensures
        r.0 == seconds / 86400,
        r.1 == (seconds % 86400) / 3600,
        r.2 == (seconds % 3600) / 60,
{
    proof {
        lemma_mod_bound(seconds as int, 86400);
        lemma_mod_bound(seconds as int, 3600);
        lemma_div_is_ordered(0, seconds as int, 86400);
        lemma_div_is_ordered(0, (seconds as int) % 86400, 3600);
        lemma_div_is_ordered(0, (seconds as int) % 3600, 60);
    }
    let days: i64 = seconds / 86400;
    let hours: i64 = (seconds % 86400) / 3600;
    let minutes: i64 = (seconds % 3600) / 60;
    (days, hours, minutes)
}

} // verus!
