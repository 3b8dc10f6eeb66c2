//! Calendar dates as plain day numbers, and days of the week.
//!
//! A [`Date`] holds the day's number in the proleptic Gregorian calendar,
//! counted with the first day of year 1 as day 1. That day was a Monday,
//! so the weekday of any date is fixed by its day number alone.

use vstd::prelude::*;

verus! {

/// A day of the week.
#[derive(Clone, Copy, PartialEq, Eq, Structural, Debug)]
pub enum Weekday {
    /// Monday
    Mon,
    /// Tuesday
    Tue,
    /// Wednesday
    Wed,
    /// Thursday
    Thu,
    /// Friday
    Fri,
    /// Saturday
    Sat,
    /// Sunday
    Sun,
}

impl Weekday {
    /// The number of this weekday, counting Monday as 0 and Sunday as 6.
    pub open spec fn idx(self) -> int {
        match self {
            Weekday::Mon => 0,
            Weekday::Tue => 1,
            Weekday::Wed => 2,
            Weekday::Thu => 3,
            Weekday::Fri => 4,
            Weekday::Sat => 5,
            Weekday::Sun => 6,
        }
    }

    /// Returns the number of this weekday, counting Monday as 0 and Sunday as 6.
    pub fn index_from_monday(&self) -> (n: usize)
        ensures
            n == self.idx(),
    {
        match self {
            Weekday::Mon => 0,
            Weekday::Tue => 1,
            Weekday::Wed => 2,
            Weekday::Thu => 3,
            Weekday::Fri => 4,
            Weekday::Sat => 5,
            Weekday::Sun => 6,
        }
    }

    /// Returns the weekday whose number from Monday is `n`.
    pub fn from_index(n: usize) -> (w: Weekday)
        requires
            n < 7,
        ensures
            w.idx() == n,
    {
        if n == 0 {
            Weekday::Mon
        } else if n == 1 {
            Weekday::Tue
        } else if n == 2 {
            Weekday::Wed
        } else if n == 3 {
            Weekday::Thu
        } else if n == 4 {
            Weekday::Fri
        } else if n == 5 {
            Weekday::Sat
        } else {
            Weekday::Sun
        }
    }
}

/// A calendar date, held as its day number in the proleptic Gregorian
/// calendar, with the first day of year 1 as day 1.
#[derive(Clone, Copy, PartialEq, Eq, Structural, PartialOrd, Ord, Debug)]
pub struct Date {
    days: i32,
}

impl Date {
    /// The day number of this date.
    pub closed spec fn spec_days(self) -> int {
        self.days as int
    }

    /// The number of the weekday this date falls on, counting Monday as 0.
    /// Day 1 of the calendar was a Monday.
    pub open spec fn spec_weekday_idx(self) -> int {
        (self.spec_days() - 1) % 7
    }

    /// Builds the date with the given day number.
    pub fn from_num_days(days: i32) -> (d: Date)
        ensures
            d.spec_days() == days,
    {
        Date { days }
    }

    /// Returns the day number of this date.
    pub fn num_days(&self) -> (n: i32)
        ensures
            n == self.spec_days(),
    {
        self.days
    }

    /// Returns the weekday this date falls on.
    pub fn weekday(&self) -> (w: Weekday)
        ensures
            w.idx() == self.spec_weekday_idx(),
    {
        // Shift by a positive multiple of 7 so the remainder is taken of a
        // non-negative number; 2_170_000_000 = 7 * 310_000_000 exceeds any
        // magnitude an i32 can hold.
        let n: i64 = (self.days as i64) - 1 + 2_170_000_000;
        let r: i64 = n % 7;
        proof {
            vstd::arithmetic::div_mod::lemma_mod_add_multiples_vanish(
                self.spec_days() - 1,
                7,
            );
            assert(n == (self.spec_days() - 1) + 310_000_000int * 7);
            assert(n % 7 == (self.spec_days() - 1) % 7) by {
                vstd::arithmetic::div_mod::lemma_mod_multiples_vanish(
                    310_000_000int,
                    self.spec_days() - 1,
                    7,
                );
            }
        }
        Weekday::from_index(r as usize)
    }

    /// Returns the date one day after this one.
    pub fn succ(&self) -> (d: Date)
        requires
            self.spec_days() < i32::MAX,
        ensures
            d.spec_days() == self.spec_days() + 1,
    {
        Date { days: self.days + 1 }
    }

    /// Returns the date one day before this one.
    pub fn pred(&self) -> (d: Date)
        requires
            self.spec_days() > i32::MIN,
        ensures
            d.spec_days() == self.spec_days() - 1,
    {
        Date { days: self.days - 1 }
    }
}

/// Returns the first date with the given weekday that is not before `from`.
pub fn next_date_for_weekday(from: Date, weekday: Weekday) -> (d: Date)
    requires
        from.spec_days() + 7 <= i32::MAX,
    ensures
        d.spec_weekday_idx() == weekday.idx(),
        from.spec_days() <= d.spec_days() < from.spec_days() + 7,
{
    let from_idx = from.weekday().index_from_monday();
    let want_idx = weekday.index_from_monday();
    let delta = (want_idx + 7 - from_idx) % 7;
    let d = Date { days: from.days + (delta as i32) };
    proof {
        let f = from.spec_days();
        assert((f - 1 + delta) % 7 == weekday.idx()) by {
            vstd::arithmetic::div_mod::lemma_mod_add_multiples_vanish(
                (f - 1) % 7 + delta,
                7,
            );
            vstd::arithmetic::div_mod::lemma_add_mod_noop(f - 1, delta as int, 7);
        }
    }
    d
}

/// A date from which a weekday search can safely go a whole week forward:
/// today, clamped away from the far end of the calendar.
pub(crate) fn weekday_search_base() -> (d: Date)
    ensures
        d.spec_days() + 7 <= i32::MAX,
{
    let t = today_date();
    if t.num_days() <= i32::MAX - 7 {
        t
    } else {
        Date::from_num_days(i32::MAX - 7)
    }
}

/// Today's date from the system clock.
///
/// Relies on chrono's `Local::now` and `Datelike::num_days_from_ce`: the
/// current local date, counted in days with the first day of year 1 as day 1.
#[verifier::external_body]
pub(crate) fn today_date() -> Date {
    let now = chrono::Local::now().date_naive();
    Date { days: chrono::Datelike::num_days_from_ce(&now) }
}

} // verus!
