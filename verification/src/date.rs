//! Calendar dates and closed date intervals.

use vstd::prelude::*;

verus! {

/// A day of the proleptic Gregorian calendar.
#[derive(Clone, Copy, Debug, PartialEq, Eq, Structural)]
pub struct Date {
    year: u16,
    month: u8,
    day: u8,
}

/// Whether `year` has a 29th of February.
pub open spec fn is_leap_year(year: int) -> bool {
    year % 4 == 0 && (year % 100 != 0 || year % 400 == 0)
}

/// The number of days of `month` in `year`; 0 where `month` is no month.
pub open spec fn days_in_month(year: int, month: int) -> int {
    if month == 4 || month == 6 || month == 9 || month == 11 {
        30
    } else if month == 2 {
        if is_leap_year(year) {
            29
        } else {
            28
        }
    } else if 1 <= month <= 12 {
        31
    } else {
        0
    }
}

/// Whether the three numbers name a day of the calendar.
pub open spec fn is_calendar_day(year: int, month: int, day: int) -> bool {
    1 <= day <= days_in_month(year, month)
}

/// Closed intervals `[s1, e1]` and `[s2, e2]` share at least one day.
/// Intervals that only touch at an endpoint do overlap.
pub open spec fn intervals_overlap(s1: Date, e1: Date, s2: Date, e2: Date) -> bool {
    s1.le(e2) && s2.le(e1)
}

impl Date {
    /// The date as a number that orders dates by year, then month, then day.
    pub closed spec fn ordinal(self) -> int {
        (self.year * 256 + self.month) * 256 + self.day
    }

    pub closed spec fn spec_year(&self) -> u16 {
        self.year
    }

    pub closed spec fn spec_month(&self) -> u8 {
        self.month
    }

    pub closed spec fn spec_day(&self) -> u8 {
        self.day
    }

    /// Every date built by [`Date::new`] is a day of the calendar.
    pub open spec fn wf(self) -> bool {
        is_calendar_day(self.spec_year() as int, self.spec_month() as int, self.spec_day() as int)
    }

    /// `self` is the day `day` of month `month` of `year`.
    pub open spec fn is_day(self, year: int, month: int, day: int) -> bool {
        self.spec_year() == year && self.spec_month() == month && self.spec_day() == day
    }

    /// `self` is not after `other`.
    pub open spec fn le(self, other: Date) -> bool {
        self.ordinal() <= other.ordinal()
    }

    /// The date `year`-`month`-`day`, if the calendar has such a day.
    pub fn new(year: u16, month: u8, day: u8) -> (date: Option<Date>)
        ensures
            date is Some <==> is_calendar_day(year as int, month as int, day as int),
            date matches Some(d) ==> d.wf() && d.spec_year() == year && d.spec_month() == month
                && d.spec_day() == day,
    {
        let leap = year % 4 == 0 && (year % 100 != 0 || year % 400 == 0);
        let last: u8 = if month == 4 || month == 6 || month == 9 || month == 11 {
            30
        } else if month == 2 {
            if leap {
                29
            } else {
                28
            }
        } else if 1 <= month && month <= 12 {
            31
        } else {
            0
        };
        if 1 <= day && day <= last {
            Some(Date { year, month, day })
        } else {
            None
        }
    }

    #[verifier::when_used_as_spec(spec_year)]
    pub fn year(&self) -> (y: u16)
        ensures
            y == self.spec_year(),
    {
        self.year
    }

    #[verifier::when_used_as_spec(spec_month)]
    pub fn month(&self) -> (m: u8)
        ensures
            m == self.spec_month(),
    {
        self.month
    }

    #[verifier::when_used_as_spec(spec_day)]
    pub fn day(&self) -> (d: u8)
        ensures
            d == self.spec_day(),
    {
        self.day
    }

    /// Whether `self` is `other` or an earlier day.
    pub fn is_at_or_before(&self, other: &Date) -> (r: bool)
        ensures
            r == self.le(*other),
    {
        self.year < other.year || (self.year == other.year && (self.month < other.month || (
        self.month == other.month && self.day <= other.day)))
    }

    /// A date is its year, month and day, and nothing else.
    pub proof fn lemma_same_day(self, other: Date)
        requires
            self.spec_year() == other.spec_year(),
            self.spec_month() == other.spec_month(),
            self.spec_day() == other.spec_day(),
        ensures
            self == other,
    {
    }

    /// The order of two dates is that of their year, month and day, in this
    /// order.
    pub proof fn lemma_order(self, other: Date)
        ensures
            self.le(other) <==> (self.spec_year() < other.spec_year() || (self.spec_year()
                == other.spec_year() && (self.spec_month() < other.spec_month() || (
            self.spec_month() == other.spec_month() && self.spec_day() <= other.spec_day())))),
            self.le(other) && other.le(self) ==> self == other,
    {
    }
}

/// Whether two stays, each from its first to its last day, share a day.
pub fn stays_overlap(s1: &Date, e1: &Date, s2: &Date, e2: &Date) -> (r: bool)
    ensures
        r == intervals_overlap(*s1, *e1, *s2, *e2),
{
    s1.is_at_or_before(e2) && s2.is_at_or_before(e1)
}

} // verus!
