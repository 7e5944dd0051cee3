//! Civil dates of the proleptic Gregorian calendar and their arithmetic model.

use vstd::prelude::*;

verus! {

/// The first year that a [`CalendarDate`] can hold.
pub const MIN_YEAR: i32 = -262143;

/// The last year that a [`CalendarDate`] can hold.
pub const MAX_YEAR: i32 = 262142;

/// Whether `year` has a 29th of February.
pub open spec fn is_leap_year(year: int) -> bool {
    year % 4 == 0 && (year % 100 != 0 || year % 400 == 0)
}

/// The number of days of month `month` (1 to 12) in `year`.
pub open spec fn days_in_month(year: int, month: int) -> int {
    if month == 2 {
        if is_leap_year(year) {
            29
        } else {
            28
        }
    } else if month == 4 || month == 6 || month == 9 || month == 11 {
        30
    } else {
        31
    }
}

/// The number of days of `year`.
pub open spec fn days_in_year(year: int) -> int {
    if is_leap_year(year) {
        366
    } else {
        365
    }
}

/// The number of days of `year` that lie before the first day of `month`.
pub open spec fn days_before_month(year: int, month: int) -> int
    decreases month,
{
    if month <= 1 {
        0
    } else {
        days_before_month(year, month - 1) + days_in_month(year, month - 1)
    }
}

/// The number of leap years among the years 1 up to, and without, `year`.
pub open spec fn leap_years_before(year: int) -> int {
    (year - 1) / 4 - (year - 1) / 100 + (year - 1) / 400
}

/// The number of days from 1 January 1970 to 1 January of `year`
/// (negative for earlier years).
pub open spec fn days_before_year(year: int) -> int {
    365 * (year - 1970) + leap_years_before(year) - leap_years_before(1970)
}

/// A civil date: year, month (1 to 12) and day of the month (from 1).
#[derive(Clone, Copy, Debug, PartialEq, Eq, PartialOrd, Ord, Hash, Structural)]
pub struct CalendarDate {
    pub year: i32,
    pub month: u32,
    pub day: u32,
}

impl CalendarDate {
    /// The date exists in the calendar and its year is one that can be held.
    pub open spec fn wf(self) -> bool {
        &&& MIN_YEAR <= self.year <= MAX_YEAR
        &&& 1 <= self.month <= 12
        &&& 1 <= self.day <= days_in_month(self.year as int, self.month as int)
    }

    /// The earliest date.
    pub open spec fn earliest() -> CalendarDate {
        CalendarDate { year: MIN_YEAR, month: 1, day: 1 }
    }

    /// The latest date.
    pub open spec fn latest() -> CalendarDate {
        CalendarDate { year: MAX_YEAR, month: 12, day: 31 }
    }

    /// The number of days from 1 January 1970 to this date.
    pub open spec fn epoch_days(self) -> int {
        days_before_year(self.year as int) + days_before_month(self.year as int, self.month as int)
            + self.day - 1
    }

    /// The day of the week, counted from Monday as 0 to Sunday as 6.
    pub open spec fn weekday_index(self) -> int {
        (self.epoch_days() + 3) % 7
    }

    /// The date comes before `other` in the calendar.
    pub open spec fn precedes(self, other: CalendarDate) -> bool {
        self.year < other.year || (self.year == other.year && (self.month < other.month || (
        self.month == other.month && self.day < other.day)))
    }

    /// The calendar date after this one.
    pub open spec fn next_day(self) -> CalendarDate {
        if self.day < days_in_month(self.year as int, self.month as int) {
            CalendarDate { year: self.year, month: self.month, day: (self.day + 1) as u32 }
        } else if self.month < 12 {
            CalendarDate { year: self.year, month: (self.month + 1) as u32, day: 1 }
        } else {
            CalendarDate { year: (self.year + 1) as i32, month: 1, day: 1 }
        }
    }

    /// The calendar date before this one.
    pub open spec fn prev_day(self) -> CalendarDate {
        if self.day > 1 {
            CalendarDate { year: self.year, month: self.month, day: (self.day - 1) as u32 }
        } else if self.month > 1 {
            CalendarDate {
                year: self.year,
                month: (self.month - 1) as u32,
                day: days_in_month(self.year as int, self.month - 1) as u32,
            }
        } else {
            CalendarDate { year: (self.year - 1) as i32, month: 12, day: 31 }
        }
    }

    /// Makes a date of its three parts.
    pub fn new(year: i32, month: u32, day: u32) -> (date: CalendarDate)
        ensures
            date == (CalendarDate { year, month, day }),
    {
        CalendarDate { year, month, day }
    }

    /// Whether this date comes before `other`.
    pub fn is_before(&self, other: &CalendarDate) -> (before: bool)
        ensures
            before == self.precedes(*other),
    {
        self.year < other.year || (self.year == other.year && (self.month < other.month || (
        self.month == other.month && self.day < other.day)))
    }

    /// Whether this date is `other` or comes before it.
    pub fn is_on_or_before(&self, other: &CalendarDate) -> (before: bool)
        ensures
            before == (*self == *other || self.precedes(*other)),
    {
        !other.is_before(self)
    }
}

impl Default for CalendarDate {
    /// 1 January 1970.
    fn default() -> (date: CalendarDate)
        ensures
            date == (CalendarDate { year: 1970, month: 1, day: 1 }),
    {
        CalendarDate { year: 1970, month: 1, day: 1 }
    }
}

/// `days` holds, in order and day after day, every day from the day with the
/// number `first` to the day with the number `last`, and no day where `last`
/// is less than `first`.
pub open spec fn is_day_run(days: Seq<CalendarDate>, first: int, last: int) -> bool {
    &&& days.len() == (if first <= last {
        last - first + 1
    } else {
        0
    })
    &&& forall|i: int|
        0 <= i < days.len() ==> (#[trigger] days[i]).wf() && days[i].epoch_days() == first + i
}

/// The days before each month, written out.
pub proof fn lemma_days_before_month(year: int, month: int)
    requires
        1 <= month <= 13,
    ensures
        days_before_month(year, month) == (if month > 2 && is_leap_year(year) {
            1int
        } else {
            0int
        }) + (if month == 1 {
            0int
        } else if month == 2 {
            31
        } else if month == 3 {
            59
        } else if month == 4 {
            90
        } else if month == 5 {
            120
        } else if month == 6 {
            151
        } else if month == 7 {
            181
        } else if month == 8 {
            212
        } else if month == 9 {
            243
        } else if month == 10 {
            273
        } else if month == 11 {
            304
        } else if month == 12 {
            334
        } else {
            365
        }),
        days_before_month(year, 13) == days_in_year(year),
{
    reveal_with_fuel(days_before_month, 14);
}

/// How the quotient by a positive number moves from one integer to the next.
proof fn lemma_quotient_step(n: int, d: int)
    by (nonlinear_arith)
    requires
        d > 0,
    ensures
        n / d - (n - 1) / d == (if n % d == 0 {
            1int
        } else {
            0int
        }),
{
}

/// What is divisible by 400 is divisible by 100, and what by 100, by 4.
proof fn lemma_century_multiples(n: int)
    ensures
        n % 400 == 0 ==> n % 100 == 0,
        n % 100 == 0 ==> n % 4 == 0,
{
    if n % 400 == 0 {
        assert(n == 100 * (4 * (n / 400)));
    }
    if n % 100 == 0 {
        assert(n == 4 * (25 * (n / 100)));
    }
}

/// One more leap year lies before the year after a leap year.
pub proof fn lemma_leap_years_before_next(year: int)
    ensures
        leap_years_before(year + 1) == leap_years_before(year) + (if is_leap_year(year) {
            1int
        } else {
            0int
        }),
{
    lemma_quotient_step(year, 4);
    lemma_quotient_step(year, 100);
    lemma_quotient_step(year, 400);
    lemma_century_multiples(year);
}

/// A year later begins as many days later as the year is long.
pub proof fn lemma_days_before_next_year(year: int)
    ensures
        days_before_year(year + 1) == days_before_year(year) + days_in_year(year),
{
    lemma_leap_years_before_next(year);
}

/// Later years begin later, by at least 365 days a year.
pub proof fn lemma_days_before_year_grows(a: int, b: int)
    requires
        a <= b,
    ensures
        days_before_year(a) + 365 * (b - a) <= days_before_year(b),
    decreases b - a,
{
    if a < b {
        lemma_days_before_year_grows(a, b - 1);
        lemma_days_before_next_year(b - 1);
    }
}

/// Dates are ordered as their day numbers are.
pub proof fn lemma_precedes_is_fewer_days(a: CalendarDate, b: CalendarDate)
    requires
        a.wf(),
        b.wf(),
    ensures
        a.precedes(b) <==> a.epoch_days() < b.epoch_days(),
        a == b <==> a.epoch_days() == b.epoch_days(),
{
    lemma_days_before_month(a.year as int, a.month as int);
    lemma_days_before_month(a.year as int, a.month as int + 1);
    lemma_days_before_month(b.year as int, b.month as int);
    lemma_days_before_month(b.year as int, b.month as int + 1);
    lemma_days_before_month(a.year as int, 13);
    lemma_days_before_month(b.year as int, 13);
    if a.year < b.year {
        lemma_days_before_next_year(a.year as int);
        lemma_days_before_year_grows(a.year as int + 1, b.year as int);
    } else if b.year < a.year {
        lemma_days_before_next_year(b.year as int);
        lemma_days_before_year_grows(b.year as int + 1, a.year as int);
    }
}

/// The next day exists in the calendar and is one day later.
pub proof fn lemma_next_day(date: CalendarDate)
    requires
        date.wf(),
        date != CalendarDate::latest(),
    ensures
        date.next_day().wf(),
        date.next_day().epoch_days() == date.epoch_days() + 1,
        date.next_day().prev_day() == date,
{
    lemma_days_before_month(date.year as int, date.month as int);
    lemma_days_before_month(date.year as int, date.month as int + 1);
    lemma_days_before_next_year(date.year as int);
}

/// The previous day exists in the calendar and is one day earlier.
pub proof fn lemma_prev_day(date: CalendarDate)
    requires
        date.wf(),
        date != CalendarDate::earliest(),
    ensures
        date.prev_day().wf(),
        date.prev_day().epoch_days() == date.epoch_days() - 1,
        date.prev_day().next_day() == date,
{
    lemma_days_before_month(date.year as int, date.month as int);
    if date.month > 1 {
        lemma_days_before_month(date.year as int, date.month as int - 1);
    }
    lemma_days_before_month(date.year as int - 1, 13);
    lemma_days_before_next_year(date.year as int - 1);
}

} // verus!
