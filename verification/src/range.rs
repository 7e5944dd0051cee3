//! Ranges of days: the days that a view of the calendar covers.

use crate::bindings::previous_date;
use crate::date::{lemma_precedes_is_fewer_days, lemma_prev_day, CalendarDate, MAX_YEAR, MIN_YEAR};
use crate::grid::{month_at, month_index};
use vstd::prelude::*;

verus! {

/// The number of the first month that can be held.
pub open spec fn first_month_index() -> int {
    MIN_YEAR * 12
}

/// The number of the last month that can be held.
pub open spec fn last_month_index() -> int {
    MAX_YEAR * 12 + 11
}

/// The first day of the month that lies `by` months after the month of
/// `date` (before it where `by` is negative), and of the first or the last
/// month that can be held where that month lies beyond them.
pub open spec fn month_shifted(date: CalendarDate, by: int) -> CalendarDate {
    let index = month_index(date) + by;
    month_at(
        if index < first_month_index() {
            first_month_index()
        } else if index > last_month_index() {
            last_month_index()
        } else {
            index
        },
    )
}

/// The days from `begin` to `end`, both included. A range holds at least one
/// day: `begin` is `end` or comes before it.
#[derive(Clone, Copy, Debug, PartialEq, Eq, Structural)]
pub struct DateRange {
    pub begin: CalendarDate,
    pub end: CalendarDate,
}

impl DateRange {
    /// Both ends exist, and the range does not end before it begins.
    pub open spec fn wf(self) -> bool {
        &&& self.begin.wf()
        &&& self.end.wf()
        &&& (self.begin == self.end || self.begin.precedes(self.end))
    }

    /// Whether `date` lies in the range.
    pub open spec fn holds(self, date: CalendarDate) -> bool {
        &&& (self.begin == date || self.begin.precedes(date))
        &&& (date == self.end || date.precedes(self.end))
    }

    /// The month of `date`.
    pub open spec fn month_of(date: CalendarDate) -> DateRange {
        DateRange { begin: date.month_start(), end: date.month_end() }
    }

    /// The month of `date` with the month before it and the month after it.
    pub open spec fn three_months_of(date: CalendarDate) -> DateRange {
        DateRange { begin: month_shifted(date, -1), end: month_shifted(date, 1).month_end() }
    }

    /// The month of `date` and the months after it, `count` in all, and the
    /// month of `date` alone where `count` is 0.
    pub open spec fn months_of(date: CalendarDate, count: int) -> DateRange {
        DateRange {
            begin: date.month_start(),
            end: month_shifted(
                date,
                if count > 0 {
                    count - 1
                } else {
                    0
                },
            ).month_end(),
        }
    }

    /// The year of `date`.
    pub open spec fn year_of(date: CalendarDate) -> DateRange {
        DateRange { begin: date.year_start(), end: date.year_end() }
    }

    /// The range from `begin` to `end`, and nothing where `end` comes before
    /// `begin`.
    pub fn new(begin: CalendarDate, end: CalendarDate) -> (range: Option<DateRange>)
        requires
            begin.wf(),
            end.wf(),
        ensures
            range == (if end.precedes(begin) {
                None
            } else {
                Some(DateRange { begin, end })
            }),
            range matches Some(r) ==> r.wf(),
    {
        if end.is_before(&begin) {
            None
        } else {
            Some(DateRange { begin, end })
        }
    }

    /// The month of `date`.
    pub fn month(date: &CalendarDate) -> (range: DateRange)
        requires
            date.wf(),
        ensures
            range == DateRange::month_of(*date),
            range.wf(),
            range.holds(*date),
    {
        DateRange { begin: date.first_day_of_month(), end: date.last_day_of_month() }
    }

    /// The month of `date` with the month before it and the month after it.
    /// A month that cannot be held is left out.
    pub fn three_months(date: &CalendarDate) -> (range: DateRange)
        requires
            date.wf(),
        ensures
            range == DateRange::three_months_of(*date),
            range.wf(),
            range.holds(*date),
    {
        let first = date.first_day_of_month();
        proof {
            lemma_month_neighbours(first);
            lemma_month_neighbours(*date);
        }
        let begin = match previous_date(&first) {
            Some(before) => {
                proof {
                    lemma_prev_day(first);
                    lemma_month_neighbours(before);
                }
                before.first_day_of_month()
            },
            None => first,
        };
        let end = date.first_day_of_next_month().last_day_of_month();
        DateRange { begin, end }
    }

    /// The month of `date` and the months after it, `num` in all, and the
    /// month of `date` alone where `num` is 0. Months that cannot be held
    /// are left out.
    pub fn months(date: &CalendarDate, num: u8) -> (range: DateRange)
        requires
            date.wf(),
        ensures
            range == DateRange::months_of(*date, num as int),
            range.wf(),
            range.holds(*date),
    {
        let begin = date.first_day_of_month();
        let mut tmpdate = begin;
        let mut k: u8 = 1;
        proof {
            lemma_month_neighbours(*date);
        }
        while k < num
            invariant
                1 <= k,
                k <= num || k == 1,
                date.wf(),
                tmpdate.wf(),
                tmpdate == month_shifted(*date, k - 1),
                begin == date.month_start(),
                begin == tmpdate || begin.precedes(tmpdate),
            decreases num - k,
        {
            proof {
                lemma_month_neighbours(tmpdate);
            }
            tmpdate = tmpdate.first_day_of_next_month();
            k += 1;
        }
        DateRange { begin, end: tmpdate.last_day_of_month() }
    }

    /// The year of `date`.
    pub fn year(date: &CalendarDate) -> (range: DateRange)
        requires
            date.wf(),
        ensures
            range == DateRange::year_of(*date),
            range.wf(),
            range.holds(*date),
    {
        DateRange { begin: date.first_day_of_year(), end: date.last_day_of_year() }
    }
}

/// The month with the number of a month that can be held begins on a day
/// that exists, and its number is that number; the month after the month of
/// a date has the next number and the month before it the number before.
pub proof fn lemma_month_neighbours(date: CalendarDate)
    requires
        date.wf(),
    ensures
        first_month_index() <= month_index(date) <= last_month_index(),
        month_at(month_index(date)) == date.month_start(),
        month_index(date) < last_month_index() ==> month_at(month_index(date) + 1)
            == date.next_month_start(),
        month_index(date) > first_month_index() ==> month_at(month_index(date) - 1)
            == date.month_start().prev_day().month_start(),
        date.in_last_month() <==> month_index(date) == last_month_index(),
        date.month_start() == CalendarDate::earliest() <==> month_index(date)
            == first_month_index(),
{
    let index = month_index(date);
    assert(index == 12 * date.year + (date.month - 1));
    assert(index / 12 == date.year && index % 12 == date.month - 1);
    if date.month < 12 {
        assert((index + 1) / 12 == date.year && (index + 1) % 12 == date.month);
    } else {
        assert((index + 1) / 12 == date.year + 1 && (index + 1) % 12 == 0);
    }
    if date.month > 1 {
        assert((index - 1) / 12 == date.year && (index - 1) % 12 == date.month - 2);
    } else {
        assert((index - 1) / 12 == date.year - 1 && (index - 1) % 12 == 11);
    }
}

} // verus!
