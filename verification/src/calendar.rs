//! Calendar arithmetic: the ends of months and years, and the weeks around a
//! month.

use crate::bindings::{
    date_from_ymd, days_between, days_from_monday, days_from_sunday, minus_days, next_date,
    plus_days, previous_date,
};
use crate::date::{
    days_in_month, lemma_days_before_month, lemma_next_day, lemma_precedes_is_fewer_days,
    lemma_prev_day, CalendarDate, MAX_YEAR, MIN_YEAR,
};
use vstd::prelude::*;

verus! {

impl CalendarDate {
    /// The first day of the date's month.
    pub open spec fn month_start(self) -> CalendarDate {
        CalendarDate { year: self.year, month: self.month, day: 1 }
    }

    /// The last day of the date's month.
    pub open spec fn month_end(self) -> CalendarDate {
        CalendarDate {
            year: self.year,
            month: self.month,
            day: days_in_month(self.year as int, self.month as int) as u32,
        }
    }

    /// The first day of the date's year.
    pub open spec fn year_start(self) -> CalendarDate {
        CalendarDate { year: self.year, month: 1, day: 1 }
    }

    /// The last day of the date's year.
    pub open spec fn year_end(self) -> CalendarDate {
        CalendarDate { year: self.year, month: 12, day: 31 }
    }

    /// The date's month is the last one that can be held.
    pub open spec fn in_last_month(self) -> bool {
        self.year == MAX_YEAR && self.month == 12
    }

    /// The first day of the month after the date's month.
    pub open spec fn next_month_start(self) -> CalendarDate {
        if self.month < 12 {
            CalendarDate { year: self.year, month: (self.month + 1) as u32, day: 1 }
        } else {
            CalendarDate { year: (self.year + 1) as i32, month: 1, day: 1 }
        }
    }

    /// The number of days since the date's week began: 0 on the day that
    /// begins a week, which is Sunday with `from_sunday` and Monday without.
    pub open spec fn week_offset(self, from_sunday: bool) -> int {
        if from_sunday {
            (self.weekday_index() + 1) % 7
        } else {
            self.weekday_index()
        }
    }

    /// The day number of the first day of the week in which the date's month
    /// begins.
    pub open spec fn grid_start_days(self, from_sunday: bool) -> int {
        self.month_start().epoch_days() - self.month_start().week_offset(from_sunday)
    }

    /// The day number of the last day of the week in which the date's month
    /// ends.
    pub open spec fn grid_end_days(self, from_sunday: bool) -> int {
        self.month_end().epoch_days() + 6 - self.month_end().week_offset(from_sunday)
    }

    /// The week in which the date's month begins and the week in which it
    /// ends both lie within the dates that can be held.
    pub open spec fn grid_fits(self, from_sunday: bool) -> bool {
        &&& CalendarDate::earliest().epoch_days() <= self.grid_start_days(from_sunday)
        &&& self.grid_end_days(from_sunday) <= CalendarDate::latest().epoch_days()
    }

    /// The date of the three parts where it exists in the calendar and its
    /// year is one that can be held, else nothing.
    pub fn from_ymd_opt(year: i32, month: u32, day: u32) -> (date: Option<CalendarDate>)
        ensures
            date == (if (CalendarDate { year, month, day }).wf() {
                Some(CalendarDate { year, month, day })
            } else {
                None
            }),
    {
        date_from_ymd(year, month, day)
    }

    /// Whether the week in which the date's month begins and the week in
    /// which it ends both lie within the dates that can be held.
    pub fn has_grid(&self, from_sunday: bool) -> (fits: bool)
        requires
            self.wf(),
        ensures
            fits == self.grid_fits(from_sunday),
    {
        let earliest = CalendarDate { year: MIN_YEAR, month: 1, day: 1 };
        let latest = CalendarDate { year: MAX_YEAR, month: 12, day: 31 };
        let month_start = self.first_day_of_month();
        let month_end = self.last_day_of_month();
        let (before, after) = if from_sunday {
            (days_from_sunday(&month_start), days_from_sunday(&month_end))
        } else {
            (days_from_monday(&month_start), days_from_monday(&month_end))
        };
        let room_before = days_between(&month_start, &earliest);
        let room_after = days_between(&latest, &month_end);
        room_before >= before as i64 && room_after >= 6 - after as i64
    }

    /// The first day of the date's month.
    pub fn first_day_of_month(&self) -> (first: CalendarDate)
        requires
            self.wf(),
        ensures
            first == self.month_start(),
    {
        let mut prevdate: CalendarDate = *self;
        loop
            invariant
                self.wf(),
                prevdate.wf(),
                prevdate.year == self.year,
                prevdate.month == self.month,
            ensures
                prevdate == self.month_start(),
            decreases prevdate.day,
        {
            match previous_date(&prevdate) {
                Some(x) => {
                    if x.month == prevdate.month {
                        proof {
                            lemma_prev_day(prevdate);
                        }
                        prevdate = x;
                    } else {
                        break ;
                    }
                },
                None => {
                    break ;
                },
            }
        }
        prevdate
    }

    /// The last day of the date's month.
    pub fn last_day_of_month(&self) -> (last: CalendarDate)
        requires
            self.wf(),
        ensures
            last == self.month_end(),
    {
        let mut nextdate: CalendarDate = *self;
        loop
            invariant
                self.wf(),
                nextdate.wf(),
                nextdate.year == self.year,
                nextdate.month == self.month,
            ensures
                nextdate == self.month_end(),
            decreases days_in_month(self.year as int, self.month as int) - nextdate.day,
        {
            match next_date(&nextdate) {
                Some(x) => {
                    if x.month == nextdate.month {
                        proof {
                            lemma_next_day(nextdate);
                        }
                        nextdate = x;
                    } else {
                        break ;
                    }
                },
                None => {
                    break ;
                },
            }
        }
        nextdate
    }

    /// The first day of the date's year.
    pub fn first_day_of_year(&self) -> (first: CalendarDate)
        requires
            self.wf(),
        ensures
            first == self.year_start(),
            first.wf(),
    {
        CalendarDate { year: self.year, month: 1, day: 1 }
    }

    /// The last day of the date's year.
    pub fn last_day_of_year(&self) -> (last: CalendarDate)
        requires
            self.wf(),
        ensures
            last == self.year_end(),
            last.wf(),
    {
        CalendarDate { year: self.year, month: 12, day: 31 }
    }

    /// The first day of the month after the date's month. Where the date lies
    /// in the last month that can be held, the date itself.
    pub fn first_day_of_next_month(&self) -> (first: CalendarDate)
        requires
            self.wf(),
        ensures
            first == (if self.in_last_month() {
                *self
            } else {
                self.next_month_start()
            }),
            first.wf(),
    {
        let last = self.last_day_of_month();
        if let Some(x) = next_date(&last) {
            return x;
        }
        *self
    }

    /// The first day of the week in which the date's month begins: the day
    /// that begins a week and lies 0 to 6 days before the first of the month.
    pub fn first_day_of_week_before_first_day_of_month(&self, from_sunday: bool) -> (first:
        CalendarDate)
        requires
            self.wf(),
            CalendarDate::earliest().epoch_days() <= self.grid_start_days(from_sunday),
        ensures
            first.wf(),
            first.epoch_days() == self.grid_start_days(from_sunday),
            first.week_offset(from_sunday) == 0,
            0 <= self.month_start().epoch_days() - first.epoch_days() <= 6,
    {
        let month_start = self.first_day_of_month();
        let days_to_weekstart = if from_sunday {
            days_from_sunday(&month_start)
        } else {
            days_from_monday(&month_start)
        };
        minus_days(&month_start, days_to_weekstart)
    }

    /// The last day of the week in which the date's month ends: the day that
    /// ends a week and lies 0 to 6 days after the last of the month.
    pub fn last_day_of_week_after_last_day_of_month(&self, from_sunday: bool) -> (last:
        CalendarDate)
        requires
            self.wf(),
            self.grid_end_days(from_sunday) <= CalendarDate::latest().epoch_days(),
        ensures
            last.wf(),
            last.epoch_days() == self.grid_end_days(from_sunday),
            last.week_offset(from_sunday) == 6,
            0 <= last.epoch_days() - self.month_end().epoch_days() <= 6,
    {
        let month_end = self.last_day_of_month();
        let days_to_weekstart = if from_sunday {
            days_from_sunday(&month_end)
        } else {
            days_from_monday(&month_end)
        };
        plus_days(&month_end, 6 - days_to_weekstart)
    }
}

} // verus!
