//! The grid of a calendar: for every displayed month the days of its weeks,
//! the days of neighbouring months that fill the first and the last week
//! included.

use crate::bindings::next_date;
use crate::date::{
    is_day_run, lemma_next_day, lemma_precedes_is_fewer_days, CalendarDate, MAX_YEAR,
};
use vstd::prelude::*;

verus! {

/// `days` holds, in order and day after day, every day from the first day of
/// the week in which the month of `month` begins to the last day of the week
/// in which it ends.
pub open spec fn is_month_grid(days: Seq<CalendarDate>, month: CalendarDate, from_sunday: bool) -> bool {
    is_day_run(days, month.grid_start_days(from_sunday), month.grid_end_days(from_sunday))
}

/// The number of the date's month, counted from January of the year 0.
pub open spec fn month_index(date: CalendarDate) -> int {
    date.year * 12 + date.month - 1
}

/// The first day of the month with the number `index`.
pub open spec fn month_at(index: int) -> CalendarDate {
    CalendarDate { year: (index / 12) as i32, month: (index % 12 + 1) as u32, day: 1 }
}

/// `days` is made of whole weeks, runs day after day, holds the first and
/// the last day of the month of `month`, begins at most 6 days before the
/// first and ends at most 6 days after the last.
pub open spec fn is_whole_weeks_around(days: Seq<CalendarDate>, month: CalendarDate) -> bool {
    &&& days.len() > 0
    &&& days.len() % 7 == 0
    &&& forall|i: int| 0 <= i < days.len() - 1 ==> #[trigger] days[i + 1] == days[i].next_day()
    &&& forall|i: int, j: int|
        0 <= i < j < days.len() ==> (#[trigger] days[i]).precedes(#[trigger] days[j])
    &&& days.contains(month.month_start())
    &&& days.contains(month.month_end())
    &&& 0 <= month.month_start().epoch_days() - days[0].epoch_days() <= 6
    &&& 0 <= days[days.len() - 1].epoch_days() - month.month_end().epoch_days() <= 6
}

/// The days since the week began, as a remainder of the day number.
pub proof fn lemma_week_offset(date: CalendarDate, from_sunday: bool)
    ensures
        date.week_offset(from_sunday) == (date.epoch_days() + (if from_sunday {
            4int
        } else {
            3int
        })) % 7,
{
}

/// From the beginning of the week of day `a` to the end of the week of day
/// `b` lies a whole number of weeks, where `shift` tells the day of the week
/// of day 0.
proof fn lemma_whole_weeks(a: int, b: int, shift: int)
    ensures
        ((b + 6 - (b + shift) % 7) - (a - (a + shift) % 7) + 1) % 7 == 0,
        ((a - (a + shift) % 7) + shift) % 7 == 0,
        ((b + 6 - (b + shift) % 7) + shift) % 7 == 6,
{
}

/// A month's grid is made of whole weeks that begin and end with a week,
/// holds the first and the last day of the month, and begins at most 6 days
/// before the first and ends at most 6 days after the last.
pub proof fn lemma_month_grid(days: Seq<CalendarDate>, month: CalendarDate, from_sunday: bool)
    requires
        month.wf(),
        is_month_grid(days, month, from_sunday),
    ensures
        days.len() % 7 == 0,
        days.len() >= 28,
        0 <= month.month_start().week_offset(from_sunday) <= 6,
        days[month.month_start().week_offset(from_sunday)] == month.month_start(),
        0 <= 6 - month.month_end().week_offset(from_sunday) <= 6,
        days[days.len() - 7 + month.month_end().week_offset(from_sunday)] == month.month_end(),
        days[0].week_offset(from_sunday) == 0,
        days[days.len() - 1].week_offset(from_sunday) == 6,
{
    let first = month.month_start();
    let last = month.month_end();
    let shift = if from_sunday {
        4int
    } else {
        3int
    };
    lemma_precedes_is_fewer_days(first, last);
    assert(last.epoch_days() - first.epoch_days() == last.day - 1);
    lemma_week_offset(first, from_sunday);
    lemma_week_offset(last, from_sunday);
    lemma_whole_weeks(first.epoch_days(), last.epoch_days(), shift);
    let at_first = first.week_offset(from_sunday);
    let at_last = days.len() - 7 + last.week_offset(from_sunday);
    assert(days[at_first].wf());
    assert(days[at_last].wf());
    lemma_precedes_is_fewer_days(days[at_first], first);
    lemma_precedes_is_fewer_days(days[at_last], last);
    assert(days[0].wf());
    assert(days[days.len() - 1].wf());
    lemma_week_offset(days[0], from_sunday);
    lemma_week_offset(days[days.len() - 1], from_sunday);
}

/// The days of a month's grid follow one another: each is the day after the
/// one before it, so that they ascend without a gap.
pub proof fn lemma_month_grid_steps(days: Seq<CalendarDate>, month: CalendarDate, from_sunday: bool)
    requires
        month.wf(),
        month.grid_fits(from_sunday),
        is_month_grid(days, month, from_sunday),
    ensures
        forall|i: int, j: int|
            0 <= i < j < days.len() ==> (#[trigger] days[i]).precedes(#[trigger] days[j])
                && days[j].epoch_days() - days[i].epoch_days() == j - i,
        forall|i: int| 0 <= i < days.len() - 1 ==> #[trigger] days[i + 1] == days[i].next_day(),
        is_whole_weeks_around(days, month),
{
    lemma_month_grid(days, month, from_sunday);
    assert(days.contains(month.month_start()));
    assert(days.contains(month.month_end()));
    assert(days[0].wf() && days[days.len() - 1].wf());
    assert forall|i: int, j: int| 0 <= i < j < days.len() implies (#[trigger] days[i]).precedes(
        #[trigger] days[j],
    ) && days[j].epoch_days() - days[i].epoch_days() == j - i by {
        lemma_precedes_is_fewer_days(days[i], days[j]);
    }
    assert forall|i: int| 0 <= i < days.len() - 1 implies #[trigger] days[i + 1]
        == days[i].next_day() by {
        let day = days[i];
        let after = days[i + 1];
        assert(day.wf() && after.wf());
        lemma_precedes_is_fewer_days(day, CalendarDate::latest());
        lemma_next_day(day);
        lemma_precedes_is_fewer_days(day.next_day(), after);
    }
}

/// The first day of a month is the first day of the month with its number.
pub proof fn lemma_month_at(date: CalendarDate)
    requires
        date.wf(),
    ensures
        month_at(month_index(date)) == date.month_start(),
{
    let index = month_index(date);
    assert(index == 12 * date.year + (date.month - 1));
    assert(index / 12 == date.year && index % 12 == date.month - 1);
}

impl CalendarDate {
    /// Every day of the weeks of the date's month, from the first day of the
    /// week in which the month begins to the last day of the week in which it
    /// ends. With `from_sunday` a week begins on Sunday, else on Monday.
    pub fn month_full_week(&self, from_sunday: bool) -> (days: Vec<CalendarDate>)
        requires
            self.wf(),
            self.grid_fits(from_sunday),
        ensures
            is_month_grid(days@, *self, from_sunday),
            is_whole_weeks_around(days@, *self),
            days@[self.month_start().week_offset(from_sunday)] == self.month_start(),
            days@[days@.len() - 7 + self.month_end().week_offset(from_sunday)] == self.month_end(),
    {
        let mut month_v: Vec<CalendarDate> = Vec::new();
        let start = self.first_day_of_month().first_day_of_week_before_first_day_of_month(
            from_sunday,
        );
        let end = self.last_day_of_month().last_day_of_week_after_last_day_of_month(from_sunday);
        let mut date = start;
        proof {
            lemma_precedes_is_fewer_days(self.month_start(), self.month_end());
        }
        loop
            invariant_except_break
                date.epoch_days() == self.grid_start_days(from_sunday) + month_v@.len(),
                date.epoch_days() <= end.epoch_days(),
            invariant
                self.wf(),
                date.wf(),
                end.wf(),
                end.epoch_days() == self.grid_end_days(from_sunday),
                forall|i: int|
                    0 <= i < month_v@.len() ==> (#[trigger] month_v@[i]).wf()
                        && month_v@[i].epoch_days() == self.grid_start_days(from_sunday) + i,
            ensures
                is_month_grid(month_v@, *self, from_sunday),
            decreases end.epoch_days() - date.epoch_days(),
        {
            month_v.push(date);
            proof {
                lemma_precedes_is_fewer_days(date, end);
                lemma_precedes_is_fewer_days(date, CalendarDate::latest());
                lemma_precedes_is_fewer_days(end, CalendarDate::latest());
            }
            if !date.is_before(&end) {
                break ;
            }
            match next_date(&date) {
                Some(next) => {
                    proof {
                        lemma_next_day(date);
                    }
                    date = next;
                },
                None => {
                    break ;
                },
            }
        }
        proof {
            lemma_month_grid(month_v@, *self, from_sunday);
            lemma_month_grid_steps(month_v@, *self, from_sunday);
        }
        month_v
    }

    /// The grids of all months from the month of this date to the month of
    /// `end`, in order: one sequence of days for each month, as
    /// [`CalendarDate::month_full_week`] gives it.
    pub fn generate_dates_from_to(&self, end: CalendarDate, from_sunday: bool) -> (dates: Vec<
        Vec<CalendarDate>,
    >)
        requires
            self.wf(),
            end.wf(),
            *self == end || self.precedes(end),
            CalendarDate::earliest().epoch_days() <= self.grid_start_days(from_sunday),
            end.grid_end_days(from_sunday) <= CalendarDate::latest().epoch_days(),
        ensures
            dates@.len() == month_index(end) - month_index(*self) + 1,
            forall|j: int|
                0 <= j < dates@.len() ==> is_month_grid(
                    (#[trigger] dates@[j])@,
                    month_at(month_index(*self) + j),
                    from_sunday,
                ),
            forall|j: int|
                0 <= j < dates@.len() ==> is_whole_weeks_around(
                    (#[trigger] dates@[j])@,
                    month_at(month_index(*self) + j),
                ),
    {
        let mut dates: Vec<Vec<CalendarDate>> = Vec::new();
        let mut month = self.first_day_of_month();
        loop
            invariant_except_break
                month.wf(),
                month.day == 1,
                month_index(month) == month_index(*self) + dates@.len(),
                month_index(month) <= month_index(end),
            invariant
                self.wf(),
                end.wf(),
                CalendarDate::earliest().epoch_days() <= self.grid_start_days(from_sunday),
                end.grid_end_days(from_sunday) <= CalendarDate::latest().epoch_days(),
                forall|j: int|
                    0 <= j < dates@.len() ==> is_month_grid(
                        (#[trigger] dates@[j])@,
                        month_at(month_index(*self) + j),
                        from_sunday,
                    ),
                forall|j: int|
                    0 <= j < dates@.len() ==> is_whole_weeks_around(
                        (#[trigger] dates@[j])@,
                        month_at(month_index(*self) + j),
                    ),
            ensures
                dates@.len() == month_index(end) - month_index(*self) + 1,
            decreases month_index(end) - month_index(month),
        {
            proof {
                lemma_grid_fits_between(*self, month, end, from_sunday);
                lemma_month_at(month);
            }
            let month_v = month.month_full_week(from_sunday);
            dates.push(month_v);
            if month.year == MAX_YEAR && month.month == 12 {
                break ;
            }
            let next = month.first_day_of_next_month();
            if !next.is_on_or_before(&end) {
                break ;
            }
            month = next;
        }
        dates
    }
}

/// What gives the days of the weeks of a month one after the other.
#[derive(Clone, Copy, Debug)]
pub struct MonthFullWeeksIter {
    /// The date whose month is gone through.
    pub base_date: CalendarDate,
    /// The next day to give.
    pub current_date: CalendarDate,
    /// Whether a week begins on Sunday.
    pub from_sunday: bool,
    /// Whether the last day has been given and no day follows it.
    pub finished: bool,
}

impl MonthFullWeeksIter {
    /// The days are those of the grid of the month of `base_date`, and the
    /// next day to give is one of them or the day after the last.
    pub open spec fn wf(&self) -> bool {
        &&& self.base_date.wf()
        &&& self.base_date.grid_fits(self.from_sunday)
        &&& self.current_date.wf()
        &&& self.base_date.grid_start_days(self.from_sunday) <= self.current_date.epoch_days()
        &&& self.current_date.epoch_days() <= self.base_date.grid_end_days(self.from_sunday) + 1
        &&& self.finished ==> self.current_date.epoch_days() == self.base_date.grid_end_days(
            self.from_sunday,
        )
    }

    /// The number of days that are still to give.
    pub open spec fn left(&self) -> int {
        if self.finished {
            0
        } else {
            self.base_date.grid_end_days(self.from_sunday) - self.current_date.epoch_days() + 1
        }
    }

    /// Whether no whole week is left: at most one day is still to give.
    pub fn empty(&self) -> (empty: bool)
        requires
            self.wf(),
        ensures
            empty == (self.left() <= 1),
    {
        if self.finished {
            return true;
        }
        let last = self.base_date.last_day_of_week_after_last_day_of_month(self.from_sunday);
        proof {
            lemma_precedes_is_fewer_days(self.current_date, last);
        }
        !self.current_date.is_before(&last)
    }

    /// The next day of the weeks of the month, and nothing after the last.
    /// The first day given is the first day of the week in which the month
    /// begins, and each day given after it is the day after the one before.
    pub fn next(&mut self) -> (day: Option<CalendarDate>)
        requires
            old(self).wf(),
        ensures
            final(self).wf(),
            final(self).base_date == old(self).base_date,
            old(self).left() > 1 ==> final(self).current_date == old(self).current_date.next_day(),
            final(self).from_sunday == old(self).from_sunday,
            old(self).left() > 0 ==> final(self).left() == old(self).left() - 1 && day is Some
                && day == Some(old(self).current_date),
            old(self).left() <= 0 ==> day is None && final(self).left() == 0,
    {
        if self.finished {
            return None;
        }
        let last = self.base_date.last_day_of_week_after_last_day_of_month(self.from_sunday);
        let old = self.current_date;
        proof {
            lemma_precedes_is_fewer_days(old, last);
            lemma_precedes_is_fewer_days(last, old);
        }
        if last.is_before(&old) {
            return None;
        }
        match next_date(&old) {
            Some(next) => {
                proof {
                    lemma_next_day(old);
                }
                self.current_date = next;
            },
            None => {
                proof {
                    lemma_precedes_is_fewer_days(last, CalendarDate::latest());
                }
                self.finished = true;
            },
        }
        Some(old)
    }
}

impl CalendarDate {
    /// What gives the days of the weeks of the date's month one after the
    /// other, from the first day of the week in which the month begins to
    /// the last day of the week in which it ends.
    pub fn month_full_weeks_iter(&self, from_sunday: bool) -> (iter: MonthFullWeeksIter)
        requires
            self.wf(),
            self.grid_fits(from_sunday),
        ensures
            iter.wf(),
            iter.base_date == *self,
            iter.from_sunday == from_sunday,
            !iter.finished,
            iter.current_date.epoch_days() == self.grid_start_days(from_sunday),
            iter.left() == self.grid_end_days(from_sunday) - self.grid_start_days(from_sunday) + 1,
    {
        proof {
            lemma_precedes_is_fewer_days(self.month_start(), self.month_end());
        }
        MonthFullWeeksIter {
            base_date: *self,
            current_date: self.first_day_of_week_before_first_day_of_month(from_sunday),
            from_sunday,
            finished: false,
        }
    }
}

/// The grid of a month between two months whose grids can be held can be
/// held too.
pub proof fn lemma_grid_fits_between(
    begin: CalendarDate,
    month: CalendarDate,
    end: CalendarDate,
    from_sunday: bool,
)
    requires
        begin.wf(),
        month.wf(),
        end.wf(),
        month_index(begin) <= month_index(month) <= month_index(end),
        CalendarDate::earliest().epoch_days() <= begin.grid_start_days(from_sunday),
        end.grid_end_days(from_sunday) <= CalendarDate::latest().epoch_days(),
    ensures
        month.grid_fits(from_sunday),
{
    lemma_precedes_is_fewer_days(begin.month_start(), month.month_start());
    lemma_precedes_is_fewer_days(month.month_end(), end.month_end());
    lemma_precedes_is_fewer_days(month.month_start(), CalendarDate::latest());
    lemma_precedes_is_fewer_days(CalendarDate::earliest(), month.month_end());
    lemma_precedes_is_fewer_days(month.month_start(), month.month_end());
    if month_index(begin) < month_index(month) {
        lemma_precedes_is_fewer_days(begin.month_end(), month.month_start());
        lemma_precedes_is_fewer_days(begin.month_start(), begin.month_end());
    }
    if month_index(month) < month_index(end) {
        lemma_precedes_is_fewer_days(month.month_end(), end.month_start());
        lemma_precedes_is_fewer_days(end.month_start(), end.month_end());
    }
}

} // verus!
