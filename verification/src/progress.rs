//! How far a year has got on a day.

use crate::bindings::{day_of_year, in_leap_year, parse_date, parsed_date};
use crate::date::{days_before_month, days_in_year, lemma_days_before_month, CalendarDate};
use vstd::prelude::*;

verus! {

/// The day of the year of `date`, from 1 for 1 January.
pub open spec fn ordinal(date: CalendarDate) -> int {
    days_before_month(date.year as int, date.month as int) + date.day
}

/// A text held no date where a date was asked for.
#[derive(Clone, Copy, Debug, PartialEq, Eq, Structural)]
pub enum FilterError {
    NotADate,
}

impl FilterError {
    /// What is told of the error.
    pub fn message(&self) -> (text: String)
        ensures
            text@ == "not a date."@,
    {
        "not a date.".to_owned()
    }
}

/// The number of days of the year of `date`.
pub fn days_per_year(date: CalendarDate) -> (days: u32)
    requires
        date.wf(),
    ensures
        days == days_in_year(date.year as int),
{
    if in_leap_year(&date) {
        366
    } else {
        365
    }
}

/// The number of days that are left of the year after the day written in
/// `value` as year, month and day ("1970-01-31").
pub fn days_in_year_left(value: &str) -> (left: Result<u32, FilterError>)
    ensures
        left == (match parsed_date(value@, "%Y-%m-%d"@) {
            Some(date) => Ok::<u32, FilterError>(
                (days_in_year(date.year as int) - ordinal(date)) as u32,
            ),
            None => Err::<u32, FilterError>(FilterError::NotADate),
        }),
{
    if let Some(date) = parse_date(value, "%Y-%m-%d") {
        let progress = Yearprogress::new(date);
        return Ok(progress.days_in_year_left);
    }
    Err(FilterError::NotADate)
}

/// Where a day stands in its year.
#[derive(Clone, Copy, Debug, PartialEq, Eq, Structural)]
pub struct Yearprogress {
    /// The year.
    pub year: i32,
    /// The day of the year, from 1.
    pub day: u32,
    /// The number of days of the year.
    pub days_in_year: u32,
    /// The number of days of the year after the day.
    pub days_in_year_left: u32,
}

impl Yearprogress {
    /// Where `date` stands in its year.
    pub fn new(date: CalendarDate) -> (progress: Yearprogress)
        requires
            date.wf(),
        ensures
            progress.year == date.year,
            progress.day == ordinal(date),
            progress.days_in_year == days_in_year(date.year as int),
            progress.days_in_year_left == days_in_year(date.year as int) - ordinal(date),
            1 <= progress.day <= progress.days_in_year,
    {
        proof {
            lemma_days_before_month(date.year as int, date.month as int);
        }
        let day = day_of_year(&date);
        let days_in_year = days_per_year(date);
        Yearprogress { year: date.year, day, days_in_year, days_in_year_left: days_in_year - day }
    }
}

} // verus!
