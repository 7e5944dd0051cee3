//! What is asked on the command line, and the date that it names.

use crate::bindings::{parse_i32, parse_u32, parsed_i32, parsed_u32};
use crate::date::CalendarDate;
use vstd::prelude::*;

verus! {

/// What to show.
#[derive(Clone, Copy, Debug, PartialEq, Eq, Structural)]
pub struct Action {
    /// Show the calendar.
    pub calendar: bool,
    /// Show the agenda.
    pub agenda: bool,
    /// Show how far the year has got.
    pub yearprogress: bool,
}

impl Default for Action {
    /// Nothing chosen.
    fn default() -> (action: Action)
        ensures
            action == (Action { calendar: false, agenda: false, yearprogress: false }),
    {
        Action { calendar: false, agenda: false, yearprogress: false }
    }
}

/// The options of the command line.
#[derive(Debug)]
pub struct Cli {
    /// Show only the current month.
    pub one: bool,
    /// Show the previous, the current and the next month.
    pub three: bool,
    /// Show the current and the following months, this many in all.
    pub months: Option<u8>,
    /// Show the whole current year.
    pub year: bool,
    /// Sunday is the first day of the week.
    pub sunday: bool,
    /// Monday is the first day of the week.
    pub monday: bool,
    /// Show the days as days of the year.
    pub julian: bool,
    /// The kind of theme, "dark" or "light".
    pub themestyletype: Option<String>,
    /// The name of the theme.
    pub theme: Option<String>,
    /// The date to show: a year, then a month, then a day.
    pub date: Vec<String>,
    /// What to show.
    pub action: Action,
}

impl Default for Cli {
    /// No option set and no date named.
    fn default() -> (cli: Cli)
        ensures
            cli.is_blank(),
    {
        Cli {
            one: false,
            three: false,
            months: None,
            year: false,
            sunday: false,
            monday: false,
            julian: false,
            themestyletype: None,
            theme: None,
            date: Vec::new(),
            action: Action::default(),
        }
    }
}

/// A part of a date.
#[derive(Clone, Copy, Debug, PartialEq, Eq, Structural)]
pub enum DateField {
    Year,
    Month,
    Day,
}

/// Why the words of the command line name no date.
#[derive(Clone, Copy, Debug, PartialEq, Eq, Structural)]
pub enum DateError {
    /// The part is a number beyond the greatest that is taken: 9999 for a
    /// year, 12 for a month, 31 for a day.
    TooLarge { field: DateField, value: i64 },
    /// The part is no number.
    NotANumber { field: DateField },
}

/// The date that the parts of a date name on the day `today`.
///
/// A part is missing (`None`), given but no number (`Some(None)`), or a
/// number. The first part, in the order year, month, day, that is no number
/// or beyond its limit (9999, 12, 31) is an error. Without an error, and
/// with `too_many` words, the date is `today`; else a missing part is taken
/// from `today`, and where the parts name no day of the calendar, the date
/// is `today` again.
pub open spec fn date_of_parts(
    year: Option<Option<i32>>,
    month: Option<Option<u32>>,
    day: Option<Option<u32>>,
    too_many: bool,
    today: CalendarDate,
) -> Result<CalendarDate, DateError> {
    if year == Some(None::<i32>) {
        Err(DateError::NotANumber { field: DateField::Year })
    } else if year is Some && year->0->0 > 9999 {
        Err(DateError::TooLarge { field: DateField::Year, value: year->0->0 as i64 })
    } else if month == Some(None::<u32>) {
        Err(DateError::NotANumber { field: DateField::Month })
    } else if month is Some && month->0->0 > 12 {
        Err(DateError::TooLarge { field: DateField::Month, value: month->0->0 as i64 })
    } else if day == Some(None::<u32>) {
        Err(DateError::NotANumber { field: DateField::Day })
    } else if day is Some && day->0->0 > 31 {
        Err(DateError::TooLarge { field: DateField::Day, value: day->0->0 as i64 })
    } else if too_many {
        Ok(today)
    } else {
        let date = CalendarDate {
            year: if year is Some {
                year->0->0
            } else {
                today.year
            },
            month: if month is Some {
                month->0->0
            } else {
                today.month
            },
            day: if day is Some {
                day->0->0
            } else {
                today.day
            },
        };
        if date.wf() {
            Ok(date)
        } else {
            Ok(today)
        }
    }
}

/// The date that the parts of a date name on the day `today`: see
/// [`date_of_parts`].
pub fn date_from_parts(
    year: Option<Option<i32>>,
    month: Option<Option<u32>>,
    day: Option<Option<u32>>,
    too_many: bool,
    today: CalendarDate,
) -> (date: Result<CalendarDate, DateError>)
    ensures
        date == date_of_parts(year, month, day, too_many, today),
{
    let mut y: i32 = today.year;
    let mut m: u32 = today.month;
    let mut d: u32 = today.day;
    match year {
        Some(Some(x)) => {
            if x > 9999 {
                return Err(DateError::TooLarge { field: DateField::Year, value: x as i64 });
            }
            y = x;
        },
        Some(None) => {
            return Err(DateError::NotANumber { field: DateField::Year });
        },
        None => {},
    }
    match month {
        Some(Some(x)) => {
            if x > 12 {
                return Err(DateError::TooLarge { field: DateField::Month, value: x as i64 });
            }
            m = x;
        },
        Some(None) => {
            return Err(DateError::NotANumber { field: DateField::Month });
        },
        None => {},
    }
    match day {
        Some(Some(x)) => {
            if x > 31 {
                return Err(DateError::TooLarge { field: DateField::Day, value: x as i64 });
            }
            d = x;
        },
        Some(None) => {
            return Err(DateError::NotANumber { field: DateField::Day });
        },
        None => {},
    }
    if too_many {
        return Ok(today);
    }
    match CalendarDate::from_ymd_opt(y, m, d) {
        Some(x) => Ok(x),
        None => Ok(today),
    }
}

impl Cli {
    /// No option is set and no date is named.
    pub open spec fn is_blank(&self) -> bool {
        &&& !self.one && !self.three && !self.year
        &&& !self.sunday && !self.monday && !self.julian
        &&& self.months is None
        &&& self.themestyletype is None
        &&& self.theme is None
        &&& self.date@.len() == 0
        &&& self.action == (Action { calendar: false, agenda: false, yearprogress: false })
    }

    /// The year that the words of the date name: missing without a word, no
    /// number where the first word is none.
    pub open spec fn year_named(&self) -> Option<Option<i32>> {
        if self.date@.len() >= 1 {
            Some(parsed_i32(self.date@[0]@))
        } else {
            None
        }
    }

    /// The month that the words of the date name.
    pub open spec fn month_named(&self) -> Option<Option<u32>> {
        if self.date@.len() >= 2 {
            Some(parsed_u32(self.date@[1]@))
        } else {
            None
        }
    }

    /// The day that the words of the date name: it is read from the third
    /// of three words, and from no other number of words.
    pub open spec fn day_named(&self) -> Option<Option<u32>> {
        if self.date@.len() == 3 {
            Some(parsed_u32(self.date@[2]@))
        } else {
            None
        }
    }

    /// The date that the command line names on the day `today`: the words of
    /// the date are read as year, month and day and made a date as
    /// [`date_of_parts`] tells; more than three words are too many.
    pub fn validate_date(&self, today: CalendarDate) -> (date: Result<CalendarDate, DateError>)
        ensures
            date == date_of_parts(
                self.year_named(),
                self.month_named(),
                self.day_named(),
                self.date@.len() > 3,
                today,
            ),
    {
        let year = if self.date.len() >= 1 {
            Some(parse_i32(self.date[0].as_str()))
        } else {
            None
        };
        let month = if self.date.len() >= 2 {
            Some(parse_u32(self.date[1].as_str()))
        } else {
            None
        };
        let day = if self.date.len() == 3 {
            Some(parse_u32(self.date[2].as_str()))
        } else {
            None
        };
        date_from_parts(year, month, day, self.date.len() > 3, today)
    }
}

} // verus!
