//! The calls into other crates. Verus takes the contract of each function here
//! on trust: its body is the call itself and is not verified.

use crate::date::{days_before_month, is_leap_year, CalendarDate};
use crate::events::{occurrence_limit, CalendarDateTime};
use crate::style::{ansi_codes, TextColor, TextStyle};
use anstyle::{Ansi256Color, AnsiColor, Effects, RgbColor};
use chrono::{Datelike, NaiveDate, TimeDelta, TimeZone};
use rrule::{RRuleSet, Tz};
use vstd::prelude::*;

verus! {

/// `chrono::NaiveDate::succ_opt`: the next calendar date, and nothing after
/// the last date that chrono can hold.
#[verifier::external_body]
pub(crate) fn next_date(date: &CalendarDate) -> (next: Option<CalendarDate>)
    requires
        date.wf(),
    ensures
        next == (if *date == CalendarDate::latest() {
            None
        } else {
            Some(date.next_day())
        }),
{
    let day = NaiveDate::from_ymd_opt(date.year, date.month, date.day).unwrap();
    day.succ_opt().map(|d| CalendarDate { year: d.year(), month: d.month(), day: d.day() })
}

/// `chrono::NaiveDate::pred_opt`: the previous calendar date, and nothing
/// before the first date that chrono can hold.
#[verifier::external_body]
pub(crate) fn previous_date(date: &CalendarDate) -> (previous: Option<CalendarDate>)
    requires
        date.wf(),
    ensures
        previous == (if *date == CalendarDate::earliest() {
            None
        } else {
            Some(date.prev_day())
        }),
{
    let day = NaiveDate::from_ymd_opt(date.year, date.month, date.day).unwrap();
    day.pred_opt().map(|d| CalendarDate { year: d.year(), month: d.month(), day: d.day() })
}

/// `chrono::Datelike::weekday` followed by `chrono::Weekday::num_days_from_monday`:
/// the day of the week as a number, from 0 for Monday to 6 for Sunday.
#[verifier::external_body]
pub(crate) fn days_from_monday(date: &CalendarDate) -> (days: u32)
    requires
        date.wf(),
    ensures
        days == date.weekday_index(),
{
    let day = NaiveDate::from_ymd_opt(date.year, date.month, date.day).unwrap();
    day.weekday().num_days_from_monday()
}

/// `chrono::Datelike::weekday` followed by `chrono::Weekday::num_days_from_sunday`:
/// the day of the week as a number, from 0 for Sunday to 6 for Saturday.
#[verifier::external_body]
pub(crate) fn days_from_sunday(date: &CalendarDate) -> (days: u32)
    requires
        date.wf(),
    ensures
        days == (date.weekday_index() + 1) % 7,
{
    let day = NaiveDate::from_ymd_opt(date.year, date.month, date.day).unwrap();
    day.weekday().num_days_from_sunday()
}

/// `NaiveDate + TimeDelta::days(n)` of chrono: the date `days` days later.
/// The sum panics beyond the last date, which `requires` leaves out.
#[verifier::external_body]
pub(crate) fn plus_days(date: &CalendarDate, days: u32) -> (later: CalendarDate)
    requires
        date.wf(),
        date.epoch_days() + days <= CalendarDate::latest().epoch_days(),
    ensures
        later.wf(),
        later.epoch_days() == date.epoch_days() + days,
{
    let day = NaiveDate::from_ymd_opt(date.year, date.month, date.day).unwrap();
    let d = day + TimeDelta::days(i64::from(days));
    CalendarDate { year: d.year(), month: d.month(), day: d.day() }
}

/// `NaiveDate - TimeDelta::days(n)` of chrono: the date `days` days earlier.
/// The difference panics before the first date, which `requires` leaves out.
#[verifier::external_body]
pub(crate) fn minus_days(date: &CalendarDate, days: u32) -> (earlier: CalendarDate)
    requires
        date.wf(),
        CalendarDate::earliest().epoch_days() <= date.epoch_days() - days,
    ensures
        earlier.wf(),
        earlier.epoch_days() == date.epoch_days() - days,
{
    let day = NaiveDate::from_ymd_opt(date.year, date.month, date.day).unwrap();
    let d = day - TimeDelta::days(i64::from(days));
    CalendarDate { year: d.year(), month: d.month(), day: d.day() }
}

/// `NaiveDate - NaiveDate` of chrono, then `chrono::TimeDelta::num_days`:
/// the number of days from `earlier` to `later`, negative where `later` is
/// the earlier of the two.
#[verifier::external_body]
pub(crate) fn days_between(later: &CalendarDate, earlier: &CalendarDate) -> (days: i64)
    requires
        later.wf(),
        earlier.wf(),
    ensures
        days == later.epoch_days() - earlier.epoch_days(),
{
    let to = NaiveDate::from_ymd_opt(later.year, later.month, later.day).unwrap();
    let from = NaiveDate::from_ymd_opt(earlier.year, earlier.month, earlier.day).unwrap();
    (to - from).num_days()
}

/// `chrono::NaiveDate::from_ymd_opt`: the date of the three parts where it
/// exists in the calendar and its year is one that chrono can hold, else
/// nothing.
#[verifier::external_body]
pub(crate) fn date_from_ymd(year: i32, month: u32, day: u32) -> (date: Option<CalendarDate>)
    ensures
        date == (if (CalendarDate { year, month, day }).wf() {
            Some(CalendarDate { year, month, day })
        } else {
            None
        }),
{
    NaiveDate::from_ymd_opt(year, month, day).map(
        |d| CalendarDate { year: d.year(), month: d.month(), day: d.day() },
    )
}

/// `chrono::NaiveDate::leap_year`: whether the date's year is a leap year.
#[verifier::external_body]
pub(crate) fn in_leap_year(date: &CalendarDate) -> (leap: bool)
    requires
        date.wf(),
    ensures
        leap == is_leap_year(date.year as int),
{
    NaiveDate::from_ymd_opt(date.year, date.month, date.day).unwrap().leap_year()
}

/// `chrono::Datelike::ordinal`: the day of the year, from 1 for 1 January.
#[verifier::external_body]
pub(crate) fn day_of_year(date: &CalendarDate) -> (ordinal: u32)
    requires
        date.wf(),
    ensures
        ordinal == days_before_month(date.year as int, date.month as int) + date.day,
{
    NaiveDate::from_ymd_opt(date.year, date.month, date.day).unwrap().ordinal()
}

/// What `chrono::NaiveDate::parse_from_str` reads from `text` in the format
/// `format`: a date, or nothing where it reports an error.
pub uninterp spec fn parsed_date(text: Seq<char>, format: Seq<char>) -> Option<CalendarDate>;

/// `chrono::NaiveDate::parse_from_str`: the date that `text` holds in the
/// format `format`, or nothing where chrono reports an error. What is read
/// depends on the two texts alone, and a date that is read exists.
#[verifier::external_body]
pub(crate) fn parse_date(text: &str, format: &str) -> (date: Option<CalendarDate>)
    ensures
        date == parsed_date(text@, format@),
        date matches Some(day) ==> day.wf(),
{
    let day = NaiveDate::parse_from_str(text, format).ok()?;
    Some(CalendarDate { year: day.year(), month: day.month(), day: day.day() })
}

/// What `str::parse::<i32>` of std reads from `text`: a number, or nothing
/// where it reports an error.
pub uninterp spec fn parsed_i32(text: Seq<char>) -> Option<i32>;

/// `str::parse::<i32>` of std: the number that `text` holds, or nothing
/// where std reports an error. What is read depends on `text` alone.
#[verifier::external_body]
pub(crate) fn parse_i32(text: &str) -> (number: Option<i32>)
    ensures
        number == parsed_i32(text@),
{
    text.parse::<i32>().ok()
}

/// What `str::parse::<u32>` of std reads from `text`: a number, or nothing
/// where it reports an error.
pub uninterp spec fn parsed_u32(text: Seq<char>) -> Option<u32>;

/// `str::parse::<u32>` of std: the number that `text` holds, or nothing
/// where std reports an error. What is read depends on `text` alone.
#[verifier::external_body]
pub(crate) fn parse_u32(text: &str) -> (number: Option<u32>)
    ensures
        number == parsed_u32(text@),
{
    text.parse::<u32>().ok()
}

/// A set of recurrence rules of rrule, with the start of the recurrence.
#[verifier::external_type_specification]
#[verifier::external_body]
pub struct ExRRuleSet(RRuleSet);

/// A time zone of rrule: the zone of the machine or a named zone.
#[verifier::external_type_specification]
#[verifier::external_body]
pub struct ExTz(Tz);

/// `Vec::clone` of std on rule sets, which copies each with the `Clone` that
/// rrule derives for `RRuleSet`: each copy equals what it was made from.
#[verifier::external_body]
pub(crate) fn clone_rule_sets(rules: &Vec<RRuleSet>) -> (copy: Vec<RRuleSet>)
    ensures
        copy@ == rules@,
{
    rules.clone()
}

/// `rrule::RRuleSet::all` on a copy of `rules` with `RRuleSet::after` and
/// `RRuleSet::before` set: the recurrences from `after` to `before`, both
/// taken as local times of `zone`, each cut down to its date by
/// `chrono::DateTime::date_naive`. There are at most `limit` of them. Nothing
/// is returned where `zone` has no such local time (the earlier of two is
/// taken for `after`, the later for `before`). What comes back depends on the
/// zone of the machine where `zone` or `rules` speak of it. The library asks
/// for whole days alone, and `requires` admits no other query: from the
/// first second of a day to the last second of a day, with the limit that
/// belongs to the two days.
#[verifier::external_body]
pub(crate) fn rule_set_dates(
    rules: &RRuleSet,
    zone: &Tz,
    after: &CalendarDateTime,
    before: &CalendarDateTime,
    limit: u16,
) -> (dates: Option<Vec<CalendarDate>>)
    requires
        after.date.wf(),
        before.date.wf(),
        after.hour == 0 && after.minute == 0 && after.second == 0,
        before.hour == 23 && before.minute == 59 && before.second == 59,
        limit == occurrence_limit(after.date, before.date),
    ensures
        dates matches Some(found) ==> found@.len() <= limit && forall|i: int|
            0 <= i < found@.len() ==> (#[trigger] found@[i]).wf(),
{
    let (a, b) = (after.date, before.date);
    let from = zone.with_ymd_and_hms(a.year, a.month, a.day, after.hour, after.minute, after.second);
    let to = zone.with_ymd_and_hms(b.year, b.month, b.day, before.hour, before.minute, before.second);
    let found = rules.clone().before(to.latest()?).after(from.earliest()?).all(limit).dates;
    let days = found.iter().map(|d| d.date_naive());
    Some(days.map(|d| CalendarDate { year: d.year(), month: d.month(), day: d.day() }).collect())
}

/// A colour of anstyle.
#[verifier::external_type_specification]
#[verifier::external_body]
pub struct ExAnstyleColor(anstyle::Color);

/// The colour of anstyle that stands for `color`: `anstyle::AnsiColor` for a
/// named colour (`Magenta` for purple), `anstyle::Ansi256Color` for one of
/// the palette, `anstyle::RgbColor` for one given by its parts.
#[verifier::external_body]
pub(crate) fn ansi_color(color: TextColor) -> anstyle::Color {
    match color {
        TextColor::Black => AnsiColor::Black.into(),
        TextColor::Red => AnsiColor::Red.into(),
        TextColor::Green => AnsiColor::Green.into(),
        TextColor::Yellow => AnsiColor::Yellow.into(),
        TextColor::Blue => AnsiColor::Blue.into(),
        TextColor::Purple => AnsiColor::Magenta.into(),
        TextColor::Cyan => AnsiColor::Cyan.into(),
        TextColor::White => AnsiColor::White.into(),
        TextColor::Fixed(index) => Ansi256Color(index).into(),
        TextColor::Rgb { r, g, b } => RgbColor(r, g, b).into(),
    }
}

/// `anstyle::Style::render`, written to a string: the escape sequences that
/// switch a terminal to `style`. The text depends on `style` alone.
#[verifier::external_body]
pub(crate) fn style_codes(style: &TextStyle) -> (codes: String)
    ensures
        codes@ == ansi_codes(*style),
{
    let effects = Effects::new()
        .set(Effects::BOLD, style.bold)
        .set(Effects::DIMMED, style.dimmed)
        .set(Effects::ITALIC, style.italic)
        .set(Effects::UNDERLINE, style.underline)
        .set(Effects::BLINK, style.blink)
        .set(Effects::INVERT, style.reverse)
        .set(Effects::HIDDEN, style.hidden)
        .set(Effects::STRIKETHROUGH, style.strikethrough);
    let fg = style.foreground.map(ansi_color);
    let bg = style.background.map(ansi_color);
    anstyle::Style::new().effects(effects).fg_color(fg).bg_color(bg).render().to_string()
}

} // verus!
