//! The settings of one run: what the command line, the configuration and the
//! theme say together, and the days that are shown.

use crate::cli::{date_of_parts, Action, Cli, DateError};
use crate::date::CalendarDate;
use crate::range::DateRange;
use crate::theme::{builtin_theme, Style, StyleName, StyleType, StyleView, Theme};
use vstd::prelude::*;

verus! {

/// A calendar file and the style in which its events are marked.
#[derive(Debug)]
pub struct IcalStyle {
    pub file: String,
    pub style: Style,
}

/// The style of events where none is chosen: underlined, in cyan.
pub open spec fn builtin_event_style() -> StyleView {
    StyleView {
        stylenames: seq![StyleName::Underline, StyleName::FGCyan],
        weight: 0,
        styletype: StyleType::Any,
    }
}

/// The style of events where none is chosen.
pub fn default_icalstyle_style() -> (style: Style)
    ensures
        style@ == builtin_event_style(),
{
    let mut stylenames: Vec<StyleName> = Vec::new();
    stylenames.push(StyleName::Underline);
    stylenames.push(StyleName::FGCyan);
    assert(stylenames@ =~= seq![StyleName::Underline, StyleName::FGCyan]);
    Style { stylenames, weight: 0, styletype: StyleType::Any }
}

impl Default for IcalStyle {
    /// No file, and the style of events where none is chosen.
    fn default() -> (icalstyle: IcalStyle)
        ensures
            icalstyle.file@ == Seq::<char>::empty(),
            icalstyle.style@ == builtin_event_style(),
    {
        IcalStyle { file: String::new(), style: default_icalstyle_style() }
    }
}

/// The configuration: the name of the theme, the calendar files, and the
/// file of the template.
#[derive(Debug)]
pub struct Config {
    pub theme: Option<String>,
    pub ical: Vec<IcalStyle>,
    pub template: Option<String>,
}

impl Default for Config {
    /// No theme, no calendar file, no template.
    fn default() -> (config: Config)
        ensures
            config.theme is None,
            config.ical@.len() == 0,
            config.template is None,
    {
        Config { theme: None, ical: Vec::new(), template: None }
    }
}

/// The settings of one run.
#[derive(Debug)]
pub struct Context {
    /// The date of the command line, where it names year, month and day.
    pub specified_date: Option<CalendarDate>,
    /// The date that the calendar is shown for.
    pub usersetdate: CalendarDate,
    pub opts: Cli,
    pub config: Config,
    pub theme: Theme,
    /// The kind of theme in use.
    pub styletype: StyleType,
    /// The first day that is shown.
    pub begin: CalendarDate,
    /// The last day that is shown.
    pub end: CalendarDate,
    /// The number of months side by side.
    pub columns: usize,
}

/// The kind of theme that the command line asks for: dark where it says
/// "dark", else light.
pub open spec fn theme_kind(themestyletype: Option<String>) -> StyleType {
    if themestyletype is Some && themestyletype->0@ == "dark"@ {
        StyleType::Dark
    } else {
        StyleType::Light
    }
}

/// What is shown: what the command line asks for, and the calendar where it
/// asks for nothing.
pub open spec fn action_taken(action: Action) -> Action {
    if action == (Action { calendar: false, agenda: false, yearprogress: false }) {
        Action { calendar: true, agenda: false, yearprogress: false }
    } else {
        action
    }
}

/// The days that are shown around `date`: its year where the year is asked
/// for, else so many months from its month on where a number of months is
/// asked for, else its month with the months before and after where three
/// months are asked for, else its month.
pub open spec fn days_shown(opts: Cli, date: CalendarDate) -> DateRange {
    if opts.year {
        DateRange::year_of(date)
    } else if opts.months is Some {
        DateRange::months_of(date, opts.months->0 as int)
    } else if opts.three {
        DateRange::three_months_of(date)
    } else {
        DateRange::month_of(date)
    }
}

impl Context {
    /// The settings hold days that exist, and the date that the calendar is
    /// shown for is one of the days that are shown.
    pub open spec fn wf(&self) -> bool {
        &&& self.usersetdate.wf()
        &&& (DateRange { begin: self.begin, end: self.end }).wf()
        &&& (DateRange { begin: self.begin, end: self.end }).holds(self.usersetdate)
    }

    /// The settings of a run on the day `today` with the command line
    /// `opts`, the configuration `config` and the theme `theme`, or the
    /// error in the date of the command line.
    ///
    /// The calendar is shown for the date that [`Cli::validate_date`] gives.
    /// The days shown are those of [`days_shown`]; three months stand side
    /// by side where more than one month is asked for.
    pub fn new(opts: Cli, config: Config, theme: Theme, today: CalendarDate) -> (context: Result<
        Context,
        DateError,
    >)
        requires
            today.wf(),
        ensures
            match date_of_parts(
                opts.year_named(),
                opts.month_named(),
                opts.day_named(),
                opts.date@.len() > 3,
                today,
            ) {
                Ok(date) => context matches Ok(ctx) && ctx.wf() && ctx.usersetdate == date
                    && ctx.specified_date == (if opts.date@.len() == 3 {
                    Some(date)
                } else {
                    None
                }) && ctx.opts == (Cli { action: action_taken(opts.action), ..opts }) && ctx.config
                    == config && ctx.theme == theme && ctx.styletype == theme_kind(
                    opts.themestyletype,
                ) && (DateRange { begin: ctx.begin, end: ctx.end }) == days_shown(opts, date)
                    && ctx.columns == (if opts.three || opts.year || opts.months is Some {
                    3usize
                } else {
                    1usize
                }),
                Err(error) => context matches Err(e) && e == error,
            },
    {
        let mut opts = opts;
        let dark = "dark".to_owned();
        let styletype: StyleType = match &opts.themestyletype {
            Some(kind) => {
                if *kind == dark {
                    StyleType::Dark
                } else {
                    StyleType::Light
                }
            },
            None => StyleType::Light,
        };
        let usersetdate: CalendarDate = match opts.validate_date(today) {
            Ok(date) => date,
            Err(error) => {
                return Err(error);
            },
        };
        let specified_date = if opts.date.len() == 3 {
            Some(usersetdate)
        } else {
            None
        };
        if opts.action == Action::default() {
            opts.action.calendar = true;
        }
        let mut columns: usize = 1;
        if opts.three || opts.year || opts.months.is_some() {
            columns = 3;
        }
        let mut range = DateRange::month(&usersetdate);
        if opts.three {
            range = DateRange::three_months(&usersetdate);
        }
        if let Some(num) = opts.months {
            range = DateRange::months(&usersetdate, num);
        }
        if opts.year {
            range = DateRange::year(&usersetdate);
        }
        Ok(
            Context {
                specified_date,
                usersetdate,
                opts,
                config,
                theme,
                styletype,
                begin: range.begin,
                end: range.end,
                columns,
            },
        )
    }
}

impl Default for Context {
    /// The settings of a run on 1 January 1970 without any option: the
    /// builtin theme for a light display, one column.
    fn default() -> (context: Context)
        ensures
            context.specified_date is None,
            context.usersetdate == (CalendarDate { year: 1970, month: 1, day: 1 }),
            context.theme@ == builtin_theme(),
            context.styletype == StyleType::Light,
            context.begin == context.usersetdate,
            context.end == context.usersetdate,
            context.columns == 1,
            context.opts.is_blank(),
            context.config.theme is None,
            context.config.ical@.len() == 0,
            context.config.template is None,
    {
        Context {
            specified_date: None,
            usersetdate: CalendarDate::default(),
            opts: Cli::default(),
            config: Config::default(),
            theme: Theme::default(),
            styletype: StyleType::Light,
            begin: CalendarDate::default(),
            end: CalendarDate::default(),
            columns: 1,
        }
    }
}

} // verus!
