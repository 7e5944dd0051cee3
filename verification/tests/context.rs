use carl::{
    Action, CalendarDate, Cli, Config, Context, DateError, DateField, DateRange, StyleType, Theme,
};

fn ymd(year: i32, month: u32, day: u32) -> CalendarDate {
    CalendarDate::new(year, month, day)
}

fn today() -> CalendarDate {
    ymd(2021, 6, 15)
}

fn context(opts: Cli) -> Context {
    Context::new(opts, Config::default(), Theme::default(), today()).unwrap()
}

fn dated(words: &[&str]) -> Cli {
    Cli { date: words.iter().map(|word| word.to_string()).collect(), ..Cli::default() }
}

#[test]
fn default_context_is_the_first_day_of_1970() {
    let ctx = Context::default();
    assert_eq!(ctx.usersetdate, CalendarDate::default());
    assert_eq!(ctx.specified_date, None);
    assert_eq!(ctx.styletype, StyleType::Light);
    assert_eq!(ctx.begin, CalendarDate::default());
    assert_eq!(ctx.end, CalendarDate::default());
    assert_eq!(ctx.columns, 1);
    assert_eq!(ctx.theme.date.len(), 3);
    assert!(ctx.config.ical.is_empty());
}

#[test]
fn one_month_without_options() {
    let ctx = context(Cli::default());
    assert_eq!(ctx.usersetdate, today());
    assert_eq!(ctx.specified_date, None);
    assert_eq!((ctx.begin, ctx.end), (ymd(2021, 6, 1), ymd(2021, 6, 30)));
    assert_eq!(ctx.columns, 1);
    assert_eq!(ctx.styletype, StyleType::Light);
    assert_eq!(ctx.opts.action, Action { calendar: true, agenda: false, yearprogress: false });
}

#[test]
fn three_months_around_the_date() {
    let ctx = context(Cli { three: true, ..dated(&["2021", "1", "31"]) });
    assert_eq!(ctx.usersetdate, ymd(2021, 1, 31));
    assert_eq!(ctx.specified_date, Some(ymd(2021, 1, 31)));
    assert_eq!((ctx.begin, ctx.end), (ymd(2020, 12, 1), ymd(2021, 2, 28)));
    assert_eq!(ctx.columns, 3);
    let ctx = context(Cli { three: true, ..dated(&["2021", "12"]) });
    assert_eq!((ctx.begin, ctx.end), (ymd(2021, 11, 1), ymd(2022, 1, 31)));
    assert_eq!(ctx.specified_date, None);
}

#[test]
fn so_many_months_from_the_date_on() {
    let ctx = context(Cli { months: Some(1), ..Cli::default() });
    assert_eq!((ctx.begin, ctx.end), (ymd(2021, 6, 1), ymd(2021, 6, 30)));
    assert_eq!(ctx.columns, 3);
    let ctx = context(Cli { months: Some(8), ..Cli::default() });
    assert_eq!((ctx.begin, ctx.end), (ymd(2021, 6, 1), ymd(2022, 1, 31)));
    let ctx = context(Cli { months: Some(255), ..Cli::default() });
    assert_eq!((ctx.begin, ctx.end), (ymd(2021, 6, 1), ymd(2042, 8, 31)));
    let ctx = context(Cli { months: Some(0), ..Cli::default() });
    assert_eq!((ctx.begin, ctx.end), (ymd(2021, 6, 1), ymd(2021, 6, 30)));
}

#[test]
fn the_whole_year() {
    let ctx = context(Cli { year: true, ..dated(&["2024"]) });
    assert_eq!(ctx.usersetdate, ymd(2024, 6, 15));
    assert_eq!((ctx.begin, ctx.end), (ymd(2024, 1, 1), ymd(2024, 12, 31)));
    assert_eq!(ctx.columns, 3);
}

#[test]
fn dark_styles_where_dark_is_asked_for() {
    let dark = Cli { themestyletype: Some(String::from("dark")), ..Cli::default() };
    assert_eq!(context(dark).styletype, StyleType::Dark);
    let light = Cli { themestyletype: Some(String::from("light")), ..Cli::default() };
    assert_eq!(context(light).styletype, StyleType::Light);
    let other = Cli { themestyletype: Some(String::from("Dark")), ..Cli::default() };
    assert_eq!(context(other).styletype, StyleType::Light);
}

#[test]
fn what_is_asked_for_stays_and_the_calendar_is_the_rule() {
    let agenda = Action { calendar: false, agenda: true, yearprogress: false };
    let ctx = context(Cli { action: agenda, julian: true, sunday: true, ..Cli::default() });
    assert_eq!(ctx.opts.action, agenda);
    assert!(ctx.opts.julian);
    assert!(ctx.opts.sunday);
    let ctx = context(Cli::default());
    assert!(ctx.opts.action.calendar);
}

#[test]
fn wrong_date_is_an_error() {
    let result = Context::new(dated(&["2021", "13"]), Config::default(), Theme::default(), today());
    assert_eq!(result.err(), Some(DateError::TooLarge { field: DateField::Month, value: 13 }));
    let result = Context::new(dated(&["soon"]), Config::default(), Theme::default(), today());
    assert_eq!(result.err(), Some(DateError::NotANumber { field: DateField::Year }));
}

#[test]
fn ranges_at_the_ends_of_what_can_be_held() {
    let first = ymd(-262143, 1, 10);
    let range = DateRange::three_months(&first);
    assert_eq!((range.begin, range.end), (ymd(-262143, 1, 1), ymd(-262143, 2, 28)));
    let last = ymd(262142, 12, 10);
    let range = DateRange::three_months(&last);
    assert_eq!((range.begin, range.end), (ymd(262142, 11, 1), ymd(262142, 12, 31)));
    let range = DateRange::months(&ymd(262142, 11, 10), 5);
    assert_eq!((range.begin, range.end), (ymd(262142, 11, 1), ymd(262142, 12, 31)));
    let range = DateRange::year(&last);
    assert_eq!((range.begin, range.end), (ymd(262142, 1, 1), ymd(262142, 12, 31)));
}

#[test]
fn a_range_does_not_end_before_it_begins() {
    let a = ymd(2021, 1, 1);
    let b = ymd(2021, 1, 2);
    assert_eq!(DateRange::new(a, b), Some(DateRange { begin: a, end: b }));
    assert_eq!(DateRange::new(a, a), Some(DateRange { begin: a, end: a }));
    assert_eq!(DateRange::new(b, a), None);
    let month = DateRange::month(&ymd(2024, 2, 10));
    assert_eq!((month.begin, month.end), (ymd(2024, 2, 1), ymd(2024, 2, 29)));
}
