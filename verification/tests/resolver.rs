use carl::{
    resolve, style_event, tostyle, CalendarDate, DateProperty, DateStyle, DateStyler, Event,
    EventInstance, Style, StyleName, StyleType, TextColor, Theme,
};

fn ymd(year: i32, month: u32, day: u32) -> CalendarDate {
    CalendarDate::new(year, month, day)
}

fn rule(properties: Vec<DateProperty>, stylenames: Vec<StyleName>, weight: u32) -> DateStyle {
    DateStyle { properties, style: Style { stylenames, weight, styletype: StyleType::Any } }
}

fn rule_for(
    styletype: StyleType,
    properties: Vec<DateProperty>,
    stylenames: Vec<StyleName>,
    weight: u32,
) -> DateStyle {
    DateStyle { properties, style: Style { stylenames, weight, styletype } }
}

fn occurrence(date: CalendarDate, style: Style) -> EventInstance {
    EventInstance { date, event: Event::default(), style, stylestr: String::new() }
}

fn default_styler(events: Vec<EventInstance>) -> DateStyler {
    DateStyler::new(events, CalendarDate::default(), Theme::default(), StyleType::Light)
}

#[test]
fn date_test_satisfy_firstdayofdisplayedmonth() {
    let date = ymd(1970, 2, 1);
    let firstdayofdisplayedmonth = ymd(1970, 2, 1);
    let properties = [DateProperty::FirstDayOfMonth];
    assert!(date.satisfy_all(firstdayofdisplayedmonth, CalendarDate::default(), &[], &properties));
}

#[test]
fn date_test_satisfy_aftercurrentdate() {
    let date = ymd(1970, 2, 1);
    let firstdayofdisplayedmonth = ymd(1970, 2, 1);
    let properties = [DateProperty::AfterCurrentDate];
    assert!(date.satisfy_all(firstdayofdisplayedmonth, CalendarDate::default(), &[], &properties));
}

#[test]
fn date_test_satisfy_afterlastdayofmonth() {
    let date = ymd(1970, 1, 31);
    let firstdayofdisplayedmonth = CalendarDate::default();
    let properties = [DateProperty::LastDayOfMonth];
    assert!(date.satisfy_all(firstdayofdisplayedmonth, CalendarDate::default(), &[], &properties));
}

#[test]
fn date_test_is_event() {
    let date = ymd(1970, 1, 31);
    let firstdayofdisplayedmonth = CalendarDate::default();
    let properties = [DateProperty::IsEvent];
    assert!(!date.satisfy_all(firstdayofdisplayedmonth, CalendarDate::default(), &[], &properties));
}

#[test]
fn date_test_satisfy_is_event() {
    let date = CalendarDate::default();
    let firstdayofdisplayedmonth = CalendarDate::default();
    let events = vec![occurrence(CalendarDate::default(), Style::default())];
    let properties = [DateProperty::IsEvent];
    assert!(date.satisfy_all(firstdayofdisplayedmonth, CalendarDate::default(), &events, &properties));
}

#[test]
fn date_test_fmt_0() {
    let date = CalendarDate::default();
    let firstdayofdisplayedmonth = CalendarDate::default();
    let s = String::from("\u{1b}[1m\u{1b}[4m");
    assert_eq!(default_styler(vec![]).style(&date, &firstdayofdisplayedmonth), s);
}

#[test]
fn date_test_fmt_1() {
    let date = ymd(1970, 1, 15);
    let firstdayofdisplayedmonth = CalendarDate::default();
    let s = String::from("");
    assert_eq!(default_styler(vec![]).style(&date, &firstdayofdisplayedmonth), s);
}

#[test]
fn date_test_fmt_2() {
    let date = ymd(1970, 2, 1);
    let firstdayofdisplayedmonth = CalendarDate::default();
    let s = String::from("\u{1b}[8m");
    assert_eq!(default_styler(vec![]).style(&date, &firstdayofdisplayedmonth), s);
}

#[test]
fn date_test_fmt_is_event() {
    let date = CalendarDate::default();
    let firstdayofdisplayedmonth = CalendarDate::default();
    let events = vec![occurrence(CalendarDate::default(), Style::default())];
    let s = String::from("\u{1b}[1m\u{1b}[4m");
    assert_eq!(default_styler(events).style(&date, &firstdayofdisplayedmonth), s);
}

#[test]
fn builtin_theme_on_january_1970() {
    let theme = Theme::default();
    let main = ymd(1970, 1, 1);
    let first = ymd(1970, 1, 1);
    let directives = |date| resolve(&date, &first, &main, &[], &theme.date, StyleType::Light);
    assert_eq!(directives(ymd(1970, 1, 1)), vec![StyleName::Bold, StyleName::Underline]);
    assert_eq!(directives(ymd(1969, 12, 29)), vec![StyleName::Hidden]);
    assert_eq!(directives(ymd(1970, 1, 15)), vec![]);
    assert_eq!(directives(ymd(1970, 1, 31)), vec![]);
    assert_eq!(directives(ymd(1970, 2, 1)), vec![StyleName::Hidden]);
    assert!(tostyle(directives(ymd(1969, 12, 29))).hidden);
}

#[test]
fn every_day_of_the_grid_of_january_1970() {
    let theme = Theme::default();
    let main = ymd(1970, 1, 1);
    let first = ymd(1970, 1, 1);
    for day in first.month_full_week(false) {
        let directives = resolve(&day, &first, &main, &[], &theme.date, StyleType::Dark);
        if day == main {
            assert_eq!(directives, vec![StyleName::Bold, StyleName::Underline]);
        } else if day.month != 1 {
            assert_eq!(directives, vec![StyleName::Hidden]);
        } else {
            assert_eq!(directives, vec![]);
        }
    }
}

#[test]
fn current_date_in_a_neighbouring_month_is_hidden_last() {
    let theme = Theme::default();
    let main = ymd(1969, 12, 30);
    let first = ymd(1970, 1, 1);
    let directives = resolve(&main, &first, &main, &[], &theme.date, StyleType::Dark);
    assert_eq!(directives, vec![StyleName::Bold, StyleName::Underline, StyleName::Hidden]);
}

#[test]
fn all_conditions_of_a_rule_must_hold() {
    let theme = vec![rule(
        vec![DateProperty::Monday, DateProperty::Odd, DateProperty::AfterCurrentDate],
        vec![StyleName::Italic],
        0,
    )];
    let main = ymd(2021, 3, 2);
    let first = ymd(2021, 3, 1);
    let directives = |date| resolve(&date, &first, &main, &[], &theme, StyleType::Light);
    // 15 March 2021 is a Monday, odd, and after the current date.
    assert_eq!(directives(ymd(2021, 3, 15)), vec![StyleName::Italic]);
    // 8 March is a Monday after the current date, and even.
    assert_eq!(directives(ymd(2021, 3, 8)), vec![]);
    // 17 March is odd and after the current date, and a Wednesday.
    assert_eq!(directives(ymd(2021, 3, 17)), vec![]);
    // 1 March is an odd Monday before the current date.
    assert_eq!(directives(ymd(2021, 3, 1)), vec![]);
}

#[test]
fn rule_without_condition_holds_of_every_day() {
    let theme = vec![rule(vec![], vec![StyleName::Blink], 0)];
    let main = ymd(2021, 3, 2);
    for day in [ymd(2021, 2, 28), ymd(2021, 3, 2), ymd(1970, 1, 1), ymd(2400, 2, 29)] {
        let directives = resolve(&day, &ymd(2021, 3, 1), &main, &[], &theme, StyleType::Dark);
        assert_eq!(directives, vec![StyleName::Blink]);
    }
}

#[test]
fn no_theme_and_no_event_give_no_directive() {
    let directives =
        resolve(&ymd(2021, 3, 2), &ymd(2021, 3, 1), &ymd(2021, 3, 2), &[], &[], StyleType::Light);
    assert!(directives.is_empty());
}

#[test]
fn every_condition_on_its_days() {
    let main = ymd(2021, 3, 10);
    let first = ymd(2021, 3, 1);
    let events = vec![occurrence(ymd(2021, 3, 5), Style::default())];
    let holds = |property: DateProperty, date: CalendarDate| {
        date.satisfy_all(first, main, &events, &[property])
    };
    assert!(holds(DateProperty::FirstDayOfMonth, ymd(2021, 3, 1)));
    assert!(!holds(DateProperty::FirstDayOfMonth, ymd(2021, 4, 1)));
    assert!(holds(DateProperty::BeforeFirstDayOfMonth, ymd(2021, 2, 28)));
    assert!(!holds(DateProperty::BeforeFirstDayOfMonth, ymd(2021, 3, 1)));
    assert!(holds(DateProperty::BeforeCurrentDate, ymd(2021, 3, 9)));
    assert!(!holds(DateProperty::BeforeCurrentDate, ymd(2021, 3, 10)));
    assert!(holds(DateProperty::CurrentDate, ymd(2021, 3, 10)));
    assert!(!holds(DateProperty::CurrentDate, ymd(2021, 3, 11)));
    assert!(holds(DateProperty::AfterCurrentDate, ymd(2021, 3, 11)));
    assert!(!holds(DateProperty::AfterCurrentDate, ymd(2021, 3, 10)));
    assert!(holds(DateProperty::AfterLastDayOfMonth, ymd(2021, 4, 1)));
    assert!(!holds(DateProperty::AfterLastDayOfMonth, ymd(2021, 3, 31)));
    assert!(holds(DateProperty::LastDayOfMonth, ymd(2021, 3, 31)));
    assert!(!holds(DateProperty::LastDayOfMonth, ymd(2021, 3, 30)));
    assert!(holds(DateProperty::IsEvent, ymd(2021, 3, 5)));
    assert!(!holds(DateProperty::IsEvent, ymd(2021, 3, 6)));
    let weekdays = [
        DateProperty::Monday,
        DateProperty::Tuesday,
        DateProperty::Wednesday,
        DateProperty::Thursday,
        DateProperty::Friday,
        DateProperty::Saturday,
        DateProperty::Sunday,
    ];
    // 1 March 2021 is a Monday.
    for (offset, weekday) in weekdays.iter().enumerate() {
        for (other, property) in weekdays.iter().enumerate() {
            let _ = weekday;
            assert_eq!(holds(*property, ymd(2021, 3, 1 + offset as u32)), offset == other);
        }
    }
    assert!(holds(DateProperty::Thursday, ymd(1970, 1, 1)));
    assert!(holds(DateProperty::Friday, ymd(-308, 3, 14)));
    assert!(holds(DateProperty::Odd, ymd(2021, 3, 31)));
    assert!(!holds(DateProperty::Odd, ymd(2021, 3, 30)));
    assert!(holds(DateProperty::Even, ymd(2021, 3, 30)));
    assert!(!holds(DateProperty::Even, ymd(2021, 3, 31)));
}

#[test]
fn last_day_of_the_month_is_that_of_the_displayed_month() {
    // The month shown is February; the date given for it is any of its days.
    let first = ymd(2024, 2, 10);
    let main = ymd(2024, 1, 1);
    let last = [DateProperty::LastDayOfMonth];
    let after = [DateProperty::AfterLastDayOfMonth];
    assert!(ymd(2024, 2, 29).satisfy_all(first, main, &[], &last));
    assert!(!ymd(2024, 3, 31).satisfy_all(first, main, &[], &last));
    assert!(ymd(2024, 3, 1).satisfy_all(first, main, &[], &after));
    assert!(!ymd(2024, 2, 29).satisfy_all(first, main, &[], &after));
}

#[test]
fn heavier_rule_is_applied_later() {
    let main = ymd(2021, 3, 10);
    let first = ymd(2021, 3, 1);
    let theme = vec![
        rule(vec![DateProperty::CurrentDate], vec![StyleName::FGRed], 5),
        rule(vec![], vec![StyleName::FGBlue, StyleName::Bold], 2),
        rule(vec![DateProperty::Even], vec![StyleName::FGGreen], 9),
    ];
    let directives = resolve(&main, &first, &main, &[], &theme, StyleType::Light);
    assert_eq!(
        directives,
        vec![StyleName::FGBlue, StyleName::Bold, StyleName::FGRed, StyleName::FGGreen]
    );
    assert_eq!(tostyle(directives).foreground, Some(TextColor::Green));
    // The order in the theme does not matter.
    let turned: Vec<DateStyle> = theme.iter().rev().cloned().collect();
    let directives = resolve(&main, &first, &main, &[], &turned, StyleType::Light);
    assert_eq!(
        directives,
        vec![StyleName::FGBlue, StyleName::Bold, StyleName::FGRed, StyleName::FGGreen]
    );
}

#[test]
fn rules_of_one_weight_stay_in_their_order() {
    let main = ymd(2021, 3, 10);
    let first = ymd(2021, 3, 1);
    let theme = vec![
        rule(vec![], vec![StyleName::FGRed], 1),
        rule(vec![], vec![StyleName::FGGreen], 0),
        rule(vec![], vec![StyleName::FGBlue], 1),
        rule(vec![], vec![StyleName::FGCyan], 0),
        rule(vec![], vec![StyleName::FGWhite], 1),
    ];
    let directives = resolve(&main, &first, &main, &[], &theme, StyleType::Light);
    assert_eq!(
        directives,
        vec![
            StyleName::FGGreen,
            StyleName::FGCyan,
            StyleName::FGRed,
            StyleName::FGBlue,
            StyleName::FGWhite,
        ]
    );
}

#[test]
fn event_styles_come_behind_theme_styles_of_their_weight() {
    let main = ymd(2021, 3, 10);
    let first = ymd(2021, 3, 1);
    let theme = vec![
        rule(vec![DateProperty::IsEvent], vec![StyleName::Bold], 0),
        rule(vec![DateProperty::CurrentDate], vec![StyleName::BGRed], 1),
    ];
    let events = vec![
        occurrence(
            ymd(2021, 3, 9),
            Style { stylenames: vec![StyleName::Blink], weight: 0, styletype: StyleType::Any },
        ),
        occurrence(
            main,
            Style { stylenames: vec![StyleName::FGCyan], weight: 0, styletype: StyleType::Any },
        ),
        occurrence(
            main,
            Style { stylenames: vec![StyleName::Hidden], weight: 2, styletype: StyleType::Any },
        ),
        occurrence(
            main,
            Style { stylenames: vec![StyleName::Italic], weight: 0, styletype: StyleType::Any },
        ),
    ];
    let directives = resolve(&main, &first, &main, &events, &theme, StyleType::Light);
    assert_eq!(
        directives,
        vec![
            StyleName::Bold,
            StyleName::FGCyan,
            StyleName::Italic,
            StyleName::BGRed,
            StyleName::Hidden,
        ]
    );
    // The heavier Hidden takes the background of the lighter rule away.
    let style = tostyle(directives);
    assert!(style.hidden);
    assert_eq!(style.background, None);
    let other = resolve(&ymd(2021, 3, 9), &first, &main, &events, &theme, StyleType::Light);
    assert_eq!(other, vec![StyleName::Bold, StyleName::Blink]);
}

#[test]
fn the_same_event_twice_changes_nothing_of_the_style() {
    let main = ymd(2021, 3, 10);
    let first = ymd(2021, 3, 1);
    let style = Style {
        stylenames: vec![StyleName::Underline, StyleName::FGCyan],
        weight: 0,
        styletype: StyleType::Any,
    };
    let once = vec![occurrence(main, style.clone())];
    let twice = vec![occurrence(main, style.clone()), occurrence(main, style)];
    let theme = Theme::default();
    let single = resolve(&main, &first, &main, &once, &theme.date, StyleType::Light);
    let double = resolve(&main, &first, &main, &twice, &theme.date, StyleType::Light);
    assert_eq!(tostyle(single), tostyle(double));
}

#[test]
fn styles_of_the_other_theme_are_left_out() {
    let main = ymd(2021, 3, 10);
    let first = ymd(2021, 3, 1);
    let theme = vec![
        rule_for(StyleType::Dark, vec![], vec![StyleName::FGWhite], 0),
        rule_for(StyleType::Light, vec![], vec![StyleName::FGBlack], 0),
        rule_for(StyleType::Any, vec![], vec![StyleName::Bold], 0),
    ];
    let events = vec![
        occurrence(
            main,
            Style { stylenames: vec![StyleName::BGBlue], weight: 0, styletype: StyleType::Dark },
        ),
        occurrence(
            main,
            Style { stylenames: vec![StyleName::BGYellow], weight: 0, styletype: StyleType::Light },
        ),
    ];
    let dark = resolve(&main, &first, &main, &events, &theme, StyleType::Dark);
    assert_eq!(dark, vec![StyleName::FGWhite, StyleName::Bold, StyleName::BGBlue]);
    let light = resolve(&main, &first, &main, &events, &theme, StyleType::Light);
    assert_eq!(light, vec![StyleName::FGBlack, StyleName::Bold, StyleName::BGYellow]);
    // Asked for styles made for both themes, only those are used.
    let any = resolve(&main, &first, &main, &events, &theme, StyleType::Any);
    assert_eq!(any, vec![StyleName::Bold]);
}

#[test]
fn resolving_again_gives_the_same() {
    let main = ymd(2021, 3, 10);
    let first = ymd(2021, 3, 1);
    let theme = Theme::default();
    let events = vec![occurrence(main, Style::default())];
    for day in ymd(2021, 3, 1).month_full_week(false) {
        let once = resolve(&day, &first, &main, &events, &theme.date, StyleType::Light);
        let again = resolve(&day, &first, &main, &events, &theme.date, StyleType::Light);
        assert_eq!(once, again);
    }
}

#[test]
fn styler_reads_dates_and_gives_codes() {
    let styler = default_styler(vec![]);
    assert_eq!(styler.call("1970-01-01", None), "\u{1b}[1m\u{1b}[4m");
    assert_eq!(styler.call("1970-01-01", Some("1970-01-01")), "\u{1b}[1m\u{1b}[4m");
    // Any day of the month stands for the month.
    assert_eq!(styler.call("1970-02-01", Some("1970-01-20")), "\u{1b}[8m");
    assert_eq!(styler.call("1969-12-31", Some("1970-01-01")), "\u{1b}[8m");
    assert_eq!(styler.call("1969-12-31", None), "");
    // A month that is no date is the month of the day.
    assert_eq!(styler.call("1970-02-01", Some("January")), "");
    assert_eq!(styler.call("1970-01-15", None), "");
    // What is no date comes back as it is.
    assert_eq!(styler.call("someday", None), "someday");
    assert_eq!(styler.call("1970-02-30", Some("1970-02-01")), "1970-02-30");
    assert_eq!(styler.call("", None), "");
}

#[test]
fn styler_uses_the_styles_of_its_theme_kind() {
    let theme = Theme {
        date: vec![
            rule_for(StyleType::Dark, vec![], vec![StyleName::FGWhite], 0),
            rule_for(StyleType::Light, vec![], vec![StyleName::FGBlack], 0),
        ],
    };
    let main = CalendarDate::default();
    let dark = DateStyler::new(vec![], main, theme.clone(), StyleType::Dark);
    let light = DateStyler::new(vec![], main, theme, StyleType::Light);
    assert_eq!(dark.call("1970-01-01", None), "\u{1b}[37m");
    assert_eq!(light.call("1970-01-01", None), "\u{1b}[30m");
    assert_eq!(dark.style(&main, &main), "\u{1b}[37m");
}

#[test]
fn event_is_styled_by_its_directives() {
    let event = occurrence(
        CalendarDate::default(),
        Style {
            stylenames: vec![StyleName::Underline, StyleName::FGCyan],
            weight: 0,
            styletype: StyleType::Any,
        },
    );
    assert_eq!(style_event(&event), "\u{1b}[4m\u{1b}[36m");
}
