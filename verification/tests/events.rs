use carl::{
    recurrence_query, tostyle, CalendarDate, CalendarDateTime, Event, EventDateTime, EventInstance, Style, StyleName,
    StyleType,
};
use rrule::{RRuleSet, Tz};

fn ymd(year: i32, month: u32, day: u32) -> CalendarDate {
    CalendarDate::new(year, month, day)
}

fn at(year: i32, month: u32, day: u32, hour: u32) -> EventDateTime {
    EventDateTime::DateTime {
        date_time: CalendarDateTime { date: ymd(year, month, day), hour, minute: 0, second: 0 },
        offset: None,
    }
}

fn rules(text: &str) -> RRuleSet {
    text.parse::<RRuleSet>().unwrap()
}

fn dates(instances: &[EventInstance]) -> Vec<CalendarDate> {
    instances.iter().map(|instance| instance.date).collect()
}

fn cyan() -> Style {
    Style {
        stylenames: vec![StyleName::Underline, StyleName::FGCyan],
        weight: 3,
        styletype: StyleType::Dark,
    }
}

#[test]
fn test_event_default() {
    let event = Event::default();
    let date = CalendarDate::default();
    assert_eq!(event.start, EventDateTime::Date(date));
}

#[test]
fn test_event_get_end_date_case2() {
    let date = CalendarDate::default();
    let event = Event {
        start: EventDateTime::Date(date),
        end: EventDateTime::Date(date),
        ..Default::default()
    };
    assert_eq!(event.end.date(), date);
}

#[test]
fn test_event_get_end_date_case3() {
    let date = CalendarDate::default();
    let event = Event {
        start: EventDateTime::Date(date),
        end: EventDateTime::Date(date),
        ..Default::default()
    };
    assert_eq!(event.end.date(), date);
}

#[test]
fn default_event_does_not_recur() {
    let event = Event::default();
    assert_eq!(event.end, EventDateTime::Date(CalendarDate::default()));
    assert!(event.rrulesets.is_empty());
    assert_eq!(event.summary, "Default Event");
    let copy = event.clone();
    assert_eq!(copy.start, event.start);
    assert_eq!(copy.summary, event.summary);
}

#[test]
fn date_of_a_time_is_its_day() {
    assert_eq!(at(2021, 3, 4, 23).date(), ymd(2021, 3, 4));
    assert_eq!(EventDateTime::Date(ymd(2021, 3, 4)).date(), ymd(2021, 3, 4));
}

#[test]
fn daily_event_gives_one_instance_for_each_day_of_the_range() {
    let event = Event {
        start: at(2021, 1, 1, 9),
        end: at(2021, 1, 1, 10),
        rrulesets: vec![rules("DTSTART:20210101T090000Z\nRRULE:FREQ=DAILY")],
        summary: String::from("Every day"),
    };
    let instances = event.instances(&ymd(2021, 1, 1), &ymd(2021, 1, 7), &cyan(), &Tz::UTC);
    assert_eq!(
        dates(&instances),
        vec![
            ymd(2021, 1, 1),
            ymd(2021, 1, 2),
            ymd(2021, 1, 3),
            ymd(2021, 1, 4),
            ymd(2021, 1, 5),
            ymd(2021, 1, 6),
            ymd(2021, 1, 7),
        ]
    );
}

#[test]
fn daily_event_that_began_earlier_fills_the_range() {
    let event = Event {
        start: at(2020, 12, 1, 0),
        end: at(2020, 12, 1, 0),
        rrulesets: vec![rules("DTSTART:20201201T000000Z\nRRULE:FREQ=DAILY")],
        summary: String::from("Every day"),
    };
    let instances = event.instances(&ymd(2021, 1, 1), &ymd(2021, 1, 7), &cyan(), &Tz::UTC);
    assert_eq!(instances.len(), 7);
    assert_eq!(instances[0].date, ymd(2021, 1, 1));
    assert_eq!(instances[6].date, ymd(2021, 1, 7));
}

#[test]
fn yearly_event_gives_one_instance_in_a_month_of_a_later_year() {
    let event = Event {
        start: EventDateTime::Date(ymd(1970, 6, 15)),
        end: EventDateTime::Date(ymd(1970, 6, 15)),
        rrulesets: vec![rules("DTSTART:19700615T000000Z\nRRULE:FREQ=YEARLY")],
        summary: String::from("Every year"),
    };
    let instances = event.instances(&ymd(1971, 6, 1), &ymd(1971, 6, 30), &cyan(), &Tz::UTC);
    assert_eq!(dates(&instances), vec![ymd(1971, 6, 15)]);
    let instances = event.instances(&ymd(1971, 7, 1), &ymd(1971, 7, 31), &cyan(), &Tz::UTC);
    assert!(instances.is_empty());
}

#[test]
fn recurrences_on_the_ends_of_the_range_are_inside() {
    let event = Event {
        start: at(2021, 1, 1, 0),
        end: at(2021, 1, 1, 0),
        rrulesets: vec![rules("DTSTART:20210101T000000Z\nRRULE:FREQ=WEEKLY")],
        summary: String::from("Every week at midnight"),
    };
    let instances = event.instances(&ymd(2021, 1, 8), &ymd(2021, 1, 15), &cyan(), &Tz::UTC);
    assert_eq!(dates(&instances), vec![ymd(2021, 1, 8), ymd(2021, 1, 15)]);
    let late = Event {
        rrulesets: vec![rules("DTSTART:20210101T235959Z\nRRULE:FREQ=WEEKLY")],
        ..Default::default()
    };
    let instances = late.instances(&ymd(2021, 1, 8), &ymd(2021, 1, 15), &cyan(), &Tz::UTC);
    assert_eq!(dates(&instances), vec![ymd(2021, 1, 8), ymd(2021, 1, 15)]);
}

#[test]
fn no_more_recurrences_than_days_in_the_range() {
    let event = Event {
        rrulesets: vec![rules("DTSTART:20210101T000000Z\nRRULE:FREQ=HOURLY")],
        ..Default::default()
    };
    let instances = event.instances(&ymd(2021, 1, 1), &ymd(2021, 1, 2), &cyan(), &Tz::UTC);
    assert_eq!(dates(&instances), vec![ymd(2021, 1, 1), ymd(2021, 1, 1)]);
    let instances = event.instances(&ymd(2021, 1, 2), &ymd(2021, 1, 2), &cyan(), &Tz::UTC);
    assert_eq!(dates(&instances), vec![ymd(2021, 1, 2)]);
}

#[test]
fn recurrences_of_two_rule_sets_on_one_day_both_stay() {
    let daily = rules("DTSTART:20210101T090000Z\nRRULE:FREQ=DAILY");
    let event = Event {
        rrulesets: vec![daily.clone(), daily],
        ..Default::default()
    };
    let instances = event.instances(&ymd(2021, 1, 1), &ymd(2021, 1, 3), &cyan(), &Tz::UTC);
    assert_eq!(
        dates(&instances),
        vec![
            ymd(2021, 1, 1),
            ymd(2021, 1, 2),
            ymd(2021, 1, 3),
            ymd(2021, 1, 1),
            ymd(2021, 1, 2),
            ymd(2021, 1, 3),
        ]
    );
}

#[test]
fn rule_set_that_has_ended_gives_nothing_and_the_next_is_still_asked() {
    let ended = rules("DTSTART:20200101T090000Z\nRRULE:FREQ=DAILY;COUNT=3");
    let daily = rules("DTSTART:20210101T090000Z\nRRULE:FREQ=DAILY");
    let event = Event { rrulesets: vec![ended, daily], ..Default::default() };
    let instances = event.instances(&ymd(2021, 1, 1), &ymd(2021, 1, 2), &cyan(), &Tz::UTC);
    assert_eq!(dates(&instances), vec![ymd(2021, 1, 1), ymd(2021, 1, 2)]);
}

#[test]
fn recurring_event_does_not_walk_its_own_days() {
    // The days of the event itself do not count where it has rule sets.
    let event = Event {
        start: EventDateTime::Date(ymd(2021, 1, 1)),
        end: EventDateTime::Date(ymd(2021, 1, 5)),
        rrulesets: vec![rules("DTSTART:20210103T090000Z\nRRULE:FREQ=YEARLY")],
        summary: String::from("Once a year"),
    };
    let instances = event.instances(&ymd(2021, 1, 1), &ymd(2021, 1, 31), &cyan(), &Tz::UTC);
    assert_eq!(dates(&instances), vec![ymd(2021, 1, 3)]);
    // The instance carries the event with its rule sets.
    assert_eq!(instances[0].event.rrulesets, event.rrulesets);
    assert_eq!(instances[0].event.rrulesets.len(), 1);
    assert_eq!(instances[0].event.summary, "Once a year");
    assert_eq!(event.clone().rrulesets, event.rrulesets);
}

#[test]
fn instances_carry_the_event_the_style_and_its_codes() {
    let event = Event {
        start: EventDateTime::Date(ymd(2021, 1, 2)),
        end: EventDateTime::Date(ymd(2021, 1, 2)),
        rrulesets: vec![],
        summary: String::from("Fake Event"),
    };
    let style = cyan();
    let instances = event.instances(&ymd(2021, 1, 1), &ymd(2021, 1, 7), &style, &Tz::UTC);
    assert_eq!(instances.len(), 1);
    let instance = &instances[0];
    assert_eq!(instance.date, ymd(2021, 1, 2));
    assert_eq!(instance.event.summary, "Fake Event");
    assert_eq!(instance.event.start, event.start);
    assert_eq!(instance.event.end, event.end);
    assert_eq!(instance.style.stylenames, style.stylenames);
    assert_eq!(instance.style.weight, 3);
    assert_eq!(instance.style.styletype, StyleType::Dark);
    assert_eq!(instance.stylestr, "\u{1b}[4m\u{1b}[36m");
    assert_eq!(instance.stylestr, tostyle(style.stylenames.clone()).render());
    let copy = instance.clone();
    assert_eq!(copy.date, instance.date);
    assert_eq!(copy.stylestr, instance.stylestr);
}

#[test]
fn event_of_one_day_is_there_where_the_day_is_in_the_range() {
    let event = Event {
        start: EventDateTime::Date(ymd(2021, 1, 7)),
        end: EventDateTime::Date(ymd(2021, 1, 7)),
        ..Default::default()
    };
    let style = Style::default();
    let found = |begin, end| dates(&event.instances(&begin, &end, &style, &Tz::UTC));
    assert_eq!(found(ymd(2021, 1, 1), ymd(2021, 1, 7)), vec![ymd(2021, 1, 7)]);
    assert_eq!(found(ymd(2021, 1, 7), ymd(2021, 1, 7)), vec![ymd(2021, 1, 7)]);
    assert_eq!(found(ymd(2021, 1, 7), ymd(2021, 2, 7)), vec![ymd(2021, 1, 7)]);
    assert_eq!(found(ymd(2021, 1, 1), ymd(2021, 1, 6)), vec![]);
    assert_eq!(found(ymd(2021, 1, 8), ymd(2021, 1, 9)), vec![]);
}

#[test]
fn event_of_several_days_is_there_on_each_of_them_to_the_last() {
    let event = Event {
        start: at(2021, 1, 30, 18),
        end: at(2021, 2, 2, 9),
        ..Default::default()
    };
    let style = Style::default();
    let found = |begin, end| dates(&event.instances(&begin, &end, &style, &Tz::UTC));
    assert_eq!(
        found(ymd(2021, 1, 1), ymd(2021, 2, 28)),
        vec![ymd(2021, 1, 30), ymd(2021, 1, 31), ymd(2021, 2, 1), ymd(2021, 2, 2)]
    );
    assert_eq!(found(ymd(2021, 1, 31), ymd(2021, 2, 1)), vec![ymd(2021, 1, 31), ymd(2021, 2, 1)]);
    assert_eq!(found(ymd(2021, 2, 2), ymd(2021, 2, 9)), vec![ymd(2021, 2, 2)]);
    assert_eq!(found(ymd(2021, 1, 1), ymd(2021, 1, 30)), vec![ymd(2021, 1, 30)]);
    assert_eq!(found(ymd(2021, 2, 3), ymd(2021, 2, 9)), vec![]);
}

#[test]
fn whole_day_event_that_ends_the_day_after_is_one_day() {
    let event = Event {
        start: EventDateTime::Date(ymd(2021, 2, 28)),
        end: EventDateTime::Date(ymd(2021, 3, 1)),
        ..Default::default()
    };
    assert_eq!(event.last_date(), ymd(2021, 2, 28));
    let style = Style::default();
    let instances = event.instances(&ymd(2021, 1, 1), &ymd(2021, 12, 31), &style, &Tz::UTC);
    assert_eq!(dates(&instances), vec![ymd(2021, 2, 28)]);
}

#[test]
fn only_whole_day_events_of_one_day_are_cut() {
    let timed = Event { start: at(2021, 2, 28, 9), end: at(2021, 3, 1, 9), ..Default::default() };
    assert_eq!(timed.last_date(), ymd(2021, 3, 1));
    let mixed = Event {
        start: EventDateTime::Date(ymd(2021, 2, 28)),
        end: at(2021, 3, 1, 0),
        ..Default::default()
    };
    assert_eq!(mixed.last_date(), ymd(2021, 3, 1));
    let longer = Event {
        start: EventDateTime::Date(ymd(2021, 2, 27)),
        end: EventDateTime::Date(ymd(2021, 3, 1)),
        ..Default::default()
    };
    assert_eq!(longer.last_date(), ymd(2021, 3, 1));
    let style = Style::default();
    let instances = longer.instances(&ymd(2021, 1, 1), &ymd(2021, 12, 31), &style, &Tz::UTC);
    assert_eq!(dates(&instances), vec![ymd(2021, 2, 27), ymd(2021, 2, 28), ymd(2021, 3, 1)]);
    let same = Event::default();
    assert_eq!(same.last_date(), CalendarDate::default());
}

#[test]
fn event_that_ends_before_it_begins_is_nowhere() {
    let event = Event {
        start: EventDateTime::Date(ymd(2021, 3, 1)),
        end: EventDateTime::Date(ymd(2021, 2, 1)),
        ..Default::default()
    };
    let style = Style::default();
    let instances = event.instances(&ymd(2021, 1, 1), &ymd(2021, 12, 31), &style, &Tz::UTC);
    assert!(instances.is_empty());
}

#[test]
fn event_on_the_last_day_that_can_be_held() {
    let last = ymd(262142, 12, 31);
    let event = Event {
        start: EventDateTime::Date(ymd(262142, 12, 30)),
        end: EventDateTime::Date(last),
        ..Default::default()
    };
    // It ends the day after it begins: one day.
    assert_eq!(event.last_date(), ymd(262142, 12, 30));
    let event = Event {
        start: EventDateTime::Date(last),
        end: EventDateTime::Date(last),
        ..Default::default()
    };
    let style = Style::default();
    let instances = event.instances(&ymd(262142, 12, 1), &last, &style, &Tz::UTC);
    assert_eq!(dates(&instances), vec![last]);
}

#[test]
fn instances_on_given_days() {
    let event = Event::default();
    let days = vec![ymd(2021, 5, 5), ymd(2021, 5, 5), ymd(1999, 1, 1)];
    let instances = event.instances_on(&days, &cyan());
    assert_eq!(dates(&instances), days);
    for instance in instances.iter() {
        assert_eq!(instance.event.summary, "Default Event");
        assert_eq!(instance.style.weight, 3);
        assert_eq!(instance.stylestr, "\u{1b}[4m\u{1b}[36m");
    }
    assert!(event.instances_on(&vec![], &cyan()).is_empty());
}

#[test]
fn query_asks_for_whole_days_and_one_recurrence_a_day() {
    let begin = CalendarDateTime { date: ymd(2021, 1, 1), hour: 0, minute: 0, second: 0 };
    let end = CalendarDateTime { date: ymd(2021, 1, 7), hour: 23, minute: 59, second: 59 };
    assert_eq!(recurrence_query(&ymd(2021, 1, 1), &ymd(2021, 1, 7)), (begin, end, 7));
    let end = CalendarDateTime { date: ymd(2021, 1, 1), hour: 23, minute: 59, second: 59 };
    assert_eq!(recurrence_query(&ymd(2021, 1, 1), &ymd(2021, 1, 1)), (begin, end, 1));
    assert_eq!(recurrence_query(&ymd(1971, 6, 1), &ymd(1971, 6, 30)).2, 30);
    assert_eq!(recurrence_query(&ymd(2020, 1, 1), &ymd(2020, 12, 31)).2, 366);
    // 65535 days from 1 January 2000 end on 5 June 2179.
    assert_eq!(recurrence_query(&ymd(2000, 1, 1), &ymd(2179, 6, 4)).2, 65534);
    assert_eq!(recurrence_query(&ymd(2000, 1, 1), &ymd(2179, 6, 5)).2, 65535);
    assert_eq!(recurrence_query(&ymd(2000, 1, 1), &ymd(2179, 6, 6)).2, 65535);
    assert_eq!(recurrence_query(&ymd(-262143, 1, 1), &ymd(262142, 12, 31)).2, 65535);
}

#[test]
fn instances_of_what_rule_sets_gave_keep_the_order_and_the_range() {
    let event = Event { summary: String::from("Found"), ..Default::default() };
    let found = vec![
        vec![ymd(2021, 1, 3), ymd(2020, 12, 31), ymd(2021, 1, 1), ymd(2021, 1, 3)],
        vec![],
        vec![ymd(2021, 1, 8), ymd(2021, 1, 7), ymd(2021, 1, 3)],
        vec![ymd(2022, 1, 2)],
    ];
    let instances = event.instances_within(&found, &ymd(2021, 1, 1), &ymd(2021, 1, 7), &cyan());
    assert_eq!(
        dates(&instances),
        vec![ymd(2021, 1, 3), ymd(2021, 1, 1), ymd(2021, 1, 3), ymd(2021, 1, 7), ymd(2021, 1, 3)]
    );
    for instance in instances.iter() {
        assert_eq!(instance.event.summary, "Found");
        assert_eq!(instance.style.weight, 3);
        assert_eq!(instance.stylestr, "\u{1b}[4m\u{1b}[36m");
    }
    let one_day = event.instances_within(&found, &ymd(2021, 1, 3), &ymd(2021, 1, 3), &cyan());
    assert_eq!(dates(&one_day), vec![ymd(2021, 1, 3), ymd(2021, 1, 3), ymd(2021, 1, 3)]);
    assert!(event.instances_within(&vec![], &ymd(2021, 1, 1), &ymd(2021, 1, 7), &cyan()).is_empty());
    assert!(event
        .instances_within(&found, &ymd(2021, 2, 1), &ymd(2021, 2, 7), &cyan())
        .is_empty());
}

#[test]
fn recurrence_on_a_day_outside_the_range_in_its_own_zone_is_left_out() {
    // One o'clock at night on Kiritimati is eleven o'clock of the day before
    // in UTC: the recurrence of 8 January there begins within 7 January in UTC.
    let event = Event {
        rrulesets: vec![rules("DTSTART;TZID=Pacific/Kiritimati:20201201T010000\nRRULE:FREQ=DAILY")],
        ..Default::default()
    };
    let instances = event.instances(&ymd(2021, 1, 1), &ymd(2021, 1, 7), &cyan(), &Tz::UTC);
    assert_eq!(
        dates(&instances),
        vec![
            ymd(2021, 1, 2),
            ymd(2021, 1, 3),
            ymd(2021, 1, 4),
            ymd(2021, 1, 5),
            ymd(2021, 1, 6),
            ymd(2021, 1, 7),
        ]
    );
    // Asked in the zone of the rule set, every day of the range has one.
    let instances =
        event.instances(&ymd(2021, 1, 1), &ymd(2021, 1, 7), &cyan(), &Tz::Pacific__Kiritimati);
    assert_eq!(instances.len(), 7);
    assert_eq!(instances[0].date, ymd(2021, 1, 1));
    assert_eq!(instances[6].date, ymd(2021, 1, 7));
}

#[test]
fn every_instance_lies_within_the_range() {
    let events = vec![
        Event {
            rrulesets: vec![
                rules("DTSTART:20201231T233000Z\nRRULE:FREQ=HOURLY;INTERVAL=7"),
                rules("DTSTART;TZID=Pacific/Kiritimati:20201201T010000\nRRULE:FREQ=DAILY"),
                rules("DTSTART;TZID=Pacific/Pago_Pago:20201201T230000\nRRULE:FREQ=DAILY"),
            ],
            ..Default::default()
        },
        Event { start: at(2020, 12, 30, 8), end: at(2021, 1, 3, 8), ..Default::default() },
        Event {
            start: EventDateTime::Date(ymd(2021, 1, 6)),
            end: EventDateTime::Date(ymd(2021, 2, 6)),
            ..Default::default()
        },
    ];
    for zone in [Tz::UTC, Tz::Pacific__Kiritimati, Tz::Europe__Berlin] {
        for event in events.iter() {
            let instances = event.instances(&ymd(2021, 1, 2), &ymd(2021, 1, 7), &cyan(), &zone);
            for instance in instances.iter() {
                assert!(ymd(2021, 1, 2) <= instance.date && instance.date <= ymd(2021, 1, 7));
            }
        }
    }
}
