use carl::{distinct_months, full_weeks, months_into_columns, sort_by_date};
use carl::{CalendarDate, Event, EventInstance, Style};

fn ymd(year: i32, month: u32, day: u32) -> CalendarDate {
    CalendarDate::new(year, month, day)
}

fn occurrence(date: CalendarDate, summary: &str) -> EventInstance {
    let event = Event { summary: summary.to_string(), ..Event::default() };
    EventInstance { date, event, style: Style::default(), stylestr: String::new() }
}

#[test]
fn months_are_shown_once_and_in_order() {
    let days = vec![
        ymd(2021, 3, 9),
        ymd(2020, 12, 31),
        ymd(2021, 3, 1),
        ymd(2021, 1, 15),
        ymd(2020, 12, 1),
        ymd(2021, 3, 31),
    ];
    assert_eq!(
        distinct_months(&days),
        vec![ymd(2020, 12, 1), ymd(2021, 1, 1), ymd(2021, 3, 1)]
    );
    assert!(distinct_months(&vec![]).is_empty());
}

#[test]
fn whole_weeks_stop_with_the_shortest_month() {
    // January 2021 has 6 weeks from Sunday, February 5.
    let row = vec![ymd(2021, 1, 1).month_full_week(true), ymd(2021, 2, 1).month_full_week(true)];
    let lines = full_weeks(&row);
    assert_eq!(lines.len(), 5);
    for (l, line) in lines.iter().enumerate() {
        assert_eq!(line.len(), 2);
        assert_eq!(line[0], row[0][7 * l..7 * l + 7].to_vec());
        assert_eq!(line[1], row[1][7 * l..7 * l + 7].to_vec());
    }
    assert!(full_weeks(&vec![]).is_empty());
}

#[test]
fn months_in_rows_of_weeks() {
    let days = vec![ymd(2021, 2, 14), ymd(2021, 1, 1), ymd(2021, 2, 1), ymd(2021, 5, 5)];
    let rows = months_into_columns(days, 2);
    assert_eq!(rows.len(), 2);
    // January and February 2021 from Sunday: 6 and 5 weeks.
    assert_eq!(rows[0].len(), 5);
    assert_eq!(rows[0][0].len(), 2);
    assert_eq!(rows[0][0][0][0], ymd(2020, 12, 27));
    assert_eq!(rows[0][0][0][6], ymd(2021, 1, 2));
    assert_eq!(rows[0][0][1][0], ymd(2021, 1, 31));
    assert_eq!(rows[0][4][1][6], ymd(2021, 3, 6));
    // May 2021 from Sunday: 6 weeks, alone in its row.
    assert_eq!(rows[1].len(), 6);
    assert_eq!(rows[1][0].len(), 1);
    assert_eq!(rows[1][0][0][0], ymd(2021, 4, 25));
    assert_eq!(rows[1][5][0][6], ymd(2021, 6, 5));
    for row in rows.iter() {
        for line in row.iter() {
            for week in line.iter() {
                assert_eq!(week.len(), 7);
            }
        }
    }
    assert!(months_into_columns(vec![], 3).is_empty());
}

#[test]
fn instances_in_the_order_of_their_days() {
    let instances = vec![
        occurrence(ymd(2021, 3, 9), "a"),
        occurrence(ymd(2021, 1, 1), "b"),
        occurrence(ymd(2021, 3, 9), "c"),
        occurrence(ymd(2020, 12, 31), "d"),
        occurrence(ymd(2021, 1, 1), "e"),
        occurrence(ymd(2021, 3, 9), "f"),
    ];
    let sorted = sort_by_date(&instances);
    let order: Vec<(CalendarDate, String)> =
        sorted.iter().map(|instance| (instance.date, instance.event.summary.clone())).collect();
    assert_eq!(
        order,
        vec![
            (ymd(2020, 12, 31), String::from("d")),
            (ymd(2021, 1, 1), String::from("b")),
            (ymd(2021, 1, 1), String::from("e")),
            (ymd(2021, 3, 9), String::from("a")),
            (ymd(2021, 3, 9), String::from("c")),
            (ymd(2021, 3, 9), String::from("f")),
        ]
    );
    assert!(sort_by_date(&[]).is_empty());
}
