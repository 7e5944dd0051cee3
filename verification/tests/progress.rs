use carl::{days_in_year_left, days_per_year, CalendarDate, FilterError, Yearprogress};

#[test]
fn years_have_365_days_and_leap_years_366() {
    assert_eq!(days_per_year(CalendarDate::new(2021, 5, 5)), 365);
    assert_eq!(days_per_year(CalendarDate::new(2024, 5, 5)), 366);
    assert_eq!(days_per_year(CalendarDate::new(1900, 1, 1)), 365);
    assert_eq!(days_per_year(CalendarDate::new(2000, 12, 31)), 366);
}

#[test]
fn days_left_in_the_year() {
    assert_eq!(days_in_year_left("2021-01-01"), Ok(364));
    assert_eq!(days_in_year_left("2021-12-31"), Ok(0));
    assert_eq!(days_in_year_left("2024-01-01"), Ok(365));
    assert_eq!(days_in_year_left("2024-03-01"), Ok(305));
    assert_eq!(days_in_year_left("1970-02-10"), Ok(324));
}

#[test]
fn what_is_no_date_has_no_days_left() {
    assert_eq!(days_in_year_left("today"), Err(FilterError::NotADate));
    assert_eq!(days_in_year_left("2021-02-30"), Err(FilterError::NotADate));
    assert_eq!(days_in_year_left(""), Err(FilterError::NotADate));
    assert_eq!(FilterError::NotADate.message(), "not a date.");
}

#[test]
fn progress_of_a_day() {
    let progress = Yearprogress::new(CalendarDate::new(2021, 12, 10));
    assert_eq!(
        progress,
        Yearprogress { year: 2021, day: 344, days_in_year: 365, days_in_year_left: 21 }
    );
    let progress = Yearprogress::new(CalendarDate::new(2024, 2, 29));
    assert_eq!(
        progress,
        Yearprogress { year: 2024, day: 60, days_in_year: 366, days_in_year_left: 306 }
    );
}
