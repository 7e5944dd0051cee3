//! Months side by side: the grids of months put into rows of so many columns,
//! and each row cut into lines of one week of every month.

use crate::date::{is_day_run, lemma_precedes_is_fewer_days, CalendarDate};
use crate::grid::{is_month_grid, lemma_month_grid};
use vstd::arithmetic::div_mod::{lemma_fundamental_div_mod, lemma_fundamental_div_mod_converse};
use vstd::prelude::*;

verus! {

/// The days of each month of `months`, in their order.
pub open spec fn month_days(months: Seq<Vec<CalendarDate>>) -> Seq<Seq<CalendarDate>> {
    Seq::new(months.len(), |i: int| months[i]@)
}

/// The number of rows that `months` months take with `columns` months in a
/// row: the last row may hold fewer, and no row is empty.
pub open spec fn row_count(months: int, columns: int) -> int {
    if months % columns == 0 {
        months / columns
    } else {
        months / columns + 1
    }
}

/// The number of months in the row `row`: `columns`, or what is left of
/// `months` months for the last row.
pub open spec fn row_width(months: int, columns: int, row: int) -> int {
    if (row + 1) * columns <= months {
        columns
    } else {
        months - row * columns
    }
}

/// What stands in the row `row` where `items` stand `columns` in a row.
pub open spec fn row_of<T>(items: Seq<T>, columns: int, row: int) -> Seq<T> {
    items.subrange(row * columns, row * columns + row_width(items.len() as int, columns, row))
}

/// The number of weeks of the month of `row` that has the most.
pub open spec fn weeks_of(row: Seq<Seq<CalendarDate>>) -> int
    decreases row.len(),
{
    if row.len() == 0 {
        0
    } else {
        let before = weeks_of(row.drop_last());
        let weeks = row.last().len() as int / 7;
        if weeks > before {
            weeks
        } else {
            before
        }
    }
}

/// What stands at `at` in the line `line` of a row: the months of the row
/// follow one another with 7 places each, and a month that has no week
/// `line` leaves its places empty.
pub open spec fn day_at(row: Seq<Seq<CalendarDate>>, line: int, at: int) -> Option<CalendarDate> {
    let month = row[at / 7];
    let i = line * 7 + at % 7;
    if i < month.len() {
        Some(month[i])
    } else {
        None
    }
}

/// `lines` are the lines of `row`: as many as the longest month has weeks,
/// each with 7 places for every month.
pub open spec fn is_week_lines(lines: Seq<Vec<Option<CalendarDate>>>, row: Seq<Seq<CalendarDate>>) -> bool {
    &&& lines.len() == weeks_of(row)
    &&& forall|l: int| 0 <= l < lines.len() ==> (#[trigger] lines[l])@.len() == 7 * row.len()
    &&& forall|l: int, a: int|
        0 <= l < lines.len() && 0 <= a < 7 * row.len() ==> #[trigger] lines[l]@[a] == day_at(
            row,
            l,
            a,
        )
}

/// The product with one more is the product and the other factor.
proof fn lemma_next_row(rows: int, columns: int)
    by (nonlinear_arith)
    ensures
        (rows + 1) * columns == rows * columns + columns,
{
}

/// An earlier row begins so many months earlier that it is full.
proof fn lemma_row_before(row: int, rows: int, columns: int)
    by (nonlinear_arith)
    requires
        0 <= row < rows,
        columns > 0,
    ensures
        (row + 1) * columns <= rows * columns,
        0 <= row * columns,
{
}

/// Every row begins within the months and holds at least one and at most
/// `columns` of them.
pub proof fn lemma_row_bounds(months: int, columns: int, row: int)
    requires
        columns > 0,
        months >= 0,
        0 <= row < row_count(months, columns),
    ensures
        0 <= row * columns < months,
        0 < row_width(months, columns, row) <= columns,
        row * columns + row_width(months, columns, row) <= months,
{
    let full = months / columns;
    lemma_fundamental_div_mod(months, columns);
    assert(columns * full == full * columns) by (nonlinear_arith);
    lemma_next_row(row, columns);
    if row < full {
        lemma_row_before(row, full, columns);
    } else {
        lemma_next_row(full, columns);
        lemma_row_before(0, 1, columns);
        if full > 0 {
            lemma_row_before(0, full, columns);
        }
    }
}

/// Puts `months` into rows of `columns` months: the months stay in their
/// order, every row but the last is full, and the last row holds what is
/// left, without any month made up to fill it.
pub fn chunk_into_columns(months: &Vec<Vec<CalendarDate>>, columns: usize) -> (rows: Vec<
    Vec<Vec<CalendarDate>>,
>)
    requires
        columns > 0,
    ensures
        rows@.len() == row_count(months@.len() as int, columns as int),
        forall|r: int|
            0 <= r < rows@.len() ==> (#[trigger] rows@[r])@.len() == row_width(
                months@.len() as int,
                columns as int,
                r,
            ) && rows@[r]@.len() > 0,
        forall|r: int|
            0 <= r < rows@.len() ==> month_days((#[trigger] rows@[r])@) == row_of(
                month_days(months@),
                columns as int,
                r,
            ),
{
    let mut rows: Vec<Vec<Vec<CalendarDate>>> = Vec::new();
    let mut row: Vec<Vec<CalendarDate>> = Vec::new();
    let mut i: usize = 0;
    assert(0 * columns == 0) by (nonlinear_arith);
    while i < months.len()
        invariant
            columns > 0,
            i <= months@.len(),
            row@.len() < columns,
            i == rows@.len() * columns + row@.len(),
            forall|r: int| 0 <= r < rows@.len() ==> (#[trigger] rows@[r])@.len() == columns,
            forall|r: int, c: int|
                0 <= r < rows@.len() && 0 <= c < columns ==> (#[trigger] rows@[r]@[c])@
                    == months@[r * columns + c]@,
            forall|c: int|
                0 <= c < row@.len() ==> (#[trigger] row@[c])@ == months@[rows@.len() * columns
                    + c]@,
        decreases months@.len() - i,
    {
        row.push(months[i].clone());
        i += 1;
        if row.len() == columns {
            proof {
                lemma_next_row(rows@.len() as int, columns as int);
            }
            rows.push(row);
            row = Vec::new();
        }
    }
    let ghost full = rows@.len() as int;
    let ghost left = row@.len() as int;
    if row.len() > 0 {
        rows.push(row);
    }
    proof {
        let n = months@.len() as int;
        let width = columns as int;
        lemma_fundamental_div_mod_converse(n, width, full, left);
        lemma_next_row(full, width);
        assert forall|r: int| 0 <= r < rows@.len() implies (#[trigger] rows@[r])@.len()
            == row_width(n, width, r) && rows@[r]@.len() > 0 && month_days(rows@[r]@) == row_of(
            month_days(months@),
            width,
            r,
        ) by {
            if r < full {
                lemma_row_before(r, full, width);
                lemma_next_row(r, width);
            }
            assert(month_days(rows@[r]@) =~= row_of(month_days(months@), width, r));
        }
    }
    rows
}

/// The number of weeks of the month of `row` that has the most.
fn most_weeks(row: &Vec<Vec<CalendarDate>>) -> (weeks: usize)
    ensures
        weeks == weeks_of(month_days(row@)),
{
    let ghost months = month_days(row@);
    let mut weeks: usize = 0;
    let mut m: usize = 0;
    assert(months.take(0) =~= Seq::<Seq<CalendarDate>>::empty());
    while m < row.len()
        invariant
            m <= row@.len(),
            months == month_days(row@),
            weeks == weeks_of(months.take(m as int)),
        decreases row@.len() - m,
    {
        assert(months.take(m + 1).drop_last() =~= months.take(m as int));
        let here = row[m].len() / 7;
        if here > weeks {
            weeks = here;
        }
        m += 1;
    }
    assert(months.take(months.len() as int) =~= months);
    weeks
}

/// The lines of a row of months: one line for each week, and in every line
/// 7 places for every month of the row, which hold the days of that week of
/// the month, or nothing where the month has no such week.
pub fn week_lines(row: &Vec<Vec<CalendarDate>>) -> (lines: Vec<Vec<Option<CalendarDate>>>)
    requires
        forall|m: int| 0 <= m < row@.len() ==> (#[trigger] row@[m])@.len() % 7 == 0,
    ensures
        is_week_lines(lines@, month_days(row@)),
{
    let ghost months = month_days(row@);
    let weeks = most_weeks(row);
    let mut lines: Vec<Vec<Option<CalendarDate>>> = Vec::new();
    let mut l: usize = 0;
    while l < weeks
        invariant
            l <= weeks,
            weeks == weeks_of(months),
            months == month_days(row@),
            forall|m: int| 0 <= m < row@.len() ==> (#[trigger] row@[m])@.len() % 7 == 0,
            lines@.len() == l,
            forall|k: int| 0 <= k < l ==> (#[trigger] lines@[k])@.len() == 7 * row@.len(),
            forall|k: int, a: int|
                0 <= k < l && 0 <= a < 7 * row@.len() ==> #[trigger] lines@[k]@[a] == day_at(
                    months,
                    k,
                    a,
                ),
        decreases weeks - l,
    {
        let mut line: Vec<Option<CalendarDate>> = Vec::new();
        let mut m: usize = 0;
        while m < row.len()
            invariant
                m <= row@.len(),
                months == month_days(row@),
                forall|n: int| 0 <= n < row@.len() ==> (#[trigger] row@[n])@.len() % 7 == 0,
                line@.len() == 7 * m,
                forall|a: int| 0 <= a < 7 * m ==> #[trigger] line@[a] == day_at(months, l as int, a),
            decreases row@.len() - m,
        {
            let month = &row[m];
            assert(month@.len() % 7 == 0);
            let days = month.len();
            let has_week = l < days / 7;
            let mut d: usize = 0;
            while d < 7
                invariant
                    d <= 7,
                    m < row@.len(),
                    months == month_days(row@),
                    month@ == row@[m as int]@,
                    month@.len() % 7 == 0,
                    days == month@.len(),
                    has_week == (l < days / 7),
                    line@.len() == 7 * m + d,
                    forall|a: int|
                        0 <= a < 7 * m + d ==> #[trigger] line@[a] == day_at(months, l as int, a),
                decreases 7 - d,
            {
                let ghost at = (7 * m + d) as int;
                assert(at / 7 == m && at % 7 == d);
                if has_week {
                    line.push(Some(month[l * 7 + d]));
                } else {
                    line.push(None);
                }
                d += 1;
            }
            m += 1;
        }
        lines.push(line);
        l += 1;
    }
    lines
}

/// The grids of months as lines to print: the months stand `columns` in a
/// row, and each row is cut into the lines of [`week_lines`].
pub fn dates_to_columns(dates: Vec<Vec<CalendarDate>>, columns: usize) -> (rows: Vec<
    Vec<Vec<Option<CalendarDate>>>,
>)
    requires
        columns > 0,
        forall|m: int| 0 <= m < dates@.len() ==> (#[trigger] dates@[m])@.len() % 7 == 0,
    ensures
        rows@.len() == row_count(dates@.len() as int, columns as int),
        forall|r: int|
            0 <= r < rows@.len() ==> is_week_lines(
                (#[trigger] rows@[r])@,
                row_of(month_days(dates@), columns as int, r),
            ),
{
    let months_columns = chunk_into_columns(&dates, columns);
    let mut ret: Vec<Vec<Vec<Option<CalendarDate>>>> = Vec::new();
    let mut r: usize = 0;
    while r < months_columns.len()
        invariant
            r <= months_columns@.len(),
            columns > 0,
            forall|m: int| 0 <= m < dates@.len() ==> (#[trigger] dates@[m])@.len() % 7 == 0,
            months_columns@.len() == row_count(dates@.len() as int, columns as int),
            forall|k: int|
                0 <= k < months_columns@.len() ==> (#[trigger] months_columns@[k])@.len()
                    == row_width(dates@.len() as int, columns as int, k)
                    && months_columns@[k]@.len() > 0,
            forall|k: int|
                0 <= k < months_columns@.len() ==> month_days((#[trigger] months_columns@[k])@)
                    == row_of(month_days(dates@), columns as int, k),
            ret@.len() == r,
            forall|k: int|
                0 <= k < r ==> is_week_lines(
                    (#[trigger] ret@[k])@,
                    row_of(month_days(dates@), columns as int, k),
                ),
        decreases months_columns@.len() - r,
    {
        let row = &months_columns[r];
        proof {
            let whole = month_days(dates@);
            let part = row_of(whole, columns as int, r as int);
            lemma_row_bounds(dates@.len() as int, columns as int, r as int);
            assert(month_days(row@) == part);
            assert forall|m: int| 0 <= m < row@.len() implies (#[trigger] row@[m])@.len() % 7
                == 0 by {
                assert(month_days(row@)[m] == row@[m]@);
                assert(part[m] == whole[r * columns + m]);
                assert(whole[r * columns + m] == dates@[r * columns + m]@);
            }
        }
        ret.push(week_lines(row));
        r += 1;
    }
    ret
}

/// Whether `month` is the first day of the month of one of the days `days`.
pub open spec fn is_month_of_one(month: CalendarDate, days: Seq<CalendarDate>) -> bool {
    exists|k: int| 0 <= k < days.len() && (#[trigger] days[k]).month_start() == month
}

/// `shown` holds the months of the days `months`, each month once, the
/// earliest first.
pub open spec fn is_months_shown(shown: Seq<CalendarDate>, months: Seq<CalendarDate>) -> bool {
    &&& forall|i: int, j: int|
        0 <= i < j < shown.len() ==> (#[trigger] shown[i]).precedes(#[trigger] shown[j])
    &&& forall|i: int| 0 <= i < shown.len() ==> is_month_of_one(#[trigger] shown[i], months)
    &&& forall|k: int| 0 <= k < months.len() ==> shown.contains((#[trigger] months[k]).month_start())
}

/// The number of weeks of the grid of the month of `month`.
pub open spec fn weeks_in(month: CalendarDate, from_sunday: bool) -> int {
    (month.grid_end_days(from_sunday) - month.grid_start_days(from_sunday) + 1) / 7
}

/// `lines` are the whole weeks of the months `months`, with weeks from
/// Sunday: as many lines as the month with the fewest weeks has weeks, and
/// in the line `l` the week of every month that begins `l` weeks after the
/// grid of the month begins.
pub open spec fn is_row_of_weeks(lines: Seq<Vec<Vec<CalendarDate>>>, months: Seq<CalendarDate>) -> bool {
    &&& exists|c: int|
        0 <= c < months.len() && lines.len() == weeks_in(#[trigger] months[c], true)
    &&& forall|l: int| 0 <= l < lines.len() ==> (#[trigger] lines[l])@.len() == months.len()
    &&& forall|l: int, c: int|
        0 <= l < lines.len() && 0 <= c < months.len() ==> is_day_run(
            (#[trigger] lines[l]@[c])@,
            months[c].grid_start_days(true) + 7 * l,
            months[c].grid_start_days(true) + 7 * l + 6,
        ) && l < weeks_in(months[c], true)
}

/// The number of weeks of the month of `row` that has the fewest, and 0 for
/// a row without months.
pub open spec fn fewest_weeks(row: Seq<Seq<CalendarDate>>) -> int
    decreases row.len(),
{
    if row.len() == 0 {
        0
    } else if row.len() == 1 {
        row.last().len() as int / 7
    } else {
        let before = fewest_weeks(row.drop_last());
        let weeks = row.last().len() as int / 7;
        if weeks < before {
            weeks
        } else {
            before
        }
    }
}

/// The months of the days `months`, each month once, the earliest first, as
/// the first days of the months.
pub fn distinct_months(months: &Vec<CalendarDate>) -> (shown: Vec<CalendarDate>)
    requires
        forall|k: int| 0 <= k < months@.len() ==> (#[trigger] months@[k]).wf(),
    ensures
        is_months_shown(shown@, months@),
        forall|i: int| 0 <= i < shown@.len() ==> (#[trigger] shown@[i]).wf() && shown@[i].day == 1,
{
    let mut shown: Vec<CalendarDate> = Vec::new();
    let mut n: usize = 0;
    while n < months.len()
        invariant
            n <= months@.len(),
            forall|k: int| 0 <= k < months@.len() ==> (#[trigger] months@[k]).wf(),
            forall|i: int| 0 <= i < shown@.len() ==> (#[trigger] shown@[i]).wf() && shown@[i].day == 1,
            is_months_shown(shown@, months@.take(n as int)),
        decreases months@.len() - n,
    {
        let month = months[n].first_day_of_month();
        let mut at: usize = 0;
        while at < shown.len() && shown[at].is_before(&month)
            invariant
                at <= shown@.len(),
                forall|i: int| 0 <= i < at ==> (#[trigger] shown@[i]).precedes(month),
            decreases shown@.len() - at,
        {
            at += 1;
        }
        let ghost before = shown@;
        let ghost taken = months@.take(n as int);
        let ghost more = months@.take(n + 1);
        if at < shown.len() && shown[at] == month {
            proof {
                assert forall|i: int| 0 <= i < shown@.len() implies is_month_of_one(
                    #[trigger] shown@[i],
                    more,
                ) by {
                    assert(is_month_of_one(shown@[i], taken));
                    let k = choose|k: int|
                        0 <= k < taken.len() && (#[trigger] taken[k]).month_start() == shown@[i];
                    assert(more[k] == taken[k]);
                }
                assert forall|k: int| 0 <= k < more.len() implies shown@.contains(
                    (#[trigger] more[k]).month_start(),
                ) by {
                    if k < n {
                        assert(more[k] == taken[k]);
                    } else {
                        assert(shown@[at as int] == month);
                    }
                }
            }
        } else {
            shown.insert(at, month);
            proof {
                assert forall|i: int, j: int| 0 <= i < j < shown@.len() implies (
                #[trigger] shown@[i]).precedes(#[trigger] shown@[j]) by {
                    if j < at {
                        assert(shown@[i] == before[i] && shown@[j] == before[j]);
                    } else if j == at {
                        assert(shown@[i] == before[i]);
                    } else if i < at {
                        assert(shown@[i] == before[i] && shown@[j] == before[j - 1]);
                        assert(before[i].precedes(month));
                        assert(!before[at as int].precedes(month));
                    } else if i == at {
                        assert(shown@[j] == before[j - 1]);
                        assert(!before[at as int].precedes(month));
                        assert(before[at as int] != month);
                        if j - 1 > at {
                            assert(before[at as int].precedes(before[j - 1]));
                        }
                    } else {
                        assert(shown@[i] == before[i - 1] && shown@[j] == before[j - 1]);
                    }
                }
                assert forall|i: int| 0 <= i < shown@.len() implies is_month_of_one(
                    #[trigger] shown@[i],
                    more,
                ) by {
                    if i == at {
                        assert(more[n as int].month_start() == shown@[i]);
                    } else {
                        let old_i = if i < at {
                            i
                        } else {
                            i - 1
                        };
                        assert(shown@[i] == before[old_i]);
                        assert(is_month_of_one(before[old_i], taken));
                        let k = choose|k: int|
                            0 <= k < taken.len() && (#[trigger] taken[k]).month_start()
                                == before[old_i];
                        assert(more[k] == taken[k]);
                    }
                }
                assert forall|k: int| 0 <= k < more.len() implies shown@.contains(
                    (#[trigger] more[k]).month_start(),
                ) by {
                    if k < n {
                        assert(more[k] == taken[k]);
                        assert(before.contains(taken[k].month_start()));
                        let i = choose|i: int|
                            0 <= i < before.len() && before[i] == taken[k].month_start();
                        if i < at {
                            assert(shown@[i] == before[i]);
                        } else {
                            assert(shown@[i + 1] == before[i]);
                        }
                    } else {
                        assert(shown@[at as int] == month);
                    }
                }
            }
        }
        n += 1;
    }
    assert(months@.take(months@.len() as int) =~= months@);
    shown
}

/// The number of weeks of the month of `row` that has the fewest.
fn least_weeks(row: &Vec<Vec<CalendarDate>>) -> (weeks: usize)
    ensures
        weeks == fewest_weeks(month_days(row@)),
{
    let ghost months = month_days(row@);
    if row.len() == 0 {
        return 0;
    }
    let mut weeks: usize = row[0].len() / 7;
    let mut m: usize = 1;
    assert(months.take(1).drop_last() =~= months.take(0));
    while m < row.len()
        invariant
            1 <= m <= row@.len(),
            months == month_days(row@),
            weeks == fewest_weeks(months.take(m as int)),
        decreases row@.len() - m,
    {
        assert(months.take(m + 1).drop_last() =~= months.take(m as int));
        let here = row[m].len() / 7;
        if here < weeks {
            weeks = here;
        }
        m += 1;
    }
    assert(months.take(months.len() as int) =~= months);
    weeks
}

/// The whole weeks of a row of months, line by line: as many lines as the
/// month with the fewest weeks has weeks, and in every line the week of that
/// line of every month of the row.
pub fn full_weeks(row: &Vec<Vec<CalendarDate>>) -> (lines: Vec<Vec<Vec<CalendarDate>>>)
    ensures
        lines@.len() == fewest_weeks(month_days(row@)),
        forall|l: int| 0 <= l < lines@.len() ==> (#[trigger] lines@[l])@.len() == row@.len(),
        forall|c: int| 0 <= c < row@.len() ==> 7 * lines@.len() <= (#[trigger] row@[c])@.len(),
        forall|l: int, c: int|
            0 <= l < lines@.len() && 0 <= c < row@.len() ==> (#[trigger] lines@[l]@[c])@
                == row@[c]@.subrange(7 * l, 7 * l + 7),
{
    let weeks = least_weeks(row);
    let mut lines: Vec<Vec<Vec<CalendarDate>>> = Vec::new();
    let mut l: usize = 0;
    proof {
        lemma_fewest_weeks(month_days(row@));
        assert forall|c: int| 0 <= c < row@.len() implies 7 * weeks <= (#[trigger] row@[c])@.len() by {
            assert(month_days(row@)[c] == row@[c]@);
        }
    }
    while l < weeks
        invariant
            l <= weeks,
            forall|c: int| 0 <= c < row@.len() ==> 7 * weeks <= (#[trigger] row@[c])@.len(),
            lines@.len() == l,
            forall|k: int| 0 <= k < l ==> (#[trigger] lines@[k])@.len() == row@.len(),
            forall|k: int, c: int|
                0 <= k < l && 0 <= c < row@.len() ==> (#[trigger] lines@[k]@[c])@
                    == row@[c]@.subrange(7 * k, 7 * k + 7),
        decreases weeks - l,
    {
        let mut line: Vec<Vec<CalendarDate>> = Vec::new();
        let mut c: usize = 0;
        while c < row.len()
            invariant
                c <= row@.len(),
                l < weeks,
                forall|m: int| 0 <= m < row@.len() ==> 7 * weeks <= (#[trigger] row@[m])@.len(),
                line@.len() == c,
                forall|m: int|
                    0 <= m < c ==> (#[trigger] line@[m])@ == row@[m]@.subrange(7 * l, 7 * l + 7),
            decreases row@.len() - c,
        {
            let month = &row[c];
            assert(7 * weeks <= month@.len());
            let days = month.len();
            let mut week: Vec<CalendarDate> = Vec::new();
            let mut d: usize = 0;
            while d < 7
                invariant
                    d <= 7,
                    days == month@.len(),
                    7 * l + 7 <= month@.len(),
                    week@ == month@.subrange(7 * l, 7 * l + d),
                decreases 7 - d,
            {
                week.push(month[7 * l + d]);
                assert(week@ =~= month@.subrange(7 * l, 7 * l + d + 1));
                d += 1;
            }
            line.push(week);
            c += 1;
        }
        lines.push(line);
        l += 1;
    }
    lines
}

/// Every month of a row has at least as many weeks as the month with the
/// fewest.
pub proof fn lemma_fewest_weeks(row: Seq<Seq<CalendarDate>>)
    ensures
        forall|c: int| 0 <= c < row.len() ==> 7 * fewest_weeks(row) <= (#[trigger] row[c]).len(),
        fewest_weeks(row) >= 0,
    decreases row.len(),
{
    if row.len() > 1 {
        lemma_fewest_weeks(row.drop_last());
        assert forall|c: int| 0 <= c < row.len() implies 7 * fewest_weeks(row) <= (
        #[trigger] row[c]).len() by {
            if c < row.len() - 1 {
                assert(row.drop_last()[c] == row[c]);
            }
        }
    }
}

/// The whole weeks of a row of the grids of the months `months`.
fn row_weeks(row: &Vec<Vec<CalendarDate>>, Ghost(months): Ghost<Seq<CalendarDate>>) -> (lines: Vec<
    Vec<Vec<CalendarDate>>,
>)
    requires
        row@.len() == months.len(),
        row@.len() > 0,
        forall|c: int|
            0 <= c < months.len() ==> (#[trigger] months[c]).wf() && is_month_grid(
                row@[c]@,
                months[c],
                true,
            ),
    ensures
        is_row_of_weeks(lines@, months),
{
    let lines = full_weeks(row);
    proof {
        let days = month_days(row@);
        assert forall|c: int| 0 <= c < months.len() implies (#[trigger] months[c]).wf()
            && is_month_grid(days[c], months[c], true) by {
            assert(days[c] == row@[c]@);
        }
        assert forall|c: int| 0 <= c < days.len() implies 7 * lines@.len() <= (
        #[trigger] days[c]).len() by {
            assert(days[c] == row@[c]@);
        }
        assert forall|l: int, c: int|
            0 <= l < lines@.len() && 0 <= c < days.len() implies (#[trigger] lines@[l]@[c])@
            == days[c].subrange(7 * l, 7 * l + 7) by {
            assert(days[c] == row@[c]@);
        }
        lemma_full_weeks_of_months(lines@, days, months);
    }
    lines
}

/// The grids of the months of the days `months` as weeks to print, with
/// weeks from Sunday. Every month is shown once, the earliest first; the
/// months stand `columns` in a row, and a row has as many lines as its month
/// with the fewest weeks has weeks; a line holds the week of that line of
/// every month of the row.
pub fn months_into_columns(months: Vec<CalendarDate>, columns: usize) -> (rows: Vec<
    Vec<Vec<Vec<CalendarDate>>>,
>)
    requires
        columns > 0,
        forall|k: int|
            0 <= k < months@.len() ==> (#[trigger] months@[k]).wf() && months@[k].grid_fits(true),
    ensures
        exists|shown: Seq<CalendarDate>|
            {
                &&& is_months_shown(shown, months@)
                &&& rows@.len() == row_count(shown.len() as int, columns as int)
                &&& forall|r: int|
                    0 <= r < rows@.len() ==> is_row_of_weeks(
                        (#[trigger] rows@[r])@,
                        row_of(shown, columns as int, r),
                    )
            },
{
    let shown = distinct_months(&months);
    proof {
        assert forall|i: int| 0 <= i < shown@.len() implies (#[trigger] shown@[i]).grid_fits(
            true,
        ) by {
            assert(is_month_of_one(shown@[i], months@));
            let k = choose|k: int|
                0 <= k < months@.len() && (#[trigger] months@[k]).month_start() == shown@[i];
            assert(months@[k].grid_fits(true));
        }
    }
    let mut dates: Vec<Vec<CalendarDate>> = Vec::new();
    let mut i: usize = 0;
    while i < shown.len()
        invariant
            i <= shown@.len(),
            forall|k: int|
                0 <= k < shown@.len() ==> (#[trigger] shown@[k]).wf() && shown@[k].grid_fits(true),
            dates@.len() == i,
            forall|k: int| 0 <= k < i ==> is_month_grid((#[trigger] dates@[k])@, shown@[k], true),
        decreases shown@.len() - i,
    {
        dates.push(shown[i].month_full_week(true));
        i += 1;
    }
    let months_columns = chunk_into_columns(&dates, columns);
    let ghost whole = month_days(dates@);
    let mut ret: Vec<Vec<Vec<Vec<CalendarDate>>>> = Vec::new();
    let mut r: usize = 0;
    while r < months_columns.len()
        invariant
            r <= months_columns@.len(),
            columns > 0,
            whole == month_days(dates@),
            dates@.len() == shown@.len(),
            forall|k: int| 0 <= k < shown@.len() ==> (#[trigger] shown@[k]).wf(),
            forall|k: int|
                0 <= k < dates@.len() ==> is_month_grid((#[trigger] dates@[k])@, shown@[k], true),
            months_columns@.len() == row_count(dates@.len() as int, columns as int),
            forall|k: int|
                0 <= k < months_columns@.len() ==> (#[trigger] months_columns@[k])@.len()
                    == row_width(dates@.len() as int, columns as int, k),
            forall|k: int|
                0 <= k < months_columns@.len() ==> month_days((#[trigger] months_columns@[k])@)
                    == row_of(whole, columns as int, k),
            ret@.len() == r,
            forall|k: int|
                0 <= k < r ==> is_row_of_weeks(
                    (#[trigger] ret@[k])@,
                    row_of(shown@, columns as int, k),
                ),
        decreases months_columns@.len() - r,
    {
        let row = &months_columns[r];
        let ghost here = row_of(shown@, columns as int, r as int);
        proof {
            let part = row_of(whole, columns as int, r as int);
            lemma_row_bounds(dates@.len() as int, columns as int, r as int);
            assert(month_days(row@) == part);
            assert forall|c: int| 0 <= c < here.len() implies (#[trigger] here[c]).wf()
                && is_month_grid(row@[c]@, here[c], true) by {
                assert(here[c] == shown@[r * columns + c]);
                assert(month_days(row@)[c] == row@[c]@);
                assert(part[c] == whole[r * columns + c]);
                assert(whole[r * columns + c] == dates@[r * columns + c]@);
            }
        }
        let lines = row_weeks(row, Ghost(here));
        ret.push(lines);
        r += 1;
    }
    ret
}

/// The whole weeks of a row of month grids are weeks of the months: the week
/// in the line `l` of a month begins `l` weeks after its grid begins, every
/// month has a week for every line, and one month has no week more.
pub proof fn lemma_full_weeks_of_months(
    lines: Seq<Vec<Vec<CalendarDate>>>,
    row: Seq<Seq<CalendarDate>>,
    months: Seq<CalendarDate>,
)
    requires
        row.len() == months.len(),
        row.len() > 0,
        forall|c: int|
            0 <= c < months.len() ==> (#[trigger] months[c]).wf() && is_month_grid(
                row[c],
                months[c],
                true,
            ),
        lines.len() == fewest_weeks(row),
        forall|l: int| 0 <= l < lines.len() ==> (#[trigger] lines[l])@.len() == row.len(),
        forall|c: int| 0 <= c < row.len() ==> 7 * lines.len() <= (#[trigger] row[c]).len(),
        forall|l: int, c: int|
            0 <= l < lines.len() && 0 <= c < row.len() ==> (#[trigger] lines[l]@[c])@
                == row[c].subrange(7 * l, 7 * l + 7),
    ensures
        forall|l: int, c: int|
            0 <= l < lines.len() && 0 <= c < row.len() ==> is_day_run(
                (#[trigger] lines[l]@[c])@,
                months[c].grid_start_days(true) + 7 * l,
                months[c].grid_start_days(true) + 7 * l + 6,
            ) && l < weeks_in(months[c], true),
        exists|c: int| 0 <= c < months.len() && lines.len() == weeks_in(#[trigger] months[c], true),
{
    assert forall|c: int| 0 <= c < row.len() implies (#[trigger] row[c]).len() == 7 * weeks_in(
        months[c],
        true,
    ) by {
        assert(months[c].wf());
        lemma_month_grid(row[c], months[c], true);
    }
    assert forall|l: int, c: int| 0 <= l < lines.len() && 0 <= c < row.len() implies is_day_run(
        (#[trigger] lines[l]@[c])@,
        months[c].grid_start_days(true) + 7 * l,
        months[c].grid_start_days(true) + 7 * l + 6,
    ) && l < weeks_in(months[c], true) by {
        let week = lines[l]@[c]@;
        assert(week == row[c].subrange(7 * l, 7 * l + 7));
        assert(row[c].len() == 7 * weeks_in(months[c], true));
        assert(months[c].wf());
        assert forall|d: int| 0 <= d < week.len() implies (#[trigger] week[d]).wf()
            && week[d].epoch_days() == months[c].grid_start_days(true) + 7 * l + d by {
            assert(week[d] == row[c][7 * l + d]);
        }
    }
    lemma_fewest_is_of_a_month(row);
    let c = choose|c: int|
        0 <= c < row.len() && fewest_weeks(row) == (#[trigger] row[c]).len() as int / 7;
    assert(row[c].len() == 7 * weeks_in(months[c], true));
    assert(lines.len() == weeks_in(months[c], true));
}

/// The fewest weeks of a row with months are the weeks of one of its months.
pub proof fn lemma_fewest_is_of_a_month(row: Seq<Seq<CalendarDate>>)
    requires
        row.len() > 0,
    ensures
        exists|c: int| 0 <= c < row.len() && fewest_weeks(row) == (#[trigger] row[c]).len() as int / 7,
    decreases row.len(),
{
    if row.len() == 1 {
        assert(fewest_weeks(row) == row[0].len() as int / 7);
    } else {
        let rest = row.drop_last();
        lemma_fewest_is_of_a_month(rest);
        let c = choose|c: int|
            0 <= c < rest.len() && fewest_weeks(rest) == (#[trigger] rest[c]).len() as int / 7;
        assert(rest[c] == row[c]);
        if row.last().len() as int / 7 < fewest_weeks(rest) {
            assert(fewest_weeks(row) == row[row.len() - 1].len() as int / 7);
        } else {
            assert(fewest_weeks(row) == row[c].len() as int / 7);
        }
    }
}

/// What turns the grids of months into lines to print.
#[derive(Debug)]
pub struct DateToColumnsGenerator {}

impl DateToColumnsGenerator {
    /// What turns the grids of months into lines to print.
    pub fn new() -> Self {
        Self {  }
    }

    /// The grids of months as lines to print: see [`dates_to_columns`].
    pub fn call(&self, dates: Vec<Vec<CalendarDate>>, columns: usize) -> (rows: Vec<
        Vec<Vec<Option<CalendarDate>>>,
    >)
        requires
            columns > 0,
            forall|m: int| 0 <= m < dates@.len() ==> (#[trigger] dates@[m])@.len() % 7 == 0,
        ensures
            rows@.len() == row_count(dates@.len() as int, columns as int),
            forall|r: int|
                0 <= r < rows@.len() ==> is_week_lines(
                    (#[trigger] rows@[r])@,
                    row_of(month_days(dates@), columns as int, r),
                ),
    {
        dates_to_columns(dates, columns)
    }
}

} // verus!
