//! Date styling and layout engine of a terminal calendar.
//!
//! The crate expands a range of dates into month grids padded to whole weeks,
//! expands calendar events into the days on which they occur, and decides for
//! every day of a grid which style rules of a theme apply to it.

mod bindings;
pub mod calendar;
pub mod cli;
pub mod columns;
pub mod context;
pub mod date;
pub mod events;
pub mod grid;
pub mod order;
pub mod progress;
pub mod range;
pub mod style;
pub mod styler;
pub mod theme;

pub use cli::{Action, Cli, DateError, DateField};
pub use columns::{
    chunk_into_columns, dates_to_columns, distinct_months, full_weeks, months_into_columns,
    week_lines, DateToColumnsGenerator,
};
pub use context::{Config, Context, IcalStyle};
pub use date::CalendarDate;
pub use events::{
    recurrence_query, sort_by_date, CalendarDateTime, Event, EventDateTime, EventInstance, EventInstances, Events,
};
pub use grid::MonthFullWeeksIter;
pub use progress::{days_in_year_left, days_per_year, FilterError, Yearprogress};
pub use range::DateRange;
pub use style::{reset_style, tostyle, StyleConversion, TextColor, TextStyle};
pub use styler::{resolve, style_event, DateStyler};
pub use theme::{
    default_datestyle_vector, AnsiTermStyle, DateProperty, DateStyle, Style, StyleName, StyleType,
    Theme,
};
