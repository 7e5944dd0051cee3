//! Calendar events and the days on which they occur.

use crate::bindings::{clone_rule_sets, days_between, next_date, rule_set_dates};
use crate::date::{
    is_day_run, lemma_next_day, lemma_precedes_is_fewer_days, CalendarDate,
};
use crate::order::{by_key, insert_position};
use crate::range::DateRange;
use crate::styler::{lemma_filter_next, lemma_filter_none};
use crate::style::{ansi_codes, tostyle, TextStyle};
use crate::theme::{Style, StyleView};
use rrule::{RRuleSet, Tz};
use vstd::prelude::*;

verus! {

/// A date with a time of day.
#[derive(Clone, Copy, Debug, PartialEq, Eq, Structural)]
pub struct CalendarDateTime {
    pub date: CalendarDate,
    pub hour: u32,
    pub minute: u32,
    pub second: u32,
}

/// When an event begins or ends: at a time of a day, or on a day as a whole.
#[derive(Clone, Copy, Debug, PartialEq, Eq, Structural)]
pub enum EventDateTime {
    DateTime { date_time: CalendarDateTime, offset: Option<i32> },
    Date(CalendarDate),
}

impl EventDateTime {
    /// The day, without the time of day.
    pub open spec fn day(self) -> CalendarDate {
        match self {
            EventDateTime::Date(x) => x,
            EventDateTime::DateTime { date_time, .. } => date_time.date,
        }
    }

    /// The day, without the time of day.
    pub fn date(self) -> (date: CalendarDate)
        ensures
            date == self.day(),
    {
        match self {
            EventDateTime::Date(x) => x,
            EventDateTime::DateTime { date_time, .. } => date_time.date,
        }
    }
}

/// An event of a calendar: when it begins and ends, the rule sets by which
/// it recurs, and what it is called. An event without rule sets takes place
/// once, from the day it begins to the day it ends.
#[derive(Debug)]
pub struct Event {
    pub start: EventDateTime,
    pub end: EventDateTime,
    pub rrulesets: Vec<RRuleSet>,
    pub summary: String,
}

/// What an [`Event`] holds.
pub struct EventView {
    pub start: EventDateTime,
    pub end: EventDateTime,
    pub rrulesets: Seq<RRuleSet>,
    pub summary: Seq<char>,
}

impl View for Event {
    type V = EventView;

    open spec fn view(&self) -> EventView {
        EventView {
            start: self.start,
            end: self.end,
            rrulesets: self.rrulesets@,
            summary: self.summary@,
        }
    }
}

impl Clone for Event {
    fn clone(&self) -> (copy: Event)
        ensures
            copy@ == self@,
    {
        Event {
            start: self.start,
            end: self.end,
            rrulesets: clone_rule_sets(&self.rrulesets),
            summary: self.summary.clone(),
        }
    }
}

impl Default for Event {
    /// An event on 1 January 1970 that does not recur.
    fn default() -> (event: Event)
        ensures
            event@ == (EventView {
                start: EventDateTime::Date(CalendarDate { year: 1970, month: 1, day: 1 }),
                end: EventDateTime::Date(CalendarDate { year: 1970, month: 1, day: 1 }),
                rrulesets: Seq::empty(),
                summary: "Default Event"@,
            }),
    {
        Event {
            start: EventDateTime::Date(CalendarDate::default()),
            end: EventDateTime::Date(CalendarDate::default()),
            rrulesets: Vec::new(),
            summary: "Default Event".to_owned(),
        }
    }
}

/// One day on which an event takes place, with the style in which the day is
/// marked and the escape sequences of that style.
#[derive(Debug)]
pub struct EventInstance {
    pub date: CalendarDate,
    pub event: Event,
    pub style: Style,
    pub stylestr: String,
}

/// What an [`EventInstance`] holds.
pub struct EventInstanceView {
    pub date: CalendarDate,
    pub event: EventView,
    pub style: StyleView,
    pub stylestr: Seq<char>,
}

impl View for EventInstance {
    type V = EventInstanceView;

    open spec fn view(&self) -> EventInstanceView {
        EventInstanceView {
            date: self.date,
            event: self.event@,
            style: self.style@,
            stylestr: self.stylestr@,
        }
    }
}

impl Clone for EventInstance {
    fn clone(&self) -> (copy: EventInstance)
        ensures
            copy@ == self@,
    {
        EventInstance {
            date: self.date,
            event: self.event.clone(),
            style: self.style.clone(),
            stylestr: self.stylestr.clone(),
        }
    }
}

/// The instances of events.
pub type EventInstances = Vec<EventInstance>;

/// The events of a calendar.
pub type Events = Vec<Event>;

/// The days of event instances, in their order.
pub open spec fn instance_dates(instances: Seq<EventInstance>) -> Seq<CalendarDate> {
    Seq::new(instances.len(), |i: int| instances[i].date)
}

/// The views of event instances, in their order.
pub open spec fn instance_views(instances: Seq<EventInstance>) -> Seq<EventInstanceView> {
    Seq::new(instances.len(), |i: int| instances[i]@)
}

/// The views of borrowed event instances, in their order.
pub open spec fn borrowed_views(instances: Seq<&EventInstance>) -> Seq<EventInstanceView> {
    Seq::new(instances.len(), |i: int| instances[i]@)
}

/// The day of an instance as the number by which instances are ordered.
pub open spec fn day_of() -> spec_fn(EventInstanceView) -> int {
    |e: EventInstanceView| e.date.epoch_days()
}

/// Whether a day lies from `start` to `end`, both included.
pub open spec fn lies_within(start: CalendarDate, end: CalendarDate) -> spec_fn(CalendarDate) -> bool {
    |day: CalendarDate| (DateRange { begin: start, end }).holds(day)
}

/// The days of each list of `found`, in their order.
pub open spec fn day_lists(found: Seq<Vec<CalendarDate>>) -> Seq<Seq<CalendarDate>> {
    Seq::new(found.len(), |k: int| found[k]@)
}

/// Whether every day of every list of `found` exists.
pub open spec fn all_exist(found: Seq<Seq<CalendarDate>>) -> bool {
    forall|k: int, n: int|
        0 <= k < found.len() && 0 <= n < found[k].len() ==> (#[trigger] found[k][n]).wf()
}

/// The days of `found` that lie from `start` to `end`, in a row: those of
/// the first list first, and those of one list in the order of the list. A
/// day that stands twice stands twice in the row.
pub open spec fn days_within(
    found: Seq<Seq<CalendarDate>>,
    start: CalendarDate,
    end: CalendarDate,
) -> Seq<CalendarDate>
    decreases found.len(),
{
    if found.len() == 0 {
        Seq::empty()
    } else {
        days_within(found.drop_last(), start, end) + found.last().filter(lies_within(start, end))
    }
}

/// Of lists of at most `limit` days each, no more days lie within a range
/// than there are lists times `limit`.
pub proof fn lemma_days_within_count(
    found: Seq<Seq<CalendarDate>>,
    start: CalendarDate,
    end: CalendarDate,
    limit: int,
)
    requires
        forall|k: int| 0 <= k < found.len() ==> (#[trigger] found[k]).len() <= limit,
    ensures
        days_within(found, start, end).len() <= found.len() * limit,
    decreases found.len(),
{
    if found.len() > 0 {
        let rest = found.drop_last();
        assert forall|k: int| 0 <= k < rest.len() implies (#[trigger] rest[k]).len() <= limit by {
            assert(rest[k] == found[k]);
        }
        lemma_days_within_count(rest, start, end, limit);
        found.last().lemma_filter_len(lies_within(start, end));
        assert(found[found.len() - 1].len() <= limit);
        assert((found.len() - 1) * limit + limit == found.len() * limit) by (nonlinear_arith);
    } else {
        assert(found.len() * limit == 0) by (nonlinear_arith)
            requires
                found.len() == 0,
        ;
    }
}

/// Every day of `days_within` lies within the range.
pub proof fn lemma_days_within_range(
    found: Seq<Seq<CalendarDate>>,
    start: CalendarDate,
    end: CalendarDate,
)
    ensures
        forall|i: int|
            0 <= i < days_within(found, start, end).len() ==> lies_within(start, end)(
                #[trigger] days_within(found, start, end)[i],
            ),
    decreases found.len(),
{
    broadcast use vstd::seq_lib::group_filter_ensures;

    if found.len() > 0 {
        lemma_days_within_range(found.drop_last(), start, end);
        let before = days_within(found.drop_last(), start, end);
        let kept = found.last().filter(lies_within(start, end));
        assert forall|i: int| 0 <= i < days_within(found, start, end).len() implies lies_within(
            start,
            end,
        )(#[trigger] days_within(found, start, end)[i]) by {
            if i < before.len() {
                assert(days_within(found, start, end)[i] == before[i]);
            } else {
                assert(days_within(found, start, end)[i] == kept[i - before.len()]);
            }
        }
    }
}

/// The most recurrences that are asked of one rule set for the days from
/// `start` to `end`: one for each day, and never more than 65535.
pub open spec fn occurrence_limit(start: CalendarDate, end: CalendarDate) -> int {
    let days = end.epoch_days() - start.epoch_days() + 1;
    if days > 65535 {
        65535
    } else {
        days
    }
}

impl Event {
    /// The event begins and ends on days that exist.
    pub open spec fn wf(&self) -> bool {
        self.start.day().wf() && self.end.day().wf()
    }

    /// The last day on which the event takes place. An event given by days
    /// alone that ends on the day after it begins takes place on one day:
    /// such an end names the first day that the event does not touch.
    pub open spec fn last_day(&self) -> CalendarDate {
        match (self.start, self.end) {
            (EventDateTime::Date(begin), EventDateTime::Date(end)) => {
                if begin != CalendarDate::latest() && end == begin.next_day() {
                    begin
                } else {
                    end
                }
            },
            _ => self.end.day(),
        }
    }

    /// The instance of this event on `date`, marked with `style`.
    pub open spec fn occurrence(&self, date: CalendarDate, style: StyleView) -> EventInstanceView {
        EventInstanceView {
            date,
            event: self@,
            style,
            stylestr: ansi_codes(TextStyle::plain().apply_all(style.stylenames)),
        }
    }

    /// The last day on which the event takes place.
    pub fn last_date(&self) -> (last: CalendarDate)
        requires
            self.wf(),
        ensures
            last == self.last_day(),
    {
        match (self.start, self.end) {
            (EventDateTime::Date(begin), EventDateTime::Date(end)) => {
                match next_date(&begin) {
                    Some(after) => {
                        if end == after {
                            begin
                        } else {
                            end
                        }
                    },
                    None => end,
                }
            },
            _ => self.end.date(),
        }
    }

    /// The instance of this event on `date`, marked with `style`.
    fn instance(&self, date: CalendarDate, style: &Style) -> (instance: EventInstance)
        ensures
            instance@ == self.occurrence(date, style@),
    {
        EventInstance {
            date,
            event: self.clone(),
            style: style.clone(),
            stylestr: tostyle(style.stylenames.clone()).render(),
        }
    }

    /// An instance of this event on each of `dates`, in their order, marked
    /// with `style`.
    pub fn instances_on(&self, dates: &Vec<CalendarDate>, style: &Style) -> (instances: Vec<
        EventInstance,
    >)
        ensures
            instances@.len() == dates@.len(),
            forall|i: int|
                0 <= i < dates@.len() ==> (#[trigger] instances@[i])@ == self.occurrence(
                    dates@[i],
                    style@,
                ),
    {
        let mut instances: Vec<EventInstance> = Vec::new();
        let mut i: usize = 0;
        while i < dates.len()
            invariant
                i <= dates@.len(),
                instances@.len() == i,
                forall|j: int|
                    0 <= j < i ==> (#[trigger] instances@[j])@ == self.occurrence(
                        dates@[j],
                        style@,
                    ),
            decreases dates@.len() - i,
        {
            instances.push(self.instance(dates[i], style));
            i += 1;
        }
        instances
    }

    /// The days from `start` to `end` on which an event without rule sets
    /// takes place, each as an instance marked with `style`: every day from
    /// the day the event begins to the last day it touches that lies within
    /// `start` and `end`, in order.
    fn single_instances(&self, start: &CalendarDate, end: &CalendarDate, style: &Style) -> (instances:
        Vec<EventInstance>)
        requires
            self.wf(),
            start.wf(),
            end.wf(),
        ensures
            is_day_run(
                instance_dates(instances@),
                if self.start.day().epoch_days() >= start.epoch_days() {
                    self.start.day().epoch_days()
                } else {
                    start.epoch_days()
                },
                if self.last_day().epoch_days() <= end.epoch_days() {
                    self.last_day().epoch_days()
                } else {
                    end.epoch_days()
                },
            ),
            forall|i: int|
                0 <= i < instances@.len() ==> (#[trigger] instances@[i])@ == self.occurrence(
                    instances@[i].date,
                    style@,
                ),
    {
        let mut instances: Vec<EventInstance> = Vec::new();
        let last = self.last_date();
        let mut date = self.start.date();
        let ghost low = if self.start.day().epoch_days() >= start.epoch_days() {
            self.start.day().epoch_days()
        } else {
            start.epoch_days()
        };
        let ghost high = if last.epoch_days() <= end.epoch_days() {
            last.epoch_days()
        } else {
            end.epoch_days()
        };
        proof {
            if last != self.end.day() {
                lemma_next_day(self.start.day());
            }
        }
        loop
            invariant_except_break
                self.start.day().epoch_days() <= date.epoch_days(),
                is_day_run(
                    instance_dates(instances@),
                    low,
                    if date.epoch_days() - 1 <= high {
                        date.epoch_days() - 1
                    } else {
                        high
                    },
                ),
            invariant
                self.wf(),
                start.wf(),
                end.wf(),
                date.wf(),
                last.wf(),
                last == self.last_day(),
                low == (if self.start.day().epoch_days() >= start.epoch_days() {
                    self.start.day().epoch_days()
                } else {
                    start.epoch_days()
                }),
                high == (if last.epoch_days() <= end.epoch_days() {
                    last.epoch_days()
                } else {
                    end.epoch_days()
                }),
                forall|i: int|
                    0 <= i < instances@.len() ==> (#[trigger] instances@[i])@ == self.occurrence(
                        instances@[i].date,
                        style@,
                    ),
            ensures
                is_day_run(instance_dates(instances@), low, high),
            decreases last.epoch_days() - date.epoch_days() + 1,
        {
            proof {
                lemma_precedes_is_fewer_days(date, last);
                lemma_precedes_is_fewer_days(*start, date);
                lemma_precedes_is_fewer_days(date, *end);
                lemma_precedes_is_fewer_days(date, CalendarDate::latest());
                lemma_precedes_is_fewer_days(last, CalendarDate::latest());
            }
            if last.is_before(&date) {
                break ;
            }
            if start.is_on_or_before(&date) && date.is_on_or_before(end) {
                let ghost before = instance_dates(instances@);
                instances.push(self.instance(date, style));
                assert(instance_dates(instances@) =~= before.push(date));
            }
            match next_date(&date) {
                Some(next) => {
                    proof {
                        lemma_next_day(date);
                    }
                    date = next;
                },
                None => {
                    break ;
                },
            }
        }
        instances
    }

    /// An instance of this event, marked with `style`, on every day of the
    /// lists `found` that lies from `start` to `end`: the days of the first
    /// list first, the days of one list in the order of the list, and a day
    /// as often as it stands in the lists.
    pub fn instances_within(
        &self,
        found: &Vec<Vec<CalendarDate>>,
        start: &CalendarDate,
        end: &CalendarDate,
        style: &Style,
    ) -> (instances: Vec<EventInstance>)
        ensures
            instance_dates(instances@) == days_within(day_lists(found@), *start, *end),
            forall|i: int|
                0 <= i < instances@.len() ==> (#[trigger] instances@[i])@ == self.occurrence(
                    instances@[i].date,
                    style@,
                ) && lies_within(*start, *end)(instances@[i].date),
            all_exist(day_lists(found@)) ==> forall|i: int|
                0 <= i < instances@.len() ==> (#[trigger] instances@[i]).date.wf(),
    {
        let ghost lists = day_lists(found@);
        let ghost inside = lies_within(*start, *end);
        let mut instances: Vec<EventInstance> = Vec::new();
        let mut k: usize = 0;
        assert(lists.take(0) =~= Seq::<Seq<CalendarDate>>::empty());
        assert(instance_dates(instances@) =~= days_within(lists.take(0), *start, *end));
        while k < found.len()
            invariant
                k <= found@.len(),
                lists == day_lists(found@),
                inside == lies_within(*start, *end),
                instance_dates(instances@) == days_within(lists.take(k as int), *start, *end),
                forall|i: int|
                    0 <= i < instances@.len() ==> (#[trigger] instances@[i])@ == self.occurrence(
                        instances@[i].date,
                        style@,
                    ) && inside(instances@[i].date),
                all_exist(lists) ==> forall|i: int|
                    0 <= i < instances@.len() ==> (#[trigger] instances@[i]).date.wf(),
            decreases found@.len() - k,
        {
            let days = &found[k];
            let ghost earlier = instance_dates(instances@);
            let mut n: usize = 0;
            proof {
                lemma_filter_none(days@, inside);
                assert(instance_dates(instances@) =~= earlier + days@.take(0).filter(inside));
                assert(lists[k as int] == days@);
            }
            while n < days.len()
                invariant
                    n <= days@.len(),
                    k < found@.len(),
                    lists == day_lists(found@),
                    lists[k as int] == days@,
                    inside == lies_within(*start, *end),
                    instance_dates(instances@) == earlier + days@.take(n as int).filter(inside),
                    forall|i: int|
                        0 <= i < instances@.len() ==> (#[trigger] instances@[i])@
                            == self.occurrence(instances@[i].date, style@) && inside(
                            instances@[i].date,
                        ),
                    all_exist(lists) ==> forall|i: int|
                        0 <= i < instances@.len() ==> (#[trigger] instances@[i]).date.wf(),
                decreases days@.len() - n,
            {
                let day = days[n];
                proof {
                    lemma_filter_next(days@, inside, n as int);
                }
                if start.is_on_or_before(&day) && day.is_on_or_before(end) {
                    let ghost before = instance_dates(instances@);
                    instances.push(self.instance(day, style));
                    proof {
                        assert(instance_dates(instances@) =~= before.push(day));
                        assert(before.push(day) =~= earlier + days@.take(n as int).filter(
                            inside,
                        ).push(day));
                        if all_exist(lists) {
                            assert(lists[k as int][n as int].wf());
                        }
                    }
                }
                n += 1;
            }
            proof {
                assert(days@.take(days@.len() as int) =~= days@);
                assert(lists.take(k + 1).drop_last() =~= lists.take(k as int));
                assert(lists.take(k + 1).last() == days@);
            }
            k += 1;
        }
        assert(lists.take(lists.len() as int) =~= lists);
        instances
    }

    /// The days from `start` to `end` on which the event takes place, each
    /// as an instance marked with `style`.
    ///
    /// An event without rule sets gives every day from the day it begins to
    /// the last day it touches that lies within `start` and `end`, in order.
    /// An event with rule sets gives, for one rule set after the other, the
    /// recurrences that the rule set has in `zone` for the query of
    /// [`recurrence_query`]: from the beginning of `start` to the end of
    /// `end`, at most one for each day from `start` to `end` and never more
    /// than 65535. Of these, [`Event::instances_within`] keeps the days from
    /// `start` to `end`; recurrences of two rule sets on one day both stay. A
    /// rule set for which `zone` has no such times gives none.
    pub fn instances(
        &self,
        start: &CalendarDate,
        end: &CalendarDate,
        style: &Style,
        zone: &Tz,
    ) -> (instances: Vec<EventInstance>)
        requires
            self.wf(),
            start.wf(),
            end.wf(),
            *start == *end || start.precedes(*end),
        ensures
            forall|i: int|
                0 <= i < instances@.len() ==> (#[trigger] instances@[i])@ == self.occurrence(
                    instances@[i].date,
                    style@,
                ) && instances@[i].date.wf() && lies_within(*start, *end)(instances@[i].date),
            self.rrulesets@.len() == 0 ==> is_day_run(
                instance_dates(instances@),
                if self.start.day().epoch_days() >= start.epoch_days() {
                    self.start.day().epoch_days()
                } else {
                    start.epoch_days()
                },
                if self.last_day().epoch_days() <= end.epoch_days() {
                    self.last_day().epoch_days()
                } else {
                    end.epoch_days()
                },
            ),
            self.rrulesets@.len() > 0 ==> instances@.len() <= self.rrulesets@.len()
                * occurrence_limit(*start, *end),
            self.rrulesets@.len() > 0 ==> exists|found: Seq<Seq<CalendarDate>>|
                {
                    &&& found.len() == self.rrulesets@.len()
                    &&& forall|k: int|
                        0 <= k < found.len() ==> (#[trigger] found[k]).len() <= occurrence_limit(
                            *start,
                            *end,
                        )
                    &&& instance_dates(instances@) == days_within(found, *start, *end)
                },
    {
        if self.rrulesets.len() == 0 {
            let instances = self.single_instances(start, end, style);
            assert forall|i: int| 0 <= i < instances@.len() implies (#[trigger] instances@[i]).date.wf()
                && lies_within(*start, *end)(instances@[i].date) by {
                let day = instance_dates(instances@)[i];
                assert(day.wf());
                lemma_precedes_is_fewer_days(*start, day);
                lemma_precedes_is_fewer_days(day, *end);
            }
            return instances;
        }
        let (after, before, limit) = recurrence_query(start, end);
        let mut found: Vec<Vec<CalendarDate>> = Vec::new();
        let mut k: usize = 0;
        while k < self.rrulesets.len()
            invariant
                k <= self.rrulesets@.len(),
                start.wf(),
                end.wf(),
                after == (CalendarDateTime { date: *start, hour: 0, minute: 0, second: 0 }),
                before == (CalendarDateTime { date: *end, hour: 23, minute: 59, second: 59 }),
                limit == occurrence_limit(*start, *end),
                found@.len() == k,
                forall|n: int| 0 <= n < found@.len() ==> (#[trigger] found@[n])@.len() <= limit,
                forall|n: int, d: int|
                    0 <= n < found@.len() && 0 <= d < found@[n]@.len() ==> (
                    #[trigger] found@[n]@[d]).wf(),
            decreases self.rrulesets@.len() - k,
        {
            match rule_set_dates(&self.rrulesets[k], zone, &after, &before, limit) {
                Some(dates) => {
                    found.push(dates);
                },
                None => {
                    found.push(Vec::new());
                },
            }
            k += 1;
        }
        let instances = self.instances_within(&found, start, end, style);
        proof {
            let lists = day_lists(found@);
            assert forall|n: int| 0 <= n < lists.len() implies (#[trigger] lists[n]).len()
                <= limit by {
                assert(lists[n] == found@[n]@);
            }
            assert forall|n: int, d: int|
                0 <= n < lists.len() && 0 <= d < lists[n].len() implies (#[trigger] lists[n][d]).wf() by {
                assert(lists[n] == found@[n]@);
                assert(found@[n]@[d].wf());
            }
            lemma_days_within_count(lists, *start, *end, limit as int);
            assert(instance_dates(instances@).len() == instances@.len());
        }
        instances
    }
}

/// What is asked of a rule set for the days from `start` to `end`: the
/// recurrences from the first second of `start` to the last second of `end`,
/// and at most as many as [`occurrence_limit`] tells.
pub fn recurrence_query(start: &CalendarDate, end: &CalendarDate) -> (query: (
    CalendarDateTime,
    CalendarDateTime,
    u16,
))
    requires
        start.wf(),
        end.wf(),
        *start == *end || start.precedes(*end),
    ensures
        query.0 == (CalendarDateTime { date: *start, hour: 0, minute: 0, second: 0 }),
        query.1 == (CalendarDateTime { date: *end, hour: 23, minute: 59, second: 59 }),
        query.2 == occurrence_limit(*start, *end),
{
    proof {
        lemma_precedes_is_fewer_days(*start, *end);
    }
    let span = days_between(end, start);
    let limit: u16 = if span >= 65535 {
        65535
    } else {
        (span + 1) as u16
    };
    (
        CalendarDateTime { date: *start, hour: 0, minute: 0, second: 0 },
        CalendarDateTime { date: *end, hour: 23, minute: 59, second: 59 },
        limit,
    )
}

/// Where an instance on the day `date` goes into `sorted`, found from the
/// end.
fn position_for(sorted: &Vec<&EventInstance>, date: &CalendarDate) -> (position: usize)
    requires
        date.wf(),
        forall|i: int| 0 <= i < sorted@.len() ==> (#[trigger] sorted@[i]).date.wf(),
    ensures
        position == insert_position(borrowed_views(sorted@), day_of(), date.epoch_days()),
        position <= sorted@.len(),
{
    let ghost views = borrowed_views(sorted@);
    let mut position: usize = sorted.len();
    assert(views.take(views.len() as int) =~= views);
    while position > 0 && date.is_before(&sorted[position - 1].date)
        invariant
            date.wf(),
            forall|i: int| 0 <= i < sorted@.len() ==> (#[trigger] sorted@[i]).date.wf(),
            position <= sorted@.len(),
            views == borrowed_views(sorted@),
            insert_position(views, day_of(), date.epoch_days()) == insert_position(
                views.take(position as int),
                day_of(),
                date.epoch_days(),
            ),
        decreases position,
    {
        proof {
            lemma_precedes_is_fewer_days(*date, sorted@[position - 1].date);
            assert(views.take(position as int).drop_last() =~= views.take(position - 1));
        }
        position -= 1;
    }
    proof {
        if position > 0 {
            lemma_precedes_is_fewer_days(*date, sorted@[position - 1].date);
        }
        assert(position == 0 ==> views.take(0).len() == 0);
    }
    position
}

/// The instances in the order of their days, the earliest first; instances
/// on one day stay in the order in which they stand in `instances`.
pub fn sort_by_date(instances: &[EventInstance]) -> (sorted: Vec<EventInstance>)
    requires
        forall|i: int| 0 <= i < instances@.len() ==> (#[trigger] instances@[i]).date.wf(),
    ensures
        instance_views(sorted@) == by_key(instance_views(instances@), day_of()),
{
    let ghost views = instance_views(instances@);
    let mut order: Vec<&EventInstance> = Vec::new();
    let mut i: usize = 0;
    assert(views.take(0) =~= Seq::<EventInstanceView>::empty());
    while i < instances.len()
        invariant
            i <= instances@.len(),
            views == instance_views(instances@),
            forall|k: int| 0 <= k < instances@.len() ==> (#[trigger] instances@[k]).date.wf(),
            forall|k: int| 0 <= k < order@.len() ==> (#[trigger] order@[k]).date.wf(),
            borrowed_views(order@) == by_key(views.take(i as int), day_of()),
        decreases instances@.len() - i,
    {
        let instance: &EventInstance = &instances[i];
        let position = position_for(&order, &instance.date);
        let ghost before = borrowed_views(order@);
        order.insert(position, instance);
        proof {
            assert(views.take(i + 1).drop_last() =~= views.take(i as int));
            assert(borrowed_views(order@) =~= before.insert(position as int, instance@));
        }
        i += 1;
    }
    assert(views.take(views.len() as int) =~= views);
    let mut sorted: Vec<EventInstance> = Vec::new();
    let mut k: usize = 0;
    while k < order.len()
        invariant
            k <= order@.len(),
            sorted@.len() == k,
            forall|j: int| 0 <= j < k ==> (#[trigger] sorted@[j])@ == order@[j]@,
        decreases order@.len() - k,
    {
        sorted.push(order[k].clone());
        k += 1;
    }
    assert(instance_views(sorted@) =~= borrowed_views(order@));
    sorted
}

} // verus!
