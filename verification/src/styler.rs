//! Which style a day of the calendar gets: the rules of the theme whose
//! conditions the day meets and the styles of the events on that day, put in
//! the order of their weights.

use crate::bindings::{days_from_monday, parse_date, parsed_date};
use crate::date::CalendarDate;
use crate::events::{instance_views, EventInstance, EventInstanceView};
use crate::order::{by_key, insert_position, lemma_by_key, place};
use crate::style::{ansi_codes, tostyle, TextStyle};
use crate::theme::{
    date_style_views, DateProperty, DateStyle, DateStyleView, Style, StyleName, StyleType,
    StyleView, Theme,
};
use vstd::prelude::*;

verus! {

/// Whether `property` holds of `date`, shown in the month of
/// `first_day_of_month`, on the current date `main_date`, with events on
/// `event_dates`.
pub open spec fn property_holds(
    property: DateProperty,
    date: CalendarDate,
    first_day_of_month: CalendarDate,
    main_date: CalendarDate,
    event_dates: Seq<CalendarDate>,
) -> bool {
    match property {
        DateProperty::FirstDayOfMonth => date == first_day_of_month,
        DateProperty::BeforeFirstDayOfMonth => date.precedes(first_day_of_month),
        DateProperty::BeforeCurrentDate => date.precedes(main_date),
        DateProperty::CurrentDate => date == main_date,
        DateProperty::AfterCurrentDate => main_date.precedes(date),
        DateProperty::AfterLastDayOfMonth => first_day_of_month.month_end().precedes(date),
        DateProperty::LastDayOfMonth => date == first_day_of_month.month_end(),
        DateProperty::IsEvent => event_dates.contains(date),
        DateProperty::Monday => date.weekday_index() == 0,
        DateProperty::Tuesday => date.weekday_index() == 1,
        DateProperty::Wednesday => date.weekday_index() == 2,
        DateProperty::Thursday => date.weekday_index() == 3,
        DateProperty::Friday => date.weekday_index() == 4,
        DateProperty::Saturday => date.weekday_index() == 5,
        DateProperty::Sunday => date.weekday_index() == 6,
        DateProperty::Odd => date.day % 2 == 1,
        DateProperty::Even => date.day % 2 == 0,
    }
}

/// Whether every one of `properties` holds; none is asked where there is
/// none.
pub open spec fn all_hold(
    properties: Seq<DateProperty>,
    date: CalendarDate,
    first_day_of_month: CalendarDate,
    main_date: CalendarDate,
    event_dates: Seq<CalendarDate>,
) -> bool {
    forall|i: int|
        0 <= i < properties.len() ==> property_holds(
            #[trigger] properties[i],
            date,
            first_day_of_month,
            main_date,
            event_dates,
        )
}

/// The days of event instances, in their order.
pub open spec fn occurrence_dates(instances: Seq<EventInstanceView>) -> Seq<CalendarDate> {
    Seq::new(instances.len(), |i: int| instances[i].date)
}

/// The styles of the date styles of `theme` whose conditions all hold, in
/// the order of the theme.
pub open spec fn theme_styles(
    theme: Seq<DateStyleView>,
    date: CalendarDate,
    first_day_of_month: CalendarDate,
    main_date: CalendarDate,
    event_dates: Seq<CalendarDate>,
) -> Seq<StyleView> {
    theme.filter(
        |d: DateStyleView| all_hold(d.properties, date, first_day_of_month, main_date, event_dates),
    ).map_values(|d: DateStyleView| d.style)
}

/// The styles of the instances on `date`, in the order of the instances.
pub open spec fn event_styles(instances: Seq<EventInstanceView>, date: CalendarDate) -> Seq<
    StyleView,
> {
    instances.filter(|e: EventInstanceView| e.date == date).map_values(
        |e: EventInstanceView| e.style,
    )
}

/// Whether a style made for `styletype` is used under the theme `active`.
pub open spec fn suits(styletype: StyleType, active: StyleType) -> bool {
    styletype == active || styletype == StyleType::Any
}

/// Those of `styles` that are used under the theme `active`, in their order.
pub open spec fn for_theme(styles: Seq<StyleView>, active: StyleType) -> Seq<StyleView> {
    styles.filter(|s: StyleView| suits(s.styletype, active))
}

/// The weight of a style as the number by which styles are ordered.
pub open spec fn weight_of() -> spec_fn(StyleView) -> int {
    |s: StyleView| s.weight as int
}

/// `styles` in the order of their weights, the lightest first; styles of
/// one weight stay in the order in which they stand in `styles`.
pub open spec fn by_weight(styles: Seq<StyleView>) -> Seq<StyleView> {
    by_key(styles, weight_of())
}

/// The directives of `styles`, those of the first style first.
pub open spec fn directives(styles: Seq<StyleView>) -> Seq<StyleName>
    decreases styles.len(),
{
    if styles.len() == 0 {
        Seq::empty()
    } else {
        directives(styles.drop_last()) + styles.last().stylenames
    }
}

/// The styles that are candidates for `date`: those of the theme whose
/// conditions hold, then those of the events on `date`.
pub open spec fn candidates(
    date: CalendarDate,
    first_day_of_month: CalendarDate,
    main_date: CalendarDate,
    instances: Seq<EventInstanceView>,
    theme: Seq<DateStyleView>,
) -> Seq<StyleView> {
    theme_styles(theme, date, first_day_of_month, main_date, occurrence_dates(instances))
        + event_styles(instances, date)
}

/// The directives with which `date` is shown: of the candidates that are
/// used under the theme `active`, ordered by weight, all directives in a row.
pub open spec fn resolved(
    date: CalendarDate,
    first_day_of_month: CalendarDate,
    main_date: CalendarDate,
    instances: Seq<EventInstanceView>,
    theme: Seq<DateStyleView>,
    active: StyleType,
) -> Seq<StyleName> {
    directives(
        by_weight(for_theme(candidates(date, first_day_of_month, main_date, instances, theme), active)),
    )
}

/// Where the directives of the style at `k` begin among the directives of
/// `styles`.
pub open spec fn directives_start(styles: Seq<StyleView>, k: int) -> int {
    directives(styles.take(k)).len() as int
}

/// The directives of the style at `k` stand in a row among the directives of
/// `styles`, behind those of all styles before it and before those of all
/// styles behind it.
pub proof fn lemma_directives_of(styles: Seq<StyleView>, k: int)
    requires
        0 <= k < styles.len(),
    ensures
        directives_start(styles, k) + styles[k].stylenames.len() <= directives(styles).len(),
        directives(styles).subrange(
            directives_start(styles, k),
            directives_start(styles, k) + styles[k].stylenames.len(),
        ) == styles[k].stylenames,
        forall|l: int|
            k < l < styles.len() ==> directives_start(styles, k) + styles[k].stylenames.len()
                <= #[trigger] directives_start(styles, l),
    decreases styles.len(),
{
    let n = styles.len() - 1;
    let rest = styles.drop_last();
    assert(styles.take(styles.len() as int) =~= styles);
    assert(styles.take(n) =~= rest);
    if k < n {
        lemma_directives_of(rest, k);
        assert(rest.take(k) =~= styles.take(k));
        assert(rest[k] == styles[k]);
        assert(directives(styles).subrange(
            directives_start(styles, k),
            directives_start(styles, k) + styles[k].stylenames.len(),
        ) =~= directives(rest).subrange(
            directives_start(rest, k),
            directives_start(rest, k) + rest[k].stylenames.len(),
        ));
        assert forall|l: int| k < l < styles.len() implies directives_start(styles, k)
            + styles[k].stylenames.len() <= #[trigger] directives_start(styles, l) by {
            if l < n {
                assert(rest.take(l) =~= styles.take(l));
                assert(directives_start(rest, k) + rest[k].stylenames.len() <= directives_start(
                    rest,
                    l,
                ));
            } else {
                assert(directives_start(styles, l) == directives(rest).len());
            }
        }
    } else {
        assert(directives(styles).subrange(
            directives_start(styles, k),
            directives_start(styles, k) + styles[k].stylenames.len(),
        ) =~= styles[k].stylenames);
    }
}

/// Of two styles the heavier is applied later: the directives of the style
/// at `j` stand behind the directives of the lighter style at `i`, so that
/// where the two set the same thing, the heavier one decides.
pub proof fn lemma_heavier_style_comes_later(styles: Seq<StyleView>, i: int, j: int)
    requires
        0 <= i < styles.len(),
        0 <= j < styles.len(),
        styles[i].weight < styles[j].weight,
    ensures
        0 <= place(styles, weight_of(), i) < place(styles, weight_of(), j) < styles.len(),
        by_weight(styles)[place(styles, weight_of(), i)] == styles[i],
        by_weight(styles)[place(styles, weight_of(), j)] == styles[j],
        directives(by_weight(styles)).subrange(
            directives_start(by_weight(styles), place(styles, weight_of(), i)),
            directives_start(by_weight(styles), place(styles, weight_of(), i))
                + styles[i].stylenames.len(),
        ) == styles[i].stylenames,
        directives(by_weight(styles)).subrange(
            directives_start(by_weight(styles), place(styles, weight_of(), j)),
            directives_start(by_weight(styles), place(styles, weight_of(), j))
                + styles[j].stylenames.len(),
        ) == styles[j].stylenames,
        directives_start(by_weight(styles), place(styles, weight_of(), i))
            + styles[i].stylenames.len() <= directives_start(
            by_weight(styles),
            place(styles, weight_of(), j),
        ),
{
    lemma_by_key(styles, weight_of());
    assert(place(styles, weight_of(), i) < place(styles, weight_of(), j));
    lemma_directives_of(by_weight(styles), place(styles, weight_of(), i));
    lemma_directives_of(by_weight(styles), place(styles, weight_of(), j));
}

/// Styles of one weight are applied in the order in which they were found:
/// of two such styles the directives of the one that stands first in
/// `styles` come first.
pub proof fn lemma_equal_weights_keep_their_order(styles: Seq<StyleView>, i: int, j: int)
    requires
        0 <= i < j < styles.len(),
        styles[i].weight == styles[j].weight,
    ensures
        0 <= place(styles, weight_of(), i) < place(styles, weight_of(), j) < styles.len(),
        by_weight(styles)[place(styles, weight_of(), i)] == styles[i],
        by_weight(styles)[place(styles, weight_of(), j)] == styles[j],
        directives_start(by_weight(styles), place(styles, weight_of(), i))
            + styles[i].stylenames.len() <= directives_start(
            by_weight(styles),
            place(styles, weight_of(), j),
        ),
{
    lemma_by_key(styles, weight_of());
    assert(place(styles, weight_of(), i) < place(styles, weight_of(), j));
    lemma_directives_of(by_weight(styles), place(styles, weight_of(), i));
}

/// A style made for the other theme is never applied, and a style made for
/// the theme in use or for both themes always is: the styles whose
/// directives are applied under the theme `active` are those of `styles`
/// that suit it, all of them and no other.
pub proof fn lemma_theme_filter(styles: Seq<StyleView>, active: StyleType)
    ensures
        forall|p: int|
            0 <= p < by_weight(for_theme(styles, active)).len() ==> suits(
                (#[trigger] by_weight(for_theme(styles, active))[p]).styletype,
                active,
            ) && styles.contains(by_weight(for_theme(styles, active))[p]),
        forall|i: int|
            0 <= i < styles.len() && suits((#[trigger] styles[i]).styletype, active) ==> by_weight(
                for_theme(styles, active),
            ).contains(styles[i]),
{
    let fits = |s: StyleView| suits(s.styletype, active);
    let kept = for_theme(styles, active);
    let used = by_weight(kept);
    broadcast use vstd::seq_lib::group_filter_ensures;

    lemma_by_key(kept, weight_of());
    assert forall|p: int| 0 <= p < used.len() implies suits((#[trigger] used[p]).styletype, active)
        && styles.contains(used[p]) by {
        assert(kept.contains(used[p]));
        let i = choose|i: int| 0 <= i < kept.len() && kept[i] == used[p];
        assert(fits(kept[i]));
        styles.lemma_filter_contains_rev(fits, used[p]);
    }
    assert forall|i: int|
        0 <= i < styles.len() && suits((#[trigger] styles[i]).styletype, active) implies used.contains(
        styles[i],
    ) by {
        assert(fits(styles[i]));
        assert(kept.contains(styles[i]));
        let k = choose|k: int| 0 <= k < kept.len() && kept[k] == styles[i];
        assert(used[place(kept, weight_of(), k)] == kept[k]);
    }
}

/// The styles whose directives are applied to `date`: the candidates that
/// are used under the theme `active`, in the order of their weights.
pub open spec fn styles_applied(
    date: CalendarDate,
    first_day_of_month: CalendarDate,
    main_date: CalendarDate,
    instances: Seq<EventInstanceView>,
    theme: Seq<DateStyleView>,
    active: StyleType,
) -> Seq<StyleView> {
    by_weight(for_theme(candidates(date, first_day_of_month, main_date, instances, theme), active))
}

/// Whether the directives of `style` stand in a row in `directives`, from
/// `start` on.
pub open spec fn stands_at(directives: Seq<StyleName>, style: StyleView, start: int) -> bool {
    &&& 0 <= start
    &&& start + style.stylenames.len() <= directives.len()
    &&& directives.subrange(start, start + style.stylenames.len()) == style.stylenames
}

/// Of the candidates for a date, a style made for the other theme gives none
/// of the directives of the date, and a style made for the theme in use, or
/// for both themes, gives all of its directives, in a row.
pub proof fn lemma_resolved_for_theme(
    date: CalendarDate,
    first_day_of_month: CalendarDate,
    main_date: CalendarDate,
    instances: Seq<EventInstanceView>,
    theme: Seq<DateStyleView>,
    active: StyleType,
)
    ensures
        resolved(date, first_day_of_month, main_date, instances, theme, active) == directives(
            styles_applied(date, first_day_of_month, main_date, instances, theme, active),
        ),
        forall|p: int|
            #![trigger styles_applied(date, first_day_of_month, main_date, instances, theme, active)[p]]
            0 <= p < styles_applied(
                date,
                first_day_of_month,
                main_date,
                instances,
                theme,
                active,
            ).len() ==> suits(
                styles_applied(
                    date,
                    first_day_of_month,
                    main_date,
                    instances,
                    theme,
                    active,
                )[p].styletype,
                active,
            ),
        forall|i: int|
            #![trigger candidates(date, first_day_of_month, main_date, instances, theme)[i]]
            0 <= i < candidates(date, first_day_of_month, main_date, instances, theme).len()
                && suits(
                candidates(date, first_day_of_month, main_date, instances, theme)[i].styletype,
                active,
            ) ==> exists|start: int|
                stands_at(
                    resolved(date, first_day_of_month, main_date, instances, theme, active),
                    candidates(date, first_day_of_month, main_date, instances, theme)[i],
                    start,
                ),
{
    let found = candidates(date, first_day_of_month, main_date, instances, theme);
    let used = styles_applied(date, first_day_of_month, main_date, instances, theme, active);
    let shown = resolved(date, first_day_of_month, main_date, instances, theme, active);
    lemma_theme_filter(found, active);
    assert forall|i: int|
        #![trigger found[i]]
        0 <= i < found.len() && suits(found[i].styletype, active) implies exists|start: int|
        stands_at(shown, found[i], start) by {
        assert(used.contains(found[i]));
        let p = choose|p: int| 0 <= p < used.len() && used[p] == found[i];
        lemma_directives_of(used, p);
        assert(stands_at(shown, found[i], directives_start(used, p)));
    }
}

/// Of two candidates for a date that are used under the theme in use, the
/// heavier one is applied later: its directives stand behind those of the
/// lighter one among the directives of the date. `i` and `j` are the places
/// of the two among the candidates that are used.
pub proof fn lemma_resolved_by_weight(
    date: CalendarDate,
    first_day_of_month: CalendarDate,
    main_date: CalendarDate,
    instances: Seq<EventInstanceView>,
    theme: Seq<DateStyleView>,
    active: StyleType,
    i: int,
    j: int,
)
    requires
        0 <= i < for_theme(
            candidates(date, first_day_of_month, main_date, instances, theme),
            active,
        ).len(),
        0 <= j < for_theme(
            candidates(date, first_day_of_month, main_date, instances, theme),
            active,
        ).len(),
        for_theme(candidates(date, first_day_of_month, main_date, instances, theme), active)[i].weight
            < for_theme(
            candidates(date, first_day_of_month, main_date, instances, theme),
            active,
        )[j].weight,
    ensures
        exists|first: int, second: int|
            {
                &&& stands_at(
                    resolved(date, first_day_of_month, main_date, instances, theme, active),
                    for_theme(
                        candidates(date, first_day_of_month, main_date, instances, theme),
                        active,
                    )[i],
                    first,
                )
                &&& stands_at(
                    resolved(date, first_day_of_month, main_date, instances, theme, active),
                    for_theme(
                        candidates(date, first_day_of_month, main_date, instances, theme),
                        active,
                    )[j],
                    second,
                )
                &&& first + for_theme(
                    candidates(date, first_day_of_month, main_date, instances, theme),
                    active,
                )[i].stylenames.len() <= second
            },
{
    let used = for_theme(candidates(date, first_day_of_month, main_date, instances, theme), active);
    let shown = resolved(date, first_day_of_month, main_date, instances, theme, active);
    lemma_heavier_style_comes_later(used, i, j);
    lemma_by_key(used, weight_of());
    let first = directives_start(by_weight(used), place(used, weight_of(), i));
    let second = directives_start(by_weight(used), place(used, weight_of(), j));
    lemma_directives_of(by_weight(used), place(used, weight_of(), i));
    lemma_directives_of(by_weight(used), place(used, weight_of(), j));
    assert(stands_at(shown, used[i], first));
    assert(stands_at(shown, used[j], second));
}

/// The directives of a date depend on nothing but what `resolve` is given:
/// two results for the same date, month, current date, events, theme and
/// theme in use are the same, directive by directive.
pub proof fn lemma_resolved_once_and_again(
    date: CalendarDate,
    first_day_of_month: CalendarDate,
    main_date: CalendarDate,
    instances: Seq<EventInstanceView>,
    theme: Seq<DateStyleView>,
    active: StyleType,
    first: Seq<StyleName>,
    second: Seq<StyleName>,
)
    requires
        first == resolved(date, first_day_of_month, main_date, instances, theme, active),
        second == resolved(date, first_day_of_month, main_date, instances, theme, active),
    ensures
        first == second,
        first.len() == second.len(),
        forall|i: int| 0 <= i < first.len() ==> first[i] == second[i],
{
}

/// The views of borrowed styles, in their order.
pub open spec fn style_views(styles: Seq<&Style>) -> Seq<StyleView> {
    Seq::new(styles.len(), |i: int| styles[i]@)
}

/// Filtering one element more keeps what was filtered and adds the element
/// where it passes.
pub proof fn lemma_filter_next<A>(s: Seq<A>, pred: spec_fn(A) -> bool, i: int)
    requires
        0 <= i < s.len(),
    ensures
        s.take(i + 1).filter(pred) == (if pred(s[i]) {
            s.take(i).filter(pred).push(s[i])
        } else {
            s.take(i).filter(pred)
        }),
{
    reveal(Seq::filter);
    assert(s.take(i + 1).drop_last() =~= s.take(i));
}

/// Filtering nothing gives nothing.
pub proof fn lemma_filter_none<A>(s: Seq<A>, pred: spec_fn(A) -> bool)
    ensures
        s.take(0).filter(pred) == Seq::<A>::empty(),
{
    reveal(Seq::filter);
    assert(s.take(0) =~= Seq::<A>::empty());
}

impl CalendarDate {
    /// Whether `property` holds of this date.
    fn satisfies(
        &self,
        property: DateProperty,
        firstdayofmonth: CalendarDate,
        maindate: CalendarDate,
        events: &[EventInstance],
    ) -> (holds: bool)
        requires
            self.wf(),
            firstdayofmonth.wf(),
        ensures
            holds == property_holds(
                property,
                *self,
                firstdayofmonth,
                maindate,
                occurrence_dates(instance_views(events@)),
            ),
    {
        match property {
            DateProperty::FirstDayOfMonth => *self == firstdayofmonth,
            DateProperty::BeforeFirstDayOfMonth => self.is_before(&firstdayofmonth),
            DateProperty::BeforeCurrentDate => self.is_before(&maindate),
            DateProperty::CurrentDate => *self == maindate,
            DateProperty::AfterCurrentDate => maindate.is_before(self),
            DateProperty::AfterLastDayOfMonth => firstdayofmonth.last_day_of_month().is_before(
                self,
            ),
            DateProperty::LastDayOfMonth => *self == firstdayofmonth.last_day_of_month(),
            DateProperty::IsEvent => {
                let ghost dates = occurrence_dates(instance_views(events@));
                let mut i: usize = 0;
                while i < events.len()
                    invariant
                        i <= events@.len(),
                        property is IsEvent,
                        dates == occurrence_dates(instance_views(events@)),
                        forall|j: int| 0 <= j < i ==> dates[j] != *self,
                    decreases events@.len() - i,
                {
                    if events[i].date == *self {
                        assert(dates[i as int] == *self);
                        assert(dates.contains(*self));
                        return true;
                    }
                    i += 1;
                }
                assert(!dates.contains(*self));
                false
            },
            DateProperty::Monday => days_from_monday(self) == 0,
            DateProperty::Tuesday => days_from_monday(self) == 1,
            DateProperty::Wednesday => days_from_monday(self) == 2,
            DateProperty::Thursday => days_from_monday(self) == 3,
            DateProperty::Friday => days_from_monday(self) == 4,
            DateProperty::Saturday => days_from_monday(self) == 5,
            DateProperty::Sunday => days_from_monday(self) == 6,
            DateProperty::Odd => self.day % 2 == 1,
            DateProperty::Even => self.day % 2 == 0,
        }
    }

    /// Whether all of `properties` hold of this date, shown in the month of
    /// `firstdayofmonth`, on the current date `maindate`, with the events
    /// `events`. No property is a condition that every date meets.
    pub fn satisfy_all(
        &self,
        firstdayofmonth: CalendarDate,
        maindate: CalendarDate,
        events: &[EventInstance],
        properties: &[DateProperty],
    ) -> (holds: bool)
        requires
            self.wf(),
            firstdayofmonth.wf(),
        ensures
            holds == all_hold(
                properties@,
                *self,
                firstdayofmonth,
                maindate,
                occurrence_dates(instance_views(events@)),
            ),
    {
        let mut i: usize = 0;
        while i < properties.len()
            invariant
                self.wf(),
                firstdayofmonth.wf(),
                i <= properties@.len(),
                forall|j: int|
                    0 <= j < i ==> property_holds(
                        #[trigger] properties@[j],
                        *self,
                        firstdayofmonth,
                        maindate,
                        occurrence_dates(instance_views(events@)),
                    ),
            decreases properties@.len() - i,
        {
            if !self.satisfies(properties[i], firstdayofmonth, maindate, events) {
                return false;
            }
            i += 1;
        }
        true
    }
}

/// Where a style of weight `weight` goes into `sorted`, found from the end.
fn position_for(sorted: &Vec<&Style>, weight: u32) -> (position: usize)
    ensures
        position == insert_position(style_views(sorted@), weight_of(), weight as int),
        position <= sorted@.len(),
{
    let ghost views = style_views(sorted@);
    let mut position: usize = sorted.len();
    assert(views.take(views.len() as int) =~= views);
    while position > 0 && sorted[position - 1].weight > weight
        invariant
            position <= sorted@.len(),
            views == style_views(sorted@),
            insert_position(views, weight_of(), weight as int) == insert_position(
                views.take(position as int),
                weight_of(),
                weight as int,
            ),
        decreases position,
    {
        assert(views.take(position as int).drop_last() =~= views.take(position - 1));
        position -= 1;
    }
    assert(position == 0 ==> views.take(0).len() == 0);
    position
}

/// `styles` in the order of their weights, the lightest first; styles of
/// one weight stay in their order.
fn sort_by_weight<'a>(styles: &Vec<&'a Style>) -> (sorted: Vec<&'a Style>)
    ensures
        style_views(sorted@) == by_weight(style_views(styles@)),
{
    let ghost views = style_views(styles@);
    let mut sorted: Vec<&Style> = Vec::new();
    let mut i: usize = 0;
    assert(views.take(0) =~= Seq::<StyleView>::empty());
    while i < styles.len()
        invariant
            i <= styles@.len(),
            views == style_views(styles@),
            style_views(sorted@) == by_weight(views.take(i as int)),
        decreases styles@.len() - i,
    {
        let style: &Style = styles[i];
        let position = position_for(&sorted, style.weight);
        let ghost before = style_views(sorted@);
        sorted.insert(position, style);
        proof {
            assert(views.take(i + 1).drop_last() =~= views.take(i as int));
            assert(style_views(sorted@) =~= before.insert(position as int, style@));
        }
        i += 1;
    }
    assert(views.take(views.len() as int) =~= views);
    sorted
}

/// The directives with which `date` is shown.
///
/// A date style of `theme` is a candidate where all its conditions hold of
/// `date`, shown in the month that begins on `firstdayofmonth`, on the
/// current date `maindate`; the style of each of `event_instances` on `date`
/// is a candidate too. Of the candidates those made for the theme
/// `styletype`, or for both themes, are put in the order of their weights,
/// the lightest first and those of one weight in the order in which they
/// were found, and their directives are returned in a row. No candidate
/// gives no directive.
pub fn resolve(
    date: &CalendarDate,
    firstdayofmonth: &CalendarDate,
    maindate: &CalendarDate,
    event_instances: &[EventInstance],
    theme: &[DateStyle],
    styletype: StyleType,
) -> (stylenames: Vec<StyleName>)
    requires
        date.wf(),
        firstdayofmonth.wf(),
    ensures
        stylenames@ == resolved(
            *date,
            *firstdayofmonth,
            *maindate,
            instance_views(event_instances@),
            date_style_views(theme@),
            styletype,
        ),
{
    let ghost instances = instance_views(event_instances@);
    let ghost rules = date_style_views(theme@);
    let ghost event_dates = occurrence_dates(instances);
    let ghost meets = |d: DateStyleView|
        all_hold(d.properties, *date, *firstdayofmonth, *maindate, event_dates);
    let ghost on_date = |e: EventInstanceView| e.date == *date;
    let ghost style_of = |d: DateStyleView| d.style;
    let ghost style_on = |e: EventInstanceView| e.style;
    let mut matching_styles: Vec<&Style> = Vec::new();
    let mut i: usize = 0;
    proof {
        lemma_filter_none(rules, meets);
    }
    while i < theme.len()
        invariant
            date.wf(),
            firstdayofmonth.wf(),
            i <= theme@.len(),
            rules == date_style_views(theme@),
            event_dates == occurrence_dates(instance_views(event_instances@)),
            meets == |d: DateStyleView|
                all_hold(d.properties, *date, *firstdayofmonth, *maindate, event_dates),
            style_of == |d: DateStyleView| d.style,
            style_views(matching_styles@) == rules.take(i as int).filter(meets).map_values(
                style_of,
            ),
        decreases theme@.len() - i,
    {
        proof {
            lemma_filter_next(rules, meets, i as int);
        }
        let ghost before = style_views(matching_styles@);
        if date.satisfy_all(
            *firstdayofmonth,
            *maindate,
            event_instances,
            theme[i].properties.as_slice(),
        ) {
            matching_styles.push(&theme[i].style);
            assert(style_views(matching_styles@) =~= before.push(theme@[i as int].style@));
            assert(rules.take(i as int).filter(meets).push(rules[i as int]).map_values(style_of)
                =~= before.push(rules[i as int].style));
        }
        i += 1;
    }
    assert(rules.take(rules.len() as int) =~= rules);
    let ghost from_theme = style_views(matching_styles@);
    let mut k: usize = 0;
    proof {
        lemma_filter_none(instances, on_date);
        assert(style_views(matching_styles@) =~= from_theme + instances.take(0).filter(
            on_date,
        ).map_values(style_on));
    }
    while k < event_instances.len()
        invariant
            k <= event_instances@.len(),
            instances == instance_views(event_instances@),
            on_date == |e: EventInstanceView| e.date == *date,
            style_on == |e: EventInstanceView| e.style,
            style_views(matching_styles@) == from_theme + instances.take(k as int).filter(
                on_date,
            ).map_values(style_on),
        decreases event_instances@.len() - k,
    {
        proof {
            lemma_filter_next(instances, on_date, k as int);
        }
        let ghost before = style_views(matching_styles@);
        let ghost found = instances.take(k as int).filter(on_date);
        if event_instances[k].date == *date {
            matching_styles.push(&event_instances[k].style);
            assert(style_views(matching_styles@) =~= before.push(event_instances@[k as int].style@));
            assert(found.push(instances[k as int]).map_values(style_on) =~= found.map_values(
                style_on,
            ).push(instances[k as int].style));
            assert(from_theme + found.map_values(style_on).push(instances[k as int].style)
                =~= before.push(instances[k as int].style));
        }
        k += 1;
    }
    assert(instances.take(instances.len() as int) =~= instances);
    let ghost found = style_views(matching_styles@);
    assert(found == candidates(*date, *firstdayofmonth, *maindate, instances, rules));
    let ghost fits = |s: StyleView| suits(s.styletype, styletype);
    let mut fitting: Vec<&Style> = Vec::new();
    let mut m: usize = 0;
    proof {
        lemma_filter_none(found, fits);
    }
    while m < matching_styles.len()
        invariant
            m <= matching_styles@.len(),
            found == style_views(matching_styles@),
            fits == |s: StyleView| suits(s.styletype, styletype),
            style_views(fitting@) == found.take(m as int).filter(fits),
        decreases matching_styles@.len() - m,
    {
        proof {
            lemma_filter_next(found, fits, m as int);
        }
        let ghost before = style_views(fitting@);
        let style: &Style = matching_styles[m];
        if style.styletype == styletype || style.styletype == StyleType::Any {
            fitting.push(style);
            assert(style_views(fitting@) =~= before.push(style@));
        }
        m += 1;
    }
    assert(found.take(found.len() as int) =~= found);
    let sorted = sort_by_weight(&fitting);
    let ghost ordered = style_views(sorted@);
    let mut stylenames: Vec<StyleName> = Vec::new();
    let mut n: usize = 0;
    assert(ordered.take(0) =~= Seq::<StyleView>::empty());
    while n < sorted.len()
        invariant
            n <= sorted@.len(),
            ordered == style_views(sorted@),
            stylenames@ == directives(ordered.take(n as int)),
        decreases sorted@.len() - n,
    {
        let style: &Style = sorted[n];
        let ghost before = stylenames@;
        let mut j: usize = 0;
        while j < style.stylenames.len()
            invariant
                j <= style.stylenames@.len(),
                stylenames@ == before + style.stylenames@.take(j as int),
            decreases style.stylenames@.len() - j,
        {
            stylenames.push(style.stylenames[j]);
            assert(style.stylenames@.take(j + 1) =~= style.stylenames@.take(j as int).push(
                style.stylenames@[j as int],
            ));
            j += 1;
        }
        proof {
            assert(style.stylenames@.take(style.stylenames@.len() as int) =~= style.stylenames@);
            assert(ordered.take(n + 1).drop_last() =~= ordered.take(n as int));
        }
        n += 1;
    }
    assert(ordered.take(ordered.len() as int) =~= ordered);
    stylenames
}

/// The escape sequences of the style in which an event instance is marked.
pub fn style_event(event: &EventInstance) -> (codes: String)
    ensures
        codes@ == ansi_codes(TextStyle::plain().apply_all(event.style.stylenames@)),
{
    tostyle(event.style.stylenames.clone()).render()
}

/// What styles the days of a calendar: the events, the current date, the
/// theme and the kind of theme in use.
#[derive(Debug)]
pub struct DateStyler {
    pub event_instances: Vec<EventInstance>,
    pub main_date: CalendarDate,
    pub theme: Theme,
    pub styletype: StyleType,
}

impl DateStyler {
    /// What styles the days of a calendar with the events `event_instances`
    /// on the current date `main_date`, with the theme `theme` of which the
    /// styles for displays of the kind `styletype` are used.
    pub fn new(
        event_instances: Vec<EventInstance>,
        main_date: CalendarDate,
        theme: Theme,
        styletype: StyleType,
    ) -> (styler: Self)
        ensures
            styler.event_instances == event_instances,
            styler.main_date == main_date,
            styler.theme == theme,
            styler.styletype == styletype,
    {
        Self { event_instances, main_date, theme, styletype }
    }

    /// The escape sequences with which the day `date` is shown in the month
    /// of the day `month`.
    pub open spec fn codes_of(&self, date: CalendarDate, month: CalendarDate) -> Seq<char> {
        ansi_codes(
            TextStyle::plain().apply_all(
                resolved(
                    date,
                    month.month_start(),
                    self.main_date,
                    instance_views(self.event_instances@),
                    self.theme@,
                    self.styletype,
                ),
            ),
        )
    }

    /// The escape sequences with which the day `date` is shown in the month
    /// of the day `month`: those of the style that the directives of
    /// [`resolve`] build.
    pub fn style(&self, date: &CalendarDate, month: &CalendarDate) -> (codes: String)
        requires
            date.wf(),
            month.wf(),
        ensures
            codes@ == self.codes_of(*date, *month),
    {
        let stylenames = resolve(
            date,
            &month.first_day_of_month(),
            &self.main_date,
            self.event_instances.as_slice(),
            self.theme.date.as_slice(),
            self.styletype,
        );
        tostyle(stylenames).render()
    }

    /// The escape sequences with which the day written in `date` as year,
    /// month and day ("1970-01-31") is shown in the month of the day written
    /// in `month`, or in its own month where `month` is missing or holds no
    /// date. Where `date` holds no date, `date` itself comes back.
    pub fn call(&self, date: &str, month: Option<&str>) -> (codes: String)
        ensures
            codes@ == (match parsed_date(date@, "%Y-%m-%d"@) {
                Some(day) => self.codes_of(
                    day,
                    match parsed_date(
                        match month {
                            Some(text) => text@,
                            None => date@,
                        },
                        "%Y-%m-%d"@,
                    ) {
                        Some(shown) => shown,
                        None => day,
                    },
                ),
                None => date@,
            }),
    {
        if let Some(pdate) = parse_date(date, "%Y-%m-%d") {
            let month = parse_date(month.unwrap_or(date), "%Y-%m-%d").unwrap_or(pdate);
            return self.style(&pdate, &month);
        }
        date.to_owned()
    }
}

} // verus!
