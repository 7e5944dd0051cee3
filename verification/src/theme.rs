//! Themes: the rules that say which days are shown in which style.

use vstd::prelude::*;

verus! {

/// One visual directive of a style.
#[derive(Clone, Copy, Debug, PartialEq, Eq, Structural)]
pub enum StyleName {
    Bold,
    Dimmed,
    Italic,
    Underline,
    Blink,
    Reverse,
    Hidden,
    Strikethrough,
    FGBlack,
    FGRed,
    FGGreen,
    FGYellow,
    FGBlue,
    FGPurple,
    FGCyan,
    FGWhite,
    FGrgb { r: u8, g: u8, b: u8 },
    FGFixed(u8),
    BGBlack,
    BGRed,
    BGGreen,
    BGYellow,
    BGBlue,
    BGPurple,
    BGCyan,
    BGWhite,
    BGrgb { r: u8, g: u8, b: u8 },
    BGFixed(u8),
}

/// The name under which earlier themes knew [`StyleName`].
pub type AnsiTermStyle = StyleName;

/// The display theme that a style is made for; `Any` is made for both.
#[derive(Clone, Copy, Debug, PartialEq, Eq, Structural)]
pub enum StyleType {
    Dark,
    Light,
    Any,
}

/// A condition on a day, seen in the month that is displayed and against
/// the current date.
#[derive(Clone, Copy, Debug, PartialEq, Eq, Structural)]
pub enum DateProperty {
    FirstDayOfMonth,
    BeforeFirstDayOfMonth,
    BeforeCurrentDate,
    CurrentDate,
    AfterCurrentDate,
    AfterLastDayOfMonth,
    LastDayOfMonth,
    IsEvent,
    Monday,
    Tuesday,
    Wednesday,
    Thursday,
    Friday,
    Saturday,
    Sunday,
    Odd,
    Even,
}

/// A style rule: directives in the order in which they apply, the weight
/// that places the rule among others, and the theme it is made for.
#[derive(Debug)]
pub struct Style {
    pub stylenames: Vec<StyleName>,
    pub weight: u32,
    pub styletype: StyleType,
}

/// What a [`Style`] holds.
pub struct StyleView {
    pub stylenames: Seq<StyleName>,
    pub weight: u32,
    pub styletype: StyleType,
}

impl View for Style {
    type V = StyleView;

    open spec fn view(&self) -> StyleView {
        StyleView {
            stylenames: self.stylenames@,
            weight: self.weight,
            styletype: self.styletype,
        }
    }
}

impl Clone for Style {
    fn clone(&self) -> (copy: Style)
        ensures
            copy@ == self@,
    {
        Style {
            stylenames: self.stylenames.clone(),
            weight: self.weight,
            styletype: self.styletype,
        }
    }
}

impl Default for Style {
    /// No directive, weight 0, made for both themes.
    fn default() -> (style: Style)
        ensures
            style@ == (StyleView { stylenames: Seq::empty(), weight: 0, styletype: StyleType::Any }),
    {
        Style { stylenames: Vec::new(), weight: 0, styletype: StyleType::Any }
    }
}

/// A style with the conditions under which a day gets it: all of them must
/// hold.
#[derive(Debug)]
pub struct DateStyle {
    pub properties: Vec<DateProperty>,
    pub style: Style,
}

/// What a [`DateStyle`] holds.
pub struct DateStyleView {
    pub properties: Seq<DateProperty>,
    pub style: StyleView,
}

impl View for DateStyle {
    type V = DateStyleView;

    open spec fn view(&self) -> DateStyleView {
        DateStyleView { properties: self.properties@, style: self.style@ }
    }
}

impl Clone for DateStyle {
    fn clone(&self) -> (copy: DateStyle)
        ensures
            copy@ == self@,
    {
        DateStyle { properties: self.properties.clone(), style: self.style.clone() }
    }
}

impl Default for DateStyle {
    /// No condition and the default style.
    fn default() -> (datestyle: DateStyle)
        ensures
            datestyle@ == (DateStyleView {
                properties: Seq::empty(),
                style: StyleView {
                    stylenames: Seq::empty(),
                    weight: 0,
                    styletype: StyleType::Any,
                },
            }),
    {
        DateStyle { properties: Vec::new(), style: Style::default() }
    }
}

/// The views of a sequence of date styles, in their order.
pub open spec fn date_style_views(styles: Seq<DateStyle>) -> Seq<DateStyleView> {
    Seq::new(styles.len(), |i: int| styles[i]@)
}

/// A theme: date styles in the order in which the theme lists them.
#[derive(Debug)]
pub struct Theme {
    pub date: Vec<DateStyle>,
}

impl View for Theme {
    type V = Seq<DateStyleView>;

    open spec fn view(&self) -> Seq<DateStyleView> {
        date_style_views(self.date@)
    }
}

/// A rule of the builtin theme: one condition, directives, a weight.
pub open spec fn builtin_rule(
    property: DateProperty,
    stylenames: Seq<StyleName>,
    weight: u32,
) -> DateStyleView {
    DateStyleView {
        properties: seq![property],
        style: StyleView { stylenames, weight, styletype: StyleType::Any },
    }
}

/// The builtin theme: the current date bold and underlined, and the days of
/// neighbouring months hidden, with weight 1.
pub open spec fn builtin_theme() -> Seq<DateStyleView> {
    seq![
        builtin_rule(DateProperty::CurrentDate, seq![StyleName::Bold, StyleName::Underline], 0),
        builtin_rule(DateProperty::BeforeFirstDayOfMonth, seq![StyleName::Hidden], 1),
        builtin_rule(DateProperty::AfterLastDayOfMonth, seq![StyleName::Hidden], 1),
    ]
}

/// A date style with one condition, made for both themes.
fn rule(property: DateProperty, stylenames: Vec<StyleName>, weight: u32) -> (datestyle: DateStyle)
    ensures
        datestyle@ == builtin_rule(property, stylenames@, weight),
{
    let mut properties: Vec<DateProperty> = Vec::new();
    properties.push(property);
    DateStyle { properties, style: Style { stylenames, weight, styletype: StyleType::Any } }
}

/// The date styles of the builtin theme.
pub fn default_datestyle_vector() -> (styles: Vec<DateStyle>)
    ensures
        date_style_views(styles@) == builtin_theme(),
{
    let mut current: Vec<StyleName> = Vec::new();
    current.push(StyleName::Bold);
    current.push(StyleName::Underline);
    let mut before: Vec<StyleName> = Vec::new();
    before.push(StyleName::Hidden);
    let mut after: Vec<StyleName> = Vec::new();
    after.push(StyleName::Hidden);
    assert(current@ =~= seq![StyleName::Bold, StyleName::Underline]);
    assert(before@ =~= seq![StyleName::Hidden]);
    assert(after@ =~= seq![StyleName::Hidden]);
    let mut styles: Vec<DateStyle> = Vec::new();
    styles.push(rule(DateProperty::CurrentDate, current, 0));
    styles.push(rule(DateProperty::BeforeFirstDayOfMonth, before, 1));
    styles.push(rule(DateProperty::AfterLastDayOfMonth, after, 1));
    assert(date_style_views(styles@) =~= builtin_theme());
    styles
}

impl Clone for Theme {
    fn clone(&self) -> (copy: Theme)
        ensures
            copy@ == self@,
    {
        let mut date: Vec<DateStyle> = Vec::new();
        let mut i: usize = 0;
        while i < self.date.len()
            invariant
                i <= self.date@.len(),
                date@.len() == i,
                forall|j: int| 0 <= j < i ==> (#[trigger] date@[j])@ == self.date@[j]@,
            decreases self.date@.len() - i,
        {
            date.push(self.date[i].clone());
            i += 1;
        }
        Theme { date }
    }
}

impl Default for Theme {
    /// The builtin theme.
    fn default() -> (theme: Theme)
        ensures
            theme@ == builtin_theme(),
    {
        Theme { date: default_datestyle_vector() }
    }
}

} // verus!
