//! The visual style of a piece of text and how style directives build it.

use crate::bindings::style_codes;
use crate::theme::StyleName;
use vstd::prelude::*;

verus! {

/// A terminal colour: one of the eight named colours, a colour of the
/// 256-colour palette, or a colour given by its red, green and blue parts.
#[derive(Clone, Copy, Debug, PartialEq, Eq, Structural)]
pub enum TextColor {
    Black,
    Red,
    Green,
    Yellow,
    Blue,
    Purple,
    Cyan,
    White,
    Fixed(u8),
    Rgb { r: u8, g: u8, b: u8 },
}

/// The style of a piece of text: which effects are on, and the foreground
/// and background colours where they are set.
#[derive(Clone, Copy, Debug, PartialEq, Eq, Structural)]
pub struct TextStyle {
    pub bold: bool,
    pub dimmed: bool,
    pub italic: bool,
    pub underline: bool,
    pub blink: bool,
    pub reverse: bool,
    pub hidden: bool,
    pub strikethrough: bool,
    pub foreground: Option<TextColor>,
    pub background: Option<TextColor>,
}

impl TextStyle {
    /// The style with no effect and no colour.
    pub open spec fn plain() -> TextStyle {
        TextStyle {
            bold: false,
            dimmed: false,
            italic: false,
            underline: false,
            blink: false,
            reverse: false,
            hidden: false,
            strikethrough: false,
            foreground: None,
            background: None,
        }
    }

    /// The style with the foreground colour set.
    pub open spec fn with_foreground(self, color: TextColor) -> TextStyle {
        TextStyle { foreground: Some(color), ..self }
    }

    /// The style with the background colour set.
    pub open spec fn with_background(self, color: TextColor) -> TextStyle {
        TextStyle { background: Some(color), ..self }
    }

    /// The style after one more directive. An effect is switched on, a
    /// colour replaces the one set before, and `Hidden` also takes the
    /// background colour away, so that hidden text leaves no coloured cell.
    pub open spec fn apply(self, name: StyleName) -> TextStyle {
        match name {
            StyleName::Bold => TextStyle { bold: true, ..self },
            StyleName::Dimmed => TextStyle { dimmed: true, ..self },
            StyleName::Italic => TextStyle { italic: true, ..self },
            StyleName::Underline => TextStyle { underline: true, ..self },
            StyleName::Blink => TextStyle { blink: true, ..self },
            StyleName::Reverse => TextStyle { reverse: true, ..self },
            StyleName::Hidden => TextStyle { hidden: true, background: None, ..self },
            StyleName::Strikethrough => TextStyle { strikethrough: true, ..self },
            StyleName::FGBlack => self.with_foreground(TextColor::Black),
            StyleName::FGRed => self.with_foreground(TextColor::Red),
            StyleName::FGGreen => self.with_foreground(TextColor::Green),
            StyleName::FGYellow => self.with_foreground(TextColor::Yellow),
            StyleName::FGBlue => self.with_foreground(TextColor::Blue),
            StyleName::FGPurple => self.with_foreground(TextColor::Purple),
            StyleName::FGCyan => self.with_foreground(TextColor::Cyan),
            StyleName::FGWhite => self.with_foreground(TextColor::White),
            StyleName::FGrgb { r, g, b } => self.with_foreground(TextColor::Rgb { r, g, b }),
            StyleName::FGFixed(index) => self.with_foreground(TextColor::Fixed(index)),
            StyleName::BGBlack => self.with_background(TextColor::Black),
            StyleName::BGRed => self.with_background(TextColor::Red),
            StyleName::BGGreen => self.with_background(TextColor::Green),
            StyleName::BGYellow => self.with_background(TextColor::Yellow),
            StyleName::BGBlue => self.with_background(TextColor::Blue),
            StyleName::BGPurple => self.with_background(TextColor::Purple),
            StyleName::BGCyan => self.with_background(TextColor::Cyan),
            StyleName::BGWhite => self.with_background(TextColor::White),
            StyleName::BGrgb { r, g, b } => self.with_background(TextColor::Rgb { r, g, b }),
            StyleName::BGFixed(index) => self.with_background(TextColor::Fixed(index)),
        }
    }

    /// The style after all of `names`, applied from the first to the last.
    pub open spec fn apply_all(self, names: Seq<StyleName>) -> TextStyle {
        names.fold_left(self, |style: TextStyle, name: StyleName| style.apply(name))
    }

    /// The style with no effect and no colour.
    pub fn new() -> (style: TextStyle)
        ensures
            style == TextStyle::plain(),
    {
        TextStyle {
            bold: false,
            dimmed: false,
            italic: false,
            underline: false,
            blink: false,
            reverse: false,
            hidden: false,
            strikethrough: false,
            foreground: None,
            background: None,
        }
    }

    /// The style after one more directive.
    pub fn with(self, name: StyleName) -> (style: TextStyle)
        ensures
            style == self.apply(name),
    {
        let mut style = self;
        match name {
            StyleName::Bold => {
                style.bold = true;
            },
            StyleName::Dimmed => {
                style.dimmed = true;
            },
            StyleName::Italic => {
                style.italic = true;
            },
            StyleName::Underline => {
                style.underline = true;
            },
            StyleName::Blink => {
                style.blink = true;
            },
            StyleName::Reverse => {
                style.reverse = true;
            },
            StyleName::Hidden => {
                style.hidden = true;
                style.background = None;
            },
            StyleName::Strikethrough => {
                style.strikethrough = true;
            },
            StyleName::FGBlack => {
                style.foreground = Some(TextColor::Black);
            },
            StyleName::FGRed => {
                style.foreground = Some(TextColor::Red);
            },
            StyleName::FGGreen => {
                style.foreground = Some(TextColor::Green);
            },
            StyleName::FGYellow => {
                style.foreground = Some(TextColor::Yellow);
            },
            StyleName::FGBlue => {
                style.foreground = Some(TextColor::Blue);
            },
            StyleName::FGPurple => {
                style.foreground = Some(TextColor::Purple);
            },
            StyleName::FGCyan => {
                style.foreground = Some(TextColor::Cyan);
            },
            StyleName::FGWhite => {
                style.foreground = Some(TextColor::White);
            },
            StyleName::FGrgb { r, g, b } => {
                style.foreground = Some(TextColor::Rgb { r, g, b });
            },
            StyleName::FGFixed(index) => {
                style.foreground = Some(TextColor::Fixed(index));
            },
            StyleName::BGBlack => {
                style.background = Some(TextColor::Black);
            },
            StyleName::BGRed => {
                style.background = Some(TextColor::Red);
            },
            StyleName::BGGreen => {
                style.background = Some(TextColor::Green);
            },
            StyleName::BGYellow => {
                style.background = Some(TextColor::Yellow);
            },
            StyleName::BGBlue => {
                style.background = Some(TextColor::Blue);
            },
            StyleName::BGPurple => {
                style.background = Some(TextColor::Purple);
            },
            StyleName::BGCyan => {
                style.background = Some(TextColor::Cyan);
            },
            StyleName::BGWhite => {
                style.background = Some(TextColor::White);
            },
            StyleName::BGrgb { r, g, b } => {
                style.background = Some(TextColor::Rgb { r, g, b });
            },
            StyleName::BGFixed(index) => {
                style.background = Some(TextColor::Fixed(index));
            },
        }
        style
    }

    /// The escape sequences that switch a terminal to this style.
    pub fn render(&self) -> (codes: String)
        ensures
            codes@ == ansi_codes(*self),
    {
        style_codes(self)
    }
}

/// The escape sequences that switch a terminal to `style`, as
/// `anstyle::Style::render` writes them.
pub uninterp spec fn ansi_codes(style: TextStyle) -> Seq<char>;

impl Default for TextStyle {
    fn default() -> (style: TextStyle)
        ensures
            style == TextStyle::plain(),
    {
        TextStyle::new()
    }
}

/// The parts of a style: for every effect and for the two colours, whether
/// the part is meant.
pub struct StyleParts {
    pub bold: bool,
    pub dimmed: bool,
    pub italic: bool,
    pub underline: bool,
    pub blink: bool,
    pub reverse: bool,
    pub hidden: bool,
    pub strikethrough: bool,
    pub foreground: bool,
    pub background: bool,
}

impl StyleParts {
    /// No part.
    pub open spec fn none() -> StyleParts {
        StyleParts {
            bold: false,
            dimmed: false,
            italic: false,
            underline: false,
            blink: false,
            reverse: false,
            hidden: false,
            strikethrough: false,
            foreground: false,
            background: false,
        }
    }

    /// The parts that a directive sets: its effect or its colour, and for
    /// `Hidden` the background too.
    pub open spec fn of(name: StyleName) -> StyleParts {
        match name {
            StyleName::Bold => StyleParts { bold: true, ..StyleParts::none() },
            StyleName::Dimmed => StyleParts { dimmed: true, ..StyleParts::none() },
            StyleName::Italic => StyleParts { italic: true, ..StyleParts::none() },
            StyleName::Underline => StyleParts { underline: true, ..StyleParts::none() },
            StyleName::Blink => StyleParts { blink: true, ..StyleParts::none() },
            StyleName::Reverse => StyleParts { reverse: true, ..StyleParts::none() },
            StyleName::Hidden => StyleParts { hidden: true, background: true, ..StyleParts::none() },
            StyleName::Strikethrough => StyleParts { strikethrough: true, ..StyleParts::none() },
            StyleName::FGBlack
            | StyleName::FGRed
            | StyleName::FGGreen
            | StyleName::FGYellow
            | StyleName::FGBlue
            | StyleName::FGPurple
            | StyleName::FGCyan
            | StyleName::FGWhite
            | StyleName::FGrgb { .. }
            | StyleName::FGFixed(_) => StyleParts { foreground: true, ..StyleParts::none() },
            StyleName::BGBlack
            | StyleName::BGRed
            | StyleName::BGGreen
            | StyleName::BGYellow
            | StyleName::BGBlue
            | StyleName::BGPurple
            | StyleName::BGCyan
            | StyleName::BGWhite
            | StyleName::BGrgb { .. }
            | StyleName::BGFixed(_) => StyleParts { background: true, ..StyleParts::none() },
        }
    }

    /// The parts of this and the parts of `other` together.
    pub open spec fn with(self, other: StyleParts) -> StyleParts {
        StyleParts {
            bold: self.bold || other.bold,
            dimmed: self.dimmed || other.dimmed,
            italic: self.italic || other.italic,
            underline: self.underline || other.underline,
            blink: self.blink || other.blink,
            reverse: self.reverse || other.reverse,
            hidden: self.hidden || other.hidden,
            strikethrough: self.strikethrough || other.strikethrough,
            foreground: self.foreground || other.foreground,
            background: self.background || other.background,
        }
    }

    /// The parts that one or more of `names` set.
    pub open spec fn of_all(names: Seq<StyleName>) -> StyleParts
        decreases names.len(),
    {
        if names.len() == 0 {
            StyleParts::none()
        } else {
            StyleParts::of_all(names.drop_last()).with(StyleParts::of(names.last()))
        }
    }
}

impl TextStyle {
    /// This style laid over `under`: the parts `parts` are those of this
    /// style, the others those of `under`.
    pub open spec fn over(self, under: TextStyle, parts: StyleParts) -> TextStyle {
        TextStyle {
            bold: if parts.bold {
                self.bold
            } else {
                under.bold
            },
            dimmed: if parts.dimmed {
                self.dimmed
            } else {
                under.dimmed
            },
            italic: if parts.italic {
                self.italic
            } else {
                under.italic
            },
            underline: if parts.underline {
                self.underline
            } else {
                under.underline
            },
            blink: if parts.blink {
                self.blink
            } else {
                under.blink
            },
            reverse: if parts.reverse {
                self.reverse
            } else {
                under.reverse
            },
            hidden: if parts.hidden {
                self.hidden
            } else {
                under.hidden
            },
            strikethrough: if parts.strikethrough {
                self.strikethrough
            } else {
                under.strikethrough
            },
            foreground: if parts.foreground {
                self.foreground
            } else {
                under.foreground
            },
            background: if parts.background {
                self.background
            } else {
                under.background
            },
        }
    }
}

/// A directive changes the parts that it sets and no other, and what it
/// makes of them does not depend on the style.
pub proof fn lemma_apply_is_over(style: TextStyle, name: StyleName)
    ensures
        style.apply(name) == TextStyle::plain().apply(name).over(style, StyleParts::of(name)),
{
}

/// Laying a style over a style that is itself laid over a third.
proof fn lemma_over_over(
    top: TextStyle,
    set: StyleParts,
    style: TextStyle,
    under: TextStyle,
    parts: StyleParts,
)
    ensures
        top.over(style.over(under, parts), set) == top.over(style, set).over(
            under,
            parts.with(set),
        ),
{
}

/// One directive more on a style laid over another is that directive on
/// the style, laid over the other in one part more.
proof fn lemma_apply_over(style: TextStyle, under: TextStyle, parts: StyleParts, name: StyleName)
    ensures
        style.over(under, parts).apply(name) == style.apply(name).over(
            under,
            parts.with(StyleParts::of(name)),
        ),
{
    lemma_apply_is_over(style.over(under, parts), name);
    lemma_apply_is_over(style, name);
    lemma_over_over(
        TextStyle::plain().apply(name),
        StyleParts::of(name),
        style,
        under,
        parts,
    );
}

/// Directives change the parts that they set and no other, and what they
/// make of those parts does not depend on the style they are applied to:
/// the style after `names` is the style that `names` build from plain text,
/// laid over the style before in the parts that `names` set.
pub proof fn lemma_apply_all_over(start: TextStyle, names: Seq<StyleName>)
    ensures
        start.apply_all(names) == TextStyle::plain().apply_all(names).over(
            start,
            StyleParts::of_all(names),
        ),
    decreases names.len(),
{
    if names.len() > 0 {
        let before = names.drop_last();
        lemma_apply_all_over(start, before);
        lemma_apply_over(
            TextStyle::plain().apply_all(before),
            start,
            StyleParts::of_all(before),
            names.last(),
        );
    }
}

/// Applying directives a second time changes nothing: a style that was
/// built with `names` stays as it is when `names` are applied again, be it
/// at once or later.
pub proof fn lemma_apply_all_twice(start: TextStyle, names: Seq<StyleName>)
    ensures
        start.apply_all(names).apply_all(names) == start.apply_all(names),
        start.apply_all(names + names) == start.apply_all(names),
{
    lemma_apply_all_over(start, names);
    lemma_apply_all_over(start.apply_all(names), names);
    let twice = names + names;
    let apply = |style: TextStyle, name: StyleName| style.apply(name);
    twice.lemma_fold_left_split(start, apply, names.len() as int);
    assert(twice.subrange(0, names.len() as int) =~= names);
    assert(twice.subrange(names.len() as int, twice.len() as int) =~= names);
}

/// Applying the directives up to and with the one at `i` is applying those
/// before it and then that one.
proof fn lemma_apply_next(start: TextStyle, names: Seq<StyleName>, i: int)
    requires
        0 <= i < names.len(),
    ensures
        start.apply_all(names.take(i + 1)) == start.apply_all(names.take(i)).apply(names[i]),
{
    assert(names.take(i + 1).drop_last() =~= names.take(i));
}

/// The style that `styles` build, applied in their order to plain text.
pub fn tostyle(styles: Vec<StyleName>) -> (style: TextStyle)
    ensures
        style == TextStyle::plain().apply_all(styles@),
{
    let mut style = TextStyle::new();
    let mut i: usize = 0;
    while i < styles.len()
        invariant
            i <= styles@.len(),
            style == TextStyle::plain().apply_all(styles@.take(i as int)),
        decreases styles@.len() - i,
    {
        proof {
            lemma_apply_next(TextStyle::plain(), styles@, i as int);
        }
        style = style.with(styles[i]);
        i += 1;
    }
    assert(styles@.take(styles@.len() as int) =~= styles@);
    style
}

/// What can be turned into a text style.
pub trait StyleConversion {
    /// The directives that make the style.
    spec fn directives(&self) -> Seq<StyleName>;

    /// The style that the directives build, applied in their order to plain
    /// text.
    fn to_style(&self) -> (style: TextStyle)
        ensures
            style == TextStyle::plain().apply_all(self.directives()),
    ;
}

impl StyleConversion for Vec<StyleName> {
    open spec fn directives(&self) -> Seq<StyleName> {
        self@
    }

    fn to_style(&self) -> (style: TextStyle) {
        tostyle(self.clone())
    }
}

/// The escape sequence that switches a terminal back to plain text.
pub fn reset_style() -> (codes: String)
    ensures
        codes@ == "\x1B[0m"@,
{
    "\x1B[0m".to_owned()
}

} // verus!
