//! Style types and cascade resolution.
//!
//! A tag maps to a partial style override; resolution merges that override
//! with the inherited context.  Inheritable fields (font, color, text
//! decoration) fall back to the inherited context, non-inheritable fields
//! (display, margin) fall back to the type's default.  Anchors take their
//! color from the current interaction flags of the element.
//!
//! Lengths are stored in hundredths of their unit, and resolve to centipixels
//! (hundredths of a pixel) with a fixed base of 16 pixels per em/rem.

use vstd::prelude::*;
use crate::text::str_eq;

verus! {

/// The layout mode of an element.
#[derive(Clone, Copy, Debug, PartialEq, Eq, Structural)]
pub enum Display {
    Block,
    Inline,
}

impl Display {
    pub open spec fn spec_default() -> Display {
        Display::Block
    }
}

impl Default for Display {
    fn default() -> (r: Self)
        ensures
            r == Display::spec_default(),
    {
        Display::Block
    }
}

/// A length, with its value in hundredths of the unit.
/// `Em(67)` is 0.67 em; `Px(1600)` is 16 px.
#[derive(Clone, Copy, Debug, PartialEq, Eq, Structural)]
pub enum Unit {
    Px(u32),
    Em(u32),
    Rem(u32),
}

impl Unit {
    /// The length in centipixels; em and rem resolve against a 16 px base.
    pub open spec fn spec_to_centipixels(self) -> u64 {
        match self {
            Unit::Px(h) => h as u64,
            Unit::Em(h) => (16 * h) as u64,
            Unit::Rem(h) => (16 * h) as u64,
        }
    }

    pub fn to_centipixels(&self) -> (r: u64)
        ensures
            r == self.spec_to_centipixels(),
    {
        match self {
            Unit::Px(h) => *h as u64,
            Unit::Em(h) => 16u64 * (*h as u64),
            Unit::Rem(h) => 16u64 * (*h as u64),
        }
    }

    /// The length rounded to whole pixels, as handed to a text provider.
    pub open spec fn spec_to_pixels_rounded(self) -> u16 {
        let px = (self.spec_to_centipixels() + 50) / 100;
        if px > u16::MAX {
            u16::MAX
        } else {
            px as u16
        }
    }

    pub fn to_pixels_rounded(&self) -> (r: u16)
        ensures
            r == self.spec_to_pixels_rounded(),
    {
        let px = (self.to_centipixels() + 50) / 100;
        if px > u16::MAX as u64 {
            u16::MAX
        } else {
            px as u16
        }
    }
}

/// Margins on the four sides of a block.
#[derive(Clone, Copy, Debug, PartialEq, Eq, Structural)]
pub struct Margin {
    pub top: Unit,
    pub right: Unit,
    pub bottom: Unit,
    pub left: Unit,
}

impl Margin {
    pub fn new(top: Unit, right: Unit, bottom: Unit, left: Unit) -> (r: Self)
        ensures
            r == (Margin { top, right, bottom, left }),
    {
        Margin { top, right, bottom, left }
    }

    pub open spec fn spec_default() -> Margin {
        Margin { top: Unit::Px(0), right: Unit::Px(0), bottom: Unit::Px(0), left: Unit::Px(0) }
    }
}

impl Default for Margin {
    fn default() -> (r: Self)
        ensures
            r == Margin::spec_default(),
    {
        Margin { top: Unit::Px(0), right: Unit::Px(0), bottom: Unit::Px(0), left: Unit::Px(0) }
    }
}

/// A font family known to the text provider.
#[derive(Clone, Copy, Debug, PartialEq, Eq, Structural, Hash)]
pub enum FontFamily {
    TimesNewRoman,
}

impl FontFamily {
    pub open spec fn spec_default() -> FontFamily {
        FontFamily::TimesNewRoman
    }
}

impl Default for FontFamily {
    fn default() -> (r: Self)
        ensures
            r == FontFamily::spec_default(),
    {
        FontFamily::TimesNewRoman
    }
}

#[derive(Clone, Copy, Debug, PartialEq, Eq, Structural, Hash)]
pub enum FontWeight {
    Normal,
    Bold,
}

impl FontWeight {
    pub open spec fn spec_default() -> FontWeight {
        FontWeight::Normal
    }
}

impl Default for FontWeight {
    fn default() -> (r: Self)
        ensures
            r == FontWeight::spec_default(),
    {
        FontWeight::Normal
    }
}

#[derive(Clone, Copy, Debug, PartialEq, Eq, Structural)]
pub enum FontStyle {
    Normal,
    Italic,
}

impl FontStyle {
    pub open spec fn spec_default() -> FontStyle {
        FontStyle::Normal
    }
}

impl Default for FontStyle {
    fn default() -> (r: Self)
        ensures
            r == FontStyle::spec_default(),
    {
        FontStyle::Normal
    }
}

/// A font selection: size plus the provider key (family, weight) and slant.
#[derive(Clone, Copy, Debug, PartialEq, Eq, Structural)]
pub struct Font {
    pub size: Unit,
    pub family: FontFamily,
    pub weight: FontWeight,
    pub style: FontStyle,
}

impl Font {
    pub fn new(size: Unit, family: FontFamily, weight: FontWeight, style: FontStyle) -> (r: Self)
        ensures
            r == (Font { size, family, weight, style }),
    {
        Font { size, family, weight, style }
    }

    pub open spec fn spec_default() -> Font {
        Font {
            size: Unit::Px(1600),
            family: FontFamily::TimesNewRoman,
            weight: FontWeight::Normal,
            style: FontStyle::Normal,
        }
    }
}

impl Default for Font {
    fn default() -> (r: Self)
        ensures
            r == Font::spec_default(),
    {
        Font {
            size: Unit::Px(1600),
            family: FontFamily::TimesNewRoman,
            weight: FontWeight::Normal,
            style: FontStyle::Normal,
        }
    }
}

/// An RGBA color.
#[derive(Clone, Copy, Debug, PartialEq, Eq, Structural)]
pub struct Color {
    pub r: u8,
    pub g: u8,
    pub b: u8,
    pub a: u8,
}

impl Color {
    /// A fully opaque color.
    pub fn new(r: u8, g: u8, b: u8) -> (c: Self)
        ensures
            c == (Color { r, g, b, a: 255u8 }),
    {
        Color { r, g, b, a: 255 }
    }

    pub open spec fn spec_default() -> Color {
        Color { r: 0, g: 0, b: 0, a: 255 }
    }

    /// The reference color of an unvisited anchor.
    pub open spec fn spec_link() -> Color {
        Color { r: 0, g: 0, b: 238, a: 255 }
    }

    /// The reference color of a clicked (visited) anchor.
    pub open spec fn spec_visited() -> Color {
        Color { r: 85, g: 26, b: 139, a: 255 }
    }
}

impl Default for Color {
    fn default() -> (r: Self)
        ensures
            r == Color::spec_default(),
    {
        Color { r: 0, g: 0, b: 0, a: 255 }
    }
}

#[derive(Clone, Copy, Debug, PartialEq, Eq, Structural)]
pub enum TextDecorationLine {
    NoLine,
    Underline,
    Overline,
    LineThrough,
}

impl TextDecorationLine {
    pub open spec fn spec_default() -> TextDecorationLine {
        TextDecorationLine::NoLine
    }
}

impl Default for TextDecorationLine {
    fn default() -> (r: Self)
        ensures
            r == TextDecorationLine::spec_default(),
    {
        TextDecorationLine::NoLine
    }
}

#[derive(Clone, Copy, Debug, PartialEq, Eq, Structural)]
pub enum TextDecorationStyle {
    Solid,
    Double,
    Dotted,
    Dashed,
    Wavy,
}

impl TextDecorationStyle {
    pub open spec fn spec_default() -> TextDecorationStyle {
        TextDecorationStyle::Solid
    }
}

impl Default for TextDecorationStyle {
    fn default() -> (r: Self)
        ensures
            r == TextDecorationStyle::spec_default(),
    {
        TextDecorationStyle::Solid
    }
}

/// Decoration drawn with a text run, such as an underline.
#[derive(Clone, Copy, Debug, PartialEq, Eq, Structural)]
pub struct TextDecoration {
    pub color: Color,
    pub line: TextDecorationLine,
    pub style: TextDecorationStyle,
}

impl TextDecoration {
    pub open spec fn spec_default() -> TextDecoration {
        TextDecoration {
            color: Color::spec_default(),
            line: TextDecorationLine::spec_default(),
            style: TextDecorationStyle::spec_default(),
        }
    }

    /// The decoration of an anchor: a solid underline in the given color.
    pub open spec fn spec_anchor(color: Color) -> TextDecoration {
        TextDecoration {
            color,
            line: TextDecorationLine::Underline,
            style: TextDecorationStyle::Solid,
        }
    }
}

impl Default for TextDecoration {
    fn default() -> (r: Self)
        ensures
            r == TextDecoration::spec_default(),
    {
        TextDecoration {
            color: Color { r: 0, g: 0, b: 0, a: 255 },
            line: TextDecorationLine::NoLine,
            style: TextDecorationStyle::Solid,
        }
    }
}

/// A fully resolved style.
#[derive(Clone, Copy, Debug, PartialEq, Eq, Structural)]
pub struct Style {
    pub display: Display,
    pub margin: Margin,
    pub font: Font,
    pub color: Color,
    pub text_decoration: TextDecoration,
}

impl Style {
    pub fn new(
        display: Display,
        margin: Margin,
        font: Font,
        color: Color,
        text_decoration: TextDecoration,
    ) -> (r: Self)
        ensures
            r == (Style { display, margin, font, color, text_decoration }),
    {
        Style { display, margin, font, color, text_decoration }
    }

    pub open spec fn spec_default() -> Style {
        Style {
            display: Display::spec_default(),
            margin: Margin::spec_default(),
            font: Font::spec_default(),
            color: Color::spec_default(),
            text_decoration: TextDecoration::spec_default(),
        }
    }
}

impl Default for Style {
    fn default() -> (r: Self)
        ensures
            r == Style::spec_default(),
    {
        Style {
            display: Display::default(),
            margin: Margin::default(),
            font: Font::default(),
            color: Color::default(),
            text_decoration: TextDecoration::default(),
        }
    }
}

/// The subset of a style that propagates to children.
#[derive(Clone, Copy, Debug, PartialEq, Eq, Structural)]
pub struct InheritableStyle {
    pub font: Font,
    pub color: Color,
    pub text_decoration: TextDecoration,
}

impl InheritableStyle {
    pub open spec fn spec_default() -> InheritableStyle {
        InheritableStyle {
            font: Font::spec_default(),
            color: Color::spec_default(),
            text_decoration: TextDecoration::spec_default(),
        }
    }

    /// The context a resolved style hands down to its children.
    pub open spec fn spec_from_style(style: Style) -> InheritableStyle {
        InheritableStyle {
            font: style.font,
            color: style.color,
            text_decoration: style.text_decoration,
        }
    }

    pub fn from_style(style: &Style) -> (r: InheritableStyle)
        ensures
            r == InheritableStyle::spec_from_style(*style),
    {
        InheritableStyle {
            font: style.font,
            color: style.color,
            text_decoration: style.text_decoration,
        }
    }
}

impl Default for InheritableStyle {
    fn default() -> (r: Self)
        ensures
            r == InheritableStyle::spec_default(),
    {
        InheritableStyle {
            font: Font::default(),
            color: Color::default(),
            text_decoration: TextDecoration::default(),
        }
    }
}

/// The per-element interaction flags read during style resolution.
#[derive(Clone, Copy, Debug, PartialEq, Eq, Structural)]
pub struct InteractionFlags {
    pub hovered: bool,
    pub clicked: bool,
}

impl InteractionFlags {
    pub open spec fn spec_default() -> InteractionFlags {
        InteractionFlags { hovered: false, clicked: false }
    }
}

impl Default for InteractionFlags {
    fn default() -> (r: Self)
        ensures
            r == InteractionFlags::spec_default(),
    {
        InteractionFlags { hovered: false, clicked: false }
    }
}

/// A partial style: the per-tag override table entry.
#[derive(Clone, Copy, Debug)]
pub struct MaybeStyle {
    pub display: Option<Display>,
    pub margin: Option<Margin>,
    pub font: Option<Font>,
    pub color: Option<Color>,
    pub text_decoration: Option<TextDecoration>,
}

impl MaybeStyle {
    /// The override table entry for a tag.  Unknown tags override nothing.
    pub open spec fn spec_from_tag(tag: Seq<char>) -> MaybeStyle {
        if tag == "p"@ {
            MaybeStyle {
                display: Some(Display::Block),
                margin: Some(
                    Margin {
                        top: Unit::Em(100),
                        right: Unit::Em(0),
                        bottom: Unit::Em(100),
                        left: Unit::Em(0),
                    },
                ),
                font: None,
                color: None,
                text_decoration: None,
            }
        } else if tag == "h1"@ {
            MaybeStyle {
                display: Some(Display::Block),
                margin: Some(
                    Margin {
                        top: Unit::Em(67),
                        right: Unit::Em(0),
                        bottom: Unit::Em(67),
                        left: Unit::Em(0),
                    },
                ),
                font: Some(
                    Font {
                        size: Unit::Em(200),
                        family: FontFamily::TimesNewRoman,
                        weight: FontWeight::Bold,
                        style: FontStyle::Normal,
                    },
                ),
                color: None,
                text_decoration: None,
            }
        } else if tag == "a"@ {
            MaybeStyle {
                display: None,
                margin: None,
                font: None,
                color: Some(Color::spec_link()),
                text_decoration: Some(TextDecoration::spec_anchor(Color::spec_link())),
            }
        } else {
            MaybeStyle { display: None, margin: None, font: None, color: None, text_decoration: None }
        }
    }

    pub fn from_tag(tag: &str) -> (r: MaybeStyle)
        ensures
            r == MaybeStyle::spec_from_tag(tag@),
    {
        if str_eq(tag, "p") {
            MaybeStyle {
                display: Some(Display::Block),
                margin: Some(
                    Margin::new(Unit::Em(100), Unit::Em(0), Unit::Em(100), Unit::Em(0)),
                ),
                font: None,
                color: None,
                text_decoration: None,
            }
        } else if str_eq(tag, "h1") {
            MaybeStyle {
                display: Some(Display::Block),
                margin: Some(Margin::new(Unit::Em(67), Unit::Em(0), Unit::Em(67), Unit::Em(0))),
                font: Some(
                    Font::new(
                        Unit::Em(200),
                        FontFamily::TimesNewRoman,
                        FontWeight::Bold,
                        FontStyle::Normal,
                    ),
                ),
                color: None,
                text_decoration: None,
            }
        } else if str_eq(tag, "a") {
            MaybeStyle {
                display: None,
                margin: None,
                font: None,
                color: Some(Color::new(0, 0, 238)),
                text_decoration: Some(
                    TextDecoration {
                        color: Color::new(0, 0, 238),
                        line: TextDecorationLine::Underline,
                        style: TextDecorationStyle::Solid,
                    },
                ),
            }
        } else {
            MaybeStyle { display: None, margin: None, font: None, color: None, text_decoration: None }
        }
    }
}

/// Whether a tag is the anchor tag, whose color follows interaction state.
pub open spec fn spec_is_anchor(tag: Seq<char>) -> bool {
    tag == "a"@
}

/// The resolved style of a tag under an inherited context and the element's
/// current interaction flags.
///
/// Inheritable fields (font, color, text decoration) take the tag's override
/// if present, else the inherited value.  Non-inheritable fields (display,
/// margin) take the tag's override if present, else the type's default.  For
/// an anchor, color and decoration color follow the clicked flag; the
/// decoration is always a solid underline.
pub open spec fn spec_resolve_style(
    tag: Seq<char>,
    inherited: InheritableStyle,
    flags: InteractionFlags,
) -> Style {
    let over = MaybeStyle::spec_from_tag(tag);
    let base = Style {
        display: match over.display {
            Some(d) => d,
            None => Display::spec_default(),
        },
        margin: match over.margin {
            Some(m) => m,
            None => Margin::spec_default(),
        },
        font: match over.font {
            Some(f) => f,
            None => inherited.font,
        },
        color: match over.color {
            Some(c) => c,
            None => inherited.color,
        },
        text_decoration: match over.text_decoration {
            Some(t) => t,
            None => inherited.text_decoration,
        },
    };
    if spec_is_anchor(tag) {
        let c = if flags.clicked {
            Color::spec_visited()
        } else {
            Color::spec_link()
        };
        Style { color: c, text_decoration: TextDecoration::spec_anchor(c), ..base }
    } else {
        base
    }
}

/// Resolves the style of a tag against the inherited context and the
/// element's interaction flags.
pub fn resolve_style(tag: &str, inherited: &InheritableStyle, flags: InteractionFlags) -> (r:
    Style)
    ensures
        r == spec_resolve_style(tag@, *inherited, flags),
{
    let over = MaybeStyle::from_tag(tag);
    let base = Style {
        display: match over.display {
            Some(d) => d,
            None => Display::default(),
        },
        margin: match over.margin {
            Some(m) => m,
            None => Margin::default(),
        },
        font: match over.font {
            Some(f) => f,
            None => inherited.font,
        },
        color: match over.color {
            Some(c) => c,
            None => inherited.color,
        },
        text_decoration: match over.text_decoration {
            Some(t) => t,
            None => inherited.text_decoration,
        },
    };
    if str_eq(tag, "a") {
        let c = if flags.clicked {
            Color::new(85, 26, 139)
        } else {
            Color::new(0, 0, 238)
        };
        Style {
            color: c,
            text_decoration: TextDecoration {
                color: c,
                line: TextDecorationLine::Underline,
                style: TextDecorationStyle::Solid,
            },
            ..base
        }
    } else {
        base
    }
}

/// For every recognized tag, the non-inherited fields of the resolved style
/// (display, margin) come from a fixed table, whatever the inherited context
/// and interaction flags: a paragraph is a block with 1 em vertical margins,
/// a level-one heading is a block with 0.67 em vertical margins and a bold
/// font of twice the base size, and an anchor keeps the default display and
/// margin.
pub proof fn lemma_recognized_tag_table(inherited: InheritableStyle, flags: InteractionFlags)
    ensures
        spec_resolve_style("p"@, inherited, flags).display == Display::Block,
        spec_resolve_style("p"@, inherited, flags).margin == (Margin {
            top: Unit::Em(100),
            right: Unit::Em(0),
            bottom: Unit::Em(100),
            left: Unit::Em(0),
        }),
        spec_resolve_style("h1"@, inherited, flags).display == Display::Block,
        spec_resolve_style("h1"@, inherited, flags).margin == (Margin {
            top: Unit::Em(67),
            right: Unit::Em(0),
            bottom: Unit::Em(67),
            left: Unit::Em(0),
        }),
        spec_resolve_style("h1"@, inherited, flags).margin.top.spec_to_centipixels() == 1072,
        spec_resolve_style("h1"@, inherited, flags).font.size.spec_to_centipixels() == 3200,
        spec_resolve_style("h1"@, inherited, flags).font.weight == FontWeight::Bold,
        spec_resolve_style("a"@, inherited, flags).display == Display::spec_default(),
        spec_resolve_style("a"@, inherited, flags).margin == Margin::spec_default(),
{
    reveal_strlit("p");
    reveal_strlit("h1");
    reveal_strlit("a");
    assert("p"@ != "h1"@ && "p"@ != "a"@ && "h1"@ != "a"@) by {
        assert("p"@.len() == 1 && "h1"@.len() == 2 && "a"@.len() == 1);
        assert("p"@[0] == 'p' && "a"@[0] == 'a');
    }
}

/// Inheritance through a paragraph: an anchor inside a paragraph inherits
/// the paragraph's resolved font, while its color and text decoration are
/// overridden, and its decoration line is an underline whatever the click
/// state.  The inherited context is only asked not to use the two anchor
/// reference colors itself.
pub proof fn lemma_anchor_inherits(
    inherited: InheritableStyle,
    p_flags: InteractionFlags,
    a_flags: InteractionFlags,
)
    requires
        inherited.color != Color::spec_link(),
        inherited.color != Color::spec_visited(),
        inherited.text_decoration.line != TextDecorationLine::Underline,
    ensures
        ({
            let p_style = spec_resolve_style("p"@, inherited, p_flags);
            let a_style = spec_resolve_style(
                "a"@,
                InheritableStyle::spec_from_style(p_style),
                a_flags,
            );
            &&& a_style.font == p_style.font
            &&& a_style.color != p_style.color
            &&& a_style.text_decoration != p_style.text_decoration
            &&& a_style.text_decoration.line == TextDecorationLine::Underline
        }),
{
    reveal_strlit("p");
    reveal_strlit("h1");
    reveal_strlit("a");
    assert("p"@ != "a"@ && "p"@ != "h1"@ && "a"@ != "h1"@) by {
        assert("p"@.len() == 1 && "a"@.len() == 1 && "h1"@.len() == 2);
        assert("p"@[0] == 'p' && "a"@[0] == 'a');
    }
}

/// Style resolution is deterministic: equal inputs resolve to the identical
/// style.
pub proof fn lemma_resolve_deterministic(
    tag1: Seq<char>,
    inherited1: InheritableStyle,
    flags1: InteractionFlags,
    tag2: Seq<char>,
    inherited2: InheritableStyle,
    flags2: InteractionFlags,
)
    requires
        tag1 == tag2,
        inherited1 == inherited2,
        flags1 == flags2,
    ensures
        spec_resolve_style(tag1, inherited1, flags1) == spec_resolve_style(
            tag2,
            inherited2,
            flags2,
        ),
{
}

} // verus!

