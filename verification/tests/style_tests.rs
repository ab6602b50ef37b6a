use kale::style::{
    resolve_style, Color, Display, FontStyle, FontWeight, InheritableStyle, InteractionFlags,
    Margin, Style, TextDecoration, TextDecorationLine, TextDecorationStyle, Unit,
};

fn flags(hovered: bool, clicked: bool) -> InteractionFlags {
    InteractionFlags { hovered, clicked }
}

#[test]
fn paragraph_non_inherited_fields_match_table() {
    let style = resolve_style("p", &InheritableStyle::default(), flags(false, false));
    assert_eq!(style.display, Display::Block);
    assert_eq!(
        style.margin,
        Margin::new(Unit::Em(100), Unit::Em(0), Unit::Em(100), Unit::Em(0))
    );
    assert_eq!(style.margin.top.to_centipixels(), 1600);
}

#[test]
fn heading_non_inherited_fields_match_table() {
    let style = resolve_style("h1", &InheritableStyle::default(), flags(false, false));
    assert_eq!(style.display, Display::Block);
    assert_eq!(
        style.margin,
        Margin::new(Unit::Em(67), Unit::Em(0), Unit::Em(67), Unit::Em(0))
    );
    // 0.67 em at a 16 px base is 10.72 px.
    assert_eq!(style.margin.top.to_centipixels(), 1072);
    assert_eq!(style.margin.bottom.to_centipixels(), 1072);
    // 2 em at a 16 px base is 32 px.
    assert_eq!(style.font.size.to_centipixels(), 3200);
    assert_eq!(style.font.size.to_pixels_rounded(), 32);
    assert_eq!(style.font.weight, FontWeight::Bold);
    assert_eq!(style.font.style, FontStyle::Normal);
}

#[test]
fn anchor_keeps_default_display_and_margin() {
    let style = resolve_style("a", &InheritableStyle::default(), flags(false, false));
    assert_eq!(style.display, Display::Block);
    assert_eq!(style.margin, Margin::default());
}

#[test]
fn unknown_tag_resolves_to_defaults() {
    let style = resolve_style("marquee", &InheritableStyle::default(), flags(false, false));
    assert_eq!(style, Style::default());
}

#[test]
fn anchor_color_follows_click_state() {
    let unclicked = resolve_style("a", &InheritableStyle::default(), flags(false, false));
    assert_eq!(unclicked.color, Color::new(0, 0, 238));
    assert_eq!(unclicked.text_decoration.color, Color::new(0, 0, 238));
    assert_eq!(unclicked.text_decoration.line, TextDecorationLine::Underline);
    assert_eq!(unclicked.text_decoration.style, TextDecorationStyle::Solid);

    let clicked = resolve_style("a", &InheritableStyle::default(), flags(false, true));
    assert_eq!(clicked.color, Color::new(85, 26, 139));
    assert_eq!(clicked.text_decoration.color, Color::new(85, 26, 139));
    assert_eq!(clicked.text_decoration.line, TextDecorationLine::Underline);
    assert_eq!(clicked.text_decoration.style, TextDecorationStyle::Solid);
}

#[test]
fn anchor_inherits_font_but_overrides_color() {
    let p_style = resolve_style("p", &InheritableStyle::default(), flags(false, false));
    let context = InheritableStyle::from_style(&p_style);
    for clicked in [false, true] {
        let a_style = resolve_style("a", &context, flags(false, clicked));
        assert_eq!(a_style.font, p_style.font);
        assert_ne!(a_style.color, p_style.color);
        assert_ne!(a_style.text_decoration, p_style.text_decoration);
        assert_eq!(a_style.text_decoration.line, TextDecorationLine::Underline);
    }
}

#[test]
fn heading_inherits_color_from_context() {
    let context = InheritableStyle {
        color: Color::new(10, 20, 30),
        ..InheritableStyle::default()
    };
    let style = resolve_style("h1", &context, flags(false, false));
    assert_eq!(style.color, Color::new(10, 20, 30));
    assert_eq!(style.font.weight, FontWeight::Bold);
}

#[test]
fn resolution_is_deterministic() {
    let context = InheritableStyle::default();
    for tag in ["p", "h1", "a", "nav"] {
        for hovered in [false, true] {
            for clicked in [false, true] {
                let first = resolve_style(tag, &context, flags(hovered, clicked));
                let second = resolve_style(tag, &context, flags(hovered, clicked));
                assert_eq!(first, second);
            }
        }
    }
}

#[test]
fn unit_conversions_are_exact() {
    assert_eq!(Unit::Px(1600).to_centipixels(), 1600);
    assert_eq!(Unit::Em(100).to_centipixels(), 1600);
    assert_eq!(Unit::Rem(50).to_centipixels(), 800);
    assert_eq!(Unit::Px(149).to_pixels_rounded(), 1);
    assert_eq!(Unit::Px(150).to_pixels_rounded(), 2);
    assert_eq!(Unit::Em(200).to_pixels_rounded(), 32);
}

#[test]
fn defaults_match_reference_values() {
    let style = Style::default();
    assert_eq!(style.display, Display::Block);
    assert_eq!(style.font.size.to_centipixels(), 1600);
    assert_eq!(style.font.weight, FontWeight::Normal);
    assert_eq!(style.color, Color::new(0, 0, 0));
    assert_eq!(
        style.text_decoration,
        TextDecoration {
            color: Color::new(0, 0, 0),
            line: TextDecorationLine::NoLine,
            style: TextDecorationStyle::Solid,
        }
    );
}
