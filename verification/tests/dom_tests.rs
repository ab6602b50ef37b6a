use kale::dom::{BuildError, DOMAction, DOMElement, DOM};
use kale::html::HTMLElement;
use kale::interaction::InteractionState;
use kale::provider::RenderError;
use kale::style::{Color, Display, FontWeight, Margin, Style, Unit};

fn attr(name: &str, value: &str) -> (String, String) {
    (String::from(name), String::from(value))
}

fn element(tag: &str, attrs: Vec<(String, String)>, children: Vec<HTMLElement>) -> HTMLElement {
    HTMLElement::new(String::from(tag), attrs, children)
}

fn text(s: &str) -> HTMLElement {
    HTMLElement::Text(String::from(s))
}

#[test]
fn from_html_element_extracts_anchor_hrefs() {
    let attrs = vec![attr("id", "x"), attr("href", "https://example.com")];
    let actions = DOMAction::from_html_element("a", &attrs);
    assert_eq!(actions.len(), 1);
    let DOMAction::ClickToRedirect(url) = &actions[0];
    assert_eq!(url, "https://example.com");
}

#[test]
fn from_html_element_ignores_other_tags() {
    let attrs = vec![attr("href", "https://example.com")];
    assert_eq!(DOMAction::from_html_element("p", &attrs).len(), 0);
    assert_eq!(DOMAction::from_html_element("h1", &attrs).len(), 0);
}

#[test]
fn build_heading_with_text_child() {
    let state = InteractionState::new();
    let input = vec![element("h1", vec![attr("id", "t")], vec![text("Hello World")])];
    let dom = DOM::construct_dom(input, &state).unwrap();
    assert_eq!(dom.elements.len(), 1);
    match &dom.elements[0] {
        DOMElement::View { style, children, actions, id } => {
            assert_eq!(id, "t");
            assert_eq!(style.display, Display::Block);
            assert_eq!(
                style.margin,
                Margin::new(Unit::Em(67), Unit::Em(0), Unit::Em(67), Unit::Em(0))
            );
            assert_eq!(style.font.size.to_centipixels(), 3200);
            assert_eq!(style.font.weight, FontWeight::Bold);
            assert_eq!(actions.len(), 0);
            assert_eq!(children.len(), 1);
            match &children[0] {
                DOMElement::Text { style: leaf_style, text, actions, id } => {
                    assert_eq!(text, "Hello World");
                    assert_eq!(id, "t.0");
                    assert_eq!(actions.len(), 0);
                    assert_eq!(leaf_style.display, Display::Inline);
                    assert_eq!(leaf_style.margin, Margin::default());
                    // the leaf inherits the heading's font
                    assert_eq!(leaf_style.font, style.font);
                },
                DOMElement::View { .. } => panic!("expected a leaf"),
            }
        },
        DOMElement::Text { .. } => panic!("expected a container"),
    }
}

#[test]
fn build_makes_inheritance_transitive() {
    // div sets no overrides, yet the anchor below it still inherits the
    // heading-sized font resolved at the top.
    let state = InteractionState::new();
    let input = vec![element(
        "h1",
        vec![],
        vec![element(
            "div",
            vec![],
            vec![element("a", vec![attr("href", "u")], vec![text("go")])],
        )],
    )];
    let dom = DOM::construct_dom(input, &state).unwrap();
    let h1 = match &dom.elements[0] {
        DOMElement::View { style, children, .. } => (style, children),
        _ => panic!(),
    };
    let div = match &h1.1[0] {
        DOMElement::View { style, children, .. } => (style, children),
        _ => panic!(),
    };
    let anchor = match &div.1[0] {
        DOMElement::View { style, .. } => style,
        _ => panic!(),
    };
    assert_eq!(div.0.font, h1.0.font);
    assert_eq!(anchor.font, h1.0.font);
    assert_eq!(anchor.color, Color::new(0, 0, 238));
    assert_ne!(anchor.color, div.0.color);
}

#[test]
fn build_synthesizes_positional_ids() {
    let state = InteractionState::new();
    let input = vec![
        element("p", vec![], vec![text("a"), text("b")]),
        element("p", vec![], vec![text("c")]),
    ];
    let dom = DOM::construct_dom(input, &state).unwrap();
    let ids: Vec<String> = dom
        .elements
        .iter()
        .map(|e| match e {
            DOMElement::View { id, .. } => id.clone(),
            DOMElement::Text { id, .. } => id.clone(),
        })
        .collect();
    assert_eq!(ids, vec![String::from("0"), String::from("1")]);
    match &dom.elements[0] {
        DOMElement::View { children, .. } => {
            match &children[1] {
                DOMElement::Text { id, .. } => assert_eq!(id, "0.1"),
                _ => panic!(),
            }
        },
        _ => panic!(),
    }
}

#[test]
fn anchor_without_href_is_malformed() {
    let state = InteractionState::new();
    let input = vec![element("a", vec![attr("id", "x")], vec![text("go")])];
    match DOM::construct_dom(input, &state) {
        Err(BuildError::MalformedInput { tag, id }) => {
            assert_eq!(tag, "a");
            assert_eq!(id, "x");
        },
        Ok(_) => panic!("expected a malformed-input error"),
    }
}

#[test]
fn heading_without_text_is_malformed() {
    let state = InteractionState::new();
    let input = vec![element("h1", vec![], vec![element("div", vec![], vec![])])];
    match DOM::construct_dom(input, &state) {
        Err(BuildError::MalformedInput { tag, .. }) => assert_eq!(tag, "h1"),
        Ok(_) => panic!("expected a malformed-input error"),
    }
}

#[test]
fn unknown_tag_degrades_to_default_style() {
    let state = InteractionState::new();
    let input = vec![element("marquee", vec![], vec![text("x")])];
    let dom = DOM::construct_dom(input, &state).unwrap();
    match &dom.elements[0] {
        DOMElement::View { style, .. } => assert_eq!(*style, Style::default()),
        _ => panic!(),
    }
}

fn leaf(style: Style, s: &str, id: &str) -> DOMElement {
    DOMElement::Text {
        style,
        text: String::from(s),
        actions: vec![],
        id: String::from(id),
    }
}

#[test]
fn to_text_collapses_single_text_child() {
    let wrapper = DOMElement::View {
        style: Style::default(),
        children: vec![leaf(Style::default(), "inner", "w.0")],
        actions: vec![DOMAction::ClickToRedirect(String::from("u"))],
        id: String::from("w"),
    };
    match wrapper.to_text().unwrap() {
        DOMElement::Text { text, actions, id, .. } => {
            assert_eq!(text, "inner");
            assert_eq!(id, "w");
            assert_eq!(actions.len(), 1);
        },
        DOMElement::View { .. } => panic!("expected a leaf"),
    }
}

#[test]
fn to_text_of_a_leaf_is_itself() {
    let l = leaf(Style::default(), "x", "t");
    match l.to_text().unwrap() {
        DOMElement::Text { text, id, .. } => {
            assert_eq!(text, "x");
            assert_eq!(id, "t");
        },
        DOMElement::View { .. } => panic!(),
    }
}

#[test]
fn to_text_rejects_zero_or_many_children() {
    let empty = DOMElement::View {
        style: Style::default(),
        children: vec![],
        actions: vec![],
        id: String::from("e"),
    };
    match empty.to_text() {
        Err(RenderError::CollapseViolation { id }) => assert_eq!(id, "e"),
        _ => panic!("expected a collapse violation"),
    }
    let two = DOMElement::View {
        style: Style::default(),
        children: vec![leaf(Style::default(), "a", "x.0"), leaf(Style::default(), "b", "x.1")],
        actions: vec![],
        id: String::from("x"),
    };
    match two.to_text() {
        Err(RenderError::CollapseViolation { id }) => assert_eq!(id, "x"),
        _ => panic!("expected a collapse violation"),
    }
}

#[test]
fn unchecked_text_reads_a_leaf() {
    let l = leaf(Style::default(), "payload", "t");
    assert_eq!(l.unchecked_text(), "payload");
    assert_eq!(l.style().display, Display::Block);
    assert_eq!(l.actions().len(), 0);
}

#[test]
fn repeated_href_attributes_yield_one_action_each() {
    let attrs = vec![attr("href", "first"), attr("id", "x"), attr("href", "second")];
    let actions = DOMAction::from_html_element("a", &attrs);
    assert_eq!(actions.len(), 2);
    let DOMAction::ClickToRedirect(first) = &actions[0];
    let DOMAction::ClickToRedirect(second) = &actions[1];
    assert_eq!(first, "first");
    assert_eq!(second, "second");
}

#[test]
fn first_id_attribute_wins() {
    let state = InteractionState::new();
    let input = vec![element("p", vec![attr("id", "one"), attr("id", "two")], vec![text("x")])];
    let dom = DOM::construct_dom(input, &state).unwrap();
    match &dom.elements[0] {
        DOMElement::View { id, .. } => assert_eq!(id, "one"),
        _ => panic!(),
    }
}

#[test]
fn duplicate_explicit_ids_are_malformed() {
    let state = InteractionState::new();
    let input = vec![
        element("p", vec![attr("id", "x")], vec![text("a")]),
        element("p", vec![attr("id", "x")], vec![text("b")]),
    ];
    match DOM::construct_dom(input, &state) {
        Err(BuildError::MalformedInput { tag, id }) => {
            assert_eq!(tag, "p");
            assert_eq!(id, "x");
        },
        Ok(_) => panic!("expected a malformed-input error"),
    }
}

#[test]
fn explicit_id_colliding_with_synthesized_id_is_malformed() {
    let state = InteractionState::new();
    // the first paragraph synthesizes id "0"; the second claims it explicitly
    let input = vec![
        element("p", vec![], vec![text("a")]),
        element("p", vec![attr("id", "0")], vec![text("b")]),
    ];
    match DOM::construct_dom(input, &state) {
        Err(BuildError::MalformedInput { id, .. }) => assert_eq!(id, "0"),
        Ok(_) => panic!("expected a malformed-input error"),
    }
}
