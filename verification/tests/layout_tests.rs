use kale::dom::{DOMElement, DOM};
use kale::geometry::BoundingBox;
use kale::html::HTMLElement;
use kale::interaction::InteractionState;
use kale::provider::{MonospaceProvider, RenderError, TextProvider};
use kale::rendering::render_dom;
use kale::style::{FontFamily, FontWeight, Style};

// One character advances 10 px (1000 centipixels).
fn provider() -> MonospaceProvider {
    MonospaceProvider {
        char_width: 1000,
        fonts: vec![
            (FontFamily::TimesNewRoman, FontWeight::Normal),
            (FontFamily::TimesNewRoman, FontWeight::Bold),
        ],
    }
}

fn viewport(width: u64) -> BoundingBox {
    BoundingBox::new(0, 0, width, 60000)
}

fn text_leaf(s: &str, id: &str) -> DOMElement {
    DOMElement::Text {
        style: Style::default(),
        text: String::from(s),
        actions: vec![],
        id: String::from(id),
    }
}

#[test]
fn provider_measures_monospace_advances() {
    let p = provider();
    let d = p
        .measure("Hello", FontFamily::TimesNewRoman, FontWeight::Normal, 16)
        .unwrap();
    assert_eq!(d.width, 5000);
    assert_eq!(d.height, 1600);
}

#[test]
fn tokens_that_fit_lay_out_on_one_line() {
    // "aa bb cc": widths 2000 each plus 1000 per space; everything fits in
    // an 800 px (80000 cp) region, so the cursor stays on the first line.
    let dom = DOM { elements: vec![text_leaf("aa bb cc", "t")] };
    let boxes = render_dom(&dom, &provider(), viewport(80000)).unwrap();
    assert_eq!(boxes.len(), 1);
    let (bbox, actions, id) = &boxes[0];
    assert_eq!(id, "t");
    assert_eq!(actions.len(), 0);
    assert_eq!(*bbox, BoundingBox::new(0, 0, 9000, 0));
}

#[test]
fn first_token_past_the_edge_starts_a_new_line() {
    // In a 45 px (4500 cp) region, "aa" fits, "bb" and "cc" each wrap: two
    // wrap points, each adding exactly one 16 px line height.
    let dom = DOM { elements: vec![text_leaf("aa bb cc", "t")] };
    let boxes = render_dom(&dom, &provider(), viewport(4500)).unwrap();
    assert_eq!(boxes.len(), 1);
    assert_eq!(boxes[0].0, BoundingBox::new(0, 0, 3000, 3200));
}

#[test]
fn heading_end_to_end() {
    // <h1 id="t">Hello World</h1> at an 800 px viewport: one block with a
    // 32 px line, 10.72 px vertical margins, and one unwrapped text line.
    let state = InteractionState::new();
    let input = vec![HTMLElement::new(
        String::from("h1"),
        vec![(String::from("id"), String::from("t"))],
        vec![HTMLElement::Text(String::from("Hello World"))],
    )];
    let dom = DOM::construct_dom(input, &state).unwrap();
    let boxes = render_dom(&dom, &provider(), viewport(80000)).unwrap();
    assert_eq!(boxes.len(), 2);

    // pre-order: the heading's own box comes before its leaf's
    let (h1_box, _, h1_id) = &boxes[0];
    assert_eq!(h1_id, "t");

    let (leaf_box, _, leaf_id) = &boxes[1];
    assert_eq!(leaf_id, "t.0");
    // baseline after line height (3200) plus top margin (1072)
    assert_eq!(*leaf_box, BoundingBox::new(0, 4272, 12000, 0));
    // height is line height + top margin + bottom margin = 53.44 px
    assert_eq!(*h1_box, BoundingBox::new(0, 0, 12000, 5344));
    assert_eq!(h1_box.height, 3200 + 1072 + 1072);
}

#[test]
fn block_box_contains_child_boxes() {
    let state = InteractionState::new();
    let input = vec![HTMLElement::new(
        String::from("p"),
        vec![],
        vec![HTMLElement::Text(String::from("lorem ipsum dolor sit amet"))],
    )];
    let dom = DOM::construct_dom(input, &state).unwrap();
    // narrow region to force wrapping inside the paragraph
    let boxes = render_dom(&dom, &provider(), viewport(9000)).unwrap();
    assert_eq!(boxes.len(), 2);
    let parent = &boxes[0].0;
    let child = &boxes[1].0;
    assert!(parent.x <= child.x);
    assert!(parent.y <= child.y);
    assert!(child.x + child.width <= parent.x + parent.width);
    assert!(child.y + child.height <= parent.y + parent.height);
}

#[test]
fn anchor_inside_paragraph_carries_its_action() {
    let state = InteractionState::new();
    let input = vec![HTMLElement::new(
        String::from("p"),
        vec![],
        vec![HTMLElement::new(
            String::from("a"),
            vec![(String::from("href"), String::from("https://example.com"))],
            vec![HTMLElement::Text(String::from("go"))],
        )],
    )];
    let dom = DOM::construct_dom(input, &state).unwrap();
    let boxes = render_dom(&dom, &provider(), viewport(80000)).unwrap();
    // pre-order: the paragraph, the anchor, then the anchor's text leaf
    assert_eq!(boxes.len(), 3);
    assert_eq!(boxes[0].2, "0");
    let (_, anchor_actions, anchor_id) = &boxes[1];
    assert_eq!(anchor_id, "0.0");
    assert_eq!(anchor_actions.len(), 1);
    assert_eq!(boxes[2].2, "0.0.0");
}

#[test]
fn inline_wrapper_collapses_to_a_run() {
    // an inline container collapses a single-child container into one run
    // laid out with the collapsed container's own style and identifier
    let inner = DOMElement::View {
        style: Style::default(),
        children: vec![text_leaf("hi there", "w.0.0")],
        actions: vec![],
        id: String::from("w.0"),
    };
    let mut style = Style::default();
    style.display = kale::style::Display::Inline;
    let wrapper = DOMElement::View {
        style,
        children: vec![inner],
        actions: vec![],
        id: String::from("w"),
    };
    let dom = DOM { elements: vec![wrapper] };
    let boxes = render_dom(&dom, &provider(), viewport(80000)).unwrap();
    assert_eq!(boxes.len(), 2);
    assert_eq!(boxes[0].2, "w");
    // "hi" then "there": 2000 + 1000 + 5000 + trailing space 1000
    assert_eq!(boxes[1].0, BoundingBox::new(0, 0, 9000, 0));
    assert_eq!(boxes[1].2, "w.0");
}

#[test]
fn missing_font_is_a_hard_error() {
    let empty = MonospaceProvider { char_width: 1000, fonts: vec![] };
    let dom = DOM { elements: vec![text_leaf("x", "t")] };
    match render_dom(&dom, &empty, viewport(80000)) {
        Err(RenderError::MissingFont { family, weight }) => {
            assert_eq!(family, FontFamily::TimesNewRoman);
            assert_eq!(weight, FontWeight::Normal);
        },
        _ => panic!("expected a missing-font error"),
    }
}

#[test]
fn collapse_violation_aborts_the_render() {
    // an inline container whose child container has two children cannot be
    // collapsed into a run
    let inner = DOMElement::View {
        style: Style::default(),
        children: vec![text_leaf("a", "w.0.0"), text_leaf("b", "w.0.1")],
        actions: vec![],
        id: String::from("w.0"),
    };
    let mut style = Style::default();
    style.display = kale::style::Display::Inline;
    let wrapper = DOMElement::View {
        style,
        children: vec![inner],
        actions: vec![],
        id: String::from("w"),
    };
    let dom = DOM { elements: vec![wrapper] };
    match render_dom(&dom, &provider(), viewport(80000)) {
        Err(RenderError::CollapseViolation { id }) => assert_eq!(id, "w.0"),
        _ => panic!("expected a collapse violation"),
    }
}

#[test]
fn blocks_stack_vertically_without_overlap() {
    let state = InteractionState::new();
    let input = vec![
        HTMLElement::new(String::from("p"), vec![], vec![HTMLElement::Text(String::from("one"))]),
        HTMLElement::new(String::from("p"), vec![], vec![HTMLElement::Text(String::from("two"))]),
    ];
    let dom = DOM::construct_dom(input, &state).unwrap();
    let boxes = render_dom(&dom, &provider(), viewport(80000)).unwrap();
    assert_eq!(boxes.len(), 4);
    assert_eq!(boxes[0].2, "0");
    assert_eq!(boxes[2].2, "1");
    let first_p = &boxes[0].0;
    let second_p = &boxes[2].0;
    // the second paragraph starts below the first one's bottom edge
    assert!(second_p.y >= first_p.y + first_p.height);
}

/// A provider whose font table is complete but which cannot measure
/// anything.
struct FailingProvider;

impl TextProvider for FailingProvider {
    fn measure(
        &self,
        _token: &str,
        _family: FontFamily,
        _weight: FontWeight,
        _size_px: u16,
    ) -> Result<kale::provider::Dimensions, RenderError> {
        Err(RenderError::MeasurementFailure)
    }

    fn draw(
        &self,
        _token: &str,
        _x: u64,
        _y: u64,
        _size_px: u16,
        _color: kale::style::Color,
        _family: FontFamily,
        _weight: FontWeight,
    ) -> Result<kale::provider::Dimensions, RenderError> {
        Err(RenderError::MeasurementFailure)
    }

    fn draw_line(&self, _x0: u64, _y0: u64, _x1: u64, _y1: u64, _thickness: u64, _color: kale::style::Color) {
    }
}

#[test]
fn measurement_failure_aborts_the_frame() {
    let dom = DOM { elements: vec![text_leaf("x", "t")] };
    match render_dom(&dom, &FailingProvider, viewport(80000)) {
        Err(RenderError::MeasurementFailure) => {},
        _ => panic!("expected a measurement failure"),
    }
}

#[test]
fn empty_text_emits_a_zero_size_box() {
    let dom = DOM { elements: vec![text_leaf("", "t")] };
    let boxes = render_dom(&dom, &provider(), viewport(80000)).unwrap();
    assert_eq!(boxes.len(), 1);
    assert_eq!(boxes[0].0, BoundingBox::new(0, 0, 0, 0));
}

#[test]
fn oversized_token_wraps_once_then_draws() {
    // a token wider than the whole region still wraps exactly once
    let dom = DOM { elements: vec![text_leaf("aa", "t")] };
    let boxes = render_dom(&dom, &provider(), viewport(1000)).unwrap();
    assert_eq!(boxes[0].0, BoundingBox::new(0, 0, 3000, 1600));
}
