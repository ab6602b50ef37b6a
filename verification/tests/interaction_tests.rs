use kale::dom::DOMAction;
use kale::geometry::{BoundingBox, Point};
use kale::interaction::{dispatch_click, process_hover, InteractionState};

#[test]
fn unseen_ids_default_to_false() {
    let state = InteractionState::new();
    assert!(!state.is_hovered("a"));
    assert!(!state.is_clicked("a"));
}

#[test]
fn record_hover_sets_only_hover() {
    let mut state = InteractionState::new();
    state.record_hover("x");
    assert!(state.is_hovered("x"));
    assert!(!state.is_clicked("x"));
}

#[test]
fn record_click_sets_only_click() {
    let mut state = InteractionState::new();
    state.record_click("x");
    assert!(state.is_clicked("x"));
    assert!(!state.is_hovered("x"));
    state.record_hover("x");
    assert!(state.is_clicked("x"));
    assert!(state.is_hovered("x"));
}

#[test]
fn flags_of_one_id_never_affect_another() {
    let mut state = InteractionState::new();
    state.record_hover("a");
    state.record_click("b");
    assert!(state.is_hovered("a"));
    assert!(!state.is_clicked("a"));
    assert!(state.is_clicked("b"));
    assert!(!state.is_hovered("b"));
    assert!(!state.is_hovered("c"));
    assert!(!state.is_clicked("c"));
}

fn link_hits() -> Vec<(BoundingBox, Vec<DOMAction>, String)> {
    vec![(
        BoundingBox::new(1000, 1000, 10000, 5000),
        vec![DOMAction::ClickToRedirect(String::from("https://example.com"))],
        String::from("link1"),
    )]
}

#[test]
fn click_inside_fires_exactly_one_action() {
    let hits = link_hits();
    let mut state = InteractionState::new();
    let fired = dispatch_click(&hits, Point::new(5000, 3000), &mut state);
    assert_eq!(fired.len(), 1);
    let DOMAction::ClickToRedirect(url) = &fired[0];
    assert_eq!(url, "https://example.com");
    assert!(state.is_clicked("link1"));
    assert!(!state.is_hovered("link1"));
}

#[test]
fn click_outside_fires_nothing_and_keeps_state() {
    let hits = link_hits();
    let mut state = InteractionState::new();
    let fired = dispatch_click(&hits, Point::new(50000, 50000), &mut state);
    assert_eq!(fired.len(), 0);
    assert!(!state.is_clicked("link1"));
    assert!(!state.is_hovered("link1"));
}

#[test]
fn click_dispatch_honors_nested_boxes() {
    let mut hits = link_hits();
    hits.push((
        BoundingBox::new(0, 0, 50000, 50000),
        vec![],
        String::from("page"),
    ));
    let mut state = InteractionState::new();
    let fired = dispatch_click(&hits, Point::new(5000, 3000), &mut state);
    assert_eq!(fired.len(), 1);
    assert!(state.is_clicked("link1"));
    assert!(state.is_clicked("page"));
}

#[test]
fn hover_follows_the_pointer() {
    let hits = link_hits();
    let mut state = InteractionState::new();
    process_hover(&hits, Point::new(5000, 3000), &mut state);
    assert!(state.is_hovered("link1"));
    assert!(!state.is_clicked("link1"));
    let mut other = InteractionState::new();
    process_hover(&hits, Point::new(50000, 50000), &mut other);
    assert!(!other.is_hovered("link1"));
}

#[test]
fn bounding_box_contains_its_edges() {
    let bbox = BoundingBox::new(100, 200, 50, 60);
    assert!(bbox.contains(Point::new(100, 200)));
    assert!(bbox.contains(Point::new(150, 260)));
    assert!(bbox.contains(Point::new(125, 230)));
    assert!(!bbox.contains(Point::new(99, 230)));
    assert!(!bbox.contains(Point::new(151, 230)));
    assert!(!bbox.contains(Point::new(125, 261)));
}
