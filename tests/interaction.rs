use grui::ast::{Decl, Ident, Value};
use grui::emit::emit_gui_items;
use grui::flatten::{flatten_widgets, layout_frame, FlattenedLayout};
use grui::interaction::{Point, UiInteractionState};
use grui::layout::Vec2;
use grui::tree::{UiNode, Widget, WidgetId, WidgetUid};
use grui::ui::{Ui, UiContext};

fn sign_in_form() -> Vec<Decl> {
    vec![Decl::BlockItem(
        Ident("vertical".to_string()),
        None,
        vec![Decl::SimpleItem(
            Ident("button".to_string()),
            Some("sign_in".to_string()),
            Value::String("Sign in".to_string()),
        )],
    )]
}

fn build(state: &UiInteractionState, items: &[Decl]) -> UiNode {
    let mut ui = Ui::new(
        UiNode::new(Widget::Vertical),
        UiContext { uid: WidgetUid::root(), interaction_state: state },
    );
    emit_gui_items(&mut ui, items).unwrap();
    ui.node
}

fn frame(state: &mut UiInteractionState, items: &[Decl], down: bool, x: i64, y: i64) {
    let root = build(state, items);
    let widgets = flatten_widgets(&root);
    let layout = layout_frame(&root).unwrap();
    state.update(down, Point { x, y }, &widgets, &layout);
}

fn uid(ids: &[usize]) -> WidgetUid {
    WidgetUid(ids.iter().map(|i| WidgetId(*i)).collect())
}

fn held(u: &Option<WidgetUid>) -> Option<Vec<WidgetId>> {
    u.as_ref().map(|w| w.0.clone())
}

fn clicked_in_next_frame(state: &UiInteractionState) -> bool {
    let items = sign_in_form();
    let mut ui = Ui::new(
        UiNode::new(Widget::Vertical),
        UiContext { uid: WidgetUid::root(), interaction_state: state },
    );
    emit_gui_items(&mut ui, &items).unwrap();
    ui.id("sign_in").unwrap().clicked()
}

#[test]
fn press_then_release_over_button_clicks() {
    let items = sign_in_form();
    let button = uid(&[0, 0]);
    let mut state = UiInteractionState::new();
    frame(&mut state, &items, true, 10, 10);
    assert!(state.mouse_pressed);
    assert!(!state.mouse_released);
    assert_eq!(held(&state.drag_begin_widget), Some(button.0.clone()));
    assert!(!state.clicked(&button));
    frame(&mut state, &items, false, 10, 10);
    assert!(state.mouse_released);
    assert!(!state.mouse_pressed);
    assert_eq!(held(&state.hover_widget), Some(button.0.clone()));
    assert!(state.clicked(&button));
    assert!(clicked_in_next_frame(&state));
    frame(&mut state, &items, false, 10, 10);
    assert!(!state.clicked(&button));
    assert!(state.drag_begin_widget.is_none());
}

#[test]
fn leaving_the_button_before_release_cancels() {
    let items = sign_in_form();
    let button = uid(&[0, 0]);
    let mut state = UiInteractionState::new();
    frame(&mut state, &items, true, 10, 10);
    assert!(state.mouse_pressed);
    frame(&mut state, &items, false, 300, 10);
    assert!(state.mouse_released);
    assert!(state.hover_widget.is_none());
    assert!(!state.clicked(&button));
    assert!(!clicked_in_next_frame(&state));
}

#[test]
fn click_needs_the_same_button_at_both_ends() {
    let items = vec![Decl::BlockItem(
        Ident("vertical".to_string()),
        None,
        vec![
            Decl::SimpleItem(Ident("button".to_string()), None, Value::String("a".to_string())),
            Decl::SimpleItem(Ident("button".to_string()), None, Value::String("b".to_string())),
        ],
    )];
    let a = uid(&[0, 0]);
    let b = uid(&[0, 1]);
    let mut state = UiInteractionState::new();
    frame(&mut state, &items, true, 5, 5);
    assert!(state.is_drag_origin(&a));
    frame(&mut state, &items, true, 5, 30);
    assert!(state.is_hovered(&b));
    assert!(state.is_drag_origin(&a));
    frame(&mut state, &items, false, 5, 30);
    assert!(state.mouse_released);
    assert!(!state.clicked(&a));
    assert!(!state.clicked(&b));
}

#[test]
fn edges_last_one_frame_each() {
    let items = sign_in_form();
    let mut state = UiInteractionState::new();
    let downs = [false, true, true, true, false, false, true, false];
    let mut presses = 0;
    let mut releases = 0;
    let mut prev = false;
    for d in downs {
        frame(&mut state, &items, d, 500, 500);
        assert!(!(state.mouse_pressed && state.mouse_released));
        assert_eq!(state.mouse_pressed, d && !prev);
        assert_eq!(state.mouse_released, !d && prev);
        assert_eq!(state.mouse_down, d);
        if state.mouse_pressed {
            presses += 1;
        }
        if state.mouse_released {
            releases += 1;
        }
        prev = d;
    }
    assert_eq!(presses, 2);
    assert_eq!(releases, 2);
}

#[test]
fn drag_origin_survives_hold_and_clears_when_idle() {
    let items = sign_in_form();
    let button = uid(&[0, 0]);
    let mut state = UiInteractionState::new();
    frame(&mut state, &items, true, 10, 10);
    frame(&mut state, &items, true, 900, 900);
    assert!(state.is_drag_origin(&button));
    assert!(state.hover_widget.is_none());
    frame(&mut state, &items, false, 900, 900);
    assert!(state.is_drag_origin(&button));
    frame(&mut state, &items, false, 900, 900);
    assert!(state.drag_begin_widget.is_none());
}

#[test]
fn press_outside_any_button_takes_no_origin() {
    let items = sign_in_form();
    let mut state = UiInteractionState::new();
    frame(&mut state, &items, true, 10, 100);
    assert!(state.mouse_pressed);
    assert!(state.drag_begin_widget.is_none());
}

#[test]
fn rectangles_are_half_open_and_negative_pointers_miss() {
    let items = sign_in_form();
    let button = uid(&[0, 0]);
    let mut state = UiInteractionState::new();
    frame(&mut state, &items, false, 0, 0);
    assert!(state.is_hovered(&button));
    frame(&mut state, &items, false, 179, 24);
    assert!(state.is_hovered(&button));
    frame(&mut state, &items, false, 180, 10);
    assert!(state.hover_widget.is_none());
    frame(&mut state, &items, false, 10, 25);
    assert!(state.hover_widget.is_none());
    frame(&mut state, &items, false, -1, 10);
    assert!(state.hover_widget.is_none());
}

#[test]
fn last_overlapping_button_wins_and_labels_are_ignored() {
    let b1 = Widget::Button("one".to_string());
    let l = Widget::Label("label".to_string());
    let b2 = Widget::Button("two".to_string());
    let widgets = vec![(uid(&[0]), &b1), (uid(&[1]), &l), (uid(&[2]), &b2)];
    let r = FlattenedLayout { offset: Vec2 { x: 0, y: 0 }, extent: Vec2 { x: 10, y: 10 } };
    let layout = vec![r, r, r];
    let mut state = UiInteractionState::new();
    state.update(false, Point { x: 5, y: 5 }, &widgets, &layout);
    assert_eq!(held(&state.hover_widget), Some(vec![WidgetId(2)]));
    let short = vec![r, r];
    state.update(false, Point { x: 5, y: 5 }, &widgets, &short);
    assert_eq!(held(&state.hover_widget), Some(vec![WidgetId(0)]));
    let labels_only = vec![(uid(&[1]), &l)];
    state.update(false, Point { x: 5, y: 5 }, &labels_only, &layout);
    assert!(state.hover_widget.is_none());
}

#[test]
fn fresh_state_is_neutral() {
    let state = UiInteractionState::new();
    assert!(state.hover_widget.is_none());
    assert!(state.drag_begin_widget.is_none());
    assert!(!state.mouse_down && !state.mouse_pressed && !state.mouse_released);
    assert!(!state.clicked(&WidgetUid::root()));
}

#[test]
fn default_state_is_the_fresh_state() {
    let state = UiInteractionState::default();
    assert!(state.hover_widget.is_none() && state.drag_begin_widget.is_none());
    assert!(!state.mouse_down && !state.mouse_pressed && !state.mouse_released);
}

#[test]
fn builder_cursor_reports_click_of_its_root() {
    let items = sign_in_form();
    let mut state = UiInteractionState::new();
    frame(&mut state, &items, true, 20, 5);
    frame(&mut state, &items, false, 20, 5);
    let at_button = Ui::new(
        UiNode::new(Widget::Button("Sign in".to_string())),
        UiContext { uid: uid(&[0, 0]), interaction_state: &state },
    );
    assert!(at_button.clicked());
    let elsewhere = Ui::new(
        UiNode::new(Widget::Vertical),
        UiContext { uid: uid(&[0]), interaction_state: &state },
    );
    assert!(!elsewhere.clicked());
}
