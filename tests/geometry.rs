use grui::flatten::{flatten_layout, flatten_widgets, flatten_widgets_inner, layout_frame, FlattenedLayout};
use grui::interaction::UiInteractionState;
use grui::layout::{calculate_ui_layout, LayoutTree, Vec2, LEAF_HEIGHT, LEAF_WIDTH};
use grui::tree::{UiNode, Widget, WidgetId, WidgetUid};
use grui::ui::{Ui, UiContext};

fn v(x: u64, y: u64) -> Vec2 {
    Vec2 { x, y }
}

fn container(widget: Widget, kids: Vec<UiNode>) -> UiNode {
    let state = UiInteractionState::new();
    let mut ui = Ui::new(UiNode::new(widget), UiContext { uid: WidgetUid::root(), interaction_state: &state });
    for k in kids {
        ui.append(k);
    }
    ui.node
}

fn button(text: &str) -> UiNode {
    UiNode::new(Widget::Button(text.to_string()))
}

fn label(text: &str) -> UiNode {
    UiNode::new(Widget::Label(text.to_string()))
}

#[test]
fn leaf_has_fixed_size() {
    let t = calculate_ui_layout(&button("b")).unwrap();
    assert_eq!(t.extent, v(LEAF_WIDTH, LEAF_HEIGHT));
    assert_eq!(t.extent, v(180, 25));
    assert_eq!(t.offset, v(0, 0));
    assert!(t.children.is_empty());
}

#[test]
fn vertical_stacks_down() {
    let n = container(Widget::Vertical, vec![button("a"), label("b"), button("c")]);
    let t = calculate_ui_layout(&n).unwrap();
    assert_eq!(t.extent, v(180, 75));
    let offsets: Vec<Vec2> = t.children.iter().map(|c| c.offset).collect();
    assert_eq!(offsets, vec![v(0, 0), v(0, 25), v(0, 50)]);
}

#[test]
fn horizontal_stacks_right() {
    let n = container(Widget::Horizontal, vec![button("a"), label("b")]);
    let t = calculate_ui_layout(&n).unwrap();
    assert_eq!(t.extent, v(360, 25));
    let offsets: Vec<Vec2> = t.children.iter().map(|c| c.offset).collect();
    assert_eq!(offsets, vec![v(0, 0), v(180, 0)]);
}

#[test]
fn nested_containers_take_max_across_and_sum_along() {
    let row = container(Widget::Horizontal, vec![button("a"), button("b"), label("c")]);
    let n = container(Widget::Vertical, vec![label("top"), row, button("end")]);
    let t = calculate_ui_layout(&n).unwrap();
    assert_eq!(t.extent, v(540, 75));
    assert_eq!(t.children[1].extent, v(540, 25));
    assert_eq!(t.children[1].offset, v(0, 25));
    assert_eq!(t.children[2].offset, v(0, 50));
    assert_eq!(t.children[1].children[2].offset, v(360, 0));
}

#[test]
fn empty_container_has_no_size() {
    let t = calculate_ui_layout(&UiNode::new(Widget::Vertical)).unwrap();
    assert_eq!(t.extent, v(0, 0));
    assert!(t.children.is_empty());
    let h = container(Widget::Horizontal, vec![UiNode::new(Widget::Vertical), button("x")]);
    let t = calculate_ui_layout(&h).unwrap();
    assert_eq!(t.extent, v(180, 25));
    assert_eq!(t.children[1].offset, v(0, 0));
}

#[test]
fn leaf_children_are_not_laid_out_nor_flattened() {
    let b = container(Widget::Button("b".to_string()), vec![label("hidden")]);
    let n = container(Widget::Vertical, vec![b]);
    let t = calculate_ui_layout(&n).unwrap();
    assert!(t.children[0].children.is_empty());
    assert_eq!(flatten_widgets(&n).len(), 2);
    assert_eq!(layout_frame(&n).unwrap().len(), 2);
}

#[test]
fn flattening_is_pre_order_with_paths() {
    let row = container(Widget::Horizontal, vec![button("a"), label("b")]);
    let n = container(Widget::Vertical, vec![row, button("c")]);
    let flat = flatten_widgets(&n);
    let uids: Vec<Vec<WidgetId>> = flat.iter().map(|e| e.0 .0.clone()).collect();
    assert_eq!(
        uids,
        vec![
            vec![],
            vec![WidgetId(0)],
            vec![WidgetId(0), WidgetId(0)],
            vec![WidgetId(0), WidgetId(1)],
            vec![WidgetId(1)],
        ]
    );
    assert!(matches!(flat[2].1, Widget::Button(s) if s == "a"));
    assert!(matches!(flat[3].1, Widget::Label(s) if s == "b"));
    let under = flatten_widgets_inner(&n, &WidgetUid(vec![WidgetId(7)]));
    assert_eq!(under[4].0 .0, vec![WidgetId(7), WidgetId(1)]);
}

#[test]
fn flattened_sequences_line_up() {
    let row = container(Widget::Horizontal, vec![button("a"), label("b")]);
    let n = container(Widget::Vertical, vec![label("t"), row, button("c")]);
    let widgets = flatten_widgets(&n);
    let layout = layout_frame(&n).unwrap();
    assert_eq!(widgets.len(), layout.len());
    for ((_, w), g) in widgets.iter().zip(layout.iter()) {
        match w {
            Widget::Button(_) | Widget::Label(_) => assert_eq!(g.extent, v(180, 25)),
            _ => {}
        }
    }
    assert_eq!(layout[0].extent, v(360, 75));
    assert_eq!(layout[2].extent, v(360, 25));
    assert_eq!(layout[4].offset, v(180, 25));
    assert_eq!(layout[5].offset, v(0, 50));
}

#[test]
fn flatten_layout_adds_parent_positions() {
    let leaf = LayoutTree { extent: v(10, 5), offset: v(3, 4), children: vec![] };
    let mid = LayoutTree { extent: v(20, 20), offset: v(100, 200), children: vec![leaf] };
    let top = LayoutTree { extent: v(50, 50), offset: v(1, 1), children: vec![mid] };
    let flat = flatten_layout(v(10, 10), &top);
    assert_eq!(
        flat,
        vec![
            FlattenedLayout { offset: v(11, 11), extent: v(50, 50) },
            FlattenedLayout { offset: v(111, 211), extent: v(20, 20) },
            FlattenedLayout { offset: v(114, 215), extent: v(10, 5) },
        ]
    );
}

#[test]
fn rect_is_placed_at_origin() {
    let r = LayoutTree::rect(7, 9);
    assert_eq!(r.extent, v(7, 9));
    assert_eq!(r.offset, v(0, 0));
    assert!(r.children.is_empty());
}

