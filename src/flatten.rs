//! Depth-first, pre-order flattening of the widget tree and of the geometry
//! tree, into sequences that correspond index for index.
use vstd::prelude::*;
use crate::layout::{
    LayoutTree, Vec2, extent_of, is_layout_of, layout_children, sum_along, max_along, along,
    at_distance, fits, calculate_ui_layout, LEAF_WIDTH, LEAF_HEIGHT,
};
use crate::tree::{Widget, UiNode, WidgetId, WidgetUid};

verus! {

/// The visible nodes of `n` in pre-order, each with its path; `uid` is the
/// path of `n`. Children of leaves are not visited.
pub open spec fn flat_nodes(n: UiNode, uid: Seq<usize>) -> Seq<(Seq<usize>, UiNode)>
    decreases n, 1nat,
{
    if n.widget.is_container() {
        seq![(uid, n)] + flat_children(n.children@, uid)
    } else {
        seq![(uid, n)]
    }
}

/// [`flat_nodes`] of each subtree of `cs` in order, concatenated; `uid` is the
/// path of their parent.
pub open spec fn flat_children(cs: Seq<(WidgetId, UiNode)>, uid: Seq<usize>) -> Seq<
    (Seq<usize>, UiNode),
>
    decreases cs, 0nat,
{
    if cs.len() == 0 {
        Seq::empty()
    } else {
        flat_children(cs.drop_last(), uid) + flat_nodes(cs.last().1, uid.push(cs.last().0.0))
    }
}

/// The path and kind of each node of [`flat_nodes`].
pub open spec fn flat_widgets(n: UiNode, uid: Seq<usize>) -> Seq<(Seq<usize>, Widget)> {
    flat_nodes(n, uid).map_values(|e: (Seq<usize>, UiNode)| (e.0, e.1.widget))
}

/// The path and kind of each node of [`flat_children`].
pub open spec fn flat_children_widgets(cs: Seq<(WidgetId, UiNode)>, uid: Seq<usize>) -> Seq<
    (Seq<usize>, Widget),
> {
    flat_children(cs, uid).map_values(|e: (Seq<usize>, UiNode)| (e.0, e.1.widget))
}

/// What a flattened widget sequence holds.
pub open spec fn widgets_view<'a>(r: Seq<(WidgetUid, &'a Widget)>) -> Seq<(Seq<usize>, Widget)> {
    r.map_values(|e: (WidgetUid, &'a Widget)| (e.0@, *e.1))
}

/// The absolute position and the size of each node of `t` in pre-order;
/// `base` is the absolute position of `t`'s parent.
pub open spec fn flat_layout(base: (nat, nat), t: LayoutTree) -> Seq<((nat, nat), (nat, nat))>
    decreases t, 1nat,
{
    let off = ((base.0 + t.offset.x) as nat, (base.1 + t.offset.y) as nat);
    seq![(off, t.extent@)] + flat_layout_children(off, t.children@)
}

/// [`flat_layout`] of each of `ts` in order, concatenated; `base` is the
/// absolute position of their parent.
pub open spec fn flat_layout_children(base: (nat, nat), ts: Seq<LayoutTree>) -> Seq<
    ((nat, nat), (nat, nat)),
>
    decreases ts, 0nat,
{
    if ts.len() == 0 {
        Seq::empty()
    } else {
        flat_layout_children(base, ts.drop_last()) + flat_layout(base, ts.last())
    }
}

/// Every absolute position in [`flat_layout`] fits in a `u64`.
pub open spec fn offsets_fit(base: (nat, nat), t: LayoutTree) -> bool
    decreases t, 1nat,
{
    let off = ((base.0 + t.offset.x) as nat, (base.1 + t.offset.y) as nat);
    &&& off.0 <= u64::MAX
    &&& off.1 <= u64::MAX
    &&& children_offsets_fit(off, t.children@)
}

/// [`offsets_fit`] of each of `ts`.
pub open spec fn children_offsets_fit(base: (nat, nat), ts: Seq<LayoutTree>) -> bool
    decreases ts, 0nat,
{
    ts.len() == 0 || (children_offsets_fit(base, ts.drop_last()) && offsets_fit(base, ts.last()))
}

/// One entry of a flattened geometry tree.
#[derive(Debug, Clone, Copy, PartialEq, Eq, Structural)]
pub struct FlattenedLayout {
    pub offset: Vec2,
    pub extent: Vec2,
}

/// What a flattened geometry sequence holds.
pub open spec fn layout_view(r: Seq<FlattenedLayout>) -> Seq<((nat, nat), (nat, nat))> {
    r.map_values(|e: FlattenedLayout| (e.offset@, e.extent@))
}

/// Each visible node of `ui`, in pre-order, with its path; `uid` is the path
/// of `ui`.
pub fn flatten_widgets_inner<'a>(ui: &'a UiNode, uid: &WidgetUid) -> (r: Vec<(WidgetUid, &'a Widget)>)
    ensures
        widgets_view(r@) == flat_widgets(*ui, uid@),
    decreases *ui,
{
    let mut result: Vec<(WidgetUid, &'a Widget)> = Vec::new();
    result.push((uid.duplicate(), &ui.widget));
    assert(widgets_view(result@) =~= seq![(uid@, ui.widget)]);
    match &ui.widget {
        Widget::Horizontal | Widget::Vertical => {
            let ghost cs = ui.children@;
            assert(flat_children(cs.take(0), uid@).len() == 0);
            let mut i: usize = 0;
            while i < ui.children.len()
                invariant
                    cs == ui.children@,
                    i <= cs.len(),
                    widgets_view(result@) == seq![(uid@, ui.widget)] + flat_children_widgets(
                        cs.take(i as int),
                        uid@,
                    ),
                decreases cs.len() - i,
            {
                let item = &ui.children[i];
                let child_uid = uid.child(item.0);
                let mut sub = flatten_widgets_inner(&item.1, &child_uid);
                let ghost prev = result@;
                result.append(&mut sub);
                proof {
                    assert(cs.take(i + 1).drop_last() =~= cs.take(i as int));
                    assert(cs.take(i + 1).last() == cs[i as int]);
                    let f = |e: (Seq<usize>, UiNode)| (e.0, e.1.widget);
                    let a = flat_children(cs.take(i as int), uid@);
                    let b = flat_nodes(cs[i as int].1, uid@.push(cs[i as int].0.0));
                    assert((a + b).map_values(f) =~= a.map_values(f) + b.map_values(f));
                    assert(widgets_view(result@) =~= widgets_view(prev) + flat_widgets(
                        cs[i as int].1,
                        uid@.push(cs[i as int].0.0),
                    ));
                }
                i = i + 1;
            }
            assert(cs.take(cs.len() as int) =~= cs);
            assert(flat_widgets(*ui, uid@) =~= seq![(uid@, ui.widget)] + flat_children_widgets(cs, uid@));
        },
        _ => {},
    }
    result
}

/// Each visible node of the tree `ui`, in pre-order, with its path.
pub fn flatten_widgets<'a>(ui: &'a UiNode) -> (r: Vec<(WidgetUid, &'a Widget)>)
    ensures
        widgets_view(r@) == flat_widgets(*ui, Seq::empty()),
{
    flatten_widgets_inner(ui, &WidgetUid::root())
}

/// The absolute position and the size of each node of `node` in pre-order;
/// `base_offset` is the absolute position of its parent.
pub fn flatten_layout(base_offset: Vec2, node: &LayoutTree) -> (r: Vec<FlattenedLayout>)
    requires
        offsets_fit(base_offset@, *node),
    ensures
        layout_view(r@) == flat_layout(base_offset@, *node),
    decreases *node,
{
    let mut result: Vec<FlattenedLayout> = Vec::new();
    let offset = Vec2 { x: base_offset.x + node.offset.x, y: base_offset.y + node.offset.y };
    result.push(FlattenedLayout { offset, extent: node.extent });
    assert(layout_view(result@) =~= seq![(offset@, node.extent@)]);
    let ghost ts = node.children@;
    assert(flat_layout_children(offset@, ts.take(0)).len() == 0);
    let mut i: usize = 0;
    while i < node.children.len()
        invariant
            ts == node.children@,
            i <= ts.len(),
            offset@ == ((base_offset@.0 + node.offset.x) as nat, (base_offset@.1 + node.offset.y) as nat),
            children_offsets_fit(offset@, ts),
            layout_view(result@) == seq![(offset@, node.extent@)] + flat_layout_children(
                offset@,
                ts.take(i as int),
            ),
        decreases ts.len() - i,
    {
        proof {
            lemma_children_offsets_fit(offset@, ts, i as int);
        }
        let mut sub = flatten_layout(offset, &node.children[i]);
        let ghost prev = result@;
        result.append(&mut sub);
        proof {
            assert(ts.take(i + 1).drop_last() =~= ts.take(i as int));
            assert(ts.take(i + 1).last() == ts[i as int]);
            assert(layout_view(result@) =~= layout_view(prev) + flat_layout(offset@, ts[i as int]));
        }
        i = i + 1;
    }
    assert(ts.take(ts.len() as int) =~= ts);
    result
}

/// Entry `k` of the flattened geometry has the size of node `k` of the
/// flattened widget tree.
pub open spec fn corresponds(ls: Seq<((nat, nat), (nat, nat))>, ns: Seq<(Seq<usize>, UiNode)>) -> bool {
    &&& ls.len() == ns.len()
    &&& forall|k: int| 0 <= k < ls.len() ==> (#[trigger] ls[k]).1 == extent_of(ns[k].1)
}

proof fn lemma_corresponds_concat(
    a: Seq<((nat, nat), (nat, nat))>,
    b: Seq<((nat, nat), (nat, nat))>,
    c: Seq<(Seq<usize>, UiNode)>,
    d: Seq<(Seq<usize>, UiNode)>,
)
    requires
        corresponds(a, c),
        corresponds(b, d),
    ensures
        corresponds(a + b, c + d),
{
    assert forall|k: int| 0 <= k < (a + b).len() implies (#[trigger] (a + b)[k]).1 == extent_of(
        (c + d)[k].1,
    ) by {
        if k >= a.len() {
            assert((a + b)[k] == b[k - a.len()]);
            assert((c + d)[k] == d[k - c.len()]);
        }
    }
}

proof fn lemma_corresponds_tree(t: LayoutTree, n: UiNode, base: (nat, nat), uid: Seq<usize>)
    requires
        is_layout_of(t, n),
    ensures
        corresponds(flat_layout(base, t), flat_nodes(n, uid)),
    decreases n, 1nat,
{
    let off = ((base.0 + t.offset.x) as nat, (base.1 + t.offset.y) as nat);
    let head_l = seq![(off, t.extent@)];
    let head_n = seq![(uid, n)];
    assert(corresponds(head_l, head_n));
    if n.widget.is_container() {
        lemma_corresponds_children(t.children@, n.children@, n.widget is Vertical, off, uid);
        lemma_corresponds_concat(
            head_l,
            flat_layout_children(off, t.children@),
            head_n,
            flat_children(n.children@, uid),
        );
    } else {
        assert(flat_layout_children(off, t.children@) =~= Seq::empty());
        assert(flat_layout(base, t) =~= head_l);
    }
}

proof fn lemma_corresponds_children(
    ts: Seq<LayoutTree>,
    cs: Seq<(WidgetId, UiNode)>,
    vertical: bool,
    base: (nat, nat),
    uid: Seq<usize>,
)
    requires
        layout_children(ts, cs, vertical),
    ensures
        corresponds(flat_layout_children(base, ts), flat_children(cs, uid)),
    decreases cs, 0nat,
{
    if cs.len() > 0 {
        lemma_corresponds_children(ts.drop_last(), cs.drop_last(), vertical, base, uid);
        lemma_corresponds_tree(ts.last(), cs.last().1, base, uid.push(cs.last().0.0));
        lemma_corresponds_concat(
            flat_layout_children(base, ts.drop_last()),
            flat_layout(base, ts.last()),
            flat_children(cs.drop_last(), uid),
            flat_nodes(cs.last().1, uid.push(cs.last().0.0)),
        );
    }
}

/// The flattened widget tree and the flattened geometry tree of the same tree
/// have equal lengths, and entry `k` of the geometry has the size that layout
/// gives widget `k`: the fixed leaf size for a button or a label.
pub proof fn lemma_flatten_isomorphic(n: UiNode, t: LayoutTree, uid: Seq<usize>, base: (nat, nat))
    requires
        is_layout_of(t, n),
    ensures
        flat_layout(base, t).len() == flat_widgets(n, uid).len(),
        forall|k: int|
            0 <= k < flat_layout(base, t).len() ==> {
                &&& (#[trigger] flat_layout(base, t)[k]).1 == extent_of(flat_nodes(n, uid)[k].1)
                &&& flat_widgets(n, uid)[k].1 == flat_nodes(n, uid)[k].1.widget
                &&& (flat_widgets(n, uid)[k].1 is Button || flat_widgets(n, uid)[k].1 is Label)
                    ==> flat_layout(base, t)[k].1 == (LEAF_WIDTH as nat, LEAF_HEIGHT as nat)
            },
{
    lemma_corresponds_tree(t, n, base, uid);
}

/// Absolute positions fit in a `u64` wherever the geometry tree, from where
/// it is placed, stays within that range.
proof fn lemma_offsets_fit(t: LayoutTree, n: UiNode, base: (nat, nat))
    requires
        is_layout_of(t, n),
        base.0 + t.offset.x + extent_of(n).0 <= u64::MAX,
        base.1 + t.offset.y + extent_of(n).1 <= u64::MAX,
    ensures
        offsets_fit(base, t),
    decreases n, 1nat,
{
    let off = ((base.0 + t.offset.x) as nat, (base.1 + t.offset.y) as nat);
    if n.widget.is_container() {
        lemma_children_offsets_fit_stack(t.children@, n.children@, n.widget is Vertical, off);
    } else {
        assert(t.children@.len() == 0);
    }
}

proof fn lemma_children_offsets_fit_stack(
    ts: Seq<LayoutTree>,
    cs: Seq<(WidgetId, UiNode)>,
    vertical: bool,
    base: (nat, nat),
)
    requires
        layout_children(ts, cs, vertical),
        base.0 + (if vertical { max_along(cs, false) } else { sum_along(cs, false) }) <= u64::MAX,
        base.1 + (if vertical { sum_along(cs, true) } else { max_along(cs, true) }) <= u64::MAX,
    ensures
        children_offsets_fit(base, ts),
    decreases cs, 0nat,
{
    if cs.len() > 0 {
        lemma_children_offsets_fit_stack(ts.drop_last(), cs.drop_last(), vertical, base);
        lemma_offsets_fit(ts.last(), cs.last().1, base);
    }
}

/// The flattened geometry of the tree `root`, placed at the origin; `None`
/// where a size does not fit in a `u64`.
pub fn layout_frame(root: &UiNode) -> (r: Option<Vec<FlattenedLayout>>)
    ensures
        r is Some <==> fits(extent_of(*root)),
        r matches Some(l) ==> exists|t: LayoutTree|
            is_layout_of(t, *root) && t.offset@ == (0nat, 0nat) && layout_view(l@) == flat_layout(
                (0nat, 0nat),
                t,
            ),
        r matches Some(l) ==> corresponds(layout_view(l@), flat_nodes(*root, Seq::empty())),
{
    match calculate_ui_layout(root) {
        Some(t) => {
            proof {
                lemma_offsets_fit(t, *root, (0nat, 0nat));
                lemma_corresponds_tree(t, *root, (0nat, 0nat), Seq::empty());
            }
            let l = flatten_layout(Vec2 { x: 0, y: 0 }, &t);
            Some(l)
        },
        None => None,
    }
}

proof fn lemma_children_offsets_fit(base: (nat, nat), ts: Seq<LayoutTree>, i: int)
    requires
        children_offsets_fit(base, ts),
        0 <= i < ts.len(),
    ensures
        offsets_fit(base, ts[i]),
    decreases ts.len(),
{
    if i < ts.len() - 1 {
        lemma_children_offsets_fit(base, ts.drop_last(), i);
        assert(ts.drop_last()[i] == ts[i]);
    }
}

} // verus!
