//! The layout pass: a geometry tree computed bottom-up from a widget tree.
use vstd::prelude::*;
use crate::tree::{Widget, UiNode, WidgetId};

verus! {

/// Width of every leaf widget.
pub const LEAF_WIDTH: u64 = 180;

/// Height of every leaf widget.
pub const LEAF_HEIGHT: u64 = 25;

/// A pair of non-negative coordinates: a size or a position.
#[derive(Debug, Clone, Copy, PartialEq, Eq, Structural)]
pub struct Vec2 {
    pub x: u64,
    pub y: u64,
}

impl View for Vec2 {
    type V = (nat, nat);

    open spec fn view(&self) -> (nat, nat) {
        (self.x as nat, self.y as nat)
    }
}

/// One node of the geometry tree: its size, its position relative to its
/// parent's origin, and the geometry of its children.
#[derive(Debug)]
pub struct LayoutTree {
    pub extent: Vec2,
    pub offset: Vec2,
    pub children: Vec<LayoutTree>,
}

/// The coordinate of `e` along the vertical axis when `vertical`, else along
/// the horizontal one.
pub open spec fn along(e: (nat, nat), vertical: bool) -> nat {
    if vertical {
        e.1
    } else {
        e.0
    }
}

/// The point at distance `d` from the origin along the given axis.
pub open spec fn at_distance(d: nat, vertical: bool) -> (nat, nat) {
    if vertical {
        (0, d)
    } else {
        (d, 0)
    }
}

/// The size that layout gives `n`: fixed for leaves; for a container, the sum
/// of its children's sizes along its axis and their maximum across it.
pub open spec fn extent_of(n: UiNode) -> (nat, nat)
    decreases n, 1nat,
{
    match n.widget {
        Widget::Horizontal => (sum_along(n.children@, false), max_along(n.children@, true)),
        Widget::Vertical => (max_along(n.children@, false), sum_along(n.children@, true)),
        _ => (LEAF_WIDTH as nat, LEAF_HEIGHT as nat),
    }
}

/// Sum of the sizes of the subtrees `cs` along an axis.
pub open spec fn sum_along(cs: Seq<(WidgetId, UiNode)>, vertical: bool) -> nat
    decreases cs, 0nat,
{
    if cs.len() == 0 {
        0
    } else {
        sum_along(cs.drop_last(), vertical) + along(extent_of(cs.last().1), vertical)
    }
}

/// Maximum of the sizes of the subtrees `cs` along an axis; 0 for none.
pub open spec fn max_along(cs: Seq<(WidgetId, UiNode)>, vertical: bool) -> nat
    decreases cs, 0nat,
{
    if cs.len() == 0 {
        0
    } else {
        let m = max_along(cs.drop_last(), vertical);
        let e = along(extent_of(cs.last().1), vertical);
        if m >= e {
            m
        } else {
            e
        }
    }
}

/// `t` is the geometry of `n`: sizes as [`extent_of`] gives them, one child
/// per child of a container, in order, each placed after the ones before it.
pub open spec fn is_layout_of(t: LayoutTree, n: UiNode) -> bool
    decreases n, 1nat,
{
    &&& t.extent@ == extent_of(n)
    &&& match n.widget {
        Widget::Horizontal => layout_children(t.children@, n.children@, false),
        Widget::Vertical => layout_children(t.children@, n.children@, true),
        _ => t.children@.len() == 0,
    }
}

/// `ts` are the geometries of `cs`, stacked along an axis from the origin.
pub open spec fn layout_children(
    ts: Seq<LayoutTree>,
    cs: Seq<(WidgetId, UiNode)>,
    vertical: bool,
) -> bool
    decreases cs, 0nat,
{
    if cs.len() == 0 {
        ts.len() == 0
    } else {
        &&& ts.len() == cs.len()
        &&& layout_children(ts.drop_last(), cs.drop_last(), vertical)
        &&& ts.last().offset@ == at_distance(sum_along(cs.drop_last(), vertical), vertical)
        &&& is_layout_of(ts.last(), cs.last().1)
    }
}

/// Both coordinates of `e` fit in a `u64`.
pub open spec fn fits(e: (nat, nat)) -> bool {
    e.0 <= u64::MAX && e.1 <= u64::MAX
}

proof fn lemma_prefix_bounds(cs: Seq<(WidgetId, UiNode)>, vertical: bool, k: int)
    requires
        0 <= k <= cs.len(),
    ensures
        sum_along(cs.take(k), vertical) <= sum_along(cs, vertical),
        max_along(cs.take(k), vertical) <= max_along(cs, vertical),
        k < cs.len() ==> along(extent_of(cs[k].1), vertical) <= sum_along(cs, vertical),
        k < cs.len() ==> along(extent_of(cs[k].1), vertical) <= max_along(cs, vertical),
    decreases cs.len(),
{
    if k == cs.len() {
        assert(cs.take(k) =~= cs);
    } else {
        assert(cs.drop_last().take(k) =~= cs.take(k));
        if k < cs.len() - 1 {
            lemma_prefix_bounds(cs.drop_last(), vertical, k);
            assert(cs.drop_last()[k] == cs[k]);
        } else {
            assert(cs.drop_last() =~= cs.take(k));
        }
    }
}

/// The `i`-th geometry of a stack: placed after the sizes of the subtrees
/// before it, and the geometry of the `i`-th subtree.
pub proof fn lemma_layout_children_at(
    ts: Seq<LayoutTree>,
    cs: Seq<(WidgetId, UiNode)>,
    vertical: bool,
    i: int,
)
    requires
        layout_children(ts, cs, vertical),
        0 <= i < cs.len(),
    ensures
        ts.len() == cs.len(),
        ts[i].offset@ == at_distance(sum_along(cs.take(i), vertical), vertical),
        is_layout_of(ts[i], cs[i].1),
    decreases cs.len(),
{
    if i < cs.len() - 1 {
        lemma_layout_children_at(ts.drop_last(), cs.drop_last(), vertical, i);
        assert(cs.drop_last().take(i) =~= cs.take(i));
        assert(ts.drop_last()[i] == ts[i]);
    } else {
        assert(cs.take(i) =~= cs.drop_last());
    }
}

/// Layout of a container: a vertical one is as wide as its widest child and
/// as high as its children together, and the `i`-th child sits at x = 0 and
/// y = the sum of the heights of the children before it; a horizontal one is
/// the same with the axes swapped. Every child has the size layout gives it.
pub proof fn lemma_layout_law(n: UiNode, t: LayoutTree)
    requires
        is_layout_of(t, n),
        n.widget is Vertical || n.widget is Horizontal,
    ensures
        ({
            let cs = n.children@;
            &&& n.widget is Vertical ==> t.extent@ == (max_along(cs, false), sum_along(cs, true))
            &&& n.widget is Horizontal ==> t.extent@ == (sum_along(cs, false), max_along(cs, true))
            &&& t.children@.len() == cs.len()
            &&& forall|i: int|
                0 <= i < cs.len() ==> {
                    &&& n.widget is Vertical ==> (#[trigger] t.children@[i]).offset@ == (
                        0nat,
                        sum_along(cs.take(i), true),
                    )
                    &&& n.widget is Horizontal ==> t.children@[i].offset@ == (
                        sum_along(cs.take(i), false),
                        0nat,
                    )
                    &&& t.children@[i].extent@ == extent_of(cs[i].1)
                }
        }),
{
    let cs = n.children@;
    let v = n.widget is Vertical;
    assert(layout_children(t.children@, cs, v));
    if cs.len() == 0 {
        assert(t.children@.len() == 0);
    } else {
        lemma_layout_children_at(t.children@, cs, v, 0);
    }
    assert forall|i: int| 0 <= i < cs.len() implies {
        &&& n.widget is Vertical ==> (#[trigger] t.children@[i]).offset@ == (
            0nat,
            sum_along(cs.take(i), true),
        )
        &&& n.widget is Horizontal ==> t.children@[i].offset@ == (sum_along(cs.take(i), false), 0nat)
        &&& t.children@[i].extent@ == extent_of(cs[i].1)
    } by {
        lemma_layout_children_at(t.children@, cs, v, i);
    }
}

impl LayoutTree {
    /// A childless node of size `w` by `h` at the origin.
    pub fn rect(w: u64, h: u64) -> (r: LayoutTree)
        ensures
            r.extent@ == (w as nat, h as nat),
            r.offset@ == (0nat, 0nat),
            r.children@.len() == 0,
    {
        LayoutTree { extent: Vec2 { x: w, y: h }, offset: Vec2 { x: 0, y: 0 }, children: Vec::new() }
    }
}

fn component(v: Vec2, vertical: bool) -> (r: u64)
    ensures
        r == along(v@, vertical),
{
    if vertical {
        v.y
    } else {
        v.x
    }
}

fn point_at(d: u64, vertical: bool) -> (r: Vec2)
    ensures
        r@ == at_distance(d as nat, vertical),
{
    if vertical {
        Vec2 { x: 0, y: d }
    } else {
        Vec2 { x: d, y: 0 }
    }
}

/// Lays out the children of a container along an axis: the geometry tree of
/// the container at the origin, or `None` where its size does not fit.
fn layout_stack(ctx: &UiNode, vertical: bool) -> (r: Option<LayoutTree>)
    ensures
        ({
            let e = (
                if vertical { max_along(ctx.children@, false) } else { sum_along(ctx.children@, false) },
                if vertical { sum_along(ctx.children@, true) } else { max_along(ctx.children@, true) },
            );
            &&& r is Some <==> fits(e)
            &&& r matches Some(t) ==> t.extent@ == e && t.offset@ == (0nat, 0nat)
                && layout_children(t.children@, ctx.children@, vertical)
        }),
    decreases *ctx, 0nat,
{
    let ghost cs = ctx.children@;
    let mut node = LayoutTree::rect(0, 0);
    let mut main: u64 = 0;
    let mut cross: u64 = 0;
    let mut i: usize = 0;
    assert(cs.take(0).len() == 0);
    while i < ctx.children.len()
        invariant
            cs == ctx.children@,
            i <= cs.len(),
            node.offset@ == (0nat, 0nat),
            layout_children(node.children@, cs.take(i as int), vertical),
            main == sum_along(cs.take(i as int), vertical),
            cross == max_along(cs.take(i as int), !vertical),
        decreases cs.len() - i,
    {
        proof {
            lemma_prefix_bounds(cs, vertical, i as int);
            lemma_prefix_bounds(cs, !vertical, i as int);
            assert(cs.take(i + 1).drop_last() =~= cs.take(i as int));
            assert(cs.take(i + 1).last() == cs[i as int]);
            lemma_prefix_bounds(cs, vertical, i + 1);
            lemma_prefix_bounds(cs, !vertical, i + 1);
        }
        let child = match calculate_ui_layout(&ctx.children[i].1) {
            Some(c) => c,
            None => {
                return None;
            },
        };
        let mut child = child;
        child.offset = point_at(main, vertical);
        assert(is_layout_of(child, cs[i as int].1));
        let size = component(child.extent, vertical);
        main = match main.checked_add(size) {
            Some(m) => m,
            None => {
                return None;
            },
        };
        let breadth = component(child.extent, !vertical);
        if breadth > cross {
            cross = breadth;
        }
        let ghost before = node.children@;
        node.children.push(child);
        assert(node.children@.drop_last() =~= before);
        assert(node.children@.last().offset@ == at_distance(sum_along(cs.take(i + 1).drop_last(), vertical), vertical));
        assert(is_layout_of(node.children@.last(), cs.take(i + 1).last().1));
        i = i + 1;
    }
    assert(cs.take(cs.len() as int) =~= cs);
    node.extent = if vertical {
        Vec2 { x: cross, y: main }
    } else {
        Vec2 { x: main, y: cross }
    };
    Some(node)
}

/// The geometry tree of `ctx`, placed at the origin; `None` where a size does
/// not fit in a `u64`.
pub fn calculate_ui_layout(ctx: &UiNode) -> (r: Option<LayoutTree>)
    ensures
        r is Some <==> fits(extent_of(*ctx)),
        r matches Some(t) ==> is_layout_of(t, *ctx) && t.offset@ == (0nat, 0nat),
    decreases *ctx, 1nat,
{
    match &ctx.widget {
        Widget::Button(_) => Some(LayoutTree::rect(LEAF_WIDTH, LEAF_HEIGHT)),
        Widget::Label(_) => Some(LayoutTree::rect(LEAF_WIDTH, LEAF_HEIGHT)),
        Widget::Horizontal => layout_stack(ctx, false),
        Widget::Vertical => layout_stack(ctx, true),
    }
}

} // verus!
