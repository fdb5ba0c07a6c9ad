//! The interaction state that persists across frames.
use vstd::prelude::*;
use crate::flatten::{FlattenedLayout, widgets_view, layout_view};
use crate::tree::{Widget, WidgetUid};

verus! {

/// Hover target, drag origin and debounced edges of the primary button.
#[derive(Debug)]
pub struct UiInteractionState {
    pub hover_widget: Option<WidgetUid>,
    pub drag_begin_widget: Option<WidgetUid>,
    pub mouse_down: bool,
    pub mouse_released: bool,
    pub mouse_pressed: bool,
}

/// The mathematical content of a [`UiInteractionState`].
pub struct InteractionModel {
    pub hover: Option<Seq<usize>>,
    pub drag_begin: Option<Seq<usize>>,
    pub down: bool,
    pub released: bool,
    pub pressed: bool,
}

/// The path held by an optional widget identity.
pub open spec fn uid_view(u: Option<WidgetUid>) -> Option<Seq<usize>> {
    match u {
        Some(w) => Some(w@),
        None => None,
    }
}

impl View for UiInteractionState {
    type V = InteractionModel;

    open spec fn view(&self) -> InteractionModel {
        InteractionModel {
            hover: uid_view(self.hover_widget),
            drag_begin: uid_view(self.drag_begin_widget),
            down: self.mouse_down,
            released: self.mouse_released,
            pressed: self.mouse_pressed,
        }
    }
}

/// A widget is clicked when the button was released this frame over it, and the
/// press that began the gesture was over it too.
pub open spec fn is_clicked(s: InteractionModel, uid: Seq<usize>) -> bool {
    s.released && s.hover == Some(uid) && s.drag_begin == Some(uid)
}

/// A pointer position, in the coordinates of the layout; it may lie left of or
/// above the origin.
#[derive(Debug, Clone, Copy, PartialEq, Eq, Structural)]
pub struct Point {
    pub x: i64,
    pub y: i64,
}

/// `p` lies in the half-open rectangle at position `r.0` of size `r.1`.
pub open spec fn in_rect(p: Point, r: ((nat, nat), (nat, nat))) -> bool {
    &&& r.0.0 <= p.x < r.0.0 + r.1.0
    &&& r.0.1 <= p.y < r.0.1 + r.1.1
}

/// The path of the last button among the first `k` entries whose rectangle
/// holds `p`.
pub open spec fn hover_upto(
    p: Point,
    ws: Seq<(Seq<usize>, Widget)>,
    rs: Seq<((nat, nat), (nat, nat))>,
    k: int,
) -> Option<Seq<usize>>
    decreases k,
{
    if k <= 0 {
        None
    } else if ws[k - 1].1 is Button && in_rect(p, rs[k - 1]) {
        Some(ws[k - 1].0)
    } else {
        hover_upto(p, ws, rs, k - 1)
    }
}

/// The hover target of a frame: the last button, in traversal order, whose
/// rectangle holds the pointer; entries are paired by index.
pub open spec fn hover_target(
    p: Point,
    ws: Seq<(Seq<usize>, Widget)>,
    rs: Seq<((nat, nat), (nat, nat))>,
) -> Option<Seq<usize>> {
    hover_upto(p, ws, rs, if ws.len() <= rs.len() { ws.len() as int } else { rs.len() as int })
}

/// The state after a frame in which the button is `down` and the hover target
/// is `hover`: edges against the previous frame; the drag origin is taken on a
/// press over a button, kept while the gesture lasts, dropped once the button
/// has been up for two frames.
pub open spec fn next_interaction(s: InteractionModel, down: bool, hover: Option<Seq<usize>>) -> InteractionModel {
    let pressed = down && !s.down;
    let released = !down && s.down;
    InteractionModel {
        hover,
        drag_begin: if pressed && hover is Some {
            hover
        } else if !down && !s.down {
            None
        } else {
            s.drag_begin
        },
        down,
        released,
        pressed,
    }
}

/// The states after each frame of a run from `s0`; frame `i` has the button
/// state `frames[i].0` and the hover target `frames[i].1`.
pub open spec fn run_frames(s0: InteractionModel, frames: Seq<(bool, Option<Seq<usize>>)>) -> Seq<
    InteractionModel,
>
    decreases frames.len(),
{
    if frames.len() == 0 {
        Seq::empty()
    } else {
        let before = run_frames(s0, frames.drop_last());
        let prev = if before.len() == 0 {
            s0
        } else {
            before.last()
        };
        before.push(next_interaction(prev, frames.last().0, frames.last().1))
    }
}

/// The button state in the frame before frame `i` of a run from `s0`.
pub open spec fn down_before(s0: InteractionModel, frames: Seq<(bool, Option<Seq<usize>>)>, i: int) -> bool {
    if i == 0 {
        s0.down
    } else {
        frames[i - 1].0
    }
}

proof fn lemma_run_frames(s0: InteractionModel, frames: Seq<(bool, Option<Seq<usize>>)>)
    ensures
        run_frames(s0, frames).len() == frames.len(),
        forall|i: int|
            0 <= i < frames.len() ==> #[trigger] run_frames(s0, frames)[i] == next_interaction(
                if i == 0 {
                    s0
                } else {
                    run_frames(s0, frames)[i - 1]
                },
                frames[i].0,
                frames[i].1,
            ),
    decreases frames.len(),
{
    if frames.len() > 0 {
        lemma_run_frames(s0, frames.drop_last());
        let before = run_frames(s0, frames.drop_last());
        assert forall|i: int| 0 <= i < frames.len() implies #[trigger] run_frames(s0, frames)[i]
            == next_interaction(
            if i == 0 {
                s0
            } else {
                run_frames(s0, frames)[i - 1]
            },
            frames[i].0,
            frames[i].1,
        ) by {
            if i < frames.len() - 1 {
                assert(frames.drop_last()[i] == frames[i]);
            }
        }
    }
}

/// Edges are debounced: in every frame of a run, the press edge is up exactly
/// when the button went down since the frame before, the release edge exactly
/// when it went up, and never both; each state remembers the button state.
pub proof fn lemma_debounce(s0: InteractionModel, frames: Seq<(bool, Option<Seq<usize>>)>)
    ensures
        run_frames(s0, frames).len() == frames.len(),
        forall|i: int|
            0 <= i < frames.len() ==> {
                &&& (#[trigger] run_frames(s0, frames)[i]).pressed == (frames[i].0 && !down_before(
                    s0,
                    frames,
                    i,
                ))
                &&& run_frames(s0, frames)[i].released == (!frames[i].0 && down_before(s0, frames, i))
                &&& !(run_frames(s0, frames)[i].pressed && run_frames(s0, frames)[i].released)
                &&& run_frames(s0, frames)[i].down == frames[i].0
            },
{
    lemma_run_frames(s0, frames);
    assert forall|i: int| 0 <= i < frames.len() implies {
        &&& (#[trigger] run_frames(s0, frames)[i]).pressed == (frames[i].0 && !down_before(
            s0,
            frames,
            i,
        ))
        &&& run_frames(s0, frames)[i].released == (!frames[i].0 && down_before(s0, frames, i))
        &&& !(run_frames(s0, frames)[i].pressed && run_frames(s0, frames)[i].released)
        &&& run_frames(s0, frames)[i].down == frames[i].0
    } by {
        if i > 0 {
            let _ = run_frames(s0, frames)[i - 1];
        }
    }
}

/// Facts on the hover target: it is the path of a button whose rectangle holds
/// the pointer, and it is the path of button `k` where that is the only one.
proof fn lemma_hover_upto(
    p: Point,
    ws: Seq<(Seq<usize>, Widget)>,
    rs: Seq<((nat, nat), (nat, nat))>,
    n: int,
    k: int,
)
    requires
        0 <= n <= ws.len(),
        n <= rs.len(),
    ensures
        hover_upto(p, ws, rs, n) matches Some(u) ==> exists|j: int|
            0 <= j < n && ws[j].0 == u && ws[j].1 is Button && in_rect(p, rs[j]),
        (0 <= k < n && ws[k].1 is Button && in_rect(p, rs[k]) && forall|j: int|
            0 <= j < n && j != k && ws[j].1 is Button ==> !in_rect(p, rs[j])) ==> hover_upto(
            p,
            ws,
            rs,
            n,
        ) == Some(ws[k].0),
    decreases n,
{
    if n > 0 {
        lemma_hover_upto(p, ws, rs, n - 1, k);
    }
}

proof fn lemma_drag_kept(
    s0: InteractionModel,
    frames: Seq<(bool, Option<Seq<usize>>)>,
    i: int,
    u: Seq<usize>,
)
    requires
        0 <= i < frames.len(),
        run_frames(s0, frames)[0].drag_begin == Some(u),
        run_frames(s0, frames)[0].down,
        forall|j: int| 0 < j <= i ==> frames[j].0,
    ensures
        run_frames(s0, frames)[i].drag_begin == Some(u),
        run_frames(s0, frames)[i].down,
    decreases i,
{
    lemma_run_frames(s0, frames);
    if i > 0 {
        lemma_drag_kept(s0, frames, i - 1, u);
    }
}

/// A click needs press and release over the same button. Take a button `k`
/// of a frame's flattened trees, kept over a run whose first frame presses
/// the button with the pointer in its rectangle, whose middle frames hold it
/// and whose last frame releases it; where the pointer is in that rectangle
/// no other button's rectangle holds it, and no other entry has its path.
/// Then the button is clicked in the last frame exactly when the pointer is
/// in its rectangle then, and in no earlier frame.
pub proof fn lemma_click(
    s0: InteractionModel,
    downs: Seq<bool>,
    mice: Seq<Point>,
    ws: Seq<(Seq<usize>, Widget)>,
    rs: Seq<((nat, nat), (nat, nat))>,
    k: int,
)
    requires
        downs.len() == mice.len(),
        downs.len() >= 2,
        !s0.down,
        downs[0],
        forall|i: int| 0 < i < downs.len() - 1 ==> downs[i],
        !downs.last(),
        ws.len() == rs.len(),
        0 <= k < ws.len(),
        ws[k].1 is Button,
        in_rect(mice[0], rs[k]),
        forall|i: int, j: int|
            (i == 0 || i == mice.len() - 1) && 0 <= j < ws.len() && j != k && ws[j].1 is Button
                && in_rect(mice[i], rs[k]) ==> !in_rect(mice[i], rs[j]),
        forall|j: int| 0 <= j < ws.len() && j != k ==> ws[j].0 != ws[k].0,
    ensures
        ({
            let frames = Seq::new(
                downs.len(),
                |i: int| (downs[i], hover_target(mice[i], ws, rs)),
            );
            let states = run_frames(s0, frames);
            &&& states.len() == downs.len()
            &&& is_clicked(states.last(), ws[k].0) == in_rect(mice.last(), rs[k])
            &&& forall|i: int| 0 <= i < downs.len() - 1 ==> !is_clicked(#[trigger] states[i], ws[k].0)
        }),
{
    let frames = Seq::new(downs.len(), |i: int| (downs[i], hover_target(mice[i], ws, rs)));
    let states = run_frames(s0, frames);
    let u = ws[k].0;
    let last = downs.len() - 1;
    lemma_run_frames(s0, frames);
    lemma_hover_upto(mice[0], ws, rs, ws.len() as int, k);
    assert(states[0].drag_begin == Some(u));
    assert forall|i: int| 0 <= i < last implies (#[trigger] states[i]).drag_begin == Some(u)
        && states[i].down by {
        lemma_drag_kept(s0, frames, i, u);
    }
    assert(states[last] == next_interaction(states[last - 1], frames[last].0, frames[last].1));
    assert(states[last].drag_begin == Some(u));
    assert(states[last].released);
    lemma_hover_upto(mice[last], ws, rs, ws.len() as int, k);
    if !in_rect(mice[last], rs[k]) {
        if states[last].hover == Some(u) {
            let j = choose|j: int|
                0 <= j < ws.len() && ws[j].0 == u && ws[j].1 is Button && in_rect(mice[last], rs[j]);
            assert(j != k);
        }
    }
}

fn contains(p: Point, r: &FlattenedLayout) -> (b: bool)
    ensures
        b == in_rect(p, (r.offset@, r.extent@)),
{
    p.x >= 0 && p.y >= 0 && (p.x as u64) >= r.offset.x && (p.x as u64) - r.offset.x < r.extent.x
        && (p.y as u64) >= r.offset.y && (p.y as u64) - r.offset.y < r.extent.y
}

impl Default for UiInteractionState {
    fn default() -> (r: UiInteractionState)
        ensures
            r@.hover is None,
            r@.drag_begin is None,
            !r@.down,
            !r@.released,
            !r@.pressed,
    {
        UiInteractionState::new()
    }
}

impl UiInteractionState {
    /// The state before the first frame: nothing hovered, button up.
    pub fn new() -> (r: UiInteractionState)
        ensures
            r@.hover is None,
            r@.drag_begin is None,
            !r@.down,
            !r@.released,
            !r@.pressed,
    {
        UiInteractionState {
            hover_widget: None,
            drag_begin_widget: None,
            mouse_down: false,
            mouse_released: false,
            mouse_pressed: false,
        }
    }

    /// Runs the interaction of one frame: `mouse_down` and `mouse` are the
    /// button and pointer now, `widgets` and `layout` the frame's flattened
    /// trees, paired by index.
    pub fn update<'w>(
        &mut self,
        mouse_down: bool,
        mouse: Point,
        widgets: &[(WidgetUid, &'w Widget)],
        layout: &[FlattenedLayout],
    )
        ensures
            final(self)@ == next_interaction(
                old(self)@,
                mouse_down,
                hover_target(mouse, widgets_view(widgets@), layout_view(layout@)),
            ),
    {
        let ghost ws = widgets_view(widgets@);
        let ghost rs = layout_view(layout@);
        let prev_mouse_down = self.mouse_down;
        let n = if widgets.len() <= layout.len() {
            widgets.len()
        } else {
            layout.len()
        };
        let mut hover: Option<usize> = None;
        let mut i: usize = 0;
        while i < n
            invariant
                n <= widgets@.len(),
                n <= layout@.len(),
                i <= n,
                ws == widgets_view(widgets@),
                rs == layout_view(layout@),
                match hover {
                    Some(k) => k < i && hover_upto(mouse, ws, rs, i as int) == Some(ws[k as int].0),
                    None => hover_upto(mouse, ws, rs, i as int) is None,
                },
            decreases n - i,
        {
            let is_button = match widgets[i].1 {
                Widget::Button(_) => true,
                _ => false,
            };
            if is_button && contains(mouse, &layout[i]) {
                hover = Some(i);
            }
            i = i + 1;
        }
        self.hover_widget = match hover {
            Some(k) => Some(widgets[k].0.duplicate()),
            None => None,
        };
        self.mouse_down = mouse_down;
        self.mouse_released = !mouse_down && prev_mouse_down;
        self.mouse_pressed = mouse_down && !prev_mouse_down;
        if self.mouse_pressed {
            if let Some(k) = hover {
                self.drag_begin_widget = Some(widgets[k].0.duplicate());
            }
        } else if !mouse_down && !prev_mouse_down {
            self.drag_begin_widget = None;
        }
    }

    /// Whether the widget at `uid` is the hover target.
    pub fn is_hovered(&self, uid: &WidgetUid) -> (r: bool)
        ensures
            r == (self@.hover == Some(uid@)),
    {
        match &self.hover_widget {
            Some(h) => h.same(uid),
            None => false,
        }
    }

    /// Whether the widget at `uid` is the drag origin.
    pub fn is_drag_origin(&self, uid: &WidgetUid) -> (r: bool)
        ensures
            r == (self@.drag_begin == Some(uid@)),
    {
        match &self.drag_begin_widget {
            Some(d) => d.same(uid),
            None => false,
        }
    }

    /// Whether the widget at `uid` is clicked in this state.
    pub fn clicked(&self, uid: &WidgetUid) -> (r: bool)
        ensures
            r == is_clicked(self@, uid@),
    {
        if !self.mouse_released {
            return false;
        }
        let on_hover = match &self.hover_widget {
            Some(h) => h.same(uid),
            None => false,
        };
        let on_drag = match &self.drag_begin_widget {
            Some(d) => d.same(uid),
            None => false,
        };
        on_hover && on_drag
    }
}

} // verus!
