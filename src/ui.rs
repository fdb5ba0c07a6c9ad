//! The builder: cursors over the widget tree of one frame.
use vstd::prelude::*;
use crate::interaction::{UiInteractionState, is_clicked};
use crate::tree::{
    WidgetId, WidgetUid, Widget, UiNode, WidgetNotFoundError, find_key, node_at, appended_at,
};

verus! {

/// A position in the tree, with a read-only view of the interaction state.
pub struct UiContext<'a> {
    pub uid: WidgetUid,
    pub interaction_state: &'a UiInteractionState,
}

impl<'a> UiContext<'a> {
    /// The context of the child at position `id` under this one.
    pub fn nested(&self, id: WidgetId) -> (r: UiContext<'a>)
        ensures
            r.uid@ == self.uid@.push(id.0),
            r.interaction_state == self.interaction_state,
    {
        let uid = self.uid.child(id);
        UiContext { uid, interaction_state: self.interaction_state }
    }

    /// Whether the widget at this position was clicked.
    pub fn clicked(&self) -> (r: bool)
        ensures
            r == is_clicked(self.interaction_state@, self.uid@),
    {
        self.interaction_state.clicked(&self.uid)
    }
}

/// A builder over an owned subtree: `node` is the subtree's root and
/// `context` its position in the frame's tree.
pub struct Ui<'a> {
    pub node: UiNode,
    pub context: UiContext<'a>,
}

/// `n` is a leaf fresh from [`UiNode::new`]: a button when `button`, else a
/// label, showing `text`.
pub open spec fn is_new_leaf(n: UiNode, button: bool, text: Seq<char>) -> bool {
    &&& if button {
        n.widget matches Widget::Button(t) && t@ == text
    } else {
        n.widget matches Widget::Label(t) && t@ == text
    }
    &&& n.string_uid is None
    &&& n.children@.len() == 0
    &&& n.next_child_id.0 == 0
}

/// The path of `target` below `base`, when `base` is a prefix of it.
pub open spec fn relative_path(base: Seq<usize>, target: Seq<usize>) -> Option<Seq<usize>> {
    if base.len() <= target.len() && target.take(base.len() as int) == base {
        Some(target.skip(base.len() as int))
    } else {
        None
    }
}

/// The node of the subtree `n`, whose own path is `base`, that sits at `target`.
pub open spec fn node_below(n: UiNode, base: Seq<usize>, target: Seq<usize>) -> Option<UiNode> {
    match relative_path(base, target) {
        Some(rel) => node_at(n, rel),
        None => None,
    }
}

/// `run[j + 1]` is `run[j]` after appending `kids[j]` at its root, starting
/// from a fresh node.
pub open spec fn appends_from_fresh(run: Seq<UiNode>, kids: Seq<UiNode>) -> bool {
    &&& run.len() == kids.len() + 1
    &&& run[0].children@.len() == 0
    &&& run[0].next_child_id.0 == 0
    &&& forall|j: int|
        0 <= j < kids.len() ==> appended_at(#[trigger] run[j], run[j + 1], Seq::empty(), kids[j])
}

proof fn lemma_appends_positions(run: Seq<UiNode>, kids: Seq<UiNode>, j: int)
    requires
        appends_from_fresh(run, kids),
        0 <= j < run.len(),
    ensures
        run[j].next_child_id.0 == j,
        run[j].children@.len() == j,
        forall|i: int| 0 <= i < j ==> (#[trigger] run[j].children@[i]).0.0 == i,
    decreases j,
{
    if j > 0 {
        lemma_appends_positions(run, kids, j - 1);
        assert(appended_at(run[j - 1], run[j], Seq::empty(), kids[j - 1]));
        assert forall|i: int| 0 <= i < j implies (#[trigger] run[j].children@[i]).0.0 == i by {
            if i < j - 1 {
                assert(run[j].children@[i] == run[j - 1].children@[i]);
            }
        }
    }
}

/// Identity is positional and stable: two frames that make the same number of
/// appends under a fresh node, whatever they append, give the `j`-th
/// appended child the same position `j`, hence under a node at `prefix` the
/// same path `prefix + [j]`.
pub proof fn lemma_identity_stability(
    run1: Seq<UiNode>,
    kids1: Seq<UiNode>,
    run2: Seq<UiNode>,
    kids2: Seq<UiNode>,
    prefix: Seq<usize>,
)
    requires
        appends_from_fresh(run1, kids1),
        appends_from_fresh(run2, kids2),
        kids1.len() == kids2.len(),
    ensures
        forall|j: int|
            0 <= j < kids1.len() ==> {
                &&& (#[trigger] run1[j]).next_child_id.0 == j
                &&& run2[j].next_child_id.0 == j
                &&& prefix.push(run1[j].next_child_id.0) == prefix.push(run2[j].next_child_id.0)
            },
        forall|j: int|
            0 <= j < kids1.len() ==> (#[trigger] run1.last().children@[j]).0 == WidgetId(j as usize)
                && run2.last().children@[j].0 == WidgetId(j as usize),
{
    lemma_appends_positions(run1, kids1, kids1.len() as int);
    lemma_appends_positions(run2, kids2, kids2.len() as int);
    assert forall|j: int| 0 <= j < kids1.len() implies {
        &&& (#[trigger] run1[j]).next_child_id.0 == j
        &&& run2[j].next_child_id.0 == j
        &&& prefix.push(run1[j].next_child_id.0) == prefix.push(run2[j].next_child_id.0)
    } by {
        lemma_appends_positions(run1, kids1, j);
        lemma_appends_positions(run2, kids2, j);
    }
}

impl<'a> Ui<'a> {
    pub fn new(node: UiNode, context: UiContext<'a>) -> (r: Ui<'a>)
        ensures
            r.node == node,
            r.context == context,
    {
        Ui { node, context }
    }

    /// Whether the root of this subtree was clicked.
    pub fn clicked(&self) -> (r: bool)
        ensures
            r == is_clicked(self.context.interaction_state@, self.context.uid@),
    {
        self.context.clicked()
    }

    /// The context of the first node of this subtree, depth-first and self
    /// before children, whose key is `label`.
    pub fn id(&self, label: &str) -> (r: Result<UiContext<'a>, WidgetNotFoundError>)
        ensures
            match find_key(self.node, label@, self.context.uid@) {
                Some(p) => r matches Ok(c) && c.uid@ == p && c.interaction_state
                    == self.context.interaction_state,
                None => r is Err,
            },
    {
        match self.node.id(label, &self.context.uid) {
            Ok(uid) => Ok(UiContext { uid, interaction_state: self.context.interaction_state }),
            Err(e) => Err(e),
        }
    }

    /// Appends `child` as the last child of the root, under the root's next
    /// free position; returns the child's context.
    pub fn append(&mut self, child: UiNode) -> (r: UiContext<'a>)
        requires
            old(self).node.next_child_id.0 < usize::MAX,
        ensures
            final(self).context == old(self).context,
            final(self).node.widget == old(self).node.widget,
            final(self).node.string_uid == old(self).node.string_uid,
            final(self).node.children@ == old(self).node.children@.push(
                (old(self).node.next_child_id, child),
            ),
            final(self).node.next_child_id.0 == old(self).node.next_child_id.0 + 1,
            appended_at(old(self).node, final(self).node, Seq::empty(), child),
            r.uid@ == old(self).context.uid@.push(old(self).node.next_child_id.0),
            r.interaction_state == old(self).context.interaction_state,
    {
        let id = self.node.next_child_id;
        self.node.next_child_id = WidgetId(id.0 + 1);
        self.node.children.push((id, child));
        self.context.nested(id)
    }

    /// Appends a new button showing `label`.
    pub fn button(&mut self, label: &str) -> (r: UiContext<'a>)
        requires
            old(self).node.next_child_id.0 < usize::MAX,
        ensures
            final(self).context == old(self).context,
            final(self).node.widget == old(self).node.widget,
            final(self).node.string_uid == old(self).node.string_uid,
            final(self).node.children@.len() == old(self).node.children@.len() + 1,
            final(self).node.children@.drop_last() == old(self).node.children@,
            final(self).node.children@.last().0 == old(self).node.next_child_id,
            is_new_leaf(final(self).node.children@.last().1, true, label@),
            final(self).node.next_child_id.0 == old(self).node.next_child_id.0 + 1,
            r.uid@ == old(self).context.uid@.push(old(self).node.next_child_id.0),
            r.interaction_state == old(self).context.interaction_state,
    {
        let r = self.append(UiNode::new(Widget::Button(label.to_owned())));
        assert(self.node.children@.drop_last() =~= old(self).node.children@);
        r
    }

    /// Appends a new label showing `label`.
    pub fn label(&mut self, label: &str) -> (r: UiContext<'a>)
        requires
            old(self).node.next_child_id.0 < usize::MAX,
        ensures
            final(self).context == old(self).context,
            final(self).node.widget == old(self).node.widget,
            final(self).node.string_uid == old(self).node.string_uid,
            final(self).node.children@.len() == old(self).node.children@.len() + 1,
            final(self).node.children@.drop_last() == old(self).node.children@,
            final(self).node.children@.last().0 == old(self).node.next_child_id,
            is_new_leaf(final(self).node.children@.last().1, false, label@),
            final(self).node.next_child_id.0 == old(self).node.next_child_id.0 + 1,
            r.uid@ == old(self).context.uid@.push(old(self).node.next_child_id.0),
            r.interaction_state == old(self).context.interaction_state,
    {
        let r = self.append(UiNode::new(Widget::Label(label.to_owned())));
        assert(self.node.children@.drop_last() =~= old(self).node.children@);
        r
    }

    /// Appends `child` as the last child of the node at the cursor `at`, as
    /// found by [`Ui::id`]; fails where `at` names no node of this subtree.
    pub fn append_at(&mut self, at: &UiContext, child: UiNode) -> (r: Result<
        UiContext<'a>,
        WidgetNotFoundError,
    >)
        requires
            node_below(old(self).node, old(self).context.uid@, at.uid@) matches Some(t)
                ==> t.next_child_id.0 < usize::MAX,
        ensures
            match node_below(old(self).node, old(self).context.uid@, at.uid@) {
                Some(t) => {
                    &&& r matches Ok(c) && c.uid@ == at.uid@.push(t.next_child_id.0)
                        && c.interaction_state == old(self).context.interaction_state
                    &&& final(self).context == old(self).context
                    &&& appended_at(
                        old(self).node,
                        final(self).node,
                        relative_path(old(self).context.uid@, at.uid@)->0,
                        child,
                    )
                },
                None => r is Err && *final(self) == *old(self),
            },
    {
        let base = &self.context.uid;
        if base.0.len() > at.uid.0.len() {
            return Err(WidgetNotFoundError);
        }
        let mut i: usize = 0;
        while i < base.0.len()
            invariant
                base@ == old(self).context.uid@,
                base.0@.len() <= at.uid.0@.len(),
                i <= base.0@.len(),
                forall|j: int| 0 <= j < i ==> base@[j] == at.uid@[j],
            decreases base.0@.len() - i,
        {
            if base.0[i].0 != at.uid.0[i].0 {
                assert(at.uid@.take(base@.len() as int)[i as int] != base@[i as int]);
                assert(at.uid@.take(base@.len() as int) != base@);
                return Err(WidgetNotFoundError);
            }
            i = i + 1;
        }
        assert(at.uid@.take(base@.len() as int) =~= base@);
        let from = base.0.len();
        match self.node.next_id_at_path(&at.uid, from) {
            Some(id) => {
                self.node.append_at_path(&at.uid, from, child);
                Ok(UiContext { uid: at.uid.child(id), interaction_state: self.context.interaction_state })
            },
            None => Err(WidgetNotFoundError),
        }
    }
}

} // verus!
