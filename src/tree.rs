//! Widget identities and the per-frame widget tree.
use vstd::prelude::*;

verus! {

/// Position of a child among its siblings, assigned in increasing order.
#[derive(Debug, Clone, Copy, PartialEq, Eq, Structural, Hash)]
pub struct WidgetId(pub usize);

/// Root-to-node path of child positions; the root has the empty path.
#[derive(Debug)]
pub struct WidgetUid(pub Vec<WidgetId>);

impl View for WidgetUid {
    type V = Seq<usize>;

    open spec fn view(&self) -> Seq<usize> {
        self.0@.map_values(|id: WidgetId| id.0)
    }
}

/// The kind of a widget, with the text of the leaf kinds.
#[derive(Debug)]
pub enum Widget {
    Button(String),
    Label(String),
    Horizontal,
    Vertical,
}

/// One node of the widget tree.
#[derive(Debug)]
pub struct UiNode {
    pub widget: Widget,
    pub string_uid: Option<String>,
    pub children: Vec<(WidgetId, UiNode)>,
    pub next_child_id: WidgetId,
}

impl Widget {
    /// Horizontal and vertical containers; layout and flattening descend into
    /// their children only.
    pub open spec fn is_container(self) -> bool {
        self is Horizontal || self is Vertical
    }
}

impl UiNode {
    /// A node of the given kind, without key or children.
    pub fn new(widget: Widget) -> (r: UiNode)
        ensures
            r.widget == widget,
            r.string_uid is None,
            r.children@.len() == 0,
            r.next_child_id.0 == 0,
    {
        UiNode { widget, string_uid: None, children: Vec::new(), next_child_id: WidgetId(0) }
    }
}

/// No node of the tree carries the key that was looked up.
#[derive(Debug, Clone, Copy, PartialEq, Eq, Structural)]
pub struct WidgetNotFoundError;

impl WidgetNotFoundError {
    pub fn message(&self) -> (r: String)
        ensures
            r@ == "Could not find widget"@,
    {
        "Could not find widget".to_owned()
    }
}

impl UiNode {
    /// Depth-first search, self before children, for the first node keyed
    /// `label`; the result is that node's path, `uid_prefix` being this node's.
    pub fn id(&self, label: &str, uid_prefix: &WidgetUid) -> (r: Result<WidgetUid, WidgetNotFoundError>)
        ensures
            match find_key(*self, label@, uid_prefix@) {
                Some(p) => r matches Ok(u) && u@ == p,
                None => r is Err,
            },
        decreases *self,
    {
        if let Some(s) = &self.string_uid {
            let key = label.to_owned();
            if *s == key {
                return Ok(uid_prefix.duplicate());
            }
        }
        let ghost cs = self.children@;
        assert(cs.skip(0) =~= cs);
        let mut i: usize = 0;
        while i < self.children.len()
            invariant
                i <= cs.len(),
                cs == self.children@,
                find_key(*self, label@, uid_prefix@) == find_in(cs.skip(i as int), label@, uid_prefix@),
            decreases cs.len() - i,
        {
            let entry = &self.children[i];
            let uid = uid_prefix.child(entry.0);
            assert(cs.skip(i as int)[0] == cs[i as int]);
            assert(cs.skip(i as int).drop_first() =~= cs.skip(i + 1));
            match entry.1.id(label, &uid) {
                Ok(found) => {
                    return Ok(found);
                },
                Err(e) => {},
            }
            i = i + 1;
        }
        Err(WidgetNotFoundError)
    }
}

impl UiNode {
    /// Index of the first child at position `id`.
    fn child_index(&self, id: WidgetId) -> (r: Option<usize>)
        ensures
            r matches Some(k) ==> position_of(self.children@, id.0) == Some(k as int),
            r is None ==> position_of(self.children@, id.0) is None,
    {
        let mut k: usize = 0;
        while k < self.children.len()
            invariant
                k <= self.children@.len(),
                forall|j: int| 0 <= j < k ==> self.children@[j].0.0 != id.0,
            decreases self.children@.len() - k,
        {
            if self.children[k].0.0 == id.0 {
                proof {
                    lemma_position_of(self.children@, id.0);
                }
                return Some(k);
            }
            k = k + 1;
        }
        proof {
            lemma_position_of(self.children@, id.0);
        }
        None
    }

    /// The next free position of the node that the positions `path[from..]`
    /// lead to, or `None` where they lead nowhere.
    pub fn next_id_at_path(&self, path: &WidgetUid, from: usize) -> (r: Option<WidgetId>)
        requires
            from <= path@.len(),
        ensures
            match node_at(*self, path@.skip(from as int)) {
                Some(t) => r == Some(t.next_child_id),
                None => r is None,
            },
        decreases path@.len() - from,
    {
        let ghost rel = path@.skip(from as int);
        if from == path.0.len() {
            assert(rel.len() == 0);
            return Some(self.next_child_id);
        }
        assert(rel[0] == path.0@[from as int].0);
        assert(rel.drop_first() =~= path@.skip(from + 1));
        match self.child_index(path.0[from]) {
            Some(k) => {
                proof {
                    lemma_position_of(self.children@, rel[0]);
                }
                self.children[k].1.next_id_at_path(path, from + 1)
            },
            None => None,
        }
    }

    /// Appends `child` as the last child of the node that the positions
    /// `path[from..]` lead to, under that node's next free position, which is
    /// returned.
    pub fn append_at_path(&mut self, path: &WidgetUid, from: usize, child: UiNode) -> (r: WidgetId)
        requires
            from <= path@.len(),
            node_at(*old(self), path@.skip(from as int)) matches Some(t) && t.next_child_id.0
                < usize::MAX,
        ensures
            node_at(*old(self), path@.skip(from as int)) matches Some(t) && r == t.next_child_id,
            appended_at(*old(self), *final(self), path@.skip(from as int), child),
        decreases path@.len() - from,
    {
        let ghost rel = path@.skip(from as int);
        if from == path.0.len() {
            assert(rel.len() == 0);
            let id = self.next_child_id;
            self.next_child_id = WidgetId(id.0 + 1);
            self.children.push((id, child));
            return id;
        }
        assert(rel[0] == path.0@[from as int].0);
        assert(rel.drop_first() =~= path@.skip(from + 1));
        proof {
            lemma_position_of(self.children@, rel[0]);
        }
        let k = self.child_index(path.0[from]).unwrap();
        let ghost before = self.children@;
        let entry = &mut self.children[k];
        let r = entry.1.append_at_path(path, from + 1, child);
        assert(self.children@ == before.update(k as int, self.children@[k as int]));
        r
    }
}

impl WidgetUid {
    /// The path of the root.
    pub fn root() -> (r: WidgetUid)
        ensures
            r@ == Seq::<usize>::empty(),
    {
        WidgetUid(Vec::new())
    }

    /// A copy of this path.
    pub fn duplicate(&self) -> (r: WidgetUid)
        ensures
            r@ == self@,
    {
        let mut v: Vec<WidgetId> = Vec::new();
        let mut i: usize = 0;
        while i < self.0.len()
            invariant
                i <= self.0@.len(),
                v@.len() == i,
                forall|j: int| 0 <= j < i ==> v@[j] == self.0@[j],
            decreases self.0@.len() - i,
        {
            v.push(self.0[i]);
            i = i + 1;
        }
        let r = WidgetUid(v);
        assert(r@ =~= self@);
        r
    }

    /// This path extended by one child position.
    pub fn child(&self, id: WidgetId) -> (r: WidgetUid)
        ensures
            r@ == self@.push(id.0),
    {
        let mut r = self.duplicate();
        r.0.push(id);
        assert(r@ =~= self@.push(id.0));
        r
    }

    /// Whether two paths are equal.
    pub fn same(&self, other: &WidgetUid) -> (r: bool)
        ensures
            r == (self@ == other@),
    {
        if self.0.len() != other.0.len() {
            assert(self@.len() != other@.len());
            return false;
        }
        let mut i: usize = 0;
        while i < self.0.len()
            invariant
                i <= self.0@.len(),
                self.0@.len() == other.0@.len(),
                forall|j: int| 0 <= j < i ==> self.0@[j].0 == other.0@[j].0,
            decreases self.0@.len() - i,
        {
            if self.0[i].0 != other.0[i].0 {
                assert(self@[i as int] != other@[i as int]);
                return false;
            }
            i = i + 1;
        }
        assert(self@ =~= other@);
        true
    }
}

/// The path of the first node, depth-first and self before children, whose key
/// is `key`; `prefix` is the path of `n`.
pub open spec fn find_key(n: UiNode, key: Seq<char>, prefix: Seq<usize>) -> Option<Seq<usize>>
    decreases n, 1nat,
{
    if n.string_uid is Some && n.string_uid->0@ == key {
        Some(prefix)
    } else {
        find_in(n.children@, key, prefix)
    }
}

/// The first match of [`find_key`] among the subtrees `cs`, in order.
pub open spec fn find_in(cs: Seq<(WidgetId, UiNode)>, key: Seq<char>, prefix: Seq<usize>) -> Option<
    Seq<usize>,
>
    decreases cs, 0nat,
{
    if cs.len() == 0 {
        None
    } else {
        match find_key(cs[0].1, key, prefix.push(cs[0].0.0)) {
            Some(p) => Some(p),
            None => find_in(cs.drop_first(), key, prefix),
        }
    }
}

/// Index of the first child whose position is `id`.
pub open spec fn position_of(cs: Seq<(WidgetId, UiNode)>, id: usize) -> Option<int>
    decreases cs.len(),
{
    if cs.len() == 0 {
        None
    } else if cs[0].0.0 == id {
        Some(0)
    } else {
        match position_of(cs.drop_first(), id) {
            Some(k) => Some(k + 1),
            None => None,
        }
    }
}

pub proof fn lemma_position_of(cs: Seq<(WidgetId, UiNode)>, id: usize)
    ensures
        position_of(cs, id) matches Some(k) ==> 0 <= k < cs.len() && cs[k].0.0 == id && forall|
            j: int,
        | 0 <= j < k ==> cs[j].0.0 != id,
        position_of(cs, id) is None ==> forall|j: int| 0 <= j < cs.len() ==> cs[j].0.0 != id,
    decreases cs.len(),
{
    if cs.len() > 0 {
        lemma_position_of(cs.drop_first(), id);
        if cs[0].0.0 != id {
            assert forall|j: int| 1 <= j < cs.len() implies cs[j] == cs.drop_first()[j - 1] by {}
        }
    }
}

/// The node reached from `n` by following the child positions of `path`.
pub open spec fn node_at(n: UiNode, path: Seq<usize>) -> Option<UiNode>
    decreases n,
{
    if path.len() == 0 {
        Some(n)
    } else {
        match position_of(n.children@, path[0]) {
            Some(k) => {
                proof {
                    lemma_position_of(n.children@, path[0]);
                }
                node_at(n.children@[k].1, path.drop_first())
            },
            None => None,
        }
    }
}

/// `m` is `n` with `child` appended as the last child of the node at `path`,
/// under the next free position of that node.
pub open spec fn appended_at(n: UiNode, m: UiNode, path: Seq<usize>, child: UiNode) -> bool
    decreases n,
{
    &&& m.widget == n.widget
    &&& m.string_uid == n.string_uid
    &&& if path.len() == 0 {
        &&& m.children@ == n.children@.push((n.next_child_id, child))
        &&& m.next_child_id.0 == n.next_child_id.0 + 1
    } else {
        match position_of(n.children@, path[0]) {
            Some(k) => {
                proof {
                    lemma_position_of(n.children@, path[0]);
                }
                &&& m.next_child_id == n.next_child_id
                &&& m.children@.len() == n.children@.len()
                &&& forall|j: int|
                    0 <= j < n.children@.len() && j != k ==> m.children@[j] == n.children@[j]
                &&& m.children@[k].0 == n.children@[k].0
                &&& appended_at(n.children@[k].1, m.children@[k].1, path.drop_first(), child)
            },
            None => false,
        }
    }
}

} // verus!
