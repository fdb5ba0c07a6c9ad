//! Populating a widget tree from declarative items.
use vstd::prelude::*;
use crate::ast::{Decl, Ident, Value};
use crate::tree::{Widget, UiNode, WidgetId};
use crate::ui::Ui;

verus! {

/// Why a declarative item could not be turned into a widget.
#[derive(Debug, Clone, Copy, PartialEq, Eq, Structural)]
pub enum ConfigParseError {
    /// The tag names no kind of widget.
    UnknownTag,
    /// A container tag without a list of items, or a leaf tag without a string.
    WrongShape,
}

/// Tags of the container kinds, which take a list of items.
pub open spec fn is_container_tag(t: Seq<char>) -> bool {
    t == "horizontal"@ || t == "vertical"@
}

/// Tags of the leaf kinds, which take a string.
pub open spec fn is_leaf_tag(t: Seq<char>) -> bool {
    t == "label"@ || t == "button"@
}

/// The first fault of `d`, its own tag before what it contains.
pub open spec fn decl_error(d: Decl) -> Option<ConfigParseError>
    decreases d, 1nat,
{
    match d {
        Decl::BlockItem(tag, _, items) => {
            if is_container_tag(tag.0@) {
                items_error(items@)
            } else if is_leaf_tag(tag.0@) {
                Some(ConfigParseError::WrongShape)
            } else {
                Some(ConfigParseError::UnknownTag)
            }
        },
        Decl::SimpleItem(tag, _, v) => {
            if is_leaf_tag(tag.0@) {
                if v is String {
                    None
                } else {
                    Some(ConfigParseError::WrongShape)
                }
            } else if is_container_tag(tag.0@) {
                Some(ConfigParseError::WrongShape)
            } else {
                Some(ConfigParseError::UnknownTag)
            }
        },
    }
}

/// The first fault among `ds`, in order.
pub open spec fn items_error(ds: Seq<Decl>) -> Option<ConfigParseError>
    decreases ds, 0nat,
{
    if ds.len() == 0 {
        None
    } else {
        match decl_error(ds[0]) {
            Some(e) => Some(e),
            None => items_error(ds.drop_first()),
        }
    }
}

/// `n` is the node that the item `d` describes: its kind, text and key, and
/// for a block the nodes of its items at positions 0, 1, ...
pub open spec fn built_from(n: UiNode, d: Decl) -> bool
    decreases d, 1nat,
{
    match d {
        Decl::BlockItem(tag, key, items) => {
            &&& if tag.0@ == "horizontal"@ {
                n.widget is Horizontal
            } else {
                n.widget is Vertical
            }
            &&& n.string_uid == key
            &&& n.next_child_id.0 == items@.len()
            &&& built_children(n.children@, items@, 0)
        },
        Decl::SimpleItem(tag, key, v) => {
            &&& match v {
                Value::String(s) => if tag.0@ == "label"@ {
                    n.widget matches Widget::Label(t) && t@ == s@
                } else {
                    n.widget matches Widget::Button(t) && t@ == s@
                },
                _ => false,
            }
            &&& n.string_uid == key
            &&& n.next_child_id.0 == 0
            &&& n.children@.len() == 0
        },
    }
}

/// Each `cs[i]` sits at position `first + i` and is built from `ds[i]`.
pub open spec fn built_children(cs: Seq<(WidgetId, UiNode)>, ds: Seq<Decl>, first: int) -> bool
    decreases ds, 0nat,
{
    if ds.len() == 0 {
        cs.len() == 0
    } else {
        &&& cs.len() == ds.len()
        &&& built_children(cs.drop_last(), ds.drop_last(), first)
        &&& cs.last().0.0 == first + ds.len() - 1
        &&& built_from(cs.last().1, ds.last())
    }
}

proof fn lemma_items_error(ds: Seq<Decl>)
    ensures
        items_error(ds) is None <==> forall|i: int| 0 <= i < ds.len() ==> decl_error(#[trigger] ds[i]) is None,
    decreases ds.len(),
{
    if ds.len() > 0 {
        lemma_items_error(ds.drop_first());
        assert(forall|i: int| 1 <= i < ds.len() ==> ds[i] == ds.drop_first()[i - 1]);
        if decl_error(ds[0]) is None && items_error(ds.drop_first()) is None {
            assert forall|i: int| 0 <= i < ds.len() implies decl_error(#[trigger] ds[i]) is None by {
                if i > 0 {
                    assert(ds[i] == ds.drop_first()[i - 1]);
                }
            }
        }
        if forall|i: int| 0 <= i < ds.len() ==> decl_error(#[trigger] ds[i]) is None {
            assert forall|i: int| 0 <= i < ds.drop_first().len() implies decl_error(
                #[trigger] ds.drop_first()[i],
            ) is None by {
                assert(ds.drop_first()[i] == ds[i + 1]);
            }
        }
    }
}

fn tag_is(tag: &Ident, name: &str) -> (r: bool)
    ensures
        r == (tag.0@ == name@),
{
    let s = name.to_owned();
    tag.0 == s
}

/// Checks `d` and everything it contains, tag first.
pub fn validate_decl(d: &Decl) -> (r: Result<(), ConfigParseError>)
    ensures
        match decl_error(*d) {
            Some(e) => r == Err::<(), ConfigParseError>(e),
            None => r is Ok,
        },
    decreases *d, 1nat,
{
    match d {
        Decl::BlockItem(tag, _, items) => {
            if tag_is(tag, "horizontal") || tag_is(tag, "vertical") {
                validate_decls(items.as_slice())
            } else if tag_is(tag, "label") || tag_is(tag, "button") {
                Err(ConfigParseError::WrongShape)
            } else {
                Err(ConfigParseError::UnknownTag)
            }
        },
        Decl::SimpleItem(tag, _, v) => {
            if tag_is(tag, "label") || tag_is(tag, "button") {
                match v {
                    Value::String(_) => Ok(()),
                    _ => Err(ConfigParseError::WrongShape),
                }
            } else if tag_is(tag, "horizontal") || tag_is(tag, "vertical") {
                Err(ConfigParseError::WrongShape)
            } else {
                Err(ConfigParseError::UnknownTag)
            }
        },
    }
}

/// Checks the items `ds` in order and reports the first fault.
pub fn validate_decls(ds: &[Decl]) -> (r: Result<(), ConfigParseError>)
    ensures
        match items_error(ds@) {
            Some(e) => r == Err::<(), ConfigParseError>(e),
            None => r is Ok,
        },
    decreases ds@, 0nat,
{
    assert(ds@.skip(0) =~= ds@);
    let mut i: usize = 0;
    while i < ds.len()
        invariant
            i <= ds@.len(),
            items_error(ds@) == items_error(ds@.skip(i as int)),
        decreases ds@.len() - i,
    {
        assert(ds@.skip(i as int)[0] == ds@[i as int]);
        assert(ds@.skip(i as int).drop_first() =~= ds@.skip(i + 1));
        let r = validate_decl(&ds[i]);
        if r.is_err() {
            return r;
        }
        i = i + 1;
    }
    Ok(())
}

fn copy_key(key: &Option<String>) -> (r: Option<String>)
    ensures
        r == *key,
{
    match key {
        Some(s) => Some(s.clone()),
        None => None,
    }
}

/// Appends the node of the valid item `d` as the last child of `ui`'s root.
fn emit_valid_item(ui: &mut Ui, d: &Decl)
    requires
        decl_error(*d) is None,
        old(ui).node.next_child_id.0 < usize::MAX,
    ensures
        final(ui).context == old(ui).context,
        final(ui).node.widget == old(ui).node.widget,
        final(ui).node.string_uid == old(ui).node.string_uid,
        final(ui).node.children@.len() == old(ui).node.children@.len() + 1,
        final(ui).node.children@.drop_last() == old(ui).node.children@,
        final(ui).node.children@.last().0 == old(ui).node.next_child_id,
        built_from(final(ui).node.children@.last().1, *d),
        final(ui).node.next_child_id.0 == old(ui).node.next_child_id.0 + 1,
    decreases *d, 1nat,
{
    let item_id = ui.node.next_child_id;
    let mut node = match d {
        Decl::BlockItem(tag, _, items) => {
            let widget = if tag_is(tag, "horizontal") {
                Widget::Horizontal
            } else {
                Widget::Vertical
            };
            let mut sub = Ui::new(UiNode::new(widget), ui.context.nested(item_id));
            let list = items.as_slice();
            assert(list@ == items@);
            assert(list@.len() == list.len());
            emit_valid_items(&mut sub, list);
            assert(sub.node.children@.skip(0) == sub.node.children@);
            sub.node
        },
        Decl::SimpleItem(tag, _, v) => {
            let text = match v {
                Value::String(s) => s.clone(),
                _ => String::new(),
            };
            if tag_is(tag, "label") {
                UiNode::new(Widget::Label(text))
            } else {
                UiNode::new(Widget::Button(text))
            }
        },
    };
    node.string_uid = match d {
        Decl::BlockItem(_, key, _) => copy_key(key),
        Decl::SimpleItem(_, key, _) => copy_key(key),
    };
    ui.append(node);
    assert(ui.node.children@.drop_last() =~= old(ui).node.children@);
}

/// Appends the nodes of the valid items `ds`, in order, as the last children
/// of `ui`'s root.
fn emit_valid_items(ui: &mut Ui, ds: &[Decl])
    requires
        items_error(ds@) is None,
        old(ui).node.next_child_id.0 + ds@.len() <= usize::MAX,
    ensures
        final(ui).context == old(ui).context,
        final(ui).node.widget == old(ui).node.widget,
        final(ui).node.string_uid == old(ui).node.string_uid,
        final(ui).node.children@.take(old(ui).node.children@.len() as int) == old(ui).node.children@,
        built_children(
            final(ui).node.children@.skip(old(ui).node.children@.len() as int),
            ds@,
            old(ui).node.next_child_id.0 as int,
        ),
        final(ui).node.next_child_id.0 == old(ui).node.next_child_id.0 + ds@.len(),
    decreases ds@, 0nat,
{
    proof {
        lemma_items_error(ds@);
    }
    let ghost n0 = old(ui).node.children@.len() as int;
    let ghost first = old(ui).node.next_child_id.0 as int;
    assert(ui.node.children@.skip(n0).len() == 0);
    assert(ds@.take(0).len() == 0);
    let mut i: usize = 0;
    while i < ds.len()
        invariant
            i <= ds@.len(),
            forall|j: int| 0 <= j < ds@.len() ==> decl_error(#[trigger] ds@[j]) is None,
            old(ui).node.next_child_id.0 + ds@.len() <= usize::MAX,
            n0 == old(ui).node.children@.len(),
            first == old(ui).node.next_child_id.0,
            ui.context == old(ui).context,
            ui.node.widget == old(ui).node.widget,
            ui.node.string_uid == old(ui).node.string_uid,
            ui.node.children@.len() >= n0,
            ui.node.children@.take(n0) == old(ui).node.children@,
            built_children(ui.node.children@.skip(n0), ds@.take(i as int), first),
            ui.node.next_child_id.0 == first + i,
        decreases ds@.len() - i,
    {
        let ghost before = ui.node.children@;
        emit_valid_item(ui, &ds[i]);
        assert(ui.node.children@.take(n0) =~= before.take(n0));
        assert(ui.node.children@.skip(n0).drop_last() =~= before.skip(n0));
        assert(ds@.take(i + 1).drop_last() =~= ds@.take(i as int));
        assert(ds@.take(i + 1).last() == ds@[i as int]);
        i = i + 1;
    }
    assert(ds@.take(ds@.len() as int) =~= ds@);
}

/// Appends the node that the item `d` describes as the last child of `ui`'s
/// root. A faulty item, anywhere inside `d`, leaves `ui` as it was.
pub fn emit_gui_item(ui: &mut Ui, item: &Decl) -> (r: Result<(), ConfigParseError>)
    requires
        old(ui).node.next_child_id.0 < usize::MAX,
    ensures
        match decl_error(*item) {
            Some(e) => r == Err::<(), ConfigParseError>(e) && *final(ui) == *old(ui),
            None => {
                &&& r is Ok
                &&& final(ui).context == old(ui).context
                &&& final(ui).node.widget == old(ui).node.widget
                &&& final(ui).node.string_uid == old(ui).node.string_uid
                &&& final(ui).node.children@.len() == old(ui).node.children@.len() + 1
                &&& final(ui).node.children@.drop_last() == old(ui).node.children@
                &&& final(ui).node.children@.last().0 == old(ui).node.next_child_id
                &&& built_from(final(ui).node.children@.last().1, *item)
                &&& final(ui).node.next_child_id.0 == old(ui).node.next_child_id.0 + 1
            },
        },
{
    let r = validate_decl(item);
    if r.is_err() {
        return r;
    }
    emit_valid_item(ui, item);
    Ok(())
}

/// Appends the nodes that the items `ast` describe, in order, as the last
/// children of `ui`'s root, at the root's next free positions. A faulty item
/// leaves `ui` as it was: no partial tree is built.
pub fn emit_gui_items(ui: &mut Ui, ast: &[Decl]) -> (r: Result<(), ConfigParseError>)
    requires
        old(ui).node.next_child_id.0 + ast@.len() <= usize::MAX,
    ensures
        match items_error(ast@) {
            Some(e) => r == Err::<(), ConfigParseError>(e) && *final(ui) == *old(ui),
            None => {
                &&& r is Ok
                &&& final(ui).context == old(ui).context
                &&& final(ui).node.widget == old(ui).node.widget
                &&& final(ui).node.string_uid == old(ui).node.string_uid
                &&& final(ui).node.children@.take(old(ui).node.children@.len() as int)
                    == old(ui).node.children@
                &&& built_children(
                    final(ui).node.children@.skip(old(ui).node.children@.len() as int),
                    ast@,
                    old(ui).node.next_child_id.0 as int,
                )
                &&& final(ui).node.next_child_id.0 == old(ui).node.next_child_id.0 + ast@.len()
            },
        },
{
    let r = validate_decls(ast);
    if r.is_err() {
        return r;
    }
    emit_valid_items(ui, ast);
    Ok(())
}

} // verus!
