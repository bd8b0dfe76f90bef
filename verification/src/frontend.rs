//! What the frontend holds and what a patch does to it.
//!
//! The frontend keeps a DOM tree and walks it with a cursor while it applies
//! the items of a patch: moves shift the cursor, edits change the node under
//! the cursor (or, for `AppendSibling` and `TruncateSiblings`, its parent).
//! An element's attributes and javascript event handlers form maps, as they
//! do in a browser's DOM: setting a key twice keeps the last value.
//!
//! The central laws of the library stand at the end of this module: applying
//! the patch computed by the diff to what the frontend shows for the old
//! render makes it show the new render, its DOM (`lemma_patch_syncs_dom`) and
//! its blobs (`lemma_patch_syncs_blobs`).
use crate::blob::{opt_view, Blob, BlobView};
use crate::diff::{
    add_or_replace_ops, added_blob_ops, append_ops, attr_ops, blob_hash, blob_ops, distinct_keys,
    events_equal, has_blob, keys_distinct, keys_distinct_all, last_value, lemma_added_blobs_plain,
    lemma_removed_blobs_plain, remove_ops, removed_blob_ops, DiffState, Differ,
};
use crate::render::{
    bounded, component_dom, component_index, lemma_bounded_all, listed_from, unique_blobs,
    unique_components, RenderResult, RenderedComponent,
};
use crate::vdom::{is_move_op, strip_trailing_moves, Attr, EventHandler, PatchOp, VNode};
use std::sync::Arc;
use vstd::prelude::*;

verus! {

/// An element as the frontend holds it.
pub struct FElement {
    pub tag: Seq<char>,
    pub namespace: Option<Seq<char>>,
    pub attrs: Map<Seq<char>, Seq<char>>,
    pub js_events: Map<Seq<char>, Seq<char>>,
    pub events: Seq<(Seq<char>, bool, bool)>,
    pub children: Seq<FNode>,
}

/// A node as the frontend holds it.
pub enum FNode {
    Element(FElement),
    Text(Seq<char>),
}

/// The key/value map a list of attributes sets: a later value of a key
/// overrides an earlier one.
pub open spec fn attr_map(attrs: Seq<Attr>) -> Map<Seq<char>, Seq<char>>
    decreases attrs.len(),
{
    if attrs.len() == 0 {
        Map::empty()
    } else {
        attr_map(attrs.drop_last()).insert(attrs.last().key@, attrs.last().value@)
    }
}

/// An event handler by its name and flags.
pub open spec fn event_view(h: EventHandler) -> (Seq<char>, bool, bool) {
    (h.name@, h.no_propagate, h.prevent_default)
}

/// The node the frontend shows for a node of the virtual DOM whose
/// placeholders stand for the DOMs of `comps`; `fuel` bounds how deep
/// placeholders are resolved.
pub open spec fn expand(n: VNode, comps: Seq<Arc<RenderedComponent>>, fuel: nat) -> FNode
    decreases fuel, n,
{
    match n {
        VNode::Element(e) => FNode::Element(
            FElement {
                tag: e.tag@,
                namespace: opt_view(e.namespace),
                attrs: attr_map(e.attr@),
                js_events: attr_map(e.js_events@),
                events: e.events@.map_values(|h: EventHandler| event_view(h)),
                children: expand_all(e.children@, comps, fuel),
            },
        ),
        VNode::Text(t) => FNode::Text(t@),
        VNode::Placeholder(id) => match component_dom(comps, id@) {
            Some(d) => if fuel > 0 {
                expand(d, comps, (fuel - 1) as nat)
            } else {
                FNode::Text(Seq::empty())
            },
            None => FNode::Text(Seq::empty()),
        },
    }
}

/// The nodes the frontend shows for nodes of the virtual DOM.
pub open spec fn expand_all(ns: Seq<VNode>, comps: Seq<Arc<RenderedComponent>>, fuel: nat) -> Seq<FNode>
    decreases fuel, ns,
{
    if ns.len() == 0 {
        Seq::empty()
    } else {
        seq![expand(ns[0], comps, fuel)] + expand_all(ns.drop_first(), comps, fuel)
    }
}

/// The node the frontend shows for a node of a render result whose
/// components are `comps`: every placeholder resolved.
pub open spec fn full(n: VNode, comps: Seq<Arc<RenderedComponent>>) -> FNode {
    expand(n, comps, comps.len())
}

/// The nodes the frontend shows for nodes of a render result whose
/// components are `comps`.
pub open spec fn full_all(ns: Seq<VNode>, comps: Seq<Arc<RenderedComponent>>) -> Seq<FNode> {
    expand_all(ns, comps, comps.len())
}

/// The frontend's DOM and its cursor: the path of child indices from the root.
pub struct FState {
    pub root: FNode,
    pub at: Seq<int>,
    /// The components of the render the patch was made for: the nodes a
    /// patch carries are shown with their placeholders resolved in these.
    pub components: Seq<Arc<RenderedComponent>>,
}

/// The node at the given path, if the path leads to one.
pub open spec fn node_at(n: FNode, path: Seq<int>) -> Option<FNode>
    decreases path.len(),
{
    if path.len() == 0 {
        Some(n)
    } else {
        match n {
            FNode::Element(e) => if 0 <= path[0] < e.children.len() {
                node_at(e.children[path[0]], path.drop_first())
            } else {
                None
            },
            FNode::Text(_) => None,
        }
    }
}

/// The tree with the node at the given path replaced; unchanged if the path
/// leads to no node.
pub open spec fn replace_at(n: FNode, path: Seq<int>, x: FNode) -> FNode
    decreases path.len(),
{
    if path.len() == 0 {
        x
    } else {
        match n {
            FNode::Element(e) => if 0 <= path[0] < e.children.len() {
                FNode::Element(
                    FElement {
                        children: e.children.update(
                            path[0],
                            replace_at(e.children[path[0]], path.drop_first(), x),
                        ),
                        ..e
                    },
                )
            } else {
                n
            },
            FNode::Text(_) => n,
        }
    }
}

/// The state with the node under the cursor replaced.
pub open spec fn put(s: FState, x: FNode) -> FState {
    FState { root: replace_at(s.root, s.at, x), ..s }
}

/// The state with the node at `path` replaced, the cursor left alone.
pub open spec fn put_at(s: FState, path: Seq<int>, x: FNode) -> FState {
    FState { root: replace_at(s.root, path, x), ..s }
}

/// An element whose key/value map (`js` selects the javascript event handlers
/// over the attributes) is edited by a patch item; `None` for other items.
pub open spec fn kv_edit(e: FElement, op: PatchOp) -> Option<FElement> {
    match op {
        PatchOp::RemoveAttribute(k) => Some(FElement { attrs: e.attrs.remove(k), ..e }),
        PatchOp::AddAttribute(k, v) => Some(FElement { attrs: e.attrs.insert(k, v), ..e }),
        PatchOp::ReplaceAttribute(k, v) => Some(FElement { attrs: e.attrs.insert(k, v), ..e }),
        PatchOp::RemoveJsEvent(k) => Some(FElement { js_events: e.js_events.remove(k), ..e }),
        PatchOp::AddJsEvent(k, v) => Some(FElement { js_events: e.js_events.insert(k, v), ..e }),
        PatchOp::ReplaceJsEvent(k, v) => Some(
            FElement { js_events: e.js_events.insert(k, v), ..e },
        ),
        _ => None,
    }
}

/// What one patch item does to the frontend; `None` when the item does not
/// fit the DOM (an edit where the cursor leads to no suitable node, or a move
/// out of the root).
pub open spec fn apply_op(op: PatchOp, s: FState) -> Option<FState> {
    match op {
        PatchOp::Replace(v) => if node_at(s.root, s.at) is Some {
            Some(put(s, full(v, s.components)))
        } else {
            None
        },
        PatchOp::ChangeText(t) => if node_at(s.root, s.at) matches Some(FNode::Text(_)) {
            Some(put(s, FNode::Text(t)))
        } else {
            None
        },
        PatchOp::Descend => Some(FState { at: s.at.push(0), ..s }),
        PatchOp::Ascend => if s.at.len() > 0 {
            Some(FState { at: s.at.drop_last(), ..s })
        } else {
            None
        },
        PatchOp::NextNode => if s.at.len() > 0 {
            Some(FState { at: s.at.drop_last().push(s.at.last() + 1), ..s })
        } else {
            None
        },
        PatchOp::RemoveChildren => match node_at(s.root, s.at) {
            Some(FNode::Element(e)) => Some(
                put(s, FNode::Element(FElement { children: Seq::empty(), ..e })),
            ),
            _ => None,
        },
        PatchOp::TruncateSiblings => if s.at.len() > 0 {
            match node_at(s.root, s.at.drop_last()) {
                Some(FNode::Element(p)) => if 0 <= s.at.last() < p.children.len() {
                    Some(
                        put_at(
                            s,
                            s.at.drop_last(),
                            FNode::Element(
                                FElement { children: p.children.take(s.at.last() + 1), ..p },
                            ),
                        ),
                    )
                } else {
                    None
                },
                _ => None,
            }
        } else {
            None
        },
        PatchOp::AppendSibling(v) => if s.at.len() > 0 {
            match node_at(s.root, s.at.drop_last()) {
                Some(FNode::Element(p)) => Some(
                    put_at(
                        s,
                        s.at.drop_last(),
                        FNode::Element(
                            FElement { children: p.children.push(full(v, s.components)), ..p },
                        ),
                    ),
                ),
                _ => None,
            }
        } else {
            None
        },
        PatchOp::AddBlob(_) => Some(s),
        PatchOp::RemoveBlob(_) => Some(s),
        _ => match node_at(s.root, s.at) {
            Some(FNode::Element(e)) => match kv_edit(e, op) {
                Some(e2) => Some(put(s, FNode::Element(e2))),
                None => None,
            },
            _ => None,
        },
    }
}

/// What a sequence of patch items does to the frontend, one after the other.
pub open spec fn apply_ops(ops: Seq<PatchOp>, s: FState) -> Option<FState>
    decreases ops.len(),
{
    if ops.len() == 0 {
        Some(s)
    } else {
        match apply_op(ops[0], s) {
            Some(s1) => apply_ops(ops.drop_first(), s1),
            None => None,
        }
    }
}

/// Applying two sequences one after the other.
pub proof fn lemma_apply_concat(a: Seq<PatchOp>, b: Seq<PatchOp>, s: FState)
    ensures
        apply_ops(a + b, s) == (match apply_ops(a, s) {
            Some(s1) => apply_ops(b, s1),
            None => None,
        }),
    decreases a.len(),
{
    if a.len() > 0 {
        assert((a + b).drop_first() =~= a.drop_first() + b);
        match apply_op(a[0], s) {
            Some(s1) => lemma_apply_concat(a.drop_first(), b, s1),
            None => {},
        }
    } else {
        assert(a + b =~= b);
    }
}

/// Applying a single item.
pub proof fn lemma_apply_one(op: PatchOp, s: FState)
    ensures
        apply_ops(seq![op], s) == apply_op(op, s),
{
    reveal_with_fuel(apply_ops, 2);
    assert(seq![op].drop_first() =~= Seq::<PatchOp>::empty());
}

/// The node at a child path.
pub proof fn lemma_node_at_child(n: FNode, path: Seq<int>, i: int)
    ensures
        node_at(n, path.push(i)) == (match node_at(n, path) {
            Some(FNode::Element(e)) => if 0 <= i < e.children.len() {
                Some(e.children[i])
            } else {
                None
            },
            _ => None,
        }),
    decreases path.len(),
{
    if path.len() == 0 {
        reveal_with_fuel(node_at, 2);
        assert(seq![i].drop_first() =~= Seq::<int>::empty());
        assert(path.push(i) =~= seq![i]);
    } else {
        assert(path.push(i).drop_first() =~= path.drop_first().push(i));
        match n {
            FNode::Element(e) => if 0 <= path[0] < e.children.len() {
                lemma_node_at_child(e.children[path[0]], path.drop_first(), i);
            },
            FNode::Text(_) => {},
        }
    }
}

/// Replacing at a child path replaces the child in its parent.
pub proof fn lemma_replace_at_child(n: FNode, path: Seq<int>, i: int, x: FNode)
    requires
        node_at(n, path) matches Some(FNode::Element(e)) && 0 <= i < e.children.len(),
    ensures
        node_at(n, path) matches Some(FNode::Element(e)) && replace_at(n, path.push(i), x)
            == replace_at(
            n,
            path,
            FNode::Element(FElement { children: e.children.update(i, x), ..e }),
        ),
    decreases path.len(),
{
    if path.len() == 0 {
        reveal_with_fuel(replace_at, 2);
        assert(seq![i].drop_first() =~= Seq::<int>::empty());
        assert(path.push(i) =~= seq![i]);
    } else {
        assert(path.push(i).drop_first() =~= path.drop_first().push(i));
        match n {
            FNode::Element(e) => {
                lemma_replace_at_child(e.children[path[0]], path.drop_first(), i, x);
            },
            FNode::Text(_) => {},
        }
    }
}

/// After a replacement, the path leads to the new node.
pub proof fn lemma_node_at_replace(n: FNode, path: Seq<int>, x: FNode)
    requires
        node_at(n, path) is Some,
    ensures
        node_at(replace_at(n, path, x), path) == Some(x),
    decreases path.len(),
{
    if path.len() > 0 {
        match n {
            FNode::Element(e) => {
                lemma_node_at_replace(e.children[path[0]], path.drop_first(), x);
            },
            FNode::Text(_) => {},
        }
    }
}

/// The second of two replacements at the same path wins.
pub proof fn lemma_replace_twice(n: FNode, path: Seq<int>, x: FNode, y: FNode)
    ensures
        replace_at(replace_at(n, path, x), path, y) == replace_at(n, path, y),
    decreases path.len(),
{
    if path.len() > 0 {
        match n {
            FNode::Element(e) => if 0 <= path[0] < e.children.len() {
                lemma_replace_twice(e.children[path[0]], path.drop_first(), x, y);
                let c1 = e.children.update(
                    path[0],
                    replace_at(e.children[path[0]], path.drop_first(), x),
                );
                assert(c1.update(
                    path[0],
                    replace_at(c1[path[0]], path.drop_first(), y),
                ) =~= e.children.update(
                    path[0],
                    replace_at(e.children[path[0]], path.drop_first(), y),
                ));
            },
            FNode::Text(_) => {},
        }
    }
}

/// Replacing a node by itself changes nothing.
pub proof fn lemma_replace_same(n: FNode, path: Seq<int>)
    requires
        node_at(n, path) is Some,
    ensures
        replace_at(n, path, node_at(n, path).unwrap()) == n,
    decreases path.len(),
{
    if path.len() > 0 {
        match n {
            FNode::Element(e) => {
                lemma_replace_same(e.children[path[0]], path.drop_first());
                assert(e.children.update(
                    path[0],
                    replace_at(e.children[path[0]], path.drop_first(), node_at(n, path).unwrap()),
                ) =~= e.children);
            },
            FNode::Text(_) => {},
        }
    }
}


/// The key/value map of an element: its javascript event handlers when `js`,
/// else its attributes.
pub open spec fn get_kv(e: FElement, js: bool) -> Map<Seq<char>, Seq<char>> {
    if js {
        e.js_events
    } else {
        e.attrs
    }
}

/// The element with its key/value map (selected by `js`) set to `m`.
pub open spec fn set_kv(e: FElement, js: bool, m: Map<Seq<char>, Seq<char>>) -> FElement {
    if js {
        FElement { js_events: m, ..e }
    } else {
        FElement { attrs: m, ..e }
    }
}

/// The element after a sequence of key/value edits, if every item is one.
pub open spec fn kv_fold(ops: Seq<PatchOp>, e: FElement) -> Option<FElement>
    decreases ops.len(),
{
    if ops.len() == 0 {
        Some(e)
    } else {
        match kv_edit(e, ops[0]) {
            Some(e1) => kv_fold(ops.drop_first(), e1),
            None => None,
        }
    }
}

/// The map of a list of attributes holds, for each key, the last value of
/// that key in the list.
pub proof fn lemma_attr_map_last(attrs: Seq<Attr>, k: Seq<char>)
    ensures
        attr_map(attrs).dom().contains(k) <==> last_value(attrs, k) is Some,
        last_value(attrs, k) matches Some(v) ==> attr_map(attrs)[k] == v,
    decreases attrs.len(),
{
    if attrs.len() > 0 {
        lemma_attr_map_last(attrs.drop_last(), k);
    }
}

/// A key has a last value only if some attribute carries it.
proof fn lemma_last_value_some(attrs: Seq<Attr>, k: Seq<char>)
    requires
        last_value(attrs, k) is Some,
    ensures
        exists|i: int| 0 <= i < attrs.len() && (#[trigger] attrs[i]).key@ == k,
    decreases attrs.len(),
{
    if attrs.last().key@ == k {
        assert(attrs[attrs.len() - 1].key@ == k);
    } else {
        lemma_last_value_some(attrs.drop_last(), k);
        let i = choose|i: int| 0 <= i < attrs.drop_last().len() && (#[trigger] attrs.drop_last()[i]).key@ == k;
        assert(attrs[i] == attrs.drop_last()[i]);
    }
}

/// Editing with one more item.
proof fn lemma_kv_fold_push(ops: Seq<PatchOp>, op: PatchOp, e: FElement)
    ensures
        kv_fold(ops.push(op), e) == (match kv_fold(ops, e) {
            Some(e1) => kv_edit(e1, op),
            None => None,
        }),
    decreases ops.len(),
{
    if ops.len() == 0 {
        reveal_with_fuel(kv_fold, 2);
        assert(ops.push(op) =~= seq![op]);
        assert(seq![op].drop_first() =~= Seq::<PatchOp>::empty());
    } else {
        assert(ops.push(op).drop_first() =~= ops.drop_first().push(op));
        match kv_edit(e, ops[0]) {
            Some(e1) => lemma_kv_fold_push(ops.drop_first(), op, e1),
            None => {},
        }
    }
}

/// Key/value edits applied at the cursor edit the element under it.
pub proof fn lemma_apply_kv(ops: Seq<PatchOp>, s: FState, e: FElement)
    requires
        node_at(s.root, s.at) == Some(FNode::Element(e)),
        kv_fold(ops, e) is Some,
    ensures
        apply_ops(ops, s) == Some(put(s, FNode::Element(kv_fold(ops, e).unwrap()))),
    decreases ops.len(),
{
    if ops.len() == 0 {
        lemma_replace_same(s.root, s.at);
    } else {
        let e1 = kv_edit(e, ops[0]).unwrap();
        let s1 = put(s, FNode::Element(e1));
        assert(apply_op(ops[0], s) == Some(s1));
        lemma_node_at_replace(s.root, s.at, FNode::Element(e1));
        lemma_apply_kv(ops.drop_first(), s1, e1);
        lemma_replace_twice(s.root, s.at, FNode::Element(e1), FNode::Element(kv_fold(ops, e).unwrap()));
    }
}

/// The additions and replacements of the diff turn the map of the old
/// attributes into its union with the map of the new ones.
proof fn lemma_add_or_replace_fold(old: Seq<Attr>, new: Seq<Attr>, js: bool, e: FElement)
    requires
        get_kv(e, js) == attr_map(old),
        distinct_keys(new),
    ensures
        kv_fold(add_or_replace_ops(old, new, js), e) == Some(
            set_kv(e, js, attr_map(old).union_prefer_right(attr_map(new))),
        ),
    decreases new.len(),
{
    if new.len() == 0 {
        assert(attr_map(old).union_prefer_right(attr_map(new)) =~= attr_map(old));
        assert(set_kv(e, js, attr_map(old)) == e);
    } else {
        let rest = new.drop_last();
        let x = new.last();
        assert(distinct_keys(rest)) by {
            assert forall|i: int, j: int|
                0 <= i < rest.len() && 0 <= j < rest.len() && i != j implies (#[trigger] rest[i]).key@
                != (#[trigger] rest[j]).key@ by {
                assert(rest[i] == new[i] && rest[j] == new[j]);
            }
        }
        lemma_add_or_replace_fold(old, rest, js, e);
        let m1 = attr_map(old).union_prefer_right(attr_map(rest));
        let ops1 = add_or_replace_ops(old, rest, js);
        lemma_attr_map_last(old, x.key@);
        lemma_attr_map_last(rest, x.key@);
        if last_value(rest, x.key@) is Some {
            lemma_last_value_some(rest, x.key@);
            let i = choose|i: int| 0 <= i < rest.len() && (#[trigger] rest[i]).key@ == x.key@;
            assert(new[i].key@ == new[new.len() - 1].key@);
        }
        assert(!attr_map(rest).dom().contains(x.key@));
        match last_value(old, x.key@) {
            Some(v) => if v != x.value@ {
                lemma_kv_fold_push(ops1, replace_op_of(js, x), e);
                assert(m1.insert(x.key@, x.value@) =~= attr_map(old).union_prefer_right(attr_map(new)));
            } else {
                assert(m1 =~= attr_map(old).union_prefer_right(attr_map(new)));
            },
            None => {
                lemma_kv_fold_push(ops1, add_op_of(js, x), e);
                assert(m1.insert(x.key@, x.value@) =~= attr_map(old).union_prefer_right(attr_map(new)));
            },
        }
    }
}

/// The item the diff emits to replace an attribute's value.
spec fn replace_op_of(js: bool, x: Attr) -> PatchOp {
    crate::diff::replace_op(js, x.key@, x.value@)
}

/// The item the diff emits to add an attribute.
spec fn add_op_of(js: bool, x: Attr) -> PatchOp {
    crate::diff::add_op(js, x.key@, x.value@)
}

/// The keys of the old attributes that the new ones lack.
pub open spec fn dropped_keys(old: Seq<Attr>, new: Seq<Attr>) -> Set<Seq<char>> {
    Set::new(|k: Seq<char>| attr_map(old).dom().contains(k) && !attr_map(new).dom().contains(k))
}

/// The removals of the diff drop the keys the new attributes lack.
proof fn lemma_remove_fold(old: Seq<Attr>, new: Seq<Attr>, js: bool, e: FElement)
    ensures
        kv_fold(remove_ops(old, new, js), e) == Some(
            set_kv(e, js, get_kv(e, js).remove_keys(dropped_keys(old, new))),
        ),
    decreases old.len(),
{
    if old.len() == 0 {
        assert(get_kv(e, js).remove_keys(dropped_keys(old, new)) =~= get_kv(e, js));
        assert(set_kv(e, js, get_kv(e, js)) == e);
    } else {
        let rest = old.drop_last();
        let x = old.last();
        lemma_remove_fold(rest, new, js, e);
        let ops1 = remove_ops(rest, new, js);
        let m1 = get_kv(e, js).remove_keys(dropped_keys(rest, new));
        lemma_attr_map_last(new, x.key@);
        assert forall|k: Seq<char>| #[trigger] attr_map(old).dom().contains(k) <==> (attr_map(
            rest,
        ).dom().contains(k) || k == x.key@) by {
        }
        if last_value(new, x.key@) is None {
            lemma_kv_fold_push(ops1, crate::diff::remove_op(js, x.key@), e);
            assert(m1.remove(x.key@) =~= get_kv(e, js).remove_keys(dropped_keys(old, new)));
        } else {
            assert(m1 =~= get_kv(e, js).remove_keys(dropped_keys(old, new)));
        }
    }
}

/// The attribute items of the diff turn the map of the old attributes into
/// the map of the new ones, when no key occurs twice among the new ones.
pub proof fn lemma_attr_ops_fold(old: Seq<Attr>, new: Seq<Attr>, js: bool, e: FElement)
    requires
        get_kv(e, js) == attr_map(old),
        distinct_keys(new),
    ensures
        kv_fold(attr_ops(old, new, js), e) == Some(set_kv(e, js, attr_map(new))),
{
    let a = add_or_replace_ops(old, new, js);
    let r = remove_ops(old, new, js);
    lemma_add_or_replace_fold(old, new, js, e);
    let e1 = set_kv(e, js, attr_map(old).union_prefer_right(attr_map(new)));
    lemma_remove_fold(old, new, js, e1);
    lemma_kv_fold_concat(a, r, e);
    assert(attr_map(old).union_prefer_right(attr_map(new)).remove_keys(dropped_keys(old, new))
        =~= attr_map(new));
    assert(set_kv(e1, js, attr_map(new)) == set_kv(e, js, attr_map(new)));
}

/// Editing with two sequences one after the other.
proof fn lemma_kv_fold_concat(a: Seq<PatchOp>, b: Seq<PatchOp>, e: FElement)
    ensures
        kv_fold(a + b, e) == (match kv_fold(a, e) {
            Some(e1) => kv_fold(b, e1),
            None => None,
        }),
    decreases a.len(),
{
    if a.len() > 0 {
        assert((a + b).drop_first() =~= a.drop_first() + b);
        match kv_edit(e, a[0]) {
            Some(e1) => lemma_kv_fold_concat(a.drop_first(), b, e1),
            None => {},
        }
    } else {
        assert(a + b =~= b);
    }
}


/// The shown nodes, one for each node.
pub proof fn lemma_expand_all(ns: Seq<VNode>, comps: Seq<Arc<RenderedComponent>>, fuel: nat)
    ensures
        expand_all(ns, comps, fuel).len() == ns.len(),
        forall|i: int|
            0 <= i < ns.len() ==> #[trigger] expand_all(ns, comps, fuel)[i] == expand(
                ns[i],
                comps,
                fuel,
            ),
    decreases ns.len(),
{
    if ns.len() > 0 {
        lemma_expand_all(ns.drop_first(), comps, fuel);
        assert forall|i: int| 0 <= i < ns.len() implies #[trigger] expand_all(ns, comps, fuel)[i]
            == expand(ns[i], comps, fuel) by {
            if i > 0 {
                assert(ns[i] == ns.drop_first()[i - 1]);
            }
        }
    }
}

/// `keys_distinct_all` holds of each node of the list.
pub proof fn lemma_all_each(ns: Seq<VNode>)
    ensures
        keys_distinct_all(ns) ==> forall|i: int| 0 <= i < ns.len() ==> #[trigger] keys_distinct(ns[i]),
    decreases ns.len(),
{
    if ns.len() > 0 {
        lemma_all_each(ns.drop_first());
        assert forall|i: int| 0 < i < ns.len() implies ns[i] == ns.drop_first()[i - 1] by {}
    }
}

/// The components hold no two ids alike, and the DOM of each one only holds
/// placeholders of components listed after it.
pub open spec fn comps_wf(comps: Seq<Arc<RenderedComponent>>) -> bool {
    &&& unique_components(comps)
    &&& forall|i: int|
        0 <= i < comps.len() ==> bounded(comps, (#[trigger] comps[i]).vdom, i + 1)
}

/// A placeholder bounded below `lo` resolves to a component listed at `lo` or later.
pub proof fn lemma_placeholder_index(comps: Seq<Arc<RenderedComponent>>, id: u64, lo: int)
    requires
        comps_wf(comps),
        0 <= lo,
        listed_from(comps, id, lo),
    ensures
        component_index(comps, id) matches Some(k) && lo <= k < comps.len() && comps[k].id@ == id
            && component_dom(comps, id) == Some(comps[k].vdom),
{
    let j = choose|j: int| lo <= j < comps.len() && (#[trigger] comps[j]).id@ == id;
    assert(listed_from(comps, id, 0)) by {
        assert(0 <= j < comps.len() && comps[j].id@ == id);
    }
    let k = choose|k: int| 0 <= k < comps.len() && (#[trigger] comps[k]).id@ == id;
    assert(k == j);
}

/// With enough fuel, how much does not matter.
pub proof fn lemma_expand_fuel(n: VNode, comps: Seq<Arc<RenderedComponent>>, lo: int, f1: nat, f2: nat)
    requires
        comps_wf(comps),
        0 <= lo,
        bounded(comps, n, lo),
        f1 >= comps.len() - lo,
        f2 >= comps.len() - lo,
    ensures
        expand(n, comps, f1) == expand(n, comps, f2),
    decreases f1, n, 1nat,
{
    match n {
        VNode::Element(e) => {
            lemma_bounded_all(comps, e.children@, lo);
            lemma_expand_all_fuel(e.children@, comps, lo, f1, f2);
        },
        VNode::Text(_) => {},
        VNode::Placeholder(id) => {
            lemma_placeholder_index(comps, id@, lo);
            let k = component_index(comps, id@).unwrap();
            assert(bounded(comps, comps[k].vdom, k + 1));
            lemma_expand_fuel(
                component_dom(comps, id@).unwrap(),
                comps,
                k + 1,
                (f1 - 1) as nat,
                (f2 - 1) as nat,
            );
        },
    }
}

/// With enough fuel, how much does not matter, for a list of nodes.
pub proof fn lemma_expand_all_fuel(
    ns: Seq<VNode>,
    comps: Seq<Arc<RenderedComponent>>,
    lo: int,
    f1: nat,
    f2: nat,
)
    requires
        comps_wf(comps),
        0 <= lo,
        forall|i: int| 0 <= i < ns.len() ==> #[trigger] bounded(comps, ns[i], lo),
        f1 >= comps.len() - lo,
        f2 >= comps.len() - lo,
    ensures
        expand_all(ns, comps, f1) == expand_all(ns, comps, f2),
    decreases f1, ns, 0nat,
{
    if ns.len() > 0 {
        assert(bounded(comps, ns[0], lo));
        lemma_expand_fuel(ns[0], comps, lo, f1, f2);
        assert forall|i: int| 0 <= i < ns.drop_first().len() implies #[trigger] bounded(
            comps,
            ns.drop_first()[i],
            lo,
        ) by {
            assert(ns.drop_first()[i] == ns[i + 1]);
        }
        lemma_expand_all_fuel(ns.drop_first(), comps, lo, f1, f2);
    }
}

/// A placeholder shows as the DOM of its component.
pub proof fn lemma_full_placeholder(id: crate::Id, comps: Seq<Arc<RenderedComponent>>, lo: int)
    requires
        comps_wf(comps),
        0 <= lo,
        listed_from(comps, id@, lo),
    ensures
        component_index(comps, id@) matches Some(k) && lo <= k < comps.len() && component_dom(
            comps,
            id@,
        ) == Some(comps[k].vdom) && bounded(comps, comps[k].vdom, k + 1) && full(
            VNode::Placeholder(id),
            comps,
        ) == full(comps[k].vdom, comps),
{
    lemma_placeholder_index(comps, id@, lo);
    let k = component_index(comps, id@).unwrap();
    assert(bounded(comps, comps[k].vdom, k + 1));
    lemma_expand_fuel(
        component_dom(comps, id@).unwrap(),
        comps,
        k + 1,
        (comps.len() - 1) as nat,
        comps.len(),
    );
}

/// A bounded node shows the same with any fuel that suffices.
pub proof fn lemma_full_any_fuel(n: VNode, comps: Seq<Arc<RenderedComponent>>, lo: int, f: nat)
    requires
        comps_wf(comps),
        0 <= lo,
        bounded(comps, n, lo),
        f >= comps.len() - lo,
    ensures
        expand(n, comps, f) == full(n, comps),
{
    lemma_expand_fuel(n, comps, lo, f, comps.len());
}

/// Equal handlers show equal.
proof fn lemma_events_equal(a: Seq<EventHandler>, b: Seq<EventHandler>)
    requires
        events_equal(a, b),
    ensures
        a.map_values(|h: EventHandler| event_view(h)) == b.map_values(|h: EventHandler| event_view(h)),
{
    assert(a.map_values(|h: EventHandler| event_view(h)) =~= b.map_values(
        |h: EventHandler| event_view(h),
    ));
}

/// A prefix extended by what follows it.
proof fn lemma_prefix_split<T>(a: Seq<T>, b: Seq<T>)
    requires
        a.is_prefix_of(b),
    ensures
        b == a + b.skip(a.len() as int),
{
    assert(b =~= a + b.skip(a.len() as int));
}

/// Moves change the cursor only.
proof fn lemma_apply_moves(ms: Seq<PatchOp>, s: FState)
    requires
        forall|i: int| 0 <= i < ms.len() ==> is_move_op(#[trigger] ms[i]),
    ensures
        apply_ops(ms, s) matches Some(s2) ==> s2.root == s.root,
    decreases ms.len(),
{
    if ms.len() > 0 {
        assert(is_move_op(ms[0]));
        match apply_op(ms[0], s) {
            Some(s1) => {
                assert forall|i: int| 0 <= i < ms.drop_first().len() implies is_move_op(
                    #[trigger] ms.drop_first()[i],
                ) by {
                    assert(ms.drop_first()[i] == ms[i + 1]);
                }
                lemma_apply_moves(ms.drop_first(), s1);
            },
            None => {},
        }
    }
}

/// Blob items leave the DOM and the cursor alone.
proof fn lemma_apply_blob_ops(ops: Seq<PatchOp>, s: FState)
    requires
        forall|i: int| 0 <= i < ops.len() ==> (#[trigger] ops[i] is AddBlob || ops[i] is RemoveBlob),
    ensures
        apply_ops(ops, s) == Some(s),
    decreases ops.len(),
{
    if ops.len() > 0 {
        assert(ops[0] is AddBlob || ops[0] is RemoveBlob);
        assert forall|i: int| 0 <= i < ops.drop_first().len() implies (#[trigger] ops.drop_first()[i] is AddBlob
            || ops.drop_first()[i] is RemoveBlob) by {
            assert(ops.drop_first()[i] == ops[i + 1]);
        }
        lemma_apply_blob_ops(ops.drop_first(), s);
    }
}

/// Appending nodes after the cursor's siblings.
proof fn lemma_apply_appends(xs: Seq<VNode>, s: FState, p: Seq<int>, e: FElement)
    requires
        s.at.len() > 0,
        s.at.drop_last() == p,
        node_at(s.root, p) == Some(FNode::Element(e)),
    ensures
        apply_ops(append_ops(xs), s) == Some(
            FState {
                root: replace_at(
                    s.root,
                    p,
                    FNode::Element(
                        FElement { children: e.children + full_all(xs, s.components), ..e },
                    ),
                ),
                ..s
            },
        ),
    decreases xs.len(),
{
    if xs.len() == 0 {
        assert(append_ops(xs) =~= Seq::<PatchOp>::empty());
        assert(e.children + full_all(xs, s.components) =~= e.children);
        lemma_replace_same(s.root, p);
    } else {
        let ops = append_ops(xs);
        assert(ops[0] == PatchOp::AppendSibling(xs[0]));
        assert(ops.drop_first() =~= append_ops(xs.drop_first()));
        let e1 = FElement { children: e.children.push(full(xs[0], s.components)), ..e };
        let s1 = put_at(s, p, FNode::Element(e1));
        assert(apply_op(ops[0], s) == Some(s1));
        lemma_node_at_replace(s.root, p, FNode::Element(e1));
        lemma_apply_appends(xs.drop_first(), s1, p, e1);
        assert(e1.children + full_all(xs.drop_first(), s.components) =~= e.children + full_all(
            xs,
            s.components,
        ));
        lemma_replace_twice(
            s.root,
            p,
            FNode::Element(e1),
            FNode::Element(FElement { children: e.children + full_all(xs, s.components), ..e }),
        );
    }
}


/// The smaller of two lengths.
pub open spec fn min_len(a: nat, b: nat) -> nat {
    if a < b {
        a
    } else {
        b
    }
}

/// The cursor on the `k`-th child of `p` after `k` common children were
/// diffed (on the first child before any was).
pub open spec fn child_cursor(p: Seq<int>, k: int) -> Seq<int> {
    p.push(if k == 0 {
        0
    } else {
        k - 1
    })
}

impl<'a> Differ<'a> {
    /// Every DOM of a new component has distinct keys.
    pub open spec fn new_keys_distinct(&self) -> bool {
        forall|i: int|
            0 <= i < self.new.components@.len() ==> keys_distinct(
                (#[trigger] self.new.components@[i]).vdom,
            )
    }

    /// What the diff needs of the two render results for the frontend to stay in sync.
    pub open spec fn sync_ready(&self) -> bool {
        &&& comps_wf(self.old.rendered.components@)
        &&& comps_wf(self.new.components@)
        &&& self.new_keys_distinct()
    }

    /// The items the diff appends for two nodes, applied with the cursor on
    /// the frontend's node for the old one, turn it into the node for the new
    /// one and leave the cursor where it was. When no change is reported, the
    /// two nodes show the same.
    pub proof fn lemma_sync_node(
        &self,
        old: VNode,
        new: VNode,
        fuel: nat,
        st: DiffState,
        s: FState,
        lo_old: int,
        lo_new: int,
    )
        requires
            self.sync_ready(),
            0 <= lo_old,
            0 <= lo_new,
            bounded(self.old.rendered.components@, old, lo_old),
            bounded(self.new.components@, new, lo_new),
            fuel >= self.old.rendered.components@.len() - lo_old + 1,
            keys_distinct(new),
            s.components == self.new.components@,
            node_at(s.root, s.at) == Some(full(old, self.old.rendered.components@)),
        ensures
            ({
                let (st2, r) = self.spec_node(old, new, fuel, st);
                &&& apply_ops(st2.items.skip(st.items.len() as int), s) == Some(
                    put(s, full(new, self.new.components@)),
                )
                &&& !r ==> full(old, self.old.rendered.components@) == full(
                    new,
                    self.new.components@,
                )
            }),
        decreases fuel, old, 2nat,
    {
        let oc = self.old.rendered.components@;
        let nc = self.new.components@;
        let (st2, r) = self.spec_node(old, new, fuel, st);
        self.lemma_node_frame(old, new, fuel, st);
        match (old, new) {
            (VNode::Element(eo), VNode::Element(en)) => {
                if eo.tag@ != en.tag@ || opt_view(eo.namespace) != opt_view(en.namespace)
                    || !events_equal(eo.events@, en.events@) {
                    assert(st2.items.skip(st.items.len() as int) =~= seq![PatchOp::Replace(new)]);
                    lemma_apply_one(PatchOp::Replace(new), s);
                } else {
                    let a = attr_ops(eo.attr@, en.attr@, false);
                    let j = attr_ops(eo.js_events@, en.js_events@, true);
                    let st1 = DiffState { items: st.items + a + j, trans: st.trans };
                    let (st3, rc) = self.spec_children(eo.children@, en.children@, fuel, st1);
                    self.lemma_children_frame(eo.children@, en.children@, fuel, st1);
                    lemma_prefix_split(st1.items, st3.items);
                    let dc = st3.items.skip(st1.items.len() as int);
                    assert(st2.items.skip(st.items.len() as int) =~= (a + j) + dc);
                    let e0 = match full(old, oc) {
                        FNode::Element(x) => x,
                        FNode::Text(_) => arbitrary(),
                    };
                    lemma_attr_ops_fold(eo.attr@, en.attr@, false, e0);
                    let e1 = set_kv(e0, false, attr_map(en.attr@));
                    lemma_attr_ops_fold(eo.js_events@, en.js_events@, true, e1);
                    let e2 = set_kv(e1, true, attr_map(en.js_events@));
                    lemma_kv_fold_concat(a, j, e0);
                    lemma_apply_kv(a + j, s, e0);
                    let s2 = put(s, FNode::Element(e2));
                    lemma_node_at_replace(s.root, s.at, FNode::Element(e2));
                    lemma_bounded_all(oc, eo.children@, lo_old);
                    lemma_bounded_all(nc, en.children@, lo_new);
                    self.lemma_sync_children(
                        eo.children@,
                        en.children@,
                        fuel,
                        st1,
                        s2,
                        e2,
                        lo_old,
                        lo_new,
                    );
                    lemma_apply_concat(a + j, dc, s);
                    let x = FNode::Element(FElement { children: full_all(en.children@, nc), ..e2 });
                    lemma_replace_twice(s.root, s.at, FNode::Element(e2), x);
                    lemma_events_equal(eo.events@, en.events@);
                    assert(x == full(new, nc));
                    if !r {
                        assert(a.len() == 0 && j.len() == 0);
                        assert(a =~= Seq::<PatchOp>::empty());
                        assert(j =~= Seq::<PatchOp>::empty());
                    }
                }
            },
            (VNode::Text(ta), VNode::Text(tb)) => {
                if ta@ != tb@ {
                    assert(st2.items.skip(st.items.len() as int) =~= seq![PatchOp::ChangeText(tb@)]);
                    lemma_apply_one(PatchOp::ChangeText(tb@), s);
                } else {
                    assert(st2.items.skip(st.items.len() as int) =~= Seq::<PatchOp>::empty());
                    lemma_replace_same(s.root, s.at);
                }
            },
            (VNode::Placeholder(io), VNode::Placeholder(inew)) => {
                lemma_full_placeholder(inew, nc, lo_new);
                let kn = component_index(nc, inew@).unwrap();
                let nd = nc[kn].vdom;
                if io@ == inew@ {
                    lemma_full_placeholder(io, oc, lo_old);
                    let ko = component_index(oc, io@).unwrap();
                    let od = oc[ko].vdom;
                    assert(keys_distinct(nd));
                    self.lemma_sync_node(od, nd, (fuel - 1) as nat, st, s, ko + 1, kn + 1);
                } else {
                    assert(st2.items.skip(st.items.len() as int) =~= seq![PatchOp::Replace(nd)]);
                    lemma_apply_one(PatchOp::Replace(nd), s);
                }
            },
            _ => {
                assert(st2.items.skip(st.items.len() as int) =~= seq![PatchOp::Replace(new)]);
                lemma_apply_one(PatchOp::Replace(new), s);
            },
        }
    }

    /// The items the diff appends for two lists of children, applied with the
    /// cursor on the frontend's element whose children show the old list,
    /// turn its children into those of the new list.
    pub proof fn lemma_sync_children(
        &self,
        old: Seq<VNode>,
        new: Seq<VNode>,
        fuel: nat,
        st: DiffState,
        s: FState,
        e: FElement,
        lo_old: int,
        lo_new: int,
    )
        requires
            self.sync_ready(),
            0 <= lo_old,
            0 <= lo_new,
            forall|i: int|
                0 <= i < old.len() ==> #[trigger] bounded(
                    self.old.rendered.components@,
                    old[i],
                    lo_old,
                ),
            forall|i: int| 0 <= i < new.len() ==> #[trigger] bounded(self.new.components@, new[i], lo_new),
            fuel >= self.old.rendered.components@.len() - lo_old + 1,
            keys_distinct_all(new),
            s.components == self.new.components@,
            node_at(s.root, s.at) == Some(FNode::Element(e)),
            e.children == full_all(old, self.old.rendered.components@),
        ensures
            ({
                let (st2, r) = self.spec_children(old, new, fuel, st);
                &&& apply_ops(st2.items.skip(st.items.len() as int), s) == Some(
                    put(
                        s,
                        FNode::Element(
                            FElement { children: full_all(new, self.new.components@), ..e },
                        ),
                    ),
                )
                &&& !r ==> full_all(old, self.old.rendered.components@) == full_all(
                    new,
                    self.new.components@,
                )
            }),
        decreases fuel, old, 1nat,
    {
        let oc = self.old.rendered.components@;
        let nc = self.new.components@;
        let (st2, r) = self.spec_children(old, new, fuel, st);
        self.lemma_children_frame(old, new, fuel, st);
        lemma_expand_all(old, oc, oc.len());
        lemma_expand_all(new, nc, nc.len());
        if old.len() == 0 && new.len() == 0 {
            assert(st2.items.skip(st.items.len() as int) =~= Seq::<PatchOp>::empty());
            assert(full_all(new, nc) =~= full_all(old, oc));
            assert(FElement { children: full_all(new, nc), ..e } == e);
            lemma_replace_same(s.root, s.at);
        } else if old.len() > 0 && new.len() == 0 {
            assert(st2.items.skip(st.items.len() as int) =~= seq![PatchOp::RemoveChildren]);
            lemma_apply_one(PatchOp::RemoveChildren, s);
            assert(full_all(new, nc) =~= Seq::<FNode>::empty());
        } else {
            let p = s.at;
            let st1 = push_op_of(st, PatchOp::Descend);
            let (st3, rc) = self.spec_common(old, new, true, fuel, st1, false);
            self.lemma_common_frame(old, new, true, fuel, st1, false);
            lemma_prefix_split(st1.items, st3.items);
            let dc = st3.items.skip(st1.items.len() as int);
            let s1 = FState { at: p.push(0), ..s };
            assert(old.skip(0) =~= old);
            assert(new.skip(0) =~= new);
            assert(new.take(0) =~= Seq::<VNode>::empty());
            assert(full_all(new.take(0), nc) + full_all(old.skip(0), oc) =~= e.children);
            assert(child_cursor(p, 0) == p.push(0));
            self.lemma_sync_common(
                old,
                new,
                0,
                old,
                new,
                true,
                fuel,
                st1,
                false,
                s1,
                p,
                e,
                lo_old,
                lo_new,
            );
            let m = min_len(old.len(), new.len());
            let c = full_all(new.take(m as int), nc) + full_all(old.skip(m as int), oc);
            lemma_expand_all(new.take(m as int), nc, nc.len());
            lemma_expand_all(old.skip(m as int), oc, oc.len());
            let s3 = FState {
                root: replace_at(s.root, p, FNode::Element(FElement { children: c, ..e })),
                at: child_cursor(p, m as int),
                ..s
            };
            lemma_apply_one(PatchOp::Descend, s);
            lemma_apply_concat(seq![PatchOp::Descend], dc, s);
            assert(apply_ops(seq![PatchOp::Descend] + dc, s) == Some(s3));
            lemma_node_at_replace(s.root, p, FNode::Element(FElement { children: c, ..e }));
            let final_node = FNode::Element(FElement { children: full_all(new, nc), ..e });
            if r {
                let ec = FElement { children: c, ..e };
                let tail = if old.len() > new.len() {
                    seq![PatchOp::TruncateSiblings]
                } else if new.len() > old.len() {
                    append_ops(new.skip(old.len() as int))
                } else {
                    Seq::<PatchOp>::empty()
                };
                assert(st2.items.skip(st.items.len() as int) =~= seq![PatchOp::Descend] + dc + tail
                    + seq![PatchOp::Ascend]);
                let s4 = FState { root: replace_at(s.root, p, final_node), ..s3 };
                assert(s3.at.drop_last() =~= p);
                if old.len() > new.len() {
                    assert(s3.at.last() == m - 1);
                    assert(c.take(m as int) =~= full_all(new, nc)) by {
                        assert(new.take(m as int) =~= new);
                    }
                    lemma_apply_one(PatchOp::TruncateSiblings, s3);
                    lemma_replace_twice(
                        s.root,
                        p,
                        FNode::Element(ec),
                        FNode::Element(FElement { children: c.take(m as int), ..e }),
                    );
                    assert(apply_ops(tail, s3) == Some(s4));
                } else if new.len() > old.len() {
                    lemma_apply_appends(new.skip(old.len() as int), s3, p, ec);
                    lemma_expand_all(new.skip(old.len() as int), nc, nc.len());
                    assert(c + full_all(new.skip(old.len() as int), nc) =~= full_all(new, nc));
                    lemma_replace_twice(s.root, p, FNode::Element(ec), final_node);
                    assert(apply_ops(tail, s3) == Some(s4));
                } else {
                    assert(c =~= full_all(new, nc)) by {
                        assert(new.take(m as int) =~= new);
                    }
                    assert(apply_ops(tail, s3) == Some(s4));
                }
                lemma_apply_one(PatchOp::Ascend, s4);
                assert(s4.at.drop_last() =~= p);
                lemma_apply_concat(seq![PatchOp::Descend] + dc, tail, s);
                lemma_apply_concat(seq![PatchOp::Descend] + dc + tail, seq![PatchOp::Ascend], s);
            } else {
                assert(old.len() == new.len() && !rc);
                assert(st2.items.skip(st.items.len() as int) =~= Seq::<PatchOp>::empty());
                assert(old.take(m as int) =~= old);
                assert(new.take(m as int) =~= new);
                assert(FElement { children: full_all(new, nc), ..e } == e);
                lemma_replace_same(s.root, s.at);
            }
        }
    }

    /// The items the diff appends for the common children from index `j` on,
    /// applied with the cursor on the `j`-th child of the element at `p`,
    /// turn the common children into those of the new list.
    #[verifier::rlimit(40)]
    pub proof fn lemma_sync_common(
        &self,
        old_all: Seq<VNode>,
        new_all: Seq<VNode>,
        j: int,
        old: Seq<VNode>,
        new: Seq<VNode>,
        first: bool,
        fuel: nat,
        st: DiffState,
        acc: bool,
        s: FState,
        p: Seq<int>,
        e: FElement,
        lo_old: int,
        lo_new: int,
    )
        requires
            self.sync_ready(),
            0 <= lo_old,
            0 <= lo_new,
            0 <= j <= old_all.len(),
            j <= new_all.len(),
            old == old_all.skip(j),
            new == new_all.skip(j),
            first <==> j == 0,
            forall|i: int|
                0 <= i < old_all.len() ==> #[trigger] bounded(
                    self.old.rendered.components@,
                    old_all[i],
                    lo_old,
                ),
            forall|i: int|
                0 <= i < new_all.len() ==> #[trigger] bounded(
                    self.new.components@,
                    new_all[i],
                    lo_new,
                ),
            fuel >= self.old.rendered.components@.len() - lo_old + 1,
            keys_distinct_all(new_all),
            s.components == self.new.components@,
            node_at(s.root, p) == Some(FNode::Element(e)),
            e.children == full_all(new_all.take(j), self.new.components@) + full_all(
                old_all.skip(j),
                self.old.rendered.components@,
            ),
            s.at == child_cursor(p, j),
        ensures
            ({
                let (st2, r) = self.spec_common(old, new, first, fuel, st, acc);
                let m = min_len(old.len(), new.len());
                let k = j + m;
                &&& apply_ops(st2.items.skip(st.items.len() as int), s) == Some(
                    FState {
                        root: replace_at(
                            s.root,
                            p,
                            FNode::Element(
                                FElement {
                                    children: full_all(new_all.take(k), self.new.components@)
                                        + full_all(old_all.skip(k), self.old.rendered.components@),
                                    ..e
                                },
                            ),
                        ),
                        at: child_cursor(p, k),
                        ..s
                    },
                )
                &&& !r ==> !acc && full_all(old.take(m as int), self.old.rendered.components@)
                    == full_all(new.take(m as int), self.new.components@)
            }),
        decreases fuel, old, 0nat,
    {
        let oc = self.old.rendered.components@;
        let nc = self.new.components@;
        let (st2, r) = self.spec_common(old, new, first, fuel, st, acc);
        self.lemma_common_frame(old, new, first, fuel, st, acc);
        if old.len() == 0 || new.len() == 0 {
            assert(st2.items.skip(st.items.len() as int) =~= Seq::<PatchOp>::empty());
            assert(FElement {
                children: full_all(new_all.take(j), nc) + full_all(old_all.skip(j), oc),
                ..e
            } == e);
            lemma_replace_same(s.root, p);
            assert(old.take(0) =~= Seq::<VNode>::empty());
            assert(new.take(0) =~= Seq::<VNode>::empty());
        } else {
            let st1 = if first {
                st
            } else {
                push_op_of(st, PatchOp::NextNode)
            };
            let pre = if first {
                Seq::<PatchOp>::empty()
            } else {
                seq![PatchOp::NextNode]
            };
            let sj = FState { at: p.push(j), ..s };
            if first {
                assert(apply_ops(pre, s) == Some(sj));
            } else {
                lemma_apply_one(PatchOp::NextNode, s);
                assert(s.at.drop_last() =~= p);
                assert(s.at.drop_last().push(s.at.last() + 1) =~= p.push(j));
                assert(apply_ops(pre, s) == Some(sj));
            }
            lemma_expand_all(new_all.take(j), nc, nc.len());
            lemma_expand_all(old_all.skip(j), oc, oc.len());
            lemma_node_at_child(s.root, p, j);
            assert(old[0] == old_all[j]);
            assert(new[0] == new_all[j]);
            assert(e.children[j] == full(old[0], oc)) by {
                assert(old_all.skip(j)[0] == old[0]);
                assert(e.children[j] == full_all(old_all.skip(j), oc)[0]);
            }
            lemma_all_each(new_all);
            assert(bounded(oc, old_all[j], lo_old));
            assert(bounded(nc, new_all[j], lo_new));
            let (st3, r0) = self.spec_node(old[0], new[0], fuel, st1);
            self.lemma_node_frame(old[0], new[0], fuel, st1);
            self.lemma_sync_node(old[0], new[0], fuel, st1, sj, lo_old, lo_new);
            lemma_prefix_split(st1.items, st3.items);
            let dn = st3.items.skip(st1.items.len() as int);
            let e1 = FElement { children: e.children.update(j, full(new[0], nc)), ..e };
            lemma_replace_at_child(s.root, p, j, full(new[0], nc));
            let s3 = FState { root: replace_at(s.root, p, FNode::Element(e1)), at: p.push(j), ..s };
            assert(put(sj, full(new[0], nc)) == s3);
            lemma_node_at_replace(s.root, p, FNode::Element(e1));
            lemma_expand_all(new_all.take(j + 1), nc, nc.len());
            lemma_expand_all(old_all.skip(j + 1), oc, oc.len());
            assert(e1.children =~= full_all(new_all.take(j + 1), nc) + full_all(
                old_all.skip(j + 1),
                oc,
            ));
            assert(old.drop_first() =~= old_all.skip(j + 1));
            assert(new.drop_first() =~= new_all.skip(j + 1));
            assert(child_cursor(p, j + 1) == p.push(j));
            self.lemma_sync_common(
                old_all,
                new_all,
                j + 1,
                old.drop_first(),
                new.drop_first(),
                false,
                fuel,
                st3,
                acc || r0,
                s3,
                p,
                e1,
                lo_old,
                lo_new,
            );
            let (st4, r4) = self.spec_common(
                old.drop_first(),
                new.drop_first(),
                false,
                fuel,
                st3,
                acc || r0,
            );
            self.lemma_common_frame(old.drop_first(), new.drop_first(), false, fuel, st3, acc || r0);
            lemma_prefix_split(st3.items, st4.items);
            let dr = st4.items.skip(st3.items.len() as int);
            assert(st2.items.skip(st.items.len() as int) =~= pre + dn + dr);
            lemma_apply_concat(pre, dn, s);
            lemma_apply_concat(pre + dn, dr, s);
            let m = min_len(old.len(), new.len());
            let k = j + m;
            assert(min_len(old.drop_first().len(), new.drop_first().len()) == m - 1);
            let fin = FNode::Element(
                FElement {
                    children: full_all(new_all.take(k), nc) + full_all(old_all.skip(k), oc),
                    ..e
                },
            );
            assert(fin == FNode::Element(
                FElement {
                    children: full_all(new_all.take(k), nc) + full_all(old_all.skip(k), oc),
                    ..e1
                },
            ));
            lemma_replace_twice(s.root, p, FNode::Element(e1), fin);
            if !r {
                lemma_expand_all(old.take(m as int), oc, oc.len());
                lemma_expand_all(new.take(m as int), nc, nc.len());
                lemma_expand_all(old.drop_first().take(m - 1), oc, oc.len());
                lemma_expand_all(new.drop_first().take(m - 1), nc, nc.len());
                assert forall|i: int| 0 <= i < m implies full_all(old.take(m as int), oc)[i]
                    == full_all(new.take(m as int), nc)[i] by {
                    if i > 0 {
                        assert(old.take(m as int)[i] == old.drop_first().take(m - 1)[i - 1]);
                        assert(new.take(m as int)[i] == new.drop_first().take(m - 1)[i - 1]);
                        assert(full_all(old.drop_first().take(m - 1), oc)[i - 1] == full_all(
                            new.drop_first().take(m - 1),
                            nc,
                        )[i - 1]);
                    }
                }
                assert(full_all(old.take(m as int), oc) =~= full_all(new.take(m as int), nc));
            }
        }
    }
}

/// The state after one more item.
pub open spec fn push_op_of(st: DiffState, op: PatchOp) -> DiffState {
    DiffState { items: st.items.push(op), trans: st.trans }
}



/// The blobs the frontend holds, by id.
pub open spec fn blob_store(blobs: Seq<Blob>) -> Map<u64, BlobView>
    decreases blobs.len(),
{
    if blobs.len() == 0 {
        Map::empty()
    } else {
        blob_store(blobs.drop_last()).insert(blobs.last()@.id, blobs.last()@)
    }
}

/// What a patch item does to the blobs the frontend holds.
pub open spec fn apply_blob_op(op: PatchOp, m: Map<u64, BlobView>) -> Map<u64, BlobView> {
    match op {
        PatchOp::AddBlob(b) => m.insert(b.id, b),
        PatchOp::RemoveBlob(id) => m.remove(id),
        _ => m,
    }
}

/// What a sequence of patch items does to the blobs the frontend holds.
pub open spec fn apply_blob_ops(ops: Seq<PatchOp>, m: Map<u64, BlobView>) -> Map<u64, BlobView>
    decreases ops.len(),
{
    if ops.len() == 0 {
        m
    } else {
        apply_blob_op(ops.last(), apply_blob_ops(ops.drop_last(), m))
    }
}

/// Applying two sequences of items one after the other.
proof fn lemma_apply_blob_concat(a: Seq<PatchOp>, b: Seq<PatchOp>, m: Map<u64, BlobView>)
    ensures
        apply_blob_ops(a + b, m) == apply_blob_ops(b, apply_blob_ops(a, m)),
    decreases b.len(),
{
    if b.len() == 0 {
        assert(a + b =~= a);
    } else {
        assert((a + b).drop_last() =~= a + b.drop_last());
        lemma_apply_blob_concat(a, b.drop_last(), m);
    }
}

/// The ids of the old blobs that the new blobs lack.
pub open spec fn dropped_blobs(olds: Seq<Blob>, news: Seq<Blob>) -> Set<u64> {
    Set::new(|id: u64| has_blob(olds, id) && !has_blob(news, id))
}

/// The new blobs the frontend lacks, or holds with another hash, by id.
pub open spec fn changed_blobs(olds: Seq<Blob>, news: Seq<Blob>) -> Map<u64, BlobView> {
    Map::new(
        |id: u64| has_blob(news, id) && !(has_blob(olds, id) && blob_hash(olds, id) == blob_hash(news, id)),
        |id: u64| blob_store(news)[id],
    )
}

/// The store of a list of blobs with distinct ids maps each id to its blob.
pub proof fn lemma_blob_store(blobs: Seq<Blob>)
    requires
        unique_blobs(blobs),
    ensures
        forall|id: u64| #[trigger] blob_store(blobs).dom().contains(id) <==> has_blob(blobs, id),
        forall|j: int| 0 <= j < blobs.len() ==> blob_store(blobs)[(#[trigger] blobs[j])@.id] == blobs[j]@,
    decreases blobs.len(),
{
    if blobs.len() > 0 {
        let rest = blobs.drop_last();
        assert(unique_blobs(rest)) by {
            assert forall|i: int, j: int|
                0 <= i < rest.len() && 0 <= j < rest.len() && i != j implies (#[trigger] rest[i])@.id
                != (#[trigger] rest[j])@.id by {
                assert(rest[i] == blobs[i] && rest[j] == blobs[j]);
            }
        }
        lemma_blob_store(rest);
        assert forall|id: u64| #[trigger] blob_store(blobs).dom().contains(id) <==> has_blob(blobs, id) by {
            assert(blob_store(rest).dom().contains(id) <==> has_blob(rest, id));
            assert(blob_store(blobs) == blob_store(rest).insert(blobs.last()@.id, blobs.last()@));
            if id == blobs.last()@.id {
                assert(blobs[blobs.len() - 1]@.id == id);
            }
            if has_blob(rest, id) {
                let j = choose|j: int| 0 <= j < rest.len() && (#[trigger] rest[j])@.id == id;
                assert(blobs[j] == rest[j]);
            }
            if has_blob(blobs, id) {
                let j = choose|j: int| 0 <= j < blobs.len() && (#[trigger] blobs[j])@.id == id;
                if j < rest.len() {
                    assert(rest[j] == blobs[j]);
                }
            }
        }
        assert forall|j: int| 0 <= j < blobs.len() implies blob_store(blobs)[(#[trigger] blobs[j])@.id]
            == blobs[j]@ by {
            if j < rest.len() {
                assert(rest[j] == blobs[j]);
                assert(blobs[j]@.id != blobs[blobs.len() - 1]@.id);
            }
        }
    }
}

/// The removals of the diff drop the blobs the new render lacks.
proof fn lemma_removed_blobs_apply(olds: Seq<Blob>, news: Seq<Blob>, m: Map<u64, BlobView>)
    ensures
        apply_blob_ops(removed_blob_ops(olds, news), m) == m.remove_keys(dropped_blobs(olds, news)),
    decreases olds.len(),
{
    if olds.len() == 0 {
        assert(m.remove_keys(dropped_blobs(olds, news)) =~= m);
    } else {
        let rest = olds.drop_last();
        lemma_removed_blobs_apply(rest, news, m);
        assert forall|id: u64| #[trigger] has_blob(olds, id) <==> (has_blob(rest, id) || olds.last()@.id
            == id) by {
            if has_blob(rest, id) {
                let j = choose|j: int| 0 <= j < rest.len() && (#[trigger] rest[j])@.id == id;
                assert(olds[j] == rest[j]);
            }
            if has_blob(olds, id) {
                let j = choose|j: int| 0 <= j < olds.len() && (#[trigger] olds[j])@.id == id;
                if j < rest.len() {
                    assert(rest[j] == olds[j]);
                }
            }
            if olds.last()@.id == id {
                assert(olds[olds.len() - 1]@.id == id);
            }
        }
        if !has_blob(news, olds.last()@.id) {
            assert(removed_blob_ops(olds, news) == removed_blob_ops(rest, news).push(
                PatchOp::RemoveBlob(olds.last()@.id),
            ));
            assert(removed_blob_ops(olds, news).drop_last() == removed_blob_ops(rest, news));
            assert(m.remove_keys(dropped_blobs(rest, news)).remove(olds.last()@.id) =~= m.remove_keys(
                dropped_blobs(olds, news),
            ));
        } else {
            assert(m.remove_keys(dropped_blobs(rest, news)) =~= m.remove_keys(
                dropped_blobs(olds, news),
            ));
        }
    }
}

/// The additions of the diff send the new blobs the frontend lacks or holds
/// with another hash.
proof fn lemma_added_blobs_apply(olds: Seq<Blob>, news: Seq<Blob>, m: Map<u64, BlobView>)
    requires
        unique_blobs(news),
    ensures
        apply_blob_ops(added_blob_ops(olds, news), m) == m.union_prefer_right(
            changed_blobs(olds, news),
        ),
    decreases news.len(),
{
    lemma_blob_store(news);
    if news.len() == 0 {
        assert(m.union_prefer_right(changed_blobs(olds, news)) =~= m);
    } else {
        let rest = news.drop_last();
        let b = news.last()@;
        assert(unique_blobs(rest)) by {
            assert forall|i: int, j: int|
                0 <= i < rest.len() && 0 <= j < rest.len() && i != j implies (#[trigger] rest[i])@.id
                != (#[trigger] rest[j])@.id by {
                assert(rest[i] == news[i] && rest[j] == news[j]);
            }
        }
        lemma_added_blobs_apply(olds, rest, m);
        lemma_blob_store(rest);
        assert(news[news.len() - 1]@ == b);
        assert(blob_store(news)[b.id] == b);
        assert forall|id: u64| #[trigger] has_blob(news, id) <==> (has_blob(rest, id) || b.id == id) by {
            if has_blob(rest, id) {
                let j = choose|j: int| 0 <= j < rest.len() && (#[trigger] rest[j])@.id == id;
                assert(news[j] == rest[j]);
            }
            if has_blob(news, id) {
                let j = choose|j: int| 0 <= j < news.len() && (#[trigger] news[j])@.id == id;
                if j < rest.len() {
                    assert(rest[j] == news[j]);
                }
            }
        }
        assert(!has_blob(rest, b.id)) by {
            if has_blob(rest, b.id) {
                let j = choose|j: int| 0 <= j < rest.len() && (#[trigger] rest[j])@.id == b.id;
                assert(news[j] == rest[j]);
                assert(news[j]@.id != news[news.len() - 1]@.id);
            }
        }
        assert forall|id: u64| has_blob(rest, id) implies #[trigger] blob_store(rest)[id] == blob_store(
            news,
        )[id] && blob_hash(rest, id) == blob_hash(news, id) by {
            let j = choose|j: int| 0 <= j < rest.len() && (#[trigger] rest[j])@.id == id;
            assert(news[j] == rest[j]);
            let jr = choose|jr: int| 0 <= jr < rest.len() && (#[trigger] rest[jr])@.id == id;
            let jn = choose|jn: int| 0 <= jn < news.len() && (#[trigger] news[jn])@.id == id;
            assert(rest[jr] == news[jr]);
        }
        assert(blob_hash(news, b.id) == b.hash) by {
            let jn = choose|jn: int| 0 <= jn < news.len() && (#[trigger] news[jn])@.id == b.id;
            assert(news[news.len() - 1]@.id == b.id);
        }
        let prev = m.union_prefer_right(changed_blobs(olds, rest));
        if has_blob(olds, b.id) && blob_hash(olds, b.id) == b.hash {
            assert(prev =~= m.union_prefer_right(changed_blobs(olds, news)));
        } else {
            assert(added_blob_ops(olds, news) == added_blob_ops(olds, rest).push(PatchOp::AddBlob(b)));
            assert(added_blob_ops(olds, news).drop_last() == added_blob_ops(olds, rest));
            assert(prev.insert(b.id, b) =~= m.union_prefer_right(changed_blobs(olds, news)));
        }
    }
}

/// The blob the frontend holds under an id after a patch: the old one when
/// the old render held a blob of that id with the same hash, else the new one.
pub open spec fn synced_blob(olds: Seq<Blob>, news: Seq<Blob>, id: u64) -> BlobView {
    if has_blob(olds, id) && blob_hash(olds, id) == blob_hash(news, id) {
        blob_store(olds)[id]
    } else {
        blob_store(news)[id]
    }
}

/// Applying the blob items of a patch to the blobs the frontend holds for
/// the old render leaves it holding a blob for exactly the ids of the new
/// render, each with the hash of the new blob: the new blob itself, unless
/// the old render held a blob of that id and hash, which is kept.
pub proof fn lemma_patch_syncs_blobs(olds: Seq<Blob>, news: Seq<Blob>)
    requires
        unique_blobs(olds),
        unique_blobs(news),
    ensures
        ({
            let m = apply_blob_ops(blob_ops(olds, news), blob_store(olds));
            &&& forall|id: u64| #[trigger] m.dom().contains(id) <==> has_blob(news, id)
            &&& forall|id: u64| #[trigger] m.dom().contains(id) ==> m[id] == synced_blob(olds, news, id)
                && m[id].hash == blob_hash(news, id)
        }),
{
    let rb = removed_blob_ops(olds, news);
    let ab = added_blob_ops(olds, news);
    lemma_apply_blob_concat(rb, ab, blob_store(olds));
    lemma_removed_blobs_apply(olds, news, blob_store(olds));
    let m1 = blob_store(olds).remove_keys(dropped_blobs(olds, news));
    lemma_added_blobs_apply(olds, news, m1);
    lemma_blob_store(olds);
    lemma_blob_store(news);
    let m = apply_blob_ops(blob_ops(olds, news), blob_store(olds));
    assert(m == m1.union_prefer_right(changed_blobs(olds, news)));
    assert forall|id: u64| #[trigger] m.dom().contains(id) ==> m[id] == synced_blob(olds, news, id)
        && m[id].hash == blob_hash(news, id) by {
        if m.dom().contains(id) && has_blob(news, id) {
            let jn = choose|jn: int| 0 <= jn < news.len() && (#[trigger] news[jn])@.id == id;
            assert(blob_store(news)[id] == news[jn]@);
            if has_blob(olds, id) {
                let jo = choose|jo: int| 0 <= jo < olds.len() && (#[trigger] olds[jo])@.id == id;
                assert(blob_store(olds)[id] == olds[jo]@);
            }
        }
    }
}

/// The frontend before a patch: it shows `root`, its cursor is on the root,
/// and the patch was made for a render with the components `comps`.
pub open spec fn showing(root: FNode, comps: Seq<Arc<RenderedComponent>>) -> FState {
    FState { root, at: Seq::empty(), components: comps }
}

/// No element of a render result, the DOMs of its components included, holds
/// two attributes, or two javascript event handlers, with the same key.
pub open spec fn render_keys_distinct(r: RenderResult) -> bool {
    &&& keys_distinct(r.root_dom())
    &&& forall|i: int| 0 <= i < r.components@.len() ==> keys_distinct((#[trigger] r.components@[i]).vdom)
}

impl<'a> Differ<'a> {
    /// Applying the patch of the diff (see `Differ::diff`) to the DOM the
    /// frontend shows for the old render yields the DOM of the new render:
    /// the frontend's DOM stays in sync with the backend's. Placeholders stand
    /// for the DOMs of their components.
    ///
    /// This holds of well formed render results of which the new one holds no
    /// element with two attributes, or two javascript event handlers, with the
    /// same key.
    pub proof fn lemma_patch_syncs_dom(&self)
        requires
            self.wf(),
            render_keys_distinct(*self.new),
        ensures
            apply_ops(
                strip_trailing_moves(self.spec_tree().0.items) + blob_ops(
                    self.old.rendered.blobs@,
                    self.new.blobs@,
                ),
                showing(
                    full(self.old.rendered.root_dom(), self.old.rendered.components@),
                    self.new.components@,
                ),
            ) matches Some(s2) && s2.root == full(self.new.root_dom(), self.new.components@),
    {
        let st0 = DiffState { items: Seq::empty(), trans: Map::empty() };
        let s0 = showing(
            full(self.old.rendered.root_dom(), self.old.rendered.components@),
            self.new.components@,
        );
        self.lemma_sync_node(
            self.old.rendered.root_dom(),
            self.new.root_dom(),
            self.root_fuel(),
            st0,
            s0,
            0,
            0,
        );
        let t = self.spec_tree().0.items;
        assert(t.skip(0) =~= t);
        let stripped = strip_trailing_moves(t);
        crate::vdom::lemma_strip_trailing_moves(t);
        let rest = t.skip(stripped.len() as int);
        assert(t =~= stripped + rest);
        assert forall|i: int| 0 <= i < rest.len() implies is_move_op(#[trigger] rest[i]) by {
            assert(rest[i] == t[stripped.len() + i]);
        }
        lemma_apply_concat(stripped, rest, s0);
        let s1 = apply_ops(stripped, s0).unwrap();
        lemma_apply_moves(rest, s1);
        let b = blob_ops(self.old.rendered.blobs@, self.new.blobs@);
        lemma_removed_blobs_plain(self.old.rendered.blobs@, self.new.blobs@);
        lemma_added_blobs_plain(self.old.rendered.blobs@, self.new.blobs@);
        let rb = removed_blob_ops(self.old.rendered.blobs@, self.new.blobs@);
        let ab = added_blob_ops(self.old.rendered.blobs@, self.new.blobs@);
        assert forall|i: int| 0 <= i < b.len() implies (#[trigger] b[i] is AddBlob || b[i] is RemoveBlob) by {
            if i < rb.len() {
                assert(b[i] == rb[i]);
            } else {
                assert(b[i] == ab[i - rb.len()]);
            }
        }
        lemma_apply_blob_ops(b, s1);
        lemma_apply_concat(stripped, b, s0);
    }
}
} // verus!
