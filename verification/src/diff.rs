//! The DOM diffing algorithm.
//!
//! The algorithm is simple and runs in O(n): it recursively compares two DOM
//! nodes and diffs all child nodes in the order they are given. Neither
//! re-orderings nor insertions of nodes are detected: in these cases the DOM
//! is simply emitted again.
use crate::blob::{opt_view, Blob};
use crate::render::{
    bounded, component_dom, lemma_bounded_all, lemma_bounded_lower, listed_from, unique_blobs, unique_components, Frame, RenderResult,
    RenderedComponent,
};
use crate::vdom::{handler_eq, Attr, EventHandler, Patch, PatchItem, PatchOp, VElement, VNode};
use std::sync::Arc;
use vstd::prelude::*;

verus! {

broadcast use vstd::std_specs::hash::group_hash_axioms;

/// The state of a patch under construction, taken by its views.
pub struct DiffState {
    pub items: Seq<PatchOp>,
    pub trans: Map<u64, u64>,
}

/// Appends one item to the state.
pub open spec fn push_op(st: DiffState, op: PatchOp) -> DiffState {
    DiffState { items: st.items.push(op), trans: st.trans }
}

/// The value of the last attribute with the given key.
pub open spec fn last_value(attrs: Seq<Attr>, key: Seq<char>) -> Option<Seq<char>>
    decreases attrs.len(),
{
    if attrs.len() == 0 {
        None
    } else if attrs.last().key@ == key {
        Some(attrs.last().value@)
    } else {
        last_value(attrs.drop_last(), key)
    }
}

/// The item replacing an attribute (or a javascript event handler when `js`).
pub open spec fn replace_op(js: bool, key: Seq<char>, value: Seq<char>) -> PatchOp {
    if js {
        PatchOp::ReplaceJsEvent(key, value)
    } else {
        PatchOp::ReplaceAttribute(key, value)
    }
}

/// The item adding an attribute (or a javascript event handler when `js`).
pub open spec fn add_op(js: bool, key: Seq<char>, value: Seq<char>) -> PatchOp {
    if js {
        PatchOp::AddJsEvent(key, value)
    } else {
        PatchOp::AddAttribute(key, value)
    }
}

/// The item removing an attribute (or a javascript event handler when `js`).
pub open spec fn remove_op(js: bool, key: Seq<char>) -> PatchOp {
    if js {
        PatchOp::RemoveJsEvent(key)
    } else {
        PatchOp::RemoveAttribute(key)
    }
}

/// For each new attribute in order: a replacement when the old value of its key
/// differs, an addition when the old attributes lack its key.
pub open spec fn add_or_replace_ops(old: Seq<Attr>, new: Seq<Attr>, js: bool) -> Seq<PatchOp>
    decreases new.len(),
{
    if new.len() == 0 {
        Seq::empty()
    } else {
        let rest = add_or_replace_ops(old, new.drop_last(), js);
        let a = new.last();
        match last_value(old, a.key@) {
            Some(v) => if v != a.value@ {
                rest.push(replace_op(js, a.key@, a.value@))
            } else {
                rest
            },
            None => rest.push(add_op(js, a.key@, a.value@)),
        }
    }
}

/// For each old attribute in order whose key the new attributes lack: a removal.
pub open spec fn remove_ops(old: Seq<Attr>, new: Seq<Attr>, js: bool) -> Seq<PatchOp>
    decreases old.len(),
{
    if old.len() == 0 {
        Seq::empty()
    } else {
        let rest = remove_ops(old.drop_last(), new, js);
        let a = old.last();
        if last_value(new, a.key@) is None {
            rest.push(remove_op(js, a.key@))
        } else {
            rest
        }
    }
}

/// The items that update the attributes `old` to `new`.
pub open spec fn attr_ops(old: Seq<Attr>, new: Seq<Attr>, js: bool) -> Seq<PatchOp> {
    add_or_replace_ops(old, new, js) + remove_ops(old, new, js)
}

/// Two lists of event handlers are equal element-wise.
pub open spec fn events_equal(a: Seq<EventHandler>, b: Seq<EventHandler>) -> bool {
    a.len() == b.len() && forall|k: int| 0 <= k < a.len() ==> handler_eq(#[trigger] a[k], b[k])
}

/// One `AppendSibling` per node.
pub open spec fn append_ops(nodes: Seq<VNode>) -> Seq<PatchOp> {
    nodes.map_values(|n: VNode| PatchOp::AppendSibling(n))
}

/// `n` times `NextNode`.
pub open spec fn next_ops(n: nat) -> Seq<PatchOp> {
    Seq::new(n, |i: int| PatchOp::NextNode)
}

/// Compares a previously applied frame with a new render result.
pub struct Differ<'a> {
    pub old: &'a Frame,
    pub new: &'a RenderResult,
}

impl<'a> Differ<'a> {
    /// The id under which the frontend knows the old node with the given id.
    pub open spec fn very_old(&self, id: u64) -> u64 {
        self.old.spec_known_as(id)
    }

    /// The state after diffing `old` against `new`, starting from `st`, and
    /// whether a change was detected. `fuel` bounds the number of placeholders
    /// resolved along a path.
    pub open spec fn spec_node(&self, old: VNode, new: VNode, fuel: nat, st: DiffState) -> (
        DiffState,
        bool,
    )
        decreases fuel, old, 2nat,
    {
        match (old, new) {
            (VNode::Element(eo), VNode::Element(en)) => {
                if eo.tag@ != en.tag@ || opt_view(eo.namespace) != opt_view(en.namespace)
                    || !events_equal(eo.events@, en.events@) {
                    (push_op(st, PatchOp::Replace(new)), true)
                } else {
                    let a = attr_ops(eo.attr@, en.attr@, false);
                    let j = attr_ops(eo.js_events@, en.js_events@, true);
                    let st1 = DiffState { items: st.items + a + j, trans: st.trans };
                    let (st2, rc) = self.spec_children(eo.children@, en.children@, fuel, st1);
                    let trans = if eo.id@ != 0 {
                        st2.trans.insert(en.id@, self.very_old(eo.id@))
                    } else {
                        st2.trans
                    };
                    (DiffState { items: st2.items, trans }, a.len() > 0 || j.len() > 0 || rc)
                }
            },
            (VNode::Text(a), VNode::Text(b)) => {
                if a@ != b@ {
                    (push_op(st, PatchOp::ChangeText(b@)), true)
                } else {
                    (st, false)
                }
            },
            (VNode::Placeholder(io), VNode::Placeholder(inew)) => {
                let new_dom = component_dom(self.new.components@, inew@);
                if io@ == inew@ {
                    match (component_dom(self.old.rendered.components@, io@), new_dom) {
                        (Some(od), Some(nd)) => if fuel > 0 {
                            self.spec_node(od, nd, (fuel - 1) as nat, st)
                        } else {
                            (st, false)
                        },
                        _ => (st, false),
                    }
                } else {
                    match new_dom {
                        Some(nd) => (push_op(st, PatchOp::Replace(nd)), true),
                        None => (push_op(st, PatchOp::Replace(new)), true),
                    }
                }
            },
            _ => (push_op(st, PatchOp::Replace(new)), true),
        }
    }

    /// The state after diffing the children `old` against `new`.
    pub open spec fn spec_children(
        &self,
        old: Seq<VNode>,
        new: Seq<VNode>,
        fuel: nat,
        st: DiffState,
    ) -> (DiffState, bool)
        decreases fuel, old, 1nat,
    {
        if old.len() == 0 && new.len() == 0 {
            (st, false)
        } else if old.len() > 0 && new.len() == 0 {
            (push_op(st, PatchOp::RemoveChildren), true)
        } else {
            let st1 = push_op(st, PatchOp::Descend);
            let (st2, rc) = self.spec_common(old, new, true, fuel, st1, false);
            let (items3, r3) = if old.len() > new.len() {
                (st2.items.push(PatchOp::TruncateSiblings), true)
            } else if new.len() > old.len() {
                (st2.items + append_ops(new.skip(old.len() as int)), true)
            } else {
                (st2.items, rc)
            };
            if r3 {
                (DiffState { items: items3.push(PatchOp::Ascend), trans: st2.trans }, true)
            } else {
                (DiffState { items: st.items, trans: st2.trans }, false)
            }
        }
    }

    /// The state after diffing the children the two lists have in common, each
    /// one but the first preceded by a `NextNode`; `acc` accumulates whether a
    /// change was detected.
    pub open spec fn spec_common(
        &self,
        old: Seq<VNode>,
        new: Seq<VNode>,
        first: bool,
        fuel: nat,
        st: DiffState,
        acc: bool,
    ) -> (DiffState, bool)
        decreases fuel, old, 0nat,
    {
        if old.len() == 0 || new.len() == 0 {
            (st, acc)
        } else {
            let st1 = if first {
                st
            } else {
                push_op(st, PatchOp::NextNode)
            };
            let (st2, r) = self.spec_node(old[0], new[0], fuel, st1);
            self.spec_common(old.drop_first(), new.drop_first(), false, fuel, st2, acc || r)
        }
    }
}

impl<'a> Differ<'a> {
    /// Every translation leads to an id under which the frontend knows a node
    /// of the old frame: the translation the old frame holds for that node,
    /// or its own id when it holds none.
    pub open spec fn maps_to_known(&self, m: Map<u64, u64>) -> bool {
        forall|n: u64| #[trigger] m.contains_key(n) ==> exists|x: u64| x != 0 && #[trigger] self.old.spec_known_as(x) == m[n]
    }

    /// Diffing a node keeps every translation leading to an id the frontend knows.
    proof fn lemma_known_node(&self, old: VNode, new: VNode, fuel: nat, st: DiffState)
        requires
            self.maps_to_known(st.trans),
        ensures
            self.maps_to_known(self.spec_node(old, new, fuel, st).0.trans),
        decreases fuel, old, 2nat,
    {
        match (old, new) {
            (VNode::Element(eo), VNode::Element(en)) => {
                if !(eo.tag@ != en.tag@ || opt_view(eo.namespace) != opt_view(en.namespace)
                    || !events_equal(eo.events@, en.events@)) {
                    let a = attr_ops(eo.attr@, en.attr@, false);
                    let j = attr_ops(eo.js_events@, en.js_events@, true);
                    let st1 = DiffState { items: st.items + a + j, trans: st.trans };
                    self.lemma_known_children(eo.children@, en.children@, fuel, st1);
                    let st2 = self.spec_children(eo.children@, en.children@, fuel, st1).0;
                    if eo.id@ != 0 {
                        let m = st2.trans.insert(en.id@, self.very_old(eo.id@));
                        assert forall|n: u64| #[trigger] m.contains_key(n) implies exists|x: u64|
                            x != 0 && #[trigger] self.old.spec_known_as(x) == m[n] by {
                            if n == en.id@ {
                                assert(self.old.spec_known_as(eo.id@) == m[n]);
                            }
                        }
                    }
                }
            },
            (VNode::Placeholder(io), VNode::Placeholder(inew)) => {
                if io@ == inew@ {
                    match (component_dom(self.old.rendered.components@, io@), component_dom(self.new.components@, inew@)) {
                        (Some(od), Some(nd)) => if fuel > 0 {
                            self.lemma_known_node(od, nd, (fuel - 1) as nat, st);
                        },
                        _ => {},
                    }
                }
            },
            _ => {},
        }
    }

    /// Diffing children keeps every translation leading to an id the frontend knows.
    proof fn lemma_known_children(&self, old: Seq<VNode>, new: Seq<VNode>, fuel: nat, st: DiffState)
        requires
            self.maps_to_known(st.trans),
        ensures
            self.maps_to_known(self.spec_children(old, new, fuel, st).0.trans),
        decreases fuel, old, 1nat,
    {
        if !(old.len() == 0 && new.len() == 0) && !(old.len() > 0 && new.len() == 0) {
            let st1 = push_op(st, PatchOp::Descend);
            self.lemma_known_common(old, new, true, fuel, st1, false);
        }
    }

    /// Diffing common children keeps every translation leading to an id the
    /// frontend knows.
    proof fn lemma_known_common(
        &self,
        old: Seq<VNode>,
        new: Seq<VNode>,
        first: bool,
        fuel: nat,
        st: DiffState,
        acc: bool,
    )
        requires
            self.maps_to_known(st.trans),
        ensures
            self.maps_to_known(self.spec_common(old, new, first, fuel, st, acc).0.trans),
        decreases fuel, old, 0nat,
    {
        if old.len() > 0 && new.len() > 0 {
            let st1 = if first {
                st
            } else {
                push_op(st, PatchOp::NextNode)
            };
            self.lemma_known_node(old[0], new[0], fuel, st1);
            let (st2, r) = self.spec_node(old[0], new[0], fuel, st1);
            self.lemma_known_common(old.drop_first(), new.drop_first(), false, fuel, st2, acc || r);
        }
    }

    /// The translations of the diff lead the ids of new nodes to the ids under
    /// which the frontend knows nodes of the old frame (the old frame's
    /// translation of a node, or its own id): never to an id the frontend does
    /// not know. In particular a root element kept in place is translated to
    /// the id the frontend knows the old root by.
    pub proof fn lemma_translations_known(&self)
        ensures
            self.maps_to_known(self.spec_tree().0.trans),
            self.old.rendered.root_dom() matches VNode::Element(eo) ==> (self.new.root_dom() matches VNode::Element(
                en,
            ) ==> ((eo.tag@ == en.tag@ && opt_view(eo.namespace) == opt_view(en.namespace) && events_equal(
                eo.events@,
                en.events@,
            ) && eo.id@ != 0) ==> (self.spec_tree().0.trans.contains_key(en.id@)
                && self.spec_tree().0.trans[en.id@] == self.old.spec_known_as(eo.id@)))),
    {
        let st0 = DiffState { items: Seq::empty(), trans: Map::empty() };
        self.lemma_known_node(self.old.rendered.root_dom(), self.new.root_dom(), self.root_fuel(), st0);
    }
}

/// The state of a patch, as the diff sees it.
pub open spec fn state_of(p: crate::vdom::PatchView) -> DiffState {
    DiffState { items: p.items, trans: p.translations }
}

/// Returns the value of the last attribute with the given key.
fn lookup_last<'b>(attrs: &'b Vec<Attr>, key: &String) -> (res: Option<&'b String>)
    ensures
        match res {
            Some(v) => last_value(attrs@, key@) == Some(v@),
            None => last_value(attrs@, key@) is None,
        },
{
    let mut i = attrs.len();
    assert(attrs@.take(i as int) =~= attrs@);
    while i > 0
        invariant
            i <= attrs@.len(),
            last_value(attrs@, key@) == last_value(attrs@.take(i as int), key@),
        decreases i,
    {
        assert(attrs@.take(i as int).last() == attrs@[i - 1]);
        if attrs[i - 1].key == *key {
            return Some(&attrs[i - 1].value);
        }
        assert(attrs@.take(i as int).drop_last() =~= attrs@.take(i - 1));
        i -= 1;
    }
    None
}

/// Compares two optional strings.
fn opt_string_eq(a: &Option<String>, b: &Option<String>) -> (res: bool)
    ensures
        res == (opt_view(*a) == opt_view(*b)),
{
    match (a, b) {
        (Some(x), Some(y)) => *x == *y,
        (None, None) => true,
        _ => false,
    }
}

/// Emits the items updating the attributes `old` to `new` (javascript event
/// handlers when `js`). Returns whether a change was detected.
fn diff_pairs<'a>(olds: &'a Vec<Attr>, news: &'a Vec<Attr>, js: bool, patch: &mut Patch<'a>) -> (ret:
    bool)
    ensures
        final(patch)@.items == old(patch)@.items + attr_ops(olds@, news@, js),
        final(patch)@.translations == old(patch)@.translations,
        ret == (attr_ops(olds@, news@, js).len() > 0),
{
    let ghost items0 = patch@.items;
    let mut ret = false;
    let mut k: usize = 0;
    assert(news@.take(0) =~= Seq::<Attr>::empty());
    assert(items0 + Seq::<PatchOp>::empty() =~= items0);
    while k < news.len()
        invariant
            k <= news@.len(),
            patch@.items == items0 + add_or_replace_ops(olds@, news@.take(k as int), js),
            patch@.translations == old(patch)@.translations,
            ret == (add_or_replace_ops(olds@, news@.take(k as int), js).len() > 0),
        decreases news@.len() - k,
    {
        let attr = &news[k];
        let ghost prev = add_or_replace_ops(olds@, news@.take(k as int), js);
        assert(news@.take(k + 1).drop_last() =~= news@.take(k as int));
        assert(news@.take(k + 1).last() == news@[k as int]);
        match lookup_last(olds, &attr.key) {
            Some(old_v) => {
                if *old_v != attr.value {
                    ret = true;
                    if js {
                        patch.push(PatchItem::ReplaceJsEvent(attr.key.as_str(), attr.value.as_str()));
                    } else {
                        patch.push(
                            PatchItem::ReplaceAttribute(attr.key.as_str(), attr.value.as_str()),
                        );
                    }
                    assert(patch@.items =~= items0 + prev.push(replace_op(js, attr.key@, attr.value@)));
                }
            },
            None => {
                ret = true;
                if js {
                    patch.push(PatchItem::AddJsEvent(attr.key.as_str(), attr.value.as_str()));
                } else {
                    patch.push(PatchItem::AddAtrribute(attr.key.as_str(), attr.value.as_str()));
                }
                assert(patch@.items =~= items0 + prev.push(add_op(js, attr.key@, attr.value@)));
            },
        }
        k += 1;
    }
    assert(news@.take(news@.len() as int) =~= news@);
    let ghost items1 = patch@.items;
    let ghost adds = add_or_replace_ops(olds@, news@, js);
    let mut k: usize = 0;
    assert(olds@.take(0) =~= Seq::<Attr>::empty());
    assert(items1 + Seq::<PatchOp>::empty() =~= items1);
    while k < olds.len()
        invariant
            k <= olds@.len(),
            items1 == items0 + adds,
            patch@.items == items1 + remove_ops(olds@.take(k as int), news@, js),
            patch@.translations == old(patch)@.translations,
            ret == (adds.len() > 0 || remove_ops(olds@.take(k as int), news@, js).len() > 0),
        decreases olds@.len() - k,
    {
        let attr = &olds[k];
        let ghost prev = remove_ops(olds@.take(k as int), news@, js);
        assert(olds@.take(k + 1).drop_last() =~= olds@.take(k as int));
        assert(olds@.take(k + 1).last() == olds@[k as int]);
        if lookup_last(news, &attr.key).is_none() {
            ret = true;
            if js {
                patch.push(PatchItem::RemoveJsEvent(attr.key.as_str()));
            } else {
                patch.push(PatchItem::RemoveAttribute(attr.key.as_str()));
            }
            assert(patch@.items =~= items1 + prev.push(remove_op(js, attr.key@)));
        }
        k += 1;
    }
    assert(olds@.take(olds@.len() as int) =~= olds@);
    assert(patch@.items =~= items0 + attr_ops(olds@, news@, js));
    ret
}

/// Being a prefix is transitive.
proof fn lemma_prefix_trans<T>(a: Seq<T>, b: Seq<T>, c: Seq<T>)
    requires
        a.is_prefix_of(b),
        b.is_prefix_of(c),
    ensures
        a.is_prefix_of(c),
{
    assert forall|i: int| 0 <= i < a.len() implies a[i] == c[i] by {
        assert(a[i] == b.subrange(0, a.len() as int)[i]);
        assert(b[i] == c.subrange(0, b.len() as int)[i]);
    }
    assert(a =~= c.subrange(0, a.len() as int));
}

/// Appending keeps a prefix.
proof fn lemma_prefix_push<T>(a: Seq<T>, b: Seq<T>, x: T)
    requires
        a.is_prefix_of(b),
    ensures
        a.is_prefix_of(b.push(x)),
{
    lemma_prefix_trans(a, b, b.push(x));
}

/// Concatenating keeps a prefix.
proof fn lemma_prefix_add<T>(a: Seq<T>, b: Seq<T>, x: Seq<T>)
    requires
        a.is_prefix_of(b),
    ensures
        a.is_prefix_of(b + x),
{
    assert(b.is_prefix_of(b + x)) by {
        assert(b =~= (b + x).subrange(0, b.len() as int));
    }
    lemma_prefix_trans(a, b, b + x);
}

impl<'a> Differ<'a> {
    /// Diffing only appends to the items; it appends some exactly when it reports a change.
    pub proof fn lemma_node_frame(&self, old_node: VNode, new_node: VNode, fuel: nat, st: DiffState)
        ensures
            ({
                let (st2, r) = self.spec_node(old_node, new_node, fuel, st);
                &&& st.items.is_prefix_of(st2.items)
                &&& r <==> st2.items.len() > st.items.len()
            }),
        decreases fuel, old_node, 2nat,
    {
        match (old_node, new_node) {
            (VNode::Element(eo), VNode::Element(en)) => {
                if eo.tag@ != en.tag@ || opt_view(eo.namespace) != opt_view(en.namespace)
                    || !events_equal(eo.events@, en.events@) {
                } else {
                    let a = attr_ops(eo.attr@, en.attr@, false);
                    let j = attr_ops(eo.js_events@, en.js_events@, true);
                    let st1 = DiffState { items: st.items + a + j, trans: st.trans };
                    self.lemma_children_frame(eo.children@, en.children@, fuel, st1);
                    if a.len() == 0 && j.len() == 0 {
                        assert(st1.items =~= st.items);
                    }
                }
            },
            (VNode::Placeholder(io), VNode::Placeholder(inew)) => {
                let new_dom = component_dom(self.new.components@, inew@);
                if io@ == inew@ {
                    match (component_dom(self.old.rendered.components@, io@), new_dom) {
                        (Some(od), Some(nd)) => if fuel > 0 {
                            self.lemma_node_frame(od, nd, (fuel - 1) as nat, st);
                        },
                        _ => {},
                    }
                }
            },
            _ => {},
        }
    }

    /// Diffing children only appends to the items; it appends some exactly when it reports a change.
    pub proof fn lemma_children_frame(
        &self,
        old_ch: Seq<VNode>,
        new_ch: Seq<VNode>,
        fuel: nat,
        st: DiffState,
    )
        ensures
            ({
                let (st2, r) = self.spec_children(old_ch, new_ch, fuel, st);
                &&& st.items.is_prefix_of(st2.items)
                &&& r <==> st2.items.len() > st.items.len()
            }),
        decreases fuel, old_ch, 1nat,
    {
        if old_ch.len() == 0 && new_ch.len() == 0 {
        } else if old_ch.len() > 0 && new_ch.len() == 0 {
        } else {
            let st1 = push_op(st, PatchOp::Descend);
            self.lemma_common_frame(old_ch, new_ch, true, fuel, st1, false);
            let (st2, rc) = self.spec_common(old_ch, new_ch, true, fuel, st1, false);
            assert(st.items.is_prefix_of(st1.items)) by {
                assert(st.items =~= st1.items.subrange(0, st.items.len() as int));
            }
            lemma_prefix_trans(st.items, st1.items, st2.items);
            lemma_prefix_push(st.items, st2.items, PatchOp::TruncateSiblings);
            lemma_prefix_add(st.items, st2.items, append_ops(new_ch.skip(old_ch.len() as int)));
            let (items3, r3) = if old_ch.len() > new_ch.len() {
                (st2.items.push(PatchOp::TruncateSiblings), true)
            } else if new_ch.len() > old_ch.len() {
                (st2.items + append_ops(new_ch.skip(old_ch.len() as int)), true)
            } else {
                (st2.items, rc)
            };
            lemma_prefix_push(st.items, items3, PatchOp::Ascend);
            assert(st.items.is_prefix_of(st.items)) by {
                assert(st.items =~= st.items.subrange(0, st.items.len() as int));
            }
        }
    }

    /// Diffing common children only appends to the items; when no change is
    /// reported, exactly the `NextNode` items were appended.
    pub proof fn lemma_common_frame(
        &self,
        old_ch: Seq<VNode>,
        new_ch: Seq<VNode>,
        first: bool,
        fuel: nat,
        st: DiffState,
        acc: bool,
    )
        ensures
            ({
                let (st2, a2) = self.spec_common(old_ch, new_ch, first, fuel, st, acc);
                let m = if old_ch.len() < new_ch.len() {
                    old_ch.len()
                } else {
                    new_ch.len()
                };
                let n: nat = if m == 0 {
                    0
                } else if first {
                    (m - 1) as nat
                } else {
                    m
                };
                &&& st.items.is_prefix_of(st2.items)
                &&& acc ==> a2
                &&& !a2 ==> st2.items == st.items + next_ops(n)
            }),
        decreases fuel, old_ch, 0nat,
    {
        if old_ch.len() == 0 || new_ch.len() == 0 {
            assert(st.items + next_ops(0) =~= st.items);
            assert(st.items =~= st.items.subrange(0, st.items.len() as int));
        } else {
            let st1 = if first {
                st
            } else {
                push_op(st, PatchOp::NextNode)
            };
            let (st2, r) = self.spec_node(old_ch[0], new_ch[0], fuel, st1);
            self.lemma_node_frame(old_ch[0], new_ch[0], fuel, st1);
            self.lemma_common_frame(
                old_ch.drop_first(),
                new_ch.drop_first(),
                false,
                fuel,
                st2,
                acc || r,
            );
            let (st3, a3) = self.spec_common(
                old_ch.drop_first(),
                new_ch.drop_first(),
                false,
                fuel,
                st2,
                acc || r,
            );
            let m = if old_ch.len() < new_ch.len() {
                old_ch.len()
            } else {
                new_ch.len()
            };
            assert(st.items.is_prefix_of(st1.items)) by {
                assert(st.items =~= st1.items.subrange(0, st.items.len() as int));
            }
            lemma_prefix_trans(st.items, st1.items, st2.items);
            lemma_prefix_trans(st.items, st2.items, st3.items);
            if !a3 {
                assert(st2.items =~= st1.items);
                if first {
                    assert(st3.items =~= st.items + next_ops((m - 1) as nat));
                } else {
                    assert(st3.items =~= st.items + next_ops(m));
                }
            }
        }
    }
}

impl<'a> Differ<'a> {
    /// Creates a differ comparing the frame last applied by the frontend with a new render result.
    pub fn new(old: &'a Frame, new: &'a RenderResult) -> (res: Differ<'a>)
        ensures
            res.old == old,
            res.new == new,
    {
        Differ { old, new }
    }

    /// Both render results are well formed.
    pub open spec fn wf(&self) -> bool {
        self.old.rendered.wf() && self.new.wf()
    }

    /// The fuel that suffices to resolve every placeholder of the old root.
    pub open spec fn root_fuel(&self) -> nat {
        (self.old.rendered.components@.len() + 1) as nat
    }

    /// Returns whether the registered event handlers of the two elements are equal.
    fn diff_events(&self, old_elem: &'a VElement, new_elem: &'a VElement) -> (res: bool)
        ensures
            res == events_equal(old_elem.events@, new_elem.events@),
    {
        if new_elem.events.len() != old_elem.events.len() {
            return false;
        }
        let mut k: usize = 0;
        while k < new_elem.events.len()
            invariant
                k <= new_elem.events@.len(),
                new_elem.events@.len() == old_elem.events@.len(),
                forall|i: int| 0 <= i < k ==> handler_eq(#[trigger] old_elem.events@[i], new_elem.events@[i]),
            decreases new_elem.events@.len() - k,
        {
            if !(new_elem.events[k] == old_elem.events[k]) {
                return false;
            }
            k += 1;
        }
        true
    }

    /// Diffs all attributes of the two elements and emits items accordingly.
    /// Returns true if changes were detected.
    fn diff_attrs(&self, old_elem: &'a VElement, new_elem: &'a VElement, patch: &mut Patch<'a>) -> (ret: bool)
        ensures
            final(patch)@.items == old(patch)@.items + attr_ops(old_elem.attr@, new_elem.attr@, false),
            final(patch)@.translations == old(patch)@.translations,
            ret == (attr_ops(old_elem.attr@, new_elem.attr@, false).len() > 0),
    {
        diff_pairs(&old_elem.attr, &new_elem.attr, false, patch)
    }

    /// Diffs all javascript event handlers of the two elements and emits items accordingly.
    /// Returns true if changes were detected.
    fn diff_js_events(&self, old_elem: &'a VElement, new_elem: &'a VElement, patch: &mut Patch<'a>) -> (ret: bool)
        ensures
            final(patch)@.items == old(patch)@.items + attr_ops(old_elem.js_events@, new_elem.js_events@, true),
            final(patch)@.translations == old(patch)@.translations,
            ret == (attr_ops(old_elem.js_events@, new_elem.js_events@, true).len() > 0),
    {
        diff_pairs(&old_elem.js_events, &new_elem.js_events, true, patch)
    }

    /// Recursively diffs all children of the elements and emits items accordingly.
    /// Returns true if changes were detected.
    fn diff_children(
        &self,
        old_elem: &'a VElement,
        new_elem: &'a VElement,
        patch: &mut Patch<'a>,
        Ghost(lo_old): Ghost<int>,
        Ghost(lo_new): Ghost<int>,
        Ghost(fuel): Ghost<nat>,
    ) -> (ret: bool)
        requires
            self.wf(),
            0 <= lo_old,
            0 <= lo_new,
            fuel >= self.old.rendered.components@.len() - lo_old + 1,
            forall|i: int|
                0 <= i < old_elem.children@.len() ==> #[trigger] bounded(
                    self.old.rendered.components@,
                    old_elem.children@[i],
                    lo_old,
                ),
            forall|i: int|
                0 <= i < new_elem.children@.len() ==> #[trigger] bounded(
                    self.new.components@,
                    new_elem.children@[i],
                    lo_new,
                ),
        ensures
            (state_of(final(patch)@), ret) == self.spec_children(
                old_elem.children@,
                new_elem.children@,
                fuel,
                state_of(old(patch)@),
            ),
        decreases fuel, old_elem.children@, 1nat,
    {
        let n_old = old_elem.children.len();
        let n_new = new_elem.children.len();
        if n_old == 0 && n_new == 0 {
            return false;
        }
        if n_old != 0 && n_new == 0 {
            patch.push(PatchItem::RemoveChildren());
            return true;
        }
        let ghost st0 = state_of(patch@);
        let mut ret = false;
        let mut truncates: usize = 1;
        patch.push(PatchItem::Descend());
        let ghost st1 = state_of(patch@);
        let ghost olds = old_elem.children@;
        let ghost news = new_elem.children@;
        let common_len = if n_old < n_new {
            n_old
        } else {
            n_new
        };
        let mut k: usize = 0;
        assert(olds.skip(0) =~= olds);
        assert(news.skip(0) =~= news);
        while k < common_len
            invariant
                self.wf(),
                0 <= lo_old,
                0 <= lo_new,
                fuel >= self.old.rendered.components@.len() - lo_old + 1,
                forall|i: int|
                    0 <= i < olds.len() ==> #[trigger] bounded(
                        self.old.rendered.components@,
                        olds[i],
                        lo_old,
                    ),
                forall|i: int|
                    0 <= i < news.len() ==> #[trigger] bounded(self.new.components@, news[i], lo_new),
                olds == old_elem.children@,
                news == new_elem.children@,
                n_old == olds.len(),
                n_new == news.len(),
                common_len <= n_old,
                common_len <= n_new,
                common_len == n_old || common_len == n_new,
                k <= common_len,
                truncates == if k == 0 {
                    1
                } else {
                    k
                },
                self.spec_common(olds.skip(k as int), news.skip(k as int), k == 0, fuel, state_of(patch@), ret)
                    == self.spec_common(olds, news, true, fuel, st1, false),
            decreases common_len - k,
        {
            let ghost stk = state_of(patch@);
            if k != 0 {
                truncates += 1;
                patch.push(PatchItem::NextNode());
            }
            let r = self.diff_recursive(
                &old_elem.children[k],
                &new_elem.children[k],
                patch,
                Ghost(lo_old),
                Ghost(lo_new),
                Ghost(fuel),
            );
            proof {
                assert(olds.skip(k as int)[0] == olds[k as int]);
                assert(news.skip(k as int)[0] == news[k as int]);
                assert(olds.skip(k as int).drop_first() =~= olds.skip(k + 1));
                assert(news.skip(k as int).drop_first() =~= news.skip(k + 1));
            }
            ret = ret || r;
            k += 1;
        }
        let ghost st2 = state_of(patch@);
        let ghost rc = ret;
        proof {
            assert(olds.skip(k as int).len() == 0 || news.skip(k as int).len() == 0);
            assert((st2, rc) == self.spec_common(olds, news, true, fuel, st1, false));
            self.lemma_common_frame(olds, news, true, fuel, st1, false);
        }
        if n_old > n_new {
            patch.push(PatchItem::TruncateSiblings());
            ret = true;
        } else if n_new > n_old {
            let mut k: usize = n_old;
            assert(news.skip(n_old as int).take(0) =~= Seq::<VNode>::empty());
            assert(st2.items + append_ops(Seq::<VNode>::empty()) =~= st2.items);
            while k < n_new
                invariant
                    n_old <= k <= n_new,
                    n_new == new_elem.children@.len(),
                    news == new_elem.children@,
                    patch@.items == st2.items + append_ops(news.skip(n_old as int).take(k - n_old)),
                    patch@.translations == st2.trans,
                    k > n_old ==> ret,
                decreases n_new - k,
            {
                patch.push(PatchItem::AppendSibling(&new_elem.children[k]));
                proof {
                    assert(news.skip(n_old as int).take(k + 1 - n_old) =~= news.skip(
                        n_old as int,
                    ).take(k - n_old).push(news[k as int]));
                    assert(append_ops(news.skip(n_old as int).take(k + 1 - n_old)) =~= append_ops(
                        news.skip(n_old as int).take(k - n_old),
                    ).push(PatchOp::AppendSibling(news[k as int])));
                }
                ret = true;
                k += 1;
            }
            assert(news.skip(n_old as int).take(n_new - n_old) =~= news.skip(n_old as int));
        }
        if ret {
            patch.push(PatchItem::Ascend());
        } else {
            let len = patch.items.len();
            proof {
                let m = common_len as nat;
                assert(n_old == n_new);
                assert(!rc);
                assert(patch@.items == st2.items);
                assert(patch@.items.len() == st0.items.len() + truncates);
            }
            let ghost before = patch@.items;
            patch.items.truncate(len - truncates);
            proof {
                assert(crate::vdom::ops_of(patch.items@) =~= before.subrange(
                    0,
                    st0.items.len() as int,
                ));
                assert(before.subrange(0, st0.items.len() as int) =~= st0.items);
            }
        }
        ret
    }

    /// Recursively diffs two nodes and emits the items updating `old_node` to `new_node`.
    /// Returns whether a change was detected.
    fn diff_recursive(
        &self,
        old_node: &'a VNode,
        new_node: &'a VNode,
        patch: &mut Patch<'a>,
        Ghost(lo_old): Ghost<int>,
        Ghost(lo_new): Ghost<int>,
        Ghost(fuel): Ghost<nat>,
    ) -> (ret: bool)
        requires
            self.wf(),
            0 <= lo_old,
            0 <= lo_new,
            fuel >= self.old.rendered.components@.len() - lo_old + 1,
            bounded(self.old.rendered.components@, *old_node, lo_old),
            bounded(self.new.components@, *new_node, lo_new),
        ensures
            (state_of(final(patch)@), ret) == self.spec_node(
                *old_node,
                *new_node,
                fuel,
                state_of(old(patch)@),
            ),
        decreases fuel, *old_node, 2nat,
    {
        match (old_node, new_node) {
            (VNode::Element(elem_old), VNode::Element(elem_new)) => {
                if elem_old.tag != elem_new.tag || !opt_string_eq(
                    &elem_old.namespace,
                    &elem_new.namespace,
                ) || !self.diff_events(elem_old, elem_new) {
                    patch.push(PatchItem::Replace(new_node));
                    true
                } else {
                    proof {
                        assert(*old_node == VNode::Element(*elem_old));
                        assert(*new_node == VNode::Element(*elem_new));
                        lemma_bounded_all(self.old.rendered.components@, elem_old.children@, lo_old);
                        lemma_bounded_all(self.new.components@, elem_new.children@, lo_new);
                    }
                    let ghost st0 = state_of(patch@);
                    let mut ret = false;
                    let ra = self.diff_attrs(elem_old, elem_new, patch);
                    let rj = self.diff_js_events(elem_old, elem_new, patch);
                    let rc = self.diff_children(
                        elem_old,
                        elem_new,
                        patch,
                        Ghost(lo_old),
                        Ghost(lo_new),
                        Ghost(fuel),
                    );
                    ret = ra || rj || rc;
                    if !elem_old.id.is_empty() {
                        let very_old_id = self.old.known_as(elem_old.id);
                        patch.translate(elem_new.id, very_old_id);
                    }
                    ret
                }
            },
            (VNode::Text(text_old), VNode::Text(text_new)) => {
                if *text_old != *text_new {
                    patch.push(PatchItem::ChangeText(text_new.as_str()));
                    true
                } else {
                    false
                }
            },
            (VNode::Placeholder(id_old), VNode::Placeholder(id_new)) => {
                let ghost oc = self.old.rendered.components@;
                let ghost nc = self.new.components@;
                if id_old.data() == id_new.data() {
                    let ghost i = choose|j: int| 0 <= j < oc.len() && (#[trigger] oc[j]).id@ == id_old@;
                    let ghost j = choose|j: int| 0 <= j < nc.len() && (#[trigger] nc[j]).id@ == id_new@;
                    proof {
                        let w = choose|w: int| lo_old <= w < oc.len() && (#[trigger] oc[w]).id@ == id_old@;
                        assert(w == i);
                        let wn = choose|w: int| lo_new <= w < nc.len() && (#[trigger] nc[w]).id@ == id_new@;
                        assert(wn == j);
                        assert(bounded(oc, oc[i].vdom, i + 1));
                        assert(bounded(nc, nc[j].vdom, j + 1));
                    }
                    let old_vdom = self.old.rendered.get_component_vdom(*id_old).unwrap();
                    let new_vdom = self.new.get_component_vdom(*id_new).unwrap();
                    self.diff_recursive(
                        old_vdom,
                        new_vdom,
                        patch,
                        Ghost(i + 1),
                        Ghost(j + 1),
                        Ghost((fuel - 1) as nat),
                    )
                } else {
                    let new_vdom = self.new.get_component_vdom(*id_new).unwrap();
                    patch.push(PatchItem::Replace(new_vdom));
                    true
                }
            },
            _ => {
                patch.push(PatchItem::Replace(new_node));
                true
            },
        }
    }
}

/// Whether a blob with the given id is listed.
pub open spec fn has_blob(blobs: Seq<Blob>, id: u64) -> bool {
    exists|j: int| 0 <= j < blobs.len() && (#[trigger] blobs[j])@.id == id
}

/// The hash of the listed blob with the given id.
pub open spec fn blob_hash(blobs: Seq<Blob>, id: u64) -> u64 {
    blobs[choose|j: int| 0 <= j < blobs.len() && (#[trigger] blobs[j])@.id == id]@.hash
}

/// For each old blob in order whose id the new blobs lack: a removal.
pub open spec fn removed_blob_ops(olds: Seq<Blob>, news: Seq<Blob>) -> Seq<PatchOp>
    decreases olds.len(),
{
    if olds.len() == 0 {
        Seq::empty()
    } else {
        let rest = removed_blob_ops(olds.drop_last(), news);
        if !has_blob(news, olds.last()@.id) {
            rest.push(PatchOp::RemoveBlob(olds.last()@.id))
        } else {
            rest
        }
    }
}

/// For each new blob in order: an addition when the old blobs lack its id, or
/// hold it with another hash.
pub open spec fn added_blob_ops(olds: Seq<Blob>, news: Seq<Blob>) -> Seq<PatchOp>
    decreases news.len(),
{
    if news.len() == 0 {
        Seq::empty()
    } else {
        let rest = added_blob_ops(olds, news.drop_last());
        let b = news.last()@;
        if has_blob(olds, b.id) && blob_hash(olds, b.id) == b.hash {
            rest
        } else {
            rest.push(PatchOp::AddBlob(b))
        }
    }
}

/// The items that update the blobs `olds` to `news`.
pub open spec fn blob_ops(olds: Seq<Blob>, news: Seq<Blob>) -> Seq<PatchOp> {
    removed_blob_ops(olds, news) + added_blob_ops(olds, news)
}

/// The items of a patch that sends a whole render result: the root DOM, then every blob.
pub open spec fn full_ops(rendered: RenderResult) -> Seq<PatchOp> {
    seq![PatchOp::Replace(rendered.root_dom())] + rendered.blobs@.map_values(|b: Blob| PatchOp::AddBlob(b@))
}

impl<'a> Patch<'a> {
    /// A patch that sends a whole render result to the frontend: the root DOM
    /// replaces the frontend's DOM, and every blob is added.
    pub fn from_dom(rendered: &'a RenderResult) -> (res: Patch<'a>)
        ensures
            res@.items == full_ops(*rendered),
            res@.translations == Map::<u64, u64>::empty(),
            rendered.wf() ==> all_resolvable(rendered.components@, res@.items),
    {
        let mut patch = Patch::new();
        patch.push(PatchItem::Replace(&*rendered.vdom));
        let mut k: usize = 0;
        while k < rendered.blobs.len()
            invariant
                k <= rendered.blobs@.len(),
                patch@.items == seq![PatchOp::Replace(rendered.root_dom())] + rendered.blobs@.take(
                    k as int,
                ).map_values(|b: Blob| PatchOp::AddBlob(b@)),
                patch@.translations == Map::<u64, u64>::empty(),
            decreases rendered.blobs@.len() - k,
        {
            patch.push(PatchItem::AddBlob(rendered.blobs[k].clone()));
            assert(rendered.blobs@.take(k + 1).map_values(|b: Blob| PatchOp::AddBlob(b@))
                =~= rendered.blobs@.take(k as int).map_values(|b: Blob| PatchOp::AddBlob(b@)).push(
                PatchOp::AddBlob(rendered.blobs@[k as int]@),
            ));
            k += 1;
        }
        assert(rendered.blobs@.take(rendered.blobs@.len() as int) =~= rendered.blobs@);
        proof {
            if rendered.wf() {
                crate::render::lemma_bounded_lower(rendered.components@, rendered.root_dom(), 0, 0);
                assert forall|i: int| 0 <= i < patch@.items.len() implies crate::serialize::op_resolvable(
                    rendered.components@,
                    #[trigger] patch@.items[i],
                ) by {
                    if i > 0 {
                        assert(patch@.items[i] == rendered.blobs@.map_values(|b: Blob| PatchOp::AddBlob(b@))[i - 1]);
                    }
                }
            }
        }
        patch
    }
}

impl<'a> Differ<'a> {
    /// The state after diffing the root DOMs.
    pub open spec fn spec_tree(&self) -> (DiffState, bool) {
        self.spec_node(
            self.old.rendered.root_dom(),
            self.new.root_dom(),
            self.root_fuel(),
            DiffState { items: Seq::empty(), trans: Map::empty() },
        )
    }

    /// Diffs the blobs of the two render results and emits items accordingly.
    fn diff_blobs(&self, patch: &mut Patch<'a>)
        requires
            self.wf(),
        ensures
            final(patch)@.items == old(patch)@.items + blob_ops(
                self.old.rendered.blobs@,
                self.new.blobs@,
            ),
            final(patch)@.translations == old(patch)@.translations,
    {
        let ghost olds = self.old.rendered.blobs@;
        let ghost news = self.new.blobs@;
        let ghost items0 = patch@.items;
        let mut k: usize = 0;
        assert(olds.take(0) =~= Seq::<Blob>::empty());
        assert(items0 + Seq::<PatchOp>::empty() =~= items0);
        while k < self.old.rendered.blobs.len()
            invariant
                k <= olds.len(),
                olds == self.old.rendered.blobs@,
                news == self.new.blobs@,
                patch@.items == items0 + removed_blob_ops(olds.take(k as int), news),
                patch@.translations == old(patch)@.translations,
            decreases olds.len() - k,
        {
            let id = self.old.rendered.blobs[k].id();
            let ghost prev = removed_blob_ops(olds.take(k as int), news);
            assert(olds.take(k + 1).drop_last() =~= olds.take(k as int));
            assert(olds.take(k + 1).last() == olds[k as int]);
            if self.new.find_blob(id).is_none() {
                patch.push(PatchItem::RemoveBlob(id));
                assert(patch@.items =~= items0 + prev.push(PatchOp::RemoveBlob(id@)));
            }
            k += 1;
        }
        assert(olds.take(olds.len() as int) =~= olds);
        let ghost items1 = patch@.items;
        let mut k: usize = 0;
        assert(news.take(0) =~= Seq::<Blob>::empty());
        assert(items1 + Seq::<PatchOp>::empty() =~= items1);
        while k < self.new.blobs.len()
            invariant
                k <= news.len(),
                self.wf(),
                olds == self.old.rendered.blobs@,
                news == self.new.blobs@,
                items1 == items0 + removed_blob_ops(olds, news),
                patch@.items == items1 + added_blob_ops(olds, news.take(k as int)),
                patch@.translations == old(patch)@.translations,
            decreases news.len() - k,
        {
            let v = &self.new.blobs[k];
            let ghost prev = added_blob_ops(olds, news.take(k as int));
            assert(news.take(k + 1).drop_last() =~= news.take(k as int));
            assert(news.take(k + 1).last() == news[k as int]);
            match self.old.rendered.find_blob(v.id()) {
                Some(i) => {
                    proof {
                        let j = choose|j: int| 0 <= j < olds.len() && (#[trigger] olds[j])@.id == v@.id;
                        assert(olds[i as int]@.id == v@.id);
                        assert(j == i);
                    }
                    if self.old.rendered.blobs[i].hash() != v.hash() {
                        // the blob is simply overwritten: no removal is required
                        patch.push(PatchItem::AddBlob(v.clone()));
                        assert(patch@.items =~= items1 + prev.push(PatchOp::AddBlob(v@)));
                    }
                },
                None => {
                    // blob missing, add it
                    patch.push(PatchItem::AddBlob(v.clone()));
                    assert(patch@.items =~= items1 + prev.push(PatchOp::AddBlob(v@)));
                },
            }
            k += 1;
        }
        assert(news.take(news.len() as int) =~= news);
        assert(patch@.items =~= items0 + blob_ops(olds, news));
    }

    /// Produces the patch updating the frontend from the old frame to the new
    /// render result: the items of the DOM diff without trailing moves, then the
    /// blob updates. The translations map the ids of the new nodes to the ids the
    /// frontend knows them by. Applied to the DOM the frontend shows for the
    /// old render, the patch yields the DOM of the new render (see
    /// `lemma_patch_syncs_dom`).
    pub fn diff(self) -> (res: Patch<'a>)
        requires
            self.wf(),
        ensures
            res@.items == crate::vdom::strip_trailing_moves(self.spec_tree().0.items) + blob_ops(
                self.old.rendered.blobs@,
                self.new.blobs@,
            ),
            res@.translations == self.spec_tree().0.trans,
            forall|n: u64| #[trigger] res@.translations.contains_key(n) ==> exists|x: u64|
                x != 0 && #[trigger] self.old.spec_known_as(x) == res@.translations[n],
            self.old.rendered.root_dom() matches VNode::Element(eo) ==> (self.new.root_dom() matches VNode::Element(
                en,
            ) ==> ((eo.tag@ == en.tag@ && opt_view(eo.namespace) == opt_view(en.namespace) && events_equal(
                eo.events@,
                en.events@,
            ) && eo.id@ != 0) ==> (res@.translations.contains_key(en.id@) && res@.translations[en.id@]
                == self.old.spec_known_as(eo.id@)))),
            all_resolvable(self.new.components@, res@.items),
            crate::frontend::render_keys_distinct(*self.new) ==> (crate::frontend::apply_ops(
                res@.items,
                crate::frontend::showing(
                    crate::frontend::full(self.old.rendered.root_dom(), self.old.rendered.components@),
                    self.new.components@,
                ),
            ) matches Some(s2) && s2.root == crate::frontend::full(self.new.root_dom(), self.new.components@)),
    {
        proof {
            self.lemma_translations_known();
            if crate::frontend::render_keys_distinct(*self.new) {
                self.lemma_patch_syncs_dom();
            }
            let st0 = DiffState { items: Seq::empty(), trans: Map::empty() };
            self.lemma_node_resolvable(self.old.rendered.root_dom(), self.new.root_dom(), self.root_fuel(), st0, 0);
            let t = self.spec_tree().0.items;
            crate::vdom::lemma_strip_trailing_moves(t);
            let s = crate::vdom::strip_trailing_moves(t);
            let b = blob_ops(self.old.rendered.blobs@, self.new.blobs@);
            lemma_blob_ops_plain(self.old.rendered.blobs@, self.new.blobs@);
            assert forall|i: int| 0 <= i < (s + b).len() implies crate::serialize::op_resolvable(
                self.new.components@,
                #[trigger] (s + b)[i],
            ) by {
                if i < s.len() {
                    assert((s + b)[i] == s[i]);
                    assert(s[i] == t[i]);
                } else {
                    assert((s + b)[i] == b[i - s.len()]);
                }
            }
        }
        let mut patch = Patch::new();
        self.diff_recursive(
            &*self.old.rendered.vdom,
            &*self.new.vdom,
            &mut patch,
            Ghost(0),
            Ghost(0),
            Ghost(self.root_fuel()),
        );
        patch.optimize();
        self.diff_blobs(&mut patch);
        patch
    }
}

/// Every node the items refer to resolves all of its placeholders in `comps`.
pub open spec fn all_resolvable(comps: Seq<Arc<RenderedComponent>>, ops: Seq<PatchOp>) -> bool {
    forall|i: int| 0 <= i < ops.len() ==> crate::serialize::op_resolvable(comps, #[trigger] ops[i])
}

/// Pushing a resolvable item keeps all items resolvable.
proof fn lemma_resolvable_push(comps: Seq<Arc<RenderedComponent>>, ops: Seq<PatchOp>, op: PatchOp)
    requires
        all_resolvable(comps, ops),
        crate::serialize::op_resolvable(comps, op),
    ensures
        all_resolvable(comps, ops.push(op)),
{
    assert forall|i: int| 0 <= i < ops.push(op).len() implies crate::serialize::op_resolvable(
        comps,
        #[trigger] ops.push(op)[i],
    ) by {
        if i < ops.len() {
            assert(ops.push(op)[i] == ops[i]);
        }
    }
}

impl<'a> Differ<'a> {
    /// Every node a diff emits resolves its placeholders in the new render result.
    pub proof fn lemma_node_resolvable(
        &self,
        old_node: VNode,
        new_node: VNode,
        fuel: nat,
        st: DiffState,
        lo_new: int,
    )
        requires
            self.new.wf(),
            0 <= lo_new,
            bounded(self.new.components@, new_node, lo_new),
            all_resolvable(self.new.components@, st.items),
        ensures
            all_resolvable(self.new.components@, self.spec_node(old_node, new_node, fuel, st).0.items),
        decreases fuel, old_node, 2nat,
    {
        let nc = self.new.components@;
        lemma_bounded_lower(nc, new_node, lo_new, 0);
        match (old_node, new_node) {
            (VNode::Element(eo), VNode::Element(en)) => {
                if eo.tag@ != en.tag@ || opt_view(eo.namespace) != opt_view(en.namespace)
                    || !events_equal(eo.events@, en.events@) {
                    lemma_resolvable_push(nc, st.items, PatchOp::Replace(new_node));
                } else {
                    let a = attr_ops(eo.attr@, en.attr@, false);
                    let j = attr_ops(eo.js_events@, en.js_events@, true);
                    let st1 = DiffState { items: st.items + a + j, trans: st.trans };
                    assert forall|i: int| 0 <= i < st1.items.len() implies crate::serialize::op_resolvable(
                        nc,
                        #[trigger] st1.items[i],
                    ) by {
                        if i < st.items.len() {
                            assert(st1.items[i] == st.items[i]);
                        } else {
                            lemma_attr_ops_plain(eo.attr@, en.attr@, false);
                            lemma_attr_ops_plain(eo.js_events@, en.js_events@, true);
                            if i < st.items.len() + a.len() {
                                assert(st1.items[i] == a[i - st.items.len()]);
                            } else {
                                assert(st1.items[i] == j[i - st.items.len() - a.len()]);
                            }
                        }
                    }
                    lemma_bounded_all(nc, en.children@, lo_new);
                    self.lemma_children_resolvable(eo.children@, en.children@, fuel, st1, lo_new);
                }
            },
            (VNode::Text(a), VNode::Text(b)) => {
                if a@ != b@ {
                    lemma_resolvable_push(nc, st.items, PatchOp::ChangeText(b@));
                }
            },
            (VNode::Placeholder(io), VNode::Placeholder(inew)) => {
                let new_dom = component_dom(nc, inew@);
                if let Some(nd) = new_dom {
                    let k = choose|k: int| 0 <= k < nc.len() && (#[trigger] nc[k]).id@ == inew@;
                    assert(bounded(nc, nc[k].vdom, k + 1));
                    lemma_bounded_lower(nc, nd, k + 1, 0);
                    if io@ == inew@ {
                        match component_dom(self.old.rendered.components@, io@) {
                            Some(od) => if fuel > 0 {
                                self.lemma_node_resolvable(od, nd, (fuel - 1) as nat, st, k + 1);
                            },
                            None => {},
                        }
                    } else {
                        lemma_resolvable_push(nc, st.items, PatchOp::Replace(nd));
                    }
                } else {
                    if io@ != inew@ {
                        lemma_resolvable_push(nc, st.items, PatchOp::Replace(new_node));
                    }
                }
            },
            _ => {
                lemma_resolvable_push(nc, st.items, PatchOp::Replace(new_node));
            },
        }
    }

    /// Every node a diff of children emits resolves its placeholders in the new render result.
    pub proof fn lemma_children_resolvable(
        &self,
        old_ch: Seq<VNode>,
        new_ch: Seq<VNode>,
        fuel: nat,
        st: DiffState,
        lo_new: int,
    )
        requires
            self.new.wf(),
            0 <= lo_new,
            forall|i: int| 0 <= i < new_ch.len() ==> #[trigger] bounded(self.new.components@, new_ch[i], lo_new),
            all_resolvable(self.new.components@, st.items),
        ensures
            all_resolvable(self.new.components@, self.spec_children(old_ch, new_ch, fuel, st).0.items),
        decreases fuel, old_ch, 1nat,
    {
        let nc = self.new.components@;
        if old_ch.len() == 0 && new_ch.len() == 0 {
        } else if old_ch.len() > 0 && new_ch.len() == 0 {
            lemma_resolvable_push(nc, st.items, PatchOp::RemoveChildren);
        } else {
            let st1 = push_op(st, PatchOp::Descend);
            lemma_resolvable_push(nc, st.items, PatchOp::Descend);
            self.lemma_common_resolvable(old_ch, new_ch, true, fuel, st1, false, lo_new);
            let (st2, rc) = self.spec_common(old_ch, new_ch, true, fuel, st1, false);
            lemma_resolvable_push(nc, st2.items, PatchOp::TruncateSiblings);
            let apps = append_ops(new_ch.skip(old_ch.len() as int));
            if new_ch.len() > old_ch.len() {
                assert forall|i: int| 0 <= i < (st2.items + apps).len() implies crate::serialize::op_resolvable(
                    nc,
                    #[trigger] (st2.items + apps)[i],
                ) by {
                    if i < st2.items.len() {
                        assert((st2.items + apps)[i] == st2.items[i]);
                    } else {
                        let m = i - st2.items.len();
                        assert((st2.items + apps)[i] == apps[m]);
                        assert(new_ch.skip(old_ch.len() as int)[m] == new_ch[m + old_ch.len()]);
                        assert(bounded(nc, new_ch[m + old_ch.len()], lo_new));
                        lemma_bounded_lower(nc, new_ch[m + old_ch.len()], lo_new, 0);
                    }
                }
            }
            let (items3, r3) = if old_ch.len() > new_ch.len() {
                (st2.items.push(PatchOp::TruncateSiblings), true)
            } else if new_ch.len() > old_ch.len() {
                (st2.items + apps, true)
            } else {
                (st2.items, rc)
            };
            lemma_resolvable_push(nc, items3, PatchOp::Ascend);
        }
    }

    /// Every node a diff of common children emits resolves its placeholders in the new render result.
    pub proof fn lemma_common_resolvable(
        &self,
        old_ch: Seq<VNode>,
        new_ch: Seq<VNode>,
        first: bool,
        fuel: nat,
        st: DiffState,
        acc: bool,
        lo_new: int,
    )
        requires
            self.new.wf(),
            0 <= lo_new,
            forall|i: int| 0 <= i < new_ch.len() ==> #[trigger] bounded(self.new.components@, new_ch[i], lo_new),
            all_resolvable(self.new.components@, st.items),
        ensures
            all_resolvable(
                self.new.components@,
                self.spec_common(old_ch, new_ch, first, fuel, st, acc).0.items,
            ),
        decreases fuel, old_ch, 0nat,
    {
        let nc = self.new.components@;
        if old_ch.len() == 0 || new_ch.len() == 0 {
        } else {
            let st1 = if first {
                st
            } else {
                push_op(st, PatchOp::NextNode)
            };
            lemma_resolvable_push(nc, st.items, PatchOp::NextNode);
            assert(bounded(nc, new_ch[0], lo_new));
            self.lemma_node_resolvable(old_ch[0], new_ch[0], fuel, st1, lo_new);
            let (st2, r) = self.spec_node(old_ch[0], new_ch[0], fuel, st1);
            assert forall|i: int| 0 <= i < new_ch.drop_first().len() implies #[trigger] bounded(
                nc,
                new_ch.drop_first()[i],
                lo_new,
            ) by {
                assert(new_ch.drop_first()[i] == new_ch[i + 1]);
            }
            self.lemma_common_resolvable(
                old_ch.drop_first(),
                new_ch.drop_first(),
                false,
                fuel,
                st2,
                acc || r,
                lo_new,
            );
        }
    }
}

/// Blob items refer to no node.
proof fn lemma_blob_ops_plain(olds: Seq<Blob>, news: Seq<Blob>)
    ensures
        forall|i: int|
            0 <= i < blob_ops(olds, news).len() ==> !(#[trigger] blob_ops(olds, news)[i] is AppendSibling)
                && !(blob_ops(olds, news)[i] is Replace),
{
    lemma_removed_blobs_plain(olds, news);
    lemma_added_blobs_plain(olds, news);
    let a = removed_blob_ops(olds, news);
    let r = added_blob_ops(olds, news);
    assert forall|i: int| 0 <= i < (a + r).len() implies !(#[trigger] (a + r)[i] is AppendSibling)
        && !((a + r)[i] is Replace) by {
        if i < a.len() {
            assert((a + r)[i] == a[i]);
        } else {
            assert((a + r)[i] == r[i - a.len()]);
        }
    }
}

pub(crate) proof fn lemma_removed_blobs_plain(olds: Seq<Blob>, news: Seq<Blob>)
    ensures
        forall|i: int|
            0 <= i < removed_blob_ops(olds, news).len() ==> (#[trigger] removed_blob_ops(olds, news)[i]) is RemoveBlob,
    decreases olds.len(),
{
    if olds.len() > 0 {
        lemma_removed_blobs_plain(olds.drop_last(), news);
    }
}

pub(crate) proof fn lemma_added_blobs_plain(olds: Seq<Blob>, news: Seq<Blob>)
    ensures
        forall|i: int|
            0 <= i < added_blob_ops(olds, news).len() ==> (#[trigger] added_blob_ops(olds, news)[i]) is AddBlob,
    decreases news.len(),
{
    if news.len() > 0 {
        lemma_added_blobs_plain(olds, news.drop_last());
    }
}

/// Attribute items refer to no node.
proof fn lemma_attr_ops_plain(olds: Seq<Attr>, news: Seq<Attr>, js: bool)
    ensures
        forall|i: int|
            0 <= i < attr_ops(olds, news, js).len() ==> !(#[trigger] attr_ops(olds, news, js)[i] is AppendSibling)
                && !(attr_ops(olds, news, js)[i] is Replace),
{
    lemma_add_or_replace_plain(olds, news, js);
    lemma_remove_plain(olds, news, js);
    let a = add_or_replace_ops(olds, news, js);
    let r = remove_ops(olds, news, js);
    assert forall|i: int| 0 <= i < (a + r).len() implies !(#[trigger] (a + r)[i] is AppendSibling)
        && !((a + r)[i] is Replace) by {
        if i < a.len() {
            assert((a + r)[i] == a[i]);
        } else {
            assert((a + r)[i] == r[i - a.len()]);
        }
    }
}

proof fn lemma_add_or_replace_plain(olds: Seq<Attr>, news: Seq<Attr>, js: bool)
    ensures
        forall|i: int|
            0 <= i < add_or_replace_ops(olds, news, js).len() ==> !(
            #[trigger] add_or_replace_ops(olds, news, js)[i] is AppendSibling) && !(add_or_replace_ops(
                olds,
                news,
                js,
            )[i] is Replace),
    decreases news.len(),
{
    if news.len() > 0 {
        lemma_add_or_replace_plain(olds, news.drop_last(), js);
    }
}

proof fn lemma_remove_plain(olds: Seq<Attr>, news: Seq<Attr>, js: bool)
    ensures
        forall|i: int|
            0 <= i < remove_ops(olds, news, js).len() ==> !(
            #[trigger] remove_ops(olds, news, js)[i] is AppendSibling) && !(remove_ops(
                olds,
                news,
                js,
            )[i] is Replace),
    decreases olds.len(),
{
    if olds.len() > 0 {
        lemma_remove_plain(olds.drop_last(), news, js);
    }
}

/// No two attributes share a key.
pub open spec fn distinct_keys(attrs: Seq<Attr>) -> bool {
    forall|i: int, j: int|
        0 <= i < attrs.len() && 0 <= j < attrs.len() && i != j ==> (#[trigger] attrs[i]).key@
            != (#[trigger] attrs[j]).key@
}

/// No element of the DOM holds two attributes, or two javascript event
/// handlers, with the same key.
pub open spec fn keys_distinct(node: VNode) -> bool
    decreases node,
{
    match node {
        VNode::Element(e) => distinct_keys(e.attr@) && distinct_keys(e.js_events@) && keys_distinct_all(
            e.children@,
        ),
        _ => true,
    }
}

/// `keys_distinct` holds of every node of the list.
pub open spec fn keys_distinct_all(nodes: Seq<VNode>) -> bool
    decreases nodes,
{
    if nodes.len() == 0 {
        true
    } else {
        keys_distinct(nodes[0]) && keys_distinct_all(nodes.drop_first())
    }
}

/// With distinct keys, the last value of each attribute's key is its own value.
proof fn lemma_last_value_distinct(attrs: Seq<Attr>, i: int)
    requires
        distinct_keys(attrs),
        0 <= i < attrs.len(),
    ensures
        last_value(attrs, attrs[i].key@) == Some(attrs[i].value@),
    decreases attrs.len(),
{
    if i < attrs.len() - 1 {
        assert(attrs.last() == attrs[attrs.len() - 1]);
        assert(distinct_keys(attrs.drop_last())) by {
            assert forall|a: int, b: int|
                0 <= a < attrs.drop_last().len() && 0 <= b < attrs.drop_last().len() && a != b
                    implies (#[trigger] attrs.drop_last()[a]).key@ != (
                #[trigger] attrs.drop_last()[b]).key@ by {
                assert(attrs.drop_last()[a] == attrs[a]);
                assert(attrs.drop_last()[b] == attrs[b]);
            }
        }
        lemma_last_value_distinct(attrs.drop_last(), i);
        assert(attrs.drop_last()[i] == attrs[i]);
    }
}

/// No addition or replacement is emitted when every new attribute has its value among the old ones.
proof fn lemma_add_or_replace_none(olds: Seq<Attr>, news: Seq<Attr>, js: bool)
    requires
        forall|i: int|
            0 <= i < news.len() ==> last_value(olds, (#[trigger] news[i]).key@) == Some(news[i].value@),
    ensures
        add_or_replace_ops(olds, news, js).len() == 0,
    decreases news.len(),
{
    if news.len() > 0 {
        assert forall|i: int| 0 <= i < news.drop_last().len() implies last_value(
            olds,
            (#[trigger] news.drop_last()[i]).key@,
        ) == Some(news.drop_last()[i].value@) by {
            assert(news.drop_last()[i] == news[i]);
        }
        lemma_add_or_replace_none(olds, news.drop_last(), js);
        assert(news.last() == news[news.len() - 1]);
    }
}

/// No removal is emitted when every old key is among the new attributes.
proof fn lemma_remove_none(olds: Seq<Attr>, news: Seq<Attr>, js: bool)
    requires
        forall|i: int| 0 <= i < olds.len() ==> last_value(news, (#[trigger] olds[i]).key@) is Some,
    ensures
        remove_ops(olds, news, js).len() == 0,
    decreases olds.len(),
{
    if olds.len() > 0 {
        assert forall|i: int| 0 <= i < olds.drop_last().len() implies last_value(
            news,
            (#[trigger] olds.drop_last()[i]).key@,
        ) is Some by {
            assert(olds.drop_last()[i] == olds[i]);
        }
        lemma_remove_none(olds.drop_last(), news, js);
        assert(olds.last() == olds[olds.len() - 1]);
    }
}

/// Attributes with distinct keys compared with themselves give no item.
proof fn lemma_attr_ops_self(attrs: Seq<Attr>, js: bool)
    requires
        distinct_keys(attrs),
    ensures
        attr_ops(attrs, attrs, js).len() == 0,
{
    assert forall|i: int| 0 <= i < attrs.len() implies last_value(attrs, (#[trigger] attrs[i]).key@)
        == Some(attrs[i].value@) by {
        lemma_last_value_distinct(attrs, i);
    }
    lemma_add_or_replace_none(attrs, attrs, js);
    lemma_remove_none(attrs, attrs, js);
}

impl<'a> Differ<'a> {
    /// Diffing a DOM against itself detects no change and emits no item, when
    /// the old and new components are the same and no element holds two
    /// attributes (or two javascript event handlers) with the same key.
    pub proof fn lemma_diff_self(&self, node: VNode, fuel: nat, st: DiffState)
        requires
            self.old.rendered.components@ == self.new.components@,
            keys_distinct(node),
            forall|i: int|
                0 <= i < self.new.components@.len() ==> keys_distinct(
                    (#[trigger] self.new.components@[i]).vdom,
                ),
        ensures
            self.spec_node(node, node, fuel, st).0.items == st.items,
            !self.spec_node(node, node, fuel, st).1,
        decreases fuel, node, 2nat,
    {
        match node {
            VNode::Element(e) => {
                assert(events_equal(e.events@, e.events@));
                lemma_attr_ops_self(e.attr@, false);
                lemma_attr_ops_self(e.js_events@, true);
                let st1 = DiffState {
                    items: st.items + attr_ops(e.attr@, e.attr@, false) + attr_ops(
                        e.js_events@,
                        e.js_events@,
                        true,
                    ),
                    trans: st.trans,
                };
                assert(st1.items =~= st.items);
                self.lemma_children_self(e.children@, fuel, st1);
            },
            VNode::Text(_) => {},
            VNode::Placeholder(id) => {
                let comps = self.new.components@;
                match component_dom(comps, id@) {
                    Some(d) => {
                        if fuel > 0 {
                            let k = choose|k: int| 0 <= k < comps.len() && (#[trigger] comps[k]).id@ == id@;
                            assert(keys_distinct(comps[k].vdom));
                            self.lemma_diff_self(d, (fuel - 1) as nat, st);
                        }
                    },
                    None => {},
                }
            },
        }
    }

    /// Diffing children against themselves detects no change and emits no item.
    pub proof fn lemma_children_self(&self, nodes: Seq<VNode>, fuel: nat, st: DiffState)
        requires
            self.old.rendered.components@ == self.new.components@,
            keys_distinct_all(nodes),
            forall|i: int|
                0 <= i < self.new.components@.len() ==> keys_distinct(
                    (#[trigger] self.new.components@[i]).vdom,
                ),
        ensures
            self.spec_children(nodes, nodes, fuel, st).0.items == st.items,
            !self.spec_children(nodes, nodes, fuel, st).1,
        decreases fuel, nodes, 1nat,
    {
        if nodes.len() > 0 {
            let st1 = push_op(st, PatchOp::Descend);
            self.lemma_common_self(nodes, true, fuel, st1);
        }
    }

    /// Diffing common children against themselves detects no change.
    pub proof fn lemma_common_self(&self, nodes: Seq<VNode>, first: bool, fuel: nat, st: DiffState)
        requires
            self.old.rendered.components@ == self.new.components@,
            keys_distinct_all(nodes),
            forall|i: int|
                0 <= i < self.new.components@.len() ==> keys_distinct(
                    (#[trigger] self.new.components@[i]).vdom,
                ),
        ensures
            !self.spec_common(nodes, nodes, first, fuel, st, false).1,
        decreases fuel, nodes, 0nat,
    {
        if nodes.len() > 0 {
            let st1 = if first {
                st
            } else {
                push_op(st, PatchOp::NextNode)
            };
            self.lemma_diff_self(nodes[0], fuel, st1);
            let (st2, r) = self.spec_node(nodes[0], nodes[0], fuel, st1);
            self.lemma_common_self(nodes.drop_first(), false, fuel, st2);
        }
    }
}

/// No blob item is emitted when the blobs are unchanged.
proof fn lemma_removed_blobs_none(olds: Seq<Blob>, news: Seq<Blob>)
    requires
        forall|i: int| 0 <= i < olds.len() ==> has_blob(news, (#[trigger] olds[i])@.id),
    ensures
        removed_blob_ops(olds, news).len() == 0,
    decreases olds.len(),
{
    if olds.len() > 0 {
        assert forall|i: int| 0 <= i < olds.drop_last().len() implies has_blob(
            news,
            (#[trigger] olds.drop_last()[i])@.id,
        ) by {
            assert(olds.drop_last()[i] == olds[i]);
        }
        lemma_removed_blobs_none(olds.drop_last(), news);
        assert(olds.last() == olds[olds.len() - 1]);
    }
}

proof fn lemma_added_blobs_none(olds: Seq<Blob>, news: Seq<Blob>)
    requires
        forall|i: int|
            0 <= i < news.len() ==> has_blob(olds, (#[trigger] news[i])@.id) && blob_hash(
                olds,
                news[i]@.id,
            ) == news[i]@.hash,
    ensures
        added_blob_ops(olds, news).len() == 0,
    decreases news.len(),
{
    if news.len() > 0 {
        assert forall|i: int| 0 <= i < news.drop_last().len() implies has_blob(
            olds,
            (#[trigger] news.drop_last()[i])@.id,
        ) && blob_hash(olds, news.drop_last()[i]@.id) == news.drop_last()[i]@.hash by {
            assert(news.drop_last()[i] == news[i]);
        }
        lemma_added_blobs_none(olds, news.drop_last());
        assert(news.last() == news[news.len() - 1]);
    }
}

/// Unique blobs compared with themselves give no item.
pub proof fn lemma_blob_ops_self(blobs: Seq<Blob>)
    requires
        unique_blobs(blobs),
    ensures
        blob_ops(blobs, blobs).len() == 0,
{
    assert forall|i: int| 0 <= i < blobs.len() implies has_blob(blobs, (#[trigger] blobs[i])@.id)
        && blob_hash(blobs, blobs[i]@.id) == blobs[i]@.hash by {
        let j = choose|j: int| 0 <= j < blobs.len() && (#[trigger] blobs[j])@.id == blobs[i]@.id;
        assert(j == i);
    }
    lemma_removed_blobs_none(blobs, blobs);
    lemma_added_blobs_none(blobs, blobs);
}

impl<'a> Differ<'a> {
    /// Rendering the same state again gives an empty patch: when the new render
    /// result holds the same DOM, components and blobs as the old frame, and no
    /// element holds two attributes (or two javascript event handlers) with the
    /// same key, the patch produced by `diff` holds no item.
    pub proof fn lemma_diff_unchanged(&self)
        requires
            self.wf(),
            self.old.rendered.root_dom() == self.new.root_dom(),
            self.old.rendered.components@ == self.new.components@,
            self.old.rendered.blobs@ == self.new.blobs@,
            keys_distinct(self.new.root_dom()),
            forall|i: int|
                0 <= i < self.new.components@.len() ==> keys_distinct(
                    (#[trigger] self.new.components@[i]).vdom,
                ),
        ensures
            crate::vdom::strip_trailing_moves(self.spec_tree().0.items) + blob_ops(
                self.old.rendered.blobs@,
                self.new.blobs@,
            ) == Seq::<PatchOp>::empty(),
    {
        let st0 = DiffState { items: Seq::empty(), trans: Map::empty() };
        self.lemma_diff_self(self.new.root_dom(), self.root_fuel(), st0);
        lemma_blob_ops_self(self.new.blobs@);
        assert(crate::vdom::strip_trailing_moves(Seq::<PatchOp>::empty()) == Seq::<PatchOp>::empty());
        assert(crate::vdom::strip_trailing_moves(self.spec_tree().0.items) + blob_ops(
            self.old.rendered.blobs@,
            self.new.blobs@,
        ) =~= Seq::<PatchOp>::empty());
    }
}

} // verus!