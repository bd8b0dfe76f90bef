//! The virtual DOM: a tree of [`VNode`]s, and patches which describe how to
//! update a DOM held by the frontend.
use crate::blob::{Blob, BlobView};
use crate::Id;
use std::collections::HashMap;
use vstd::prelude::*;
use vstd::string::*;

verus! {

broadcast use vstd::std_specs::hash::group_hash_axioms;

/// A path from the root of a DOM to one of its nodes: the child index taken at each level.
#[derive(Clone)]
pub struct Path {
    inner: Vec<usize>,
}

impl View for Path {
    type V = Seq<usize>;

    closed spec fn view(&self) -> Seq<usize> {
        self.inner@
    }
}

impl Path {
    /// An empty path, pointing at the root.
    pub fn new() -> (res: Path)
        ensures
            res@ == Seq::<usize>::empty(),
    {
        // preallocate as length probably fairly small
        Path { inner: Vec::with_capacity(64) }
    }

    /// Descends into the child with index `idx`.
    pub fn push(&mut self, idx: usize)
        ensures
            final(self)@ == old(self)@.push(idx),
    {
        self.inner.push(idx);
    }

    /// Goes back up one level, returning the index that was removed.
    pub fn pop(&mut self) -> (res: Option<usize>)
        ensures
            old(self)@.len() == 0 ==> res is None && final(self)@ == old(self)@,
            old(self)@.len() > 0 ==> res == Some(old(self)@.last()) && final(self)@
                == old(self)@.drop_last(),
    {
        let r = self.inner.pop();
        proof {
            if old(self)@.len() > 0 {
                assert(old(self)@.subrange(0, old(self)@.len() - 1) =~= old(self)@.drop_last());
            }
        }
        r
    }
}

/// A key/value pair: an HTML attribute, or a javascript event handler.
#[derive(Debug, Clone)]
pub struct Attr {
    pub key: String,
    pub value: String,
}

impl Attr {
    /// Creates an attribute from its key and value.
    pub fn new(key: &str, value: &str) -> (res: Attr)
        ensures
            res.key@ == key@,
            res.value@ == value@,
    {
        Attr { key: String::from_str(key), value: String::from_str(value) }
    }
}

/// A DOM event the backend listens to on an element.
#[derive(Debug, Clone)]
pub struct EventHandler {
    pub name: String,
    pub no_propagate: bool,
    pub prevent_default: bool,
}

/// Two event handlers are equal when their names and flags are equal.
pub open spec fn handler_eq(a: EventHandler, b: EventHandler) -> bool {
    a.name@ == b.name@ && a.no_propagate == b.no_propagate && a.prevent_default
        == b.prevent_default
}

impl PartialEq for EventHandler {
    fn eq(&self, other: &Self) -> (res: bool) {
        self.name == other.name && self.no_propagate == other.no_propagate
            && self.prevent_default == other.prevent_default
    }
}

impl vstd::std_specs::cmp::PartialEqSpecImpl for EventHandler {
    open spec fn obeys_eq_spec() -> bool {
        true
    }

    open spec fn eq_spec(&self, other: &Self) -> bool {
        handler_eq(*self, *other)
    }
}

/// An element of the virtual DOM.
#[derive(Debug)]
pub struct VElement {
    pub id: Id,
    pub tag: String,
    pub attr: Vec<Attr>,
    pub js_events: Vec<Attr>,
    pub events: Vec<EventHandler>,
    pub children: Vec<VNode>,
    pub namespace: Option<String>,
}

/// A node of the virtual DOM.
///
/// A `Placeholder` stands for the DOM of the component with the given id; the
/// component's DOM is kept beside the tree (see `RenderResult`).
#[derive(Debug)]
pub enum VNode {
    Element(VElement),
    Text(String),
    Placeholder(Id),
}

impl VNode {
    /// A text node.
    pub fn text(data: &str) -> (res: VNode)
        ensures
            res matches VNode::Text(t) && t@ == data@,
    {
        VNode::Text(String::from_str(data))
    }

    /// An element node.
    pub fn element(elem: VElement) -> (res: VNode)
        ensures
            res == VNode::Element(elem),
    {
        VNode::Element(elem)
    }

    /// A text node (same as `VNode::text`).
    pub fn from_string(s: &str) -> (res: VNode)
        ensures
            res matches VNode::Text(t) && t@ == s@,
    {
        VNode::Text(String::from_str(s))
    }

    /// The id carried by the node.
    pub open spec fn spec_id(self) -> u64 {
        match self {
            VNode::Element(e) => e.id@,
            VNode::Text(_) => 0,
            VNode::Placeholder(x) => x@,
        }
    }

    /// Returns the id of an element or of a placeholder; text nodes have the empty id.
    pub fn id(&self) -> (res: Id)
        ensures
            res@ == self.spec_id(),
    {
        match self {
            VNode::Element(e) => e.id,
            VNode::Text(_) => Id::new_empty(),
            VNode::Placeholder(x) => *x,
        }
    }
}

/// One instruction of a patch. It borrows the strings and nodes it refers to
/// from the virtual DOMs the patch was computed from.
#[derive(Debug)]
pub enum PatchItem<'a> {
    AppendSibling(&'a VNode),
    Replace(&'a VNode),
    ChangeText(&'a str),
    Ascend(),
    Descend(),
    RemoveChildren(),
    TruncateSiblings(),
    NextNode(),
    RemoveAttribute(&'a str),
    AddAtrribute(&'a str, &'a str),
    ReplaceAttribute(&'a str, &'a str),
    AddBlob(Blob),
    RemoveBlob(Id),
    RemoveJsEvent(&'a str),
    AddJsEvent(&'a str, &'a str),
    ReplaceJsEvent(&'a str, &'a str),
}

/// The meaning of a patch item, with strings and blobs taken by their views.
pub enum PatchOp {
    AppendSibling(VNode),
    Replace(VNode),
    ChangeText(Seq<char>),
    Ascend,
    Descend,
    RemoveChildren,
    TruncateSiblings,
    NextNode,
    RemoveAttribute(Seq<char>),
    AddAttribute(Seq<char>, Seq<char>),
    ReplaceAttribute(Seq<char>, Seq<char>),
    AddBlob(BlobView),
    RemoveBlob(u64),
    RemoveJsEvent(Seq<char>),
    AddJsEvent(Seq<char>, Seq<char>),
    ReplaceJsEvent(Seq<char>, Seq<char>),
}

impl<'a> View for PatchItem<'a> {
    type V = PatchOp;

    open spec fn view(&self) -> PatchOp {
        match *self {
            PatchItem::AppendSibling(n) => PatchOp::AppendSibling(*n),
            PatchItem::Replace(n) => PatchOp::Replace(*n),
            PatchItem::ChangeText(t) => PatchOp::ChangeText(t@),
            PatchItem::Ascend() => PatchOp::Ascend,
            PatchItem::Descend() => PatchOp::Descend,
            PatchItem::RemoveChildren() => PatchOp::RemoveChildren,
            PatchItem::TruncateSiblings() => PatchOp::TruncateSiblings,
            PatchItem::NextNode() => PatchOp::NextNode,
            PatchItem::RemoveAttribute(k) => PatchOp::RemoveAttribute(k@),
            PatchItem::AddAtrribute(k, v) => PatchOp::AddAttribute(k@, v@),
            PatchItem::ReplaceAttribute(k, v) => PatchOp::ReplaceAttribute(k@, v@),
            PatchItem::AddBlob(b) => PatchOp::AddBlob(b@),
            PatchItem::RemoveBlob(id) => PatchOp::RemoveBlob(id@),
            PatchItem::RemoveJsEvent(k) => PatchOp::RemoveJsEvent(k@),
            PatchItem::AddJsEvent(k, v) => PatchOp::AddJsEvent(k@, v@),
            PatchItem::ReplaceJsEvent(k, v) => PatchOp::ReplaceJsEvent(k@, v@),
        }
    }
}

/// Moves only navigate within the DOM: they change nothing by themselves.
pub open spec fn is_move_op(op: PatchOp) -> bool {
    op is Ascend || op is Descend || op is NextNode
}

impl<'a> PatchItem<'a> {
    /// Returns whether the item only navigates within the DOM.
    pub fn is_move(&self) -> (res: bool)
        ensures
            res == is_move_op(self@),
    {
        match self {
            PatchItem::Ascend() => true,
            PatchItem::Descend() => true,
            PatchItem::NextNode() => true,
            _ => false,
        }
    }
}

/// The items of a patch, taken by their views.
pub open spec fn ops_of<'a>(items: Seq<PatchItem<'a>>) -> Seq<PatchOp> {
    items.map_values(|i: PatchItem<'a>| i@)
}

/// A patch: the list of instructions that updates the frontend's DOM, and the
/// translations of new node ids to the ids the frontend already knows them by.
#[derive(Debug)]
pub struct Patch<'a> {
    pub items: Vec<PatchItem<'a>>,
    pub translations: HashMap<u64, u64>,
}

/// A patch taken by its views.
pub struct PatchView {
    pub items: Seq<PatchOp>,
    pub translations: Map<u64, u64>,
}

impl<'a> View for Patch<'a> {
    type V = PatchView;

    open spec fn view(&self) -> PatchView {
        PatchView { items: ops_of(self.items@), translations: self.translations@ }
    }
}

/// `ops` without its trailing moves.
pub open spec fn strip_trailing_moves(ops: Seq<PatchOp>) -> Seq<PatchOp>
    decreases ops.len(),
{
    if ops.len() > 0 && is_move_op(ops.last()) {
        strip_trailing_moves(ops.drop_last())
    } else {
        ops
    }
}

/// Stripping trailing moves keeps a prefix and leaves no move at the end.
pub proof fn lemma_strip_trailing_moves(ops: Seq<PatchOp>)
    ensures
        strip_trailing_moves(ops).is_prefix_of(ops),
        strip_trailing_moves(ops).len() > 0 ==> !is_move_op(strip_trailing_moves(ops).last()),
        forall|i: int|
            strip_trailing_moves(ops).len() <= i < ops.len() ==> is_move_op(#[trigger] ops[i]),
    decreases ops.len(),
{
    if ops.len() > 0 && is_move_op(ops.last()) {
        lemma_strip_trailing_moves(ops.drop_last());
        assert forall|i: int| strip_trailing_moves(ops).len() <= i < ops.len() implies is_move_op(
            #[trigger] ops[i],
        ) by {
            if i < ops.len() - 1 {
                assert(ops[i] == ops.drop_last()[i]);
            }
        }
    }
}

/// Optimizing a patch twice is the same as optimizing it once.
pub proof fn lemma_strip_trailing_moves_idempotent(ops: Seq<PatchOp>)
    ensures
        strip_trailing_moves(strip_trailing_moves(ops)) == strip_trailing_moves(ops),
{
    lemma_strip_trailing_moves(ops);
}

impl<'a> Patch<'a> {
    /// An empty patch.
    pub fn new() -> (res: Patch<'a>)
        ensures
            res@.items == Seq::<PatchOp>::empty(),
            res@.translations == Map::<u64, u64>::empty(),
    {
        let p = Patch { items: vec![], translations: HashMap::new() };
        assert(ops_of(p.items@) =~= Seq::<PatchOp>::empty());
        p
    }

    /// Appends an item.
    pub fn push(&mut self, item: PatchItem<'a>)
        ensures
            final(self)@.items == old(self)@.items.push(item@),
            final(self)@.translations == old(self)@.translations,
    {
        self.items.push(item);
        assert(ops_of(self.items@) =~= ops_of(old(self).items@).push(item@));
    }

    /// Records that the node now known as `from` is known to the frontend as `to`.
    pub fn translate(&mut self, from: Id, to: Id)
        ensures
            final(self)@.items == old(self)@.items,
            final(self)@.translations == old(self)@.translations.insert(from@, to@),
    {
        self.translations.insert(from.data(), to.data());
    }

    /// Returns whether the patch holds no item.
    pub fn is_empty(&self) -> (res: bool)
        ensures
            res == (self@.items.len() == 0),
    {
        self.items.len() == 0
    }

    /// Removes the trailing moves: they are useless at the end of a patch.
    pub fn optimize(&mut self)
        ensures
            final(self)@.items == strip_trailing_moves(old(self)@.items),
            final(self)@.translations == old(self)@.translations,
    {
        let ghost ops = ops_of(self.items@);
        let n = self.items.len();
        let mut cutoff: usize = 0;
        assert(ops.take(n as int) =~= ops);
        while cutoff < n && self.items[n - 1 - cutoff].is_move()
            invariant
                cutoff <= n,
                n == self.items.len(),
                ops == ops_of(self.items@),
                ops.len() == n,
                strip_trailing_moves(ops) == strip_trailing_moves(ops.take(n - cutoff)),
            decreases n - cutoff,
        {
            assert(ops.take(n - cutoff).drop_last() =~= ops.take(n - cutoff - 1));
            cutoff += 1;
        }
        assert(strip_trailing_moves(ops.take(n - cutoff)) == ops.take(n - cutoff));
        self.items.truncate(n - cutoff);
        assert(ops_of(self.items@) =~= ops.take(n - cutoff));
    }
}

} // verus!
