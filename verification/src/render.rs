//! The result of rendering an application: the root DOM, the DOMs of its
//! components, their listeners, subscriptions and blobs; and the render
//! cycle that renders the components from the root, or again only those
//! that changed since a previous frame.
use crate::blob::Blob;
use crate::diff::has_blob;
use crate::node::{node_registered, node_width, render_node, rendered_as, width_of, Node};
use crate::vdom::VNode;
use crate::Id;
use std::collections::HashMap;
use std::sync::Arc;
use vstd::prelude::*;

verus! {

broadcast use vstd::std_specs::hash::group_hash_axioms;

/// A DOM event listener registered by a render: the node listened on and
/// the name of the event.
#[derive(Debug)]
pub struct ListenerKey {
    pub node: Id,
    pub event: String,
}

impl Clone for ListenerKey {
    fn clone(&self) -> (res: ListenerKey)
        ensures
            res == *self,
    {
        ListenerKey { node: self.node, event: self.event.clone() }
    }
}

/// What rendering one component, or the root of the application, yields:
/// its DOM, in which the components it mounts appear as placeholders, and
/// the listeners, event subscriptions, blobs and rpc handlers (by the id of
/// their element) it registers.
#[derive(Debug)]
pub struct RenderedTree {
    pub vdom: VNode,
    pub listeners: Vec<ListenerKey>,
    pub subscriptions: Vec<Id>,
    pub blobs: Vec<Blob>,
    pub rpcs: Vec<Id>,
}

/// Renders the components of an application: applications implement it on
/// top of their components' `render()`.
pub trait ComponentRenderer {
    /// Renders the component with the given id: its `render()`.
    fn render_component(&mut self, id: Id) -> Node;
}

/// The rendered state of one component: its DOM, the components it mounts
/// (the placeholders of its DOM, in order), and the listeners, event
/// subscriptions and blob ids its render registered.
#[derive(Debug)]
pub struct RenderedComponent {
    pub id: Id,
    pub vdom: VNode,
    pub children: Vec<Id>,
    pub listeners: Vec<ListenerKey>,
    pub subscriptions: Vec<Id>,
    pub blobs: Vec<Id>,
    pub rpcs: Vec<Id>,
}

/// The result of a render: the DOM of the root, in which mounted components
/// appear as placeholders, the rendered components, the blobs of the whole
/// render, and the listeners, event subscriptions and blob ids the root
/// registered. The parts a later render may take over unchanged are shared.
///
/// Components are listed parent first: the DOM of a component only holds
/// placeholders of components listed after it.
#[derive(Debug)]
pub struct RenderResult {
    pub vdom: Arc<VNode>,
    pub components: Vec<Arc<RenderedComponent>>,
    pub blobs: Vec<Blob>,
    pub listeners: Arc<Vec<ListenerKey>>,
    pub subscriptions: Arc<Vec<Id>>,
    pub root_blobs: Arc<Vec<Id>>,
    pub root_rpcs: Arc<Vec<Id>>,
}

/// Whether a component with the given id is listed at an index `>= lo`.
pub open spec fn listed_from(comps: Seq<Arc<RenderedComponent>>, id: u64, lo: int) -> bool {
    exists|j: int| lo <= j < comps.len() && (#[trigger] comps[j]).id@ == id
}

/// Every placeholder in `node` refers to a component listed at an index `>= lo`.
pub open spec fn bounded(comps: Seq<Arc<RenderedComponent>>, node: VNode, lo: int) -> bool
    decreases node,
{
    match node {
        VNode::Element(e) => bounded_all(comps, e.children@, lo),
        VNode::Text(_) => true,
        VNode::Placeholder(id) => listed_from(comps, id@, lo),
    }
}

/// Every placeholder in `nodes` refers to a component listed at an index `>= lo`.
pub open spec fn bounded_all(comps: Seq<Arc<RenderedComponent>>, nodes: Seq<VNode>, lo: int) -> bool
    decreases nodes,
{
    if nodes.len() == 0 {
        true
    } else {
        bounded(comps, nodes[0], lo) && bounded_all(comps, nodes.drop_first(), lo)
    }
}

/// `bounded_all` holds exactly when every node of the list is bounded.
pub proof fn lemma_bounded_all(comps: Seq<Arc<RenderedComponent>>, nodes: Seq<VNode>, lo: int)
    ensures
        bounded_all(comps, nodes, lo) <==> forall|i: int|
            0 <= i < nodes.len() ==> #[trigger] bounded(comps, nodes[i], lo),
    decreases nodes.len(),
{
    if nodes.len() > 0 {
        lemma_bounded_all(comps, nodes.drop_first(), lo);
        if forall|i: int| 0 <= i < nodes.len() ==> #[trigger] bounded(comps, nodes[i], lo) {
            assert forall|i: int|
                0 <= i < nodes.drop_first().len() implies #[trigger] bounded(
                comps,
                nodes.drop_first()[i],
                lo,
            ) by {
                assert(nodes.drop_first()[i] == nodes[i + 1]);
            }
            assert(bounded(comps, nodes[0], lo));
        }
        if bounded_all(comps, nodes, lo) {
            assert forall|i: int| 0 <= i < nodes.len() implies #[trigger] bounded(
                comps,
                nodes[i],
                lo,
            ) by {
                if i > 0 {
                    assert(nodes[i] == nodes.drop_first()[i - 1]);
                }
            }
        }
    }
}

/// Boundedness is kept when the bound is lowered.
pub proof fn lemma_bounded_lower(comps: Seq<Arc<RenderedComponent>>, node: VNode, lo: int, lo2: int)
    requires
        bounded(comps, node, lo),
        lo2 <= lo,
    ensures
        bounded(comps, node, lo2),
    decreases node,
{
    match node {
        VNode::Element(e) => {
            lemma_bounded_all_lower(comps, e.children@, lo, lo2);
        },
        VNode::Text(_) => {},
        VNode::Placeholder(id) => {
            let j = choose|j: int| lo <= j < comps.len() && (#[trigger] comps[j]).id@ == id@;
            assert(lo2 <= j < comps.len() && comps[j].id@ == id@);
        },
    }
}

/// Boundedness of a list is kept when the bound is lowered.
pub proof fn lemma_bounded_all_lower(comps: Seq<Arc<RenderedComponent>>, nodes: Seq<VNode>, lo: int, lo2: int)
    requires
        bounded_all(comps, nodes, lo),
        lo2 <= lo,
    ensures
        bounded_all(comps, nodes, lo2),
    decreases nodes,
{
    if nodes.len() > 0 {
        lemma_bounded_lower(comps, nodes[0], lo, lo2);
        lemma_bounded_all_lower(comps, nodes.drop_first(), lo, lo2);
    }
}

/// No two components share an id.
pub open spec fn unique_components(comps: Seq<Arc<RenderedComponent>>) -> bool {
    forall|i: int, j: int|
        0 <= i < comps.len() && 0 <= j < comps.len() && i != j ==> (#[trigger] comps[i]).id@
            != (#[trigger] comps[j]).id@
}

/// No two blobs share an id.
pub open spec fn unique_blobs(blobs: Seq<Blob>) -> bool {
    forall|i: int, j: int|
        0 <= i < blobs.len() && 0 <= j < blobs.len() && i != j ==> (#[trigger] blobs[i])@.id
            != (#[trigger] blobs[j])@.id
}

/// The index of the component with the given id, if it is listed.
pub open spec fn component_index(comps: Seq<Arc<RenderedComponent>>, id: u64) -> Option<int> {
    if listed_from(comps, id, 0) {
        Some(choose|j: int| 0 <= j < comps.len() && (#[trigger] comps[j]).id@ == id)
    } else {
        None
    }
}

/// The DOM of the component with the given id, if it is listed.
pub open spec fn component_dom(comps: Seq<Arc<RenderedComponent>>, id: u64) -> Option<VNode> {
    match component_index(comps, id) {
        Some(j) => Some(comps[j].vdom),
        None => None,
    }
}

impl RenderResult {
    /// The DOM of the root.
    pub open spec fn root_dom(&self) -> VNode {
        *self.vdom
    }

    /// The render result is well formed: ids are unique, every placeholder of
    /// the root refers to a listed component, and the DOM of each component only
    /// refers to components listed after it.
    pub open spec fn wf(&self) -> bool {
        &&& unique_components(self.components@)
        &&& unique_blobs(self.blobs@)
        &&& bounded(self.components@, self.root_dom(), 0)
        &&& forall|i: int|
            0 <= i < self.components@.len() ==> bounded(
                self.components@,
                (#[trigger] self.components@[i]).vdom,
                i + 1,
            )
    }

    /// Creates a render result holding a single DOM and nothing else.
    pub fn from_vnode(root: VNode) -> (res: RenderResult)
        ensures
            res.root_dom() == root,
            res.components@ == Seq::<Arc<RenderedComponent>>::empty(),
            res.blobs@ == Seq::<Blob>::empty(),
    {
        let r = RenderResult {
            vdom: Arc::new(root),
            components: Vec::new(),
            blobs: Vec::new(),
            listeners: Arc::new(Vec::new()),
            subscriptions: Arc::new(Vec::new()),
            root_blobs: Arc::new(Vec::new()),
            root_rpcs: Arc::new(Vec::new()),
        };
        r
    }

    /// Returns the index of the component with the given id.
    pub fn find_component(&self, id: Id) -> (res: Option<usize>)
        ensures
            res matches Some(i) ==> i < self.components@.len() && self.components@[i as int].id@
                == id@,
            res is None ==> !listed_from(self.components@, id@, 0),
    {
        let mut i: usize = 0;
        while i < self.components.len()
            invariant
                i <= self.components@.len(),
                forall|j: int| 0 <= j < i ==> (#[trigger] self.components@[j]).id@ != id@,
            decreases self.components@.len() - i,
        {
            if self.components[i].id.data() == id.data() {
                return Some(i);
            }
            i += 1;
        }
        None
    }

    /// Returns the DOM rendered by the component with the given id.
    pub fn get_component_vdom(&self, id: Id) -> (res: Option<&VNode>)
        requires
            unique_components(self.components@),
        ensures
            match res {
                Some(n) => component_dom(self.components@, id@) == Some(*n),
                None => component_dom(self.components@, id@) is None,
            },
    {
        match self.find_component(id) {
            Some(i) => {
                proof {
                    let j = choose|j: int|
                        0 <= j < self.components@.len() && (#[trigger] self.components@[j]).id@
                            == id@;
                    assert(self.components@[i as int].id@ == id@);
                }
                Some(&self.components[i].vdom)
            },
            None => None,
        }
    }

    /// Returns the index of the blob with the given id.
    pub fn find_blob(&self, id: Id) -> (res: Option<usize>)
        ensures
            res matches Some(i) ==> i < self.blobs@.len() && self.blobs@[i as int]@.id == id@,
            res is None ==> forall|j: int|
                0 <= j < self.blobs@.len() ==> (#[trigger] self.blobs@[j])@.id != id@,
    {
        let mut i: usize = 0;
        while i < self.blobs.len()
            invariant
                i <= self.blobs@.len(),
                forall|j: int| 0 <= j < i ==> (#[trigger] self.blobs@[j])@.id != id@,
            decreases self.blobs@.len() - i,
        {
            if self.blobs[i].id().data() == id.data() {
                return Some(i);
            }
            i += 1;
        }
        None
    }
}

/// A render result together with the translations of the node ids it holds to
/// the ids under which the frontend knows these nodes.
#[derive(Debug)]
pub struct Frame {
    pub rendered: RenderResult,
    pub translations: HashMap<u64, u64>,
}

impl Frame {
    /// Creates a frame from a render result and the translations of its ids.
    pub fn new(rendered: RenderResult, translations: HashMap<u64, u64>) -> (res: Frame)
        ensures
            res.rendered == rendered,
            res.translations@ == translations@,
    {
        Frame { rendered, translations }
    }

    /// Creates a frame holding a single DOM and no translation.
    pub fn from_vnode(root: VNode) -> (res: Frame)
        ensures
            res.rendered.root_dom() == root,
            res.rendered.components@ == Seq::<Arc<RenderedComponent>>::empty(),
            res.rendered.blobs@ == Seq::<Blob>::empty(),
            res.translations@ == Map::<u64, u64>::empty(),
    {
        Frame { rendered: RenderResult::from_vnode(root), translations: HashMap::new() }
    }

    /// The id under which the frontend knows the node with the given id.
    pub open spec fn spec_known_as(&self, id: u64) -> u64 {
        if self.translations@.contains_key(id) {
            self.translations@[id]
        } else {
            id
        }
    }

    /// Returns the id under which the frontend knows the node with the given id.
    pub(crate) fn known_as(&self, id: Id) -> (res: Id)
        ensures
            res@ == self.spec_known_as(id@),
    {
        match self.translations.get(&id.data()) {
            Some(v) => Id::new_from_data(*v),
            None => id,
        }
    }
}


/// Another pointer to the value an `Arc` points to (`Clone` of `Arc`): the
/// pointed-to value is the same.
#[verifier::external_body]
fn share<T>(a: &Arc<T>) -> (res: Arc<T>)
    ensures
        res == *a,
{
    a.clone()
}

/// The placeholders of a node, in document order.
pub open spec fn placeholder_ids(n: VNode) -> Seq<Id>
    decreases n,
{
    match n {
        VNode::Element(e) => placeholder_ids_all(e.children@),
        VNode::Text(_) => Seq::empty(),
        VNode::Placeholder(id) => seq![id],
    }
}

/// The placeholders of a list of nodes, in document order.
pub open spec fn placeholder_ids_all(ns: Seq<VNode>) -> Seq<Id>
    decreases ns,
{
    if ns.len() == 0 {
        Seq::empty()
    } else {
        placeholder_ids(ns[0]) + placeholder_ids_all(ns.drop_first())
    }
}

/// Whether an id occurs in a list of ids.
pub open spec fn has_id(s: Seq<Id>, x: u64) -> bool {
    exists|j: int| 0 <= j < s.len() && (#[trigger] s[j])@ == x
}

/// No id occurs twice in the list.
pub open spec fn ids_distinct(s: Seq<Id>) -> bool {
    forall|i: int, j: int| 0 <= i < s.len() && 0 <= j < s.len() && i != j ==> (#[trigger] s[i])@ != (#[trigger] s[j])@
}

/// The placeholders of a list with one more node.
proof fn lemma_placeholder_ids_push(ns: Seq<VNode>, x: VNode)
    ensures
        placeholder_ids_all(ns.push(x)) == placeholder_ids_all(ns) + placeholder_ids(x),
    decreases ns.len(),
{
    if ns.len() == 0 {
        reveal_with_fuel(placeholder_ids_all, 2);
        assert(ns.push(x).drop_first() =~= Seq::<VNode>::empty());
        assert(placeholder_ids_all(ns.push(x)) =~= placeholder_ids(x));
    } else {
        assert(ns.push(x).drop_first() =~= ns.drop_first().push(x));
        lemma_placeholder_ids_push(ns.drop_first(), x);
        assert(placeholder_ids_all(ns.push(x)) =~= placeholder_ids_all(ns) + placeholder_ids(x));
    }
}

/// A node all of whose placeholders are listed from `lo` on is bounded by `lo`.
pub proof fn lemma_bounded_of_ids(comps: Seq<Arc<RenderedComponent>>, n: VNode, lo: int)
    requires
        forall|i: int| 0 <= i < placeholder_ids(n).len() ==> listed_from(comps, #[trigger] placeholder_ids(n)[i]@, lo),
    ensures
        bounded(comps, n, lo),
    decreases n,
{
    match n {
        VNode::Element(e) => {
            assert forall|i: int| 0 <= i < placeholder_ids_all(e.children@).len() implies listed_from(
                comps,
                #[trigger] placeholder_ids_all(e.children@)[i]@,
                lo,
            ) by {
                assert(placeholder_ids(n)[i] == placeholder_ids_all(e.children@)[i]);
            }
            lemma_bounded_all_of_ids(comps, e.children@, lo);
        },
        VNode::Text(_) => {},
        VNode::Placeholder(id) => {
            assert(placeholder_ids(n)[0] == id);
        },
    }
}

/// Nodes all of whose placeholders are listed from `lo` on are bounded by `lo`.
pub proof fn lemma_bounded_all_of_ids(comps: Seq<Arc<RenderedComponent>>, ns: Seq<VNode>, lo: int)
    requires
        forall|i: int| 0 <= i < placeholder_ids_all(ns).len() ==> listed_from(comps, #[trigger] placeholder_ids_all(ns)[i]@, lo),
    ensures
        bounded_all(comps, ns, lo),
    decreases ns,
{
    if ns.len() > 0 {
        let a = placeholder_ids(ns[0]);
        let b = placeholder_ids_all(ns.drop_first());
        assert forall|i: int| 0 <= i < a.len() implies listed_from(comps, #[trigger] a[i]@, lo) by {
            assert(placeholder_ids_all(ns)[i] == a[i]);
        }
        assert forall|i: int| 0 <= i < b.len() implies listed_from(comps, #[trigger] b[i]@, lo) by {
            assert(placeholder_ids_all(ns)[a.len() + i] == b[i]);
        }
        lemma_bounded_of_ids(comps, ns[0], lo);
        lemma_bounded_all_of_ids(comps, ns.drop_first(), lo);
    }
}

/// Listing one more component keeps every component listed.
proof fn lemma_listed_push(comps: Seq<Arc<RenderedComponent>>, c: Arc<RenderedComponent>, x: u64, lo: int)
    requires
        0 <= lo,
        listed_from(comps, x, lo),
    ensures
        listed_from(comps.push(c), x, lo),
{
    let j = choose|j: int| lo <= j < comps.len() && (#[trigger] comps[j]).id@ == x;
    assert(comps.push(c)[j] == comps[j]);
}

/// Appends the placeholders of a node, in document order.
pub fn collect_placeholders(n: &VNode, out: &mut Vec<Id>)
    ensures
        final(out)@ == old(out)@ + placeholder_ids(*n),
    decreases *n, 1nat,
{
    match n {
        VNode::Element(e) => {
            collect_placeholders_all(&e.children, out);
        },
        VNode::Text(_) => {
            assert(out@ =~= old(out)@ + placeholder_ids(*n));
        },
        VNode::Placeholder(id) => {
            out.push(*id);
            assert(out@ =~= old(out)@ + placeholder_ids(*n));
        },
    }
}

/// Appends the placeholders of a list of nodes, in document order.
fn collect_placeholders_all(ns: &Vec<VNode>, out: &mut Vec<Id>)
    ensures
        final(out)@ == old(out)@ + placeholder_ids_all(ns@),
    decreases ns@, 0nat,
{
    let ghost start = out@;
    let mut i: usize = 0;
    assert(ns@.take(0) =~= Seq::<VNode>::empty());
    assert(out@ =~= start + placeholder_ids_all(ns@.take(0)));
    while i < ns.len()
        invariant
            0 <= i <= ns.len(),
            out@ == start + placeholder_ids_all(ns@.take(i as int)),
        decreases ns.len() - i,
    {
        collect_placeholders(&ns[i], out);
        proof {
            assert(ns@.take(i + 1) =~= ns@.take(i as int).push(ns@[i as int]));
            lemma_placeholder_ids_push(ns@.take(i as int), ns@[i as int]);
            assert(out@ =~= start + placeholder_ids_all(ns@.take(i + 1)));
        }
        i = i + 1;
    }
    assert(ns@.take(i as int) =~= ns@);
}

/// The placeholders of a node, in document order.
fn placeholders_of(n: &VNode) -> (res: Vec<Id>)
    ensures
        res@ == placeholder_ids(*n),
{
    let mut out: Vec<Id> = Vec::new();
    collect_placeholders(n, &mut out);
    assert(out@ =~= placeholder_ids(*n));
    out
}

/// Whether the id occurs in the list.
fn contains_id(v: &Vec<Id>, x: Id) -> (res: bool)
    ensures
        res == has_id(v@, x@),
{
    let mut i: usize = 0;
    while i < v.len()
        invariant
            0 <= i <= v.len(),
            forall|j: int| 0 <= j < i ==> (#[trigger] v@[j])@ != x@,
        decreases v.len() - i,
    {
        if v[i].data() == x.data() {
            assert(v@[i as int]@ == x@);
            return true;
        }
        i = i + 1;
    }
    false
}

/// The index of the listed component with the given id.
fn index_of(comps: &Vec<Arc<RenderedComponent>>, x: Id) -> (res: Option<usize>)
    ensures
        res matches Some(k) ==> k < comps@.len() && comps@[k as int].id@ == x@,
        res is None ==> !listed_from(comps@, x@, 0),
{
    let mut i: usize = 0;
    while i < comps.len()
        invariant
            0 <= i <= comps.len(),
            forall|j: int| 0 <= j < i ==> (#[trigger] comps@[j]).id@ != x@,
        decreases comps.len() - i,
    {
        if comps[i].id.data() == x.data() {
            return Some(i);
        }
        i = i + 1;
    }
    None
}

/// The ids of a list, each once, in the order of their first occurrence.
fn distinct_ids(v: &Vec<Id>) -> (res: Vec<Id>)
    ensures
        ids_distinct(res@),
        forall|x: u64| has_id(res@, x) <==> has_id(v@, x),
{
    let mut out: Vec<Id> = Vec::new();
    let mut i: usize = 0;
    while i < v.len()
        invariant
            0 <= i <= v.len(),
            ids_distinct(out@),
            forall|x: u64| has_id(out@, x) <==> has_id(v@.take(i as int), x),
        decreases v.len() - i,
    {
        let x = v[i];
        proof {
            assert forall|y: u64| has_id(v@.take(i + 1), y) <==> (has_id(v@.take(i as int), y) || x@ == y) by {
                if has_id(v@.take(i + 1), y) {
                    let j = choose|j: int| 0 <= j < v@.take(i + 1).len() && (#[trigger] v@.take(i + 1)[j])@ == y;
                    if j < i {
                        assert(v@.take(i as int)[j] == v@.take(i + 1)[j]);
                    }
                }
                if has_id(v@.take(i as int), y) {
                    let j = choose|j: int| 0 <= j < v@.take(i as int).len() && (#[trigger] v@.take(i as int)[j])@ == y;
                    assert(v@.take(i + 1)[j] == v@.take(i as int)[j]);
                }
                if x@ == y {
                    assert(v@.take(i + 1)[i as int] == x);
                }
            }
        }
        let ghost prev = out@;
        let present = contains_id(&out, x);
        if !present {
            let ghost before = out@;
            out.push(x);
            proof {
                assert forall|y: u64| has_id(out@, y) <==> (has_id(before, y) || x@ == y) by {
                    if has_id(out@, y) {
                        let j = choose|j: int| 0 <= j < out@.len() && (#[trigger] out@[j])@ == y;
                        if j < before.len() {
                            assert(before[j] == out@[j]);
                        }
                    }
                    if has_id(before, y) {
                        let j = choose|j: int| 0 <= j < before.len() && (#[trigger] before[j])@ == y;
                        assert(out@[j] == before[j]);
                    }
                    if x@ == y {
                        assert(out@[before.len() as int] == x);
                    }
                }
                assert forall|a: int, b: int| 0 <= a < out@.len() && 0 <= b < out@.len() && a != b implies (#[trigger] out@[a])@ != (#[trigger] out@[b])@ by {
                    if a < before.len() && b < before.len() {
                        assert(out@[a] == before[a] && out@[b] == before[b]);
                    } else if a < before.len() {
                        assert(out@[a] == before[a]);
                    } else if b < before.len() {
                        assert(out@[b] == before[b]);
                    }
                }
            }
        }
        assert forall|y: u64| has_id(out@, y) <==> has_id(v@.take(i + 1), y) by {
            assert(has_id(v@.take(i + 1), y) <==> (has_id(v@.take(i as int), y) || x@ == y));
            assert(has_id(prev, y) <==> has_id(v@.take(i as int), y));
            if present {
                assert(out@ == prev);
                assert(has_id(prev, x@));
            } else {
                assert(has_id(out@, y) <==> (has_id(prev, y) || x@ == y));
            }
        }
        i = i + 1;
    }
    assert(v@.take(i as int) =~= v@);
    out
}

/// Adds blobs, one after the other: a blob replaces a listed blob with the
/// same id, else it is appended. Ids stay unique.
fn merge_blobs(blobs: &mut Vec<Blob>, added: Vec<Blob>)
    requires
        unique_blobs(old(blobs)@),
    ensures
        unique_blobs(final(blobs)@),
        forall|j: int| 0 <= j < added@.len() ==> has_blob(final(blobs)@, (#[trigger] added@[j])@.id),
        forall|j: int| 0 <= j < old(blobs)@.len() ==> has_blob(final(blobs)@, (#[trigger] old(blobs)@[j])@.id),
        forall|j: int| 0 <= j < final(blobs)@.len() ==> has_blob(old(blobs)@, (#[trigger] final(blobs)@[j])@.id)
            || has_blob(added@, final(blobs)@[j]@.id),
{
    let ghost orig = added@;
    let ghost start = blobs@;
    let mut added = added;
    let mut done: usize = 0;
    let n0 = added.len();
    while added.len() > 0
        invariant
            orig.len() == n0,
            unique_blobs(blobs@),
            done + added@.len() == orig.len(),
            added@ == orig.skip(done as int),
            forall|j: int| 0 <= j < done ==> has_blob(blobs@, (#[trigger] orig[j])@.id),
            forall|j: int| 0 <= j < start.len() ==> has_blob(blobs@, (#[trigger] start[j])@.id),
            forall|j: int| 0 <= j < blobs@.len() ==> has_blob(start, (#[trigger] blobs@[j])@.id)
                || has_blob(orig, blobs@[j]@.id),
        decreases added@.len(),
    {
        let b = added.remove(0);
        assert(b == orig[done as int]);
        let ghost before = blobs@;
        let mut k: usize = 0;
        while k < blobs.len() && blobs[k].id().data() != b.id().data()
            invariant
                0 <= k <= blobs.len(),
                blobs@ == before,
                forall|j: int| 0 <= j < k ==> (#[trigger] blobs@[j])@.id != b@.id,
            decreases blobs.len() - k,
        {
            k = k + 1;
        }
        let found = k < blobs.len();
        if found {
            blobs.remove(k);
        }
        let ghost mid = blobs@;
        blobs.push(b);
        proof {
            // every id listed before is still listed
            assert forall|x: u64| has_blob(before, x) implies has_blob(blobs@, x) by {
                let j = choose|j: int| 0 <= j < before.len() && (#[trigger] before[j])@.id == x;
                if found && j == k {
                    assert(blobs@[blobs@.len() - 1]@.id == x);
                } else if found && j > k {
                    assert(blobs@[j - 1] == before[j]);
                } else {
                    assert(blobs@[j] == before[j]);
                }
            }
            assert(has_blob(blobs@, b@.id)) by {
                assert(blobs@[blobs@.len() - 1] == b);
            }
            assert forall|i: int, j: int|
                0 <= i < blobs@.len() && 0 <= j < blobs@.len() && i != j implies (#[trigger] blobs@[i])@.id
                != (#[trigger] blobs@[j])@.id by {
                let n = mid.len();
                assert forall|a: int| 0 <= a < n implies (#[trigger] mid[a])@.id != b@.id by {
                    if found {
                        if a < k {
                            assert(mid[a] == before[a]);
                        } else {
                            assert(mid[a] == before[a + 1]);
                            assert(before[a + 1]@.id != before[k as int]@.id);
                        }
                    } else {
                        assert(mid[a] == before[a]);
                    }
                }
                assert forall|a: int, c: int| 0 <= a < n && 0 <= c < n && a != c implies (#[trigger] mid[a])@.id != (#[trigger] mid[c])@.id by {
                    if found {
                        let a2 = if a < k { a } else { a + 1 };
                        let c2 = if c < k { c } else { c + 1 };
                        assert(mid[a] == before[a2]);
                        assert(mid[c] == before[c2]);
                    } else {
                        assert(mid[a] == before[a]);
                        assert(mid[c] == before[c]);
                    }
                }
                if i < n && j < n {
                    assert(blobs@[i] == mid[i] && blobs@[j] == mid[j]);
                } else if i < n {
                    assert(blobs@[i] == mid[i]);
                } else if j < n {
                    assert(blobs@[j] == mid[j]);
                }
            }
            assert forall|i: int| 0 <= i < blobs@.len() implies has_blob(start, (#[trigger] blobs@[i])@.id)
                || has_blob(orig, blobs@[i]@.id) by {
                if i < mid.len() {
                    assert(blobs@[i] == mid[i]);
                    if found && i >= k {
                        assert(mid[i] == before[i + 1]);
                    } else {
                        assert(mid[i] == before[i]);
                    }
                } else {
                    assert(blobs@[i] == b);
                    assert(orig[done as int] == b);
                }
            }
            assert(added@ =~= orig.skip(done + 1));
        }
        done = done + 1;
    }
}


/// The ids of a list of blobs.
fn blob_ids(blobs: &Vec<Blob>) -> (res: Vec<Id>)
    ensures
        res@.len() == blobs@.len(),
        forall|j: int| 0 <= j < blobs@.len() ==> (#[trigger] res@[j])@ == blobs@[j]@.id,
{
    let mut out: Vec<Id> = Vec::new();
    let mut i: usize = 0;
    while i < blobs.len()
        invariant
            0 <= i <= blobs.len(),
            out@.len() == i,
            forall|j: int| 0 <= j < i ==> (#[trigger] out@[j])@ == blobs@[j]@.id,
        decreases blobs.len() - i,
    {
        out.push(blobs[i].id());
        i = i + 1;
    }
    out
}

impl RenderedComponent {
    /// The rendered state of the component with the given id, from what its
    /// render yielded: its DOM, the components it mounts (the placeholders of
    /// its DOM, in order), its listeners, event subscriptions and rpc handlers,
    /// and the ids of its blobs, which are returned beside it.
    pub fn from_tree(id: Id, tree: RenderedTree) -> (res: (RenderedComponent, Vec<Blob>))
        ensures
            res.0.id == id,
            res.0.vdom == tree.vdom,
            res.0.children@ == placeholder_ids(tree.vdom),
            res.0.listeners == tree.listeners,
            res.0.subscriptions == tree.subscriptions,
            res.0.rpcs == tree.rpcs,
            res.1 == tree.blobs,
            res.0.blobs@.len() == res.1@.len(),
            forall|j: int| 0 <= j < res.1@.len() ==> (#[trigger] res.0.blobs@[j])@ == res.1@[j]@.id,
    {
        let children = placeholders_of(&tree.vdom);
        let blobs = blob_ids(&tree.blobs);
        (
            RenderedComponent {
                id,
                vdom: tree.vdom,
                children,
                listeners: tree.listeners,
                subscriptions: tree.subscriptions,
                blobs,
                rpcs: tree.rpcs,
            },
            tree.blobs,
        )
    }

    /// The rendered state of the component with the given id from the node
    /// its render produced: the node is rendered (see `render_node`) and the
    /// state taken from the result (see `from_tree`). Refuses (`Err`, with the
    /// node) a node that does not render to exactly one DOM node.
    pub fn from_node(id: Id, node: Node) -> (res: Result<(RenderedComponent, Vec<Blob>), Node>)
        ensures
            res is Err <==> node_width(node) != 1,
            res matches Err(n) ==> n == node,
            res matches Ok((c, bs)) ==> {
                &&& c.id == id
                &&& rendered_as(node, seq![c.vdom])
                &&& c.children@ == placeholder_ids(c.vdom)
                &&& c.listeners@ == node_registered(node).listeners
                &&& c.subscriptions@ == node_registered(node).subscriptions
                &&& c.rpcs@ == node_registered(node).rpcs
                &&& bs@ == node_registered(node).blobs
                &&& c.blobs@.len() == bs@.len()
                &&& forall|j: int| 0 <= j < bs@.len() ==> (#[trigger] c.blobs@[j])@ == bs@[j]@.id
            },
    {
        if width_of(&node) != 1 {
            return Err(node);
        }
        match render_node(node) {
            Some(tree) => Ok(RenderedComponent::from_tree(id, tree)),
            None => Err(Node::Text(String::new())),
        }
    }

    /// Renders the component with the given id (its `render()`, then
    /// `from_node`).
    pub fn new<R: ComponentRenderer>(id: Id, renderer: &mut R) -> (res: Result<(RenderedComponent, Vec<Blob>), Node>)
        ensures
            res matches Err(n) ==> node_width(n) != 1,
            res matches Ok((c, bs)) ==> {
                &&& c.id == id
                &&& c.children@ == placeholder_ids(c.vdom)
                &&& c.blobs@.len() == bs@.len()
                &&& forall|j: int| 0 <= j < bs@.len() ==> (#[trigger] c.blobs@[j])@ == bs@[j]@.id
            },
    {
        let node = renderer.render_component(id);
        RenderedComponent::from_node(id, node)
    }
}

/// A component of a new render reuses the render of the old one unless it
/// changed: its whole rendered state is that of the old render.
pub open spec fn reused_unless_changed(
    old: Seq<Arc<RenderedComponent>>,
    changed: Seq<Id>,
    c: Arc<RenderedComponent>,
) -> bool {
    (!has_id(changed, c.id@) && listed_from(old, c.id@, 0)) ==> c == old[component_index(
        old,
        c.id@,
    ).unwrap()]
}

/// Whether the root, or one of the first `lim` components, mounts the
/// component with the given id.
#[verifier::opaque]
pub open spec fn mounted_before(comps: Seq<Arc<RenderedComponent>>, root: VNode, x: u64, lim: int) -> bool {
    has_id(placeholder_ids(root), x) || exists|j: int|
        0 <= j < lim && #[trigger] has_id(placeholder_ids(comps[j].vdom), x)
}

/// Every listed component is mounted: by the root, or by a component listed
/// before it.
pub open spec fn all_mounted(comps: Seq<Arc<RenderedComponent>>, root: VNode) -> bool {
    forall|k: int| 0 <= k < comps.len() ==> mounted_before(comps, root, (#[trigger] comps[k]).id@, k)
}

/// Whether one of the first `lim` components mounts `x` holds alike in a
/// list that starts with the same components.
proof fn lemma_mounted_prefix(
    comps: Seq<Arc<RenderedComponent>>,
    more: Seq<Arc<RenderedComponent>>,
    root: VNode,
    x: u64,
    lim: int,
    lim2: int,
)
    requires
        mounted_before(comps, root, x, lim),
        0 <= lim <= lim2,
        lim <= comps.len(),
        lim <= more.len(),
        forall|j: int| 0 <= j < lim ==> more[j] == comps[j],
    ensures
        mounted_before(more, root, x, lim2),
{
    reveal(mounted_before);
    if !has_id(placeholder_ids(root), x) {
        let j = choose|j: int| 0 <= j < lim && #[trigger] has_id(placeholder_ids(comps[j].vdom), x);
        assert(more[j] == comps[j]);
        assert(has_id(placeholder_ids(more[j].vdom), x));
    }
}

/// Whether one of the components registered a blob with the given id.
pub open spec fn blob_registered(comps: Seq<Arc<RenderedComponent>>, x: u64) -> bool {
    exists|k: int| 0 <= k < comps.len() && #[trigger] has_id(comps[k].blobs@, x)
}

/// The value an `Arc` points to.
pub open spec fn pointee<T>(a: &Arc<T>) -> T {
    **a
}

/// Whether the DOM mounts the component with the given id.
pub open spec fn mounts(t: VNode, x: u64) -> bool {
    has_id(placeholder_ids(t), x)
}

/// The components form a forest under the root: no component is mounted by
/// two of the trees (the root's DOM and the DOMs of the components), and no
/// component mounts itself.
#[verifier::opaque]
pub open spec fn forest(root: VNode, comps: Seq<Arc<RenderedComponent>>) -> bool {
    &&& forall|k: int, x: u64| 0 <= k < comps.len() && #[trigger] mounts(comps[k].vdom, x) ==> !mounts(root, x)
    &&& forall|i: int, j: int, x: u64|
        0 <= i < comps.len() && 0 <= j < comps.len() && i != j && #[trigger] mounts(comps[i].vdom, x)
            ==> !#[trigger] mounts(comps[j].vdom, x)
    &&& forall|k: int| 0 <= k < comps.len() ==> !mounts((#[trigger] comps[k]).vdom, comps[k].id@)
}

/// Why a render was refused.
#[derive(Debug)]
pub enum RenderRefusal {
    /// The root's node does not render to exactly one DOM node.
    RootNotOneNode,
    /// The render of the component with the given id, the node given here,
    /// does not render to exactly one DOM node. The component is mounted under
    /// the given root DOM by the root or one of the components rendered so far,
    /// which are given too.
    ComponentNotOneNode(Id, Node, Arc<VNode>, Vec<Arc<RenderedComponent>>),
    /// The components rendered so far, under the given root DOM, do not form
    /// a forest: a component is mounted in two places, or inside itself.
    MountConflict(Arc<VNode>, Vec<Arc<RenderedComponent>>),
    /// More components than a vector can hold.
    TooManyComponents,
}

/// What a refusal of the component render under the given root shows.
pub open spec fn refusal_explained(e: RenderRefusal, root: VNode) -> bool {
    match e {
        RenderRefusal::RootNotOneNode => false,
        RenderRefusal::ComponentNotOneNode(id, n, r, rs) => {
            &&& node_width(n) != 1
            &&& *r == root
            &&& forest(root, rs@)
            &&& all_mounted(rs@, root)
            &&& unique_components(rs@)
            &&& mounted_before(rs@, root, id@, rs@.len() as int)
            &&& !listed_from(rs@, id@, 0)
        },
        RenderRefusal::MountConflict(r, rs) => {
            &&& *r == root
            &&& !forest(root, rs@)
            &&& all_mounted(rs@, root)
            &&& unique_components(rs@)
        },
        RenderRefusal::TooManyComponents => true,
    }
}

/// What a refusal of the render of a whole tree under the root node shows:
/// the root node does not render to one DOM node, or the refusal is explained
/// under the DOM the root node renders to.
pub open spec fn root_refusal_explained(e: RenderRefusal, root: Node) -> bool {
    match e {
        RenderRefusal::RootNotOneNode => node_width(root) != 1,
        RenderRefusal::MountConflict(r, _) => node_width(root) == 1 && rendered_as(root, seq![*r]) && refusal_explained(e, *r),
        RenderRefusal::ComponentNotOneNode(_, _, r, _) => node_width(root) == 1 && rendered_as(root, seq![*r]) && refusal_explained(e, *r),
        RenderRefusal::TooManyComponents => node_width(root) == 1,
    }
}

/// Listing a component that mounts `x`, where `x` is that component itself, or
/// is listed, or is mounted by the root or a listed component, breaks the forest.
proof fn lemma_conflict(comps: Seq<Arc<RenderedComponent>>, root: VNode, c: Arc<RenderedComponent>, x: u64)
    requires
        all_mounted(comps, root),
        unique_components(comps),
        !listed_from(comps, c.id@, 0),
        mounted_before(comps, root, c.id@, comps.len() as int),
        mounts(c.vdom, x),
        x == c.id@ || listed_from(comps, x, 0) || mounted_before(comps, root, x, comps.len() as int),
    ensures
        !forest(root, comps.push(c)),
        all_mounted(comps.push(c), root),
        unique_components(comps.push(c)),
{
    reveal(mounted_before);
    reveal(forest);
    let rs = comps.push(c);
    let n = comps.len() as int;
    assert(rs[n] == c);
    assert forall|k: int| 0 <= k < rs.len() implies mounted_before(rs, root, (#[trigger] rs[k]).id@, k) by {
        if k < n {
            assert(rs[k] == comps[k]);
            lemma_mounted_prefix(comps, rs, root, comps[k].id@, k, k);
        } else {
            lemma_mounted_prefix(comps, rs, root, c.id@, n, n);
        }
    }
    assert forall|i: int, j: int| 0 <= i < rs.len() && 0 <= j < rs.len() && i != j implies (#[trigger] rs[i]).id@ != (#[trigger] rs[j]).id@ by {
        if i < n && j < n {
            assert(rs[i] == comps[i] && rs[j] == comps[j]);
        } else if i < n {
            assert(rs[i] == comps[i]);
        } else if j < n {
            assert(rs[j] == comps[j]);
        }
    }
    if x == c.id@ {
        assert(mounts(rs[n].vdom, rs[n].id@));
    } else {
        let lim = if listed_from(comps, x, 0) {
            let i = choose|i: int| 0 <= i < comps.len() && (#[trigger] comps[i]).id@ == x;
            assert(mounted_before(comps, root, comps[i].id@, i));
            i
        } else {
            n
        };
        assert(mounted_before(comps, root, x, lim));
        if mounts(root, x) {
            assert(mounts(rs[n].vdom, x));
        } else {
            let j = choose|j: int| 0 <= j < lim && #[trigger] has_id(placeholder_ids(comps[j].vdom), x);
            assert(rs[j] == comps[j]);
            assert(mounts(rs[j].vdom, x));
            assert(mounts(rs[n].vdom, x));
        }
    }
}

/// Listing a component whose placeholders are neither listed nor pending nor
/// itself keeps the forest.
proof fn lemma_forest_push(comps: Seq<Arc<RenderedComponent>>, root: VNode, c: Arc<RenderedComponent>, pend: Seq<Id>)
    requires
        forest(root, comps),
        forall|x: u64| #[trigger] mounted_before(comps, root, x, comps.len() as int) ==> listed_from(comps, x, 0)
            || has_id(pend.push(c.id), x),
        forall|x: u64| #[trigger] has_id(placeholder_ids(c.vdom), x) ==> !listed_from(comps, x, 0) && !has_id(pend, x) && x != c.id@,
    ensures
        forest(root, comps.push(c)),
{
    reveal(mounted_before);
    reveal(forest);
    let rs = comps.push(c);
    let n = comps.len() as int;
    assert(rs[n] == c);
    assert forall|x: u64| mounts(c.vdom, x) implies !mounted_before(comps, root, x, n) by {
        if mounted_before(comps, root, x, n) {
            lemma_has_id_push(pend, c.id, x);
        }
    }
    assert forall|k: int, x: u64| 0 <= k < rs.len() && #[trigger] mounts(rs[k].vdom, x) implies !mounts(root, x) by {
        if k < n {
            assert(rs[k] == comps[k]);
        }
    }
    assert forall|i: int, j: int, x: u64|
        0 <= i < rs.len() && 0 <= j < rs.len() && i != j && #[trigger] mounts(rs[i].vdom, x)
            implies !#[trigger] mounts(rs[j].vdom, x) by {
        if i < n && j < n {
            assert(rs[i] == comps[i] && rs[j] == comps[j]);
        } else if i < n {
            assert(rs[i] == comps[i]);
            assert(has_id(placeholder_ids(comps[i].vdom), x));
        } else if j < n {
            assert(rs[j] == comps[j]);
            if mounts(rs[j].vdom, x) {
                assert(has_id(placeholder_ids(comps[j].vdom), x));
            }
        }
    }
    assert forall|k: int| 0 <= k < rs.len() implies !mounts((#[trigger] rs[k]).vdom, rs[k].id@) by {
        if k < n {
            assert(rs[k] == comps[k]);
        } else {
            assert(!has_id(placeholder_ids(c.vdom), c.id@));
        }
    }
}

/// Whatever the listed trees mount stays listed or pending when a component
/// leaves the pending ones for the list and its placeholders become pending.
proof fn lemma_mounted_listed_or_pending(
    comps: Seq<Arc<RenderedComponent>>,
    root: VNode,
    c: Arc<RenderedComponent>,
    pend: Seq<Id>,
    pending: Seq<Id>,
)
    requires
        forall|x: u64| #[trigger] mounted_before(comps, root, x, comps.len() as int) ==> listed_from(comps, x, 0)
            || has_id(pend.push(c.id), x),
        forall|x: u64| #[trigger] has_id(placeholder_ids(c.vdom), x) ==> has_id(pending, x),
        forall|x: u64| #[trigger] has_id(pend, x) ==> has_id(pending, x),
    ensures
        forall|x: u64| #[trigger] mounted_before(comps.push(c), root, x, (comps.len() + 1) as int) ==> listed_from(comps.push(c), x, 0)
            || has_id(pending, x),
{
    reveal(mounted_before);
    let rs = comps.push(c);
    let n = comps.len() as int;
    assert(rs[n] == c);
    assert forall|x: u64| #[trigger] mounted_before(rs, root, x, n + 1) implies listed_from(rs, x, 0) || has_id(pending, x) by {
        let inner = has_id(placeholder_ids(root), x) || exists|j: int| 0 <= j < n && #[trigger] has_id(placeholder_ids(comps[j].vdom), x);
        if inner {
            if !has_id(placeholder_ids(root), x) {
                let j = choose|j: int| 0 <= j < n && #[trigger] has_id(placeholder_ids(comps[j].vdom), x);
            }
            assert(mounted_before(comps, root, x, n));
            lemma_has_id_push(pend, c.id, x);
            if listed_from(comps, x, 0) {
                lemma_listed_push(comps, c, x, 0);
            } else if x == c.id@ {
                assert(rs[n].id@ == x);
            }
        } else {
            let j = choose|j: int| 0 <= j < n + 1 && #[trigger] has_id(placeholder_ids(rs[j].vdom), x);
            if j < n {
                assert(rs[j] == comps[j]);
                assert(has_id(placeholder_ids(comps[j].vdom), x));
                assert(false);
            }
        }
    }
}

/// What the render cycle is given of a previous render: its result and the
/// ids of the components that changed since.
#[derive(Clone, Copy)]
struct PreviousRender<'a> {
    pub result: &'a RenderResult,
    pub changed: &'a Vec<Id>,
}

/// An id occurs in a list with one more id exactly when it occurs in the
/// list or is that id.
proof fn lemma_has_id_push(s: Seq<Id>, y: Id, x: u64)
    ensures
        has_id(s.push(y), x) <==> (has_id(s, x) || y@ == x),
{
    if has_id(s.push(y), x) {
        let j = choose|j: int| 0 <= j < s.push(y).len() && (#[trigger] s.push(y)[j])@ == x;
        if j < s.len() {
            assert(s[j] == s.push(y)[j]);
        }
    }
    if has_id(s, x) {
        let j = choose|j: int| 0 <= j < s.len() && (#[trigger] s[j])@ == x;
        assert(s.push(y)[j] == s[j]);
    }
    if y@ == x {
        assert(s.push(y)[s.len() as int] == y);
    }
}

/// A component is listed from `lo` on in a list with one more component
/// exactly when it is listed there before, or is that component.
proof fn lemma_listed_push_iff(
    comps: Seq<Arc<RenderedComponent>>,
    c: Arc<RenderedComponent>,
    x: u64,
    lo: int,
)
    requires
        0 <= lo <= comps.len(),
    ensures
        listed_from(comps.push(c), x, lo) <==> (listed_from(comps, x, lo) || c.id@ == x),
{
    if listed_from(comps.push(c), x, lo) {
        let j = choose|j: int| lo <= j < comps.push(c).len() && (#[trigger] comps.push(c)[j]).id@ == x;
        if j < comps.len() {
            assert(comps[j] == comps.push(c)[j]);
        }
    }
    if listed_from(comps, x, lo) {
        lemma_listed_push(comps, c, x, lo);
    }
    if c.id@ == x {
        assert(comps.push(c)[comps.len() as int] == c);
    }
}

/// Renders a component anew.
fn render_new<R: ComponentRenderer>(p: Id, renderer: &mut R) -> (res: Result<(Arc<RenderedComponent>, Vec<Blob>), Node>)
    ensures
        res matches Err(n) ==> node_width(n) != 1,
        res matches Ok((c, bs)) ==> {
            &&& c.id == p
            &&& c.blobs@.len() == bs@.len()
            &&& forall|j: int| 0 <= j < bs@.len() ==> (#[trigger] c.blobs@[j])@ == bs@[j]@.id
        },
{
    match RenderedComponent::new(p, renderer) {
        Ok((rendered, blobs)) => Ok((Arc::new(rendered), blobs)),
        Err(n) => Err(n),
    }
}

/// The blobs of a previous render with the given ids: those a component or
/// the root taken over registered.
fn blobs_of(prev: &RenderResult, ids: &Vec<Id>) -> (res: Vec<Blob>)
    ensures
        forall|j: int| 0 <= j < ids@.len() && has_blob(prev.blobs@, (#[trigger] ids@[j])@)
            ==> has_blob(res@, ids@[j]@),
        forall|k: int| 0 <= k < res@.len() ==> has_blob(prev.blobs@, (#[trigger] res@[k])@.id),
        forall|k: int| 0 <= k < res@.len() ==> has_id(ids@, (#[trigger] res@[k])@.id),
{
    let mut out: Vec<Blob> = Vec::new();
    let mut b: usize = 0;
    while b < ids.len()
        invariant
            0 <= b <= ids.len(),
            forall|j: int| 0 <= j < b && has_blob(prev.blobs@, (#[trigger] ids@[j])@)
                ==> has_blob(out@, ids@[j]@),
            forall|k: int| 0 <= k < out@.len() ==> has_blob(prev.blobs@, (#[trigger] out@[k])@.id),
            forall|k: int| 0 <= k < out@.len() ==> has_id(ids@, (#[trigger] out@[k])@.id),
        decreases ids.len() - b,
    {
        let ghost before = out@;
        match prev.find_blob(ids[b]) {
            Some(bi) => {
                let blob = prev.blobs[bi].clone();
                out.push(blob);
                proof {
                    assert(out@[before.len() as int] == blob);
                    assert forall|j: int| 0 <= j <= b && has_blob(prev.blobs@, (#[trigger] ids@[j])@)
                        implies has_blob(out@, ids@[j]@) by {
                        if j < b {
                            let t = choose|t: int| 0 <= t < before.len() && (#[trigger] before[t])@.id == ids@[j]@;
                            assert(out@[t] == before[t]);
                        }
                    }
                    assert forall|k: int| 0 <= k < out@.len() implies has_id(ids@, (#[trigger] out@[k])@.id) by {
                        if k < before.len() {
                            assert(out@[k] == before[k]);
                        } else {
                            assert(ids@[b as int]@ == out@[k]@.id);
                        }
                    }
                    assert forall|k: int| 0 <= k < out@.len() implies has_blob(prev.blobs@, (#[trigger] out@[k])@.id) by {
                        if k < before.len() {
                            assert(out@[k] == before[k]);
                        } else {
                            assert(prev.blobs@[bi as int]@.id == out@[k]@.id);
                        }
                    }
                }
            },
            None => {
                proof {
                    assert forall|j: int| 0 <= j <= b && has_blob(prev.blobs@, (#[trigger] ids@[j])@)
                        implies has_blob(out@, ids@[j]@) by {
                        if j == b {
                            let t = choose|t: int| 0 <= t < prev.blobs@.len() && (#[trigger] prev.blobs@[t])@.id == ids@[j]@;
                            assert(false);
                        }
                    }
                }
            },
        }
        b = b + 1;
    }
    out
}

/// Renders the components mounted from `root`, starting from those in
/// `pending`, each once, parents before children. A component of the previous
/// render that did not change is taken over as it was; the others are
/// rendered. Refuses (`None`) a component mounted where it is already
/// rendered: mounted in its own subtree, or again after it was rendered.
#[verifier::rlimit(100)]
#[verifier::spinoff_prover]
fn render_components<R: ComponentRenderer>(
    root_arc: Arc<VNode>,
    start: Vec<Id>,
    blobs: Vec<Blob>,
    renderer: &mut R,
    previous: Option<PreviousRender>,
) -> (res: Result<(Vec<Arc<RenderedComponent>>, Vec<Blob>), RenderRefusal>)
    requires
        ids_distinct(start@),
        forall|i: int| 0 <= i < placeholder_ids(*root_arc).len() ==> has_id(start@, #[trigger] placeholder_ids(*root_arc)[i]@),
        forall|j: int| 0 <= j < start@.len() ==> has_id(placeholder_ids(*root_arc), (#[trigger] start@[j])@),
        unique_blobs(blobs@),
        previous matches Some(pr) ==> unique_components(pr.result.components@),
    ensures
        start@.len() == 0 ==> res is Ok,
        res matches Err(e) ==> refusal_explained(e, *root_arc),
        res matches Ok((comps, bs)) ==> {
            &&& unique_components(comps@)
            &&& all_mounted(comps@, *root_arc)
            &&& forest(*root_arc, comps@)
            &&& unique_blobs(bs@)
            &&& bounded(comps@, *root_arc, 0)
            &&& forall|k: int| 0 <= k < comps@.len() ==> bounded(comps@, (#[trigger] comps@[k]).vdom, k + 1)
            &&& forall|j: int| 0 <= j < blobs@.len() ==> has_blob(bs@, (#[trigger] blobs@[j])@.id)
            &&& forall|i: int| 0 <= i < bs@.len() ==> has_blob(blobs@, (#[trigger] bs@[i])@.id)
                || blob_registered(comps@, bs@[i]@.id)
            &&& forall|k: int, j: int| 0 <= k < comps@.len() && 0 <= j < comps@[k].blobs@.len() && (
                previous matches Some(pr) ==> (!has_id(pr.changed@, comps@[k].id@) && listed_from(pr.result.components@, comps@[k].id@, 0)
                    ==> has_blob(pr.result.blobs@, (#[trigger] comps@[k].blobs@[j])@)))
                ==> has_blob(bs@, comps@[k].blobs@[j]@)
            &&& previous matches Some(pr) ==> forall|k: int| 0 <= k < comps@.len() ==> reused_unless_changed(
                pr.result.components@,
                pr.changed@,
                #[trigger] comps@[k],
            )
        },
{
    let ghost root = pointee(&root_arc);
    let ghost blobs0 = blobs@;
    let ghost p_in = start@;
    let mut pending = start;
    let mut blobs = blobs;
    let mut comps: Vec<Arc<RenderedComponent>> = Vec::new();
    proof {
        reveal(forest);
        reveal(mounted_before);
        assert forall|x: u64| #[trigger] mounted_before(comps@, root, x, comps@.len() as int) implies listed_from(comps@, x, 0)
            || has_id(pending@, x) by {
            let i = choose|i: int| 0 <= i < placeholder_ids(root).len() && (#[trigger] placeholder_ids(root)[i])@ == x;
        }
        assert forall|j: int| 0 <= j < pending@.len() implies mounted_before(comps@, root, (#[trigger] pending@[j])@, comps@.len() as int) by {
        }
    }
    while pending.len() > 0
        invariant
            p_in == start@,
            p_in.len() == 0 ==> pending@.len() == 0,
            unique_components(comps@),
            root == *root_arc,
            all_mounted(comps@, root),
            forest(root, comps@),
            forall|x: u64| #[trigger] mounted_before(comps@, root, x, comps@.len() as int) ==> listed_from(comps@, x, 0)
                || has_id(pending@, x),
            forall|j: int| 0 <= j < pending@.len() ==> mounted_before(comps@, root, (#[trigger] pending@[j])@, comps@.len() as int),
            ids_distinct(pending@),
            forall|j: int| 0 <= j < pending@.len() ==> !listed_from(comps@, (#[trigger] pending@[j])@, 0),
            forall|i: int| 0 <= i < placeholder_ids(root).len() ==> listed_from(comps@, #[trigger] placeholder_ids(root)[i]@, 0)
                || has_id(pending@, placeholder_ids(root)[i]@),
            forall|k: int, i: int| 0 <= k < comps@.len() && 0 <= i < placeholder_ids(comps@[k].vdom).len()
                ==> listed_from(comps@, #[trigger] placeholder_ids(comps@[k].vdom)[i]@, k + 1)
                || has_id(pending@, placeholder_ids(comps@[k].vdom)[i]@),
            unique_blobs(blobs@),
            forall|j: int| 0 <= j < blobs0.len() ==> has_blob(blobs@, (#[trigger] blobs0[j])@.id),
            forall|i: int| 0 <= i < blobs@.len() ==> has_blob(blobs0, (#[trigger] blobs@[i])@.id)
                || blob_registered(comps@, blobs@[i]@.id),
            forall|k: int, j: int| 0 <= k < comps@.len() && 0 <= j < comps@[k].blobs@.len() && (
                previous matches Some(pr) ==> (!has_id(pr.changed@, comps@[k].id@) && listed_from(pr.result.components@, comps@[k].id@, 0)
                    ==> has_blob(pr.result.blobs@, (#[trigger] comps@[k].blobs@[j])@)))
                ==> has_blob(blobs@, comps@[k].blobs@[j]@),
            previous matches Some(pr) ==> unique_components(pr.result.components@),
            previous matches Some(pr) ==> forall|k: int| 0 <= k < comps@.len() ==> reused_unless_changed(
                pr.result.components@,
                pr.changed@,
                #[trigger] comps@[k],
            ),
        decreases usize::MAX - comps@.len(),
    {
        if comps.len() == usize::MAX {
            return Err(RenderRefusal::TooManyComponents);
        }
        let ghost comps_head = comps@;
        let ghost pend0 = pending@;
        let p = pending.pop().unwrap();
        let ghost pend1 = pending@;
        assert(pend0 =~= pend1.push(p));
        assert(!listed_from(comps@, p@, 0)) by {
            assert(pend0[pend1.len() as int] == p);
        }
        assert forall|j: int| 0 <= j < pend1.len() implies (#[trigger] pend1[j])@ != p@ by {
            assert(pend0[j] == pend1[j]);
            assert(pend0[pend1.len() as int] == p);
        }
        assert forall|j: int| 0 <= j < pend1.len() implies mounted_before(comps@, root, (#[trigger] pend1[j])@, comps@.len() as int) by {
            assert(pend0[j] == pend1[j]);
        }
        assert(mounted_before(comps@, root, p@, comps@.len() as int)) by {
            assert(pend0[pend1.len() as int] == p);
        }
        assert(forall|x: u64| #[trigger] mounted_before(comps@, root, x, comps@.len() as int) ==> listed_from(comps@, x, 0)
            || has_id(pend0, x));
        // the component: taken over from the previous render, or rendered
        let rendered = match &previous {
            Some(prev) => {
                if !contains_id(prev.changed, p) {
                    match index_of(&prev.result.components, p) {
                        Some(k) => {
                            let rc = share(&prev.result.components[k]);
                            let cb = blobs_of(prev.result, &rc.blobs);
                            proof {
                                let old = prev.result.components@;
                                assert(listed_from(old, p@, 0)) by {
                                    assert(old[k as int].id@ == p@);
                                }
                                let kk = component_index(old, p@).unwrap();
                                assert(old[kk].id@ == p@);
                                assert(kk == k);
                                assert(reused_unless_changed(old, prev.changed@, rc));
                            }
                            Ok((rc, cb))
                        },
                        None => render_new(p, renderer),
                    }
                } else {
                    render_new(p, renderer)
                }
            },
            None => render_new(p, renderer),
        };
        let (c, cblobs) = match rendered {
            Ok(r) => r,
            Err(node) => {
                return Err(RenderRefusal::ComponentNotOneNode(p, node, root_arc, comps));
            },
        };
        proof {
            if let Some(pr) = previous {
                if has_id(pr.changed@, p@) || !listed_from(pr.result.components@, p@, 0) {
                    assert(reused_unless_changed(pr.result.components@, pr.changed@, c));
                }
            }
        }
        assert(c.id@ == p@);
        // the blobs it brings are those it registered
        assert(forall|j: int| 0 <= j < c.blobs@.len() && (previous matches Some(pr) ==> (!has_id(pr.changed@, c.id@) && listed_from(pr.result.components@, c.id@, 0)
                ==> has_blob(pr.result.blobs@, (#[trigger] c.blobs@[j])@)))
            ==> has_blob(cblobs@, c.blobs@[j]@)) by {
            assert forall|j: int| 0 <= j < c.blobs@.len() && (previous matches Some(pr) ==> (!has_id(pr.changed@, c.id@) && listed_from(pr.result.components@, c.id@, 0)
                ==> has_blob(pr.result.blobs@, (#[trigger] c.blobs@[j])@)))
                implies has_blob(cblobs@, c.blobs@[j]@) by {
                if c.blobs@.len() == cblobs@.len() && (forall|i: int| 0 <= i < cblobs@.len() ==> (#[trigger] c.blobs@[i])@ == cblobs@[i]@.id) {
                    assert(c.blobs@[j]@ == cblobs@[j]@.id);
                }
            }
        }
        assert(forall|i: int| 0 <= i < cblobs@.len() ==> has_id(c.blobs@, (#[trigger] cblobs@[i])@.id)) by {
            assert forall|i: int| 0 <= i < cblobs@.len() implies has_id(c.blobs@, (#[trigger] cblobs@[i])@.id) by {
                if c.blobs@.len() == cblobs@.len() && (forall|j: int| 0 <= j < cblobs@.len() ==> (#[trigger] c.blobs@[j])@ == cblobs@[j]@.id) {
                    assert(c.blobs@[i]@ == cblobs@[i]@.id);
                }
            }
        }
        let ph = placeholders_of(&c.vdom);
        let kids = distinct_ids(&ph);
        // the components it mounts must be mounted nowhere else
        let mut q: usize = 0;
        while q < kids.len()
            invariant
                0 <= q <= kids.len(),
                ph@ == placeholder_ids(c.vdom),
                ids_distinct(kids@),
                forall|x: u64| has_id(kids@, x) <==> has_id(ph@, x),
                pending@ == pend1 + kids@.take(q as int),
                forall|i: int| 0 <= i < q ==> !has_id(pend1, (#[trigger] kids@[i])@) && !listed_from(comps@, kids@[i]@, 0)
                    && kids@[i]@ != p@,
                root == *root_arc,
                all_mounted(comps@, root),
                unique_components(comps@),
                forest(root, comps@),
                pend0 == pend1.push(p),
                comps@ == comps_head,
                unique_blobs(blobs@),
                forall|j: int| 0 <= j < blobs0.len() ==> has_blob(blobs@, (#[trigger] blobs0[j])@.id),
                forall|k: int, j: int| 0 <= k < comps@.len() && 0 <= j < comps@[k].blobs@.len() && (
                    previous matches Some(pr) ==> (!has_id(pr.changed@, comps@[k].id@) && listed_from(pr.result.components@, comps@[k].id@, 0)
                        ==> has_blob(pr.result.blobs@, (#[trigger] comps@[k].blobs@[j])@)))
                    ==> has_blob(blobs@, comps@[k].blobs@[j]@),
                previous matches Some(pr) ==> unique_components(pr.result.components@),
                previous matches Some(pr) ==> forall|k: int| 0 <= k < comps@.len() ==> reused_unless_changed(
                    pr.result.components@,
                    pr.changed@,
                    #[trigger] comps@[k],
                ),
                previous matches Some(pr) ==> reused_unless_changed(pr.result.components@, pr.changed@, c),
                forall|i: int| 0 <= i < blobs@.len() ==> has_blob(blobs0, (#[trigger] blobs@[i])@.id)
                    || blob_registered(comps@, blobs@[i]@.id),
                forall|x: u64| #[trigger] mounted_before(comps@, root, x, comps@.len() as int) ==> listed_from(comps@, x, 0)
                    || has_id(pend0, x),
                forall|i: int| 0 <= i < placeholder_ids(root).len() ==> listed_from(comps@, #[trigger] placeholder_ids(root)[i]@, 0)
                    || has_id(pend0, placeholder_ids(root)[i]@),
                forall|k: int, i: int| 0 <= k < comps@.len() && 0 <= i < placeholder_ids(comps@[k].vdom).len()
                    ==> listed_from(comps@, #[trigger] placeholder_ids(comps@[k].vdom)[i]@, k + 1)
                    || has_id(pend0, placeholder_ids(comps@[k].vdom)[i]@),
                mounted_before(comps@, root, p@, comps@.len() as int),
                forall|j: int| 0 <= j < pend1.len() ==> mounted_before(comps@, root, (#[trigger] pend1[j])@, comps@.len() as int),
                p_in == start@,
                p_in.len() > 0,
                c.id@ == p@,
                !listed_from(comps@, p@, 0),
                comps.len() < usize::MAX,
                ids_distinct(pending@),
                forall|j: int| 0 <= j < pending@.len() ==> !listed_from(comps@, (#[trigger] pending@[j])@, 0)
                    && pending@[j]@ != p@,
                forall|x: u64| has_id(pend1, x) ==> has_id(pending@, x),
                forall|i: int| 0 <= i < q ==> has_id(pending@, (#[trigger] kids@[i])@),
                forall|j: int| 0 <= j < pending@.len() ==> mounted_before(comps@, root, (#[trigger] pending@[j])@, comps@.len() as int)
                    || has_id(kids@, pending@[j]@),
            decreases kids.len() - q,
        {
            let x = kids[q];
            proof {
                assert(has_id(kids@, x@));
                assert(mounts(c.vdom, x@));
            }
            if x.data() == p.data() || index_of(&comps, x).is_some() || contains_id(&pending, x) {
                proof {
                    if !(x@ == p@) && !listed_from(comps@, x@, 0) {
                        // mounted by a tree already rendered, or by the root
                        let jj = choose|jj: int| 0 <= jj < pending@.len() && (#[trigger] pending@[jj])@ == x@;
                        if jj >= pend1.len() {
                            assert(pending@[jj] == kids@[jj - pend1.len()]);
                            assert(false);
                        }
                        assert(pending@[jj] == pend1[jj]);
                    }
                    lemma_conflict(comps@, root, c, x@);
                }
                let ghost comps_before = comps@;
                comps.push(c);
                proof {
                    assert(comps@ == comps_before.push(c));
                }
                return Err(RenderRefusal::MountConflict(root_arc, comps));
            }
            let ghost before = pending@;
            {
                pending.push(x);
                proof {
                    assert forall|y: u64| has_id(before, y) implies has_id(pending@, y) by {
                        lemma_has_id_push(before, x, y);
                    }
                    lemma_has_id_push(before, x, x@);
                    assert forall|a: int, b: int| 0 <= a < pending@.len() && 0 <= b < pending@.len() && a != b implies (#[trigger] pending@[a])@ != (#[trigger] pending@[b])@ by {
                        if a < before.len() && b < before.len() {
                            assert(pending@[a] == before[a] && pending@[b] == before[b]);
                        } else if a < before.len() {
                            assert(pending@[a] == before[a]);
                            assert(pending@[b] == x);
                        } else if b < before.len() {
                            assert(pending@[b] == before[b]);
                            assert(pending@[a] == x);
                        }
                    }
                    assert forall|j: int| 0 <= j < pending@.len() implies !listed_from(comps@, (#[trigger] pending@[j])@, 0)
                        && pending@[j]@ != p@ by {
                        if j < before.len() {
                            assert(pending@[j] == before[j]);
                        } else {
                            assert(pending@[j] == x);
                        }
                    }
                    assert forall|j: int| 0 <= j < pending@.len() implies mounted_before(comps@, root, (#[trigger] pending@[j])@, comps@.len() as int)
                        || has_id(kids@, pending@[j]@) by {
                        if j < before.len() {
                            assert(pending@[j] == before[j]);
                        } else {
                            assert(pending@[j] == x);
                            assert(kids@[q as int] == x);
                        }
                    }
                    assert(kids@.take(q + 1) =~= kids@.take(q as int).push(x));
                    assert(!has_id(pend1, x@)) by {
                        if has_id(pend1, x@) {
                            let jj = choose|jj: int| 0 <= jj < pend1.len() && (#[trigger] pend1[jj])@ == x@;
                            assert(before[jj] == pend1[jj]);
                            assert(has_id(before, x@));
                        }
                    }
                }
            }
            assert(has_id(pending@, kids@[q as int]@));
            q = q + 1;
        }
        proof {
            assert(kids@.take(q as int) =~= kids@);
            assert forall|x: u64| has_id(placeholder_ids(c.vdom), x) implies has_id(pending@, x) && !listed_from(comps@, x, 0)
                && !has_id(pend1, x) && x != p@ by {
                assert(has_id(ph@, x));
                let i = choose|i: int| 0 <= i < kids@.len() && (#[trigger] kids@[i])@ == x;
                assert(pending@[pend1.len() + i] == kids@[i]);
            }
            assert(c.id == p);
            assert(pend0 == pend1.push(c.id));
            lemma_forest_push(comps@, root, c, pend1);
        }
        let ghost bl_before = blobs@;
        merge_blobs(&mut blobs, cblobs);
        let ghost comps_before = comps@;
        let ghost n = comps@.len();
        comps.push(c);
        assert(comps@.len() == comps_head.len() + 1);
        proof {
            assert(comps@ == comps_before.push(c));
            assert forall|x: u64| #[trigger] listed_from(comps@, x, 0) <==> (listed_from(comps_before, x, 0) || c.id@ == x) by {
                lemma_listed_push_iff(comps_before, c, x, 0);
            }
            // unique ids
            assert forall|i: int, j: int| 0 <= i < comps@.len() && 0 <= j < comps@.len() && i != j implies (#[trigger] comps@[i]).id@ != (#[trigger] comps@[j]).id@ by {
                if i < n && j < n {
                    assert(comps@[i] == comps_before[i] && comps@[j] == comps_before[j]);
                } else if i < n {
                    assert(comps@[i] == comps_before[i]);
                    assert(listed_from(comps_before, comps_before[i].id@, 0));
                } else if j < n {
                    assert(comps@[j] == comps_before[j]);
                    assert(listed_from(comps_before, comps_before[j].id@, 0));
                }
            }
            // whatever the trees listed so far mount is listed or pending
            assert forall|x: u64| #[trigger] has_id(pend1, x) implies has_id(pending@, x) by {
                let jj = choose|jj: int| 0 <= jj < pend1.len() && (#[trigger] pend1[jj])@ == x;
                assert(pending@[jj] == pend1[jj]);
            }
            lemma_mounted_listed_or_pending(comps_before, root, c, pend1, pending@);
            // the root's placeholders
            assert forall|i: int| 0 <= i < placeholder_ids(root).len() implies listed_from(comps@, #[trigger] placeholder_ids(root)[i]@, 0)
                || has_id(pending@, placeholder_ids(root)[i]@) by {
                let x = placeholder_ids(root)[i]@;
                if listed_from(comps_before, x, 0) {
                    lemma_listed_push(comps_before, c, x, 0);
                } else {
                    lemma_has_id_push(pend1, p, x);
                }
            }
            // the placeholders of each component
            assert forall|k: int, i: int| 0 <= k < comps@.len() && 0 <= i < placeholder_ids(comps@[k].vdom).len()
                implies listed_from(comps@, #[trigger] placeholder_ids(comps@[k].vdom)[i]@, k + 1)
                || has_id(pending@, placeholder_ids(comps@[k].vdom)[i]@) by {
                let x = placeholder_ids(comps@[k].vdom)[i]@;
                if k < n {
                    assert(comps@[k] == comps_before[k]);
                    if listed_from(comps_before, x, k + 1) {
                        lemma_listed_push(comps_before, c, x, k + 1);
                    } else {
                        lemma_has_id_push(pend1, p, x);
                        if x == p@ {
                            assert(comps@[n as int] == c);
                        }
                    }
                } else {
                    assert(comps@[k] == c);
                    assert(placeholder_ids(c.vdom)[i]@ == x);
                    assert(has_id(placeholder_ids(c.vdom), x));
                }
            }
            // every blob was there before, or the root or a component registered it
            assert forall|i: int| 0 <= i < blobs@.len() implies has_blob(blobs0, (#[trigger] blobs@[i])@.id)
                || blob_registered(comps@, blobs@[i]@.id) by {
                let x = blobs@[i]@.id;
                if has_blob(bl_before, x) {
                    let t = choose|t: int| 0 <= t < bl_before.len() && (#[trigger] bl_before[t])@.id == x;
                    if !has_blob(blobs0, x) {
                        let kk = choose|kk: int| 0 <= kk < comps_before.len() && #[trigger] has_id(comps_before[kk].blobs@, x);
                        assert(comps@[kk] == comps_before[kk]);
                        assert(has_id(comps@[kk].blobs@, x));
                    }
                } else {
                    let t = choose|t: int| 0 <= t < cblobs@.len() && (#[trigger] cblobs@[t])@.id == x;
                    assert(has_id(c.blobs@, cblobs@[t]@.id));
                    assert(comps@[n as int] == c);
                    assert(has_id(comps@[n as int].blobs@, x));
                }
            }
            // the blobs the components registered are there
            assert forall|k: int, j: int| 0 <= k < comps@.len() && 0 <= j < comps@[k].blobs@.len() && (
                previous matches Some(pr) ==> (!has_id(pr.changed@, comps@[k].id@) && listed_from(pr.result.components@, comps@[k].id@, 0)
                    ==> has_blob(pr.result.blobs@, (#[trigger] comps@[k].blobs@[j])@)))
                implies has_blob(blobs@, comps@[k].blobs@[j]@) by {
                let x = comps@[k].blobs@[j]@;
                if k < n {
                    assert(comps@[k] == comps_before[k]);
                    assert(comps_before[k].blobs@[j] == comps@[k].blobs@[j]);
                    assert(has_blob(bl_before, comps_before[k].blobs@[j]@));
                    let t = choose|t: int| 0 <= t < bl_before.len() && (#[trigger] bl_before[t])@.id == x;
                } else {
                    assert(comps@[k] == c);
                    assert(has_blob(cblobs@, c.blobs@[j]@));
                    let t = choose|t: int| 0 <= t < cblobs@.len() && (#[trigger] cblobs@[t])@.id == x;
                }
            }
            // every listed component is mounted
            assert forall|k: int| 0 <= k < comps@.len() implies mounted_before(comps@, root, (#[trigger] comps@[k]).id@, k) by {
                if k < n {
                    assert(comps@[k] == comps_before[k]);
                    lemma_mounted_prefix(comps_before, comps@, root, comps_before[k].id@, k, k);
                } else {
                    assert(comps@[k] == c);
                    lemma_mounted_prefix(comps_before, comps@, root, p@, n as int, n as int);
                }
            }
            assert forall|j: int| 0 <= j < pending@.len() implies mounted_before(comps@, root, (#[trigger] pending@[j])@, comps@.len() as int) by {
                reveal(mounted_before);
                let x = pending@[j]@;
                if mounted_before(comps_before, root, x, n as int) {
                    lemma_mounted_prefix(comps_before, comps@, root, x, n as int, (n + 1) as int);
                } else {
                    assert(has_id(kids@, x));
                    assert(comps@[n as int] == c);
                    assert(has_id(placeholder_ids(comps@[n as int].vdom), x));
                }
            }
            assert forall|j: int| 0 <= j < blobs0.len() implies has_blob(blobs@, (#[trigger] blobs0[j])@.id) by {
                let jj = choose|jj: int| 0 <= jj < bl_before.len() && (#[trigger] bl_before[jj])@.id == blobs0[j]@.id;
            }
            if let Some(pr) = previous {
                assert forall|k: int| 0 <= k < comps@.len() implies reused_unless_changed(
                    pr.result.components@,
                    pr.changed@,
                    #[trigger] comps@[k],
                ) by {
                    if k < n {
                        assert(comps@[k] == comps_before[k]);
                    }
                }
            }
        }
    }
    proof {
        assert forall|i: int| 0 <= i < placeholder_ids(root).len() implies listed_from(comps@, #[trigger] placeholder_ids(root)[i]@, 0) by {
            assert(!has_id(pending@, placeholder_ids(root)[i]@));
        }
        lemma_bounded_of_ids(comps@, root, 0);
        assert forall|k: int| 0 <= k < comps@.len() implies bounded(comps@, (#[trigger] comps@[k]).vdom, k + 1) by {
            assert forall|i: int| 0 <= i < placeholder_ids(comps@[k].vdom).len() implies listed_from(comps@, #[trigger] placeholder_ids(comps@[k].vdom)[i]@, k + 1) by {
                assert(!has_id(pending@, placeholder_ids(comps@[k].vdom)[i]@));
            }
            lemma_bounded_of_ids(comps@, comps@[k].vdom, k + 1);
        }
    }
    Ok((comps, blobs))
}

impl RenderResult {
    /// Renders the whole component tree under the node the application's
    /// root rendered: the root node is rendered (see `render_node`), then every
    /// component it mounts, then the components they mount, and so on, each
    /// once, parents before children. The root's listeners, subscriptions, rpc
    /// handlers and blobs are kept as the root registered them. Refuses a root
    /// node that does not render to one DOM node, a component whose node does
    /// not, and components that do not form a forest (see `RenderRefusal`).
    pub fn new_from_root<R: ComponentRenderer>(root: Node, renderer: &mut R) -> (res: Result<RenderResult, RenderRefusal>)
        ensures
            res matches Err(e) ==> root_refusal_explained(e, root),
            (node_width(root) == 1 && forall|v: VNode| rendered_as(root, seq![v]) ==> placeholder_ids(v).len() == 0)
                ==> res is Ok,
            res matches Ok(r) ==> {
                &&& r.wf()
                &&& all_mounted(r.components@, r.root_dom())
                &&& forest(r.root_dom(), r.components@)
                &&& rendered_as(root, seq![r.root_dom()])
                &&& r.listeners@ == node_registered(root).listeners
                &&& r.subscriptions@ == node_registered(root).subscriptions
                &&& r.root_rpcs@ == node_registered(root).rpcs
                &&& r.root_blobs@.len() == node_registered(root).blobs.len()
                &&& forall|j: int| 0 <= j < node_registered(root).blobs.len() ==> (#[trigger] r.root_blobs@[j])@
                    == node_registered(root).blobs[j]@.id
                &&& forall|j: int| 0 <= j < node_registered(root).blobs.len() ==> has_blob(
                    r.blobs@,
                    (#[trigger] node_registered(root).blobs[j])@.id,
                )
                &&& forall|k: int, j: int| 0 <= k < r.components@.len() && 0 <= j < r.components@[k].blobs@.len()
                    ==> has_blob(r.blobs@, (#[trigger] r.components@[k].blobs@[j])@)
                &&& forall|i: int| 0 <= i < r.blobs@.len() ==> has_id((*r.root_blobs)@, (#[trigger] r.blobs@[i])@.id)
                    || blob_registered(r.components@, r.blobs@[i]@.id)
            },
    {
        if width_of(&root) != 1 {
            return Err(RenderRefusal::RootNotOneNode);
        }
        let ghost groot = root;
        let tree = match render_node(root) {
            Some(t) => t,
            None => {
                return Err(RenderRefusal::RootNotOneNode);
            },
        };
        let RenderedTree { vdom, listeners, subscriptions, blobs: root_blob_list, rpcs } = tree;
        let placeholders = placeholders_of(&vdom);
        let pending = distinct_ids(&placeholders);
        let root_blobs = blob_ids(&root_blob_list);
        let ghost rbl = root_blob_list@;
        let mut blobs: Vec<Blob> = Vec::new();
        merge_blobs(&mut blobs, root_blob_list);
        proof {
            assert forall|i: int| 0 <= i < placeholder_ids(vdom).len() implies has_id(pending@, #[trigger] placeholder_ids(vdom)[i]@) by {
                assert(placeholders@[i] == placeholder_ids(vdom)[i]);
            }
            if placeholder_ids(vdom).len() == 0 {
                if pending@.len() > 0 {
                    assert(has_id(pending@, pending@[0]@));
                }
            }
        }
        let ghost blobs0 = blobs@;
        proof {
            assert forall|x: u64| has_blob(blobs0, x) implies has_id(root_blobs@, x) by {
                let i = choose|i: int| 0 <= i < blobs0.len() && (#[trigger] blobs0[i])@.id == x;
                let t = choose|t: int| 0 <= t < rbl.len() && (#[trigger] rbl[t])@.id == x;
                assert(root_blobs@[t]@ == x);
            }
        }
        let root_arc = Arc::new(vdom);
        match render_components(share(&root_arc), pending, blobs, renderer, None) {
            Ok((components, blobs)) => Ok(
                RenderResult {
                    vdom: root_arc,
                    components,
                    blobs,
                    listeners: Arc::new(listeners),
                    subscriptions: Arc::new(subscriptions),
                    root_blobs: Arc::new(root_blobs),
                    root_rpcs: Arc::new(rpcs),
                },
            ),
            Err(e) => Err(e),
        }
    }

    /// Renders again, from a previous frame, only the components that changed:
    /// a component of the previous render that is not among `changed` is taken
    /// over with all its rendered state, the others are rendered. The root is
    /// kept as it was, with its listeners, subscriptions, rpc handlers and
    /// blobs. Refuses a component whose node does not render to one DOM node,
    /// and components that do not form a forest (see `RenderRefusal`).
    pub fn new_from_frame<R: ComponentRenderer>(old: &Frame, changed: &Vec<Id>, renderer: &mut R) -> (res: Result<RenderResult, RenderRefusal>)
        requires
            old.rendered.wf(),
        ensures
            placeholder_ids(old.rendered.root_dom()).len() == 0 ==> res is Ok,
            res matches Err(e) ==> refusal_explained(e, old.rendered.root_dom()),
            res matches Ok(r) ==> {
                &&& r.wf()
                &&& all_mounted(r.components@, r.root_dom())
                &&& forest(r.root_dom(), r.components@)
                &&& r.root_dom() == old.rendered.root_dom()
                &&& *r.root_rpcs == *old.rendered.root_rpcs
                &&& *r.listeners == *old.rendered.listeners
                &&& *r.subscriptions == *old.rendered.subscriptions
                &&& *r.root_blobs == *old.rendered.root_blobs
                &&& forall|j: int| 0 <= j < old.rendered.root_blobs@.len() && has_blob(old.rendered.blobs@, (#[trigger] old.rendered.root_blobs@[j])@)
                    ==> has_blob(r.blobs@, old.rendered.root_blobs@[j]@)
                &&& forall|k: int| 0 <= k < r.components@.len() ==> reused_unless_changed(
                    old.rendered.components@,
                    changed@,
                    #[trigger] r.components@[k],
                )
                &&& forall|k: int, j: int| 0 <= k < r.components@.len() && 0 <= j < r.components@[k].blobs@.len()
                    && (!has_id(changed@, r.components@[k].id@) && listed_from(old.rendered.components@, r.components@[k].id@, 0)
                    ==> has_blob(old.rendered.blobs@, (#[trigger] r.components@[k].blobs@[j])@))
                    ==> has_blob(r.blobs@, r.components@[k].blobs@[j]@)
                &&& forall|i: int| 0 <= i < r.blobs@.len() ==> has_id((*r.root_blobs)@, (#[trigger] r.blobs@[i])@.id)
                    || blob_registered(r.components@, r.blobs@[i]@.id)
            },
    {
        let prev = &old.rendered;
        let placeholders = placeholders_of(&*prev.vdom);
        let pending = distinct_ids(&placeholders);
        let kept = blobs_of(prev, &*prev.root_blobs);
        let mut blobs: Vec<Blob> = Vec::new();
        merge_blobs(&mut blobs, kept);
        proof {
            let root = prev.root_dom();
            assert forall|i: int| 0 <= i < placeholder_ids(root).len() implies has_id(pending@, #[trigger] placeholder_ids(root)[i]@) by {
                assert(placeholders@[i] == placeholder_ids(root)[i]);
            }
            if placeholder_ids(root).len() == 0 {
                if pending@.len() > 0 {
                    assert(has_id(pending@, pending@[0]@));
                }
            }
        }
        let previous = PreviousRender { result: prev, changed };
        let ghost blobs0 = blobs@;
        proof {
            assert forall|x: u64| has_blob(blobs0, x) implies has_id((*prev.root_blobs)@, x) by {
                let i = choose|i: int| 0 <= i < blobs0.len() && (#[trigger] blobs0[i])@.id == x;
                let t = choose|t: int| 0 <= t < kept@.len() && (#[trigger] kept@[t])@.id == x;
            }
        }
        match render_components(share(&prev.vdom), pending, blobs, renderer, Some(previous)) {
            Ok((components, blobs)) => Ok(
                RenderResult {
                    vdom: share(&prev.vdom),
                    components,
                    blobs,
                    listeners: share(&prev.listeners),
                    subscriptions: share(&prev.subscriptions),
                    root_blobs: share(&prev.root_blobs),
                    root_rpcs: share(&prev.root_rpcs),
                },
            ),
            Err(e) => Err(e),
        }
    }
}

/// A component that did not change and that both the previous and the new
/// render list has, in the new render, the DOM and the whole rendered state it
/// had in the previous one.
pub proof fn lemma_unchanged_component_kept(
    old: RenderResult,
    new: RenderResult,
    changed: Seq<Id>,
    id: u64,
)
    requires
        old.wf(),
        new.wf(),
        forall|k: int| 0 <= k < new.components@.len() ==> reused_unless_changed(
            old.components@,
            changed,
            #[trigger] new.components@[k],
        ),
        !has_id(changed, id),
        listed_from(old.components@, id, 0),
        listed_from(new.components@, id, 0),
    ensures
        component_dom(new.components@, id) == component_dom(old.components@, id),
        new.components@[component_index(new.components@, id).unwrap()]
            == old.components@[component_index(old.components@, id).unwrap()],
{
    let k = component_index(new.components@, id).unwrap();
    assert(reused_unless_changed(old.components@, changed, new.components@[k]));
}

} // verus!
