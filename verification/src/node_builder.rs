//! Builders for DOM nodes and blobs.
use crate::blob::{opt_view, Blob, BlobView};
use crate::node::{Node, NodeElement, NodeListener};
use crate::vdom::Attr;
use crate::Id;
use std::marker::PhantomData;
use vstd::prelude::*;
use vstd::string::*;

verus! {

/// Builds nodes emitting messages of type `T`, in an optional namespace
/// (none for HTML, the SVG namespace for SVG).
pub struct NodeBuilder<T> {
    namespace: Option<String>,
    marker: PhantomData<T>,
}

impl<T> NodeBuilder<T> {
    /// The namespace the built elements are placed in.
    pub closed spec fn spec_namespace(&self) -> Option<Seq<char>> {
        opt_view(self.namespace)
    }

    /// A builder for HTML nodes.
    pub fn new() -> (res: NodeBuilder<T>)
        ensures
            res.spec_namespace() is None,
    {
        NodeBuilder { namespace: None, marker: PhantomData }
    }

    /// A builder for nodes in the given namespace.
    pub fn new_with_ns(namespace: &str) -> (res: NodeBuilder<T>)
        ensures
            res.spec_namespace() == Some(namespace@),
    {
        NodeBuilder { namespace: Some(String::from_str(namespace)), marker: PhantomData }
    }

    /// Starts building a blob whose content has the given hash.
    pub fn blob(&self, hash: u64) -> (res: BlobBuilder)
        ensures
            res@ == new_builder(hash),
    {
        BlobBuilder::with_hash(hash)
    }
}

impl<T> NodeBuilder<T> {
    /// Starts building an element with the given tag, in the builder's namespace.
    pub fn elem(&self, name: &str) -> (res: ElementBuilder)
        ensures
            res@ == start_element(name@, self.spec_namespace()),
    {
        let namespace = match &self.namespace {
            Some(ns) => Some(ns.clone()),
            None => None,
        };
        let r = ElementBuilder {
            id: Id::new_empty(),
            tag: String::from_str(name),
            attrs: Vec::new(),
            js_events: Vec::new(),
            listeners: Vec::new(),
            children: Vec::new(),
            namespace,
            classes: Vec::new(),
            html_id: None,
            rpc: false,
        };
        assert(r@.classes =~= Seq::<Seq<char>>::empty());
        assert(r@.attrs =~= Seq::<Attr>::empty());
        assert(r@.js_events =~= Seq::<Attr>::empty());
        assert(r@.listeners =~= Seq::<NodeListener>::empty());
        assert(r@.children =~= Seq::<Node>::empty());
        r
    }

    /// A text node.
    pub fn text(&self, text: &str) -> (res: Node)
        ensures
            res matches Node::Text(t) && t@ == text@,
    {
        Node::Text(String::from_str(text))
    }
}

impl<T> Default for NodeBuilder<T> {
    fn default() -> (res: NodeBuilder<T>)
        ensures
            res.spec_namespace() is None,
    {
        NodeBuilder::new()
    }
}

/// A builder with the given hash and nothing else set.
pub open spec fn new_builder(hash: u64) -> BlobBuilderView {
    BlobBuilderView {
        id: None,
        hash,
        mime_type: Seq::<char>::empty(),
        data: Seq::<u8>::empty(),
        on_change: None,
        on_add: None,
    }
}

/// The blob with the given id and the parts the builder collected.
pub open spec fn built(b: BlobBuilderView, id: u64) -> BlobView {
    BlobView { id, hash: b.hash, data: b.data, mime_type: b.mime_type, on_change: b.on_change, on_add: b.on_add }
}

/// Builders that collected the same parts, among them an id, build the same
/// blob: whether they were started by `NodeBuilder::blob` or `Blob::build`
/// (both start from `new_builder`), the blob depends on the parts alone.
pub proof fn lemma_equal_builders_build_equal_blobs(b1: BlobBuilderView, b2: BlobBuilderView)
    requires
        b1 == b2,
        b1.id is Some,
    ensures
        built(b1, b1.id.unwrap()) == built(b2, b2.id.unwrap()),
{
}

/// Collects the parts of a [`Blob`].
pub struct BlobBuilder {
    pub(crate) id: Option<Id>,
    pub(crate) hash: u64,
    pub(crate) mime_type: String,
    pub(crate) data: Vec<u8>,
    pub(crate) on_change: Option<String>,
    pub(crate) on_add: Option<String>,
}

/// A blob builder taken by its views.
pub struct BlobBuilderView {
    pub id: Option<u64>,
    pub hash: u64,
    pub mime_type: Seq<char>,
    pub data: Seq<u8>,
    pub on_change: Option<Seq<char>>,
    pub on_add: Option<Seq<char>>,
}

impl View for BlobBuilder {
    type V = BlobBuilderView;

    closed spec fn view(&self) -> BlobBuilderView {
        BlobBuilderView {
            id: match self.id {
                Some(i) => Some(i@),
                None => None,
            },
            hash: self.hash,
            mime_type: self.mime_type@,
            data: self.data@,
            on_change: opt_view(self.on_change),
            on_add: opt_view(self.on_add),
        }
    }
}

impl BlobBuilder {
    /// A builder with the given hash and nothing else set.
    pub(crate) fn with_hash(hash: u64) -> (res: BlobBuilder)
        ensures
            res@ == new_builder(hash),
    {
        let r = BlobBuilder {
            id: None,
            hash,
            mime_type: String::new(),
            data: vec![],
            on_change: None,
            on_add: None,
        };
        assert(r.data@ =~= Seq::<u8>::empty());
        r
    }

    /// Sets the mime-type of the blob.
    pub fn mime_type(self, mime_type: &str) -> (res: Self)
        ensures
            res@ == (BlobBuilderView { mime_type: mime_type@, ..self@ }),
    {
        let mut s = self;
        s.mime_type = String::from_str(mime_type);
        s
    }

    /// Sets the id of the blob.
    pub fn id(self, id: Id) -> (res: Self)
        ensures
            res@ == (BlobBuilderView { id: Some(id@), ..self@ }),
    {
        let mut s = self;
        s.id = Some(id);
        s
    }

    /// Sets the data of the blob.
    pub fn data(self, data: Vec<u8>) -> (res: Self)
        ensures
            res@ == (BlobBuilderView { data: data@, ..self@ }),
    {
        let mut s = self;
        s.data = data;
        s
    }

    /// Sets the javascript run when the content of the blob changes.
    pub fn on_change(self, js: &str) -> (res: Self)
        ensures
            res@ == (BlobBuilderView { on_change: Some(js@), ..self@ }),
    {
        let mut s = self;
        s.on_change = Some(String::from_str(js));
        s
    }

    /// Sets the javascript run when the blob is added to the frontend.
    pub fn on_add(self, js: &str) -> (res: Self)
        ensures
            res@ == (BlobBuilderView { on_add: Some(js@), ..self@ }),
    {
        let mut s = self;
        s.on_add = Some(String::from_str(js));
        s
    }

    /// Builds the blob. Without an id set, a new id is generated.
    pub fn build(self) -> (res: Blob)
        ensures
            res@ == built(self@, res@.id),
            self@.id matches Some(i) ==> res@.id == i,
            self@.id is None ==> res@.id != 0,
    {
        let id = match self.id {
            Some(i) => i,
            None => Id::new(),
        };
        Blob::from_parts(id, self.hash, self.data, self.mime_type, self.on_change, self.on_add)
    }
}

} // verus!

verus! {

/// Collects the parts of an element.
pub struct ElementBuilder {
    id: Id,
    tag: String,
    attrs: Vec<Attr>,
    js_events: Vec<Attr>,
    listeners: Vec<NodeListener>,
    children: Vec<Node>,
    namespace: Option<String>,
    classes: Vec<String>,
    html_id: Option<String>,
    rpc: bool,
}

/// An element builder taken by its views.
#[verifier::ext_equal]
pub struct ElementBuilderView {
    pub id: u64,
    pub tag: Seq<char>,
    pub attrs: Seq<Attr>,
    pub js_events: Seq<Attr>,
    pub listeners: Seq<NodeListener>,
    pub children: Seq<Node>,
    pub namespace: Option<Seq<char>>,
    pub classes: Seq<Seq<char>>,
    pub html_id: Option<Seq<char>>,
    pub rpc: bool,
}

impl View for ElementBuilder {
    type V = ElementBuilderView;

    closed spec fn view(&self) -> ElementBuilderView {
        ElementBuilderView {
            id: self.id@,
            tag: self.tag@,
            attrs: self.attrs@,
            js_events: self.js_events@,
            listeners: self.listeners@,
            children: self.children@,
            namespace: opt_view(self.namespace),
            classes: self.classes@.map_values(|c: String| c@),
            html_id: opt_view(self.html_id),
            rpc: self.rpc,
        }
    }
}

/// A builder of an element with the given tag and namespace and nothing else.
pub open spec fn start_element(tag: Seq<char>, namespace: Option<Seq<char>>) -> ElementBuilderView {
    ElementBuilderView {
        id: 0,
        tag,
        attrs: Seq::empty(),
        js_events: Seq::empty(),
        listeners: Seq::empty(),
        children: Seq::empty(),
        namespace,
        classes: Seq::empty(),
        html_id: None,
        rpc: false,
    }
}

/// The classes joined by single spaces.
pub open spec fn join_classes(classes: Seq<Seq<char>>) -> Seq<char>
    decreases classes.len(),
{
    if classes.len() == 0 {
        Seq::empty()
    } else if classes.len() == 1 {
        classes[0]
    } else {
        join_classes(classes.drop_last()) + seq![' '] + classes.last()
    }
}

/// Where the `i`-th class starts in the classes joined by single spaces: after
/// each earlier class and one space.
pub open spec fn class_offset(classes: Seq<Seq<char>>, i: int) -> int
    decreases i,
{
    if i <= 0 {
        0
    } else {
        class_offset(classes, i - 1) + classes[i - 1].len() + 1
    }
}

/// The classes joined by single spaces hold every class, in order, each at its
/// offset and, but for the first, after a space; nothing else: their length is
/// the sum of the lengths of the classes and one space between each two.
pub proof fn lemma_join_classes(classes: Seq<Seq<char>>)
    requires
        classes.len() > 0,
    ensures
        join_classes(classes).len() == class_offset(classes, classes.len() as int) - 1,
        forall|i: int| 0 <= i < classes.len() ==> join_classes(classes).subrange(
            class_offset(classes, i),
            class_offset(classes, i) + classes[i].len(),
        ) == #[trigger] classes[i],
        forall|i: int| 0 < i < classes.len() ==> join_classes(classes)[class_offset(classes, i) - 1] == ' ',
{
    lemma_join_len(classes);
    assert forall|i: int| 0 <= i < classes.len() implies join_classes(classes).subrange(
        class_offset(classes, i),
        class_offset(classes, i) + classes[i].len(),
    ) == #[trigger] classes[i] by {
        lemma_join_at(classes, i);
    }
    assert forall|i: int| 0 < i < classes.len() implies join_classes(classes)[class_offset(classes, i) - 1] == ' ' by {
        lemma_join_space(classes, i);
    }
}

/// The length of the joined classes.
proof fn lemma_join_len(classes: Seq<Seq<char>>)
    requires
        classes.len() > 0,
    ensures
        join_classes(classes).len() == class_offset(classes, classes.len() as int) - 1,
    decreases classes.len(),
{
    let n = classes.len() as int;
    assert(class_offset(classes, n) == class_offset(classes, n - 1) + classes[n - 1].len() + 1);
    if n == 1 {
        assert(class_offset(classes, 0) == 0);
    } else {
        let init = classes.drop_last();
        lemma_join_len(init);
        lemma_offset_prefix(classes, init, n - 1);
    }
}

/// The offsets of the first classes of a list are those in its prefix.
proof fn lemma_offset_prefix(classes: Seq<Seq<char>>, init: Seq<Seq<char>>, i: int)
    requires
        0 <= i <= init.len(),
        init.len() <= classes.len(),
        init == classes.take(init.len() as int),
    ensures
        class_offset(classes, i) == class_offset(init, i),
    decreases i,
{
    if i > 0 {
        lemma_offset_prefix(classes, init, i - 1);
        assert(init[i - 1] == classes[i - 1]);
    }
}

/// The `i`-th class ends before the end of the `k`-th.
proof fn lemma_offset_mono(classes: Seq<Seq<char>>, i: int, k: int)
    requires
        0 <= i <= k,
    ensures
        class_offset(classes, i) <= class_offset(classes, k),
    decreases k - i,
{
    if i < k {
        lemma_offset_mono(classes, i, k - 1);
    }
}

/// The `i`-th class sits at its offset.
proof fn lemma_join_at(classes: Seq<Seq<char>>, i: int)
    requires
        0 <= i < classes.len(),
    ensures
        join_classes(classes).subrange(class_offset(classes, i), class_offset(classes, i) + classes[i].len())
            == classes[i],
    decreases classes.len(),
{
    let n = classes.len() as int;
    if n == 1 {
        assert(join_classes(classes).subrange(0, classes[0].len() as int) =~= classes[0]);
    } else {
        let init = classes.drop_last();
        let ji = join_classes(init);
        let j = join_classes(classes);
        assert(j == ji + seq![' '] + classes.last());
        lemma_join_len(init);
        lemma_offset_prefix(classes, init, n - 1);
        if i == n - 1 {
            assert(j.subrange(class_offset(classes, i), class_offset(classes, i) + classes[i].len()) =~= classes[i]);
        } else {
            lemma_join_at(init, i);
            lemma_offset_prefix(classes, init, i);
            lemma_offset_mono(init, i + 1, n - 1);
            assert(class_offset(init, i + 1) == class_offset(init, i) + init[i].len() + 1);
            assert(init[i] == classes[i]);
            assert(class_offset(init, i) + init[i].len() <= ji.len());
            assert(class_offset(classes, i) == class_offset(init, i));
            assert(0 <= class_offset(init, i)) by {
                lemma_offset_mono(init, 0, i);
            }
            assert(j.subrange(class_offset(classes, i), class_offset(classes, i) + classes[i].len())
                =~= ji.subrange(class_offset(init, i), class_offset(init, i) + init[i].len()));
        }
    }
}

/// A space precedes every class but the first.
proof fn lemma_join_space(classes: Seq<Seq<char>>, i: int)
    requires
        0 < i < classes.len(),
    ensures
        join_classes(classes)[class_offset(classes, i) - 1] == ' ',
    decreases classes.len(),
{
    let n = classes.len() as int;
    let init = classes.drop_last();
    let ji = join_classes(init);
    assert(join_classes(classes) == ji + seq![' '] + classes.last());
    lemma_join_len(init);
    lemma_offset_prefix(classes, init, n - 1);
    let j = join_classes(classes);
    if i < n - 1 {
        lemma_join_space(init, i);
        lemma_offset_prefix(classes, init, i);
        lemma_offset_mono(init, i + 1, n - 1);
        assert(class_offset(init, i + 1) == class_offset(init, i) + init[i].len() + 1);
        assert(class_offset(init, i) >= 1) by {
            lemma_offset_mono(init, 1, i);
            assert(class_offset(init, 1) == class_offset(init, 0) + init[0].len() + 1);
        }
        assert(j[class_offset(init, i) - 1] == ji[class_offset(init, i) - 1]);
    } else {
        assert(class_offset(classes, i) - 1 == ji.len());
        assert(j[ji.len() as int] == ' ');
    }
}

/// The id of an element that listeners or an rpc handler refer to: the one it
/// has, or a fresh non-empty one.
pub open spec fn id_for_handlers(old_id: u64, new_id: u64) -> bool {
    if old_id == 0 {
        new_id != 0
    } else {
        new_id == old_id
    }
}

/// Gives the element a fresh id unless it has one.
fn ensure_id(id: Id) -> (res: Id)
    ensures
        id_for_handlers(id@, res@),
{
    if id.is_empty() {
        Id::new()
    } else {
        id
    }
}

impl ElementBuilder {
    /// The id of the element: empty until a listener or an rpc handler is added.
    pub fn node_id(&self) -> (res: Id)
        ensures
            res@ == self@.id,
    {
        self.id
    }

    /// Adds a listener for the named DOM event.
    pub fn on(self, name: &str) -> (res: Self)
        ensures
            id_for_handlers(self@.id, res@.id),
            res@.listeners.len() == self@.listeners.len() + 1,
            res@.listeners.drop_last() == self@.listeners,
            res@.listeners.last().event@ == name@,
            !res@.listeners.last().no_propagate,
            !res@.listeners.last().prevent_default,
            res@ == (ElementBuilderView { id: res@.id, listeners: res@.listeners, ..self@ }),
    {
        let mut s = self;
        s.id = ensure_id(s.id);
        let ghost before = s.listeners@;
        s.listeners.push(NodeListener { event: String::from_str(name), no_propagate: false, prevent_default: false });
        assert(s.listeners@.drop_last() =~= before);
        s
    }

    /// Starts adding a listener for the named DOM event, whose handling the
    /// frontend may tune.
    pub fn listener(self, name: &str) -> (res: ListenerBuilder)
        ensures
            res.parent@ == self@,
            res.name@ == name@,
            !res.no_propagate,
            !res.prevent_default,
    {
        ListenerBuilder { parent: self, name: String::from_str(name), no_propagate: false, prevent_default: false }
    }

    /// Gives the element an rpc handler.
    pub fn rpc(self) -> (res: Self)
        ensures
            id_for_handlers(self@.id, res@.id),
            res@ == (ElementBuilderView { id: res@.id, rpc: true, ..self@ }),
    {
        let mut s = self;
        s.id = ensure_id(s.id);
        s.rpc = true;
        s
    }

    /// Adds an attribute.
    pub fn attr(self, key: &str, value: &str) -> (res: Self)
        ensures
            res@.attrs.len() == self@.attrs.len() + 1,
            res@.attrs.drop_last() == self@.attrs,
            res@.attrs.last().key@ == key@,
            res@.attrs.last().value@ == value@,
            res@ == (ElementBuilderView { attrs: res@.attrs, ..self@ }),
    {
        let mut s = self;
        let ghost before = s.attrs@;
        s.attrs.push(Attr::new(key, value));
        assert(s.attrs@.drop_last() =~= before);
        s
    }

    /// Adds a javascript event handler: `value` runs on the DOM event `key`.
    pub fn js_event(self, key: &str, value: &str) -> (res: Self)
        ensures
            res@.js_events.len() == self@.js_events.len() + 1,
            res@.js_events.drop_last() == self@.js_events,
            res@.js_events.last().key@ == key@,
            res@.js_events.last().value@ == value@,
            res@ == (ElementBuilderView { js_events: res@.js_events, ..self@ }),
    {
        let mut s = self;
        let ghost before = s.js_events@;
        s.js_events.push(Attr::new(key, value));
        assert(s.js_events@.drop_last() =~= before);
        s
    }

    /// Adds a child node.
    pub fn add(self, child: Node) -> (res: Self)
        ensures
            res@ == (ElementBuilderView { children: self@.children.push(child), ..self@ }),
    {
        let mut s = self;
        s.children.push(child);
        s
    }

    /// Adds a text child.
    pub fn text(self, text: &str) -> (res: Self)
        ensures
            res@.children.len() == self@.children.len() + 1,
            res@.children.drop_last() == self@.children,
            res@.children.last() matches Node::Text(t) && t@ == text@,
            res@ == (ElementBuilderView { children: res@.children, ..self@ }),
    {
        let mut s = self;
        let ghost before = s.children@;
        s.children.push(Node::Text(String::from_str(text)));
        assert(s.children@.drop_last() =~= before);
        s
    }

    /// Sets the HTML id attribute of the element.
    pub fn id(self, id: &str) -> (res: Self)
        ensures
            res@ == (ElementBuilderView { html_id: Some(id@), ..self@ }),
    {
        let mut s = self;
        s.html_id = Some(String::from_str(id));
        s
    }

    /// Adds a class to the element.
    pub fn class(self, class: &str) -> (res: Self)
        ensures
            res@ == (ElementBuilderView { classes: self@.classes.push(class@), ..self@ }),
    {
        let mut s = self;
        let ghost before = s.classes@;
        s.classes.push(String::from_str(class));
        assert(s.classes@.map_values(|c: String| c@) =~= before.map_values(|c: String| c@).push(class@));
        s
    }

    /// Builds the element: the classes, joined by spaces, become a `class`
    /// attribute and the HTML id an `id` attribute, after the other
    /// attributes.
    pub fn build(self) -> (res: Node)
        ensures
            res matches Node::Element(e) && {
                &&& e.id@ == self@.id
                &&& e.tag@ == self@.tag
                &&& e.js_events@ == self@.js_events
                &&& e.listeners@ == self@.listeners
                &&& e.children@ == self@.children
                &&& opt_view(e.namespace) == self@.namespace
                &&& e.rpc == self@.rpc
                &&& e.attrs@.len() == self@.attrs.len() + (if self@.classes.len() > 0 { 1int } else { 0int }) + (
                if self@.html_id is Some {
                    1int
                } else {
                    0int
                })
                &&& e.attrs@.take(self@.attrs.len() as int) == self@.attrs
                &&& self@.classes.len() > 0 ==> e.attrs@[self@.attrs.len() as int].key@ == seq!['c', 'l', 'a', 's', 's']
                    && e.attrs@[self@.attrs.len() as int].value@ == join_classes(self@.classes)
                &&& self@.classes.len() > 0 ==> e.attrs@[self@.attrs.len() as int].value@.len() == class_offset(
                    self@.classes,
                    self@.classes.len() as int,
                ) - 1
                &&& forall|i: int| 0 <= i < self@.classes.len() ==> e.attrs@[self@.attrs.len() as int].value@.subrange(
                    class_offset(self@.classes, i),
                    class_offset(self@.classes, i) + self@.classes[i].len(),
                ) == #[trigger] self@.classes[i]
                &&& self@.html_id matches Some(h) ==> e.attrs@.last().key@ == seq!['i', 'd'] && e.attrs@.last().value@ == h
            },
    {
        proof {
            if self@.classes.len() > 0 {
                lemma_join_classes(self@.classes);
            }
        }
        let ElementBuilder { id, tag, attrs, js_events, listeners, children, namespace, classes, html_id, rpc } = self;
        let ghost a0 = attrs@;
        let ghost cl = classes@.map_values(|c: String| c@);
        let mut attrs = attrs;
        if classes.len() > 0 {
            let mut joined = String::new();
            let mut i: usize = 0;
            while i < classes.len()
                invariant
                    0 <= i <= classes@.len(),
                    cl == classes@.map_values(|c: String| c@),
                    joined@ == join_classes(cl.take(i as int)),
                decreases classes@.len() - i,
            {
                if i > 0 {
                    joined.append(" ");
                    proof {
                        reveal_strlit(" ");
                    }
                }
                joined.append(classes[i].as_str());
                proof {
                    let t = cl.take(i + 1);
                    assert(t.drop_last() =~= cl.take(i as int));
                    assert(t.last() == cl[i as int]);
                    if i == 0 {
                        assert(joined@ =~= cl[0]);
                        assert(t.len() == 1);
                        assert(t[0] == cl[0]);
                    }
                }
                i = i + 1;
            }
            proof {
                assert(cl.take(i as int) =~= cl);
                reveal_strlit("class");
            }
            attrs.push(Attr { key: String::from_str("class"), value: joined });
        }
        let ghost a1 = attrs@;
        match html_id {
            Some(h) => {
                proof {
                    reveal_strlit("id");
                }
                attrs.push(Attr { key: String::from_str("id"), value: h });
            },
            None => {},
        }
        proof {
            assert(a1.take(a0.len() as int) =~= a0);
            assert(attrs@.take(a0.len() as int) =~= a0);
            if cl.len() > 0 {
                assert(attrs@[a0.len() as int] == a1[a0.len() as int]);
            }
        }
        Node::Element(NodeElement { id, tag, attrs, js_events, listeners, children, namespace, rpc })
    }
}

/// Collects a listener before it is added to its element.
pub struct ListenerBuilder {
    pub parent: ElementBuilder,
    pub name: String,
    pub no_propagate: bool,
    pub prevent_default: bool,
}

impl ListenerBuilder {
    /// The frontend keeps the default action of the event from happening.
    pub fn prevent_default(self) -> (res: Self)
        ensures
            res.parent@ == self.parent@,
            res.name@ == self.name@,
            res.no_propagate == self.no_propagate,
            res.prevent_default,
    {
        let mut s = self;
        s.prevent_default = true;
        s
    }

    /// The frontend stops the event from propagating further.
    pub fn no_propagate(self) -> (res: Self)
        ensures
            res.parent@ == self.parent@,
            res.name@ == self.name@,
            res.no_propagate,
            res.prevent_default == self.prevent_default,
    {
        let mut s = self;
        s.no_propagate = true;
        s
    }

    /// Adds the listener to its element.
    pub fn build(self) -> (res: ElementBuilder)
        ensures
            id_for_handlers(self.parent@.id, res@.id),
            res@.listeners.len() == self.parent@.listeners.len() + 1,
            res@.listeners.drop_last() == self.parent@.listeners,
            res@.listeners.last().event@ == self.name@,
            res@.listeners.last().no_propagate == self.no_propagate,
            res@.listeners.last().prevent_default == self.prevent_default,
            res@ == (ElementBuilderView { id: res@.id, listeners: res@.listeners, ..self.parent@ }),
    {
        let ListenerBuilder { parent, name, no_propagate, prevent_default } = self;
        let mut s = parent;
        s.id = ensure_id(s.id);
        let ghost before = s.listeners@;
        s.listeners.push(NodeListener { event: name, no_propagate, prevent_default });
        assert(s.listeners@.drop_last() =~= before);
        s
    }
}

} // verus!
