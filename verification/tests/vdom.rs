use greenhorn::blob::Blob;
use greenhorn::diff::Differ;
use greenhorn::render::{collect_placeholders, Frame, RenderResult, RenderedComponent};
use greenhorn::serialize::serialize;
use greenhorn::vdom::{Attr, EventHandler, Patch, PatchItem, Path, VElement, VNode};
use greenhorn::Id;
use std::sync::Arc;

fn elem(id: Id, tag: &str, attr: Vec<Attr>, events: Vec<EventHandler>, children: Vec<VNode>) -> VNode {
    VNode::element(VElement {
        id,
        tag: tag.to_string(),
        attr,
        js_events: vec![],
        events,
        children,
        namespace: None,
    })
}

fn diff<'a>(old: &'a Frame, new: &'a RenderResult) -> Patch<'a> {
    Differ::new(old, new).diff()
}

#[test]
fn test_remove_attr() {
    let id_a = Id::new();
    let id_b = Id::new();
    let elem_a = elem(id_a, "foo", vec![Attr::new("foo", "bar")], vec![], vec![]);
    let elem_b = elem(id_b, "foo", vec![], vec![], vec![]);
    let old = Frame::from_vnode(elem_a);
    let new = RenderResult::from_vnode(elem_b);
    let patch = diff(&old, &new);

    assert_eq!(patch.translations.len(), 1);
    assert_eq!(patch.translations.get(&id_b.data()).unwrap(), &id_a.data());
    assert_eq!(patch.items.len(), 1);
    if let PatchItem::RemoveAttribute(x) = &patch.items[0] {
        assert_eq!("foo", *x);
    } else {
        panic!();
    }
}

#[test]
fn test_add_attr() {
    let id_a = Id::new();
    let id_b = Id::new();
    let elem_a = elem(id_a, "foo", vec![], vec![], vec![]);
    let elem_b = elem(id_b, "foo", vec![Attr::new("foo", "bar")], vec![], vec![]);
    let old = Frame::from_vnode(elem_a);
    let new = RenderResult::from_vnode(elem_b);
    let patch = diff(&old, &new);

    assert_eq!(patch.translations.len(), 1);
    assert_eq!(patch.translations.get(&id_b.data()).unwrap(), &id_a.data());
    assert_eq!(patch.items.len(), 1);
    if let PatchItem::AddAtrribute(key, value) = &patch.items[0] {
        assert_eq!("foo", *key);
        assert_eq!("bar", *value);
    } else {
        panic!();
    }
}

#[test]
fn test_change_attr() {
    let id_a = Id::new();
    let id_b = Id::new();
    let elem_a = elem(id_a, "foo", vec![Attr::new("foo", "bla")], vec![], vec![]);
    let elem_b = elem(id_b, "foo", vec![Attr::new("foo", "bar")], vec![], vec![]);
    let old = Frame::from_vnode(elem_a);
    let new = RenderResult::from_vnode(elem_b);
    let patch = diff(&old, &new);

    assert_eq!(patch.translations.len(), 1);
    assert_eq!(patch.translations.get(&id_b.data()).unwrap(), &id_a.data());
    assert_eq!(patch.items.len(), 1);
    if let PatchItem::ReplaceAttribute(key, value) = &patch.items[0] {
        assert_eq!("foo", *key);
        assert_eq!("bar", *value);
    } else {
        panic!();
    }
}

#[test]
fn test_change_tag() {
    let elem_a = elem(Id::new(), "foo", vec![], vec![], vec![]);
    let elem_b = elem(Id::new(), "bar", vec![], vec![], vec![]);
    let old = Frame::from_vnode(elem_a);
    let new = RenderResult::from_vnode(elem_b);
    let patch = diff(&old, &new);

    assert_eq!(patch.translations.len(), 0);
    assert_eq!(patch.items.len(), 1);
    if let PatchItem::Replace(VNode::Element(node)) = &patch.items[0] {
        assert_eq!(node.id, new.vdom.id());
        assert_eq!(node.tag, "bar");
    } else {
        panic!()
    }
}

#[test]
fn test_add_event() {
    let elem_a = elem(Id::new(), "foo", vec![], vec![], vec![]);
    let handler = EventHandler { name: "click".to_string(), no_propagate: true, prevent_default: false };
    let elem_b = elem(Id::new(), "foo", vec![], vec![handler], vec![]);
    let old = Frame::from_vnode(elem_a);
    let new = RenderResult::from_vnode(elem_b);
    let patch = diff(&old, &new);

    assert_eq!(patch.items.len(), 1);
    if let PatchItem::Replace(_) = patch.items[0] {
    } else {
        panic!()
    }
}

#[test]
fn test_add_child() {
    let elem_a = elem(Id::new(), "foo", vec![], vec![], vec![]);
    let child = elem(Id::new(), "bla", vec![], vec![], vec![]);
    let elem_b = elem(Id::new(), "foo", vec![], vec![], vec![child]);
    let old = Frame::from_vnode(elem_a);
    let new = RenderResult::from_vnode(elem_b);
    let patch = diff(&old, &new);

    assert_eq!(patch.translations.len(), 1);
    assert_eq!(patch.items.len(), 2);
    assert!(matches!(&patch.items[0], PatchItem::Descend()));
    if let PatchItem::AppendSibling(VNode::Element(child)) = &patch.items[1] {
        assert_eq!(child.tag, "bla");
    } else {
        panic!()
    }
}

#[test]
fn test_output_patch() {
    let click = EventHandler { name: "click".to_string(), no_propagate: false, prevent_default: false };
    let enter = EventHandler { name: "mouseenter".to_string(), no_propagate: false, prevent_default: false };
    let span = elem(Id::new(), "span", vec![], vec![], vec![VNode::text("Hello, World")]);
    let elem_b = elem(
        Id::new(),
        "div",
        vec![Attr::new("class", "foo"), Attr::new("id", "bar")],
        vec![click, enter],
        vec![span],
    );

    let new = RenderResult::from_vnode(elem_b);
    let patch = Patch::from_dom(&new);
    let serialized = serialize(&new, &patch);
    assert!(!serialized.is_empty());
}

fn le32(n: u32) -> Vec<u8> {
    n.to_le_bytes().to_vec()
}

fn str_bytes(s: &str) -> Vec<u8> {
    let mut out = le32(s.len() as u32);
    out.extend_from_slice(s.as_bytes());
    out
}

/// A `div` with the html id `html-id` and one text child, as a component renders it.
fn div_with_text(text: &str) -> VNode {
    elem(Id::new_empty(), "div", vec![Attr::new("id", "html-id")], vec![], vec![VNode::text(text)])
}

#[test]
fn serialize_whole_dom() {
    let dom = div_with_text("1");
    let rendered = RenderResult::from_vnode(div_with_text("1"));
    let mut patch = Patch::new();
    patch.push(PatchItem::Replace(&dom));
    let bytes = serialize(&rendered, &patch);

    let mut expected = vec![3u8, 0, 0];
    expected.extend(str_bytes("div"));
    expected.extend(le32(1));
    expected.extend(str_bytes("id"));
    expected.extend(str_bytes("html-id"));
    expected.extend(le32(0));
    expected.extend(le32(1));
    expected.push(1);
    expected.extend(str_bytes("1"));
    expected.push(0);
    assert_eq!(bytes, expected);
}

#[test]
fn diff_changed_text() {
    let old = Frame::from_vnode(div_with_text("1"));
    let new = RenderResult::from_vnode(div_with_text("2"));
    let patch = diff(&old, &new);
    assert_eq!(patch.items.len(), 2);
    assert!(matches!(&patch.items[0], PatchItem::Descend()));
    assert!(matches!(&patch.items[1], PatchItem::ChangeText(t) if *t == "2"));

    let bytes = serialize(&new, &patch);
    let mut expected = vec![6u8, 4];
    expected.extend(str_bytes("2"));
    assert_eq!(bytes, expected);
}

#[test]
fn diff_of_same_dom_is_empty() {
    let id = Id::new();
    let child = Id::new();
    let make = || {
        elem(
            id,
            "ul",
            vec![Attr::new("class", "list")],
            vec![],
            vec![elem(child, "li", vec![], vec![], vec![VNode::text("a")]), VNode::text("b")],
        )
    };
    let old = Frame::from_vnode(make());
    let new = RenderResult::from_vnode(make());
    let patch = diff(&old, &new);
    assert!(patch.is_empty());
    assert_eq!(patch.translations.get(&id.data()), Some(&id.data()));
}

#[test]
fn diff_removed_and_appended_children() {
    let old = Frame::from_vnode(elem(
        Id::new_empty(),
        "ul",
        vec![],
        vec![],
        vec![VNode::text("a"), VNode::text("b"), VNode::text("c")],
    ));
    let new = RenderResult::from_vnode(elem(Id::new_empty(), "ul", vec![], vec![], vec![VNode::text("a")]));
    let patch = diff(&old, &new);
    assert_eq!(patch.items.len(), 2);
    assert!(matches!(&patch.items[0], PatchItem::Descend()));
    assert!(matches!(&patch.items[1], PatchItem::TruncateSiblings()));

    let old2 = Frame::from_vnode(elem(Id::new_empty(), "ul", vec![], vec![], vec![VNode::text("a")]));
    let new2 = RenderResult::from_vnode(elem(
        Id::new_empty(),
        "ul",
        vec![],
        vec![],
        vec![VNode::text("a"), VNode::text("z")],
    ));
    let patch2 = diff(&old2, &new2);
    assert_eq!(patch2.items.len(), 2);
    assert!(matches!(&patch2.items[0], PatchItem::Descend()));
    assert!(matches!(&patch2.items[1], PatchItem::AppendSibling(VNode::Text(t)) if t == "z"));
}

fn with_js(js_events: Vec<Attr>, namespace: Option<&str>) -> VNode {
    VNode::element(VElement {
        id: Id::new_empty(),
        tag: "g".to_string(),
        attr: vec![],
        js_events,
        events: vec![],
        children: vec![],
        namespace: namespace.map(|x| x.to_string()),
    })
}

#[test]
fn diff_js_events_and_namespace() {
    let old = Frame::from_vnode(with_js(vec![Attr::new("click", "f()")], None));
    let new = RenderResult::from_vnode(with_js(vec![Attr::new("click", "f()")], None));
    assert!(diff(&old, &new).is_empty());

    let old = Frame::from_vnode(with_js(vec![Attr::new("click", "f()"), Attr::new("blur", "g()")], None));
    let new = RenderResult::from_vnode(with_js(vec![Attr::new("click", "h()"), Attr::new("focus", "k()")], None));
    let patch = diff(&old, &new);
    assert_eq!(patch.items.len(), 3);
    assert!(matches!(&patch.items[0], PatchItem::ReplaceJsEvent(k, v) if *k == "click" && *v == "h()"));
    assert!(matches!(&patch.items[1], PatchItem::AddJsEvent(k, v) if *k == "focus" && *v == "k()"));
    assert!(matches!(&patch.items[2], PatchItem::RemoveJsEvent(k) if *k == "blur"));

    let old = Frame::from_vnode(with_js(vec![], Some("http://www.w3.org/2000/svg")));
    let new = RenderResult::from_vnode(with_js(vec![], None));
    let patch = diff(&old, &new);
    assert_eq!(patch.items.len(), 1);
    assert!(matches!(&patch.items[0], PatchItem::Replace(_)));
}

#[test]
fn diff_blobs() {
    let blob_a = Blob::build(1).id(Id::new_from_data(7)).data(vec![1, 2]).mime_type("image/png").build();
    let blob_b = Blob::build(2).id(Id::new_from_data(7)).data(vec![3]).mime_type("image/png").build();
    let blob_c = Blob::build(5).id(Id::new_from_data(9)).build();
    let old = Frame::new(
        RenderResult {
        listeners: Arc::new(vec![]),
        subscriptions: Arc::new(vec![]),
        root_blobs: Arc::new(vec![]),
        root_rpcs: Arc::new(vec![]),
        vdom: Arc::new(VNode::text("x")), components: vec![], blobs: vec![blob_a, blob_c] },
        Default::default(),
    );
    let new = RenderResult {
        listeners: Arc::new(vec![]),
        subscriptions: Arc::new(vec![]),
        root_blobs: Arc::new(vec![]),
        root_rpcs: Arc::new(vec![]),
        vdom: Arc::new(VNode::text("x")), components: vec![], blobs: vec![blob_b] };
    let patch = diff(&old, &new);
    assert_eq!(patch.items.len(), 2);
    assert!(matches!(&patch.items[0], PatchItem::RemoveBlob(id) if id.data() == 9));
    assert!(matches!(&patch.items[1], PatchItem::AddBlob(b) if b.hash() == 2 && b.id().data() == 7));

    let bytes = serialize(&new, &patch);
    let mut expected = vec![14u8, 1];
    expected.extend(9u64.to_le_bytes());
    expected.extend([13u8, 1]);
    expected.extend(7u64.to_le_bytes());
    expected.extend(2u64.to_le_bytes());
    expected.extend(str_bytes("image/png"));
    expected.extend(le32(1));
    expected.push(3);
    assert_eq!(bytes, expected);
}

#[test]
fn components_are_serialized_in_place() {
    let comp_id = Id::new_from_data(42);
    let root = elem(Id::new_empty(), "div", vec![], vec![], vec![VNode::Placeholder(comp_id)]);
    let rendered = RenderResult {
        listeners: Arc::new(vec![]),
        subscriptions: Arc::new(vec![]),
        root_blobs: Arc::new(vec![]),
        root_rpcs: Arc::new(vec![]),
        vdom: Arc::new(root),
        components: vec![rc(comp_id, VNode::text("hi"))],
        blobs: vec![],
    };
    let patch = Patch::from_dom(&rendered);
    let bytes = serialize(&rendered, &patch);
    let mut expected = vec![3u8, 0, 0];
    expected.extend(str_bytes("div"));
    expected.extend(le32(0));
    expected.extend(le32(0));
    expected.extend(le32(1));
    expected.push(1);
    expected.extend(str_bytes("hi"));
    expected.push(0);
    assert_eq!(bytes, expected);
    assert!(rendered.get_component_vdom(comp_id).is_some());
    assert!(rendered.get_component_vdom(Id::new_from_data(43)).is_none());
}

#[test]
fn optimize_strips_trailing_moves() {
    let t = VNode::text("a");
    let mut patch = Patch::new();
    patch.push(PatchItem::Descend());
    patch.push(PatchItem::Replace(&t));
    patch.push(PatchItem::NextNode());
    patch.push(PatchItem::Ascend());
    patch.push(PatchItem::Ascend());
    patch.optimize();
    assert_eq!(patch.items.len(), 2);
    assert!(matches!(&patch.items[1], PatchItem::Replace(_)));

    let mut moves_only = Patch::new();
    moves_only.push(PatchItem::Descend());
    moves_only.push(PatchItem::Ascend());
    assert!(!moves_only.is_empty());
    moves_only.optimize();
    assert!(moves_only.is_empty());

    let mut twice = Patch::new();
    twice.push(PatchItem::Descend());
    twice.push(PatchItem::ChangeText("x"));
    twice.push(PatchItem::Ascend());
    twice.optimize();
    assert_eq!(twice.items.len(), 2);
    twice.optimize();
    assert_eq!(twice.items.len(), 2);
}

#[test]
fn path_push_pop() {
    let mut path = Path::new();
    path.push(3);
    path.push(5);
    assert_eq!(path.pop(), Some(5));
    assert_eq!(path.pop(), Some(3));
    assert_eq!(path.pop(), None);
}

#[test]
fn node_ids() {
    let id = Id::new();
    assert_eq!(elem(id, "p", vec![], vec![], vec![]).id(), id);
    assert!(VNode::text("x").id().is_empty());
    assert_eq!(VNode::Placeholder(id).id(), id);
    assert!(matches!(VNode::from_string("y"), VNode::Text(t) if t == "y"));
}

fn rc(id: Id, vdom: VNode) -> Arc<RenderedComponent> {
    let mut children = Vec::new();
    collect_placeholders(&vdom, &mut children);
    Arc::new(RenderedComponent {
        id,
        children,
        vdom,
        listeners: vec![],
        subscriptions: vec![],
        blobs: vec![],
        rpcs: vec![],
    })
}
