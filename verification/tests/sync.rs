//! Applies diff patches to a simulated frontend and checks that it ends up
//! showing the new DOM.

use greenhorn::blob::Blob;
use greenhorn::diff::Differ;
use greenhorn::render::{collect_placeholders, Frame, RenderResult, RenderedComponent};
use greenhorn::vdom::{Attr, EventHandler, PatchItem, VElement, VNode};
use greenhorn::Id;
use std::collections::{BTreeMap, HashMap};
use std::sync::Arc;

#[derive(Debug, Clone, PartialEq)]
enum Shown {
    Elem {
        tag: String,
        namespace: Option<String>,
        attrs: BTreeMap<String, String>,
        js: BTreeMap<String, String>,
        events: Vec<(String, bool, bool)>,
        children: Vec<Shown>,
    },
    Text(String),
}

fn show(n: &VNode, comps: &[Arc<RenderedComponent>]) -> Shown {
    match n {
        VNode::Element(e) => Shown::Elem {
            tag: e.tag.clone(),
            namespace: e.namespace.clone(),
            attrs: e.attr.iter().map(|a| (a.key.clone(), a.value.clone())).collect(),
            js: e.js_events.iter().map(|a| (a.key.clone(), a.value.clone())).collect(),
            events: e.events.iter().map(|h| (h.name.clone(), h.no_propagate, h.prevent_default)).collect(),
            children: e.children.iter().map(|c| show(c, comps)).collect(),
        },
        VNode::Text(t) => Shown::Text(t.clone()),
        VNode::Placeholder(id) => {
            let comp = comps.iter().find(|c| c.id == *id).expect("component");
            show(&comp.vdom, comps)
        }
    }
}

fn at<'a>(root: &'a mut Shown, path: &[usize]) -> &'a mut Shown {
    let mut node = root;
    for &i in path {
        node = match node {
            Shown::Elem { children, .. } => &mut children[i],
            Shown::Text(_) => panic!("path leads through a text node"),
        };
    }
    node
}

fn elem_at<'a>(root: &'a mut Shown, path: &[usize]) -> (&'a mut BTreeMap<String, String>, &'a mut BTreeMap<String, String>, &'a mut Vec<Shown>) {
    match at(root, path) {
        Shown::Elem { attrs, js, children, .. } => (attrs, js, children),
        Shown::Text(_) => panic!("expected an element"),
    }
}

/// Applies the items as the frontend does: moves shift the cursor, edits
/// change the node under it (or its parent).
fn apply(items: &[PatchItem], root: &mut Shown, comps: &[Arc<RenderedComponent>]) {
    let mut cursor: Vec<usize> = vec![];
    for item in items {
        match item {
            PatchItem::Replace(n) => *at(root, &cursor) = show(n, comps),
            PatchItem::ChangeText(t) => match at(root, &cursor) {
                Shown::Text(x) => *x = t.to_string(),
                _ => panic!("expected text"),
            },
            PatchItem::Descend() => cursor.push(0),
            PatchItem::Ascend() => {
                cursor.pop().unwrap();
            }
            PatchItem::NextNode() => *cursor.last_mut().unwrap() += 1,
            PatchItem::RemoveChildren() => elem_at(root, &cursor).2.clear(),
            PatchItem::TruncateSiblings() => {
                let last = *cursor.last().unwrap();
                elem_at(root, &cursor[..cursor.len() - 1]).2.truncate(last + 1);
            }
            PatchItem::AppendSibling(n) => {
                let shown = show(n, comps);
                elem_at(root, &cursor[..cursor.len() - 1]).2.push(shown);
            }
            PatchItem::RemoveAttribute(k) => {
                elem_at(root, &cursor).0.remove(*k);
            }
            PatchItem::AddAtrribute(k, v) | PatchItem::ReplaceAttribute(k, v) => {
                elem_at(root, &cursor).0.insert(k.to_string(), v.to_string());
            }
            PatchItem::RemoveJsEvent(k) => {
                elem_at(root, &cursor).1.remove(*k);
            }
            PatchItem::AddJsEvent(k, v) | PatchItem::ReplaceJsEvent(k, v) => {
                elem_at(root, &cursor).1.insert(k.to_string(), v.to_string());
            }
            PatchItem::AddBlob(_) | PatchItem::RemoveBlob(_) => {}
        }
    }
}

fn el(tag: &str, attrs: &[(&str, &str)], children: Vec<VNode>) -> VNode {
    VNode::element(VElement {
        id: Id::new(),
        tag: tag.to_string(),
        attr: attrs.iter().map(|(k, v)| Attr::new(k, v)).collect(),
        js_events: vec![],
        events: vec![],
        children,
        namespace: None,
    })
}

fn txt(s: &str) -> VNode {
    VNode::text(s)
}

fn check_sync(old: RenderResult, new: RenderResult) {
    let mut frontend = show(&old.vdom, &old.components);
    let expected = show(&new.vdom, &new.components);
    let frame = Frame::new(old, HashMap::new());
    let patch = Differ::new(&frame, &new).diff();
    apply(&patch.items, &mut frontend, &new.components);
    assert_eq!(frontend, expected);
}

fn plain(vdom: VNode) -> RenderResult {
    RenderResult::from_vnode(vdom)
}

#[test]
fn sync_text_attrs_and_children() {
    check_sync(
        plain(el("ul", &[("class", "a")], vec![el("li", &[], vec![txt("1")]), txt("x")])),
        plain(el("ul", &[("class", "b"), ("id", "u")], vec![el("li", &[("k", "v")], vec![txt("2")])])),
    );
    check_sync(
        plain(el("div", &[], vec![])),
        plain(el("div", &[], vec![txt("a"), el("p", &[], vec![txt("b")]), txt("c")])),
    );
    check_sync(
        plain(el("div", &[("a", "1"), ("b", "2")], vec![txt("a"), txt("b"), txt("c")])),
        plain(el("div", &[("b", "3")], vec![])),
    );
    check_sync(
        plain(el("div", &[], vec![el("p", &[], vec![txt("a"), txt("b")]), txt("c"), txt("d")])),
        plain(el("div", &[], vec![el("p", &[], vec![txt("a")]), el("span", &[], vec![])])),
    );
    check_sync(plain(txt("a")), plain(el("p", &[], vec![txt("a")])));
}

#[test]
fn sync_events_and_namespaces() {
    let with_event = VNode::element(VElement {
        id: Id::new(),
        tag: "button".to_string(),
        attr: vec![],
        js_events: vec![Attr::new("click", "go()")],
        events: vec![EventHandler { name: "click".to_string(), no_propagate: false, prevent_default: true }],
        children: vec![txt("ok")],
        namespace: None,
    });
    check_sync(plain(el("div", &[], vec![el("button", &[], vec![txt("ok")])])), plain(el("div", &[], vec![with_event])));
}

#[test]
fn sync_components() {
    let a = Id::new_from_data(100);
    let b = Id::new_from_data(200);
    let old = RenderResult {
        listeners: Arc::new(vec![]),
        subscriptions: Arc::new(vec![]),
        root_blobs: Arc::new(vec![]),
        root_rpcs: Arc::new(vec![]),
        vdom: Arc::new(el("main", &[], vec![VNode::Placeholder(a), txt("tail")])),
        components: vec![
            rc(a, el("section", &[], vec![VNode::Placeholder(b)])),
            rc(b, txt("inner")),
        ],
        blobs: vec![],
    };
    let new = RenderResult {
        listeners: Arc::new(vec![]),
        subscriptions: Arc::new(vec![]),
        root_blobs: Arc::new(vec![]),
        root_rpcs: Arc::new(vec![]),
        vdom: Arc::new(el("main", &[], vec![VNode::Placeholder(a), txt("tail2")])),
        components: vec![
            rc(a, el("section", &[("x", "y")], vec![VNode::Placeholder(b)])),
            rc(b, txt("changed")),
        ],
        blobs: vec![],
    };
    check_sync(old, new);

    let c = Id::new_from_data(300);
    let old = RenderResult {
        listeners: Arc::new(vec![]),
        subscriptions: Arc::new(vec![]),
        root_blobs: Arc::new(vec![]),
        root_rpcs: Arc::new(vec![]),
        vdom: Arc::new(el("main", &[], vec![VNode::Placeholder(a)])),
        components: vec![rc(a, txt("A"))],
        blobs: vec![],
    };
    let new = RenderResult {
        listeners: Arc::new(vec![]),
        subscriptions: Arc::new(vec![]),
        root_blobs: Arc::new(vec![]),
        root_rpcs: Arc::new(vec![]),
        vdom: Arc::new(el("main", &[], vec![VNode::Placeholder(c)])),
        components: vec![rc(c, el("p", &[], vec![txt("C")]))],
        blobs: vec![],
    };
    check_sync(old, new);
}

#[test]
fn sync_blobs() {
    let blob = |id: u64, hash: u64| Blob::build(hash).id(Id::new_from_data(id)).build();
    let old = RenderResult {
        listeners: Arc::new(vec![]),
        subscriptions: Arc::new(vec![]),
        root_blobs: Arc::new(vec![]),
        root_rpcs: Arc::new(vec![]),
        vdom: Arc::new(txt("x")), components: vec![], blobs: vec![blob(1, 10), blob(2, 20), blob(3, 30)] };
    let new = RenderResult {
        listeners: Arc::new(vec![]),
        subscriptions: Arc::new(vec![]),
        root_blobs: Arc::new(vec![]),
        root_rpcs: Arc::new(vec![]),
        vdom: Arc::new(txt("x")), components: vec![], blobs: vec![blob(2, 20), blob(3, 31), blob(4, 40)] };
    let mut store: BTreeMap<u64, u64> = old.blobs.iter().map(|b| (b.id().data(), b.hash())).collect();
    let frame = Frame::new(old, HashMap::new());
    let patch = Differ::new(&frame, &new).diff();
    for item in &patch.items {
        match item {
            PatchItem::AddBlob(b) => {
                store.insert(b.id().data(), b.hash());
            }
            PatchItem::RemoveBlob(id) => {
                store.remove(&id.data());
            }
            _ => panic!("only blob items expected"),
        }
    }
    let expected: BTreeMap<u64, u64> = new.blobs.iter().map(|b| (b.id().data(), b.hash())).collect();
    assert_eq!(store, expected);
    assert_eq!(patch.items.len(), 3);
}

fn rc(id: Id, vdom: VNode) -> Arc<RenderedComponent> {
    let mut children = Vec::new();
    collect_placeholders(&vdom, &mut children);
    Arc::new(RenderedComponent {
        id,
        children,
        vdom,
        listeners: vec![],
        subscriptions: vec![],
        blobs: vec![],
        rpcs: vec![],
    })
}
