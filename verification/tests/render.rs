//! The render cycle: a full render from the root, and a render that only
//! renders again the components that changed.

use greenhorn::blob::Blob;
use greenhorn::node::{render_node, Node, NodeElement, NodeListener};
use greenhorn::render::{ComponentRenderer, Frame, ListenerKey, RenderRefusal, RenderResult, RenderedComponent, RenderedTree};
use greenhorn::runtime::{render_frame, RenderPlan};
use greenhorn::vdom::{Attr, VElement, VNode};
use greenhorn::Id;
use std::collections::HashMap;
use std::sync::Arc;

struct Renderer {
    version: u64,
    renders: Vec<u64>,
    mounts: HashMap<u64, Vec<u64>>,
    empty: Vec<u64>,
}

impl Renderer {
    fn new(mounts: &[(u64, &[u64])]) -> Renderer {
        Renderer { version: 0, renders: vec![], mounts: mounts.iter().map(|(k, v)| (*k, v.to_vec())).collect(), empty: vec![] }
    }
}

fn div(id: u64, listener: &str, children: Vec<Node>) -> Node {
    Node::Element(NodeElement {
        id: Id::new_from_data(id),
        tag: "div".to_string(),
        attrs: vec![],
        js_events: vec![],
        listeners: vec![NodeListener { event: listener.to_string(), no_propagate: false, prevent_default: false }],
        children,
        namespace: None,
        rpc: false,
    })
}

impl ComponentRenderer for Renderer {
    fn render_component(&mut self, id: Id) -> Node {
        self.renders.push(id.data());
        if self.empty.contains(&id.data()) {
            return Node::Blob(Blob::build(0).build());
        }
        let mut children = vec![Node::Text(format!("{}:{}", id.data(), self.version))];
        for m in self.mounts.get(&id.data()).cloned().unwrap_or_default() {
            children.push(Node::Component(Id::new_from_data(m)));
        }
        children.push(Node::Subscription(Id::new_from_data(id.data() + 1000)));
        children.push(Node::Blob(Blob::build(self.version + 1).id(Id::new_from_data(id.data() + 500)).build()));
        div(id.data() + 100, "click", children)
    }
}

fn text_of(n: &VNode) -> String {
    match n {
        VNode::Element(e) => match &e.children[0] {
            VNode::Text(t) => t.clone(),
            _ => String::new(),
        },
        _ => String::new(),
    }
}

fn root_tree(mounts: &[u64]) -> Node {
    let mut children: Vec<Node> = mounts.iter().map(|m| Node::Component(Id::new_from_data(*m))).collect();
    children.push(Node::Subscription(Id::new_from_data(8)));
    children.push(Node::Blob(Blob::build(3).id(Id::new_from_data(9)).build()));
    div(7, "input", children)
}

fn ids(r: &RenderResult) -> Vec<u64> {
    let mut v: Vec<u64> = r.components.iter().map(|c| c.id.data()).collect();
    v.sort();
    v
}

#[test]
fn full_render_renders_every_mounted_component_once() {
    let mut renderer = Renderer::new(&[(1, &[2, 3]), (2, &[4])]);
    let r = RenderResult::new_from_root(root_tree(&[1]), &mut renderer).expect("rendered");
    assert_eq!(ids(&r), vec![1, 2, 3, 4]);
    let mut renders = renderer.renders.clone();
    renders.sort();
    assert_eq!(renders, vec![1, 2, 3, 4]);
    assert_eq!(r.listeners.len(), 1);
    assert_eq!(r.listeners[0].event, "input");
    assert_eq!(r.subscriptions.iter().map(|s| s.data()).collect::<Vec<_>>(), vec![8]);
    assert_eq!(r.root_blobs.iter().map(|s| s.data()).collect::<Vec<_>>(), vec![9]);
    let mut blobs: Vec<u64> = r.blobs.iter().map(|b| b.id().data()).collect();
    blobs.sort();
    assert_eq!(blobs, vec![9, 501, 502, 503, 504]);
    let c2 = r.get_component_vdom(Id::new_from_data(2)).expect("component 2");
    assert_eq!(text_of(c2), "2:0");
    // parents come before the components they mount
    let pos = |x: u64| r.components.iter().position(|c| c.id.data() == x).unwrap();
    assert!(pos(1) < pos(2) && pos(2) < pos(4) && pos(1) < pos(3));
    let c1 = &r.components[pos(1)];
    assert_eq!(c1.children.iter().map(|c| c.data()).collect::<Vec<_>>(), vec![2, 3]);
    assert_eq!(c1.subscriptions[0].data(), 1001);
    assert_eq!(c1.blobs[0].data(), 501);
}

#[test]
fn root_without_components_renders_nothing_more() {
    let mut renderer = Renderer::new(&[]);
    let r = RenderResult::new_from_root(root_tree(&[]), &mut renderer).expect("rendered");
    assert!(r.components.is_empty());
    assert!(renderer.renders.is_empty());
    assert_eq!(r.blobs.len(), 1);
}

#[test]
fn render_from_frame_renders_only_changed_components() {
    let mut renderer = Renderer::new(&[(1, &[2, 3]), (2, &[4])]);
    let first = RenderResult::new_from_root(root_tree(&[1]), &mut renderer).expect("rendered");
    let old = Frame::new(first, HashMap::new());
    renderer.renders.clear();
    renderer.version = 1;
    let changed = vec![Id::new_from_data(2)];
    let second = RenderResult::new_from_frame(&old, &changed, &mut renderer).expect("rendered");
    assert_eq!(renderer.renders, vec![2]);
    assert_eq!(ids(&second), vec![1, 2, 3, 4]);
    assert_eq!(text_of(second.get_component_vdom(Id::new_from_data(2)).unwrap()), "2:1");
    assert_eq!(text_of(second.get_component_vdom(Id::new_from_data(4)).unwrap()), "4:0");
    // an unchanged component is the very same rendered state
    let find = |r: &RenderResult, x: u64| r.components.iter().find(|c| c.id.data() == x).unwrap().clone();
    assert!(Arc::ptr_eq(&find(&second, 1), &find(&old.rendered, 1)));
    assert!(!Arc::ptr_eq(&find(&second, 2), &find(&old.rendered, 2)));
    assert!(Arc::ptr_eq(&second.vdom, &old.rendered.vdom));
    assert!(Arc::ptr_eq(&second.listeners, &old.rendered.listeners));
    // the blob of the changed component is the new one
    let blob = second.blobs.iter().find(|b| b.id().data() == 502).unwrap();
    assert_eq!(blob.hash(), 2);
    let kept = second.blobs.iter().find(|b| b.id().data() == 501).unwrap();
    assert_eq!(kept.hash(), 1);
    assert!(second.blobs.iter().any(|b| b.id().data() == 9));
}

#[test]
fn render_from_frame_without_changes_renders_nothing() {
    let mut renderer = Renderer::new(&[(1, &[2])]);
    let first = RenderResult::new_from_root(root_tree(&[1]), &mut renderer).expect("rendered");
    let old = Frame::new(first, HashMap::new());
    renderer.renders.clear();
    let second = RenderResult::new_from_frame(&old, &vec![], &mut renderer).expect("rendered");
    assert!(renderer.renders.is_empty());
    assert_eq!(ids(&second), vec![1, 2]);
}

#[test]
fn newly_mounted_component_is_rendered() {
    let mut renderer = Renderer::new(&[(1, &[])]);
    let first = RenderResult::new_from_root(root_tree(&[1]), &mut renderer).expect("rendered");
    let old = Frame::new(first, HashMap::new());
    renderer.renders.clear();
    renderer.mounts.insert(1, vec![5]);
    let second = RenderResult::new_from_frame(&old, &vec![Id::new_from_data(1)], &mut renderer).expect("rendered");
    let mut renders = renderer.renders.clone();
    renders.sort();
    assert_eq!(renders, vec![1, 5]);
    assert_eq!(ids(&second), vec![1, 5]);
}

#[test]
fn component_mounted_inside_itself_is_refused() {
    let mut renderer = Renderer::new(&[(1, &[2]), (2, &[1])]);
    match RenderResult::new_from_root(root_tree(&[1]), &mut renderer) {
        Err(RenderRefusal::MountConflict(_, rendered)) => {
            let mut v: Vec<u64> = rendered.iter().map(|c| c.id.data()).collect();
            v.sort();
            assert_eq!(v, vec![1, 2]);
        }
        other => panic!("unexpected {:?}", other.map(|_| ())),
    }
    let mut renderer = Renderer::new(&[(1, &[1])]);
    assert!(matches!(
        RenderResult::new_from_root(root_tree(&[1]), &mut renderer),
        Err(RenderRefusal::MountConflict(_, _))
    ));
}

#[test]
fn component_mounted_in_two_places_is_refused() {
    let mut renderer = Renderer::new(&[(1, &[3]), (2, &[3])]);
    assert!(matches!(
        RenderResult::new_from_root(root_tree(&[1, 2]), &mut renderer),
        Err(RenderRefusal::MountConflict(_, _))
    ));
    // the same component twice in one DOM is fine
    let mut renderer = Renderer::new(&[(1, &[3, 3])]);
    let r = RenderResult::new_from_root(root_tree(&[1]), &mut renderer).expect("rendered");
    assert_eq!(ids(&r), vec![1, 3]);
}

#[test]
fn nodes_not_rendering_to_one_dom_node_are_refused() {
    let mut renderer = Renderer::new(&[]);
    let root = Node::Subscription(Id::new_from_data(4));
    assert!(matches!(RenderResult::new_from_root(root, &mut renderer), Err(RenderRefusal::RootNotOneNode)));
    let mut renderer = Renderer::new(&[(1, &[2])]);
    renderer.empty.push(2);
    match RenderResult::new_from_root(root_tree(&[1]), &mut renderer) {
        Err(RenderRefusal::ComponentNotOneNode(id, Node::Blob(_), _, rendered)) => {
            assert_eq!(id.data(), 2);
            assert_eq!(rendered.len(), 1);
        }
        other => panic!("unexpected {:?}", other.map(|_| ())),
    }
}

#[test]
fn render_frame_sends_whole_render_then_only_changes() {
    let mut renderer = Renderer::new(&[(1, &[2])]);
    let plan = RenderPlan { from_root: true, diff_against_frame: false, changed: vec![] };
    let first = render_frame(&plan, None, root_tree(&[1]), &mut renderer).expect("rendered");
    assert!(first.patch.as_ref().map_or(false, |b| !b.is_empty()));
    assert!(first.frame.translations.is_empty());
    assert_eq!(ids(&first.frame.rendered), vec![1, 2]);

    // nothing changed: the diff is empty and nothing is sent
    renderer.renders.clear();
    let plan = RenderPlan { from_root: false, diff_against_frame: true, changed: vec![] };
    let same = render_frame(&plan, Some(&first.frame), root_tree(&[1]), &mut renderer).expect("rendered");
    assert!(renderer.renders.is_empty());
    assert!(same.patch.is_none());

    // component 2 changed: only it is rendered again and a patch is sent
    renderer.version = 1;
    let plan = RenderPlan { from_root: false, diff_against_frame: true, changed: vec![2] };
    let next = render_frame(&plan, Some(&first.frame), root_tree(&[1]), &mut renderer).expect("rendered");
    assert_eq!(renderer.renders, vec![2]);
    assert!(next.patch.is_some());
    assert_eq!(text_of(next.frame.rendered.get_component_vdom(Id::new_from_data(2)).unwrap()), "2:1");
}

#[test]
fn component_no_longer_mounted_is_dropped() {
    let mut renderer = Renderer::new(&[(1, &[2]), (2, &[3])]);
    let first = RenderResult::new_from_root(root_tree(&[1]), &mut renderer).expect("rendered");
    assert_eq!(ids(&first), vec![1, 2, 3]);
    let old = Frame::new(first, HashMap::new());
    renderer.mounts.insert(1, vec![]);
    let second = RenderResult::new_from_frame(&old, &vec![Id::new_from_data(1)], &mut renderer).expect("rendered");
    assert_eq!(ids(&second), vec![1]);
    assert!(!second.blobs.iter().any(|b| b.id().data() == 502));
}

#[test]
fn rendered_component_takes_what_its_render_yielded() {
    let inner = VNode::element(VElement {
        id: Id::new_from_data(30),
        tag: "p".to_string(),
        attr: vec![],
        js_events: vec![],
        events: vec![],
        children: vec![VNode::Placeholder(Id::new_from_data(6))],
        namespace: None,
    });
    let tree = RenderedTree {
        vdom: VNode::element(VElement {
            id: Id::new_from_data(31),
            tag: "div".to_string(),
            attr: vec![],
            js_events: vec![],
            events: vec![],
            children: vec![VNode::Placeholder(Id::new_from_data(4)), inner],
            namespace: None,
        }),
        listeners: vec![ListenerKey { node: Id::new_from_data(9), event: "keyup".to_string() }],
        subscriptions: vec![Id::new_from_data(12)],
        blobs: vec![Blob::build(5).id(Id::new_from_data(20)).build(), Blob::build(6).id(Id::new_from_data(21)).build()],
        rpcs: vec![Id::new_from_data(31)],
    };
    let (c, blobs) = RenderedComponent::from_tree(Id::new_from_data(3), tree);
    assert_eq!(c.id.data(), 3);
    assert_eq!(c.children.iter().map(|x| x.data()).collect::<Vec<_>>(), vec![4, 6]);
    assert_eq!(c.listeners[0].event, "keyup");
    assert_eq!(c.subscriptions[0].data(), 12);
    assert_eq!(c.blobs.iter().map(|x| x.data()).collect::<Vec<_>>(), vec![20, 21]);
    assert_eq!(blobs.iter().map(|b| b.hash()).collect::<Vec<_>>(), vec![5, 6]);
    assert_eq!(c.rpcs[0].data(), 31);
}

#[test]
fn node_renders_to_dom_and_registrations() {
    let button = Node::Element(NodeElement {
        id: Id::new_from_data(11),
        tag: "button".to_string(),
        attrs: vec![Attr::new("class", "b")],
        js_events: vec![Attr::new("click", "go()")],
        listeners: vec![
            NodeListener { event: "click".to_string(), no_propagate: true, prevent_default: false },
            NodeListener { event: "keyup".to_string(), no_propagate: false, prevent_default: true },
        ],
        children: vec![Node::Text("ok".to_string())],
        namespace: None,
        rpc: true,
    });
    let root = Node::Element(NodeElement {
        id: Id::new_from_data(10),
        tag: "div".to_string(),
        attrs: vec![],
        js_events: vec![],
        listeners: vec![NodeListener { event: "input".to_string(), no_propagate: false, prevent_default: false }],
        children: vec![
            Node::Subscription(Id::new_from_data(40)),
            button,
            Node::Blob(Blob::build(1).id(Id::new_from_data(50)).build()),
            Node::Component(Id::new_from_data(60)),
        ],
        namespace: Some("ns".to_string()),
        rpc: true,
    });
    let t = render_node(root).expect("one DOM node");
    match &t.vdom {
        VNode::Element(e) => {
            assert_eq!(e.id.data(), 10);
            assert_eq!(e.namespace.as_deref(), Some("ns"));
            assert_eq!(e.events.len(), 1);
            assert_eq!(e.children.len(), 2);
            match &e.children[0] {
                VNode::Element(b) => {
                    assert_eq!(b.tag, "button");
                    assert_eq!(b.attr[0].value, "b");
                    assert_eq!(b.js_events[0].key, "click");
                    assert_eq!(b.events.len(), 2);
                    assert!(b.events[0].no_propagate && !b.events[0].prevent_default);
                    assert!(b.events[1].prevent_default);
                    assert!(matches!(&b.children[0], VNode::Text(x) if x == "ok"));
                }
                _ => panic!("button expected"),
            }
            assert!(matches!(&e.children[1], VNode::Placeholder(x) if x.data() == 60));
        }
        _ => panic!("element expected"),
    }
    let keys: Vec<(u64, String)> = t.listeners.iter().map(|k| (k.node.data(), k.event.clone())).collect();
    assert_eq!(keys, vec![(11, "click".to_string()), (11, "keyup".to_string()), (10, "input".to_string())]);
    assert_eq!(t.subscriptions.iter().map(|x| x.data()).collect::<Vec<_>>(), vec![40]);
    assert_eq!(t.blobs.iter().map(|b| b.id().data()).collect::<Vec<_>>(), vec![50]);
    assert_eq!(t.rpcs.iter().map(|x| x.data()).collect::<Vec<_>>(), vec![11, 10]);
    assert!(render_node(Node::Blob(Blob::build(1).build())).is_none());
}

#[test]
fn component_from_node() {
    let (c, blobs) =
        RenderedComponent::from_node(Id::new_from_data(2), div(20, "click", vec![Node::Component(Id::new_from_data(5))]))
            .expect("one DOM node");
    assert_eq!(c.id.data(), 2);
    assert_eq!(c.children[0].data(), 5);
    assert_eq!(c.listeners[0].node.data(), 20);
    assert!(blobs.is_empty());
    assert!(RenderedComponent::from_node(Id::new_from_data(2), Node::Subscription(Id::new_from_data(1))).is_err());
}
