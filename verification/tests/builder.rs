//! Building elements with a `NodeBuilder`.

use greenhorn::component::Updated;
use greenhorn::node::{render_node, Node};
use greenhorn::node_builder::NodeBuilder;
use greenhorn::vdom::VNode;

fn builder() -> NodeBuilder<Updated> {
    NodeBuilder::new()
}

#[test]
fn test_builder() {
    let elem = builder().elem("div").attr("class", "foo").attr("foo", "bar").on("click").build();
    if let Node::Element(e) = elem {
        assert_eq!(e.tag, "div");
        let listener = e.listeners.get(0).unwrap();
        assert_eq!(listener.event, "click");
        assert!(!e.id.is_empty());
    } else {
        panic!()
    }
}

#[test]
fn test_namespace() {
    let node = NodeBuilder::<()>::new_with_ns("http://www.w3.org/2000/svg").elem("svg").build();
    if let Node::Element(e) = node {
        assert_eq!(e.namespace, Some("http://www.w3.org/2000/svg".into()))
    } else {
        panic!()
    }
}

#[test]
fn test_listener() {
    let node =
        builder().elem("div").attr("test", "foo").listener("click").prevent_default().no_propagate().build().attr("foo", "bar").build();
    if let Node::Element(elem) = node {
        let attrs = &elem.attrs;
        assert_eq!(attrs.len(), 2);
        assert_eq!(attrs[0].key, "test");
        assert_eq!(attrs[0].value, "foo");
        assert_eq!(attrs[1].key, "foo");
        assert_eq!(attrs[1].value, "bar");
        let listeners = &elem.listeners;
        assert_eq!(listeners.len(), 1);
        assert_eq!(listeners[0].event, "click");
        assert!(listeners[0].no_propagate);
        assert!(listeners[0].prevent_default);
        assert!(!elem.id.is_empty());
    } else {
        panic!()
    }
}

#[test]
fn test_children() {
    let node = builder().elem("div").add(builder().elem("pre").build()).build();
    if let Node::Element(elem) = node {
        assert_eq!(elem.tag, "div");
        assert_eq!(elem.children.len(), 1);
        if let Node::Element(elem) = &elem.children[0] {
            assert_eq!(elem.tag, "pre");
        } else {
            panic!();
        }
    } else {
        panic!();
    }
}

#[test]
fn classes_and_html_id_become_attributes() {
    let b = builder().elem("p").class("a").class("b").id("main").attr("x", "1").js_event("click", "f()").rpc();
    let id = b.node_id();
    assert!(!id.is_empty());
    let b = b.on("input");
    assert_eq!(b.node_id().data(), id.data());
    let node = b.text("hi").build();
    let t = render_node(node).expect("one DOM node");
    match &t.vdom {
        VNode::Element(e) => {
            let attrs: Vec<(String, String)> = e.attr.iter().map(|a| (a.key.clone(), a.value.clone())).collect();
            assert_eq!(
                attrs,
                vec![
                    ("x".to_string(), "1".to_string()),
                    ("class".to_string(), "a b".to_string()),
                    ("id".to_string(), "main".to_string())
                ]
            );
            assert_eq!(e.js_events[0].value, "f()");
            assert_eq!(e.events[0].name, "input");
            assert!(matches!(&e.children[0], VNode::Text(x) if x == "hi"));
        }
        _ => panic!(),
    }
    assert_eq!(t.rpcs[0].data(), id.data());
    assert_eq!(t.listeners[0].node.data(), id.data());
    let plain = builder().elem("p").build();
    assert!(matches!(plain, Node::Element(e) if e.id.is_empty()));
    assert!(matches!(builder().text("t"), Node::Text(x) if x == "t"));
}
