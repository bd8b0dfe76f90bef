//! Matching messages from the frontend against the frame it shows.

use greenhorn::node::{Node, NodeElement, NodeListener};
use greenhorn::render::{ComponentRenderer, Frame, RenderResult};
use greenhorn::state::RenderedState;
use greenhorn::Id;
use std::collections::HashMap;

struct OneComponent;

impl ComponentRenderer for OneComponent {
    fn render_component(&mut self, id: Id) -> Node {
        Node::Element(NodeElement {
            id: Id::new_from_data(id.data() + 10),
            tag: "span".to_string(),
            attrs: vec![],
            js_events: vec![],
            listeners: vec![NodeListener { event: "click".to_string(), no_propagate: false, prevent_default: false }],
            children: vec![Node::Subscription(Id::new_from_data(77))],
            namespace: None,
            rpc: false,
        })
    }
}

fn frame(translations: HashMap<u64, u64>) -> Frame {
    let root = Node::Element(NodeElement {
        id: Id::new_from_data(7),
        tag: "div".to_string(),
        attrs: vec![],
        js_events: vec![],
        listeners: vec![NodeListener { event: "input".to_string(), no_propagate: false, prevent_default: false }],
        children: vec![Node::Component(Id::new_from_data(1)), Node::Subscription(Id::new_from_data(55))],
        namespace: None,
        rpc: true,
    });
    let rendered = RenderResult::new_from_root(root, &mut OneComponent).expect("rendered");
    Frame::new(rendered, translations)
}

#[test]
fn nothing_is_registered_before_a_frame() {
    let state = RenderedState::new();
    assert!(state.get_listener(Id::new_from_data(7), "input").is_none());
    assert!(!state.get_subscription(Id::new_from_data(55)));
}

#[test]
fn listeners_of_root_and_components_are_found() {
    let mut state = RenderedState::new();
    state.apply(&frame(HashMap::new()));
    let k = state.get_listener(Id::new_from_data(7), "input").expect("root listener");
    assert_eq!(k.node.data(), 7);
    assert_eq!(k.event, "input");
    let k = state.get_listener(Id::new_from_data(11), "click").expect("component listener");
    assert_eq!(k.node.data(), 11);
    assert!(state.get_listener(Id::new_from_data(7), "click").is_none());
    assert!(state.get_listener(Id::new_from_data(12), "click").is_none());
    assert_eq!(state.listeners.len(), 2);
}

#[test]
fn frontend_ids_are_translated_to_the_frame_nodes() {
    let mut translations = HashMap::new();
    translations.insert(7u64, 70u64);
    let mut state = RenderedState::new();
    state.apply(&frame(translations));
    let k = state.get_listener(Id::new_from_data(70), "input").expect("translated listener");
    assert_eq!(k.node.data(), 7);
    assert_eq!(state.translations.get(&70), Some(&7));
    assert!(state.get_listener(Id::new_from_data(70), "click").is_none());
}

#[test]
fn subscriptions_of_root_and_components_are_found() {
    let mut state = RenderedState::new();
    state.apply(&frame(HashMap::new()));
    assert!(state.get_subscription(Id::new_from_data(55)));
    assert!(state.get_subscription(Id::new_from_data(77)));
    assert!(!state.get_subscription(Id::new_from_data(56)));
}

#[test]
fn rpc_handlers_are_found_through_translations() {
    let mut translations = HashMap::new();
    translations.insert(7u64, 70u64);
    let mut state = RenderedState::new();
    assert!(state.get_rpc(Id::new_from_data(70)).is_none());
    state.apply(&frame(translations));
    assert_eq!(state.get_rpc(Id::new_from_data(70)).map(|x| x.data()), Some(7));
    assert!(state.get_rpc(Id::new_from_data(11)).is_none());
}
