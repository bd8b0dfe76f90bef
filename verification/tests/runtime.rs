use greenhorn::component::Updated;
use greenhorn::node::{Node, NodeElement};
use greenhorn::render::{ComponentRenderer, Frame, RenderResult};
use greenhorn::runtime::{
    render_frame, DialogQueue, RenderDecision, Scheduler, DEFAULT_RENDER_INTERVAL_MS, RENDER_RETRY_INTERVAL_MS,
};
use greenhorn::serialize::serialize;
use greenhorn::vdom::{Attr, Patch, PatchItem, VElement, VNode};
use greenhorn::Id;
use std::collections::HashMap;

#[test]
fn test() {}

fn render_plan(d: RenderDecision) -> (bool, bool, Vec<u64>) {
    match d {
        RenderDecision::Render(p) => {
            let mut changed = p.changed;
            changed.sort();
            changed.dedup();
            (p.from_root, p.diff_against_frame, changed)
        }
        RenderDecision::Defer(ms) => panic!("render deferred by {} ms", ms),
    }
}

#[test]
fn first_render_is_from_root() {
    let mut s = Scheduler::new();
    assert_eq!(s.start(), Some(DEFAULT_RENDER_INTERVAL_MS));
    assert_eq!(render_plan(s.on_render_timer()), (true, false, vec![]));
}

#[test]
fn renders_are_debounced() {
    let mut s = Scheduler::new();
    assert_eq!(s.on_update(&Updated::yes()), Some(DEFAULT_RENDER_INTERVAL_MS));
    assert_eq!(s.on_update(&Updated::yes()), None);
    assert_eq!(s.on_update(&Updated::from(Id::new_from_data(4))), None);
    assert_eq!(s.on_update(&Updated::no()), None);
    let _ = s.on_render_timer();
    assert_eq!(s.on_update(&Updated::no()), None);
    assert_eq!(s.on_update(&Updated::yes()), Some(DEFAULT_RENDER_INTERVAL_MS));
}

#[test]
fn invalidated_components_are_rendered_from_the_frame() {
    let mut s = Scheduler::new();
    let _ = s.start();
    let _ = s.on_render_timer();
    s.on_patch(true);
    let u = Updated::from(Id::new_from_data(4)).invalidate(Id::new_from_data(9));
    assert_eq!(s.on_update(&u), Some(DEFAULT_RENDER_INTERVAL_MS));
    assert_eq!(s.on_update(&Updated::from(Id::new_from_data(4))), None);
    assert_eq!(render_plan(s.on_render_timer()), (false, true, vec![4, 9]));
    // the render cleared the invalidation; a full update renders from the root
    s.on_patch(true);
    let _ = s.on_update(&Updated::yes());
    assert_eq!(render_plan(s.on_render_timer()), (true, true, vec![]));
}

#[test]
fn render_is_deferred_while_frame_pending() {
    let mut s = Scheduler::new();
    let _ = s.start();
    let _ = s.on_render_timer();
    s.on_patch(false);
    let _ = s.on_update(&Updated::yes());
    for _ in 0..3 {
        assert!(matches!(s.on_render_timer(), RenderDecision::Defer(ms) if ms == RENDER_RETRY_INTERVAL_MS));
    }
    // after three deferrals the render is made anyway, from the root
    assert_eq!(render_plan(s.on_render_timer()), (true, false, vec![]));
}

#[test]
fn applied_frame_ends_deferral() {
    let mut s = Scheduler::new();
    let _ = s.start();
    let _ = s.on_render_timer();
    s.on_patch(false);
    let _ = s.on_update(&Updated::from(Id::new_from_data(2)));
    assert!(matches!(s.on_render_timer(), RenderDecision::Defer(_)));
    assert!(s.on_frame_applied());
    assert!(!s.on_frame_applied());
    assert_eq!(render_plan(s.on_render_timer()), (false, true, vec![2]));
}

#[test]
fn dialogs_are_shown_in_order() {
    let mut q = DialogQueue::new();
    assert!(q.is_empty());
    assert!(q.first().is_none());
    assert!(q.request("first"));
    assert!(!q.request("second"));
    assert!(!q.request("third"));
    assert_eq!(q.first(), Some(&"first"));
    assert_eq!(q.answer(), "first");
    assert_eq!(q.first(), Some(&"second"));
    assert_eq!(q.answer(), "second");
    assert!(!q.request("fourth"));
    assert_eq!(q.answer(), "third");
    assert_eq!(q.answer(), "fourth");
    assert!(q.is_empty());
    assert!(q.request("fifth"));
}

/// An application whose whole DOM is a `div` showing a counter.
struct DummyComponent(u32);

impl DummyComponent {
    fn update(&mut self) -> Updated {
        self.0 += 1;
        Updated::yes()
    }

    fn render(&self) -> Node {
        Node::Element(NodeElement {
            id: Id::new_empty(),
            tag: "div".to_string(),
            attrs: vec![Attr::new("id", "html-id")],
            js_events: vec![],
            listeners: vec![],
            children: vec![Node::Text(self.0.to_string())],
            namespace: None,
            rpc: false,
        })
    }
}

/// The application mounts no component.
struct NoComponents;

impl ComponentRenderer for NoComponents {
    fn render_component(&mut self, _id: Id) -> Node {
        panic!("no component is mounted")
    }
}

fn counter_div(text: &str) -> VNode {
    VNode::element(VElement {
        id: Id::new_empty(),
        tag: "div".to_string(),
        attr: vec![Attr::new("id", "html-id")],
        js_events: vec![],
        events: vec![],
        children: vec![VNode::Text(text.to_string())],
        namespace: None,
    })
}

fn make_patch(patch: Vec<PatchItem>) -> Vec<u8> {
    let patch = Patch { items: patch, translations: HashMap::new() };
    let render_result = RenderResult::from_vnode(VNode::text(""));
    serialize(&render_result, &patch)
}

/// Fires the render timer until the scheduler renders, and renders.
fn render(s: &mut Scheduler, app: &DummyComponent, shown: Option<&Frame>) -> (Frame, Option<Vec<u8>>) {
    for _ in 0..10 {
        if let RenderDecision::Render(plan) = s.on_render_timer() {
            let old = if plan.diff_against_frame { shown } else { None };
            let out = render_frame(&plan, old, app.render(), &mut NoComponents).expect("rendered");
            s.on_patch(out.patch.is_none());
            return (out.frame, out.patch);
        }
    }
    panic!("the render was put off forever")
}

#[test]
fn test_empty_render() {
    let app = DummyComponent(1);
    let mut s = Scheduler::new();
    assert!(s.start().is_some());
    let (_, patch) = render(&mut s, &app, None);
    let elem = counter_div("1");
    let serialized = make_patch(vec![PatchItem::Replace(&elem)]);
    assert_eq!(serialized, patch.expect("a patch is sent"));
}

#[test]
fn test_empty_render_plus_update() {
    let mut app = DummyComponent(1);
    let mut s = Scheduler::new();
    let _ = s.start();
    let (frame, patch) = render(&mut s, &app, None);
    assert!(patch.is_some());
    let updated = app.update();
    assert!(s.on_update(&updated).is_some());
    assert!(s.on_frame_applied());
    let (_, patch) = render(&mut s, &app, Some(&frame));
    let new_text = "2";
    let serialized = make_patch(vec![PatchItem::Descend(), PatchItem::ChangeText(&new_text)]);
    assert_eq!(serialized, patch.expect("a patch is sent"));
}

#[test]
fn test_rerender_if_timeout() {
    let mut app = DummyComponent(1);
    let mut s = Scheduler::new();
    let _ = s.start();
    let (_frame, patch) = render(&mut s, &app, None);
    assert!(patch.is_some());
    let updated = app.update();
    assert!(s.on_update(&updated).is_some());
    // the frontend does not report the frame applied
    let (_, patch) = render(&mut s, &app, None);
    let elem = counter_div("2");
    let serialized = make_patch(vec![PatchItem::Replace(&elem)]);
    assert_eq!(patch.expect("a patch is sent"), serialized);
}
