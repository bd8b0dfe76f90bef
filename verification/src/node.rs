//! The nodes a render produces, and their conversion into a virtual DOM and
//! the listeners, event subscriptions, blobs and rpc handlers they register.
use crate::blob::Blob;
use crate::render::{ListenerKey, RenderedTree};
use crate::vdom::{Attr, EventHandler, VElement, VNode};
use crate::Id;
use vstd::prelude::*;

verus! {

/// A DOM event listener an element registers: the name of the event and how
/// the frontend treats the event.
#[derive(Debug)]
pub struct NodeListener {
    pub event: String,
    pub no_propagate: bool,
    pub prevent_default: bool,
}

/// An element as a render produces it. `rpc` says whether the element has an
/// rpc handler.
#[derive(Debug)]
pub struct NodeElement {
    pub id: Id,
    pub tag: String,
    pub attrs: Vec<Attr>,
    pub js_events: Vec<Attr>,
    pub listeners: Vec<NodeListener>,
    pub children: Vec<Node>,
    pub namespace: Option<String>,
    pub rpc: bool,
}

/// What a render produces: elements, mounted components, text, blobs and
/// event subscriptions. Blobs and subscriptions are state of the frontend and
/// do not appear in the DOM.
#[derive(Debug)]
pub enum Node {
    Element(NodeElement),
    Component(Id),
    Text(String),
    Blob(Blob),
    Subscription(Id),
}

/// What a node registers beside its DOM, in the order of the node tree.
#[verifier::ext_equal]
pub struct Registrations {
    pub listeners: Seq<ListenerKey>,
    pub subscriptions: Seq<Id>,
    pub blobs: Seq<Blob>,
    pub rpcs: Seq<Id>,
}

/// Nothing registered.
pub open spec fn no_registrations() -> Registrations {
    Registrations { listeners: Seq::empty(), subscriptions: Seq::empty(), blobs: Seq::empty(), rpcs: Seq::empty() }
}

/// The registrations of `a`, then those of `b`.
pub open spec fn concat(a: Registrations, b: Registrations) -> Registrations {
    Registrations {
        listeners: a.listeners + b.listeners,
        subscriptions: a.subscriptions + b.subscriptions,
        blobs: a.blobs + b.blobs,
        rpcs: a.rpcs + b.rpcs,
    }
}

/// How many DOM nodes a node renders to.
pub open spec fn node_width(n: Node) -> nat {
    match n {
        Node::Blob(_) => 0,
        Node::Subscription(_) => 0,
        _ => 1,
    }
}

/// The event handler of the DOM element for a listener.
pub open spec fn handler_of(l: NodeListener) -> EventHandler {
    EventHandler { name: l.event, no_propagate: l.no_propagate, prevent_default: l.prevent_default }
}

/// The node renders to the DOM nodes `vs`: an element to an element with its
/// id, tag, attributes, javascript events, namespace, the handlers of its
/// listeners and its rendered children; a component to its placeholder; a text
/// to a text node; blobs and subscriptions to nothing.
pub open spec fn rendered_as(n: Node, vs: Seq<VNode>) -> bool
    decreases n,
{
    match n {
        Node::Element(e) => vs.len() == 1 && match vs[0] {
            VNode::Element(v) => {
                &&& v.id == e.id
                &&& v.tag == e.tag
                &&& v.attr == e.attrs
                &&& v.js_events == e.js_events
                &&& v.namespace == e.namespace
                &&& v.events@ == e.listeners@.map_values(|l: NodeListener| handler_of(l))
                &&& children_rendered_as(e.children@, v.children@)
            },
            _ => false,
        },
        Node::Component(id) => vs == seq![VNode::Placeholder(id)],
        Node::Text(t) => vs == seq![VNode::Text(t)],
        Node::Blob(_) => vs.len() == 0,
        Node::Subscription(_) => vs.len() == 0,
    }
}

/// The nodes render, one after the other, to the DOM nodes `vs`.
pub open spec fn children_rendered_as(ns: Seq<Node>, vs: Seq<VNode>) -> bool
    decreases ns,
{
    if ns.len() == 0 {
        vs.len() == 0
    } else {
        let w = node_width(ns.last()) as int;
        &&& w <= vs.len()
        &&& children_rendered_as(ns.drop_last(), vs.take(vs.len() - w))
        &&& rendered_as(ns.last(), vs.skip(vs.len() - w))
    }
}

/// What a node registers: the registrations of an element's children, then
/// its listeners, then its rpc handler; a subscription and a blob register
/// themselves.
pub open spec fn node_registered(n: Node) -> Registrations
    decreases n,
{
    match n {
        Node::Element(e) => concat(
            children_registered(e.children@),
            Registrations {
                listeners: e.listeners@.map_values(|l: NodeListener| ListenerKey { node: e.id, event: l.event }),
                subscriptions: Seq::empty(),
                blobs: Seq::empty(),
                rpcs: if e.rpc { seq![e.id] } else { Seq::empty() },
            },
        ),
        Node::Component(_) => no_registrations(),
        Node::Text(_) => no_registrations(),
        Node::Blob(b) => Registrations { blobs: seq![b], ..no_registrations() },
        Node::Subscription(id) => Registrations { subscriptions: seq![id], ..no_registrations() },
    }
}

/// What nodes register, one after the other.
pub open spec fn children_registered(ns: Seq<Node>) -> Registrations
    decreases ns,
{
    if ns.len() == 0 {
        no_registrations()
    } else {
        concat(children_registered(ns.drop_last()), node_registered(ns.last()))
    }
}

/// A node renders to as many DOM nodes as its width.
proof fn lemma_rendered_width(n: Node, vs: Seq<VNode>)
    requires
        rendered_as(n, vs),
    ensures
        vs.len() == node_width(n),
{
}

/// The registrations collected so far.
struct Collected {
    listeners: Vec<ListenerKey>,
    subscriptions: Vec<Id>,
    blobs: Vec<Blob>,
    rpcs: Vec<Id>,
}

impl Collected {
    spec fn view(&self) -> Registrations {
        Registrations {
            listeners: self.listeners@,
            subscriptions: self.subscriptions@,
            blobs: self.blobs@,
            rpcs: self.rpcs@,
        }
    }
}

/// How many DOM nodes a node renders to.
pub fn width_of(n: &Node) -> (res: usize)
    ensures
        res == node_width(*n),
{
    match n {
        Node::Blob(_) => 0,
        Node::Subscription(_) => 0,
        _ => 1,
    }
}

/// Renders a node, appending what it registers.
fn render_into(n: Node, out: &mut Collected) -> (res: Vec<VNode>)
    ensures
        rendered_as(n, res@),
        final(out).view() == concat(old(out).view(), node_registered(n)),
    decreases n,
{
    let ghost gn = n;
    match n {
        Node::Element(e) => {
            let ghost ge = e;
            let NodeElement { id, tag, attrs, js_events, listeners, children, namespace, rpc } = e;
            let ghost kids0 = children@;
            let ghost start = out.view();
            let mut children = children;
            let mut vkids: Vec<VNode> = Vec::new();
            let mut done: usize = 0;
            let nc = children.len();
            #[verifier::loop_isolation(false)]
            while children.len() > 0
                invariant
                    nc == kids0.len(),
                    gn == Node::Element(ge),
                    kids0 == ge.children@,
                    done + children@.len() == kids0.len(),
                    children@ == kids0.skip(done as int),
                    children_rendered_as(kids0.take(done as int), vkids@),
                    out.view() == concat(start, children_registered(kids0.take(done as int))),
                decreases children@.len(),
            {
                let c = children.remove(0);
                proof {
                    assert(c == kids0[done as int]);
                    assert(gn->Element_0 == ge);
                    assert(decreases_to!(gn => gn->Element_0));
                    assert(decreases_to!(ge => ge.children));
                    assert(decreases_to!(ge.children => ge.children@));
                    assert(decreases_to!(ge.children@ => ge.children@[done as int]));
                    assert(decreases_to!(gn => c));
                }
                let ghost before = vkids@;
                let ghost reg_before = out.view();
                let mut sub = render_into(c, out);
                let ghost subv = sub@;
                vkids.append(&mut sub);
                proof {
                    lemma_rendered_width(c, subv);
                    let t = kids0.take(done + 1);
                    assert(t.drop_last() =~= kids0.take(done as int));
                    assert(t.last() == c);
                    let w = node_width(c) as int;
                    assert(vkids@.take(vkids@.len() - w) =~= before);
                    assert(vkids@.skip(vkids@.len() - w) =~= subv);
                    assert(children_registered(t) == concat(children_registered(kids0.take(done as int)), node_registered(c)));
                    assert(children@ =~= kids0.skip(done + 1));
                    let a = start;
                    let b = children_registered(kids0.take(done as int));
                    let d = node_registered(c);
                    assert(concat(concat(a, b), d) =~= concat(a, concat(b, d))) by {
                        assert((a.listeners + b.listeners) + d.listeners =~= a.listeners + (b.listeners + d.listeners));
                        assert((a.subscriptions + b.subscriptions) + d.subscriptions =~= a.subscriptions + (b.subscriptions + d.subscriptions));
                        assert((a.blobs + b.blobs) + d.blobs =~= a.blobs + (b.blobs + d.blobs));
                        assert((a.rpcs + b.rpcs) + d.rpcs =~= a.rpcs + (b.rpcs + d.rpcs));
                    }
                }
                done = done + 1;
            }
            proof {
                assert(kids0.take(done as int) =~= kids0);
            }
            // the element's own listeners, then its rpc handler
            let ghost mid = out.view();
            let ghost ls0 = listeners@;
            let mut listeners = listeners;
            let mut events: Vec<EventHandler> = Vec::new();
            let mut k: usize = 0;
            let ghost lstart = out.listeners@;
            let nl = listeners.len();
            while listeners.len() > 0
                invariant
                    nl == ls0.len(),
                    k + listeners@.len() == ls0.len(),
                    listeners@ == ls0.skip(k as int),
                    events@ == ls0.take(k as int).map_values(|l: NodeListener| handler_of(l)),
                    out.listeners@ == lstart + ls0.take(k as int).map_values(
                        |l: NodeListener| ListenerKey { node: id, event: l.event },
                    ),
                    out.subscriptions@ == mid.subscriptions,
                    out.blobs@ == mid.blobs,
                    out.rpcs@ == mid.rpcs,
                decreases listeners@.len(),
            {
                let l = listeners.remove(0);
                proof {
                    assert(l == ls0[k as int]);
                }
                let name = l.event.clone();
                events.push(EventHandler { name, no_propagate: l.no_propagate, prevent_default: l.prevent_default });
                out.listeners.push(ListenerKey { node: id, event: l.event });
                proof {
                    assert(ls0.take(k + 1) =~= ls0.take(k as int).push(ls0[k as int]));
                    assert(listeners@ =~= ls0.skip(k + 1));
                }
                k = k + 1;
            }
            proof {
                assert(ls0.take(k as int) =~= ls0);
            }
            if rpc {
                out.rpcs.push(id);
            }
            let v = VElement { id, tag, attr: attrs, js_events, events, children: vkids, namespace };
            let mut res: Vec<VNode> = Vec::new();
            res.push(VNode::Element(v));
            proof {
                assert(res@[0] == VNode::Element(v));
                let own = Registrations {
                    listeners: ls0.map_values(|l: NodeListener| ListenerKey { node: id, event: l.event }),
                    subscriptions: Seq::empty(),
                    blobs: Seq::empty(),
                    rpcs: if rpc { seq![id] } else { Seq::empty() },
                };
                assert(out.view() =~= concat(mid, own));
                let a = start;
                let b = children_registered(kids0);
                assert(concat(concat(a, b), own) =~= concat(a, concat(b, own))) by {
                    assert((a.listeners + b.listeners) + own.listeners =~= a.listeners + (b.listeners + own.listeners));
                    assert((a.subscriptions + b.subscriptions) + own.subscriptions =~= a.subscriptions + (b.subscriptions + own.subscriptions));
                    assert((a.blobs + b.blobs) + own.blobs =~= a.blobs + (b.blobs + own.blobs));
                    assert((a.rpcs + b.rpcs) + own.rpcs =~= a.rpcs + (b.rpcs + own.rpcs));
                }
            }
            res
        },
        Node::Component(id) => {
            let mut res: Vec<VNode> = Vec::new();
            res.push(VNode::Placeholder(id));
            proof {
                assert(res@ =~= seq![VNode::Placeholder(id)]);
                assert(out.view() =~= concat(out.view(), no_registrations()));
            }
            res
        },
        Node::Text(t) => {
            let ghost gt = t;
            let mut res: Vec<VNode> = Vec::new();
            res.push(VNode::Text(t));
            proof {
                assert(res@ =~= seq![VNode::Text(gt)]);
                assert(out.view() =~= concat(out.view(), no_registrations()));
            }
            res
        },
        Node::Blob(b) => {
            let ghost gb = b;
            let ghost before = out.view();
            out.blobs.push(b);
            proof {
                assert(out.view() =~= concat(before, Registrations { blobs: seq![gb], ..no_registrations() }));
            }
            Vec::new()
        },
        Node::Subscription(id) => {
            let ghost before = out.view();
            out.subscriptions.push(id);
            proof {
                assert(out.view() =~= concat(before, Registrations { subscriptions: seq![id], ..no_registrations() }));
            }
            Vec::new()
        },
    }
}

/// Renders a node that renders to exactly one DOM node: its DOM, and the
/// listeners, event subscriptions, blobs and rpc handlers it registers, in the
/// order of the node tree. `None` when the node renders to no DOM node (a blob
/// or a subscription alone).
pub fn render_node(n: Node) -> (res: Option<RenderedTree>)
    ensures
        res is Some <==> node_width(n) == 1,
        res matches Some(t) ==> {
            &&& rendered_as(n, seq![t.vdom])
            &&& t.listeners@ == node_registered(n).listeners
            &&& t.subscriptions@ == node_registered(n).subscriptions
            &&& t.blobs@ == node_registered(n).blobs
            &&& t.rpcs@ == node_registered(n).rpcs
        },
{
    if width_of(&n) != 1 {
        return None;
    }
    let ghost gn = n;
    let mut out = Collected { listeners: Vec::new(), subscriptions: Vec::new(), blobs: Vec::new(), rpcs: Vec::new() };
    let mut vs = render_into(n, &mut out);
    proof {
        lemma_rendered_width(gn, vs@);
        assert(out.view() =~= node_registered(gn));
    }
    let ghost vs0 = vs@;
    let v = vs.pop().unwrap();
    proof {
        assert(vs0 =~= seq![v]);
    }
    Some(RenderedTree { vdom: v, listeners: out.listeners, subscriptions: out.subscriptions, blobs: out.blobs, rpcs: out.rpcs })
}

} // verus!
