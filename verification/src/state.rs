//! What the frontend shows at present: the listeners and event
//! subscriptions of the frame it applied last, and the translation of the node
//! ids the frontend knows to the ids of that frame. Messages arriving from the
//! frontend are matched against it.
use crate::render::{Frame, ListenerKey, RenderResult, RenderedComponent};
use crate::Id;
use std::collections::HashMap;
use std::sync::Arc;
use vstd::prelude::*;

verus! {

broadcast use vstd::std_specs::hash::group_hash_axioms;

/// Inverts a translation map: each value is mapped back to a key that maps to
/// it.
fn invert(m: &HashMap<u64, u64>) -> (res: HashMap<u64, u64>)
    ensures
        forall|o: u64| #[trigger] res@.contains_key(o) ==> m@.contains_key(res@[o]) && m@[res@[o]] == o,
        forall|n: u64| #[trigger] m@.contains_key(n) ==> res@.contains_key(m@[n]),
{
    let mut out: HashMap<u64, u64> = HashMap::new();
    for (k, v) in it: m.iter()
        invariant
            forall|o: u64| #[trigger] out@.contains_key(o) ==> m@.contains_key(out@[o]) && m@[out@[o]] == o,
            forall|i: int| 0 <= i < it.index() ==> out@.contains_key(*(#[trigger] it.seq()[i]).1),
    {
        out.insert(*v, *k);
    }
    out
}

/// The listeners the components register, component after component.
pub open spec fn component_listeners(comps: Seq<Arc<RenderedComponent>>) -> Seq<ListenerKey>
    decreases comps.len(),
{
    if comps.len() == 0 {
        Seq::empty()
    } else {
        component_listeners(comps.drop_last()) + comps.last().listeners@
    }
}

/// The event subscriptions the components register, component after component.
pub open spec fn component_subscriptions(comps: Seq<Arc<RenderedComponent>>) -> Seq<Id>
    decreases comps.len(),
{
    if comps.len() == 0 {
        Seq::empty()
    } else {
        component_subscriptions(comps.drop_last()) + comps.last().subscriptions@
    }
}

/// The rpc handlers the components register, component after component.
pub open spec fn component_rpcs(comps: Seq<Arc<RenderedComponent>>) -> Seq<Id>
    decreases comps.len(),
{
    if comps.len() == 0 {
        Seq::empty()
    } else {
        component_rpcs(comps.drop_last()) + comps.last().rpcs@
    }
}

/// All rpc handlers a render registers: those of the root, then those of the
/// components.
pub open spec fn frame_rpcs(r: RenderResult) -> Seq<Id> {
    (*r.root_rpcs)@ + component_rpcs(r.components@)
}

/// All listeners a render registers: those of the root, then those of the
/// components.
pub open spec fn frame_listeners(r: RenderResult) -> Seq<ListenerKey> {
    (*r.listeners)@ + component_listeners(r.components@)
}

/// All event subscriptions a render registers: those of the root, then those
/// of the components.
pub open spec fn frame_subscriptions(r: RenderResult) -> Seq<Id> {
    (*r.subscriptions)@ + component_subscriptions(r.components@)
}

/// Whether a listener for the named event on the given node is registered.
pub open spec fn has_listener(keys: Seq<ListenerKey>, node: u64, event: Seq<char>) -> bool {
    exists|j: int| 0 <= j < keys.len() && (#[trigger] keys[j]).node@ == node && keys[j].event@ == event
}

/// The listeners and event subscriptions of the frame the frontend shows, and
/// the translation of the node ids the frontend knows to the ids of that frame.
pub struct RenderedState {
    pub listeners: Vec<ListenerKey>,
    pub subscriptions: Vec<Id>,
    pub rpcs: Vec<Id>,
    pub translations: HashMap<u64, u64>,
}

/// Appends clones of the given listeners.
fn push_listeners(out: &mut Vec<ListenerKey>, keys: &Vec<ListenerKey>)
    ensures
        final(out)@ == old(out)@ + keys@,
{
    let ghost start = out@;
    let mut j: usize = 0;
    while j < keys.len()
        invariant
            0 <= j <= keys.len(),
            out@ == start + keys@.take(j as int),
        decreases keys.len() - j,
    {
        out.push(keys[j].clone());
        proof {
            assert(keys@.take(j + 1) == keys@.take(j as int).push(keys@[j as int]));
        }
        j = j + 1;
    }
    proof {
        assert(keys@.take(keys@.len() as int) == keys@);
    }
}

/// Appends the given ids.
fn push_ids(out: &mut Vec<Id>, ids: &Vec<Id>)
    ensures
        final(out)@ == old(out)@ + ids@,
{
    let ghost start = out@;
    let mut j: usize = 0;
    while j < ids.len()
        invariant
            0 <= j <= ids.len(),
            out@ == start + ids@.take(j as int),
        decreases ids.len() - j,
    {
        out.push(ids[j]);
        proof {
            assert(ids@.take(j + 1) == ids@.take(j as int).push(ids@[j as int]));
        }
        j = j + 1;
    }
    proof {
        assert(ids@.take(ids@.len() as int) == ids@);
    }
}

impl RenderedState {
    /// The id of the frame's node that the frontend knows under the given id.
    pub open spec fn spec_node_of(&self, id: u64) -> u64 {
        if self.translations@.contains_key(id) {
            self.translations@[id]
        } else {
            id
        }
    }

    /// No frame shown yet: nothing registered and nothing translated.
    pub fn new() -> (res: RenderedState)
        ensures
            res.listeners@ == Seq::<ListenerKey>::empty(),
            res.subscriptions@ == Seq::<Id>::empty(),
            res.rpcs@ == Seq::<Id>::empty(),
            res.translations@ == Map::<u64, u64>::empty(),
    {
        RenderedState { listeners: Vec::new(), subscriptions: Vec::new(), rpcs: Vec::new(), translations: HashMap::new() }
    }

    /// Takes over the frame the frontend now shows: its listeners and event
    /// subscriptions, and the translations of its node ids, inverted so that
    /// an id the frontend knows leads to the node of the frame.
    pub fn apply(&mut self, frame: &Frame)
        ensures
            final(self).listeners@ == frame_listeners(frame.rendered),
            final(self).subscriptions@ == frame_subscriptions(frame.rendered),
            final(self).rpcs@ == frame_rpcs(frame.rendered),
            forall|o: u64| #[trigger] final(self).translations@.contains_key(o) ==> frame.translations@.contains_key(
                final(self).translations@[o],
            ) && frame.translations@[final(self).translations@[o]] == o,
            forall|n: u64| #[trigger] frame.translations@.contains_key(n) ==> final(self).translations@.contains_key(
                frame.translations@[n],
            ),
    {
        let r = &frame.rendered;
        let mut listeners: Vec<ListenerKey> = Vec::new();
        let mut subscriptions: Vec<Id> = Vec::new();
        push_listeners(&mut listeners, &*r.listeners);
        push_ids(&mut subscriptions, &*r.subscriptions);
        let mut rpcs: Vec<Id> = Vec::new();
        push_ids(&mut rpcs, &*r.root_rpcs);
        let ghost l0 = listeners@;
        let ghost s0 = subscriptions@;
        let ghost r0 = rpcs@;
        let mut i: usize = 0;
        while i < r.components.len()
            invariant
                0 <= i <= r.components@.len(),
                l0 == (*r.listeners)@,
                s0 == (*r.subscriptions)@,
                listeners@ == l0 + component_listeners(r.components@.take(i as int)),
                subscriptions@ == s0 + component_subscriptions(r.components@.take(i as int)),
                r0 == (*r.root_rpcs)@,
                rpcs@ == r0 + component_rpcs(r.components@.take(i as int)),
            decreases r.components@.len() - i,
        {
            let c = &r.components[i];
            push_listeners(&mut listeners, &c.listeners);
            push_ids(&mut subscriptions, &c.subscriptions);
            push_ids(&mut rpcs, &c.rpcs);
            proof {
                let t = r.components@.take(i + 1);
                assert(t.drop_last() == r.components@.take(i as int));
                assert(t.last() == r.components@[i as int]);
            }
            i = i + 1;
        }
        proof {
            assert(r.components@.take(r.components@.len() as int) == r.components@);
        }
        self.listeners = listeners;
        self.subscriptions = subscriptions;
        self.rpcs = rpcs;
        self.translations = invert(&frame.translations);
    }

    /// Finds the listener for the named event on the node the frontend knows
    /// under `target`.
    pub fn get_listener(&self, target: Id, name: &str) -> (res: Option<ListenerKey>)
        ensures
            match res {
                Some(k) => k.node@ == self.spec_node_of(target@) && k.event@ == name@ && has_listener(
                    self.listeners@,
                    k.node@,
                    k.event@,
                ),
                None => !has_listener(self.listeners@, self.spec_node_of(target@), name@),
            },
    {
        let node = match self.translations.get(&target.data()) {
            Some(n) => *n,
            None => target.data(),
        };
        let wanted = name.to_owned();
        let mut j: usize = 0;
        while j < self.listeners.len()
            invariant
                0 <= j <= self.listeners@.len(),
                node == self.spec_node_of(target@),
                wanted@ == name@,
                forall|i: int| 0 <= i < j ==> !((#[trigger] self.listeners@[i]).node@ == node
                    && self.listeners@[i].event@ == name@),
            decreases self.listeners@.len() - j,
        {
            let k = &self.listeners[j];
            if k.node.data() == node && k.event == wanted {
                assert(self.listeners@[j as int] == *k);
                return Some(k.clone());
            }
            j = j + 1;
        }
        None
    }

    /// Finds the rpc handler of the node the frontend knows under `target`: the
    /// id of that node, if the node has one.
    pub fn get_rpc(&self, target: Id) -> (res: Option<Id>)
        ensures
            match res {
                Some(n) => n@ == self.spec_node_of(target@) && crate::render::has_id(self.rpcs@, n@),
                None => !crate::render::has_id(self.rpcs@, self.spec_node_of(target@)),
            },
    {
        let node = match self.translations.get(&target.data()) {
            Some(n) => *n,
            None => target.data(),
        };
        let mut j: usize = 0;
        while j < self.rpcs.len()
            invariant
                0 <= j <= self.rpcs@.len(),
                node == self.spec_node_of(target@),
                forall|i: int| 0 <= i < j ==> (#[trigger] self.rpcs@[i])@ != node,
            decreases self.rpcs@.len() - j,
        {
            if self.rpcs[j].data() == node {
                return Some(self.rpcs[j]);
            }
            j = j + 1;
        }
        None
    }

    /// Whether the frame the frontend shows subscribed to the event.
    pub fn get_subscription(&self, event_id: Id) -> (res: bool)
        ensures
            res == crate::render::has_id(self.subscriptions@, event_id@),
    {
        let mut j: usize = 0;
        while j < self.subscriptions.len()
            invariant
                0 <= j <= self.subscriptions@.len(),
                forall|i: int| 0 <= i < j ==> (#[trigger] self.subscriptions@[i])@ != event_id@,
            decreases self.subscriptions@.len() - j,
        {
            if self.subscriptions[j].data() == event_id.data() {
                return true;
            }
            j = j + 1;
        }
        false
    }
}

} // verus!
