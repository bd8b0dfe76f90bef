//! Events connect components with each other: a component emits an event
//! during its update, and components subscribed to it are updated in turn.
use crate::Id;
use std::marker::PhantomData;
use vstd::prelude::*;

verus! {

/// An event carrying data of type `T`, identified by a unique id.
#[derive(Debug)]
pub struct Event<T> {
    id: Id,
    marker: PhantomData<T>,
}

impl<T> Event<T> {
    /// The id identifying this event.
    pub closed spec fn spec_id(&self) -> u64 {
        self.id@
    }

    /// Creates a new event with a fresh, non-empty id.
    pub fn new() -> (res: Event<T>)
        ensures
            res.spec_id() != 0,
    {
        Event { id: Id::new(), marker: PhantomData }
    }

    /// Emits the event with the given data, during an update.
    ///
    /// The emission carries the id of this event, by which the runtime finds
    /// the subscriptions to it.
    pub fn emit<V>(&self, value: V) -> (res: Emission<V>)
        ensures
            res.event_id@ == self.spec_id(),
            res.data == value,
    {
        Emission { event_id: self.id, data: value }
    }

    /// Subscribes to the event, during a render: `fun` turns the data of an
    /// emission of this event into a message.
    pub fn subscribe<M, F: Fn(T) -> M>(&self, fun: F) -> (res: Subscription<F>)
        ensures
            res.spec_id() == self.spec_id(),
            res.spec_handler() == fun,
    {
        Subscription { id: self.id, handler: fun }
    }
}

/// The data of an emitted event, tagged with the id of the event.
#[derive(Debug)]
pub struct Emission<V> {
    pub event_id: Id,
    pub data: V,
}

/// A subscription to an event: the id of the event and the handler that
/// turns the data of an emission into a message.
#[derive(Clone)]
pub struct Subscription<F> {
    id: Id,
    handler: F,
}

impl<F> Subscription<F> {
    /// The id of the event subscribed to.
    pub closed spec fn spec_id(&self) -> u64 {
        self.id@
    }

    /// The handler of the subscription.
    pub closed spec fn spec_handler(&self) -> F {
        self.handler
    }

    /// The id of the event subscribed to.
    pub fn id(&self) -> (res: Id)
        ensures
            res@ == self.spec_id(),
    {
        self.id
    }

    /// Turns the data of an emission into a message by the handler.
    pub fn call<V, M>(&self, value: V) -> (res: M)
        where F: Fn(V) -> M,
        requires
            self.spec_handler().requires((value,)),
        ensures
            self.spec_handler().ensures((value,), res),
    {
        (self.handler)(value)
    }
}

impl<T> Default for Event<T> {
    fn default() -> (res: Event<T>)
        ensures
            res.spec_id() != 0,
    {
        Event::new()
    }
}

impl<T> Clone for Event<T> {
    fn clone(&self) -> (res: Event<T>)
        ensures
            res.spec_id() == self.spec_id(),
    {
        Event { id: self.id, marker: PhantomData }
    }
}

} // verus!
