//! Greenhorn: build desktop and web applications whose state is synchronized
//! between a backend and a frontend at the level of the DOM.
//!
//! This crate holds the verified core of the library: the virtual DOM, the
//! render cycle that renders the components of an application (all of them,
//! or only those that changed), the diffing algorithm that turns two virtual
//! DOMs into a patch, the binary encoding of patches, a model of what a patch
//! does to the frontend's DOM (with the proof that the frontend stays in
//! sync), the scheduling decisions of the runtime, the matching of frontend
//! messages against the frame shown, the page hosting an application in a
//! web view, and the plain data types (blobs, dialogs, events, update
//! tracking, ...) that applications hand to the runtime.
use std::collections::hash_map::RandomState;
use std::hash::BuildHasher;
use vstd::prelude::*;

pub mod blob;
pub mod component;
pub mod components;
pub mod dialog;
pub mod diff;
pub mod dom;
pub mod event;
pub mod frontend;
pub mod node;
pub mod node_builder;
pub mod parser;
pub mod render;
pub mod runtime;
pub mod serialize;
pub mod service;
pub mod state;
pub mod services;
pub mod templating;
pub mod text;
pub mod vdom;
pub mod web_view;


verus! {

/// Identifies DOM nodes, blobs, components and events.
///
/// An `Id` whose underlying data is 0 is considered empty.
#[derive(Copy, Clone, Debug, PartialEq, Eq, Structural, Hash)]
pub struct Id {
    id: u64,
}

impl View for Id {
    type V = u64;

    closed spec fn view(&self) -> u64 {
        self.id
    }
}

/// Ids are equal exactly when their underlying data is equal.
pub proof fn lemma_id_eq(a: Id, b: Id)
    ensures
        (a == b) <==> (a@ == b@),
{
}

/// A fresh `RandomState`: its keys are random per thread and change with every call.
#[verifier::external_body]
fn fresh_random_state() -> (s: RandomState) {
    RandomState::new()
}

/// `BuildHasher::hash_one` of the value 0 under the given `RandomState`.
/// Nothing is stated of the value: it depends on the random keys of the state.
#[verifier::external_body]
fn hash_of_zero(s: &RandomState) -> (h: u64) {
    s.hash_one(0u64)
}

impl Id {
    /// Produces a new, non-empty `Id`.
    ///
    /// The value is drawn from a freshly keyed hasher, so that two ids produced
    /// by this function differ with overwhelming probability.
    pub fn new() -> (res: Id)
        ensures
            res@ != 0,
    {
        let state = fresh_random_state();
        Id::from_drawn(hash_of_zero(&state))
    }

    /// The id for a drawn value: the value itself, or 1 for 0, which marks
    /// the empty id.
    pub fn from_drawn(h: u64) -> (res: Id)
        ensures
            res@ == (if h == 0 {
                1
            } else {
                h
            }),
    {
        if h == 0 {
            Id { id: 1 }
        } else {
            Id { id: h }
        }
    }

    /// Initialize an `Id` from underlying data.
    pub fn new_from_data(data: u64) -> (res: Id)
        ensures
            res@ == data,
    {
        Id { id: data }
    }

    /// Returns an empty `Id`, i.e. one whose underlying data is 0.
    pub fn new_empty() -> (res: Id)
        ensures
            res@ == 0,
    {
        Id { id: 0 }
    }

    /// Returns the underlying data.
    pub fn data(self) -> (res: u64)
        ensures
            res == self@,
    {
        self.id
    }

    /// Returns whether the Id is considered empty, i.e. the underlying data is 0.
    pub fn is_empty(self) -> (res: bool)
        ensures
            res == (self@ == 0),
    {
        self.id == 0
    }
}

impl Default for Id {
    fn default() -> (res: Id)
        ensures
            res@ != 0,
    {
        Id::new()
    }
}

impl From<u64> for Id {
    fn from(id: u64) -> (res: Id)
        ensures
            res@ == id,
    {
        Id { id }
    }
}

impl vstd::std_specs::convert::FromSpecImpl<u64> for Id {
    open spec fn obeys_from_spec() -> bool {
        true
    }

    closed spec fn from_spec(v: u64) -> Id {
        Id { id: v }
    }
}

} // verus!
