//! Messages exchanged between a service running in the backend and the frontend.
use vstd::prelude::*;

verus! {

/// A message from a backend service to the frontend.
#[derive(Debug)]
pub enum TxServiceMessage {
    RunJs(String),
    LoadCss(String),
}

/// A message from the frontend to a backend service. `Stop` is sent when the
/// application shuts down.
#[derive(Debug)]
pub enum RxServiceMessage {
    Frontend(String),
    Stop,
}

} // verus!
