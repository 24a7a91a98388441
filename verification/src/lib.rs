//! Authenticated post-quantum WireGuard PSK exchange: wire values, the
//! exchange state model, private endpoint state transitions, and the
//! admission and policy rules around them.
use vstd::prelude::*;

pub mod admission;
pub mod api;
pub mod backend;
pub mod client;
pub mod codec;
pub mod crypto;
pub mod engine;
pub mod enrollment;
pub mod gate;
pub mod mailbox;
pub mod options;
pub mod paging;
pub mod protocol;
pub mod rosenpass;
pub mod state;
pub mod store;

verus! {

/// The protocol's error kinds.
#[derive(Debug, Clone, Copy, PartialEq, Eq, Structural)]
pub enum Error {
    /// Invalid protocol input.
    Invalid,
    /// A cryptographic operation failed.
    Crypto,
    /// Randomness was unavailable.
    Random,
    /// An invalid state transition.
    Conflict,
    /// The PSK installer failed.
    Installer,
}

} // verus!
