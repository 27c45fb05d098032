//! Client-side state synchronization engine for a real-time multiplayer
//! arena game.
//!
//! The library receives authoritative world snapshots over a byte-oriented
//! transport, reconstructs a smoothly animated local world from them, and
//! produces compact input packets to send back.  All numeric animation state
//! is kept in Q16.16 fixed point so that every rule — the wire codec, the
//! message catalog, the census reconciliation, the interpolation primitives
//! and the player lifecycle — is deterministic and fully verified.
//!
//! Rendering, DOM/canvas plumbing and the actual network transport are
//! external collaborators: they consume per-entity render state and produce
//! byte buffers, and live outside this crate.

pub mod binary;
pub mod engine;
pub mod fx;
pub mod laws;
pub mod protocol;
pub mod reconcile;
pub mod util;

use vstd::prelude::*;

verus! {

} // verus!
