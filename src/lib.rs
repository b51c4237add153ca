//! Port-to-process resolution and safe termination.
//!
//! The operating system is read and acted on by the caller; this crate holds
//! the decisions: which sockets count, how they join to processes, which
//! processes must never be killed, and how a kill attempt is judged.
use vstd::prelude::*;

pub mod protect;
pub mod text;
pub mod process;
pub mod ports;
pub mod kill;
pub mod elevate;

verus! {

} // verus!
