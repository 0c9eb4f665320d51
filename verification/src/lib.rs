//! Queue, transfer and picker rules of a file ferry between two machines.

use vstd::prelude::*;

pub mod text;
pub mod order;
pub mod path;
pub mod raw;
pub mod outside;
pub mod json;
pub mod util;
pub mod command;
pub mod error;
pub mod state;
pub mod herdr;
pub mod send;
pub mod outbox;
pub mod inbox;
pub mod ssh;
pub mod client;
pub mod doctor;
pub mod fuzzy;
pub mod gather;
pub mod picker;

verus! {

/// The version of both sides.
pub const VERSION: &'static str = "0.1.0";

} // verus!
