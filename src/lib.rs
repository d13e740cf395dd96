//! The prefix engine of a `head` utility: the first lines or bytes of each
//! source, with headers between sources and per-source failures kept apart.
use vstd::prelude::*;

pub mod config;
pub mod extract;
pub mod render;

verus! {

} // verus!
