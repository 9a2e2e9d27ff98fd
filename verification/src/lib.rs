//! A small URL-shortening core: an in-memory registry of short codes with an
//! adaptive code length, a collision-handling allocator, and a resolver, plus
//! an unrelated task-list utility.

use vstd::prelude::*;

pub mod allocator;
pub mod registry;
pub mod shortener;
pub mod tasks;

verus! {

/// Errors surfaced by the shortening service.
#[derive(Clone, Copy, Debug, PartialEq, Eq, Structural)]
pub enum Error {
    /// No record exists for the requested short code.
    NotFound,
    /// The backing store failed; the operation was not completed.
    Internal,
    /// Every candidate code collided across the bounded number of growth
    /// rounds; the keyspace is judged saturated.
    CapacityExhausted,
}

} // verus!
