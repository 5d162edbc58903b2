//! An in-memory short-code redirect store: codes are registered against
//! destination URLs, and each successful resolve of a code appends a visit
//! record to an append-only log.
use vstd::prelude::*;

pub mod clock;
pub mod entry;
pub mod store;
pub mod visit;

verus! {

/// The greeting served at the root path.
pub fn index() -> (r: &'static str)
    ensures
        r@ == "Hello, world!"@,
{
    proof {
        reveal_strlit("Hello, world!");
    }
    "Hello, world!"
}

} // verus!
