//! Marker traits for the closed set of condition kinds an integrator
//! declares. A condition kind is carried at runtime as a `u64` handle; these
//! traits only tag the integrator's own types that stand for those handles.

use vstd::prelude::*;

verus! {

/// A boolean-valued fact about an agent or the world, used as a key in a
/// world state.
pub trait Condition {

}

/// A condition whose value is derived from the world at large; the
/// integrator refreshes it once per tick.
pub trait WorldCondition {
    fn update(&mut self);
}

} // verus!
