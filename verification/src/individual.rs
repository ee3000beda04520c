//! The capability an individual must expose to the engine: a fitness value
//! and a pairwise compatibility test.

use vstd::prelude::*;
use crate::conf::MAX_FITNESS;

verus! {

/// An opaque candidate solution. The engine never looks inside an individual;
/// it only reads its fitness and asks whether two individuals are compatible.
///
/// Fitness is a fixed-point number in units of `1 / SCALE` (see [`crate::conf::SCALE`])
/// and is never negative; `None` means the individual has not been evaluated
/// yet. Implementations must keep `fitness` consistent with `spec_fitness`
/// and must not report a fitness above [`MAX_FITNESS`].
pub trait Individual: Sized {
    /// The fitness the individual currently reports, as a mathematical value.
    spec fn spec_fitness(&self) -> Option<u64>;

    /// What `is_compatible` returns, as a mathematical predicate.
    spec fn spec_compatible(&self, other: &Self) -> bool;

    /// The fitness of this individual, if it has been evaluated.
    fn fitness(&self) -> (r: Option<u64>)
        ensures
            r == self.spec_fitness(),
            r matches Some(f) ==> f <= MAX_FITNESS,
    ;

    /// Whether `other` belongs to the same compatibility cluster as `self`.
    /// Symmetry is expected of implementations but not relied upon.
    fn is_compatible(&self, other: &Self) -> (r: bool)
        ensures
            r == self.spec_compatible(other),
    ;
}

} // verus!
