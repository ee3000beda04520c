//! Recoverable failures of the speciation engine.

use vstd::prelude::*;

verus! {

/// Failures surfaced to the caller. Invariant breaches (negative fitness,
/// duplicate species ids, a wrong final population size) are not represented
/// here: they are ruled out by the contracts of the library instead.
#[derive(Clone, Copy, Debug, PartialEq, Eq, Structural)]
pub enum SpeciationError {
    /// The total adjusted fitness over all species is zero, so an average
    /// adjusted fitness cannot be formed.
    ConfigurationError,
    /// Corrected offspring quotas could not be made to sum to the requested
    /// population size.
    OffspringAllocationError,
}

} // verus!
