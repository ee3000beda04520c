//! A speciation engine for population-based evolutionary search.
//!
//! The library partitions a population of caller-defined individuals into
//! compatibility clusters (species), applies fitness sharing and age-based
//! fitness adjustment, computes per-species offspring quotas, and reconciles
//! each generation into a population-size-exact successor.

pub mod age;
pub mod conf;
pub mod errors;
pub mod genus;
pub mod genus_seed;
pub mod individual;
pub mod policies;
pub mod species;
pub mod species_collection;

pub use age::Age;
pub use conf::Conf;
pub use errors::SpeciationError;
pub use genus::Genus;
pub use genus_seed::GenusSeed;
pub use individual::Individual;
pub use policies::Policies;
pub use species::{Indiv, Species};
pub use species_collection::SpeciesCollection;
