//! Configuration of the speciation engine, and the fixed-point scale in which
//! fitness values and fitness multipliers are expressed.

use vstd::prelude::*;

verus! {

/// Fixed-point scale: the representation of the real number 1.0.
/// A fitness of `SCALE` units means a real-valued fitness of 1.0, and one
/// unit is the real number 0.0000001.
pub const SCALE: u64 = 10_000_000;

/// Substitute for a fitness of exactly zero (the real number 0.0001), so that
/// fitness sharing never starves a species completely.
pub const FITNESS_EPSILON: u64 = 1_000;

/// Largest fitness value an individual may report. The bound keeps every
/// intermediate product of the fitness-adjustment pipeline inside `u64`.
pub const MAX_FITNESS: u64 = u64::MAX / 100;

/// Largest allowed young-age boost multiplier (the real number 100.0).
pub const MAX_BOOST: u64 = 100 * SCALE;

/// Caller-validated parameters of the engine.
///
/// The two multipliers are fixed-point numbers in units of `1 / SCALE`:
/// `young_age_fitness_boost == 11_000_000` means a boost factor of 1.1.
pub struct Conf {
    /// Total population size; every completed generation transition yields
    /// exactly this many individuals.
    pub total_population_size: usize,
    /// Whether two-parent crossover is enabled.
    pub crossover: bool,
    /// A species younger than this many generations is considered young.
    pub young_age_threshold: usize,
    /// A species older than this many generations is considered old.
    pub old_age_threshold: usize,
    /// A no-improvement streak longer than this marks a species as stagnating.
    pub species_max_stagnation: usize,
    /// Fixed-point multiplier applied to young species (greater than 1.0).
    pub young_age_fitness_boost: u64,
    /// Fixed-point multiplier applied to old species (between 0.0 and 1.0).
    pub old_age_fitness_penalty: u64,
}

impl Conf {
    /// The caller's validation duty, stated once: a positive population size,
    /// a boost factor above 1.0 (and below the overflow guard), and an old-age
    /// penalty factor strictly between 0.0 and 1.0.
    pub open spec fn valid(self) -> bool {
        &&& self.total_population_size > 0
        &&& SCALE < self.young_age_fitness_boost <= MAX_BOOST
        &&& 0 < self.old_age_fitness_penalty < SCALE
    }

    pub fn new(
        total_population_size: usize,
        crossover: bool,
        young_age_threshold: usize,
        old_age_threshold: usize,
        species_max_stagnation: usize,
        young_age_fitness_boost: u64,
        old_age_fitness_penalty: u64,
    ) -> (r: Self)
        ensures
            r == (Conf {
                total_population_size,
                crossover,
                young_age_threshold,
                old_age_threshold,
                species_max_stagnation,
                young_age_fitness_boost,
                old_age_fitness_penalty,
            }),
    {
        Self {
            total_population_size,
            crossover,
            young_age_threshold,
            old_age_threshold,
            species_max_stagnation,
            young_age_fitness_boost,
            old_age_fitness_penalty,
        }
    }
}

impl Default for Conf {
    /// A population of 100 with crossover, young below 10 generations, old
    /// above 40, stagnating beyond 400 non-improving generations, a 1.1 boost
    /// and a 0.9 penalty.
    fn default() -> (r: Self)
        ensures
            r == (Conf {
                total_population_size: 100,
                crossover: true,
                young_age_threshold: 10,
                old_age_threshold: 40,
                species_max_stagnation: 400,
                young_age_fitness_boost: 11_000_000,
                old_age_fitness_penalty: 9_000_000,
            }),
            r.valid(),
    {
        Self {
            total_population_size: 100,
            crossover: true,
            young_age_threshold: 10,
            old_age_threshold: 40,
            species_max_stagnation: 400,
            young_age_fitness_boost: 11_000_000,
            old_age_fitness_penalty: 9_000_000,
        }
    }
}

} // verus!
