//! The reproduction capabilities a caller supplies for one generation
//! advance: parent selection, reproduction, crossover, mutation, fitness
//! evaluation, and population management.

use vstd::prelude::*;
use crate::conf::MAX_FITNESS;
use crate::individual::Individual;
use crate::species::Species;

verus! {

/// Caller-supplied policies. The engine calls these but never inspects them;
/// all the engine's guarantees hold for every implementation that meets the
/// stated contracts.
pub trait Policies<I: Individual>: Sized {
    /// Selects one parent from a species' member pool; returns its index.
    fn select_one(&mut self, pool: &Species<I>) -> (r: usize)
        requires
            pool@.members.len() > 0,
        ensures
            r < pool@.members.len(),
    ;

    /// Selects two parents from a species' member pool; returns their indices.
    /// Only called when crossover is enabled and the pool has more than one
    /// member.
    fn select_two(&mut self, pool: &Species<I>) -> (r: (usize, usize))
        requires
            pool@.members.len() > 1,
        ensures
            r.0 < pool@.members.len(),
            r.1 < pool@.members.len(),
    ;

    /// Produces a new individual from a single parent.
    fn reproduce_one(&mut self, parent: &I) -> (r: I);

    /// Produces a new individual by crossing two parents.
    fn crossover_two(&mut self, parent1: &I, parent2: &I) -> (r: I);

    /// Mutates an individual in place.
    fn mutate(&mut self, individual: &mut I);

    /// Evaluates an individual. The evaluation must be observable through the
    /// individual's own fitness accessor: afterwards the individual reports
    /// exactly the returned fitness.
    fn evaluate(&mut self, individual: &mut I) -> (r: u64)
        ensures
            final(individual).spec_fitness() == Some(r),
            r <= MAX_FITNESS,
    ;

    /// Builds the final roster of a species for the next generation out of
    /// its newly generated individuals and the previous generation's members.
    /// The result must hold exactly `target_size` individuals; the choice of
    /// which (elitism, truncation, full replacement) is the caller's.
    fn manage_population(&mut self, new_roster: Vec<I>, old_roster: Vec<I>, target_size: usize) -> (r: Vec<I>)
        ensures
            r@.len() == target_size,
    ;
}

} // verus!
