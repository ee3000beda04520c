//! The transient staging value between offspring generation and the
//! generation transition: the newly produced individuals, partitioned into
//! species-assigned rosters and orphans.

use vstd::prelude::*;
use crate::individual::Individual;
use crate::policies::Policies;
use crate::species_collection::SpeciesCollection;

verus! {

/// Newly generated individuals, staged for the next generation: one roster
/// per originating species (same ids as the parent generation) plus the
/// orphans that were incompatible with their originating species. All of them
/// await fitness evaluation.
pub struct GenusSeed<I> {
    pub orphans: Vec<I>,
    pub new_species_collection: SpeciesCollection<I>,
}

impl<I: Individual> GenusSeed<I> {
    pub fn new(orphans: Vec<I>, new_species_collection: SpeciesCollection<I>) -> (r: Self)
        ensures
            r.orphans@ == orphans@,
            r.new_species_collection == new_species_collection,
    {
        Self { orphans, new_species_collection }
    }

    /// Evaluates every newly produced individual — every staged member and
    /// every orphan — through the caller's evaluation policy.
    pub fn evaluate<P: Policies<I>>(&mut self, policies: &mut P)
        ensures
            final(self).new_species_collection.collection@.len()
                == old(self).new_species_collection.collection@.len(),
            forall|i: int| 0 <= i < old(self).new_species_collection.collection@.len() ==> {
                let s_old = old(self).new_species_collection.collection@[i];
                let s_new = #[trigger] final(self).new_species_collection.collection@[i];
                s_new.id == s_old.id
                    && s_new.age == s_old.age
                    && s_new.last_best_fitness == s_old.last_best_fitness
                    && s_new.individuals@.len() == s_old.individuals@.len()
                    && (forall|k: int| 0 <= k < s_old.individuals@.len()
                        ==> (#[trigger] s_new.individuals@[k].adjusted_fitness)
                            == s_old.individuals@[k].adjusted_fitness)
                    && (forall|k: int| 0 <= k < s_new.individuals@.len()
                        ==> (#[trigger] s_new.individuals@[k].individual.spec_fitness()) is Some)
            },
            final(self).orphans@.len() == old(self).orphans@.len(),
            forall|k: int| 0 <= k < final(self).orphans@.len()
                ==> (#[trigger] final(self).orphans@[k].spec_fitness()) is Some,
            final(self).new_species_collection.cache_need_updating,
            crate::species_collection::count_individuals_upto(
                final(self).new_species_collection.collection@,
                final(self).new_species_collection.collection@.len() as int,
            ) == crate::species_collection::count_individuals_upto(
                old(self).new_species_collection.collection@,
                old(self).new_species_collection.collection@.len() as int,
            ),
    {
        let n = self.new_species_collection.len();
        let ghost orig = self.new_species_collection.collection@;
        let mut i: usize = 0;
        while i < n
            invariant
                i <= n,
                n == self.new_species_collection.collection@.len(),
                n == orig.len(),
                self.orphans@ == old(self).orphans@,
                forall|j: int| 0 <= j < i ==> {
                    let s_old = orig[j];
                    let s_new = #[trigger] self.new_species_collection.collection@[j];
                    s_new.id == s_old.id
                        && s_new.age == s_old.age
                        && s_new.last_best_fitness == s_old.last_best_fitness
                        && s_new.individuals@.len() == s_old.individuals@.len()
                        && (forall|k: int| 0 <= k < s_old.individuals@.len()
                            ==> (#[trigger] s_new.individuals@[k].adjusted_fitness)
                                == s_old.individuals@[k].adjusted_fitness)
                        && (forall|k: int| 0 <= k < s_new.individuals@.len()
                            ==> (#[trigger] s_new.individuals@[k].individual.spec_fitness()) is Some)
                },
                forall|j: int| i <= j < n ==> #[trigger] self.new_species_collection.collection@[j] == orig[j],
            decreases n - i,
        {
            let mut s = self.new_species_collection.collection.remove(i);
            s.evaluate_all(policies);
            self.new_species_collection.collection.insert(i, s);
            i = i + 1;
        }
        let ghost coll_after = self.new_species_collection;
        let m = self.orphans.len();
        let mut k: usize = 0;
        while k < m
            invariant
                k <= m,
                m == self.orphans@.len(),
                self.new_species_collection == coll_after,
                forall|j: int| 0 <= j < k
                    ==> (#[trigger] self.orphans@[j].spec_fitness()) is Some,
            decreases m - k,
        {
            let mut x = self.orphans.remove(k);
            let _ = policies.evaluate(&mut x);
            self.orphans.insert(k, x);
            k = k + 1;
        }
        self.new_species_collection.cache_need_updating = true;
        proof {
            crate::species_collection::lemma_count_individuals_congruence(
                self.new_species_collection.collection@,
                old(self).new_species_collection.collection@,
                n as int,
            );
        }
    }
}

} // verus!
