//! The top-level orchestrator: a collection of species plus the monotonic
//! species-id counter, with speciation, fitness update, offspring
//! apportionment, offspring generation and the generation transition.

use vstd::prelude::*;
use crate::age::Age;
use crate::conf::Conf;
use crate::errors::SpeciationError;
use crate::individual::Individual;
use crate::policies::Policies;
use crate::species::{members_adjust_upto, Indiv, Species, SpeciesModel};
use crate::species_collection::{
    aged, ages_countable, all_adjusted, all_evaluated, all_nonempty, best_species_upto,
    count_individuals_upto, ids_unique, sharing_bounded, spec_best_option, total_adjusted_upto,
    worst_species_upto, SpeciesCollection,
};
use vstd::arithmetic::div_mod::{
    lemma_div_by_multiple, lemma_div_is_ordered, lemma_div_pos_is_pos, lemma_fundamental_div_mod,
    lemma_mod_pos_bound,
};
use vstd::arithmetic::mul::{lemma_mul_inequality, lemma_mul_is_distributive_add_other_way, lemma_mul_upper_bound};

verus! {

/// The mathematical value of a sequence of species.
pub open spec fn collection_models<I: Individual>(ss: Seq<Species<I>>) -> Seq<SpeciesModel<I>> {
    Seq::new(ss.len(), |i: int| ss[i]@)
}

/// Total number of members over a sequence of species models.
pub open spec fn models_count_upto<I: Individual>(ms: Seq<SpeciesModel<I>>, n: int) -> int
    decreases n,
{
    if n <= 0 {
        0
    } else {
        models_count_upto(ms, n - 1) + ms[n - 1].members.len()
    }
}

/// The running state of speciation: the species built so far and the next
/// species id to issue.
pub ghost struct SpeciationState<I> {
    pub species: Seq<SpeciesModel<I>>,
    pub next_id: usize,
}

/// First index among the first `n` species that is compatible with `x`.
pub open spec fn first_compatible<I: Individual>(ss: Seq<SpeciesModel<I>>, x: I, n: int) -> Option<int>
    decreases n,
{
    if n <= 0 {
        Option::None
    } else {
        match first_compatible(ss, x, n - 1) {
            Option::Some(j) => Option::Some(j),
            Option::None => if ss[n - 1].spec_is_compatible(x) {
                Option::Some(n - 1)
            } else {
                Option::None
            },
        }
    }
}

/// One speciation step: the individual joins the first compatible species, in
/// collection order; if none is compatible, a fresh singleton species is
/// created under the next id and the counter advances.
pub open spec fn speciate_step<I: Individual>(st: SpeciationState<I>, x: I) -> SpeciationState<I> {
    match first_compatible(st.species, x, st.species.len() as int) {
        Option::Some(j) => SpeciationState {
            species: st.species.update(j, SpeciesModel {
                members: st.species[j].members.push(Indiv { individual: x, adjusted_fitness: Option::None }),
                ..st.species[j]
            }),
            next_id: st.next_id,
        },
        Option::None => SpeciationState {
            species: st.species.push(SpeciesModel {
                id: st.next_id,
                members: seq![Indiv { individual: x, adjusted_fitness: Option::None }],
                age: Age { generations: 0, evaluations: 0, no_improvements: 0 },
                last_best_fitness: 0,
            }),
            next_id: (st.next_id + 1) as usize,
        },
    }
}

/// Speciation of the first `n` individuals of `pop`, starting from `st`.
pub open spec fn speciate_fold<I: Individual>(st: SpeciationState<I>, pop: Seq<I>, n: int) -> SpeciationState<I>
    decreases n,
{
    if n <= 0 {
        st
    } else {
        speciate_step(speciate_fold(st, pop, n - 1), pop[n - 1])
    }
}

/// The partition that speciation of `pop` produces under the id counter
/// `next_id`, starting from no species.
pub open spec fn spec_speciate<I: Individual>(next_id: usize, pop: Seq<I>) -> SpeciationState<I> {
    speciate_fold(
        SpeciationState { species: Seq::empty(), next_id },
        pop,
        pop.len() as int,
    )
}

/// A first-compatible index points into the prefix it was drawn from.
pub proof fn lemma_first_compatible_range<I: Individual>(ss: Seq<SpeciesModel<I>>, x: I, n: int)
    ensures
        first_compatible(ss, x, n) matches Some(j) ==> 0 <= j < n,
    decreases n,
{
    if n > 0 {
        lemma_first_compatible_range(ss, x, n - 1);
    }
}

/// What a speciation fold guarantees: the counter never moves backwards and
/// advances exactly once per created species; existing species keep their
/// identity, age and watermark, and only gain members; created species carry
/// contiguous fresh ids from the initial counter upward; ids stay pairwise
/// distinct; and every processed individual is in exactly one species.
pub proof fn lemma_speciate_fold_props<I: Individual>(st0: SpeciationState<I>, pop: Seq<I>, n: int)
    requires
        0 <= n,
        st0.next_id + n <= usize::MAX,
        forall|k: int| 0 <= k < st0.species.len() ==> (#[trigger] st0.species[k].id) < st0.next_id,
        forall|k1: int, k2: int| 0 <= k1 < k2 < st0.species.len()
            ==> (#[trigger] st0.species[k1].id) != (#[trigger] st0.species[k2].id),
    ensures
        ({
            let st = speciate_fold(st0, pop, n);
            &&& st0.next_id <= st.next_id
            &&& st0.species.len() <= st.species.len()
            &&& st.species.len() - st0.species.len() == st.next_id - st0.next_id
            &&& st.next_id <= st0.next_id + n
            &&& forall|k: int| 0 <= k < st0.species.len() ==> {
                let s0 = st0.species[k];
                let s = #[trigger] st.species[k];
                s.id == s0.id && s.age == s0.age && s.last_best_fitness == s0.last_best_fitness
                    && s.members.len() >= s0.members.len()
            }
            &&& forall|k: int| st0.species.len() <= k < st.species.len()
                ==> (#[trigger] st.species[k].id) == st0.next_id + (k - st0.species.len())
            &&& forall|k: int| st0.species.len() <= k < st.species.len()
                ==> (#[trigger] st.species[k].members.len()) > 0
            &&& forall|k: int| st0.species.len() <= k < st.species.len()
                ==> (#[trigger] st.species[k].age) == (Age { generations: 0, evaluations: 0, no_improvements: 0 })
            &&& forall|k: int| 0 <= k < st.species.len() ==> (#[trigger] st.species[k].id) < st.next_id
            &&& forall|k1: int, k2: int| 0 <= k1 < k2 < st.species.len()
                ==> (#[trigger] st.species[k1].id) != (#[trigger] st.species[k2].id)
            &&& models_count_upto(st.species, st.species.len() as int)
                == models_count_upto(st0.species, st0.species.len() as int) + n
        }),
    decreases n,
{
    if n > 0 {
        lemma_speciate_fold_props(st0, pop, n - 1);
        let prev = speciate_fold(st0, pop, n - 1);
        let x = pop[n - 1];
        lemma_first_compatible_range(prev.species, x, prev.species.len() as int);
        let st = speciate_step(prev, x);
        match first_compatible(prev.species, x, prev.species.len() as int) {
            Option::Some(j) => {
                lemma_models_count_update(prev.species, j, st.species[j], prev.species.len() as int);
            },
            Option::None => {
                lemma_models_count_grow(prev.species, st.species, prev.species.len() as int);
                assert(models_count_upto(st.species, st.species.len() as int)
                    == models_count_upto(st.species, prev.species.len() as int) + 1);
            },
        }
    }
}

/// Replacing one species with a version holding one more member raises the
/// total member count by one.
proof fn lemma_models_count_update<I: Individual>(
    ms: Seq<SpeciesModel<I>>,
    j: int,
    replacement: SpeciesModel<I>,
    n: int,
)
    requires
        0 <= j < ms.len(),
        n <= ms.len(),
        replacement.members.len() == ms[j].members.len() + 1,
    ensures
        models_count_upto(ms.update(j, replacement), n)
            == models_count_upto(ms, n) + if j < n { 1int } else { 0int },
    decreases n,
{
    if n > 0 {
        lemma_models_count_update(ms, j, replacement, n - 1);
    }
}

/// A count over a prefix ignores what lies beyond the prefix.
proof fn lemma_models_count_grow<I: Individual>(a: Seq<SpeciesModel<I>>, b: Seq<SpeciesModel<I>>, n: int)
    requires
        n <= a.len(),
        n <= b.len(),
        forall|k: int| 0 <= k < n ==> a[k] == b[k],
    ensures
        models_count_upto(a, n) == models_count_upto(b, n),
    decreases n,
{
    if n > 0 {
        lemma_models_count_grow(a, b, n - 1);
    }
}

/// A sequence of species and its sequence of models count the same members.
pub proof fn lemma_models_count_bridge<I: Individual>(ss: Seq<Species<I>>, n: int)
    requires
        n <= ss.len(),
    ensures
        count_individuals_upto(ss, n) == models_count_upto(collection_models(ss), n),
    decreases n,
{
    if n > 0 {
        lemma_models_count_bridge(ss, n - 1);
    }
}

/// The full population, represented as its partition into species, plus the
/// monotonic species-id counter. Ids are never reused: every id ever issued
/// is below `next_species_id`.
pub struct Genus<I> {
    pub next_species_id: usize,
    pub species_collection: SpeciesCollection<I>,
}

impl<I: Individual> Genus<I> {
    /// The invariant every public operation preserves: species ids are
    /// pairwise distinct and all below the id counter, no species is empty,
    /// the best-species cache is coherent, and the population fits the
    /// machine's sizes.
    pub open spec fn wf(self) -> bool {
        let ss = self.species_collection.collection@;
        &&& ids_unique(ss)
        &&& all_nonempty(ss)
        &&& self.species_collection.cache_ok()
        &&& forall|k: int| 0 <= k < ss.len() ==> (#[trigger] ss[k].id) < self.next_species_id
        &&& count_individuals_upto(ss, ss.len() as int) <= usize::MAX
    }

    /// A fresh genus: no species, and ids start at 1.
    pub fn new() -> (r: Self)
        ensures
            r.wf(),
            r.next_species_id == 1,
            r.species_collection.collection@.len() == 0,
    {
        Self { next_species_id: 1, species_collection: SpeciesCollection::new() }
    }

    pub fn species_count(&self) -> (r: usize)
        ensures
            r == self.species_collection.collection@.len(),
    {
        self.species_collection.len()
    }

    pub fn count_individuals(&self) -> (r: usize)
        requires
            self.wf(),
        ensures
            r == count_individuals_upto(
                self.species_collection.collection@,
                self.species_collection.collection@.len() as int,
            ),
    {
        self.species_collection.count_individuals()
    }

    /// Splits a population into species, grouping compatible individuals:
    /// the previous species list is discarded, and each incoming individual
    /// joins the first compatible species in collection order, or founds a
    /// new species under a fresh, strictly increasing id. The incoming
    /// population is consumed.
    pub fn speciate(&mut self, source_population: Vec<I>)
        requires
            old(self).next_species_id + source_population@.len() <= usize::MAX,
        ensures
            final(self).wf(),
            ({
                let st = spec_speciate(old(self).next_species_id, source_population@);
                &&& final(self).next_species_id == st.next_id
                &&& collection_models(final(self).species_collection.collection@) == st.species
            }),
            old(self).next_species_id <= final(self).next_species_id,
            forall|k: int| 0 <= k < final(self).species_collection.collection@.len()
                ==> (#[trigger] final(self).species_collection.collection@[k].id)
                    == old(self).next_species_id + k,
            forall|k: int| 0 <= k < final(self).species_collection.collection@.len()
                ==> (#[trigger] final(self).species_collection.collection@[k].age)
                    == (Age { generations: 0, evaluations: 0, no_improvements: 0 }),
            count_individuals_upto(
                final(self).species_collection.collection@,
                final(self).species_collection.collection@.len() as int,
            ) == source_population@.len(),
            final(self).species_collection.cache_need_updating,
    {
        let ghost nid0 = self.next_species_id;
        let ghost pop0 = source_population@;
        let ghost st0 = SpeciationState::<I> { species: Seq::empty(), next_id: nid0 };
        self.species_collection.clear();
        let mut remaining = source_population;
        let ghost mut i: int = 0;
        while remaining.len() > 0
            invariant
                0 <= i <= pop0.len(),
                i + remaining@.len() == pop0.len(),
                forall|k: int| 0 <= k < remaining@.len() ==> #[trigger] remaining@[k] == pop0[i + k],
                self.next_species_id == speciate_fold(st0, pop0, i).next_id,
                collection_models(self.species_collection.collection@) == speciate_fold(st0, pop0, i).species,
                self.next_species_id + remaining@.len() <= usize::MAX,
                self.species_collection.cache_need_updating,
            decreases remaining@.len(),
        {
            let ghost st_i = speciate_fold(st0, pop0, i);
            let x = remaining.remove(0);
            let n = self.species_collection.len();
            let ghost models = collection_models(self.species_collection.collection@);
            let mut found: Option<usize> = Option::None;
            let mut j: usize = 0;
            while j < n
                invariant
                    j <= n,
                    n == self.species_collection.collection@.len(),
                    models == collection_models(self.species_collection.collection@),
                    match first_compatible(models, x, j as int) {
                        Option::None => found is None,
                        Option::Some(p) => found matches Some(f) && f as int == p,
                    },
                decreases n - j,
            {
                proof {
                    lemma_first_compatible_range(models, x, j as int);
                }
                let compatible = self.species_collection.species(j).is_compatible(&x);
                if found.is_none() && compatible {
                    found = Option::Some(j);
                }
                j = j + 1;
            }
            proof {
                lemma_first_compatible_range(models, x, n as int);
            }
            match found {
                Option::Some(f) => {
                    let mut s = self.species_collection.collection.remove(f);
                    s.insert(x);
                    self.species_collection.collection.insert(f, s);
                    proof {
                        assert(collection_models(self.species_collection.collection@)
                            =~= speciate_fold(st0, pop0, i + 1).species);
                    }
                },
                Option::None => {
                    self.species_collection.push(Species::new(x, self.next_species_id));
                    self.next_species_id = self.next_species_id + 1;
                    proof {
                        assert(collection_models(self.species_collection.collection@)
                            =~= speciate_fold(st0, pop0, i + 1).species);
                    }
                },
            }
            proof {
                i = i + 1;
            }
        }
        proof {
            assert(i == pop0.len());
            lemma_speciate_fold_props(st0, pop0, pop0.len() as int);
            lemma_models_count_bridge(
                self.species_collection.collection@,
                self.species_collection.collection@.len() as int,
            );
            let ss = self.species_collection.collection@;
            let st = speciate_fold(st0, pop0, pop0.len() as int);
            assert forall|k: int| 0 <= k < ss.len() implies (#[trigger] ss[k])@ == st.species[k] by {
                assert(collection_models(ss)[k] == ss[k]@);
            }
            assert forall|k: int| 0 <= k < ss.len() implies (#[trigger] ss[k].id) == nid0 + k by {
                assert(ss[k]@ == st.species[k]);
                assert(st.species[k].id == st0.next_id + (k - st0.species.len() as int));
                assert(ss[k].id == ss[k]@.id);
            }
            assert forall|k: int| 0 <= k < ss.len() implies (#[trigger] ss[k].age)
                == (Age { generations: 0, evaluations: 0, no_improvements: 0 }) by {
                assert(ss[k]@ == st.species[k]);
                assert(st.species[k].age == (Age { generations: 0, evaluations: 0, no_improvements: 0 }));
                assert(ss[k].age == ss[k]@.age);
            }
        }
    }

    /// Evaluates, through the caller's evaluation policy, every individual
    /// that does not yet report a fitness. Individuals that already report
    /// one are left untouched.
    pub fn ensure_evaluated_population<P: Policies<I>>(&mut self, policies: &mut P)
        requires
            old(self).wf(),
        ensures
            final(self).wf(),
            final(self).next_species_id == old(self).next_species_id,
            final(self).species_collection.collection@.len() == old(self).species_collection.collection@.len(),
            forall|i: int| 0 <= i < old(self).species_collection.collection@.len() ==> {
                let s_old = old(self).species_collection.collection@[i];
                let s_new = #[trigger] final(self).species_collection.collection@[i];
                s_new.id == s_old.id
                    && s_new.age == s_old.age
                    && s_new.last_best_fitness == s_old.last_best_fitness
                    && s_new.individuals@.len() == s_old.individuals@.len()
                    && (forall|k: int| 0 <= k < s_old.individuals@.len()
                        ==> (#[trigger] s_new.individuals@[k].adjusted_fitness)
                            == s_old.individuals@[k].adjusted_fitness)
                    && (forall|k: int| 0 <= k < s_old.individuals@.len()
                            && s_old.individuals@[k].individual.spec_fitness() is Some
                        ==> (#[trigger] s_new.individuals@[k]) == s_old.individuals@[k])
            },
            all_evaluated(final(self).species_collection.collection@),
    {
        let ghost orig = self.species_collection.collection@;
        let n = self.species_collection.len();
        let mut i: usize = 0;
        while i < n
            invariant
                i <= n,
                n == self.species_collection.collection@.len(),
                n == orig.len(),
                self.next_species_id == old(self).next_species_id,
                forall|j: int| 0 <= j < i ==> {
                    let s_old = orig[j];
                    let s_new = #[trigger] self.species_collection.collection@[j];
                    s_new.id == s_old.id
                        && s_new.age == s_old.age
                        && s_new.last_best_fitness == s_old.last_best_fitness
                        && s_new.individuals@.len() == s_old.individuals@.len()
                        && (forall|k: int| 0 <= k < s_old.individuals@.len()
                            ==> (#[trigger] s_new.individuals@[k].adjusted_fitness)
                                == s_old.individuals@[k].adjusted_fitness)
                        && (forall|k: int| 0 <= k < s_old.individuals@.len()
                                && s_old.individuals@[k].individual.spec_fitness() is Some
                            ==> (#[trigger] s_new.individuals@[k]) == s_old.individuals@[k])
                        && (forall|k: int| 0 <= k < s_new.individuals@.len()
                            ==> (#[trigger] s_new.individuals@[k].individual.spec_fitness()) is Some)
                },
                forall|j: int| i <= j < n ==> #[trigger] self.species_collection.collection@[j] == orig[j],
            decreases n - i,
        {
            let mut s = self.species_collection.collection.remove(i);
            s.ensure_evaluated(policies);
            self.species_collection.collection.insert(i, s);
            i = i + 1;
        }
        self.species_collection.cache_need_updating = true;
        proof {
            let ss = self.species_collection.collection@;
            assert forall|k: int| 0 <= k < n implies (#[trigger] ss[k]).id == orig[k].id
                && ss[k].individuals@.len() == orig[k].individuals@.len() by {}
            crate::species_collection::lemma_count_individuals_congruence(ss, orig, n as int);
            assert(ids_unique(ss));
            assert forall|k: int| 0 <= k < ss.len() implies (#[trigger] ss[k]@).members.len() > 0 by {
                assert(orig[k]@.members.len() > 0);
            }
            assert(all_nonempty(ss));
        }
    }

    /// One update pass: ages every species (rejuvenating the previous best)
    /// and recomputes every member's adjusted fitness, with only the best
    /// species exempt from the stagnation penalty. Requires a non-empty,
    /// fully evaluated population.
    pub fn update(&mut self, conf: &Conf)
        requires
            old(self).wf(),
            old(self).species_collection.collection@.len() > 0,
            all_evaluated(old(self).species_collection.collection@),
            ages_countable(old(self).species_collection.collection@),
            conf.valid(),
        ensures
            final(self).wf(),
            final(self).next_species_id == old(self).next_species_id,
            final(self).species_collection.collection@.len() == old(self).species_collection.collection@.len(),
            forall|i: int| 0 <= i < old(self).species_collection.collection@.len()
                ==> (#[trigger] final(self).species_collection.collection@[i])@
                    == updated_species_model(old(self).species_collection.collection@, i, *conf),
            !final(self).species_collection.cache_need_updating,
            final(self).species_collection.best is Some,
            final(self).species_collection.best == spec_best_option(old(self).species_collection.collection@),
            all_evaluated(final(self).species_collection.collection@),
            all_adjusted(final(self).species_collection.collection@),
            sharing_bounded(final(self).species_collection.collection@),
            all_nonempty(final(self).species_collection.collection@),
    {
        let ghost orig = self.species_collection.collection@;
        let n = self.species_collection.len();
        proof {
            crate::species_collection::lemma_nonempty_evaluated_best_some(orig);
        }
        self.species_collection.compute_update();
        let ghost mid = self.species_collection.collection@;
        proof {
            assert(crate::species_collection::best_fitness_profile(mid)
                =~= crate::species_collection::best_fitness_profile(orig));
            assert(self.species_collection.best is Some);
            assert forall|i: int| 0 <= i < mid.len() implies (#[trigger] mid[i]@).members.len() > 0 by {
                assert(orig[i]@.members.len() > 0);
            }
        }
        self.species_collection.compute_adjust_fitness(conf);
        proof {
            let ss = self.species_collection.collection@;
            let ghost b = self.species_collection.best->Some_0 as int;
            crate::species_collection::lemma_best_species_range(
                crate::species_collection::best_fitness_profile(orig),
                orig.len() as int,
            );
            let bopt = best_species_upto(orig, orig.len() as int);
            assert(bopt matches Some(p) && p == b);
            assert forall|i: int| 0 <= i < orig.len() implies (#[trigger] ss[i])@
                == updated_species_model(orig, i, *conf) by {
                let model = updated_species_model(orig, i, *conf);
                let is_best = mid[i].id == mid[b].id;
                assert(mid[i].id == orig[i].id);
                assert(mid[b].id == orig[b].id);
                assert(is_best == (orig[i].id == orig[b].id));
                crate::species::lemma_adjust_len(mid[i]@, is_best, *conf, mid[i]@.members.len() as int);
                assert(mid[i]@.members == orig[i]@.members);
                assert(mid[i]@.age == aged(orig, i));
                assert(mid[i]@.last_best_fitness == orig[i]@.last_best_fitness);
                let out = mid[i]@.spec_adjust(is_best, *conf);
                assert(out == members_adjust_upto(
                    orig[i]@.members,
                    is_best,
                    aged(orig, i).generations,
                    orig[i]@.last_best_fitness,
                    aged(orig, i).no_improvements,
                    *conf,
                    orig[i]@.members.len() as int,
                ));
                assert(ss[i]@.members.len() == orig[i]@.members.len());
                assert forall|j: int| 0 <= j < orig[i]@.members.len()
                    implies (#[trigger] ss[i]@.members[j]) == model.members[j] by {
                    assert(ss[i].individuals@[j].individual == mid[i].individuals@[j].individual);
                    assert(ss[i].individuals@[j].adjusted_fitness == out.adjusted[j]);
                    assert(mid[i].individuals@ == orig[i].individuals@);
                }
                assert(ss[i]@.members =~= model.members);
                assert(ss[i]@.age == model.age);
                assert(ss[i]@.last_best_fitness == model.last_best_fitness);
            }
            assert forall|i: int| 0 <= i < ss.len() implies (#[trigger] ss[i]@).all_evaluated() by {
                assert(orig[i]@.all_evaluated());
                assert forall|k: int| 0 <= k < ss[i]@.members.len()
                    implies (#[trigger] ss[i]@.members[k].individual.spec_fitness()) is Some by {
                    assert(ss[i]@.members[k].individual == orig[i]@.members[k].individual);
                    assert(orig[i]@.members[k].individual.spec_fitness() is Some);
                }
            }
            assert forall|i: int| 0 <= i < ss.len() implies (#[trigger] ss[i]@).all_adjusted() by {
                crate::species::lemma_adjust_len(mid[i]@, mid[i].id == mid[b].id, *conf, mid[i]@.members.len() as int);
            }
            crate::species_collection::lemma_count_individuals_congruence(ss, orig, orig.len() as int);
        }
    }

    /// The average adjusted fitness over the whole population, as the exact
    /// rational `total adjusted fitness / individual count`. Fails with a
    /// `ConfigurationError` exactly when the total adjusted fitness is zero.
    pub fn calculate_average_fitness(&self) -> (r: Result<(u128, usize), SpeciationError>)
        requires
            self.wf(),
            all_adjusted(self.species_collection.collection@),
        ensures
            ({
                let ss = self.species_collection.collection@;
                let t = total_adjusted_upto(ss, ss.len() as int);
                match r {
                    Ok(p) => t > 0 && p.0 == t && p.1 == count_individuals_upto(ss, ss.len() as int),
                    Err(e) => e == SpeciationError::ConfigurationError && t == 0,
                }
            }),
    {
        let ghost ss = self.species_collection.collection@;
        let n = self.species_collection.len();
        let mut total: u128 = 0;
        let mut i: usize = 0;
        while i < n
            invariant
                i <= n,
                n == ss.len(),
                ss == self.species_collection.collection@,
                self.wf(),
                all_adjusted(ss),
                total == total_adjusted_upto(ss, i as int),
                total <= count_individuals_upto(ss, i as int) * (u64::MAX as int),
            decreases n - i,
        {
            proof {
                assert(ss[i as int]@.all_adjusted());
            }
            let acc: u128 = self.species_collection.species(i).accumulated_adjusted_fitness();
            proof {
                let cnt_i = count_individuals_upto(ss, i as int);
                let len_i = ss[i as int]@.members.len() as int;
                crate::species_collection::lemma_count_individuals_mono(ss, i as int + 1, n as int);
                lemma_mul_is_distributive_add_other_way(u64::MAX as int, cnt_i, len_i);
                lemma_mul_inequality(count_individuals_upto(ss, i as int + 1), count_individuals_upto(ss, n as int), u64::MAX as int);
                lemma_mul_inequality(count_individuals_upto(ss, n as int), usize::MAX as int, u64::MAX as int);
                lemma_mul_upper_bound(usize::MAX as int, u64::MAX as int, u64::MAX as int, u64::MAX as int);
                crate::species_collection::lemma_count_individuals_nonneg(ss, n as int);
                crate::species_collection::lemma_count_individuals_nonneg(ss, i as int);
            }
            total = total + acc;
            i = i + 1;
        }
        let count = self.species_collection.count_individuals();
        if total == 0 {
            Result::Err(SpeciationError::ConfigurationError)
        } else {
            Result::Ok((total, count))
        }
    }

    /// The raw (floored) offspring quota of every species, computed from the
    /// exact average adjusted fitness. Flooring makes the quotas sum to at
    /// most the population count; `count_offsprings` corrects the difference.
    fn calculate_population_size(&self, total_adjusted: u128, individual_count: usize) -> (r: Vec<usize>)
        requires
            self.wf(),
            all_adjusted(self.species_collection.collection@),
            all_nonempty(self.species_collection.collection@),
            sharing_bounded(self.species_collection.collection@),
            total_adjusted as int == total_adjusted_upto(
                self.species_collection.collection@,
                self.species_collection.collection@.len() as int,
            ),
            total_adjusted > 0,
            individual_count as int == count_individuals_upto(
                self.species_collection.collection@,
                self.species_collection.collection@.len() as int,
            ),
        ensures
            r@.len() == self.species_collection.collection@.len(),
            forall|i: int| 0 <= i < r@.len()
                ==> (#[trigger] r@[i]) as int == spec_raw_quota(self.species_collection.collection@, i),
    {
        let ghost ss = self.species_collection.collection@;
        let n = self.species_collection.len();
        let mut amounts: Vec<usize> = Vec::new();
        let mut i: usize = 0;
        while i < n
            invariant
                i <= n,
                n == ss.len(),
                ss == self.species_collection.collection@,
                self.wf(),
                all_adjusted(ss),
                all_nonempty(ss),
                sharing_bounded(ss),
                total_adjusted as int == total_adjusted_upto(ss, n as int),
                total_adjusted > 0,
                individual_count as int == count_individuals_upto(ss, n as int),
                amounts@.len() == i,
                forall|k: int| 0 <= k < i ==> (#[trigger] amounts@[k]) as int == spec_raw_quota(ss, k),
            decreases n - i,
        {
            proof {
                assert(ss[i as int]@.all_adjusted());
            }
            let acc: u128 = self.species_collection.species(i).accumulated_adjusted_fitness();
            proof {
                crate::species_collection::lemma_count_individuals_nonneg(ss, n as int);
                lemma_acc_le_u64max(ss, i as int);
                lemma_acc_le_total(ss, i as int, n as int);
                lemma_mul_upper_bound(acc as int, u64::MAX as int, individual_count as int, usize::MAX as int);
                lemma_mul_upper_bound(u64::MAX as int, u64::MAX as int, usize::MAX as int, u64::MAX as int);
                lemma_mul_inequality(acc as int, total_adjusted as int, individual_count as int);
                lemma_div_is_ordered(
                    acc as int * individual_count as int,
                    total_adjusted as int * individual_count as int,
                    total_adjusted as int,
                );
                lemma_div_by_multiple(individual_count as int, total_adjusted as int);
                vstd::arithmetic::mul::lemma_mul_is_commutative(total_adjusted as int, individual_count as int);
                vstd::arithmetic::mul::lemma_mul_nonnegative(acc as int, individual_count as int);
                lemma_div_pos_is_pos(acc as int * individual_count as int, total_adjusted as int);
            }
            let quota: u128 = acc * (individual_count as u128) / total_adjusted;
            amounts.push(quota as usize);
            i = i + 1;
        }
        amounts
    }

    /// Brings a quota vector to the requested total: a positive correction
    /// goes entirely to the best species; a negative one is drained from the
    /// worst species first, each zeroed species excluded from the next round,
    /// until the excess is gone.
    fn correct_population_size(&self, species_offspring_amount: &mut Vec<usize>, missing_offspring: i128)
        requires
            self.wf(),
            old(species_offspring_amount)@.len() == self.species_collection.collection@.len(),
            missing_offspring != 0,
            missing_offspring > 0 ==> !self.species_collection.cache_need_updating
                && self.species_collection.best is Some
                && usum(old(species_offspring_amount)@, old(species_offspring_amount)@.len() as int)
                    + missing_offspring <= usize::MAX,
            missing_offspring < 0 ==> all_evaluated(self.species_collection.collection@)
                && all_nonempty(self.species_collection.collection@)
                && (-missing_offspring)
                    <= usum(old(species_offspring_amount)@, old(species_offspring_amount)@.len() as int)
                && usum(old(species_offspring_amount)@, old(species_offspring_amount)@.len() as int)
                    <= usize::MAX,
        ensures
            final(species_offspring_amount)@.len() == old(species_offspring_amount)@.len(),
            usum(final(species_offspring_amount)@, final(species_offspring_amount)@.len() as int)
                == usum(old(species_offspring_amount)@, old(species_offspring_amount)@.len() as int)
                    + missing_offspring,
            missing_offspring > 0 ==> final(species_offspring_amount)@
                == old(species_offspring_amount)@.update(
                    self.species_collection.best->Some_0 as int,
                    (old(species_offspring_amount)@[self.species_collection.best->Some_0 as int]
                        + missing_offspring) as usize,
                ),
            missing_offspring < 0 ==> forall|i: int| 0 <= i < old(species_offspring_amount)@.len()
                ==> (#[trigger] final(species_offspring_amount)@[i]) <= old(species_offspring_amount)@[i],
            missing_offspring < 0 ==> final(species_offspring_amount)@ == drain_quotas(
                old(species_offspring_amount)@,
                self.species_collection.collection@,
                Seq::<usize>::empty(),
                -missing_offspring,
                count_non_excluded(
                    self.species_collection.collection@,
                    Seq::<usize>::empty(),
                    self.species_collection.collection@.len() as int,
                ) as nat,
            ),
    {
        let ghost ss = self.species_collection.collection@;
        let ghost orig_amounts = species_offspring_amount@;
        let len = species_offspring_amount.len();
        if missing_offspring > 0 {
            let b: usize = match self.species_collection.best {
                Option::Some(b) => b,
                Option::None => 0,
            };
            proof {
                crate::species_collection::lemma_best_species_range(
                    crate::species_collection::best_fitness_profile(ss),
                    ss.len() as int,
                );
                lemma_usum_element(orig_amounts, b as int, len as int);
            }
            let current = species_offspring_amount[b];
            let addition = missing_offspring as usize;
            species_offspring_amount.set(b, current + addition);
            proof {
                lemma_usum_update(orig_amounts, b as int, (current + addition) as usize, len as int);
            }
        } else {
            proof {
                assert(0 < -missing_offspring <= usize::MAX as i128);
            }
            let mut excess: usize = (-missing_offspring) as usize;
            let ghost excess0 = excess as int;
            let mut excluded: Vec<usize> = Vec::new();
            proof {
                lemma_drain_sum_no_excluded(orig_amounts, ss, len as int);
                lemma_cne_nonneg(ss, Seq::<usize>::empty(), len as int);
            }
            let ghost fuel0 = count_non_excluded(ss, Seq::<usize>::empty(), len as int) as nat;
            while excess > 0
                invariant
                    self.wf(),
                    all_evaluated(ss),
                    all_nonempty(ss),
                    ss == self.species_collection.collection@,
                    species_offspring_amount@.len() == len,
                    len == ss.len(),
                    excess as int <= drain_sum(species_offspring_amount@, ss, excluded@, len as int),
                    usum(species_offspring_amount@, len as int)
                        == usum(orig_amounts, len as int) - (excess0 - excess),
                    excess <= excess0,
                    forall|i: int| 0 <= i < len
                        ==> (#[trigger] species_offspring_amount@[i]) <= orig_amounts[i],
                    count_non_excluded(ss, excluded@, len as int) >= 0,
                    drain_quotas(orig_amounts, ss, Seq::<usize>::empty(), excess0, fuel0)
                        == drain_quotas(
                            species_offspring_amount@,
                            ss,
                            excluded@,
                            excess as int,
                            count_non_excluded(ss, excluded@, len as int) as nat,
                        ),
                decreases count_non_excluded(ss, excluded@, len as int), excess,
            {
                proof {
                    if count_non_excluded(ss, excluded@, len as int) == 0 {
                        lemma_cne_zero_drain_sum(species_offspring_amount@, ss, excluded@, len as int);
                    }
                    lemma_drain_sum_has_witness(species_offspring_amount@, ss, excluded@, len as int);
                    let iw = choose|iw: int| 0 <= iw < len && !excluded@.contains(#[trigger] ss[iw].id);
                    crate::species_collection::lemma_species_best_fitness_some(ss, iw);
                    crate::species_collection::lemma_worst_species_some(
                        crate::species_collection::best_fitness_profile(ss),
                        crate::species_collection::id_profile(ss),
                        excluded@,
                        iw,
                        len as int,
                    );
                }
                let w = self.species_collection.get_worst(&excluded);
                let wi: usize = match w {
                    Option::Some(wi) => wi,
                    Option::None => 0,
                };
                proof {
                    crate::species_collection::lemma_worst_species_range(
                        crate::species_collection::best_fitness_profile(ss),
                        crate::species_collection::id_profile(ss),
                        excluded@,
                        len as int,
                    );
                }
                let ghost before = species_offspring_amount@;
                let ghost pre_excluded = excluded@;
                let ghost excess_in = excess as int;
                let ghost fuel_in = count_non_excluded(ss, pre_excluded, len as int) as nat;
                let current = species_offspring_amount[wi];
                if current > excess {
                    species_offspring_amount.set(wi, current - excess);
                    proof {
                        lemma_usum_update(before, wi as int, (current - excess) as usize, len as int);
                        lemma_drain_sum_update(before, ss, pre_excluded, wi as int, (current - excess) as usize, len as int);
                        assert(drain_quotas(before, ss, pre_excluded, excess_in, fuel_in)
                            == before.update(wi as int, (current - excess) as usize));
                    }
                    excess = 0;
                } else {
                    species_offspring_amount.set(wi, 0);
                    excess = excess - current;
                    let id = self.species_collection.species(wi).id;
                    excluded.push(id);
                    proof {
                        assert(excluded@ == pre_excluded.push(ss[wi as int].id));
                        lemma_usum_update(before, wi as int, 0, len as int);
                        lemma_drain_sum_exclude(before, ss, pre_excluded, wi as int, len as int);
                        lemma_cne_exclude(ss, pre_excluded, wi as int, len as int);
                        lemma_cne_nonneg(ss, excluded@, len as int);
                        assert(drain_quotas(before, ss, pre_excluded, excess_in, fuel_in)
                            == drain_quotas(
                                species_offspring_amount@,
                                ss,
                                excluded@,
                                excess as int,
                                count_non_excluded(ss, excluded@, len as int) as nat,
                            ));
                    }
                }
            }
        }
    }

    /// Calculates the number of offspring allotted to each species. The
    /// result always sums exactly to `number_of_individuals`: a shortfall
    /// from flooring goes to the best species, an excess is drained from the
    /// worst species upward. Fails with a `ConfigurationError` exactly when
    /// the total adjusted fitness is zero.
    pub fn count_offsprings(&self, number_of_individuals: usize) -> (r: Result<Vec<usize>, SpeciationError>)
        requires
            self.wf(),
            self.species_collection.collection@.len() > 0,
            !self.species_collection.cache_need_updating,
            self.species_collection.best is Some,
            all_evaluated(self.species_collection.collection@),
            all_adjusted(self.species_collection.collection@),
            sharing_bounded(self.species_collection.collection@),
            number_of_individuals > 0,
        ensures
            ({
                let ss = self.species_collection.collection@;
                let t = total_adjusted_upto(ss, ss.len() as int);
                let b = self.species_collection.best->Some_0 as int;
                let raw_sum = raw_quota_sum_upto(ss, ss.len() as int);
                match r {
                    Err(e) => e == SpeciationError::ConfigurationError && t == 0,
                    Ok(v) => t > 0
                        && v@.len() == ss.len()
                        && usum(v@, v@.len() as int) == number_of_individuals
                        && (raw_sum <= number_of_individuals ==> forall|i: int| 0 <= i < ss.len()
                            ==> (#[trigger] v@[i]) as int == spec_raw_quota(ss, i)
                                + if i == b { number_of_individuals - raw_sum } else { 0int })
                        && (raw_sum > number_of_individuals ==> forall|i: int| 0 <= i < ss.len()
                            ==> (#[trigger] v@[i]) as int <= spec_raw_quota(ss, i))
                        && (raw_sum > number_of_individuals ==> v@ == drain_quotas(
                            Seq::new(ss.len(), |i: int| spec_raw_quota(ss, i) as usize),
                            ss,
                            Seq::<usize>::empty(),
                            raw_sum - number_of_individuals,
                            count_non_excluded(ss, Seq::<usize>::empty(), ss.len() as int) as nat,
                        )),
                }
            }),
    {
        let ghost ss = self.species_collection.collection@;
        let average = match self.calculate_average_fitness() {
            Result::Ok(p) => p,
            Result::Err(e) => {
                return Result::Err(e);
            },
        };
        let mut species_offspring_amount = self.calculate_population_size(average.0, average.1);
        let n = species_offspring_amount.len();
        let mut offspring_amount_sum: usize = 0;
        let mut i: usize = 0;
        while i < n
            invariant
                i <= n,
                n == ss.len(),
                ss == self.species_collection.collection@,
                total_adjusted_upto(ss, ss.len() as int) > 0,
                species_offspring_amount@.len() == n,
                forall|k: int| 0 <= k < n
                    ==> (#[trigger] species_offspring_amount@[k]) as int == spec_raw_quota(ss, k),
                offspring_amount_sum as int == usum(species_offspring_amount@, i as int),
                offspring_amount_sum as int == raw_quota_sum_upto(ss, i as int),
                raw_quota_sum_upto(ss, i as int) <= count_individuals_upto(ss, ss.len() as int),
                count_individuals_upto(ss, ss.len() as int) <= usize::MAX,
            decreases n - i,
        {
            proof {
                lemma_raw_quota_sum_mono(ss, i as int + 1, n as int);
                lemma_raw_quota_sum_le_count(ss, n as int);
            }
            offspring_amount_sum = offspring_amount_sum + species_offspring_amount[i];
            i = i + 1;
        }
        if offspring_amount_sum == number_of_individuals {
            return Result::Ok(species_offspring_amount);
        }
        let missing_offsprings: i128 = number_of_individuals as i128 - offspring_amount_sum as i128;
        let ghost raw_amounts = species_offspring_amount@;
        self.correct_population_size(&mut species_offspring_amount, missing_offsprings);
        proof {
            if missing_offsprings < 0 {
                assert(raw_amounts =~= Seq::new(ss.len(), |i: int| spec_raw_quota(ss, i) as usize));
            }
            if missing_offsprings > 0 {
                let b = self.species_collection.best->Some_0 as int;
                crate::species_collection::lemma_best_species_range(
                    crate::species_collection::best_fitness_profile(ss),
                    ss.len() as int,
                );
                assert(species_offspring_amount@ == raw_amounts.update(
                    b,
                    (raw_amounts[b] + missing_offsprings) as usize,
                ));
                assert forall|k: int| 0 <= k < ss.len()
                    implies (#[trigger] species_offspring_amount@[k]) as int == spec_raw_quota(ss, k)
                        + if k == b { number_of_individuals - raw_quota_sum_upto(ss, ss.len() as int) } else { 0int } by {
                    if k == b {
                        lemma_usum_element(raw_amounts, b, n as int);
                        assert(raw_amounts[b] as int == spec_raw_quota(ss, b));
                    } else {
                        assert(species_offspring_amount@[k] == raw_amounts[k]);
                        assert(raw_amounts[k] as int == spec_raw_quota(ss, k));
                    }
                }
            }
        }
        Result::Ok(species_offspring_amount)
    }

    /// Places each orphan into the first compatible species of `collection`,
    /// in collection order; an orphan compatible with none founds a new
    /// species under a fresh id. The same fold as speciation, starting from
    /// the staged species instead of none.
    fn adopt_orphans(collection: &mut SpeciesCollection<I>, orphans: Vec<I>, next_id: &mut usize)
        requires
            old(collection).cache_need_updating,
            *old(next_id) + orphans@.len() <= usize::MAX,
        ensures
            final(collection).cache_need_updating,
            ({
                let st0 = SpeciationState {
                    species: collection_models(old(collection).collection@),
                    next_id: *old(next_id),
                };
                let st = speciate_fold(st0, orphans@, orphans@.len() as int);
                collection_models(final(collection).collection@) == st.species
                    && *final(next_id) == st.next_id
            }),
    {
        let ghost orphans0 = orphans@;
        let ghost st0 = SpeciationState::<I> {
            species: collection_models(collection.collection@),
            next_id: *next_id,
        };
        let mut remaining = orphans;
        let ghost mut i: int = 0;
        while remaining.len() > 0
            invariant
                0 <= i <= orphans0.len(),
                i + remaining@.len() == orphans0.len(),
                forall|k: int| 0 <= k < remaining@.len() ==> #[trigger] remaining@[k] == orphans0[i + k],
                *next_id == speciate_fold(st0, orphans0, i).next_id,
                collection_models(collection.collection@) == speciate_fold(st0, orphans0, i).species,
                *next_id + remaining@.len() <= usize::MAX,
                collection.cache_need_updating,
            decreases remaining@.len(),
        {
            let x = remaining.remove(0);
            let n = collection.len();
            let ghost models = collection_models(collection.collection@);
            let mut found: Option<usize> = Option::None;
            let mut j: usize = 0;
            while j < n
                invariant
                    j <= n,
                    n == collection.collection@.len(),
                    models == collection_models(collection.collection@),
                    match first_compatible(models, x, j as int) {
                        Option::None => found is None,
                        Option::Some(p) => found matches Some(f) && f as int == p,
                    },
                decreases n - j,
            {
                proof {
                    lemma_first_compatible_range(models, x, j as int);
                }
                let compatible = collection.species(j).is_compatible(&x);
                if found.is_none() && compatible {
                    found = Option::Some(j);
                }
                j = j + 1;
            }
            proof {
                lemma_first_compatible_range(models, x, n as int);
            }
            match found {
                Option::Some(f) => {
                    let mut s = collection.collection.remove(f);
                    s.insert(x);
                    collection.collection.insert(f, s);
                    proof {
                        assert(collection_models(collection.collection@)
                            =~= speciate_fold(st0, orphans0, i + 1).species);
                    }
                },
                Option::None => {
                    collection.push(Species::new(x, *next_id));
                    *next_id = *next_id + 1;
                    proof {
                        assert(collection_models(collection.collection@)
                            =~= speciate_fold(st0, orphans0, i + 1).species);
                    }
                },
            }
            proof {
                i = i + 1;
            }
        }
        proof {
            assert(i == orphans0.len());
        }
    }

    /// Produces one new individual from a species' member pool: two-parent
    /// crossover when crossover is enabled and the pool offers more than one
    /// parent, single-parent reproduction otherwise, followed by mutation.
    fn generate_new_individual<P: Policies<I>>(&self, conf: &Conf, species: &Species<I>, policies: &mut P) -> (r: I)
        requires
            species@.members.len() > 0,
    {
        let parent_pool_size = species.len();
        let mut child: I = if conf.crossover && parent_pool_size > 1 {
            let parents = policies.select_two(species);
            policies.crossover_two(species.individual(parents.0), species.individual(parents.1))
        } else {
            let parent = policies.select_one(species);
            policies.reproduce_one(species.individual(parent))
        };
        policies.mutate(&mut child);
        child
    }

    /// Generates the next generation's individuals: each species receives its
    /// offspring quota, every new individual is tested against its
    /// originating species' representative, and the incompatible ones become
    /// orphans. The staged rosters keep their species' identity, age and
    /// watermark; every staged member and orphan still needs evaluation.
    /// Fails with a `ConfigurationError` exactly when the total adjusted
    /// fitness is zero.
    pub fn generate_new_individuals<P: Policies<I>>(
        &self,
        conf: &Conf,
        policies: &mut P,
    ) -> (r: Result<crate::genus_seed::GenusSeed<I>, SpeciationError>)
        requires
            self.wf(),
            self.species_collection.collection@.len() > 0,
            !self.species_collection.cache_need_updating,
            self.species_collection.best is Some,
            all_evaluated(self.species_collection.collection@),
            all_adjusted(self.species_collection.collection@),
            sharing_bounded(self.species_collection.collection@),
            conf.valid(),
        ensures
            ({
                let ss = self.species_collection.collection@;
                match r {
                    Err(e) => e == SpeciationError::ConfigurationError
                        && total_adjusted_upto(ss, ss.len() as int) == 0,
                    Ok(seed) => {
                        let staged = seed.new_species_collection.collection@;
                        &&& staged.len() == ss.len()
                        &&& forall|i: int| 0 <= i < ss.len() ==> {
                            let s = #[trigger] staged[i];
                            s.id == ss[i].id
                                && s.age == ss[i].age
                                && s.last_best_fitness == ss[i].last_best_fitness
                                && (forall|k: int| 0 <= k < s.individuals@.len()
                                    ==> (#[trigger] s.individuals@[k].adjusted_fitness) is None)
                                && (forall|k: int| 0 <= k < s.individuals@.len()
                                    ==> ss[i]@.spec_is_compatible(
                                        (#[trigger] s.individuals@[k]).individual,
                                    ))
                        }
                        &&& count_individuals_upto(staged, staged.len() as int) + seed.orphans@.len()
                            == conf.total_population_size
                        &&& seed.new_species_collection.cache_need_updating
                    },
                }
            }),
    {
        let ghost ss = self.species_collection.collection@;
        let offspring_amounts = match self.count_offsprings(conf.total_population_size) {
            Result::Ok(v) => v,
            Result::Err(e) => {
                return Result::Err(e);
            },
        };
        let n = self.species_collection.len();
        let mut new_species_collection: SpeciesCollection<I> = SpeciesCollection::new();
        let mut orphans: Vec<I> = Vec::new();
        let mut species_i: usize = 0;
        while species_i < n
            invariant
                species_i <= n,
                n == ss.len(),
                ss == self.species_collection.collection@,
                self.wf(),
                all_nonempty(ss),
                conf.valid(),
                offspring_amounts@.len() == n,
                usum(offspring_amounts@, n as int) == conf.total_population_size,
                new_species_collection.collection@.len() == species_i,
                new_species_collection.cache_need_updating,
                forall|j: int| 0 <= j < species_i ==> {
                    let s = #[trigger] new_species_collection.collection@[j];
                    s.id == ss[j].id
                        && s.age == ss[j].age
                        && s.last_best_fitness == ss[j].last_best_fitness
                        && (forall|k: int| 0 <= k < s.individuals@.len()
                            ==> (#[trigger] s.individuals@[k].adjusted_fitness) is None)
                        && (forall|k: int| 0 <= k < s.individuals@.len()
                            ==> ss[j]@.spec_is_compatible((#[trigger] s.individuals@[k]).individual))
                },
                count_individuals_upto(new_species_collection.collection@, species_i as int)
                    + orphans@.len() == usum(offspring_amounts@, species_i as int),
            decreases n - species_i,
        {
            let species = self.species_collection.species(species_i);
            let quota = offspring_amounts[species_i];
            let mut new_individuals: Vec<I> = Vec::new();
            let ghost orphans_before = orphans@.len();
            let mut n_offspring: usize = 0;
            while n_offspring < quota
                invariant
                    n_offspring <= quota,
                    *species == self.species_collection.collection@[species_i as int],
                    species_i < n,
                    n == ss.len(),
                    ss == self.species_collection.collection@,
                    self.wf(),
                    all_nonempty(ss),
                    conf.valid(),
                    new_individuals@.len() + orphans@.len() - orphans_before == n_offspring,
                    orphans@.len() >= orphans_before,
                    forall|k: int| 0 <= k < new_individuals@.len()
                        ==> ss[species_i as int]@.spec_is_compatible(#[trigger] new_individuals@[k]),
                decreases quota - n_offspring,
            {
                proof {
                    assert(ss[species_i as int]@.members.len() > 0);
                }
                let new_individual = self.generate_new_individual(conf, species, policies);
                if species.is_compatible(&new_individual) {
                    new_individuals.push(new_individual);
                } else {
                    orphans.push(new_individual);
                }
                n_offspring = n_offspring + 1;
            }
            let staged = species.clone_with_new_individuals(new_individuals);
            let ghost before_push = new_species_collection.collection@;
            new_species_collection.push(staged);
            proof {
                crate::species_collection::lemma_count_individuals_congruence(
                    new_species_collection.collection@,
                    before_push,
                    species_i as int,
                );
            }
            species_i = species_i + 1;
        }
        Result::Ok(crate::genus_seed::GenusSeed::new(orphans, new_species_collection))
    }

    /// The total number of individuals in the species from `from` onward.
    fn count_from(collection: &SpeciesCollection<I>, from: usize) -> (r: usize)
        requires
            from <= collection.collection@.len(),
            count_individuals_upto(collection.collection@, collection.collection@.len() as int) <= usize::MAX,
        ensures
            r == count_individuals_upto(collection.collection@, collection.collection@.len() as int)
                - count_individuals_upto(collection.collection@, from as int),
    {
        let ghost cs = collection.collection@;
        let m = collection.len();
        proof {
            crate::species_collection::lemma_count_individuals_nonneg(cs, from as int);
            crate::species_collection::lemma_count_individuals_mono(cs, from as int, m as int);
        }
        let mut total: usize = 0;
        let mut k: usize = from;
        while k < m
            invariant
                from <= k <= m,
                m == cs.len(),
                cs == collection.collection@,
                total == count_individuals_upto(cs, k as int) - count_individuals_upto(cs, from as int),
                count_individuals_upto(cs, m as int) <= usize::MAX,
                count_individuals_upto(cs, from as int) >= 0,
            decreases m - k,
        {
            proof {
                crate::species_collection::lemma_count_individuals_nonneg(cs, from as int);
                crate::species_collection::lemma_count_individuals_mono(cs, k as int + 1, m as int);
                crate::species_collection::lemma_count_individuals_mono(cs, from as int, k as int);
            }
            total = total + collection.species(k).len();
            k = k + 1;
        }
        total
    }

    /// Builds each paired species' final roster: the staged roster and the
    /// previous generation's roster go to the caller's population management,
    /// which returns exactly the species' quota. Species beyond the pairing
    /// are left untouched.
    fn manage_paired<P: Policies<I>>(
        old_collection: &mut SpeciesCollection<I>,
        staged: &mut SpeciesCollection<I>,
        amounts: &Vec<usize>,
        policies: &mut P,
    )
        requires
            amounts@.len() == old(old_collection).collection@.len(),
            amounts@.len() <= old(staged).collection@.len(),
            old(staged).cache_need_updating,
        ensures
            final(staged).collection@.len() == old(staged).collection@.len(),
            final(staged).cache_need_updating,
            forall|j: int| 0 <= j < amounts@.len() ==> {
                let s = #[trigger] final(staged).collection@[j];
                s.id == old(staged).collection@[j].id && s.individuals@.len() == amounts@[j]
            },
            forall|j: int| amounts@.len() <= j < old(staged).collection@.len()
                ==> #[trigger] final(staged).collection@[j] == old(staged).collection@[j],
    {
        let ghost orig = staged.collection@;
        let l = amounts.len();
        let ghost m = orig.len();
        let mut i: usize = 0;
        while i < l
            invariant
                i <= l,
                l == amounts@.len(),
                staged.collection@.len() == m,
                m == orig.len(),
                l <= m,
                old_collection.collection@.len() == l,
                staged.cache_need_updating == old(staged).cache_need_updating,
                forall|j: int| 0 <= j < i ==> {
                    let s = #[trigger] staged.collection@[j];
                    s.id == orig[j].id && s.individuals@.len() == amounts@[j]
                },
                forall|j: int| i <= j < m ==> #[trigger] staged.collection@[j] == orig[j],
            decreases l - i,
        {
            let mut sp = staged.collection.remove(i);
            let new_roster = sp.drain_individuals();
            let mut old_sp = old_collection.collection.remove(i);
            let old_roster = old_sp.drain_individuals();
            old_collection.collection.insert(i, old_sp);
            let final_roster = policies.manage_population(new_roster, old_roster, amounts[i]);
            sp.set_individuals(final_roster);
            staged.collection.insert(i, sp);
            i = i + 1;
        }
    }

    /// The generation transition: adopts each orphan into the first
    /// compatible staged species or a fresh one, recomputes offspring quotas
    /// against the population size minus the individuals fixed beyond the
    /// quota's reach, lets the caller's population management build each
    /// paired species' final roster, prunes empty species, and returns the
    /// next generation's genus. The result always holds exactly
    /// `total_population_size` individuals and pairwise-distinct species ids
    /// below its advanced id counter. Fails with a `ConfigurationError`
    /// exactly when quotas are owed and the total adjusted fitness is zero.
    #[verifier::rlimit(100)]
    pub fn next_generation<P: Policies<I>>(
        self,
        conf: &Conf,
        seed: crate::genus_seed::GenusSeed<I>,
        policies: &mut P,
    ) -> (r: Result<Genus<I>, SpeciationError>)
        requires
            self.wf(),
            self.species_collection.collection@.len() > 0,
            !self.species_collection.cache_need_updating,
            self.species_collection.best is Some,
            all_evaluated(self.species_collection.collection@),
            all_adjusted(self.species_collection.collection@),
            sharing_bounded(self.species_collection.collection@),
            conf.valid(),
            seed.new_species_collection.collection@.len() == self.species_collection.collection@.len(),
            forall|i: int| 0 <= i < self.species_collection.collection@.len()
                ==> (#[trigger] seed.new_species_collection.collection@[i].id)
                    == self.species_collection.collection@[i].id,
            seed.new_species_collection.cache_need_updating,
            count_individuals_upto(
                seed.new_species_collection.collection@,
                seed.new_species_collection.collection@.len() as int,
            ) + seed.orphans@.len() == conf.total_population_size,
            self.next_species_id + seed.orphans@.len() <= usize::MAX,
        ensures
            ({
                let ss = self.species_collection.collection@;
                let staged0 = seed.new_species_collection.collection@;
                let st0 = SpeciationState {
                    species: collection_models(staged0),
                    next_id: self.next_species_id,
                };
                let adopted = speciate_fold(st0, seed.orphans@, seed.orphans@.len() as int);
                match r {
                    Ok(g) => {
                        let gss = g.species_collection.collection@;
                        &&& g.wf()
                        &&& count_individuals_upto(gss, gss.len() as int) == conf.total_population_size
                        &&& g.next_species_id == adopted.next_id
                        &&& self.next_species_id <= g.next_species_id
                        &&& forall|k: int| staged0.len() <= k < adopted.species.len()
                            ==> exists|j: int| 0 <= j < gss.len()
                                && (#[trigger] gss[j].id) == (#[trigger] adopted.species[k]).id
                    },
                    Err(e) => e == SpeciationError::ConfigurationError
                        && total_adjusted_upto(ss, ss.len() as int) == 0,
                }
            }),
            total_adjusted_upto(
                self.species_collection.collection@,
                self.species_collection.collection@.len() as int,
            ) > 0 ==> r is Ok,
    {
        let ghost ss0 = self.species_collection.collection@;
        let ghost staged0 = seed.new_species_collection.collection@;
        let ghost orphans0 = seed.orphans@;
        let ghost st0 = SpeciationState::<I> {
            species: collection_models(staged0),
            next_id: self.next_species_id,
        };
        let mut this = self;
        let mut staged_coll = seed.new_species_collection;
        let mut next_id: usize = this.next_species_id;
        let l = staged_coll.len();

        // Orphan adoption.
        proof {
            assert forall|k: int| 0 <= k < st0.species.len()
                implies (#[trigger] st0.species[k].id) < st0.next_id by {
                assert(st0.species[k] == staged0[k]@);
                assert(staged0[k].id == ss0[k].id);
            }
            assert forall|k1: int, k2: int| 0 <= k1 < k2 < st0.species.len()
                implies (#[trigger] st0.species[k1].id) != (#[trigger] st0.species[k2].id) by {
                assert(st0.species[k1] == staged0[k1]@ && st0.species[k2] == staged0[k2]@);
                assert(staged0[k1].id == ss0[k1].id && staged0[k2].id == ss0[k2].id);
            }
            lemma_models_count_bridge(staged0, staged0.len() as int);
        }
        Self::adopt_orphans(&mut staged_coll, seed.orphans, &mut next_id);
        let ghost adopted = speciate_fold(st0, orphans0, orphans0.len() as int);
        let ghost adopted_exec = staged_coll.collection@;
        proof {
            lemma_speciate_fold_props(st0, orphans0, orphans0.len() as int);
            assert forall|k: int| 0 <= k < adopted_exec.len()
                implies (#[trigger] adopted_exec[k])@ == adopted.species[k] by {
                assert(collection_models(adopted_exec)[k] == adopted_exec[k]@);
            }
            lemma_models_count_bridge(adopted_exec, adopted_exec.len() as int);
        }
        let m = staged_coll.len();

        // Individuals fixed beyond the quotas' reach: the members of the
        // species spawned during adoption.
        proof {
            crate::species_collection::lemma_count_individuals_nonneg(adopted_exec, l as int);
            crate::species_collection::lemma_count_individuals_mono(adopted_exec, l as int, m as int);
        }
        let fixed = Self::count_from(&staged_coll, l);
        let target = conf.total_population_size - fixed;

        // Offspring quotas for the paired species, against the reduced target.
        let amounts: Vec<usize>;
        if target == 0 {
            let mut zeroes: Vec<usize> = Vec::new();
            let mut z: usize = 0;
            while z < l
                invariant
                    z <= l,
                    zeroes@.len() == z,
                    forall|j: int| 0 <= j < z ==> (#[trigger] zeroes@[j]) == 0,
                decreases l - z,
            {
                zeroes.push(0);
                z = z + 1;
            }
            proof {
                lemma_usum_zero(zeroes@, l as int);
            }
            amounts = zeroes;
        } else {
            amounts = match this.count_offsprings(target) {
                Result::Ok(v) => v,
                Result::Err(e) => {
                    return Result::Err(e);
                },
            };
        }

        // Population management, species by species, paired by position.
        Self::manage_paired(&mut this.species_collection, &mut staged_coll, &amounts, policies);
        let ghost managed = staged_coll.collection@;

        // The managed rosters hold exactly the quotas; the spawned species
        // keep their members: together, exactly the population size.
        proof {
            lemma_count_eq_usum(managed, amounts@, l as int);
            lemma_count_segment_congruence(managed, adopted_exec, l as int, m as int);
            assert(count_individuals_upto(managed, m as int) == conf.total_population_size);
            assert forall|k: int| 0 <= k < m implies (#[trigger] managed[k].id)
                == adopted.species[k].id by {
                if k < l {
                    assert(managed[k].id == adopted_exec[k].id);
                }
                assert(adopted_exec[k]@ == adopted.species[k]);
            }
            assert forall|k: int| l <= k < m
                implies (#[trigger] managed[k]@).members.len() == adopted.species[k].members.len() by {
                assert(managed[k] == adopted_exec[k]);
                assert(adopted_exec[k]@ == adopted.species[k]);
            }
        }

        // Prune the species that ended up empty.
        staged_coll.cleanup();
        proof {
            lemma_next_generation_assembly(managed, staged_coll.collection@, adopted, l as int, next_id);
        }
        Result::Ok(Genus { next_species_id: next_id, species_collection: staged_coll })
    }
}

/// Sum of the first `n` entries of a quota vector.
pub open spec fn usum(s: Seq<usize>, n: int) -> int
    decreases n,
{
    if n <= 0 {
        0
    } else {
        usum(s, n - 1) + s[n - 1]
    }
}

/// The raw (floored) offspring quota of species `i`: its accumulated
/// adjusted fitness divided by the average adjusted fitness over the whole
/// population, the division carried out as the exact rational
/// `accumulated * individual_count / total_adjusted`.
pub open spec fn spec_raw_quota<I: Individual>(ss: Seq<Species<I>>, i: int) -> int {
    ss[i]@.spec_accumulated_adjusted_fitness()
        * count_individuals_upto(ss, ss.len() as int)
        / total_adjusted_upto(ss, ss.len() as int)
}

/// Sum of the raw quotas of the first `n` species.
pub open spec fn raw_quota_sum_upto<I: Individual>(ss: Seq<Species<I>>, n: int) -> int
    decreases n,
{
    if n <= 0 {
        0
    } else {
        raw_quota_sum_upto(ss, n - 1) + spec_raw_quota(ss, n - 1)
    }
}

/// A roster's adjusted-fitness sum is never negative.
pub proof fn lemma_sum_adjusted_nonneg<I: Individual>(members: Seq<Indiv<I>>, n: int)
    ensures
        0 <= crate::species::members_sum_adjusted_upto(members, n),
    decreases n,
{
    if n > 0 {
        lemma_sum_adjusted_nonneg(members, n - 1);
    }
}

/// Every species' accumulated adjusted fitness lies between zero and the
/// total over all species.
pub proof fn lemma_acc_le_total<I: Individual>(ss: Seq<Species<I>>, i: int, n: int)
    requires
        0 <= i < n,
    ensures
        0 <= ss[i]@.spec_accumulated_adjusted_fitness() <= total_adjusted_upto(ss, n),
        0 <= total_adjusted_upto(ss, n),
    decreases n,
{
    lemma_sum_adjusted_nonneg(ss[i]@.members, ss[i]@.members.len() as int);
    if i < n - 1 {
        lemma_acc_le_total(ss, i, n - 1);
        lemma_sum_adjusted_nonneg(ss[n - 1]@.members, ss[n - 1]@.members.len() as int);
    } else {
        lemma_total_adjusted_nonneg(ss, n - 1);
    }
}

/// A total of adjusted fitness is never negative.
pub proof fn lemma_total_adjusted_nonneg<I: Individual>(ss: Seq<Species<I>>, n: int)
    ensures
        0 <= total_adjusted_upto(ss, n),
    decreases n,
{
    if n > 0 {
        lemma_total_adjusted_nonneg(ss, n - 1);
        lemma_sum_adjusted_nonneg(ss[n - 1]@.members, ss[n - 1]@.members.len() as int);
    }
}

/// With every adjusted value under the fitness-sharing bound for a roster of
/// size `len`, the sum of the first `n` values stays under `n` times the
/// bound.
proof fn lemma_sum_adjusted_bounded<I: Individual>(members: Seq<Indiv<I>>, bound: int, n: int)
    requires
        0 <= bound,
        forall|j: int| 0 <= j < members.len() ==> ((#[trigger] members[j].adjusted_fitness) matches Some(a)
            ==> a as int <= bound),
        forall|j: int| 0 <= j < members.len() ==> (#[trigger] members[j].adjusted_fitness) is Some,
        0 <= n <= members.len(),
    ensures
        crate::species::members_sum_adjusted_upto(members, n) <= n * bound,
    decreases n,
{
    if n > 0 {
        lemma_sum_adjusted_bounded(members, bound, n - 1);
        assert(members[n - 1].adjusted_fitness is Some);
        let a = members[n - 1].adjusted_fitness->Some_0;
        assert(a as int <= bound);
        assert(crate::species::members_sum_adjusted_upto(members, n)
            == crate::species::members_sum_adjusted_upto(members, n - 1) + a);
        assert(n * bound == (n - 1) * bound + bound) by (nonlinear_arith);
    } else {
        vstd::arithmetic::mul::lemma_mul_by_zero_is_zero(bound);
    }
}

/// Under the fitness-sharing bound, one species' accumulated adjusted
/// fitness fits in a `u64`.
pub proof fn lemma_acc_le_u64max<I: Individual>(ss: Seq<Species<I>>, i: int)
    requires
        0 <= i < ss.len(),
        sharing_bounded(ss),
        all_adjusted(ss),
        ss[i].individuals@.len() > 0,
    ensures
        ss[i]@.spec_accumulated_adjusted_fitness() <= u64::MAX as int,
    decreases ss.len(),
{
    let m = ss[i].individuals@;
    let len = m.len() as int;
    let bound = u64::MAX as int / len;
    lemma_div_pos_is_pos(u64::MAX as int, len);
    assert(ss[i]@.all_adjusted());
    assert forall|j: int| 0 <= j < m.len() implies ((#[trigger] m[j].adjusted_fitness) matches Some(a)
        ==> a as int <= bound) by {
        assert(ss[i].individuals@[j].adjusted_fitness matches Some(a)
            ==> a as int <= u64::MAX as int / ss[i].individuals@.len() as int);
    }
    assert forall|j: int| 0 <= j < m.len() implies (#[trigger] m[j].adjusted_fitness) is Some by {
        assert(ss[i]@.members[j].adjusted_fitness is Some);
    }
    lemma_sum_adjusted_bounded(m, bound, len);
    lemma_fundamental_div_mod(u64::MAX as int, len);
    lemma_mod_pos_bound(u64::MAX as int, len);
    assert(len * bound <= u64::MAX as int);
    assert(len * bound == bound * len) by (nonlinear_arith);
}

/// Division by a positive divisor is superadditive over non-negative
/// numerators: `a / d + b / d <= (a + b) / d`.
pub proof fn lemma_div_superadditive(a: int, b: int, d: int)
    requires
        0 <= a,
        0 <= b,
        0 < d,
    ensures
        a / d + b / d <= (a + b) / d,
{
    lemma_fundamental_div_mod(a, d);
    lemma_fundamental_div_mod(b, d);
    lemma_mod_pos_bound(a, d);
    lemma_mod_pos_bound(b, d);
    let q = a / d + b / d;
    vstd::arithmetic::mul::lemma_mul_is_distributive_add(d, a / d, b / d);
    vstd::arithmetic::mul::lemma_mul_is_commutative(q, d);
    lemma_div_pos_is_pos(a, d);
    lemma_div_pos_is_pos(b, d);
    lemma_div_is_ordered(q * d, a + b, d);
    lemma_div_by_multiple(q, d);
}

/// The raw quotas of the first `n` species sum to at most the total number
/// of individuals: flooring can only undershoot.
pub proof fn lemma_raw_quota_sum_le_count<I: Individual>(ss: Seq<Species<I>>, n: int)
    requires
        0 <= n <= ss.len(),
        total_adjusted_upto(ss, ss.len() as int) > 0,
    ensures
        0 <= raw_quota_sum_upto(ss, n),
        raw_quota_sum_upto(ss, n)
            <= total_adjusted_upto(ss, n) * count_individuals_upto(ss, ss.len() as int)
                / total_adjusted_upto(ss, ss.len() as int),
        n == ss.len() ==> raw_quota_sum_upto(ss, n) <= count_individuals_upto(ss, ss.len() as int),
    decreases n,
{
    let t = total_adjusted_upto(ss, ss.len() as int);
    let cnt = count_individuals_upto(ss, ss.len() as int);
    crate::species_collection::lemma_count_individuals_nonneg(ss, ss.len() as int);
    if n == 0 {
        lemma_total_adjusted_nonneg(ss, 0);
        vstd::arithmetic::mul::lemma_mul_by_zero_is_zero(cnt);
        lemma_div_pos_is_pos(0, t);
    } else {
        lemma_raw_quota_sum_le_count(ss, n - 1);
        let acc = ss[n - 1]@.spec_accumulated_adjusted_fitness();
        lemma_sum_adjusted_nonneg(ss[n - 1]@.members, ss[n - 1]@.members.len() as int);
        lemma_total_adjusted_nonneg(ss, n - 1);
        vstd::arithmetic::mul::lemma_mul_nonnegative(total_adjusted_upto(ss, n - 1), cnt);
        vstd::arithmetic::mul::lemma_mul_nonnegative(acc, cnt);
        lemma_div_pos_is_pos(acc * cnt, t);
        lemma_div_superadditive(total_adjusted_upto(ss, n - 1) * cnt, acc * cnt, t);
        lemma_mul_is_distributive_add_other_way(cnt, total_adjusted_upto(ss, n - 1), acc);
        if n == ss.len() {
            lemma_div_by_multiple(cnt, t);
            vstd::arithmetic::mul::lemma_mul_is_commutative(t, cnt);
        }
    }
}

/// A longer prefix of raw quotas never sums to less.
pub proof fn lemma_raw_quota_sum_mono<I: Individual>(ss: Seq<Species<I>>, i: int, j: int)
    requires
        0 <= i <= j <= ss.len(),
        total_adjusted_upto(ss, ss.len() as int) > 0,
    ensures
        raw_quota_sum_upto(ss, i) <= raw_quota_sum_upto(ss, j),
    decreases j - i,
{
    if i < j {
        lemma_raw_quota_sum_mono(ss, i, j - 1);
        let acc = ss[j - 1]@.spec_accumulated_adjusted_fitness();
        let cnt = count_individuals_upto(ss, ss.len() as int);
        lemma_sum_adjusted_nonneg(ss[j - 1]@.members, ss[j - 1]@.members.len() as int);
        crate::species_collection::lemma_count_individuals_nonneg(ss, ss.len() as int);
        vstd::arithmetic::mul::lemma_mul_nonnegative(acc, cnt);
        lemma_div_pos_is_pos(acc * cnt, total_adjusted_upto(ss, ss.len() as int));
    }
}

/// Updating one entry of a quota vector shifts its sum by the difference.
pub proof fn lemma_usum_update(s: Seq<usize>, i: int, v: usize, n: int)
    requires
        0 <= i < s.len(),
        n <= s.len(),
    ensures
        usum(s.update(i, v), n) == usum(s, n) + if i < n { v - s[i] } else { 0int },
    decreases n,
{
    if n > 0 {
        lemma_usum_update(s, i, v, n - 1);
    }
}

/// Every entry of a quota vector is at most the sum, and the sum is never
/// negative.
pub proof fn lemma_usum_element(s: Seq<usize>, i: int, n: int)
    requires
        0 <= n,
    ensures
        0 <= usum(s, n),
        0 <= i < n ==> s[i] <= usum(s, n),
    decreases n,
{
    if n > 0 {
        lemma_usum_element(s, i, n - 1);
    }
}

/// Sum of the quotas of the first `n` species whose id is not excluded.
pub open spec fn drain_sum<I: Individual>(
    amounts: Seq<usize>,
    ss: Seq<Species<I>>,
    excluded: Seq<usize>,
    n: int,
) -> int
    decreases n,
{
    if n <= 0 {
        0
    } else {
        drain_sum(amounts, ss, excluded, n - 1) + if excluded.contains(ss[n - 1].id) {
            0int
        } else {
            amounts[n - 1] as int
        }
    }
}

/// How many of the first `n` species are not excluded.
pub open spec fn count_non_excluded<I: Individual>(ss: Seq<Species<I>>, excluded: Seq<usize>, n: int) -> int
    decreases n,
{
    if n <= 0 {
        0
    } else {
        count_non_excluded(ss, excluded, n - 1) + if excluded.contains(ss[n - 1].id) {
            0int
        } else {
            1int
        }
    }
}

/// With nothing excluded, the drain sum is the plain quota sum, and it is
/// never negative.
proof fn lemma_drain_sum_no_excluded<I: Individual>(amounts: Seq<usize>, ss: Seq<Species<I>>, n: int)
    ensures
        drain_sum(amounts, ss, Seq::<usize>::empty(), n) == usum(amounts, n),
    decreases n,
{
    if n > 0 {
        lemma_drain_sum_no_excluded(amounts, ss, n - 1);
    }
}

/// A drain sum is never negative.
proof fn lemma_drain_sum_nonneg<I: Individual>(amounts: Seq<usize>, ss: Seq<Species<I>>, excluded: Seq<usize>, n: int)
    ensures
        0 <= drain_sum(amounts, ss, excluded, n),
    decreases n,
{
    if n > 0 {
        lemma_drain_sum_nonneg(amounts, ss, excluded, n - 1);
    }
}

/// A positive drain sum names a non-excluded species.
proof fn lemma_drain_sum_has_witness<I: Individual>(
    amounts: Seq<usize>,
    ss: Seq<Species<I>>,
    excluded: Seq<usize>,
    n: int,
)
    requires
        drain_sum(amounts, ss, excluded, n) > 0,
    ensures
        exists|i: int| 0 <= i < n && !excluded.contains(#[trigger] ss[i].id),
    decreases n,
{
    if n > 0 {
        if !excluded.contains(ss[n - 1].id) {
            assert(0 <= n - 1 < n && !excluded.contains(ss[n - 1].id));
        } else {
            lemma_drain_sum_has_witness(amounts, ss, excluded, n - 1);
        }
    }
}

/// Zeroing the worst species' quota and excluding its id removes exactly that
/// quota from the drain sum.
proof fn lemma_drain_sum_exclude<I: Individual>(
    amounts: Seq<usize>,
    ss: Seq<Species<I>>,
    excluded: Seq<usize>,
    wi: int,
    n: int,
)
    requires
        0 <= wi < n,
        n <= amounts.len(),
        n <= ss.len(),
        ids_unique(ss),
        !excluded.contains(ss[wi].id),
    ensures
        drain_sum(amounts.update(wi, 0), ss, excluded.push(ss[wi].id), n)
            == drain_sum(amounts, ss, excluded, n) - amounts[wi],
    decreases n,
{
    vstd::seq_lib::lemma_seq_contains_after_push(excluded, ss[wi].id, ss[n - 1].id);
    if wi < n - 1 {
        lemma_drain_sum_exclude(amounts, ss, excluded, wi, n - 1);
    } else {
        assert forall|i: int| 0 <= i < n - 1 implies (excluded.push(ss[wi].id).contains(#[trigger] ss[i].id)
            <==> excluded.contains(ss[i].id)) by {
            vstd::seq_lib::lemma_seq_contains_after_push(excluded, ss[wi].id, ss[i].id);
            assert(ss[i].id != ss[wi].id);
        }
        lemma_drain_sum_same(amounts.update(wi, 0), amounts, ss, excluded.push(ss[wi].id), excluded, n - 1);
    }
}

/// Two drain sums agree when, below `n`, the excluded status and the quota
/// of every species agree.
proof fn lemma_drain_sum_same<I: Individual>(
    a1: Seq<usize>,
    a2: Seq<usize>,
    ss: Seq<Species<I>>,
    e1: Seq<usize>,
    e2: Seq<usize>,
    n: int,
)
    requires
        n <= a1.len(),
        n <= a2.len(),
        n <= ss.len(),
        forall|i: int| 0 <= i < n ==> (e1.contains(#[trigger] ss[i].id) <==> e2.contains(ss[i].id)),
        forall|i: int| 0 <= i < n && !e1.contains(#[trigger] ss[i].id) ==> a1[i] == a2[i],
    ensures
        drain_sum(a1, ss, e1, n) == drain_sum(a2, ss, e2, n),
    decreases n,
{
    if n > 0 {
        lemma_drain_sum_same(a1, a2, ss, e1, e2, n - 1);
    }
}

/// Updating the quota of a non-excluded species shifts the drain sum by the
/// difference.
proof fn lemma_drain_sum_update<I: Individual>(
    amounts: Seq<usize>,
    ss: Seq<Species<I>>,
    excluded: Seq<usize>,
    wi: int,
    v: usize,
    n: int,
)
    requires
        0 <= wi < n,
        n <= amounts.len(),
        n <= ss.len(),
        ids_unique(ss),
        !excluded.contains(ss[wi].id),
    ensures
        drain_sum(amounts.update(wi, v), ss, excluded, n)
            == drain_sum(amounts, ss, excluded, n) + v - amounts[wi],
    decreases n,
{
    if wi < n - 1 {
        lemma_drain_sum_update(amounts, ss, excluded, wi, v, n - 1);
    } else {
        lemma_drain_sum_same(amounts.update(wi, v), amounts, ss, excluded, excluded, n - 1);
    }
}

/// The result of draining `excess` offspring from a quota vector: the
/// current worst non-excluded species absorbs as much of the excess as its
/// quota holds (clamped at zero), its id joins the exclusions, and the drain
/// continues with the next-worst species until the excess is exhausted.
/// `fuel` bounds the number of species that can be drained; with
/// pairwise-distinct ids and the excess within the non-excluded quotas it
/// never runs out first.
pub open spec fn drain_quotas<I: Individual>(
    amounts: Seq<usize>,
    ss: Seq<Species<I>>,
    excluded: Seq<usize>,
    excess: int,
    fuel: nat,
) -> Seq<usize>
    decreases fuel,
{
    if excess <= 0 || fuel == 0 {
        amounts
    } else {
        match worst_species_upto(ss, excluded, ss.len() as int) {
            Option::None => amounts,
            Option::Some(w) => {
                let cur = amounts[w] as int;
                if cur > excess {
                    amounts.update(w, (cur - excess) as usize)
                } else {
                    drain_quotas(
                        amounts.update(w, 0),
                        ss,
                        excluded.push(ss[w].id),
                        excess - cur,
                        (fuel - 1) as nat,
                    )
                }
            },
        }
    }
}

/// When every species is excluded, nothing is left to drain from.
proof fn lemma_cne_zero_drain_sum<I: Individual>(
    amounts: Seq<usize>,
    ss: Seq<Species<I>>,
    excluded: Seq<usize>,
    n: int,
)
    requires
        count_non_excluded(ss, excluded, n) == 0,
    ensures
        drain_sum(amounts, ss, excluded, n) == 0,
    decreases n,
{
    if n > 0 {
        lemma_cne_nonneg(ss, excluded, n - 1);
        lemma_cne_zero_drain_sum(amounts, ss, excluded, n - 1);
    }
}

/// A count of non-excluded species is never negative.
proof fn lemma_cne_nonneg<I: Individual>(ss: Seq<Species<I>>, excluded: Seq<usize>, n: int)
    ensures
        0 <= count_non_excluded(ss, excluded, n),
    decreases n,
{
    if n > 0 {
        lemma_cne_nonneg(ss, excluded, n - 1);
    }
}

/// With pairwise-distinct ids, excluding a so-far non-excluded species
/// lowers the count of non-excluded species by exactly one.
proof fn lemma_cne_exclude<I: Individual>(ss: Seq<Species<I>>, excluded: Seq<usize>, wi: int, n: int)
    requires
        0 <= wi < n,
        n <= ss.len(),
        ids_unique(ss),
        !excluded.contains(ss[wi].id),
    ensures
        count_non_excluded(ss, excluded.push(ss[wi].id), n) == count_non_excluded(ss, excluded, n) - 1,
    decreases n,
{
    vstd::seq_lib::lemma_seq_contains_after_push(excluded, ss[wi].id, ss[n - 1].id);
    if wi < n - 1 {
        lemma_cne_exclude(ss, excluded, wi, n - 1);
        assert(ss[n - 1].id != ss[wi].id);
    } else {
        assert forall|i: int| 0 <= i < n - 1 implies (excluded.push(ss[wi].id).contains(#[trigger] ss[i].id)
            <==> excluded.contains(ss[i].id)) by {
            vstd::seq_lib::lemma_seq_contains_after_push(excluded, ss[wi].id, ss[i].id);
            assert(ss[i].id != ss[wi].id);
        }
        lemma_cne_same(ss, excluded.push(ss[wi].id), excluded, n - 1);
    }
}

/// Two counts of non-excluded species agree when the excluded status agrees
/// below `n`.
proof fn lemma_cne_same<I: Individual>(ss: Seq<Species<I>>, e1: Seq<usize>, e2: Seq<usize>, n: int)
    requires
        n <= ss.len(),
        forall|i: int| 0 <= i < n ==> (e1.contains(#[trigger] ss[i].id) <==> e2.contains(ss[i].id)),
    ensures
        count_non_excluded(ss, e1, n) == count_non_excluded(ss, e2, n),
    decreases n,
{
    if n > 0 {
        lemma_cne_same(ss, e1, e2, n - 1);
    }
}

/// A quota vector of zeroes sums to zero.
proof fn lemma_usum_zero(s: Seq<usize>, n: int)
    requires
        forall|j: int| 0 <= j < n ==> (#[trigger] s[j]) == 0,
    ensures
        usum(s, n) == 0,
    decreases n,
{
    if n > 0 {
        lemma_usum_zero(s, n - 1);
    }
}

/// Species whose rosters have exactly the quota sizes count the quota sum.
proof fn lemma_count_eq_usum<I: Individual>(ss: Seq<Species<I>>, amounts: Seq<usize>, n: int)
    requires
        0 <= n <= ss.len(),
        n <= amounts.len(),
        forall|j: int| 0 <= j < n ==> (#[trigger] ss[j].individuals@.len()) == amounts[j],
    ensures
        count_individuals_upto(ss, n) == usum(amounts, n),
    decreases n,
{
    if n > 0 {
        lemma_count_eq_usum(ss, amounts, n - 1);
    }
}

/// Two sequences of species whose rosters agree in size over `[l, m)` count
/// that segment the same.
proof fn lemma_count_segment_congruence<I: Individual>(a: Seq<Species<I>>, b: Seq<Species<I>>, l: int, m: int)
    requires
        0 <= l <= m,
        m <= a.len(),
        m <= b.len(),
        forall|j: int| l <= j < m ==> (#[trigger] a[j].individuals@.len()) == b[j].individuals@.len(),
    ensures
        count_individuals_upto(a, m) - count_individuals_upto(a, l)
            == count_individuals_upto(b, m) - count_individuals_upto(b, l),
    decreases m - l,
{
    if l < m {
        lemma_count_segment_congruence(a, b, l, m - 1);
    }
}

/// After management and pruning, the next generation is well formed: ids stay
/// pairwise distinct and below the advanced counter, no species is empty, the
/// individual count is unchanged by pruning, and every species spawned during
/// adoption survives into the result.
#[verifier::rlimit(100)]
proof fn lemma_next_generation_assembly<I: Individual>(
    managed: Seq<Species<I>>,
    kept: Seq<Species<I>>,
    adopted: SpeciationState<I>,
    l: int,
    next_id: usize,
)
    requires
        managed.len() == adopted.species.len(),
        0 <= l <= managed.len(),
        forall|k: int| 0 <= k < managed.len() ==> (#[trigger] managed[k].id) == adopted.species[k].id,
        forall|k: int| l <= k < managed.len()
            ==> (#[trigger] managed[k]@).members.len() == adopted.species[k].members.len(),
        forall|k: int| 0 <= k < adopted.species.len() ==> (#[trigger] adopted.species[k].id) < next_id,
        forall|k1: int, k2: int| 0 <= k1 < k2 < adopted.species.len()
            ==> (#[trigger] adopted.species[k1].id) != (#[trigger] adopted.species[k2].id),
        forall|k: int| l <= k < adopted.species.len()
            ==> (#[trigger] adopted.species[k].members.len()) > 0,
        kept == crate::species_collection::retain_nonempty_upto(managed, managed.len() as int),
    ensures
        ids_unique(kept),
        all_nonempty(kept),
        count_individuals_upto(kept, kept.len() as int)
            == count_individuals_upto(managed, managed.len() as int),
        forall|j: int| 0 <= j < kept.len() ==> (#[trigger] kept[j].id) < next_id,
        forall|k: int| l <= k < adopted.species.len()
            ==> exists|j: int| 0 <= j < kept.len()
                && (#[trigger] kept[j].id) == (#[trigger] adopted.species[k]).id,
{
    let m = managed.len() as int;
    assert(ids_unique(managed));
    crate::species_collection::lemma_retain_count(managed, m);
    crate::species_collection::lemma_retain_membership(managed, m);
    crate::species_collection::lemma_retain_keeps_nonempty(managed, m);
    crate::species_collection::lemma_retain_ids_unique(managed, m);
    assert forall|j: int| 0 <= j < kept.len() implies (#[trigger] kept[j].id) < next_id by {
        let k0 = choose|k0: int| 0 <= k0 < m && kept[j] == managed[k0];
        assert(managed[k0].id == adopted.species[k0].id);
    }
    assert forall|k: int| l <= k < adopted.species.len()
        implies exists|j: int| 0 <= j < kept.len()
            && (#[trigger] kept[j].id) == (#[trigger] adopted.species[k]).id by {
        assert(managed[k]@.members.len() > 0);
        let j = choose|j: int| 0 <= j < kept.len() && kept[j] == managed[k];
        assert(kept[j].id == adopted.species[k].id);
    }
}

/// What one species looks like after the update pass (aging plus
/// rejuvenation of the best species) followed by the fitness-sharing pass.
pub open spec fn updated_species_model<I: Individual>(ss: Seq<Species<I>>, i: int, conf: Conf) -> SpeciesModel<I> {
    let s = ss[i]@;
    let a2 = aged(ss, i);
    let is_best = match best_species_upto(ss, ss.len() as int) {
        Option::Some(b) => ss[i].id == ss[b].id,
        Option::None => false,
    };
    let out = members_adjust_upto(
        s.members,
        is_best,
        a2.generations,
        s.last_best_fitness,
        a2.no_improvements,
        conf,
        s.members.len() as int,
    );
    SpeciesModel {
        id: s.id,
        members: Seq::new(s.members.len(), |j: int| Indiv {
            individual: s.members[j].individual,
            adjusted_fitness: out.adjusted[j],
        }),
        age: Age {
            generations: a2.generations,
            evaluations: a2.evaluations,
            no_improvements: out.no_improvements,
        },
        last_best_fitness: out.last_best_fitness,
    }
}

/// Speciation is deterministic: it is a function of the id counter, the
/// incoming order of the population, and the individuals' compatibility
/// behavior alone. Two genera with the same counter partition the same
/// population identically, whatever species they previously held.
pub proof fn lemma_speciate_deterministic<I: Individual>(a: Genus<I>, b: Genus<I>, pop: Seq<I>)
    requires
        a.next_species_id == b.next_species_id,
    ensures
        spec_speciate(a.next_species_id, pop) == spec_speciate(b.next_species_id, pop),
{
}

/// Species ids are issued strictly increasing and are never reused:
/// speciation numbers the species it creates contiguously from the genus's
/// counter upward, and leaves the counter just past the last issued id.
pub proof fn lemma_speciate_ids_strictly_increase<I: Individual>(next_id: usize, pop: Seq<I>)
    requires
        next_id + pop.len() <= usize::MAX,
    ensures
        ({
            let st = spec_speciate(next_id, pop);
            &&& forall|k: int| 0 <= k < st.species.len() ==> (#[trigger] st.species[k].id) == next_id + k
            &&& st.next_id == next_id + st.species.len()
            &&& forall|k1: int, k2: int| 0 <= k1 < k2 < st.species.len()
                ==> (#[trigger] st.species[k1].id) < (#[trigger] st.species[k2].id)
        }),
{
    let st0 = SpeciationState::<I> { species: Seq::empty(), next_id };
    lemma_speciate_fold_props(st0, pop, pop.len() as int);
}

} // verus!
