//! The ordered set of species of a genus, with a lazily recomputed cache of
//! the best species' index.

use vstd::prelude::*;
use crate::age::Age;
use crate::conf::Conf;
use crate::individual::Individual;
use crate::species::{fit_lt, members_best_fitness, Species};

verus! {

/// Whether `ids` holds `x`.
fn contains_id(ids: &Vec<usize>, x: usize) -> (r: bool)
    ensures
        r == ids@.contains(x),
{
    let n = ids.len();
    let mut i: usize = 0;
    while i < n
        invariant
            i <= n,
            n == ids@.len(),
            forall|j: int| 0 <= j < i ==> ids@[j] != x,
        decreases n - i,
    {
        if ids[i] == x {
            return true;
        }
        i = i + 1;
    }
    assert(!ids@.contains(x));
    false
}

/// The age a species has after the update pass: every species' generation
/// count and stagnation streak grow by one, except the previous best species,
/// which is rejuvenated.
pub open spec fn aged<I: Individual>(ss: Seq<Species<I>>, i: int) -> Age {
    let a = ss[i].age;
    if best_species_upto(ss, ss.len() as int) == Option::Some(i) {
        Age { generations: 0, evaluations: a.evaluations, no_improvements: 0 }
    } else {
        Age {
            generations: (a.generations + 1) as usize,
            evaluations: a.evaluations,
            no_improvements: (a.no_improvements + 1) as usize,
        }
    }
}

/// The sequence of best raw fitness values of a sequence of species.
pub open spec fn best_fitness_profile<I: Individual>(ss: Seq<Species<I>>) -> Seq<Option<u64>> {
    Seq::new(ss.len(), |i: int| members_best_fitness(ss[i].individuals@))
}

/// The sequence of ids of a sequence of species.
pub open spec fn id_profile<I: Individual>(ss: Seq<Species<I>>) -> Seq<usize> {
    Seq::new(ss.len(), |i: int| ss[i].id)
}

/// First index among the first `n` entries of a best-fitness profile holding
/// the maximum; `None` entries (species in which no member has been
/// evaluated) are skipped. Ties go to the earliest index.
pub open spec fn profile_best_species_upto(fp: Seq<Option<u64>>, n: int) -> Option<int>
    decreases n,
{
    if n <= 0 {
        Option::None
    } else {
        let prev = profile_best_species_upto(fp, n - 1);
        let cur = fp[n - 1];
        match prev {
            Option::None => if cur is Some {
                Option::Some(n - 1)
            } else {
                Option::None
            },
            Option::Some(p) => if fit_lt(fp[p], cur) {
                Option::Some(n - 1)
            } else {
                Option::Some(p)
            },
        }
    }
}

/// First index among the first `n` entries holding the minimum best fitness,
/// among the entries whose id is not excluded and which are not `None`.
pub open spec fn profile_worst_species_upto(
    fp: Seq<Option<u64>>,
    ids: Seq<usize>,
    excluded: Seq<usize>,
    n: int,
) -> Option<int>
    decreases n,
{
    if n <= 0 {
        Option::None
    } else {
        let prev = profile_worst_species_upto(fp, ids, excluded, n - 1);
        let cur = fp[n - 1];
        if excluded.contains(ids[n - 1]) || cur is None {
            prev
        } else {
            match prev {
                Option::None => Option::Some(n - 1),
                Option::Some(p) => if fit_lt(cur, fp[p]) {
                    Option::Some(n - 1)
                } else {
                    Option::Some(p)
                },
            }
        }
    }
}

/// First index among the first `n` species holding the maximum best-fitness;
/// species in which no member has been evaluated are skipped. `None` when no
/// species qualifies. Ties go to the earliest species.
pub open spec fn best_species_upto<I: Individual>(ss: Seq<Species<I>>, n: int) -> Option<int> {
    profile_best_species_upto(best_fitness_profile(ss), n)
}

/// First index of the species with the lowest best-fitness among the species
/// whose id is not excluded and in which some member has been evaluated.
pub open spec fn worst_species_upto<I: Individual>(ss: Seq<Species<I>>, excluded: Seq<usize>, n: int) -> Option<int> {
    profile_worst_species_upto(best_fitness_profile(ss), id_profile(ss), excluded, n)
}

/// The best-species index over the whole collection, as the cache stores it.
pub open spec fn spec_best_option<I: Individual>(ss: Seq<Species<I>>) -> Option<usize> {
    match best_species_upto(ss, ss.len() as int) {
        Option::None => Option::None,
        Option::Some(i) => Option::Some(i as usize),
    }
}

/// A best-species index points into the prefix it was drawn from, at an entry
/// in which some member has been evaluated.
pub proof fn lemma_best_species_range(fp: Seq<Option<u64>>, n: int)
    ensures
        profile_best_species_upto(fp, n) matches Some(p) ==> 0 <= p < n && fp[p] is Some,
    decreases n,
{
    if n > 0 {
        lemma_best_species_range(fp, n - 1);
    }
}

/// A worst-species index points into the prefix it was drawn from, at an
/// evaluated entry whose id is not excluded.
pub proof fn lemma_worst_species_range(fp: Seq<Option<u64>>, ids: Seq<usize>, excluded: Seq<usize>, n: int)
    ensures
        profile_worst_species_upto(fp, ids, excluded, n) matches Some(p)
            ==> 0 <= p < n && fp[p] is Some && !excluded.contains(ids[p]),
    decreases n,
{
    if n > 0 {
        lemma_worst_species_range(fp, ids, excluded, n - 1);
    }
}

/// Total number of individuals in the first `n` species.
pub open spec fn count_individuals_upto<I: Individual>(ss: Seq<Species<I>>, n: int) -> int
    decreases n,
{
    if n <= 0 {
        0
    } else {
        count_individuals_upto(ss, n - 1) + ss[n - 1]@.members.len()
    }
}

/// Total adjusted fitness over the first `n` species.
pub open spec fn total_adjusted_upto<I: Individual>(ss: Seq<Species<I>>, n: int) -> int
    decreases n,
{
    if n <= 0 {
        0
    } else {
        total_adjusted_upto(ss, n - 1) + ss[n - 1]@.spec_accumulated_adjusted_fitness()
    }
}

/// The first `n` species, with the empty ones dropped.
pub open spec fn retain_nonempty_upto<I: Individual>(ss: Seq<Species<I>>, n: int) -> Seq<Species<I>>
    decreases n,
{
    if n <= 0 {
        Seq::empty()
    } else {
        let prev = retain_nonempty_upto(ss, n - 1);
        if ss[n - 1]@.members.len() > 0 {
            prev.push(ss[n - 1])
        } else {
            prev
        }
    }
}

/// No two species share an id.
pub open spec fn ids_unique<I: Individual>(ss: Seq<Species<I>>) -> bool {
    forall|i: int, j: int| 0 <= i < j < ss.len() ==> (#[trigger] ss[i].id) != (#[trigger] ss[j].id)
}

/// No species is empty.
pub open spec fn all_nonempty<I: Individual>(ss: Seq<Species<I>>) -> bool {
    forall|i: int| 0 <= i < ss.len() ==> (#[trigger] ss[i]@.members.len()) > 0
}

/// Every member of every species has been evaluated.
pub open spec fn all_evaluated<I: Individual>(ss: Seq<Species<I>>) -> bool {
    forall|i: int| 0 <= i < ss.len() ==> (#[trigger] ss[i]@).all_evaluated()
}

/// Every member of every species has an adjusted fitness.
pub open spec fn all_adjusted<I: Individual>(ss: Seq<Species<I>>) -> bool {
    forall|i: int| 0 <= i < ss.len() ==> (#[trigger] ss[i]@).all_adjusted()
}

/// Every filled adjusted-fitness slot respects the fitness-sharing bound: the
/// value is at most `u64::MAX` divided by the species size. This is what
/// keeps accumulated adjusted fitness within `u64::MAX` per species.
pub open spec fn sharing_bounded<I: Individual>(ss: Seq<Species<I>>) -> bool {
    forall|i: int, j: int| 0 <= i < ss.len() && 0 <= j < ss[i].individuals@.len()
        ==> ((#[trigger] ss[i].individuals@[j].adjusted_fitness) matches Some(a)
            ==> a as int <= u64::MAX as int / ss[i].individuals@.len() as int)
}

/// Every species' age counters are below the machine limit, so one more
/// generation can be counted.
pub open spec fn ages_countable<I: Individual>(ss: Seq<Species<I>>) -> bool {
    forall|i: int| 0 <= i < ss.len() ==> ((#[trigger] ss[i]@).age.generations < usize::MAX
        && ss[i]@.age.no_improvements < usize::MAX)
}

/// An ordered collection of species plus a cache of the index of the best
/// species. The cache is marked stale whenever membership changes and must be
/// recomputed before any best-species query relies on it.
pub struct SpeciesCollection<I> {
    pub collection: Vec<Species<I>>,
    pub best: Option<usize>,
    pub cache_need_updating: bool,
}

impl<I: Individual> SpeciesCollection<I> {
    /// The cache, when it is marked clean, holds exactly the best-species
    /// index of the current membership.
    pub open spec fn cache_ok(self) -> bool {
        !self.cache_need_updating ==> self.best == spec_best_option(self.collection@)
    }

    pub fn new() -> (r: Self)
        ensures
            r.collection@ =~= Seq::<Species<I>>::empty(),
            r.best is None,
            r.cache_need_updating,
    {
        Self { collection: Vec::new(), best: Option::None, cache_need_updating: true }
    }

    /// A collection holding exactly the given species, cache stale.
    pub fn new_from_iter(species: Vec<Species<I>>) -> (r: Self)
        ensures
            r.collection@ == species@,
            r.best is None,
            r.cache_need_updating,
    {
        Self { collection: species, best: Option::None, cache_need_updating: true }
    }

    pub fn len(&self) -> (r: usize)
        ensures
            r == self.collection@.len(),
    {
        self.collection.len()
    }

    /// The species at `index`.
    pub fn species(&self, index: usize) -> (r: &Species<I>)
        requires
            index < self.collection@.len(),
        ensures
            *r == self.collection@[index as int],
    {
        &self.collection[index]
    }

    /// Appends a species and marks the best-index cache stale.
    pub fn push(&mut self, species: Species<I>)
        ensures
            final(self).collection@ == old(self).collection@.push(species),
            final(self).cache_need_updating,
    {
        self.collection.push(species);
        self.cache_need_updating = true;
    }

    /// Removes all empty species, keeping the order of the remaining ones,
    /// and marks the best-index cache stale.
    pub fn cleanup(&mut self)
        ensures
            final(self).collection@ == retain_nonempty_upto(old(self).collection@, old(self).collection@.len() as int),
            final(self).cache_need_updating,
    {
        let ghost orig = self.collection@;
        let mut kept: Vec<Species<I>> = Vec::new();
        let ghost mut processed: int = 0;
        while self.collection.len() > 0
            invariant
                0 <= processed <= orig.len(),
                processed + self.collection@.len() == orig.len(),
                kept@ == retain_nonempty_upto(orig, processed),
                forall|i: int| 0 <= i < self.collection@.len() ==> #[trigger] self.collection@[i] == orig[processed + i],
            decreases self.collection@.len(),
        {
            let s = self.collection.remove(0);
            if s.len() > 0 {
                kept.push(s);
            }
            proof {
                processed = processed + 1;
            }
        }
        self.collection = kept;
        self.cache_need_updating = true;
    }

    /// Deletes all species and marks the best-index cache stale.
    pub fn clear(&mut self)
        ensures
            final(self).collection@ =~= Seq::<Species<I>>::empty(),
            final(self).cache_need_updating,
    {
        self.collection.clear();
        self.cache_need_updating = true;
    }

    /// Recomputes the best-species cache: the first species holding the
    /// maximum best-individual fitness, species without any evaluated
    /// individual excluded.
    fn update_cache(&mut self)
        ensures
            final(self).collection@ == old(self).collection@,
            !final(self).cache_need_updating,
            final(self).best == spec_best_option(old(self).collection@),
    {
        let ghost fp = best_fitness_profile(self.collection@);
        let n = self.collection.len();
        let mut best: Option<usize> = Option::None;
        let mut best_fit: Option<u64> = Option::None;
        let mut i: usize = 0;
        while i < n
            invariant
                i <= n,
                n == self.collection@.len(),
                fp == best_fitness_profile(self.collection@),
                best is None ==> best_fit is None,
                match profile_best_species_upto(fp, i as int) {
                    Option::None => best is None,
                    Option::Some(p) => best matches Some(b) && b as int == p && best_fit == fp[p]
                        && fp[p] is Some,
                },
            decreases n - i,
        {
            proof {
                lemma_best_species_range(fp, i as int);
                lemma_best_species_range(fp, i as int + 1);
            }
            let cur: Option<u64> = self.collection[i].get_best_fitness();
            assert(cur == fp[i as int]);
            let replace = match (best_fit, cur) {
                (_, Option::None) => false,
                (Option::None, Option::Some(_)) => best.is_none(),
                (Option::Some(b), Option::Some(c)) => b < c,
            };
            if replace {
                best = Option::Some(i);
                best_fit = cur;
            }
            i = i + 1;
        }
        self.best = best;
        self.cache_need_updating = false;
    }

    /// The index of the best species, recomputing the cache if it is stale.
    /// `None` only when no species has an evaluated individual. Calling this
    /// on an empty collection is a contract violation.
    pub fn get_best(&mut self) -> (r: Option<usize>)
        requires
            old(self).cache_ok(),
            old(self).collection@.len() > 0,
        ensures
            final(self).collection@ == old(self).collection@,
            !final(self).cache_need_updating,
            final(self).cache_ok(),
            r == spec_best_option(old(self).collection@),
            final(self).best == r,
    {
        if self.cache_need_updating {
            self.update_cache();
        }
        self.best
    }

    /// The index of the worst species (by its best individual's fitness),
    /// skipping species whose id is in `exclude_ids` and species without any
    /// evaluated individual. Not cached: the result depends on the caller's
    /// exclusion state.
    pub fn get_worst(&self, exclude_ids: &Vec<usize>) -> (r: Option<usize>)
        ensures
            r == match worst_species_upto(self.collection@, exclude_ids@, self.collection@.len() as int) {
                Option::None => Option::<usize>::None,
                Option::Some(i) => Option::Some(i as usize),
            },
    {
        let ghost fp = best_fitness_profile(self.collection@);
        let ghost ids = id_profile(self.collection@);
        let n = self.collection.len();
        let mut worst: Option<usize> = Option::None;
        let mut worst_fit: Option<u64> = Option::None;
        let mut i: usize = 0;
        while i < n
            invariant
                i <= n,
                n == self.collection@.len(),
                fp == best_fitness_profile(self.collection@),
                ids == id_profile(self.collection@),
                worst is None ==> worst_fit is None,
                match profile_worst_species_upto(fp, ids, exclude_ids@, i as int) {
                    Option::None => worst is None,
                    Option::Some(p) => worst matches Some(w) && w as int == p && worst_fit == fp[p]
                        && fp[p] is Some,
                },
            decreases n - i,
        {
            proof {
                lemma_worst_species_range(fp, ids, exclude_ids@, i as int);
                lemma_worst_species_range(fp, ids, exclude_ids@, i as int + 1);
            }
            let cur: Option<u64> = self.collection[i].get_best_fitness();
            assert(cur == fp[i as int]);
            let skipped = contains_id(exclude_ids, self.collection[i].id);
            if !skipped {
                let replace = match (worst_fit, cur) {
                    (_, Option::None) => false,
                    (Option::None, Option::Some(_)) => worst.is_none(),
                    (Option::Some(w), Option::Some(c)) => c < w,
                };
                if replace {
                    worst = Option::Some(i);
                    worst_fit = cur;
                }
            }
            i = i + 1;
        }
        worst
    }

    /// Records the previous best species, increments every species' age and
    /// stagnation streak, then rejuvenates the recorded best species, so that
    /// the just-incremented best is the one reset.
    pub fn compute_update(&mut self)
        requires
            old(self).cache_ok(),
            old(self).collection@.len() > 0,
            ages_countable(old(self).collection@),
        ensures
            final(self).collection@.len() == old(self).collection@.len(),
            !final(self).cache_need_updating,
            final(self).cache_ok(),
            final(self).best == spec_best_option(old(self).collection@),
            forall|i: int| 0 <= i < old(self).collection@.len() ==> {
                let s_old = old(self).collection@[i];
                let s_new = #[trigger] final(self).collection@[i];
                s_new.id == s_old.id
                    && s_new.individuals@ == s_old.individuals@
                    && s_new.last_best_fitness == s_old.last_best_fitness
                    && s_new.age == aged(old(self).collection@, i)
            },
    {
        let ghost orig = self.collection@;
        let old_best: Option<usize> = self.get_best();
        proof {
            lemma_best_species_range(best_fitness_profile(orig), orig.len() as int);
        }
        let n = self.collection.len();
        let mut i: usize = 0;
        while i < n
            invariant
                i <= n,
                n == self.collection@.len(),
                n == orig.len(),
                ages_countable(orig),
                self.best == old_best,
                !self.cache_need_updating,
                forall|j: int| 0 <= j < i ==> {
                    let s_old = orig[j];
                    let s_new = #[trigger] self.collection@[j];
                    s_new.id == s_old.id
                        && s_new.individuals@ == s_old.individuals@
                        && s_new.last_best_fitness == s_old.last_best_fitness
                        && s_new.age == (Age {
                            generations: (s_old.age.generations + 1) as usize,
                            evaluations: s_old.age.evaluations,
                            no_improvements: (s_old.age.no_improvements + 1) as usize,
                        })
                },
                forall|j: int| i <= j < n ==> #[trigger] self.collection@[j] == orig[j],
            decreases n - i,
        {
            let mut s = self.collection.remove(i);
            s.increase_generations();
            s.increase_no_improvements_generations();
            self.collection.insert(i, s);
            i = i + 1;
        }
        if let Option::Some(b) = old_best {
            let mut s = self.collection.remove(b);
            s.reset_age();
            self.collection.insert(b, s);
        }
        proof {
            assert(best_fitness_profile(self.collection@) =~= best_fitness_profile(orig));
            assert(id_profile(self.collection@) =~= id_profile(orig));
        }
    }

    /// Recomputes each species' adjusted fitness, flagging only the cached
    /// best species as best. The cache must have been brought up to date (by
    /// [`Self::compute_update`] or [`Self::get_best`]) and must name a best
    /// species.
    pub fn compute_adjust_fitness(&mut self, conf: &Conf)
        requires
            old(self).cache_ok(),
            !old(self).cache_need_updating,
            old(self).best is Some,
            all_nonempty(old(self).collection@),
            conf.valid(),
        ensures
            final(self).collection@.len() == old(self).collection@.len(),
            final(self).best == old(self).best,
            !final(self).cache_need_updating,
            final(self).cache_ok(),
            forall|i: int| 0 <= i < old(self).collection@.len() ==> {
                let s_old = old(self).collection@[i];
                let s_new = #[trigger] final(self).collection@[i];
                let is_best = s_old.id == old(self).collection@[old(self).best->Some_0 as int].id;
                let out = s_old@.spec_adjust(is_best, *conf);
                s_new.id == s_old.id
                    && s_new.individuals@.len() == s_old.individuals@.len()
                    && (forall|j: int| 0 <= j < s_old.individuals@.len()
                        ==> (#[trigger] s_new.individuals@[j].individual) == s_old.individuals@[j].individual)
                    && (forall|j: int| 0 <= j < s_old.individuals@.len()
                        ==> (#[trigger] s_new.individuals@[j].adjusted_fitness) == out.adjusted[j])
                    && (forall|j: int| 0 <= j < s_old.individuals@.len()
                        ==> ((#[trigger] s_new.individuals@[j].adjusted_fitness) matches Some(a)
                            && a as int <= u64::MAX as int / s_old.individuals@.len() as int))
                    && s_new.last_best_fitness == out.last_best_fitness
                    && s_new.age == (Age { no_improvements: out.no_improvements, ..s_old.age })
            },
    {
        let ghost orig = self.collection@;
        proof {
            lemma_best_species_range(best_fitness_profile(orig), orig.len() as int);
        }
        let b: usize = match self.best {
            Option::Some(b) => b,
            Option::None => 0,
        };
        let best_id: usize = self.collection[b].id;
        let n = self.collection.len();
        let mut i: usize = 0;
        while i < n
            invariant
                i <= n,
                n == self.collection@.len(),
                n == orig.len(),
                all_nonempty(orig),
                conf.valid(),
                self.best == old(self).best,
                !self.cache_need_updating,
                best_id == orig[old(self).best->Some_0 as int].id,
                forall|j: int| 0 <= j < i ==> {
                    let s_old = orig[j];
                    let s_new = #[trigger] self.collection@[j];
                    let is_best = s_old.id == best_id;
                    let out = s_old@.spec_adjust(is_best, *conf);
                    s_new.id == s_old.id
                        && s_new.individuals@.len() == s_old.individuals@.len()
                        && (forall|k: int| 0 <= k < s_old.individuals@.len()
                            ==> (#[trigger] s_new.individuals@[k].individual) == s_old.individuals@[k].individual)
                        && (forall|k: int| 0 <= k < s_old.individuals@.len()
                            ==> (#[trigger] s_new.individuals@[k].adjusted_fitness) == out.adjusted[k])
                        && (forall|k: int| 0 <= k < s_old.individuals@.len()
                            ==> ((#[trigger] s_new.individuals@[k].adjusted_fitness) matches Some(a)
                                && a as int <= u64::MAX as int / s_old.individuals@.len() as int))
                        && s_new.last_best_fitness == out.last_best_fitness
                        && s_new.age == (Age { no_improvements: out.no_improvements, ..s_old.age })
                },
                forall|j: int| i <= j < n ==> #[trigger] self.collection@[j] == orig[j],
            decreases n - i,
        {
            let mut s = self.collection.remove(i);
            let is_best = s.id == best_id;
            s.compute_adjust_fitness(is_best, conf);
            self.collection.insert(i, s);
            i = i + 1;
        }
        proof {
            assert forall|j: int| 0 <= j < n implies best_fitness_profile(self.collection@)[j]
                == best_fitness_profile(orig)[j] by {
                crate::species::lemma_best_fitness_congruence(
                    self.collection@[j].individuals@,
                    orig[j].individuals@,
                );
            }
            assert(best_fitness_profile(self.collection@) =~= best_fitness_profile(orig));
        }
    }

    /// Calculates the number of individuals across all species. The value is
    /// not cached; it is recomputed on every call.
    pub fn count_individuals(&self) -> (r: usize)
        requires
            count_individuals_upto(self.collection@, self.collection@.len() as int) <= usize::MAX,
        ensures
            r == count_individuals_upto(self.collection@, self.collection@.len() as int),
    {
        let n = self.collection.len();
        proof {
            lemma_count_individuals_mono(self.collection@, 0, n as int);
        }
        let mut total: usize = 0;
        let mut i: usize = 0;
        while i < n
            invariant
                i <= n,
                n == self.collection@.len(),
                total == count_individuals_upto(self.collection@, i as int),
                count_individuals_upto(self.collection@, n as int) <= usize::MAX,
            decreases n - i,
        {
            proof {
                lemma_count_individuals_mono(self.collection@, i as int + 1, n as int);
            }
            total = total + self.collection[i].len();
            i = i + 1;
        }
        total
    }
}

/// Counting individuals over a longer prefix never yields less.
pub proof fn lemma_count_individuals_mono<I: Individual>(ss: Seq<Species<I>>, i: int, j: int)
    requires
        0 <= i <= j,
    ensures
        count_individuals_upto(ss, i) <= count_individuals_upto(ss, j),
        0 <= count_individuals_upto(ss, j),
    decreases j - i,
{
    if i < j {
        lemma_count_individuals_mono(ss, i, j - 1);
    }
    lemma_count_individuals_nonneg(ss, i);
}

/// A count of individuals is never negative.
pub proof fn lemma_count_individuals_nonneg<I: Individual>(ss: Seq<Species<I>>, n: int)
    ensures
        0 <= count_individuals_upto(ss, n),
    decreases n,
{
    if n > 0 {
        lemma_count_individuals_nonneg(ss, n - 1);
    }
}

/// Two sequences of species whose rosters have the same sizes count the same
/// individuals.
pub proof fn lemma_count_individuals_congruence<I: Individual>(a: Seq<Species<I>>, b: Seq<Species<I>>, n: int)
    requires
        n <= a.len(),
        n <= b.len(),
        forall|i: int| 0 <= i < n ==> (#[trigger] a[i].individuals@.len()) == b[i].individuals@.len(),
    ensures
        count_individuals_upto(a, n) == count_individuals_upto(b, n),
    decreases n,
{
    if n > 0 {
        lemma_count_individuals_congruence(a, b, n - 1);
    }
}

/// A prefix with at least one evaluated entry has a best species.
pub proof fn lemma_best_species_some(fp: Seq<Option<u64>>, j: int, n: int)
    requires
        0 <= j < n,
        fp[j] is Some,
    ensures
        profile_best_species_upto(fp, n) is Some,
    decreases n,
{
    if j < n - 1 {
        lemma_best_species_some(fp, j, n - 1);
    }
}

/// A non-empty, fully evaluated species reports a best fitness.
pub proof fn lemma_species_best_fitness_some<I: Individual>(ss: Seq<Species<I>>, i: int)
    requires
        0 <= i < ss.len(),
        all_nonempty(ss),
        all_evaluated(ss),
    ensures
        best_fitness_profile(ss)[i] is Some,
{
    let m = ss[i].individuals@;
    assert(ss[i]@.members.len() > 0);
    crate::species::lemma_profile_best_upto_range(crate::species::fitness_profile(m), m.len() as int);
    assert(ss[i]@.all_evaluated());
    let p = crate::species::members_best_upto(m, m.len() as int);
    assert(m[p].individual.spec_fitness() is Some);
    assert(best_fitness_profile(ss)[i] == members_best_fitness(m));
}

/// A non-empty collection of non-empty, fully evaluated species always has a
/// best species.
pub proof fn lemma_nonempty_evaluated_best_some<I: Individual>(ss: Seq<Species<I>>)
    requires
        ss.len() > 0,
        all_nonempty(ss),
        all_evaluated(ss),
    ensures
        spec_best_option(ss) is Some,
{
    lemma_species_best_fitness_some(ss, 0);
    lemma_best_species_some(best_fitness_profile(ss), 0, ss.len() as int);
}

/// Dropping empty species keeps the individual count.
pub proof fn lemma_retain_count<I: Individual>(ss: Seq<Species<I>>, n: int)
    requires
        0 <= n <= ss.len(),
    ensures
        ({
            let kept = retain_nonempty_upto(ss, n);
            count_individuals_upto(kept, kept.len() as int) == count_individuals_upto(ss, n)
                && kept.len() <= n
        }),
    decreases n,
{
    if n > 0 {
        lemma_retain_count(ss, n - 1);
        let prev = retain_nonempty_upto(ss, n - 1);
        let kept = retain_nonempty_upto(ss, n);
        if ss[n - 1]@.members.len() > 0 {
            lemma_count_individuals_congruence(kept, prev, prev.len() as int);
        }
    }
}

/// Every retained species is one of the originals, and is non-empty.
pub proof fn lemma_retain_membership<I: Individual>(ss: Seq<Species<I>>, n: int)
    requires
        0 <= n <= ss.len(),
    ensures
        forall|j: int| 0 <= j < retain_nonempty_upto(ss, n).len()
            ==> exists|k: int| 0 <= k < n && (#[trigger] retain_nonempty_upto(ss, n)[j]) == ss[k],
        all_nonempty(retain_nonempty_upto(ss, n)),
    decreases n,
{
    if n > 0 {
        lemma_retain_membership(ss, n - 1);
        let prev = retain_nonempty_upto(ss, n - 1);
        let kept = retain_nonempty_upto(ss, n);
        if ss[n - 1]@.members.len() > 0 {
            assert forall|j: int| 0 <= j < kept.len()
                implies exists|k: int| 0 <= k < n && (#[trigger] kept[j]) == ss[k] by {
                if j < prev.len() {
                    assert(kept[j] == prev[j]);
                    let k = choose|k: int| 0 <= k < n - 1 && prev[j] == ss[k];
                    assert(0 <= k < n && kept[j] == ss[k]);
                } else {
                    assert(kept[j] == ss[n - 1]);
                }
            }
        }
    }
}

/// Every non-empty original species is retained.
pub proof fn lemma_retain_keeps_nonempty<I: Individual>(ss: Seq<Species<I>>, n: int)
    requires
        0 <= n <= ss.len(),
    ensures
        forall|k: int| 0 <= k < n && (#[trigger] ss[k])@.members.len() > 0
            ==> exists|j: int| 0 <= j < retain_nonempty_upto(ss, n).len()
                && retain_nonempty_upto(ss, n)[j] == ss[k],
    decreases n,
{
    if n > 0 {
        lemma_retain_keeps_nonempty(ss, n - 1);
        let prev = retain_nonempty_upto(ss, n - 1);
        let kept = retain_nonempty_upto(ss, n);
        assert forall|k: int| 0 <= k < n && (#[trigger] ss[k])@.members.len() > 0
            implies exists|j: int| 0 <= j < kept.len() && kept[j] == ss[k] by {
            if k == n - 1 {
                assert(kept[kept.len() - 1] == ss[n - 1]);
            } else {
                let j = choose|j: int| 0 <= j < prev.len() && prev[j] == ss[k];
                assert(kept[j] == ss[k]);
            }
        }
    }
}

/// With pairwise-distinct ids, the retained species' ids stay pairwise
/// distinct.
pub proof fn lemma_retain_ids_unique<I: Individual>(ss: Seq<Species<I>>, n: int)
    requires
        0 <= n <= ss.len(),
        ids_unique(ss),
    ensures
        ids_unique(retain_nonempty_upto(ss, n)),
    decreases n,
{
    if n > 0 {
        lemma_retain_ids_unique(ss, n - 1);
        lemma_retain_membership(ss, n - 1);
        let prev = retain_nonempty_upto(ss, n - 1);
        let kept = retain_nonempty_upto(ss, n);
        if ss[n - 1]@.members.len() > 0 {
            assert forall|j1: int, j2: int| 0 <= j1 < j2 < kept.len()
                implies (#[trigger] kept[j1].id) != (#[trigger] kept[j2].id) by {
                if j2 == kept.len() - 1 {
                    assert(kept[j1] == prev[j1]);
                    let k = choose|k: int| 0 <= k < n - 1 && prev[j1] == ss[k];
                    assert(ss[k].id != ss[n - 1].id);
                }
            }
        }
    }
}

/// A prefix with at least one evaluated, non-excluded entry has a worst
/// species.
pub proof fn lemma_worst_species_some(fp: Seq<Option<u64>>, ids: Seq<usize>, excluded: Seq<usize>, j: int, n: int)
    requires
        0 <= j < n,
        fp[j] is Some,
        !excluded.contains(ids[j]),
    ensures
        profile_worst_species_upto(fp, ids, excluded, n) is Some,
    decreases n,
{
    if j < n - 1 {
        lemma_worst_species_some(fp, ids, excluded, j, n - 1);
    }
}

} // verus!
