//! One compatibility cluster: an ordered roster of individuals with their
//! adjusted-fitness slots, an age, and a best-fitness watermark.

use vstd::prelude::*;
use crate::age::Age;
use crate::conf::{Conf, FITNESS_EPSILON, MAX_BOOST, MAX_FITNESS, SCALE};
use crate::individual::Individual;

verus! {

/// One member of a species: the individual together with the slot for its
/// adjusted fitness, which is filled by the fitness-sharing pass.
pub struct Indiv<I> {
    pub individual: I,
    pub adjusted_fitness: Option<u64>,
}

/// The mathematical value of a [`Species`].
pub ghost struct SpeciesModel<I> {
    pub id: usize,
    pub members: Seq<Indiv<I>>,
    pub age: Age,
    pub last_best_fitness: u64,
}

/// A species: an ordered sequence of members, a unique id, an age, and the
/// best raw fitness seen so far (the watermark). The representative of a
/// species is always its first member.
pub struct Species<I> {
    pub individuals: Vec<Indiv<I>>,
    pub id: usize,
    pub age: Age,
    pub last_best_fitness: u64,
}

impl<I> View for Species<I> {
    type V = SpeciesModel<I>;

    open spec fn view(&self) -> SpeciesModel<I> {
        SpeciesModel {
            id: self.id,
            members: self.individuals@,
            age: self.age,
            last_best_fitness: self.last_best_fitness,
        }
    }
}

/// Strict "less fit than" on optional fitness values: an unevaluated
/// individual ranks below every evaluated one.
pub open spec fn fit_lt(a: Option<u64>, b: Option<u64>) -> bool {
    match (a, b) {
        (_, Option::None) => false,
        (Option::None, Option::Some(_)) => true,
        (Option::Some(av), Option::Some(bv)) => av < bv,
    }
}

/// Raw fitness made usable for sharing: an unevaluated or exactly-zero
/// fitness becomes [`FITNESS_EPSILON`], so division never starves a species.
pub open spec fn effective_fitness(f: Option<u64>) -> u64 {
    match f {
        Option::None => FITNESS_EPSILON,
        Option::Some(v) => if v == 0 { FITNESS_EPSILON } else { v },
    }
}

/// Age boost, old-age penalty and stagnation penalty applied to the effective
/// fitness `f` of one member, before fitness sharing. `stag` is the species'
/// no-improvement streak after the watermark step for this member; the
/// current best species is exempt from the stagnation penalty.
pub open spec fn adjusted_pre_share(f: u64, is_best: bool, gens: usize, stag: usize, conf: Conf) -> int {
    let f1 = if gens < conf.young_age_threshold {
        f * conf.young_age_fitness_boost / (SCALE as int)
    } else {
        f as int
    };
    let f2 = if gens > conf.old_age_threshold {
        f1 * conf.old_age_fitness_penalty / (SCALE as int)
    } else {
        f1
    };
    if !is_best && stag > conf.species_max_stagnation {
        f2 / (SCALE as int)
    } else {
        f2
    }
}

/// The outcome of the fitness-sharing pass over a prefix of a species'
/// roster: the adjusted values assigned so far, and the watermark and
/// stagnation streak as they stand after that prefix.
pub ghost struct AdjustOutcome {
    pub adjusted: Seq<Option<u64>>,
    pub last_best_fitness: u64,
    pub no_improvements: usize,
}

/// The fitness the member at `i` of a roster reports.
pub open spec fn members_fitness_at<I: Individual>(members: Seq<Indiv<I>>, i: int) -> Option<u64> {
    members[i].individual.spec_fitness()
}

/// The sequence of fitness values a roster reports, in roster order.
pub open spec fn fitness_profile<I: Individual>(members: Seq<Indiv<I>>) -> Seq<Option<u64>> {
    Seq::new(members.len(), |i: int| members[i].individual.spec_fitness())
}

/// Index of the largest entry among the first `n` of a fitness profile,
/// earliest maximum first. Meaningful only for `0 < n <= fp.len()`.
pub open spec fn profile_best_upto(fp: Seq<Option<u64>>, n: int) -> int
    decreases n,
{
    if n <= 1 {
        0
    } else {
        let p = profile_best_upto(fp, n - 1);
        if fit_lt(fp[p], fp[n - 1]) {
            n - 1
        } else {
            p
        }
    }
}

/// Index of the most fit member among the first `n` of a roster, earliest
/// maximum first. Meaningful only for `0 < n <= members.len()`.
pub open spec fn members_best_upto<I: Individual>(members: Seq<Indiv<I>>, n: int) -> int {
    profile_best_upto(fitness_profile(members), n)
}

/// The best raw fitness in a roster: `None` exactly when no member has been
/// evaluated (in particular when the roster is empty).
pub open spec fn members_best_fitness<I: Individual>(members: Seq<Indiv<I>>) -> Option<u64> {
    if members.len() == 0 {
        Option::None
    } else {
        members_fitness_at(members, members_best_upto(members, members.len() as int))
    }
}

/// Sum of the adjusted fitness over the first `n` members of a roster, an
/// unfilled slot counting as zero.
pub open spec fn members_sum_adjusted_upto<I: Individual>(members: Seq<Indiv<I>>, n: int) -> int
    decreases n,
{
    if n <= 0 {
        0
    } else {
        members_sum_adjusted_upto(members, n - 1) + (match members[n - 1].adjusted_fitness {
            Option::Some(v) => v as int,
            Option::None => 0int,
        })
    }
}

/// The fitness-sharing pass over the first `n` members of a roster whose
/// species has watermark `w0`, stagnation streak `s0` and age `gens`. For
/// each member in roster order: substitute the epsilon for a missing or zero
/// fitness; raise the watermark and clear the stagnation streak if the member
/// matches or beats the watermark; apply the age multipliers and, for a
/// non-best species, the stagnation penalty; divide by the species size.
pub open spec fn members_adjust_upto<I: Individual>(
    members: Seq<Indiv<I>>,
    is_best: bool,
    gens: usize,
    w0: u64,
    s0: usize,
    conf: Conf,
    n: int,
) -> AdjustOutcome
    decreases n,
{
    if n <= 0 {
        AdjustOutcome { adjusted: Seq::empty(), last_best_fitness: w0, no_improvements: s0 }
    } else {
        let prev = members_adjust_upto(members, is_best, gens, w0, s0, conf, n - 1);
        let f = effective_fitness(members_fitness_at(members, n - 1));
        let improved = f >= prev.last_best_fitness;
        let w2 = if improved { f } else { prev.last_best_fitness };
        let s2 = if improved { 0usize } else { prev.no_improvements };
        let pre = adjusted_pre_share(f, is_best, gens, s2, conf);
        let a = pre / (members.len() as int);
        AdjustOutcome {
            adjusted: prev.adjusted.push(Option::Some(a as u64)),
            last_best_fitness: w2,
            no_improvements: s2,
        }
    }
}

impl<I: Individual> SpeciesModel<I> {
    pub open spec fn len(self) -> nat {
        self.members.len()
    }

    pub open spec fn is_empty(self) -> bool {
        self.members.len() == 0
    }

    /// The fitness the member at `i` reports.
    pub open spec fn fitness_at(self, i: int) -> Option<u64> {
        members_fitness_at(self.members, i)
    }

    /// Every member has been evaluated.
    pub open spec fn all_evaluated(self) -> bool {
        forall|i: int| 0 <= i < self.members.len() ==> (#[trigger] self.members[i].individual.spec_fitness()) is Some
    }

    /// Every member's adjusted-fitness slot has been filled.
    pub open spec fn all_adjusted(self) -> bool {
        forall|i: int| 0 <= i < self.members.len() ==> (#[trigger] self.members[i].adjusted_fitness) is Some
    }

    /// An empty species is never compatible with anything; otherwise the
    /// representative (the first member) decides.
    pub open spec fn spec_is_compatible(self, candidate: I) -> bool {
        self.members.len() > 0 && self.members[0].individual.spec_compatible(&candidate)
    }

    /// Index of the most fit member among the first `n`, earliest maximum
    /// first. Meaningful only for `0 < n <= self.members.len()`.
    pub open spec fn best_member_upto(self, n: int) -> int {
        members_best_upto(self.members, n)
    }

    /// Index of the most fit member; ties go to the earliest member.
    pub open spec fn best_member(self) -> int {
        self.best_member_upto(self.members.len() as int)
    }

    /// The best raw fitness in the species: `None` exactly when no member has
    /// been evaluated (in particular when the species is empty).
    pub open spec fn spec_best_fitness(self) -> Option<u64> {
        members_best_fitness(self.members)
    }

    /// Sum of the adjusted fitness over the first `n` members, an unfilled
    /// slot counting as zero.
    pub open spec fn sum_adjusted_upto(self, n: int) -> int {
        members_sum_adjusted_upto(self.members, n)
    }

    /// Sum of the adjusted fitness over all members.
    pub open spec fn spec_accumulated_adjusted_fitness(self) -> int {
        self.sum_adjusted_upto(self.members.len() as int)
    }

    /// The fitness-sharing pass over the first `n` members, starting from
    /// this species' watermark and stagnation streak.
    pub open spec fn adjust_upto(self, is_best: bool, conf: Conf, n: int) -> AdjustOutcome {
        members_adjust_upto(
            self.members,
            is_best,
            self.age.generations,
            self.last_best_fitness,
            self.age.no_improvements,
            conf,
            n,
        )
    }

    /// The fitness-sharing pass over the whole roster.
    pub open spec fn spec_adjust(self, is_best: bool, conf: Conf) -> AdjustOutcome {
        self.adjust_upto(is_best, conf, self.members.len() as int)
    }
}

/// The pass over the first `n` members assigns exactly `n` adjusted values,
/// every one of them filled in.
pub proof fn lemma_adjust_len<I: Individual>(s: SpeciesModel<I>, is_best: bool, conf: Conf, n: int)
    requires
        n >= 0,
    ensures
        s.adjust_upto(is_best, conf, n).adjusted.len() == n,
        forall|j: int| 0 <= j < n ==> (#[trigger] s.adjust_upto(is_best, conf, n).adjusted[j]) is Some,
    decreases n,
{
    if n > 0 {
        lemma_adjust_len(s, is_best, conf, n - 1);
    }
}

/// The best index over a prefix of a fitness profile points into that prefix.
pub proof fn lemma_profile_best_upto_range(fp: Seq<Option<u64>>, n: int)
    requires
        0 < n,
    ensures
        0 <= profile_best_upto(fp, n) < n,
    decreases n,
{
    if n > 1 {
        lemma_profile_best_upto_range(fp, n - 1);
    }
}

/// Two rosters with the same individuals (whatever their adjusted slots)
/// report the same best fitness.
pub proof fn lemma_best_fitness_congruence<I: Individual>(a: Seq<Indiv<I>>, b: Seq<Indiv<I>>)
    requires
        a.len() == b.len(),
        forall|i: int| 0 <= i < a.len() ==> (#[trigger] a[i].individual) == b[i].individual,
    ensures
        members_best_fitness(a) == members_best_fitness(b),
{
    assert(fitness_profile(a) =~= fitness_profile(b));
    if a.len() > 0 {
        lemma_profile_best_upto_range(fitness_profile(a), a.len() as int);
        let p = profile_best_upto(fitness_profile(a), a.len() as int);
        assert(members_fitness_at(a, p) == fitness_profile(a)[p]);
        assert(members_fitness_at(b, p) == fitness_profile(b)[p]);
    }
}

/// Two rosters with the same individuals run through the same
/// fitness-sharing pass identically, whatever their adjusted slots hold.
pub proof fn lemma_adjust_congruence<I: Individual>(
    m1: Seq<Indiv<I>>,
    m2: Seq<Indiv<I>>,
    is_best: bool,
    gens: usize,
    w0: u64,
    s0: usize,
    conf: Conf,
    n: int,
)
    requires
        m1.len() == m2.len(),
        n <= m1.len(),
        forall|k: int| 0 <= k < m1.len() ==> (#[trigger] m1[k].individual) == m2[k].individual,
    ensures
        members_adjust_upto(m1, is_best, gens, w0, s0, conf, n)
            == members_adjust_upto(m2, is_best, gens, w0, s0, conf, n),
    decreases n,
{
    if n > 0 {
        lemma_adjust_congruence(m1, m2, is_best, gens, w0, s0, conf, n - 1);
        assert(m1[n - 1].individual == m2[n - 1].individual);
        assert(members_fitness_at(m1, n - 1) == members_fitness_at(m2, n - 1));
    }
}

/// While the stagnation penalty cannot strike — for the best species, or
/// while the streak stays within the stagnation threshold — the adjusted
/// values do not depend on the watermark or the streak at all, and a streak
/// within the threshold stays within it.
proof fn lemma_adjust_no_stagnation<I: Individual>(
    members: Seq<Indiv<I>>,
    is_best: bool,
    gens: usize,
    wa: u64,
    sa: usize,
    wb: u64,
    sb: usize,
    conf: Conf,
    n: int,
)
    requires
        is_best || (sa <= conf.species_max_stagnation && sb <= conf.species_max_stagnation),
    ensures
        ({
            let oa = members_adjust_upto(members, is_best, gens, wa, sa, conf, n);
            let ob = members_adjust_upto(members, is_best, gens, wb, sb, conf, n);
            &&& oa.adjusted == ob.adjusted
            &&& (sa <= conf.species_max_stagnation ==> oa.no_improvements <= conf.species_max_stagnation)
            &&& (sb <= conf.species_max_stagnation ==> ob.no_improvements <= conf.species_max_stagnation)
        }),
    decreases n,
{
    if n > 0 {
        lemma_adjust_no_stagnation(members, is_best, gens, wa, sa, wb, sb, conf, n - 1);
    }
}

/// When every member's effective fitness is below the watermark, the pass
/// leaves the watermark and the streak untouched.
proof fn lemma_adjust_stable<I: Individual>(
    members: Seq<Indiv<I>>,
    is_best: bool,
    gens: usize,
    w0: u64,
    s0: usize,
    conf: Conf,
    n: int,
)
    requires
        forall|k: int| 0 <= k < n
            ==> effective_fitness(#[trigger] members[k].individual.spec_fitness()) < w0,
    ensures
        members_adjust_upto(members, is_best, gens, w0, s0, conf, n).last_best_fitness == w0,
        members_adjust_upto(members, is_best, gens, w0, s0, conf, n).no_improvements == s0,
    decreases n,
{
    if n > 0 {
        lemma_adjust_stable(members, is_best, gens, w0, s0, conf, n - 1);
    }
}

/// The streak after a pass is either zero (some member reached the
/// watermark) or what it was before.
proof fn lemma_adjust_streak<I: Individual>(
    members: Seq<Indiv<I>>,
    is_best: bool,
    gens: usize,
    w0: u64,
    s0: usize,
    conf: Conf,
    n: int,
)
    ensures
        ({
            let o = members_adjust_upto(members, is_best, gens, w0, s0, conf, n);
            o.no_improvements == 0 || o.no_improvements == s0
        }),
    decreases n,
{
    if n > 0 {
        lemma_adjust_streak(members, is_best, gens, w0, s0, conf, n - 1);
    }
}

/// Computing the adjusted fitness twice with unchanged raw fitness values
/// yields identical adjusted values, provided the stagnation penalty could
/// not strike mid-pass: for the best species, for a species whose streak is
/// within the stagnation threshold, and for a species none of whose members
/// reaches the watermark. (A non-best species over the threshold in which a
/// member resets the watermark mid-pass genuinely changes its second pass.)
///
/// `s1` is the species' state after the first pass on `s`: same individuals
/// and generation count, with the watermark and streak the pass left behind.
pub proof fn lemma_compute_adjust_fitness_idempotent<I: Individual>(
    s: SpeciesModel<I>,
    s1: SpeciesModel<I>,
    is_best: bool,
    conf: Conf,
)
    requires
        s1.members.len() == s.members.len(),
        forall|k: int| 0 <= k < s.members.len()
            ==> (#[trigger] s1.members[k].individual) == s.members[k].individual,
        s1.age.generations == s.age.generations,
        s1.last_best_fitness == s.spec_adjust(is_best, conf).last_best_fitness,
        s1.age.no_improvements == s.spec_adjust(is_best, conf).no_improvements,
        is_best
            || s.age.no_improvements <= conf.species_max_stagnation
            || (forall|k: int| 0 <= k < s.members.len()
                ==> effective_fitness(#[trigger] s.members[k].individual.spec_fitness())
                    < s.last_best_fitness),
    ensures
        s1.spec_adjust(is_best, conf).adjusted == s.spec_adjust(is_best, conf).adjusted,
{
    let n = s.members.len() as int;
    let out1 = s.spec_adjust(is_best, conf);
    lemma_adjust_congruence(
        s1.members,
        s.members,
        is_best,
        s.age.generations,
        out1.last_best_fitness,
        out1.no_improvements,
        conf,
        n,
    );
    if is_best {
        lemma_adjust_no_stagnation(
            s.members,
            is_best,
            s.age.generations,
            s.last_best_fitness,
            s.age.no_improvements,
            out1.last_best_fitness,
            out1.no_improvements,
            conf,
            n,
        );
    } else if s.age.no_improvements <= conf.species_max_stagnation {
        lemma_adjust_streak(
            s.members,
            is_best,
            s.age.generations,
            s.last_best_fitness,
            s.age.no_improvements,
            conf,
            n,
        );
        lemma_adjust_no_stagnation(
            s.members,
            is_best,
            s.age.generations,
            s.last_best_fitness,
            s.age.no_improvements,
            out1.last_best_fitness,
            out1.no_improvements,
            conf,
            n,
        );
    } else {
        lemma_adjust_stable(
            s.members,
            is_best,
            s.age.generations,
            s.last_best_fitness,
            s.age.no_improvements,
            conf,
            n,
        );
    }
}

/// The best member among the first `n` is one of the first `n`, and no other
/// one of them is strictly fitter.
pub proof fn lemma_best_member_upto<I: Individual>(s: SpeciesModel<I>, n: int)
    requires
        0 < n <= s.members.len(),
    ensures
        0 <= s.best_member_upto(n) < n,
        forall|j: int| 0 <= j < n ==> !fit_lt(s.fitness_at(s.best_member_upto(n)), #[trigger] s.fitness_at(j)),
    decreases n,
{
    if n > 1 {
        lemma_best_member_upto(s, n - 1);
    }
}

/// With `f` and `m` below their caps, the scaled product `f * m / d` stays
/// below the caps' scaled product.
proof fn lemma_mul_div_bounded(f: int, m: int, f_cap: int, m_cap: int, d: int)
    requires
        0 <= f <= f_cap,
        0 <= m <= m_cap,
        0 < d,
    ensures
        0 <= f * m / d <= f_cap * m_cap / d,
{
    vstd::arithmetic::mul::lemma_mul_upper_bound(f, f_cap, m, m_cap);
    vstd::arithmetic::mul::lemma_mul_nonnegative(f, m);
    vstd::arithmetic::div_mod::lemma_div_is_ordered(f * m, f_cap * m_cap, d);
    vstd::arithmetic::div_mod::lemma_div_pos_is_pos(f * m, d);
}

impl<I: Individual> Species<I> {
    /// A singleton species holding `individual`, a fresh age, and a zero
    /// watermark.
    pub fn new(individual: I, species_id: usize) -> (r: Self)
        ensures
            r@.id == species_id,
            r@.members =~= seq![Indiv { individual, adjusted_fitness: Option::None }],
            r@.age == (Age { generations: 0, evaluations: 0, no_improvements: 0 }),
            r@.last_best_fitness == 0,
    {
        let mut individuals: Vec<Indiv<I>> = Vec::new();
        individuals.push(Indiv { individual, adjusted_fitness: Option::None });
        Self { individuals, id: species_id, age: Age::new(), last_best_fitness: 0 }
    }

    /// A species with the same identity, age and watermark as `self`, whose
    /// roster is replaced by `new_individuals`, all adjusted slots empty.
    pub fn clone_with_new_individuals(&self, new_individuals: Vec<I>) -> (r: Self)
        ensures
            r@.id == self@.id,
            r@.age == self@.age,
            r@.last_best_fitness == self@.last_best_fitness,
            r@.members.len() == new_individuals@.len(),
            forall|i: int| 0 <= i < new_individuals@.len() ==> #[trigger] r@.members[i] == (Indiv {
                individual: new_individuals@[i],
                adjusted_fitness: Option::<u64>::None,
            }),
    {
        let mut members: Vec<Indiv<I>> = Vec::new();
        let mut remaining = new_individuals;
        let ghost all = remaining@;
        while remaining.len() > 0
            invariant
                members@.len() + remaining@.len() == all.len(),
                forall|i: int| 0 <= i < members@.len() ==> #[trigger] members@[i] == (Indiv {
                    individual: all[i],
                    adjusted_fitness: Option::<u64>::None,
                }),
                forall|i: int| 0 <= i < remaining@.len() ==> #[trigger] remaining@[i] == all[members@.len() + i],
            decreases remaining@.len(),
        {
            let x = remaining.remove(0);
            members.push(Indiv { individual: x, adjusted_fitness: Option::None });
        }
        Self {
            individuals: members,
            id: self.id,
            age: self.age,
            last_best_fitness: self.last_best_fitness,
        }
    }

    /// Whether `candidate` is compatible with this species' representative.
    /// An empty species is never compatible.
    pub fn is_compatible(&self, candidate: &I) -> (r: bool)
        ensures
            r == self@.spec_is_compatible(*candidate),
    {
        if self.individuals.len() == 0 {
            false
        } else {
            self.individuals[0].individual.is_compatible(candidate)
        }
    }

    /// Appends `individual` at the end of the roster; the representative is
    /// not disturbed.
    pub fn insert(&mut self, individual: I)
        ensures
            final(self)@ == (SpeciesModel {
                members: old(self)@.members.push(Indiv { individual, adjusted_fitness: Option::None }),
                ..old(self)@
            }),
    {
        self.individuals.push(Indiv { individual, adjusted_fitness: Option::None });
    }

    /// Replaces the roster with `individuals`, all adjusted slots empty.
    pub fn set_individuals(&mut self, individuals: Vec<I>)
        ensures
            final(self)@.id == old(self)@.id,
            final(self)@.age == old(self)@.age,
            final(self)@.last_best_fitness == old(self)@.last_best_fitness,
            final(self)@.members.len() == individuals@.len(),
            forall|i: int| 0 <= i < individuals@.len() ==> #[trigger] final(self)@.members[i] == (Indiv {
                individual: individuals@[i],
                adjusted_fitness: Option::<u64>::None,
            }),
    {
        let replacement = self.clone_with_new_individuals(individuals);
        self.individuals = replacement.individuals;
    }

    /// Removes and returns the whole roster, in order, leaving the species
    /// empty (a transient state, to be pruned or refilled).
    pub fn drain_individuals(&mut self) -> (r: Vec<I>)
        ensures
            r@.len() == old(self)@.members.len(),
            forall|i: int| 0 <= i < r@.len() ==> #[trigger] r@[i] == old(self)@.members[i].individual,
            final(self)@ == (SpeciesModel { members: Seq::<Indiv<I>>::empty(), ..old(self)@ }),
    {
        let mut out: Vec<I> = Vec::new();
        let ghost orig = self.individuals@;
        while self.individuals.len() > 0
            invariant
                out@.len() + self.individuals@.len() == orig.len(),
                forall|i: int| 0 <= i < out@.len() ==> #[trigger] out@[i] == orig[i].individual,
                forall|i: int| 0 <= i < self.individuals@.len() ==> #[trigger] self.individuals@[i] == orig[out@.len() + i],
                self.id == old(self).id,
                self.age == old(self).age,
                self.last_best_fitness == old(self).last_best_fitness,
            decreases self.individuals@.len(),
        {
            let e = self.individuals.remove(0);
            out.push(e.individual);
        }
        assert(self.individuals@ =~= Seq::<Indiv<I>>::empty());
        out
    }

    pub fn is_empty(&self) -> (r: bool)
        ensures
            r == self@.is_empty(),
    {
        self.individuals.len() == 0
    }

    pub fn len(&self) -> (r: usize)
        ensures
            r == self@.members.len(),
    {
        self.individuals.len()
    }

    /// The member at `index`.
    pub fn individual(&self, index: usize) -> (r: &I)
        requires
            index < self@.members.len(),
        ensures
            *r == self@.members[index as int].individual,
    {
        &self.individuals[index].individual
    }

    /// Replaces the member at `index`, keeping its adjusted-fitness slot.
    pub fn individual_mut(&mut self, index: usize, value: I)
        requires
            index < old(self)@.members.len(),
        ensures
            final(self)@ == (SpeciesModel {
                members: old(self)@.members.update(index as int, Indiv {
                    individual: value,
                    adjusted_fitness: old(self)@.members[index as int].adjusted_fitness,
                }),
                ..old(self)@
            }),
    {
        let entry = self.individuals.remove(index);
        self.individuals.insert(index, Indiv { individual: value, adjusted_fitness: entry.adjusted_fitness });
        assert(final(self)@.members =~= old(self)@.members.update(index as int, Indiv {
            individual: value,
            adjusted_fitness: old(self)@.members[index as int].adjusted_fitness,
        }));
    }

    /// The representative: the first member, if any.
    pub fn representative(&self) -> (r: Option<&I>)
        ensures
            self@.members.len() == 0 ==> r is None,
            self@.members.len() > 0 ==> (r matches Some(x) && *x == self@.members[0].individual),
    {
        if self.individuals.len() == 0 {
            Option::None
        } else {
            Option::Some(&self.individuals[0].individual)
        }
    }

    /// Fitness sharing: fills every member's adjusted-fitness slot following
    /// [`SpeciesModel::adjust_upto`], updating the watermark and the
    /// stagnation streak along the way. `is_best_species` exempts the current
    /// best species from the stagnation penalty.
    pub fn compute_adjust_fitness(&mut self, is_best_species: bool, conf: &Conf)
        requires
            old(self)@.members.len() > 0,
            conf.valid(),
        ensures
            final(self)@.id == old(self)@.id,
            final(self)@.age.generations == old(self)@.age.generations,
            final(self)@.age.evaluations == old(self)@.age.evaluations,
            final(self)@.members.len() == old(self)@.members.len(),
            forall|j: int| 0 <= j < old(self)@.members.len() ==> #[trigger] final(self)@.members[j].individual
                == old(self)@.members[j].individual,
            forall|j: int| 0 <= j < old(self)@.members.len() ==> #[trigger] final(self)@.members[j].adjusted_fitness
                == old(self)@.spec_adjust(is_best_species, *conf).adjusted[j],
            final(self)@.last_best_fitness == old(self)@.spec_adjust(is_best_species, *conf).last_best_fitness,
            final(self)@.age.no_improvements == old(self)@.spec_adjust(is_best_species, *conf).no_improvements,
            forall|j: int| 0 <= j < old(self)@.members.len() ==> ((#[trigger] final(self)@.members[j].adjusted_fitness)
                matches Some(a) && a as int <= u64::MAX as int / old(self)@.members.len() as int),
    {
        let n = self.individuals.len();
        let ghost orig = self@;
        let mut i: usize = 0;
        while i < n
            invariant
                i <= n,
                n == self.individuals@.len(),
                n == orig.members.len(),
                n > 0,
                conf.valid(),
                self.id == orig.id,
                self.age.generations == orig.age.generations,
                self.age.evaluations == orig.age.evaluations,
                self.last_best_fitness == orig.adjust_upto(is_best_species, *conf, i as int).last_best_fitness,
                self.age.no_improvements == orig.adjust_upto(is_best_species, *conf, i as int).no_improvements,
                forall|j: int| 0 <= j < i ==> #[trigger] self.individuals@[j].individual == orig.members[j].individual,
                forall|j: int| 0 <= j < i ==> #[trigger] self.individuals@[j].adjusted_fitness
                    == orig.adjust_upto(is_best_species, *conf, i as int).adjusted[j],
                forall|j: int| 0 <= j < i ==> ((#[trigger] self.individuals@[j].adjusted_fitness)
                    matches Some(a) && a as int <= u64::MAX as int / n as int),
                forall|j: int| i <= j < n ==> #[trigger] self.individuals@[j] == orig.members[j],
            decreases n - i,
        {
            proof {
                lemma_adjust_len(orig, is_best_species, *conf, i as int);
            }
            let ghost prev = orig.adjust_upto(is_best_species, *conf, i as int);
            let mut entry = self.individuals.remove(i);
            let fit: Option<u64> = entry.individual.fitness();
            let mut f: u64 = match fit {
                Option::Some(v) => if v == 0 { FITNESS_EPSILON } else { v },
                Option::None => FITNESS_EPSILON,
            };
            assert(f == effective_fitness(orig.fitness_at(i as int)));
            assert(f <= MAX_FITNESS);
            if f >= self.last_best_fitness {
                self.last_best_fitness = f;
                self.age.reset_no_improvements();
            }
            if self.age.generations < conf.young_age_threshold {
                proof {
                    lemma_mul_div_bounded(f as int, conf.young_age_fitness_boost as int, MAX_FITNESS as int, MAX_BOOST as int, SCALE as int);
                }
                let wide: u128 = (f as u128) * (conf.young_age_fitness_boost as u128) / (SCALE as u128);
                f = wide as u64;
            }
            if self.age.generations > conf.old_age_threshold {
                proof {
                    lemma_mul_div_bounded(f as int, conf.old_age_fitness_penalty as int, u64::MAX as int, SCALE as int, SCALE as int);
                }
                let wide: u128 = (f as u128) * (conf.old_age_fitness_penalty as u128) / (SCALE as u128);
                f = wide as u64;
            }
            if !is_best_species && self.age.no_improvements > conf.species_max_stagnation {
                f = f / SCALE;
            }
            proof {
                vstd::arithmetic::div_mod::lemma_div_is_ordered(f as int, u64::MAX as int, n as int);
            }
            let a: u64 = ((f as u128) / (n as u128)) as u64;
            entry.adjusted_fitness = Option::Some(a);
            self.individuals.insert(i, entry);
            proof {
                let next = orig.adjust_upto(is_best_species, *conf, i as int + 1);
                assert(next.adjusted[i as int] == Option::Some(a));
                assert(forall|j: int| 0 <= j < i ==> next.adjusted[j] == prev.adjusted[j]);
            }
            i = i + 1;
        }
    }

    /// Evaluates every member that does not yet report a fitness, through the
    /// caller's evaluation policy. Members that already report one are left
    /// untouched.
    pub fn ensure_evaluated<P: crate::policies::Policies<I>>(&mut self, policies: &mut P)
        ensures
            final(self)@.id == old(self)@.id,
            final(self)@.age == old(self)@.age,
            final(self)@.last_best_fitness == old(self)@.last_best_fitness,
            final(self)@.members.len() == old(self)@.members.len(),
            forall|k: int| 0 <= k < old(self)@.members.len() ==> (#[trigger] final(self)@.members[k].adjusted_fitness)
                == old(self)@.members[k].adjusted_fitness,
            forall|k: int| 0 <= k < old(self)@.members.len() && old(self)@.members[k].individual.spec_fitness() is Some
                ==> (#[trigger] final(self)@.members[k]) == old(self)@.members[k],
            forall|k: int| 0 <= k < old(self)@.members.len()
                ==> (#[trigger] final(self)@.members[k].individual.spec_fitness()) is Some,
    {
        let n = self.individuals.len();
        let mut i: usize = 0;
        while i < n
            invariant
                i <= n,
                n == self.individuals@.len(),
                self.id == old(self).id,
                self.age == old(self).age,
                self.last_best_fitness == old(self).last_best_fitness,
                forall|k: int| 0 <= k < n ==> (#[trigger] self.individuals@[k].adjusted_fitness)
                    == old(self).individuals@[k].adjusted_fitness,
                forall|k: int| 0 <= k < n && old(self).individuals@[k].individual.spec_fitness() is Some
                    ==> (#[trigger] self.individuals@[k]) == old(self).individuals@[k],
                forall|k: int| i <= k < n ==> (#[trigger] self.individuals@[k]) == old(self).individuals@[k],
                forall|k: int| 0 <= k < i ==> (#[trigger] self.individuals@[k].individual.spec_fitness()) is Some,
            decreases n - i,
        {
            let mut entry = self.individuals.remove(i);
            let fit: Option<u64> = entry.individual.fitness();
            if fit.is_none() {
                let _ = policies.evaluate(&mut entry.individual);
            }
            self.individuals.insert(i, entry);
            i = i + 1;
        }
    }

    /// Evaluates every member, unconditionally, through the caller's
    /// evaluation policy.
    pub fn evaluate_all<P: crate::policies::Policies<I>>(&mut self, policies: &mut P)
        ensures
            final(self)@.id == old(self)@.id,
            final(self)@.age == old(self)@.age,
            final(self)@.last_best_fitness == old(self)@.last_best_fitness,
            final(self)@.members.len() == old(self)@.members.len(),
            forall|k: int| 0 <= k < old(self)@.members.len() ==> (#[trigger] final(self)@.members[k].adjusted_fitness)
                == old(self)@.members[k].adjusted_fitness,
            forall|k: int| 0 <= k < old(self)@.members.len()
                ==> (#[trigger] final(self)@.members[k].individual.spec_fitness()) is Some,
    {
        let n = self.individuals.len();
        let mut i: usize = 0;
        while i < n
            invariant
                i <= n,
                n == self.individuals@.len(),
                self.id == old(self).id,
                self.age == old(self).age,
                self.last_best_fitness == old(self).last_best_fitness,
                forall|k: int| 0 <= k < n ==> (#[trigger] self.individuals@[k].adjusted_fitness)
                    == old(self).individuals@[k].adjusted_fitness,
                forall|k: int| i <= k < n ==> (#[trigger] self.individuals@[k]) == old(self).individuals@[k],
                forall|k: int| 0 <= k < i ==> (#[trigger] self.individuals@[k].individual.spec_fitness()) is Some,
            decreases n - i,
        {
            let mut entry = self.individuals.remove(i);
            let _ = policies.evaluate(&mut entry.individual);
            self.individuals.insert(i, entry);
            i = i + 1;
        }
    }

    /// Sum of the adjusted fitness of all members. Calling this before the
    /// adjusted fitness of every member has been computed is a contract
    /// violation.
    pub fn accumulated_adjusted_fitness(&self) -> (r: u128)
        requires
            self@.all_adjusted(),
        ensures
            r == self@.spec_accumulated_adjusted_fitness(),
            r <= self@.members.len() * (u64::MAX as int),
    {
        let n = self.individuals.len();
        let mut total: u128 = 0;
        let mut i: usize = 0;
        while i < n
            invariant
                i <= n,
                n == self.individuals@.len(),
                total == self@.sum_adjusted_upto(i as int),
                total <= (i as int) * (u64::MAX as int),
            decreases n - i,
        {
            let v: u64 = match self.individuals[i].adjusted_fitness {
                Option::Some(v) => v,
                Option::None => 0,
            };
            proof {
                vstd::arithmetic::mul::lemma_mul_inequality(i as int + 1, n as int, u64::MAX as int);
                vstd::arithmetic::mul::lemma_mul_inequality(n as int, usize::MAX as int, u64::MAX as int);
            }
            total = total + (v as u128);
            i = i + 1;
        }
        total
    }

    /// The most fit member, by raw fitness; an unevaluated member ranks below
    /// every evaluated one, and ties go to the earliest member.
    pub fn get_best_individual(&self) -> (r: Option<&I>)
        ensures
            self@.members.len() == 0 ==> r is None,
            self@.members.len() > 0 ==> (r matches Some(x)
                && *x == self@.members[self@.best_member()].individual),
            self@.members.len() > 0 ==> 0 <= self@.best_member() < self@.members.len(),
            forall|j: int| 0 <= j < self@.members.len()
                ==> !fit_lt(self@.fitness_at(self@.best_member()), #[trigger] self@.fitness_at(j)),
    {
        let n = self.individuals.len();
        if n == 0 {
            return Option::None;
        }
        proof {
            lemma_best_member_upto(self@, n as int);
        }
        let mut best: usize = 0;
        let mut best_fit: Option<u64> = self.individuals[0].individual.fitness();
        let mut i: usize = 1;
        while i < n
            invariant
                1 <= i <= n,
                n == self.individuals@.len(),
                best < i,
                best == self@.best_member_upto(i as int),
                best_fit == self@.fitness_at(best as int),
            decreases n - i,
        {
            let cur: Option<u64> = self.individuals[i].individual.fitness();
            let replace = match (best_fit, cur) {
                (_, Option::None) => false,
                (Option::None, Option::Some(_)) => true,
                (Option::Some(b), Option::Some(c)) => b < c,
            };
            if replace {
                best = i;
                best_fit = cur;
            }
            i = i + 1;
        }
        Option::Some(&self.individuals[best].individual)
    }

    /// The raw fitness of the most fit member: `None` exactly when no member
    /// has been evaluated (in particular when the species is empty).
    pub fn get_best_fitness(&self) -> (r: Option<u64>)
        ensures
            r == self@.spec_best_fitness(),
            r matches Some(f) ==> f <= MAX_FITNESS,
    {
        match self.get_best_individual() {
            Option::None => Option::None,
            Option::Some(ind) => ind.fitness(),
        }
    }

    pub fn increase_generations(&mut self)
        requires
            old(self)@.age.generations < usize::MAX,
        ensures
            final(self)@ == (SpeciesModel {
                age: Age { generations: (old(self)@.age.generations + 1) as usize, ..old(self)@.age },
                ..old(self)@
            }),
    {
        self.age.increase_generations();
    }

    pub fn increase_evaluations(&mut self)
        requires
            old(self)@.age.evaluations < usize::MAX,
        ensures
            final(self)@ == (SpeciesModel {
                age: Age { evaluations: (old(self)@.age.evaluations + 1) as usize, ..old(self)@.age },
                ..old(self)@
            }),
    {
        self.age.increase_evaluations();
    }

    pub fn increase_no_improvements_generations(&mut self)
        requires
            old(self)@.age.no_improvements < usize::MAX,
        ensures
            final(self)@ == (SpeciesModel {
                age: Age { no_improvements: (old(self)@.age.no_improvements + 1) as usize, ..old(self)@.age },
                ..old(self)@
            }),
    {
        self.age.increase_no_improvements();
    }

    /// Rejuvenation: both the generation count and the stagnation streak
    /// return to zero.
    pub fn reset_age(&mut self)
        ensures
            final(self)@ == (SpeciesModel {
                age: Age { generations: 0, no_improvements: 0, ..old(self)@.age },
                ..old(self)@
            }),
    {
        self.age.reset_generations();
        self.age.reset_no_improvements();
    }
}

/// Two species are the same species exactly when they carry the same id.
impl<I: Individual> PartialEq for Species<I> {
    fn eq(&self, other: &Self) -> (r: bool)
    {
        self.id == other.id
    }
}

impl<I: Individual> vstd::std_specs::cmp::PartialEqSpecImpl for Species<I> {
    open spec fn obeys_eq_spec() -> bool {
        true
    }

    open spec fn eq_spec(&self, other: &Self) -> bool {
        self.id == other.id
    }
}

} // verus!
