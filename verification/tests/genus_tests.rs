use speciation::{Conf, Genus, Individual, Policies, Species, SpeciationError};

#[derive(Clone, Debug)]
struct Candidate {
    kind: u64,
    fitness: Option<u64>,
    strength: u64,
}

impl Candidate {
    fn new(kind: u64, fitness: Option<u64>) -> Self {
        let strength = fitness.unwrap_or(0);
        Self { kind, fitness, strength }
    }
}

impl Individual for Candidate {
    fn spec_fitness(&self) -> Option<u64> {
        self.fitness
    }

    fn spec_compatible(&self, other: &Self) -> bool {
        self.kind == other.kind
    }

    fn fitness(&self) -> Option<u64> {
        self.fitness
    }

    fn is_compatible(&self, other: &Self) -> bool {
        self.kind == other.kind
    }
}

/// Deterministic policies: parents are the first members, a child is a copy
/// of its (first) parent awaiting evaluation, mutation optionally changes the
/// child's kind, evaluation restores the candidate's inherent strength, and
/// population management keeps the fittest.
struct TestPolicies {
    child_kind: Option<u64>,
}

impl TestPolicies {
    fn plain() -> Self {
        Self { child_kind: None }
    }

    fn rekinding(kind: u64) -> Self {
        Self { child_kind: Some(kind) }
    }
}

impl Policies<Candidate> for TestPolicies {
    fn select_one(&mut self, _pool: &Species<Candidate>) -> usize {
        0
    }

    fn select_two(&mut self, _pool: &Species<Candidate>) -> (usize, usize) {
        (0, 1)
    }

    fn reproduce_one(&mut self, parent: &Candidate) -> Candidate {
        Candidate { kind: parent.kind, fitness: None, strength: parent.strength }
    }

    fn crossover_two(&mut self, parent1: &Candidate, _parent2: &Candidate) -> Candidate {
        Candidate { kind: parent1.kind, fitness: None, strength: parent1.strength }
    }

    fn mutate(&mut self, individual: &mut Candidate) {
        if let Some(kind) = self.child_kind {
            individual.kind = kind;
        }
    }

    fn evaluate(&mut self, individual: &mut Candidate) -> u64 {
        individual.fitness = Some(individual.strength);
        individual.strength
    }

    fn manage_population(
        &mut self,
        new_roster: Vec<Candidate>,
        old_roster: Vec<Candidate>,
        target_size: usize,
    ) -> Vec<Candidate> {
        let mut pool = new_roster;
        pool.extend(old_roster);
        pool.sort_by(|a, b| b.fitness.cmp(&a.fitness));
        while pool.len() < target_size {
            let filler = pool.first().expect("an individual to pad with").clone();
            pool.push(filler);
        }
        pool.truncate(target_size);
        pool
    }
}

fn two_kind_population() -> Vec<Candidate> {
    let mut pop = Vec::new();
    for _ in 0..5 {
        pop.push(Candidate::new(0, Some(30)));
    }
    for _ in 0..5 {
        pop.push(Candidate::new(1, Some(10)));
    }
    pop
}

/// No young boost, no old penalty, no stagnation within reach.
fn conf_plain(total: usize) -> Conf {
    Conf::new(total, false, 0, 1_000, 1_000, 11_000_000, 9_000_000)
}

#[test]
fn speciate_groups_by_compatibility_with_increasing_ids() {
    let mut genus: Genus<Candidate> = Genus::new();
    genus.speciate(two_kind_population());
    assert_eq!(genus.species_count(), 2);
    assert_eq!(genus.count_individuals(), 10);
    assert_eq!(genus.species_collection.species(0).id, 1);
    assert_eq!(genus.species_collection.species(1).id, 2);
    assert_eq!(genus.species_collection.species(0).len(), 5);
    assert_eq!(genus.species_collection.species(1).len(), 5);
    assert_eq!(genus.next_species_id, 3);
}

#[test]
fn speciate_is_deterministic() {
    let mut a: Genus<Candidate> = Genus::new();
    let mut b: Genus<Candidate> = Genus::new();
    // b first holds an unrelated partition; speciation discards it.
    b.speciate(vec![Candidate::new(7, Some(1))]);
    let mut b2: Genus<Candidate> = Genus::new();
    b2.next_species_id = b.next_species_id;
    a.next_species_id = b.next_species_id;
    a.speciate(two_kind_population());
    b2.speciate(two_kind_population());
    assert_eq!(a.species_count(), b2.species_count());
    assert_eq!(a.next_species_id, b2.next_species_id);
    for i in 0..a.species_count() {
        let sa = a.species_collection.species(i);
        let sb = b2.species_collection.species(i);
        assert_eq!(sa.id, sb.id);
        assert_eq!(sa.len(), sb.len());
    }
}

#[test]
fn offspring_quotas_floor_then_best_species_takes_deficit() {
    // Accumulated adjusted fitness [30, 10] over 10 individuals: the average
    // is 4.0, raw quotas are floor(30/4) = 7 and floor(10/4) = 2, and the
    // missing offspring goes to the best (first) species: [8, 2].
    let conf = conf_plain(10);
    let mut genus: Genus<Candidate> = Genus::new();
    genus.speciate(two_kind_population());
    genus.update(&conf);
    let quotas = genus.count_offsprings(10).expect("positive total adjusted fitness");
    assert_eq!(quotas, vec![8, 2]);
}

#[test]
fn quotas_sum_to_requested_total() {
    let conf = conf_plain(10);
    let mut genus: Genus<Candidate> = Genus::new();
    genus.speciate(two_kind_population());
    genus.update(&conf);
    for total in [1usize, 3, 7, 10, 23] {
        let quotas = genus.count_offsprings(total).expect("positive total adjusted fitness");
        assert_eq!(quotas.iter().sum::<usize>(), total);
        assert_eq!(quotas.len(), 2);
    }
}

#[test]
fn zero_total_adjusted_fitness_is_a_configuration_error() {
    // 1001 members of one species, all with fitness zero: every adjusted
    // value floors to zero (epsilon 1000 / 1001 members), so the average
    // cannot be formed.
    let conf = conf_plain(10);
    let mut pop = Vec::new();
    for _ in 0..1001 {
        pop.push(Candidate::new(0, Some(0)));
    }
    let mut genus: Genus<Candidate> = Genus::new();
    genus.speciate(pop);
    genus.update(&conf);
    assert_eq!(
        genus.calculate_average_fitness(),
        Err(SpeciationError::ConfigurationError)
    );
    assert_eq!(genus.count_offsprings(10), Err(SpeciationError::ConfigurationError));
    let mut policies = TestPolicies::plain();
    assert_eq!(
        genus.generate_new_individuals(&conf, &mut policies).err(),
        Some(SpeciationError::ConfigurationError)
    );
}

#[test]
fn update_rejuvenates_best_species_and_ages_the_rest() {
    let conf = conf_plain(10);
    let mut genus: Genus<Candidate> = Genus::new();
    genus.speciate(two_kind_population());
    genus.update(&conf);
    // The best species (first, fitness 30) is kept artificially young.
    assert_eq!(genus.species_collection.species(0).age.generations, 0);
    assert_eq!(genus.species_collection.species(0).age.no_improvements, 0);
    assert_eq!(genus.species_collection.species(1).age.generations, 1);
}

#[test]
fn generate_new_individuals_fills_quotas() {
    let conf = conf_plain(10);
    let mut genus: Genus<Candidate> = Genus::new();
    genus.speciate(two_kind_population());
    genus.update(&conf);
    let mut policies = TestPolicies::plain();
    let seed = genus.generate_new_individuals(&conf, &mut policies).unwrap();
    // Children copy their parent's kind, so all are compatible: no orphans.
    assert_eq!(seed.orphans.len(), 0);
    assert_eq!(seed.new_species_collection.species(0).len(), 8);
    assert_eq!(seed.new_species_collection.species(1).len(), 2);
    // Staged species keep their ids.
    assert_eq!(seed.new_species_collection.species(0).id, 1);
    assert_eq!(seed.new_species_collection.species(1).id, 2);
}

#[test]
fn next_generation_population_size_is_exact() {
    let conf = conf_plain(10);
    let mut genus: Genus<Candidate> = Genus::new();
    genus.speciate(two_kind_population());
    let mut policies = TestPolicies::plain();
    genus.ensure_evaluated_population(&mut policies);
    genus.update(&conf);
    let mut seed = genus.generate_new_individuals(&conf, &mut policies).unwrap();
    seed.evaluate(&mut policies);
    let next = genus.next_generation(&conf, seed, &mut policies).unwrap();
    assert_eq!(next.count_individuals(), 10);
}

#[test]
fn incompatible_orphan_founds_exactly_one_new_species() {
    // Every child is mutated into kind 99, incompatible with its origin: the
    // first orphan founds one new species under the current counter, and the
    // later orphans join it.
    let conf = conf_plain(2);
    let mut genus: Genus<Candidate> = Genus::new();
    genus.speciate(vec![Candidate::new(0, Some(10)), Candidate::new(0, Some(10))]);
    assert_eq!(genus.next_species_id, 2);
    genus.update(&conf);
    let mut policies = TestPolicies::rekinding(99);
    let mut seed = genus.generate_new_individuals(&conf, &mut policies).unwrap();
    assert_eq!(seed.orphans.len(), 2);
    seed.evaluate(&mut policies);
    let next = genus.next_generation(&conf, seed, &mut policies).unwrap();
    // Exactly one new species, under the genus's previous counter value; the
    // counter advanced by one; the old, emptied species was pruned.
    assert_eq!(next.species_count(), 1);
    assert_eq!(next.species_collection.species(0).id, 2);
    assert_eq!(next.next_species_id, 3);
    assert_eq!(next.count_individuals(), 2);
}

#[test]
fn next_generation_keeps_species_ids_unique_and_below_counter() {
    let conf = conf_plain(10);
    let mut genus: Genus<Candidate> = Genus::new();
    genus.speciate(two_kind_population());
    let mut policies = TestPolicies::plain();
    genus.ensure_evaluated_population(&mut policies);
    genus.update(&conf);
    let mut seed = genus.generate_new_individuals(&conf, &mut policies).unwrap();
    seed.evaluate(&mut policies);
    let next = genus.next_generation(&conf, seed, &mut policies).unwrap();
    let mut seen = Vec::new();
    for i in 0..next.species_count() {
        let id = next.species_collection.species(i).id;
        assert!(id < next.next_species_id);
        assert!(!seen.contains(&id));
        seen.push(id);
    }
}

#[test]
fn ensure_evaluated_population_fills_missing_fitness() {
    let mut genus: Genus<Candidate> = Genus::new();
    let mut one = Candidate::new(0, Some(4));
    one.strength = 4;
    let mut other = Candidate::new(0, None);
    other.strength = 6;
    genus.speciate(vec![one, other]);
    let mut policies = TestPolicies::plain();
    genus.ensure_evaluated_population(&mut policies);
    let sp = genus.species_collection.species(0);
    assert_eq!(sp.individual(0).fitness, Some(4));
    assert_eq!(sp.individual(1).fitness, Some(6));
}

#[test]
fn worst_species_is_found_and_respects_exclusions() {
    let conf = conf_plain(10);
    let mut genus: Genus<Candidate> = Genus::new();
    genus.speciate(two_kind_population());
    genus.update(&conf);
    let worst = genus.species_collection.get_worst(&Vec::new());
    assert_eq!(worst, Some(1));
    let worst_id = genus.species_collection.species(1).id;
    let next_worst = genus.species_collection.get_worst(&vec![worst_id]);
    assert_eq!(next_worst, Some(0));
    let both = vec![worst_id, genus.species_collection.species(0).id];
    assert_eq!(genus.species_collection.get_worst(&both), None);
}

#[test]
fn excess_offspring_are_drained_from_the_worst_species() {
    // Target below the raw-quota sum forces the drain path: quotas [7, 2]
    // against a target of 5 drain 2 from the worst species (index 1), then 2
    // more from the best: [5, 0].
    let conf = conf_plain(10);
    let mut genus: Genus<Candidate> = Genus::new();
    genus.speciate(two_kind_population());
    genus.update(&conf);
    let quotas = genus.count_offsprings(5).expect("positive total adjusted fitness");
    assert_eq!(quotas.iter().sum::<usize>(), 5);
    assert_eq!(quotas, vec![5, 0]);
}
