use speciation::conf::SCALE;
use speciation::{Conf, Individual, Species};

#[derive(Clone, Debug)]
struct Candidate {
    kind: u64,
    fitness: Option<u64>,
}

impl Candidate {
    fn new(kind: u64, fitness: Option<u64>) -> Self {
        Self { kind, fitness }
    }
}

impl Individual for Candidate {
    fn spec_fitness(&self) -> Option<u64> {
        self.fitness
    }

    fn spec_compatible(&self, other: &Self) -> bool {
        self.kind == other.kind
    }

    fn fitness(&self) -> Option<u64> {
        self.fitness
    }

    fn is_compatible(&self, other: &Self) -> bool {
        self.kind == other.kind
    }
}

fn conf_plain() -> Conf {
    // No young boost (threshold 0), no old penalty (threshold far away), no
    // stagnation (threshold far away).
    Conf::new(10, false, 0, 1_000, 1_000, 11_000_000, 9_000_000)
}

#[test]
fn new_species_is_singleton_with_fresh_age() {
    let sp = Species::new(Candidate::new(0, Some(5)), 7);
    assert_eq!(sp.id, 7);
    assert_eq!(sp.len(), 1);
    assert!(!sp.is_empty());
    assert_eq!(sp.age.generations, 0);
    assert_eq!(sp.last_best_fitness, 0);
}

#[test]
fn representative_is_first_member() {
    let mut sp = Species::new(Candidate::new(0, Some(5)), 1);
    sp.insert(Candidate::new(0, Some(9)));
    assert_eq!(sp.representative().unwrap().fitness, Some(5));
    assert_eq!(sp.len(), 2);
}

#[test]
fn compatibility_delegates_to_representative() {
    let sp = Species::new(Candidate::new(3, Some(5)), 1);
    assert!(sp.is_compatible(&Candidate::new(3, None)));
    assert!(!sp.is_compatible(&Candidate::new(4, None)));
}

#[test]
fn empty_species_is_never_compatible() {
    let mut sp = Species::new(Candidate::new(3, Some(5)), 1);
    let drained = sp.drain_individuals();
    assert_eq!(drained.len(), 1);
    assert!(sp.is_empty());
    assert!(!sp.is_compatible(&Candidate::new(3, None)));
}

#[test]
fn best_individual_prefers_highest_fitness_first_occurrence_wins() {
    let mut sp = Species::new(Candidate::new(0, Some(3)), 1);
    sp.insert(Candidate::new(0, Some(9)));
    sp.insert(Candidate::new(0, None));
    sp.insert(Candidate::new(0, Some(9)));
    let best = sp.get_best_individual().unwrap();
    assert_eq!(best.fitness, Some(9));
    assert_eq!(sp.get_best_fitness(), Some(9));
    // The earliest maximum wins: index 1, not index 3.
    assert_eq!(sp.individual(1).fitness, Some(9));
}

#[test]
fn best_fitness_none_when_nothing_evaluated() {
    let sp = Species::new(Candidate::new(0, None), 1);
    assert_eq!(sp.get_best_fitness(), None);
}

#[test]
fn adjusted_fitness_is_shared_across_members() {
    let mut sp = Species::new(Candidate::new(0, Some(30)), 1);
    for _ in 0..4 {
        sp.insert(Candidate::new(0, Some(30)));
    }
    sp.compute_adjust_fitness(true, &conf_plain());
    // 30 / 5 members = 6 each, accumulated 30.
    assert_eq!(sp.accumulated_adjusted_fitness(), 30);
}

#[test]
fn zero_fitness_is_replaced_by_epsilon() {
    let mut sp = Species::new(Candidate::new(0, Some(0)), 1);
    sp.compute_adjust_fitness(true, &conf_plain());
    // The epsilon is 0.0001, i.e. 1000 units; one member, no multipliers.
    assert_eq!(sp.accumulated_adjusted_fitness(), 1000);
}

#[test]
fn young_species_gets_fitness_boost() {
    // Age 5 generations with a young-age threshold of 10: fitness x 1.1.
    let conf = Conf::new(10, false, 10, 40, 400, 11_000_000, 9_000_000);
    let mut sp = Species::new(Candidate::new(0, Some(SCALE)), 1);
    for _ in 0..5 {
        sp.increase_generations();
    }
    sp.compute_adjust_fitness(true, &conf);
    assert_eq!(sp.accumulated_adjusted_fitness(), 11_000_000);
}

#[test]
fn old_species_gets_fitness_penalty() {
    // Age 50 generations with an old-age threshold of 40: fitness x 0.9.
    let conf = Conf::new(10, false, 10, 40, 400, 11_000_000, 9_000_000);
    let mut sp = Species::new(Candidate::new(0, Some(SCALE)), 1);
    for _ in 0..50 {
        sp.increase_generations();
    }
    sp.compute_adjust_fitness(true, &conf);
    assert_eq!(sp.accumulated_adjusted_fitness(), 9_000_000);
}

#[test]
fn stagnating_non_best_species_is_nearly_eliminated() {
    // A non-best species with no_improvements = 401 > 400: fitness x 1e-7.
    let conf = Conf::new(10, false, 0, 1_000, 400, 11_000_000, 9_000_000);
    let mut sp = Species::new(Candidate::new(0, Some(5 * SCALE)), 1);
    // First pass raises the watermark to 5.0.
    sp.compute_adjust_fitness(false, &conf);
    assert_eq!(sp.accumulated_adjusted_fitness(), (5 * SCALE) as u128);
    // Now the member reports 3.0, below the watermark, with a long streak.
    sp.individual_mut(0, Candidate::new(0, Some(3 * SCALE)));
    for _ in 0..401 {
        sp.increase_no_improvements_generations();
    }
    sp.compute_adjust_fitness(false, &conf);
    // 3.0 scaled by 1e-7 is 3 units.
    assert_eq!(sp.accumulated_adjusted_fitness(), 3);
}

#[test]
fn best_species_is_exempt_from_stagnation_penalty() {
    let conf = Conf::new(10, false, 0, 1_000, 400, 11_000_000, 9_000_000);
    let mut sp = Species::new(Candidate::new(0, Some(5 * SCALE)), 1);
    sp.compute_adjust_fitness(true, &conf);
    sp.individual_mut(0, Candidate::new(0, Some(3 * SCALE)));
    for _ in 0..401 {
        sp.increase_no_improvements_generations();
    }
    sp.compute_adjust_fitness(true, &conf);
    assert_eq!(sp.accumulated_adjusted_fitness(), (3 * SCALE) as u128);
}

#[test]
fn adjust_twice_with_stable_inputs_is_idempotent() {
    // Streak within the stagnation threshold: the second pass reproduces the
    // first one exactly.
    let conf = Conf::new(10, false, 0, 1_000, 400, 11_000_000, 9_000_000);
    let mut sp = Species::new(Candidate::new(0, Some(7 * SCALE)), 1);
    sp.insert(Candidate::new(0, Some(4 * SCALE)));
    sp.compute_adjust_fitness(false, &conf);
    let first = sp.accumulated_adjusted_fitness();
    assert_eq!(first, ((7 * SCALE) / 2 + (4 * SCALE) / 2) as u128);
    sp.compute_adjust_fitness(false, &conf);
    assert_eq!(sp.accumulated_adjusted_fitness(), first);
}

#[test]
fn watermark_rises_and_clears_stagnation() {
    let conf = conf_plain();
    let mut sp = Species::new(Candidate::new(0, Some(6)), 1);
    sp.increase_no_improvements_generations();
    sp.compute_adjust_fitness(true, &conf);
    assert_eq!(sp.last_best_fitness, 6);
    assert_eq!(sp.age.no_improvements, 0);
}

#[test]
fn set_individuals_replaces_roster() {
    let mut sp = Species::new(Candidate::new(0, Some(1)), 1);
    sp.set_individuals(vec![Candidate::new(0, Some(2)), Candidate::new(0, Some(3))]);
    assert_eq!(sp.len(), 2);
    assert_eq!(sp.individual(0).fitness, Some(2));
    assert_eq!(sp.individual(1).fitness, Some(3));
}

#[test]
fn clone_with_new_individuals_keeps_identity() {
    let mut sp = Species::new(Candidate::new(0, Some(9)), 42);
    sp.increase_generations();
    sp.compute_adjust_fitness(true, &conf_plain());
    let fresh = sp.clone_with_new_individuals(vec![Candidate::new(0, None)]);
    assert_eq!(fresh.id, 42);
    assert_eq!(fresh.age.generations, 1);
    assert_eq!(fresh.last_best_fitness, 9);
    assert_eq!(fresh.len(), 1);
    assert_eq!(fresh.individual(0).fitness, None);
}

#[test]
fn species_equality_is_by_id() {
    let a: Species<Candidate> = Species::new(Candidate::new(0, Some(1)), 3);
    let b: Species<Candidate> = Species::new(Candidate::new(9, Some(7)), 3);
    let c: Species<Candidate> = Species::new(Candidate::new(0, Some(1)), 4);
    assert!(a == b);
    assert!(a != c);
}
