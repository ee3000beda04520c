use speciation::{Individual, Species, SpeciesCollection};

#[derive(Clone, Debug)]
struct Candidate {
    kind: u64,
    fitness: Option<u64>,
}

impl Candidate {
    fn new(kind: u64, fitness: Option<u64>) -> Self {
        Self { kind, fitness }
    }
}

impl Individual for Candidate {
    fn spec_fitness(&self) -> Option<u64> {
        self.fitness
    }

    fn spec_compatible(&self, other: &Self) -> bool {
        self.kind == other.kind
    }

    fn fitness(&self) -> Option<u64> {
        self.fitness
    }

    fn is_compatible(&self, other: &Self) -> bool {
        self.kind == other.kind
    }
}

fn species(id: usize, fitness: u64) -> Species<Candidate> {
    Species::new(Candidate::new(0, Some(fitness)), id)
}

#[test]
fn new_collection_is_empty() {
    let coll: SpeciesCollection<Candidate> = SpeciesCollection::new();
    assert_eq!(coll.len(), 0);
}

#[test]
fn push_and_count() {
    let mut coll: SpeciesCollection<Candidate> = SpeciesCollection::new();
    coll.push(species(1, 5));
    let mut two = species(2, 9);
    two.insert(Candidate::new(0, Some(1)));
    coll.push(two);
    assert_eq!(coll.len(), 2);
    assert_eq!(coll.count_individuals(), 3);
    assert_eq!(coll.species(0).id, 1);
    assert_eq!(coll.species(1).id, 2);
}

#[test]
fn new_from_iter_keeps_order() {
    let coll = SpeciesCollection::new_from_iter(vec![species(4, 1), species(9, 2)]);
    assert_eq!(coll.len(), 2);
    assert_eq!(coll.species(0).id, 4);
    assert_eq!(coll.species(1).id, 9);
}

#[test]
fn get_best_picks_highest_best_fitness_first_occurrence_wins() {
    let mut coll = SpeciesCollection::new_from_iter(vec![
        species(1, 3),
        species(2, 8),
        species(3, 8),
    ]);
    assert_eq!(coll.get_best(), Some(1));
}

#[test]
fn get_best_skips_unevaluated_species() {
    let unevaluated = Species::new(Candidate::new(0, None), 1);
    let mut coll = SpeciesCollection::new_from_iter(vec![unevaluated, species(2, 1)]);
    assert_eq!(coll.get_best(), Some(1));
}

#[test]
fn cleanup_drops_empty_species() {
    let mut emptied = species(1, 5);
    let _ = emptied.drain_individuals();
    let mut coll = SpeciesCollection::new_from_iter(vec![emptied, species(2, 7)]);
    coll.cleanup();
    assert_eq!(coll.len(), 1);
    assert_eq!(coll.species(0).id, 2);
}

#[test]
fn clear_removes_everything() {
    let mut coll = SpeciesCollection::new_from_iter(vec![species(1, 5)]);
    coll.clear();
    assert_eq!(coll.len(), 0);
    assert_eq!(coll.count_individuals(), 0);
}

#[test]
fn compute_update_ages_everyone_then_rejuvenates_best() {
    let mut coll = SpeciesCollection::new_from_iter(vec![species(1, 3), species(2, 9)]);
    coll.compute_update();
    // Species 2 is best: aged then reset; species 1 keeps its aging.
    assert_eq!(coll.species(0).age.generations, 1);
    assert_eq!(coll.species(0).age.no_improvements, 1);
    assert_eq!(coll.species(1).age.generations, 0);
    assert_eq!(coll.species(1).age.no_improvements, 0);
}

#[test]
fn worst_skips_unevaluated_species() {
    let unevaluated = Species::new(Candidate::new(0, None), 3);
    let coll = SpeciesCollection::new_from_iter(vec![species(1, 9), unevaluated, species(2, 4)]);
    assert_eq!(coll.get_worst(&Vec::new()), Some(2));
}

#[test]
fn worst_ties_go_to_the_earliest_species() {
    let coll = SpeciesCollection::new_from_iter(vec![species(1, 4), species(2, 4)]);
    assert_eq!(coll.get_worst(&Vec::new()), Some(0));
}
