use rand::distributions::{Distribution, Uniform};
use rand::rngs::StdRng;
use rand::{Rng, SeedableRng};

use speciation::conf::SCALE;
use speciation::{Conf, Genus, Individual, Policies, Species};

#[derive(Clone)]
struct IndividualTest {
    id: usize,
    genome: Vec<bool>,
    fitness: Option<u64>,
}

impl IndividualTest {
    fn empty(id: usize, size: usize) -> Self {
        Self { id, genome: vec![false; size], fitness: None }
    }

    fn random(id: usize, size: usize, rng: &mut StdRng) -> Self {
        Self {
            id,
            genome: (0..size).map(|_| rng.gen()).collect(),
            fitness: None,
        }
    }

    fn evaluate(&mut self) -> u64 {
        let ones = self.genome.iter().filter(|b| **b).count() as u64;
        let fitness = ones * SCALE;
        self.fitness = Some(fitness);
        fitness
    }

    fn mutate(&mut self, rng: &mut StdRng) {
        let pos = Uniform::from(0..self.genome.len()).sample(rng);
        self.genome[pos] = !self.genome[pos];
    }

    fn crossover(&self, other: &Self, new_id: usize, rng: &mut StdRng) -> Self {
        let mut new_indiv = Self::empty(new_id, 0);
        let swap_point = Uniform::from(0..self.genome.len()).sample(rng);
        new_indiv.genome = self
            .genome
            .iter()
            .take(swap_point)
            .chain(other.genome.iter().skip(swap_point))
            .cloned()
            .collect();
        assert_eq!(self.genome.len(), new_indiv.genome.len());
        new_indiv
    }
}

impl Individual for IndividualTest {
    fn spec_fitness(&self) -> Option<u64> {
        self.fitness
    }

    fn spec_compatible(&self, other: &Self) -> bool {
        let distance: usize = self
            .genome
            .iter()
            .zip(other.genome.iter())
            .map(|(s, o)| if s == o { 0 } else { 1 })
            .sum();
        distance > (self.genome.len() / 3)
    }

    fn fitness(&self) -> Option<u64> {
        self.fitness
    }

    fn is_compatible(&self, other: &Self) -> bool {
        assert_eq!(self.genome.len(), other.genome.len());
        let distance: usize = self
            .genome
            .iter()
            .zip(other.genome.iter())
            .map(|(s, o)| if s == o { 0 } else { 1 })
            .sum();
        distance > (self.genome.len() / 3)
    }
}

struct EvolutionPolicies {
    rng: StdRng,
    id_counter: usize,
    best_fitness: u64,
}

impl Policies<IndividualTest> for EvolutionPolicies {
    fn select_one(&mut self, _pool: &Species<IndividualTest>) -> usize {
        0
    }

    fn select_two(&mut self, _pool: &Species<IndividualTest>) -> (usize, usize) {
        (0, 1)
    }

    fn reproduce_one(&mut self, parent: &IndividualTest) -> IndividualTest {
        let mut child = parent.clone();
        child.id = self.id_counter;
        child.fitness = None;
        self.id_counter += 1;
        child
    }

    fn crossover_two(&mut self, parent1: &IndividualTest, parent2: &IndividualTest) -> IndividualTest {
        let child = parent1.crossover(parent2, self.id_counter, &mut self.rng);
        self.id_counter += 1;
        child
    }

    fn mutate(&mut self, individual: &mut IndividualTest) {
        individual.mutate(&mut self.rng);
    }

    fn evaluate(&mut self, individual: &mut IndividualTest) -> u64 {
        let fitness = individual.evaluate();
        if fitness > self.best_fitness {
            self.best_fitness = fitness;
        }
        fitness
    }

    fn manage_population(
        &mut self,
        new_roster: Vec<IndividualTest>,
        old_roster: Vec<IndividualTest>,
        target_size: usize,
    ) -> Vec<IndividualTest> {
        let mut pool = new_roster;
        pool.extend(old_roster);
        pool.sort_by(|a, b| b.fitness.cmp(&a.fitness));
        while pool.len() < target_size {
            let filler = pool.first().expect("an individual to pad with").clone();
            pool.push(filler);
        }
        pool.truncate(target_size);
        pool
    }
}

#[test]
fn lib_evolution_test() {
    const POPULATION_SIZE: usize = 10;
    const GENOME_SIZE: usize = 10;
    let mut rng = StdRng::seed_from_u64(7);

    let genus: Genus<IndividualTest> = Genus::new();
    let initial_population: Vec<IndividualTest> = (0..POPULATION_SIZE)
        .map(|i| IndividualTest::random(i, GENOME_SIZE, &mut rng))
        .collect();
    assert_eq!(genus.species_count(), 0);
    assert_eq!(initial_population.len(), POPULATION_SIZE);
}

#[test]
fn mod_evolution_test() {
    const POPULATION_SIZE: usize = 10;
    const GENOME_SIZE: usize = 10;
    const MAX_GENERATIONS: usize = 100;
    let mut rng = StdRng::seed_from_u64(42);

    let mut genus: Genus<IndividualTest> = Genus::new();
    let initial_population: Vec<IndividualTest> = (0..POPULATION_SIZE)
        .map(|i| IndividualTest::random(i, GENOME_SIZE, &mut rng))
        .collect();

    let id_counter = initial_population.len();

    genus.speciate(initial_population);
    assert_eq!(genus.count_individuals(), POPULATION_SIZE);

    let conf = Conf {
        total_population_size: POPULATION_SIZE,
        crossover: true,
        young_age_threshold: 2,
        old_age_threshold: 10,
        species_max_stagnation: 20,
        young_age_fitness_boost: 11_000_000,
        old_age_fitness_penalty: 9_000_000,
    };

    let mut policies = EvolutionPolicies {
        rng: StdRng::seed_from_u64(43),
        id_counter,
        best_fitness: 0,
    };

    let mut generation_n: usize = 0;

    genus.ensure_evaluated_population(&mut policies);

    while policies.best_fitness < (GENOME_SIZE as u64) * SCALE {
        generation_n += 1;
        println!("Starting generation {}", generation_n);
        genus.update(&conf);
        let mut generated_individuals = genus
            .generate_new_individuals(&conf, &mut policies)
            .expect("count offspring to be successful");

        generated_individuals.evaluate(&mut policies);

        genus = genus
            .next_generation(&conf, generated_individuals, &mut policies)
            .expect("a complete next generation");

        if generation_n > MAX_GENERATIONS {
            assert!(false);
        }
    }

    println!(
        "Evolution took {} generations to complete with a fitness of {}",
        generation_n, policies.best_fitness
    );
}
