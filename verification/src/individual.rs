//! A single candidate solution: one owned genome plus an optional fitness.

use vstd::prelude::*;

verus! {

/// The scalar quality score of an individual: totally ordered, summable,
/// and usable for niche means. Higher is better.
pub type Fitness = u32;

/// One genome together with its fitness, if it has been rated. Once a
/// fitness is attached it is never cleared or recomputed in place: a new
/// individual is produced instead.
#[derive(Debug)]
pub struct Individual<T> {
    fitness: Option<Fitness>,
    genome: Box<T>,
}

impl<T> Individual<T> {
    /// The attached fitness, or `None` while unrated.
    pub closed spec fn fitness_spec(self) -> Option<Fitness> {
        self.fitness
    }

    /// The owned genome.
    pub closed spec fn genome_spec(self) -> T {
        *self.genome
    }

    /// The fitness as a plain integer; zero while unrated.
    pub open spec fn fit(self) -> int {
        match self.fitness_spec() {
            Some(f) => f as int,
            None => 0,
        }
    }

    pub fn from_genome(genome: Box<T>) -> (r: Individual<T>)
        ensures
            r.fitness_spec() is None,
            r.genome_spec() == *genome,
    {
        Individual { fitness: None, genome }
    }

    pub fn from_rated_genome(genome: Box<T>, fitness: Fitness) -> (r: Individual<T>)
        ensures
            r.fitness_spec() == Some(fitness),
            r.genome_spec() == *genome,
    {
        Individual { fitness: Some(fitness), genome }
    }

    /// A copy of this individual carrying the given fitness.
    pub fn with_fitness(self, fitness: Fitness) -> (r: Individual<T>)
        ensures
            r.fitness_spec() == Some(fitness),
            r.genome_spec() == self.genome_spec(),
    {
        Individual { fitness: Some(fitness), genome: self.genome }
    }

    pub fn has_fitness(&self) -> (r: bool)
        ensures
            r == self.fitness_spec() is Some,
    {
        self.fitness.is_some()
    }

    pub fn fitness(&self) -> (r: Fitness)
        requires
            self.fitness_spec() is Some,
        ensures
            r == self.fitness_spec()->Some_0,
            r == self.fit(),
    {
        match &self.fitness {
            Some(f) => *f,
            None => unreached(),
        }
    }

    pub fn genome(&self) -> (r: &T)
        ensures
            *r == self.genome_spec(),
    {
        &self.genome
    }
}

} // verus!
