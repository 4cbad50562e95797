//! The abstract capabilities the engine consumes: a mating operator that
//! produces one offspring genome from two parents, and a distance metric
//! used for compatibility-based speciation.

use vstd::prelude::*;
use crate::random::RandomSource;

verus! {

/// Mates two individuals, producing one offspring genome. There is no need
/// to use both parents: an implementation may mutate only. By convention the
/// first parent performs at least as well as the second; `self_mated` is
/// true when both parents are the same individual. `mate_rel` is the
/// implementation's own account of which offspring its operator can
/// produce from given parents — a relation, not a function, since mating
/// may draw randomness — and every result of `mate` lies in it.
pub trait Mate<T> {
    spec fn mate_rel(parent_best: T, parent_worst: T, self_mated: bool, offspring: T) -> bool;

    fn mate(
        &mut self,
        parent_best: &T,
        parent_worst: &T,
        self_mated: bool,
        rng: &mut RandomSource,
    ) -> (r: T)
        ensures
            Self::mate_rel(*parent_best, *parent_worst, self_mated, r),
    ;
}

/// A mating operator that hands the better parent's genome on unchanged:
/// the simplest conforming operator, and the one the tests breed with.
pub struct BestParent;

impl Mate<u32> for BestParent {
    open spec fn mate_rel(parent_best: u32, parent_worst: u32, self_mated: bool, offspring: u32) -> bool {
        offspring == parent_best
    }

    fn mate(
        &mut self,
        parent_best: &u32,
        _parent_worst: &u32,
        _self_mated: bool,
        _rng: &mut RandomSource,
    ) -> (r: u32) {
        *parent_best
    }
}

/// The fitness evaluator: a pure function from a genome to its fitness —
/// callable concurrently with no shared mutable state, which is what lets
/// sequential and parallel rating be used interchangeably. `spec_fitness`
/// is the implementation's own mathematical account of itself, which
/// `evaluate` must return.
pub trait Evaluate<T> {
    spec fn spec_fitness(&self, genome: T) -> crate::individual::Fitness;

    fn evaluate(&self, genome: &T) -> (r: crate::individual::Fitness)
        ensures
            r == self.spec_fitness(*genome),
    ;
}

/// The evaluator that reads an integer genome as its own fitness: the one
/// the tests rate with.
pub struct IdentityFitness;

impl Evaluate<u32> for IdentityFitness {
    open spec fn spec_fitness(&self, genome: u32) -> crate::individual::Fitness {
        genome
    }

    fn evaluate(&self, genome: &u32) -> (r: crate::individual::Fitness) {
        *genome
    }
}

/// A compatibility distance between two genomes. The engine uses it only
/// through strict `<` comparisons against a threshold; it need not be a
/// metric. `spec_distance` is the implementation's own mathematical account
/// of itself, which `distance` must return.
pub trait Distance<T> {
    spec fn spec_distance(&self, a: T, b: T) -> int;

    fn distance(&self, a: &T, b: &T) -> (d: u64)
        ensures
            d == self.spec_distance(*a, *b),
    ;
}

/// The absolute difference of two integer genomes: the simplest
/// compatibility metric, and the one the tests exercise speciation with.
pub struct AbsoluteDifference;

impl Distance<u32> for AbsoluteDifference {
    open spec fn spec_distance(&self, a: u32, b: u32) -> int {
        if a >= b {
            a - b
        } else {
            b - a
        }
    }

    fn distance(&self, a: &u32, b: &u32) -> (d: u64) {
        if *a >= *b {
            (*a - *b) as u64
        } else {
            (*b - *a) as u64
        }
    }
}

} // verus!
