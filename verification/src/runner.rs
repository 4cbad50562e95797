//! The generational driver: rate, test the goal, partition into niches,
//! reproduce proportionally, rate the offspring, merge, and repeat.

use vstd::prelude::*;
use std::marker::PhantomData;
use crate::fraction::Fraction;
use crate::individual::Individual;
use crate::mate::{Distance, Evaluate, Mate};
use crate::niche::{global_outcome, partition_outcome, sum_lens, total_means_spec, Niche};
use crate::population::{all_rated, Population, Rated, Unrated};
use crate::random::RandomSource;

verus! {

/// The caller-supplied goal condition, evaluated once per generation on
/// the generation index, the current rated population, and the niche count
/// of the previous partition. `spec_reached` is the implementation's own
/// mathematical account of itself, which `reached` must decide.
pub trait Goal<T> {
    spec fn spec_reached(
        &self,
        generation: int,
        population: Seq<Individual<T>>,
        num_niches: int,
    ) -> bool;

    fn reached(
        &self,
        generation: usize,
        population: &Population<T, Rated>,
        num_niches: usize,
    ) -> (r: bool)
        ensures
            r == self.spec_reached(generation as int, population@, num_niches as int),
    ;
}

/// The goal that holds once the generation index reaches a fixed limit:
/// the simplest stopping rule, and the one the tests drive the loop with.
pub struct GenerationLimit {
    pub limit: usize,
}

impl<T> Goal<T> for GenerationLimit {
    open spec fn spec_reached(
        &self,
        generation: int,
        population: Seq<Individual<T>>,
        num_niches: int,
    ) -> bool {
        generation >= self.limit
    }

    fn reached(
        &self,
        generation: usize,
        _population: &Population<T, Rated>,
        _num_niches: usize,
    ) -> (r: bool) {
        generation >= self.limit
    }
}

/// `rated` is exactly `unrated` rated by the evaluator: the same genomes
/// in the same order, each carrying the evaluator's fitness for its genome.
pub open spec fn rated_by<T, F: Evaluate<T>>(
    f: F,
    unrated: Seq<Individual<T>>,
    rated: Seq<Individual<T>>,
) -> bool {
    &&& rated.len() == unrated.len()
    &&& (forall|i: int|
        0 <= i < rated.len() ==> (#[trigger] rated[i]).genome_spec() == unrated[i].genome_spec())
    &&& (forall|i: int|
        0 <= i < rated.len() ==> (#[trigger] rated[i]).fitness_spec() == Some(
            f.spec_fitness(unrated[i].genome_spec()),
        ))
}

/// The pieces one generation is made of: `prev` partitions into `niches`
/// by the greedy first-match trace; `next_niches` is their count (what the
/// goal reads next); those niches reproduce globally towards `pop_size`
/// with the stochastic `draws`, yielding the elites `next.take(split)` and
/// the unrated `offspring`; and the rest of `next` is that offspring rated
/// by the evaluator.
pub open spec fn generation_parts<T, C: Distance<T>, M: Mate<T>, F: Evaluate<T>>(
    compat: C,
    f: F,
    threshold: int,
    pop_size: int,
    elite: Fraction,
    selection: Fraction,
    prev: Seq<Individual<T>>,
    next: Seq<Individual<T>>,
    next_niches: int,
    niches: Seq<Niche<T>>,
    draws: Seq<(int, int, int, int, int)>,
    offspring: Seq<Individual<T>>,
    split: int,
) -> bool {
    &&& partition_outcome(prev, niches, threshold, compat)
    &&& next_niches == niches.len()
    &&& 0 <= split <= next.len()
    &&& global_outcome::<T, M>(
        niches,
        pop_size,
        total_means_spec(niches),
        niches.len() as int,
        elite,
        selection,
        draws,
        next.take(split),
        offspring,
    )
    &&& rated_by(f, offspring, next.skip(split))
}

/// One generation of the loop, for some partition, draws, and offspring:
/// see `generation_parts`.
pub open spec fn generation_step<T, C: Distance<T>, M: Mate<T>, F: Evaluate<T>>(
    compat: C,
    f: F,
    threshold: int,
    pop_size: int,
    elite: Fraction,
    selection: Fraction,
    prev: Seq<Individual<T>>,
    next: Seq<Individual<T>>,
    next_niches: int,
) -> bool {
    exists|
        niches: Seq<Niche<T>>,
        draws: Seq<(int, int, int, int, int)>,
        offspring: Seq<Individual<T>>,
        split: int,
    |
        #[trigger] generation_parts::<T, C, M, F>(
            compat,
            f,
            threshold,
            pop_size,
            elite,
            selection,
            prev,
            next,
            next_niches,
            niches,
            draws,
            offspring,
            split,
        )
}

/// The history one run leaves behind: one `(population, niche count)` pair
/// per generation. Entry 0 is the initial population rated by the
/// evaluator, with a niche count of one; each following entry arises from
/// the previous by one `generation_step` — partition, proportional
/// reproduction, rating of the offspring. The goal failed at every
/// generation before the returned one, and — unless the run stopped at the
/// generation cap — holds at the returned generation for the returned
/// population and the actual niche count.
pub open spec fn run_trace<T, C: Distance<T>, M: Mate<T>, F: Evaluate<T>, G: Goal<T>>(
    goal: G,
    compat: C,
    f: F,
    threshold: int,
    pop_size: int,
    elite: Fraction,
    selection: Fraction,
    initial: Seq<Individual<T>>,
    history: Seq<(Seq<Individual<T>>, int)>,
    generations: int,
    cap: int,
    final_pop: Seq<Individual<T>>,
) -> bool {
    &&& history.len() == generations + 1
    &&& history[0].1 == 1
    &&& rated_by(f, initial, history[0].0)
    &&& history.last().0 == final_pop
    &&& (forall|g: int|
        0 <= g < generations ==> !goal.spec_reached(
            g,
            (#[trigger] history[g]).0,
            history[g].1,
        ))
    &&& (forall|g: int|
        0 <= g < generations ==> generation_step::<T, C, M, F>(
            compat,
            f,
            threshold,
            pop_size,
            elite,
            selection,
            (#[trigger] history[g]).0,
            history[g + 1].0,
            history[g + 1].1,
        ))
    &&& (generations < cap ==> goal.spec_reached(generations, final_pop, history.last().1))
}

/// The generational loop's configuration: the anticipated population size,
/// the elite and selection shares, the compatibility threshold, and the
/// distance and mating capabilities.
pub struct Runner<T, C, M> {
    pub pop_size: u64,
    pub elite_percentage: Fraction,
    pub selection_percentage: Fraction,
    pub compatibility_threshold: u64,
    pub compatibility: C,
    pub mate: M,
    pub _marker: PhantomData<T>,
}

impl<T, C, M> Runner<T, C, M> {
    /// Runs generations until the goal condition holds, or until the given
    /// generation bound is reached, and returns the generation count with
    /// the final rated population. Each generation rates the incoming
    /// unrated individuals in parallel, tests the goal, then partitions,
    /// reproduces every niche towards its share of `pop_size`, rates the
    /// offspring, and appends them to the surviving elites — as the
    /// `run_trace` of the result states.
    pub fn run<F, G>(
        &mut self,
        initial_pop: Population<T, Unrated>,
        fitness: &F,
        goal_condition: &G,
        max_generations: usize,
        rng: &mut RandomSource,
    ) -> (r: (usize, Population<T, Rated>))
        where
            T: Sync,
            C: Distance<T>,
            M: Mate<T>,
            F: Evaluate<T> + Sync,
            G: Goal<T>,
        requires
            initial_pop@.len() > 0,
            old(self).elite_percentage.wf(),
            old(self).selection_percentage.wf(),
            old(self).elite_percentage.le_spec(old(self).selection_percentage),
        ensures
            all_rated(r.1@),
            r.1@.len() > 0,
            r.0 <= max_generations,
            exists|history: Seq<(Seq<Individual<T>>, int)>|
                #[trigger] run_trace::<T, C, M, F, G>(
                    *goal_condition,
                    old(self).compatibility,
                    *fitness,
                    old(self).compatibility_threshold as int,
                    old(self).pop_size as int,
                    old(self).elite_percentage,
                    old(self).selection_percentage,
                    initial_pop@,
                    history,
                    r.0 as int,
                    max_generations as int,
                    r.1@,
                ),
    {
        let mut iteration: usize = 0;
        let mut current = initial_pop.rate_par(fitness);
        let mut last_num_niches: usize = 1;
        let ghost mut history: Seq<(Seq<Individual<T>>, int)> = seq![
            (current@, 1int),
        ];
        proof {
            assert(rated_by(*fitness, initial_pop@, current@));
        }
        while iteration < max_generations
            invariant
                iteration <= max_generations,
                all_rated(current@),
                current@.len() > 0,
                self.pop_size == old(self).pop_size,
                self.elite_percentage == old(self).elite_percentage,
                self.selection_percentage == old(self).selection_percentage,
                self.compatibility_threshold == old(self).compatibility_threshold,
                self.compatibility == old(self).compatibility,
                self.elite_percentage.wf(),
                self.selection_percentage.wf(),
                self.elite_percentage.le_spec(self.selection_percentage),
                history.len() == iteration + 1,
                history[0].1 == 1,
                rated_by(*fitness, initial_pop@, history[0].0),
                history.last() == (current@, last_num_niches as int),
                forall|g: int|
                    0 <= g < iteration ==> !goal_condition.spec_reached(
                        g,
                        (#[trigger] history[g]).0,
                        history[g].1,
                    ),
                forall|g: int|
                    0 <= g < iteration ==> generation_step::<T, C, M, F>(
                        self.compatibility,
                        *fitness,
                        self.compatibility_threshold as int,
                        self.pop_size as int,
                        self.elite_percentage,
                        self.selection_percentage,
                        (#[trigger] history[g]).0,
                        history[g + 1].0,
                        history[g + 1].1,
                    ),
            decreases max_generations - iteration,
        {
            if goal_condition.reached(iteration, &current, last_num_niches) {
                proof {
                    assert(run_trace::<T, C, M, F, G>(
                        *goal_condition,
                        self.compatibility,
                        *fitness,
                        self.compatibility_threshold as int,
                        self.pop_size as int,
                        self.elite_percentage,
                        self.selection_percentage,
                        initial_pop@,
                        history,
                        iteration as int,
                        max_generations as int,
                        current@,
                    ));
                }
                return (iteration, current);
            }
            let ghost prev_pop = current@;
            let niches = current.partition(
                rng,
                self.compatibility_threshold,
                &self.compatibility,
            );
            proof {
                if niches@.len() == 0 {
                    assert(sum_lens(niches@) == 0);
                    assert(niches.total_spec() == prev_pop.len());
                }
            }
            let ghost niches_seq = niches@;
            last_num_niches = niches.num_niches();
            let (new_rated, new_unrated) = niches.reproduce_global(
                self.pop_size,
                self.elite_percentage,
                self.selection_percentage,
                &mut self.mate,
                rng,
            );
            let mut next = new_rated;
            let ghost elites = next@;
            let ghost unrated_off = new_unrated@;
            let rated_offspring = new_unrated.rate_par(fitness);
            let ghost offspring = rated_offspring@;
            next.append(rated_offspring);
            proof {
                assert forall|i: int|
                    0 <= i < next@.len() implies next@[i].fitness_spec() is Some by {
                    if i < elites.len() {
                        assert(next@[i] == elites[i]);
                    } else {
                        assert(next@[i] == offspring[i - elites.len()]);
                    }
                }
                let draws = choose|d: Seq<(int, int, int, int, int)>|
                    #[trigger] global_outcome::<T, M>(
                        niches_seq,
                        self.pop_size as int,
                        total_means_spec(niches_seq),
                        niches_seq.len() as int,
                        self.elite_percentage,
                        self.selection_percentage,
                        d,
                        elites,
                        unrated_off,
                    );
                assert(next@.take(elites.len() as int) =~= elites);
                assert(next@.skip(elites.len() as int) =~= offspring);
                assert(rated_by(*fitness, unrated_off, offspring));
                assert(generation_parts::<T, C, M, F>(
                    self.compatibility,
                    *fitness,
                    self.compatibility_threshold as int,
                    self.pop_size as int,
                    self.elite_percentage,
                    self.selection_percentage,
                    prev_pop,
                    next@,
                    last_num_niches as int,
                    niches_seq,
                    draws,
                    unrated_off,
                    elites.len() as int,
                ));
            }
            current = next;
            iteration += 1;
            proof {
                history = history.push((current@, last_num_niches as int));
            }
        }
        proof {
            assert(run_trace::<T, C, M, F, G>(
                *goal_condition,
                self.compatibility,
                *fitness,
                self.compatibility_threshold as int,
                self.pop_size as int,
                self.elite_percentage,
                self.selection_percentage,
                initial_pop@,
                history,
                iteration as int,
                max_generations as int,
                current@,
            ));
        }
        (iteration, current)
    }
}

} // verus!
