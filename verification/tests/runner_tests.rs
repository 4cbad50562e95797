use std::marker::PhantomData;

use evopop::fraction::Fraction;
use evopop::mate::{AbsoluteDifference, BestParent, IdentityFitness};
use evopop::population::{Population, Unrated};
use evopop::random::RandomSource;
use evopop::runner::{GenerationLimit, Runner};

fn runner() -> Runner<u32, AbsoluteDifference, BestParent> {
    Runner {
        pop_size: 20,
        elite_percentage: Fraction::new(1, 4),
        selection_percentage: Fraction::new(1, 2),
        compatibility_threshold: 10,
        compatibility: AbsoluteDifference,
        mate: BestParent,
        _marker: PhantomData,
    }
}

fn initial() -> Population<u32, Unrated> {
    let mut pop: Population<u32, Unrated> = Population::new();
    for g in [3u32, 5, 8, 40, 44, 47] {
        pop.add_genome(Box::new(g));
    }
    pop
}

#[test]
fn run_stops_when_goal_already_holds() {
    let mut rng = RandomSource::from_seed(100);
    let (generations, pop) = runner().run(initial(), &IdentityFitness, &GenerationLimit { limit: 0 }, 50, &mut rng);
    assert_eq!(generations, 0);
    // generation 0 is rated before the first goal check, untouched otherwise
    assert_eq!(pop.len(), 6);
    for ind in pop.into_vec() {
        assert!(ind.has_fitness());
    }
}

#[test]
fn run_counts_generations_until_goal() {
    let mut rng = RandomSource::from_seed(101);
    let (generations, pop) = runner().run(initial(), &IdentityFitness, &GenerationLimit { limit: 3 }, 50, &mut rng);
    assert_eq!(generations, 3);
    assert!(pop.len() > 0);
    let best = pop.best_individual().unwrap();
    // the identity evaluator and best-parent mating never lose the best genome
    assert_eq!(best.fitness(), 47);
}

#[test]
fn run_respects_generation_cap() {
    let mut rng = RandomSource::from_seed(102);
    let (generations, pop) = runner().run(initial(), &IdentityFitness, &GenerationLimit { limit: usize::MAX }, 4, &mut rng);
    assert_eq!(generations, 4);
    assert!(pop.len() > 0);
}
