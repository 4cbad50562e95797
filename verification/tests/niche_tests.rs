use evopop::fraction::Fraction;
use evopop::individual::Individual;
use evopop::mate::{AbsoluteDifference, BestParent};
use evopop::niche::{niche_share, Niche, Niches};
use evopop::population::{Population, Rated};
use evopop::random::RandomSource;

fn rated_from(pairs: &[(u32, u32)]) -> Population<u32, Rated> {
    let mut pop: Population<u32, Rated> = Population::new();
    for (g, f) in pairs {
        pop.add_individual(Individual::from_rated_genome(Box::new(*g), *f));
    }
    pop
}

#[test]
fn niche_constructors_and_accessors() {
    let niche = Niche::from_individual(Individual::from_rated_genome(Box::new(3u32), 12));
    assert_eq!(niche.len(), 1);
    assert_eq!(niche.mean_fitness(), 12);
    let mut rng = RandomSource::from_seed(0);
    assert_eq!(*niche.centroid_or_else_random(&mut rng).genome(), 3);

    let pop = rated_from(&[(1, 4), (2, 6)]);
    let niche = Niche::from_population(pop);
    assert_eq!(niche.len(), 2);
    assert_eq!(niche.mean_fitness(), 5);
}

#[test]
fn niches_from_single_population() {
    let pop = rated_from(&[(1, 1), (2, 2), (3, 3)]);
    let niches = Niches::from_single_population(pop);
    assert_eq!(niches.num_niches(), 1);
    assert_eq!(niches.num_individuals(), 3);
    let back = niches.collapse();
    assert_eq!(back.len(), 3);
}

#[test]
fn add_niche_tracks_total() {
    let mut niches: Niches<u32> = Niches::new();
    assert_eq!(niches.num_niches(), 0);
    assert_eq!(niches.num_individuals(), 0);
    niches.add_niche(Niche::from_individual(Individual::from_rated_genome(Box::new(1u32), 1)));
    let pop = rated_from(&[(5, 5), (6, 6)]);
    niches.add_niche(Niche::from_population(pop));
    assert_eq!(niches.num_niches(), 2);
    assert_eq!(niches.num_individuals(), 3);
}

#[test]
fn partition_conserves_population() {
    // genomes 0 and 1 are within the threshold of each other; 100 and 101
    // form a second cluster far from the first
    let pop = rated_from(&[(0, 1), (1, 2), (100, 3), (101, 4)]);
    let mut rng = RandomSource::from_seed(7);
    let niches = pop.partition(&mut rng, 10, &AbsoluteDifference);
    assert_eq!(niches.num_niches(), 2);
    assert_eq!(niches.num_individuals(), 4);
    let collapsed = niches.collapse();
    assert_eq!(collapsed.len(), 4);
    let mut genomes: Vec<u32> = collapsed.into_vec().iter().map(|i| *i.genome()).collect();
    genomes.sort();
    assert_eq!(genomes, vec![0, 1, 100, 101]);
}

#[test]
fn partition_distance_equal_threshold_never_matches() {
    // distance exactly 10 with threshold 10: strictly-less comparison, so
    // the second individual opens a new niche
    let pop = rated_from(&[(0, 1), (10, 2)]);
    let mut rng = RandomSource::from_seed(1);
    let niches = pop.partition(&mut rng, 10, &AbsoluteDifference);
    assert_eq!(niches.num_niches(), 2);
}

#[test]
fn partition_first_match_wins_over_best_match() {
    // 52 is within the threshold of both clusters, nearer to 100, but the
    // niche created first (around 0) is scanned first and wins
    let pop = rated_from(&[(0, 1), (100, 2), (52, 3)]);
    let mut rng = RandomSource::from_seed(2);
    let niches = pop.partition(&mut rng, 60, &AbsoluteDifference);
    assert_eq!(niches.num_niches(), 2);
    let collapsed = niches.collapse().into_vec();
    // niche order is creation order, so the flat sequence is [0, 52, 100]
    let genomes: Vec<u32> = collapsed.iter().map(|i| *i.genome()).collect();
    assert_eq!(genomes, vec![0, 52, 100]);
}

#[test]
fn find_first_matching_niche_reports_index() {
    let mut niches: Niches<u32> = Niches::new();
    niches.add_niche(Niche::from_individual(Individual::from_rated_genome(Box::new(0u32), 1)));
    niches.add_niche(Niche::from_individual(Individual::from_rated_genome(Box::new(50u32), 1)));
    let mut rng = RandomSource::from_seed(0);
    let probe = Individual::from_rated_genome(Box::new(49u32), 1);
    let hit = niches.find_first_matching_niche(&probe, 5, &AbsoluteDifference, &mut rng);
    assert_eq!(hit, Some(1));
    let miss = niches.find_first_matching_niche(&probe, 1, &AbsoluteDifference, &mut rng);
    assert_eq!(miss, None);
}

#[test]
fn niche_share_proportional_scenario() {
    // three niches of mean fitness [10, 0, 0], total mean 10, target 100:
    // shares are [100, 0, 0] individuals, exactly
    let (n, d) = niche_share(100, 10, 10, 3);
    assert_eq!((n, d), (1000, 10));
    assert_eq!(n / d, 100);
    assert_eq!(n % d, 0);
    let (n, d) = niche_share(100, 0, 10, 3);
    assert_eq!((n, d), (0, 10));
    let (n, d) = niche_share(100, 7, 0, 4);
    assert_eq!((n, d), (100, 4));
}

#[test]
fn total_mean_sums_niche_means() {
    let pop = rated_from(&[(0, 10), (1000, 0), (2000, 0)]);
    let mut rng = RandomSource::from_seed(3);
    let niches = pop.partition(&mut rng, 1, &AbsoluteDifference);
    assert_eq!(niches.num_niches(), 3);
    assert_eq!(niches.total_mean(), 10);
}

#[test]
fn reproduce_global_proportional_counts() {
    // means [10, 0, 0], target 100, elite share 0, selection share 1:
    // the fit niche gets the whole offspring budget, every niche still
    // keeps one elite
    let pop = rated_from(&[(0, 10), (1000, 0), (2000, 0)]);
    let mut rng = RandomSource::from_seed(4);
    let niches = pop.partition(&mut rng, 1, &AbsoluteDifference);
    let mut mate = BestParent;
    let (rated, unrated) = niches.reproduce_global(
        100,
        Fraction::new(0, 1),
        Fraction::new(1, 1),
        &mut mate,
        &mut rng,
    );
    assert_eq!(rated.len(), 3);
    assert_eq!(unrated.len(), 100);
}

#[test]
fn reproduce_global_zero_fitness_splits_equally() {
    // two niches of unequal size, every fitness zero: the target is split
    // 50/50 between them, not proportionally to niche size
    let pop = rated_from(&[(0, 0), (1, 0), (2, 0), (1000, 0)]);
    let mut rng = RandomSource::from_seed(5);
    let niches = pop.partition(&mut rng, 10, &AbsoluteDifference);
    assert_eq!(niches.num_niches(), 2);
    assert_eq!(niches.total_mean(), 0);
    let mut mate = BestParent;
    let (rated, unrated) = niches.reproduce_global(
        100,
        Fraction::new(0, 1),
        Fraction::new(1, 1),
        &mut mate,
        &mut rng,
    );
    // each niche: share 100/2 = 50 exactly, one forced elite, 50 offspring
    assert_eq!(rated.len(), 2);
    assert_eq!(unrated.len(), 100);
}
