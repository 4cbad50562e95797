use evopop::individual::Individual;
use evopop::mate::{BestParent, IdentityFitness};
use evopop::population::{Population, Rated, Unrated};
use evopop::random::RandomSource;
use evopop::fraction::Fraction;

fn unrated_from(genomes: &[u32]) -> Population<u32, Unrated> {
    let mut pop: Population<u32, Unrated> = Population::new();
    for g in genomes {
        pop.add_genome(Box::new(*g));
    }
    pop
}

fn rated_from(pairs: &[(u32, u32)]) -> Population<u32, Rated> {
    let mut pop: Population<u32, Rated> = Population::new();
    for (g, f) in pairs {
        pop.add_individual(Individual::from_rated_genome(Box::new(*g), *f));
    }
    pop
}

#[test]
fn individual_accessors() {
    let unrated: Individual<u32> = Individual::from_genome(Box::new(7));
    assert!(!unrated.has_fitness());
    assert_eq!(*unrated.genome(), 7);
    let rated = unrated.with_fitness(42);
    assert!(rated.has_fitness());
    assert_eq!(rated.fitness(), 42);
    assert_eq!(*rated.genome(), 7);
}

#[test]
fn rate_seq_attaches_fitness_to_all() {
    let pop = unrated_from(&[3, 1, 4, 1, 5]);
    assert_eq!(pop.len(), 5);
    let rated = pop.rate_seq(&IdentityFitness);
    assert_eq!(rated.len(), 5);
    let v = rated.into_vec();
    for (i, ind) in v.iter().enumerate() {
        assert!(ind.has_fitness());
        assert_eq!(*ind.genome(), [3, 1, 4, 1, 5][i]);
        assert_eq!(ind.fitness(), *ind.genome());
    }
}

#[test]
fn rate_par_matches_rate_seq() {
    let genomes: Vec<u32> = (0..50).collect();
    let seq = unrated_from(&genomes).rate_seq(&IdentityFitness).into_vec();
    let par = unrated_from(&genomes).rate_par(&IdentityFitness).into_vec();
    assert_eq!(seq.len(), par.len());
    for (a, b) in seq.iter().zip(par.iter()) {
        assert_eq!(*a.genome(), *b.genome());
        assert_eq!(a.fitness(), b.fitness());
    }
}

#[test]
fn sort_is_descending_and_stable() {
    // fitness [5, 3, 3, 1, 0]; the two fitness-3 individuals carry genomes
    // 31 and 32 so their relative order is observable
    let pop = rated_from(&[(50, 5), (31, 3), (32, 3), (10, 1), (0, 0)]);
    let sorted = pop.sort();
    let best = sorted.best_individual().unwrap();
    assert_eq!(best.fitness(), 5);
    assert_eq!(*best.genome(), 50);
    let v = sorted.into_vec();
    let fits: Vec<u32> = v.iter().map(|i| i.fitness()).collect();
    assert_eq!(fits, vec![5, 3, 3, 1, 0]);
    let genomes: Vec<u32> = v.iter().map(|i| *i.genome()).collect();
    assert_eq!(genomes, vec![50, 31, 32, 10, 0]);
}

#[test]
fn best_individual_scans_unsorted() {
    let pop = rated_from(&[(1, 10), (2, 99), (3, 50)]);
    let best = pop.best_individual().unwrap();
    assert_eq!(best.fitness(), 99);
    assert_eq!(*best.genome(), 2);
    let empty: Population<u32, Rated> = Population::new();
    assert!(empty.best_individual().is_none());
}

#[test]
fn mean_fitness_exact() {
    let pop = rated_from(&[(0, 4), (1, 6)]);
    assert_eq!(pop.mean_fitness(), 5);
    let single = rated_from(&[(0, 10)]);
    assert_eq!(single.mean_fitness(), 10);
}

#[test]
fn merge_takes_best_n() {
    let sorted = rated_from(&[(1, 9), (2, 7), (3, 5)]).sort();
    let mut pool = rated_from(&[(0, 1)]);
    pool.merge(sorted, 2);
    let v = pool.into_vec();
    assert_eq!(v.len(), 3);
    assert_eq!(v[1].fitness(), 9);
    assert_eq!(v[2].fitness(), 7);
}

#[test]
fn append_keeps_everything() {
    let mut a = rated_from(&[(1, 1), (2, 2)]);
    let b = rated_from(&[(3, 3)]);
    a.append(b);
    assert_eq!(a.len(), 3);
}

#[test]
fn select_parents_single_candidate_coincides() {
    let sorted = rated_from(&[(7, 3), (8, 2)]).sort();
    let mut rng = RandomSource::from_seed(11);
    let (p1, p2) = sorted.select_parents(1, &mut rng);
    assert_eq!((p1, p2), (0, 0));
    for _ in 0..100 {
        let (a, b) = sorted.select_parents(2, &mut rng);
        assert!(a <= b && b < 2);
    }
}

#[test]
fn single_offspring_self_mates_when_pool_is_one() {
    // select_size = 1 forces both parent draws to index 0 — the contract
    // of create_single_offspring states the self-mated pairing of rank 0
    // with itself — and the best-parent operator hands that genome back
    let sorted = rated_from(&[(77, 9), (5, 1)]).sort();
    let mut rng = RandomSource::from_seed(3);
    let mut mate = BestParent;
    let off = sorted.create_single_offspring(1, &mut mate, &mut rng);
    assert_eq!(off, 77);
}

#[test]
fn reproduce_keeps_exact_elites() {
    // target 10, elite 1/2, selection 1/2: elite_size = round(5) = 5
    // exactly, offspring_size = round(5) = 5 exactly, select = min(6, 5)
    let pop = rated_from(&[(1, 60), (2, 50), (3, 40), (4, 30), (5, 20), (6, 10)]);
    let mut rng = RandomSource::from_seed(42);
    let mut mate = BestParent;
    let (rated, unrated) = pop.reproduce(
        10,
        1,
        Fraction::new(1, 2),
        Fraction::new(1, 2),
        &mut mate,
        &mut rng,
    );
    assert_eq!(rated.len(), 5);
    assert_eq!(unrated.len(), 5);
    let elites = rated.into_vec();
    let fits: Vec<u32> = elites.iter().map(|i| i.fitness()).collect();
    assert_eq!(fits, vec![60, 50, 40, 30, 20]);
    for ind in unrated.into_vec() {
        assert!(!ind.has_fitness());
    }
}

#[test]
fn reproduce_elite_never_empty() {
    // elite fraction 0 still copies one elite forward
    let pop = rated_from(&[(1, 5), (2, 4)]);
    let mut rng = RandomSource::from_seed(9);
    let mut mate = BestParent;
    let (rated, unrated) = pop.reproduce(
        4,
        1,
        Fraction::new(0, 1),
        Fraction::new(1, 1),
        &mut mate,
        &mut rng,
    );
    assert_eq!(rated.len(), 1);
    let best = rated.into_vec();
    assert_eq!(best[0].fitness(), 5);
    // offspring share is round(4 * (1 - 0)) = 4 exactly
    assert_eq!(unrated.len(), 4);
}

#[test]
fn new_from_vec_round_trip() {
    let v = vec![
        Individual::from_rated_genome(Box::new(1u32), 8),
        Individual::from_rated_genome(Box::new(2u32), 6),
    ];
    let pop: Population<u32, Rated> = Population::new_from_vec(v);
    assert_eq!(pop.len(), 2);
    assert_eq!(pop.get(1).fitness(), 6);
}
