//! The population state machine. A population is an ordered sequence of
//! individuals carrying a phantom lifecycle tag — `Unrated`, `Rated`, or
//! `RatedSorted` — that determines which operations are legal. Transitions
//! are one-way and consume their input: rating attaches a fitness to every
//! individual, sorting orders a rated population by non-increasing fitness.

use vstd::prelude::*;
use std::marker::PhantomData;
use rayon::iter::{IntoParallelRefIterator, ParallelIterator};
use crate::fraction::Fraction;
use crate::prob::{probabilistic_round_wide, rounds_to};
use crate::individual::{Fitness, Individual};
use crate::mate::{Evaluate, Mate};
use crate::random::RandomSource;
use crate::sorting::{
    insert_desc, lemma_insert_desc_at, lemma_insert_desc_sorted, lemma_stable_sort_all_rated,
    lemma_stable_sort_len, sorted_desc, stable_sort,
};

verus! {

/// Every individual carries a fitness.
pub open spec fn all_rated<T>(s: Seq<Individual<T>>) -> bool {
    forall|i: int| 0 <= i < s.len() ==> s[i].fitness_spec() is Some
}

/// No individual carries a fitness.
pub open spec fn all_unrated<T>(s: Seq<Individual<T>>) -> bool {
    forall|i: int| 0 <= i < s.len() ==> s[i].fitness_spec() is None
}

/// The sum of all fitness values.
pub open spec fn sum_fitness<T>(s: Seq<Individual<T>>) -> int
    decreases s.len(),
{
    if s.len() == 0 {
        0
    } else {
        sum_fitness(s.drop_last()) + s.last().fit()
    }
}

/// The mean fitness, in the integer arithmetic of the fitness type.
pub open spec fn mean_fitness_spec<T>(s: Seq<Individual<T>>) -> int {
    sum_fitness(s) / s.len() as int
}

pub proof fn lemma_sum_fitness_bounds<T>(s: Seq<Individual<T>>)
    ensures
        0 <= sum_fitness(s) <= s.len() * 0xffff_ffff,
    decreases s.len(),
{
    if s.len() > 0 {
        lemma_sum_fitness_bounds(s.drop_last());
    }
}

/// All individuals have fitness zero.
pub open spec fn all_zero_fitness<T>(s: Seq<Individual<T>>) -> bool {
    forall|i: int| 0 <= i < s.len() ==> s[i].fit() == 0
}

/// A population of all-zero fitness sums — and therefore means — to zero.
pub proof fn lemma_zero_fitness_zero_sum<T>(s: Seq<Individual<T>>)
    requires
        all_zero_fitness(s),
    ensures
        sum_fitness(s) == 0,
    decreases s.len(),
{
    if s.len() > 0 {
        assert(all_zero_fitness(s.drop_last()));
        lemma_zero_fitness_zero_sum(s.drop_last());
    }
}

/// The genome `g` is an outcome the mating operator allows for some pair
/// of parents drawn from the best `ss` of the pool (best first, flagged
/// when the pair coincides).
pub open spec fn bred_from<T, M: Mate<T>>(pool: Seq<Individual<T>>, ss: int, g: T) -> bool {
    exists|i: int, j: int|
        0 <= i <= j < ss && M::mate_rel(
            (#[trigger] pool[i]).genome_spec(),
            (#[trigger] pool[j]).genome_spec(),
            i == j,
            g,
        )
}

/// The smaller of two integers.
pub open spec fn min_int(a: int, b: int) -> int {
    if a < b {
        a
    } else {
        b
    }
}

/// What one run of reproduction guarantees, for some stochastic draws
/// `es` (elite count), `os` (offspring count) and `ss` (breeding-pool
/// size): `es` is `round(target * elite)` forced up to at least one;
/// `os` rounds `target * (1 - elite)` — driven by the elite fraction
/// alone, by design; `ss` rounds `target * selection`, capped by the
/// population size; the rated result is exactly the best `es` of the
/// stable descending sort of the input; offspring exist only when the
/// breeding pool is non-empty; and every offspring genome is an outcome
/// of the mating operator on two parents drawn from the best `ss`.
pub open spec fn reproduce_outcome<T, M: Mate<T>>(
    input: Seq<Individual<T>>,
    t_num: int,
    t_den: int,
    elite: Fraction,
    selection: Fraction,
    es: int,
    os: int,
    ss: int,
    rated: Seq<Individual<T>>,
    unrated: Seq<Individual<T>>,
) -> bool {
    &&& (exists|e0: int|
        #[trigger] rounds_to(t_num * elite.num_spec(), t_den * elite.den_spec(), e0)
            && es == if e0 < 1 { 1int } else { e0 })
    &&& rounds_to(t_num * (elite.den_spec() - elite.num_spec()), t_den * elite.den_spec(), os)
    &&& (exists|s0: int|
        #[trigger] rounds_to(t_num * selection.num_spec(), t_den * selection.den_spec(), s0)
            && ss == min_int(s0, input.len() as int))
    &&& es >= 1
    &&& rated == stable_sort(input).take(min_int(es, input.len() as int))
    &&& (ss > 0 ==> unrated.len() == os)
    &&& (ss == 0 ==> unrated.len() == 0)
    &&& all_unrated(unrated)
    &&& all_rated(rated)
    &&& (forall|k: int|
        0 <= k < unrated.len() ==> bred_from::<T, M>(
            stable_sort(input),
            ss,
            (#[trigger] unrated[k]).genome_spec(),
        ))
}

/// The lifecycle tag of a population.
pub trait Rating {

}

/// Tags whose populations carry a fitness on every individual.
pub trait IsRated: Rating {

}

/// Tags whose populations are additionally sorted by descending fitness.
pub trait IsRatedSorted: IsRated {

}

#[derive(Debug)]
pub struct Unrated;

#[derive(Debug)]
pub struct Rated;

#[derive(Debug)]
pub struct RatedSorted;

impl Rating for Unrated {

}

impl Rating for Rated {

}

impl Rating for RatedSorted {

}

impl IsRated for Rated {

}

impl IsRated for RatedSorted {

}

impl IsRatedSorted for RatedSorted {

}

/// An ordered sequence of individuals, tagged with a lifecycle state.
/// The tag is advisory at construction (`new_from_vec` trusts its caller);
/// every operation states the rating facts it needs and maintains.
#[derive(Debug)]
pub struct Population<T, R: Rating> {
    individuals: Vec<Individual<T>>,
    _marker: PhantomData<R>,
}

impl<T, R: Rating> View for Population<T, R> {
    type V = Seq<Individual<T>>;

    closed spec fn view(&self) -> Seq<Individual<T>> {
        self.individuals@
    }
}

impl<T, R: Rating> Population<T, R> {
    pub fn new() -> (r: Population<T, R>)
        ensures
            r@ == Seq::<Individual<T>>::empty(),
            r@.len() == 0,
    {
        Population { individuals: Vec::new(), _marker: PhantomData }
    }

    /// Wraps a vector of individuals; the caller is responsible for the
    /// invariant of the state it chooses.
    pub fn new_from_vec(v: Vec<Individual<T>>) -> (r: Population<T, R>)
        ensures
            r@ == v@,
    {
        Population { individuals: v, _marker: PhantomData }
    }

    pub fn len(&self) -> (r: usize)
        ensures
            r == self@.len(),
    {
        self.individuals.len()
    }

    pub fn get(&self, i: usize) -> (r: &Individual<T>)
        requires
            i < self@.len(),
        ensures
            *r == self@[i as int],
    {
        &self.individuals[i]
    }

    /// Surrenders the individuals, in order.
    pub fn into_vec(self) -> (r: Vec<Individual<T>>)
        ensures
            r@ == self@,
    {
        self.individuals
    }
}

impl<T> Population<T, Unrated> {
    /// Appends an individual with no fitness around the given genome.
    pub fn add_genome(&mut self, genome: Box<T>)
        ensures
            final(self)@.len() == old(self)@.len() + 1,
            final(self)@ == old(self)@.push(final(self)@.last()),
            final(self)@.last().fitness_spec() is None,
            final(self)@.last().genome_spec() == *genome,
    {
        self.individuals.push(Individual::from_genome(genome));
    }

    /// Rates every individual in sequence: the result holds the same
    /// genomes in the same order, each carrying exactly the evaluator's
    /// fitness for its genome.
    pub fn rate_seq<F: Evaluate<T>>(self, f: &F) -> (r: Population<T, Rated>)
        ensures
            r@.len() == self@.len(),
            forall|i: int| 0 <= i < r@.len() ==> (#[trigger] r@[i]).genome_spec()
                == self@[i].genome_spec(),
            forall|i: int| 0 <= i < r@.len() ==> (#[trigger] r@[i]).fitness_spec()
                == Some(f.spec_fitness(self@[i].genome_spec())),
            all_rated(r@),
    {
        let ghost orig = self@;
        let mut v = self.individuals;
        let mut out: Vec<Individual<T>> = Vec::new();
        proof {
            assert(v@ =~= orig.skip(0));
        }
        while v.len() > 0
            invariant
                out@.len() + v@.len() == orig.len(),
                v@ == orig.skip(out@.len() as int),
                forall|i: int| 0 <= i < out@.len() ==> (#[trigger] out@[i]).genome_spec()
                    == orig[i].genome_spec(),
                forall|i: int| 0 <= i < out@.len() ==> (#[trigger] out@[i]).fitness_spec()
                    == Some(f.spec_fitness(orig[i].genome_spec())),
            decreases v@.len(),
        {
            let ghost k = out@.len() as int;
            let ind = v.remove(0);
            proof {
                assert(ind == orig[k]);
                assert(v@ =~= orig.skip(k + 1));
            }
            let fit = f.evaluate(ind.genome());
            out.push(ind.with_fitness(fit));
        }
        Population { individuals: out, _marker: PhantomData }
    }

    /// Rates every individual with a data-parallel map over the genomes.
    /// The contract equals `rate_seq`'s — the evaluator is pure and the
    /// parallel path draws no randomness, so the two are interchangeable.
    pub fn rate_par<F: Evaluate<T> + Sync>(self, f: &F) -> (r: Population<T, Rated>)
        where T: Sync,
        ensures
            r@.len() == self@.len(),
            forall|i: int| 0 <= i < r@.len() ==> (#[trigger] r@[i]).genome_spec()
                == self@[i].genome_spec(),
            forall|i: int| 0 <= i < r@.len() ==> (#[trigger] r@[i]).fitness_spec()
                == Some(f.spec_fitness(self@[i].genome_spec())),
            all_rated(r@),
    {
        let ghost orig = self@;
        let fits = par_fitness_values(&self.individuals, f);
        let mut v = self.individuals;
        let mut out: Vec<Individual<T>> = Vec::new();
        proof {
            assert(v@ =~= orig.skip(0));
        }
        while v.len() > 0
            invariant
                out@.len() + v@.len() == orig.len(),
                v@ == orig.skip(out@.len() as int),
                fits@.len() == orig.len(),
                forall|i: int| 0 <= i < orig.len() ==> (#[trigger] fits@[i])
                    == f.spec_fitness(orig[i].genome_spec()),
                forall|i: int| 0 <= i < out@.len() ==> (#[trigger] out@[i]).genome_spec()
                    == orig[i].genome_spec(),
                forall|i: int| 0 <= i < out@.len() ==> (#[trigger] out@[i]).fitness_spec()
                    == Some(f.spec_fitness(orig[i].genome_spec())),
            decreases v@.len(),
        {
            let ghost k = out@.len() as int;
            let ind = v.remove(0);
            proof {
                assert(ind == orig[k]);
                assert(v@ =~= orig.skip(k + 1));
            }
            let fit = fits[out.len()];
            out.push(ind.with_fitness(fit));
        }
        Population { individuals: out, _marker: PhantomData }
    }
}

/// Relies on rayon's `par_iter`/`map`/`collect`: the map runs the pure
/// evaluator once per individual on worker threads, and collecting an
/// indexed parallel iterator into a `Vec` keeps the input order — the
/// result holds, at each index, the evaluator's fitness for the genome at
/// that index.
#[verifier::external_body]
fn par_fitness_values<T: Sync, F: Evaluate<T> + Sync>(
    inds: &Vec<Individual<T>>,
    f: &F,
) -> (r: Vec<Fitness>)
    ensures
        r@.len() == inds@.len(),
        forall|i: int| 0 <= i < inds@.len() ==> (#[trigger] r@[i])
            == f.spec_fitness(inds@[i].genome_spec()),
{
    inds.par_iter().map(|ind| f.evaluate(ind.genome())).collect()
}

impl<T, R: IsRated> Population<T, R> {
    /// The mean fitness — the fitness sum over the size, in the integer
    /// arithmetic of the fitness type. Requires a non-empty population.
    pub fn mean_fitness(&self) -> (r: Fitness)
        requires
            self@.len() > 0,
            all_rated(self@),
        ensures
            r == mean_fitness_spec(self@),
    {
        let n = self.individuals.len();
        let mut sum: u128 = 0;
        let mut i: usize = 0;
        proof {
            assert(self@.take(0) =~= Seq::<Individual<T>>::empty());
        }
        while i < n
            invariant
                i <= n,
                n == self@.len(),
                all_rated(self@),
                sum == sum_fitness(self@.take(i as int)),
                sum <= i * 0xffff_ffff,
            decreases n - i,
        {
            let f = self.individuals[i].fitness();
            proof {
                assert(self@.take(i + 1).drop_last() =~= self@.take(i as int));
                assert(self@.take(i + 1).last() == self@[i as int]);
            }
            sum = sum + f as u128;
            i += 1;
        }
        proof {
            assert(self@.take(n as int) =~= self@);
            assert(sum / (n as u128) <= 0xffff_ffff) by (nonlinear_arith)
                requires
                    n > 0,
                    sum <= n * 0xffff_ffff,
            ;
        }
        (sum / (n as u128)) as u32
    }

}

impl<T> Population<T, Rated> {
    /// Returns some maximum-fitness individual (ties unspecified), or
    /// `None` on an empty population.
    pub fn best_individual(&self) -> (r: Option<&Individual<T>>)
        requires
            all_rated(self@),
        ensures
            match r {
                None => self@.len() == 0,
                Some(ind) => (exists|i: int| 0 <= i < self@.len() && self@[i] == *ind)
                    && (forall|j: int| 0 <= j < self@.len() ==> self@[j].fit() <= ind.fit()),
            },
    {
        if self.individuals.len() == 0 {
            return None;
        }
        let mut best: usize = 0;
        let mut i: usize = 1;
        while i < self.individuals.len()
            invariant
                best < i <= self@.len(),
                all_rated(self@),
                forall|j: int| 0 <= j < i ==> self@[j].fit() <= self@[best as int].fit(),
            decreases self@.len() - i,
        {
            if self.individuals[i].fitness() > self.individuals[best].fitness() {
                best = i;
            }
            i += 1;
        }
        Some(&self.individuals[best])
    }
}

impl<T> Population<T, Rated> {
    /// Appends an already-rated individual.
    pub fn add_individual(&mut self, ind: Individual<T>)
        requires
            ind.fitness_spec() is Some,
        ensures
            final(self)@ == old(self)@.push(ind),
    {
        self.individuals.push(ind);
    }

    /// The stable sort by non-increasing fitness: the result is exactly
    /// `stable_sort(self@)` — sorted, a permutation of the input, and with
    /// ties in their original relative order.
    pub fn sort(self) -> (r: Population<T, RatedSorted>)
        requires
            all_rated(self@),
        ensures
            r@ == stable_sort(self@),
            r@.len() == self@.len(),
            sorted_desc(r@),
            all_rated(r@),
    {
        let ghost orig = self@;
        let mut v = self.individuals;
        let mut out: Vec<Individual<T>> = Vec::new();
        proof {
            assert(orig.take(0) =~= Seq::<Individual<T>>::empty());
            assert(v@ =~= orig.skip(0));
            lemma_stable_sort_len(orig);
        }
        while v.len() > 0
            invariant
                out@.len() + v@.len() == orig.len(),
                v@ == orig.skip(out@.len() as int),
                out@ == stable_sort(orig.take(out@.len() as int)),
                all_rated(orig),
                sorted_desc(out@),
                all_rated(out@),
            decreases v@.len(),
        {
            let ghost k = out@.len() as int;
            let x = v.remove(0);
            proof {
                assert(x == orig[k]);
                assert(v@ =~= orig.skip(k + 1));
            }
            let xf = x.fitness();
            let mut j: usize = 0;
            while j < out.len() && out[j].fitness() >= xf
                invariant
                    j <= out@.len(),
                    all_rated(out@),
                    xf == x.fit(),
                    forall|t: int| 0 <= t < j ==> out@[t].fit() >= x.fit(),
                decreases out@.len() - j,
            {
                j += 1;
            }
            let ghost out0 = out@;
            out.insert(j, x);
            proof {
                lemma_insert_desc_at(out0, x, j as int);
                assert(out@ =~= out0.take(j as int) + seq![x] + out0.skip(j as int));
                assert(orig.take(k + 1).drop_last() =~= orig.take(k));
                assert(orig.take(k + 1).last() == orig[k]);
                assert(out@ == insert_desc(stable_sort(orig.take(k)), orig[k]));
                assert(out@ == stable_sort(orig.take(k + 1)));
                lemma_insert_desc_sorted(out0, x);
            }
        }
        proof {
            assert(orig.take(orig.len() as int) =~= orig);
        }
        Population { individuals: out, _marker: PhantomData }
    }

    /// Merges the first `n` individuals — the best `n` — of a sorted
    /// population into this one.
    pub fn merge(&mut self, other: Population<T, RatedSorted>, n: usize)
        ensures
            final(self)@ == old(self)@ + other@.take(
                if n <= other@.len() { n as int } else { other@.len() as int },
            ),
    {
        let mut v = other.individuals;
        let ghost oth = v@;
        while v.len() > n
            invariant
                v@ == oth.take(v@.len() as int),
                v@.len() <= oth.len(),
                n <= v@.len() || v@.len() == oth.len(),
            decreases v@.len(),
        {
            let ghost pre = v@;
            let _ = v.pop();
            proof {
                assert(pre.drop_last() =~= oth.take(pre.len() - 1));
            }
        }
        proof {
            if n > oth.len() {
                assert(oth.take(oth.len() as int) =~= oth);
            }
        }
        self.individuals.append(&mut v);
    }

    /// Appends all individuals of another rated-state population.
    pub fn append<X: IsRated>(&mut self, other: Population<T, X>)
        ensures
            final(self)@ == old(self)@ + other@,
    {
        let mut v = other.individuals;
        self.individuals.append(&mut v);
    }
}

impl<T> Population<T, RatedSorted> {
    /// The best individual of a sorted population: its first element.
    pub fn best_individual(&self) -> (r: Option<&Individual<T>>)
        ensures
            match r {
                None => self@.len() == 0,
                Some(ind) => self@.len() > 0 && *ind == self@[0],
            },
    {
        if self.individuals.len() == 0 {
            None
        } else {
            Some(&self.individuals[0])
        }
    }

    /// Draws two parent ranks from the best `select_size` individuals:
    /// uniform draws, up to three redraws of the second aiming for
    /// distinctness, then ordered so the first is the equal-or-better rank.
    /// A coincident pair after the redraws is a valid outcome (self-mating).
    pub fn select_parents(
        &self,
        select_size: usize,
        rng: &mut RandomSource,
    ) -> (p: (usize, usize))
        requires
            0 < select_size <= self@.len(),
        ensures
            p.0 <= p.1 < select_size,
            select_size == 1 ==> p.0 == 0 && p.1 == 0,
    {
        let mut parent1 = rng.below_usize(select_size);
        let mut parent2 = rng.below_usize(select_size);
        let mut retry: usize = 0;
        while retry < 3
            invariant
                parent1 < select_size,
                parent2 < select_size,
            decreases 3 - retry,
        {
            if parent2 != parent1 {
                break;
            }
            parent2 = rng.below_usize(select_size);
            retry += 1;
        }
        if parent1 > parent2 {
            let t = parent1;
            parent1 = parent2;
            parent2 = t;
        }
        (parent1, parent2)
    }

    /// Creates one offspring genome from two parents drawn among the best
    /// `select_size` individuals. The mating operator receives the better
    /// (lower-ranked) parent first, is told when the pair coincides
    /// (self-mating), and its outcome on those two genomes is returned; a
    /// pool of one forces a self-mated pairing of rank 0 with itself.
    pub fn create_single_offspring<M: Mate<T>>(
        &self,
        select_size: usize,
        mate: &mut M,
        rng: &mut RandomSource,
    ) -> (r: T)
        requires
            0 < select_size <= self@.len(),
        ensures
            bred_from::<T, M>(self@, select_size as int, r),
            select_size == 1 ==> M::mate_rel(
                self@[0].genome_spec(),
                self@[0].genome_spec(),
                true,
                r,
            ),
    {
        let (parent1, parent2) = self.select_parents(select_size, rng);
        mate.mate(
            self.individuals[parent1].genome(),
            self.individuals[parent2].genome(),
            parent1 == parent2,
            rng,
        )
    }
}

impl<T> Population<T, Rated> {
    /// Reproduces this population towards the real-valued target size
    /// `t_num / t_den`, accumulating elites into `new_rated` and offspring
    /// into `new_unrated`. Returns the drawn (elite, offspring, pool) sizes.
    pub(crate) fn reproduce_into<M: Mate<T>>(
        self,
        t_num: u128,
        t_den: u128,
        elite: Fraction,
        selection: Fraction,
        mate: &mut M,
        new_unrated: &mut Population<T, Unrated>,
        new_rated: &mut Population<T, Rated>,
        rng: &mut RandomSource,
    ) -> (sizes: (u128, u128, usize))
        requires
            all_rated(self@),
            0 < t_den < 0x1000000000000000000000000,
            t_num < 0x1000000000000000000000000,
            elite.wf(),
            selection.wf(),
            elite.le_spec(selection),
            all_unrated(old(new_unrated)@),
            all_rated(old(new_rated)@),
        ensures
            reproduce_outcome::<T, M>(
                self@,
                t_num as int,
                t_den as int,
                elite,
                selection,
                sizes.0 as int,
                sizes.1 as int,
                sizes.2 as int,
                final(new_rated)@.skip(old(new_rated)@.len() as int),
                final(new_unrated)@.skip(old(new_unrated)@.len() as int),
            ),
            final(new_rated)@.take(old(new_rated)@.len() as int) == old(new_rated)@,
            final(new_unrated)@.take(old(new_unrated)@.len() as int) == old(new_unrated)@,
            old(new_rated)@.len() <= final(new_rated)@.len(),
            old(new_unrated)@.len() <= final(new_unrated)@.len(),
            all_rated(final(new_rated)@),
            all_unrated(final(new_unrated)@),
            self@.len() > 0 ==> final(new_rated)@.len() >= old(new_rated)@.len() + 1,
    {
        let en: u128 = elite.num() as u128;
        let ed: u128 = elite.den() as u128;
        let sn: u128 = selection.num() as u128;
        let sd: u128 = selection.den() as u128;
        proof {
            assert(t_num * en < 0x100000000000000000000000000000000
                && t_num * (ed - en) < 0x100000000000000000000000000000000
                && t_num * sn < 0x100000000000000000000000000000000
                && t_den * ed < 0x100000000000000000000000000000000
                && t_den * sd < 0x100000000000000000000000000000000
                && t_den * ed > 0
                && t_den * sd > 0) by (nonlinear_arith)
                requires
                    t_num < 0x1000000000000000000000000,
                    0 < t_den < 0x1000000000000000000000000,
                    en <= ed,
                    en <= 0xffff_ffff,
                    0 < ed <= 0xffff_ffff,
                    sn <= 0xffff_ffff,
                    0 < sd <= 0xffff_ffff,
            ;
        }
        let e0 = probabilistic_round_wide(t_num * en, t_den * ed, rng);
        let elite_size: u128 = if e0 < 1 {
            1
        } else {
            e0
        };
        let offspring_size = probabilistic_round_wide(t_num * (ed - en), t_den * ed, rng);
        let s0 = probabilistic_round_wide(t_num * sn, t_den * sd, rng);
        let len = self.individuals.len();
        let select_size: usize = if s0 >= len as u128 {
            len
        } else {
            s0 as usize
        };
        let ghost input_seq = self@;
        let ghost base_unrated = new_unrated@;
        let ghost base_rated = new_rated@;
        let sorted_pop = self.sort();
        if select_size > 0 {
            let mut k: u128 = 0;
            while k < offspring_size
                invariant
                    k <= offspring_size,
                    0 < select_size <= sorted_pop@.len(),
                    sorted_pop@ == stable_sort(input_seq),
                    new_unrated@.len() == base_unrated.len() + k,
                    new_unrated@.take(base_unrated.len() as int) == base_unrated,
                    all_unrated(new_unrated@),
                    forall|t: int|
                        base_unrated.len() <= t < new_unrated@.len() ==> bred_from::<T, M>(
                            stable_sort(input_seq),
                            select_size as int,
                            (#[trigger] new_unrated@[t]).genome_spec(),
                        ),
                decreases offspring_size - k,
            {
                let ghost pre = new_unrated@;
                let off = sorted_pop.create_single_offspring(select_size, mate, rng);
                new_unrated.add_genome(Box::new(off));
                proof {
                    assert(new_unrated@.take(base_unrated.len() as int)
                        =~= pre.take(base_unrated.len() as int));
                    assert(forall|t: int|
                        base_unrated.len() <= t < pre.len() ==> new_unrated@[t] == pre[t]);
                    assert(new_unrated@.last().genome_spec() == off);
                    assert(bred_from::<T, M>(stable_sort(input_seq), select_size as int, off));
                }
                k = k + 1;
            }
        }
        let elite_n: usize = if elite_size >= len as u128 {
            len
        } else {
            elite_size as usize
        };
        let ghost rated_pre = new_rated@;
        new_rated.merge(sorted_pop, elite_n);
        proof {
            lemma_stable_sort_len(base_rated);
            lemma_stable_sort_all_rated(self@);
            lemma_stable_sort_len(self@);
            assert(final(new_rated)@.take(base_rated.len() as int) =~= base_rated);
            assert(final(new_rated)@.skip(base_rated.len() as int)
                =~= stable_sort(self@).take(min_int(elite_size as int, self@.len() as int)));
            assert(final(new_unrated)@.skip(base_unrated.len() as int).len()
                == final(new_unrated)@.len() - base_unrated.len());
            assert(final(new_unrated)@.take(base_unrated.len() as int) =~= base_unrated);
            let seg = final(new_unrated)@.skip(base_unrated.len() as int);
            assert forall|kk: int| 0 <= kk < seg.len() implies bred_from::<T, M>(
                stable_sort(input_seq),
                select_size as int,
                (#[trigger] seg[kk]).genome_spec(),
            ) by {
                assert(seg[kk] == final(new_unrated)@[base_unrated.len() + kk]);
            }
        }
        (elite_size, offspring_size, select_size)
    }

    /// Reproduces this population without niching: sorts it, copies the
    /// best `elite` share forward unchanged, and breeds the offspring share
    /// from the best `selection` share. The target size is the rational
    /// `target_num / target_den`; the result sizes are stochastic but
    /// unbiased around it.
    pub fn reproduce<M: Mate<T>>(
        self,
        target_num: u64,
        target_den: u64,
        elite: Fraction,
        selection: Fraction,
        mate: &mut M,
        rng: &mut RandomSource,
    ) -> (r: (Population<T, Rated>, Population<T, Unrated>))
        requires
            all_rated(self@),
            target_den > 0,
            elite.wf(),
            selection.wf(),
            elite.le_spec(selection),
        ensures
            exists|es: int, os: int, ss: int|
                reproduce_outcome::<T, M>(
                    self@,
                    target_num as int,
                    target_den as int,
                    elite,
                    selection,
                    es,
                    os,
                    ss,
                    r.0@,
                    r.1@,
                ),
    {
        let mut new_unrated: Population<T, Unrated> = Population::new();
        let mut new_rated: Population<T, Rated> = Population::new();
        let sizes = self.reproduce_into(
            target_num as u128,
            target_den as u128,
            elite,
            selection,
            mate,
            &mut new_unrated,
            &mut new_rated,
            rng,
        );
        let r = (new_rated, new_unrated);
        proof {
            assert(r.0@.skip(0) =~= r.0@);
            assert(r.1@.skip(0) =~= r.1@);
            assert(reproduce_outcome::<T, M>(
                self@,
                target_num as int,
                target_den as int,
                elite,
                selection,
                sizes.0 as int,
                sizes.1 as int,
                sizes.2 as int,
                r.0@,
                r.1@,
            ));
        }
        r
    }
}

} // verus!
