//! Speciation: niches (species) of mutually compatible individuals, the
//! greedy first-match partitioning of a population into niches, and the
//! proportional reproduction of all niches towards a global target size.

use vstd::prelude::*;
use vstd::multiset::Multiset;
use crate::fraction::Fraction;
use crate::individual::{Fitness, Individual};
use crate::mate::{Distance, Mate};
use crate::population::{
    all_rated, all_unrated, all_zero_fitness, lemma_sum_fitness_bounds,
    lemma_zero_fitness_zero_sum, mean_fitness_spec, reproduce_outcome, sum_fitness, Population,
    Rated, Unrated,
};
use crate::random::RandomSource;

verus! {

/// One species: a non-empty rated sub-population, plus an optional index
/// designating the representative (centroid) individual against which new
/// candidates are compared. The centroid is a plain back-reference, never
/// an owning handle, and is never computed by the engine itself.
#[derive(Debug)]
pub struct Niche<T> {
    population: Population<T, Rated>,
    centroid: Option<usize>,
}

impl<T> View for Niche<T> {
    type V = Seq<Individual<T>>;

    closed spec fn view(&self) -> Seq<Individual<T>> {
        self.population@
    }
}

impl<T> Niche<T> {
    pub closed spec fn centroid_spec(&self) -> Option<usize> {
        self.centroid
    }

    /// A niche always holds at least one individual, every one rated.
    pub open spec fn wf(self) -> bool {
        self@.len() > 0 && all_rated(self@)
    }

    pub fn from_population(pop: Population<T, Rated>) -> (r: Niche<T>)
        requires
            pop@.len() > 0,
            all_rated(pop@),
        ensures
            r@ == pop@,
            r.centroid_spec() is None,
            r.wf(),
    {
        Niche { population: pop, centroid: None }
    }

    pub fn from_individual(ind: Individual<T>) -> (r: Niche<T>)
        requires
            ind.fitness_spec() is Some,
        ensures
            r@ == seq![ind],
            r.centroid_spec() is None,
            r.wf(),
    {
        let mut pop: Population<T, Rated> = Population::new();
        pop.add_individual(ind);
        proof {
            assert(pop@ =~= seq![ind]);
        }
        Niche { population: pop, centroid: None }
    }

    pub fn len(&self) -> (r: usize)
        ensures
            r == self@.len(),
    {
        self.population.len()
    }

    pub fn mean_fitness(&self) -> (r: Fitness)
        requires
            self.wf(),
        ensures
            r == mean_fitness_spec(self@),
    {
        self.population.mean_fitness()
    }

    pub fn add_individual(&mut self, ind: Individual<T>)
        requires
            old(self).wf(),
            ind.fitness_spec() is Some,
        ensures
            final(self)@ == old(self)@.push(ind),
            final(self).centroid_spec() == old(self).centroid_spec(),
            final(self).wf(),
    {
        self.population.add_individual(ind);
    }

    /// The designated centroid individual if one is set and in range, else
    /// a uniformly random member of the niche.
    pub fn centroid_or_else_random(&self, rng: &mut RandomSource) -> (r: &Individual<T>)
        requires
            self.wf(),
        ensures
            exists|k: int| 0 <= k < self@.len() && *r == self@[k],
            (self.centroid_spec() is Some && (self.centroid_spec()->Some_0 as int) < self@.len())
                ==> *r == self@[self.centroid_spec()->Some_0 as int],
    {
        match self.centroid {
            Some(ci) => {
                if ci < self.population.len() {
                    return self.population.get(ci);
                }
            },
            None => {},
        }
        let k = rng.below_usize(self.population.len());
        self.population.get(k)
    }
}

/// The sum of the niches' sizes.
pub open spec fn sum_lens<T>(s: Seq<Niche<T>>) -> int
    decreases s.len(),
{
    if s.len() == 0 {
        0
    } else {
        sum_lens(s.drop_last()) + s.last()@.len()
    }
}

/// All individuals of all niches, in niche order.
pub open spec fn flat_seq<T>(s: Seq<Niche<T>>) -> Seq<Individual<T>>
    decreases s.len(),
{
    if s.len() == 0 {
        Seq::empty()
    } else {
        flat_seq(s.drop_last()) + s.last()@
    }
}

/// The sum of the niches' mean fitnesses (not population-weighted).
pub open spec fn total_means_spec<T>(s: Seq<Niche<T>>) -> int
    decreases s.len(),
{
    if s.len() == 0 {
        0
    } else {
        total_means_spec(s.drop_last()) + mean_fitness_spec(s.last()@)
    }
}

pub proof fn lemma_flat_seq_len<T>(s: Seq<Niche<T>>)
    ensures
        flat_seq(s).len() == sum_lens(s),
    decreases s.len(),
{
    if s.len() > 0 {
        lemma_flat_seq_len(s.drop_last());
    }
}

pub proof fn lemma_flat_seq_all_rated<T>(s: Seq<Niche<T>>)
    requires
        forall|i: int| 0 <= i < s.len() ==> (#[trigger] s[i]).wf(),
    ensures
        all_rated(flat_seq(s)),
    decreases s.len(),
{
    if s.len() > 0 {
        assert(forall|i: int| 0 <= i < s.drop_last().len() ==> (#[trigger] s.drop_last()[i]).wf());
        lemma_flat_seq_all_rated(s.drop_last());
        assert(s.last().wf());
        assert forall|i: int| 0 <= i < flat_seq(s).len()
            implies flat_seq(s)[i].fitness_spec() is Some by {
            if i < flat_seq(s.drop_last()).len() {
                assert(flat_seq(s)[i] == flat_seq(s.drop_last())[i]);
            } else {
                assert(flat_seq(s)[i] == s.last()@[i - flat_seq(s.drop_last()).len()]);
            }
        }
    }
}

/// Replacing niche `i` by the same niche with one individual appended adds
/// exactly that individual to the pool of all niches.
pub proof fn lemma_flat_update_push<T>(s: Seq<Niche<T>>, i: int, n2: Niche<T>, x: Individual<T>)
    requires
        0 <= i < s.len(),
        n2@ == s[i]@.push(x),
    ensures
        flat_seq(s.update(i, n2)).to_multiset() == flat_seq(s).to_multiset().insert(x),
        sum_lens(s.update(i, n2)) == sum_lens(s) + 1,
    decreases s.len(),
{
    broadcast use vstd::seq_lib::group_to_multiset_ensures;

    let u = s.update(i, n2);
    if i == s.len() - 1 {
        assert(u.drop_last() =~= s.drop_last());
        assert(u.last() == n2);
        vstd::seq_lib::lemma_multiset_commutative(flat_seq(s.drop_last()), n2@);
        vstd::seq_lib::lemma_multiset_commutative(flat_seq(s.drop_last()), s[i]@);
        assert(n2@.to_multiset() =~~= s[i]@.to_multiset().insert(x));
        assert(flat_seq(u).to_multiset() =~~= flat_seq(s).to_multiset().insert(x));
    } else {
        assert(u.drop_last() =~= s.drop_last().update(i, n2));
        assert(u.last() == s.last());
        assert(s.drop_last()[i] == s[i]);
        lemma_flat_update_push(s.drop_last(), i, n2, x);
        vstd::seq_lib::lemma_multiset_commutative(flat_seq(s.drop_last().update(i, n2)), s.last()@);
        vstd::seq_lib::lemma_multiset_commutative(flat_seq(s.drop_last()), s.last()@);
        assert(flat_seq(u).to_multiset() =~~= flat_seq(s).to_multiset().insert(x));
    }
}

/// A one-element sequence holds exactly its element, once.
proof fn lemma_singleton_to_multiset<T>(x: Individual<T>)
    ensures
        seq![x].to_multiset() == Multiset::<Individual<T>>::empty().insert(x),
{
    let e = Seq::<Individual<T>>::empty();
    e.to_multiset_ensures();
    vstd::multiset::lemma_multiset_empty_len(e.to_multiset());
    assert(e.to_multiset() =~= Multiset::empty());
    assert(seq![x] =~= e.push(x));
    assert(seq![x].to_multiset() =~~= Multiset::<Individual<T>>::empty().insert(x));
}

pub proof fn lemma_flat_seq_push<T>(s: Seq<Niche<T>>, n: Niche<T>)
    ensures
        flat_seq(s.push(n)) == flat_seq(s) + n@,
        sum_lens(s.push(n)) == sum_lens(s) + n@.len(),
{
    assert(s.push(n).drop_last() =~= s);
    assert(s.push(n).last() == n);
}

/// The total of the niche means is bounded by the niche count times the
/// largest fitness, and is never negative.
pub proof fn lemma_total_means_bound<T>(s: Seq<Niche<T>>)
    requires
        forall|i: int| 0 <= i < s.len() ==> (#[trigger] s[i])@.len() > 0,
    ensures
        0 <= total_means_spec(s) <= s.len() * 0xffff_ffff,
    decreases s.len(),
{
    if s.len() > 0 {
        assert(forall|i: int|
            0 <= i < s.drop_last().len() ==> (#[trigger] s.drop_last()[i])@.len() > 0);
        lemma_total_means_bound(s.drop_last());
        let p = s.last()@;
        lemma_sum_fitness_bounds(p);
        assert(0 <= mean_fitness_spec(p) <= 0xffff_ffff) by (nonlinear_arith)
            requires
                p.len() > 0,
                0 <= sum_fitness(p) <= p.len() * 0xffff_ffff,
                mean_fitness_spec(p) == sum_fitness(p) / p.len() as int,
        ;
    }
}

/// A niche of all-zero fitness has mean zero; a run of such niches has a
/// zero total mean.
pub proof fn lemma_zero_fitness_zero_total<T>(s: Seq<Niche<T>>)
    requires
        forall|i: int| 0 <= i < s.len() ==> (#[trigger] s[i])@.len() > 0,
        forall|i: int| 0 <= i < s.len() ==> all_zero_fitness((#[trigger] s[i])@),
    ensures
        total_means_spec(s) == 0,
    decreases s.len(),
{
    if s.len() > 0 {
        assert(forall|i: int|
            0 <= i < s.drop_last().len() ==> (#[trigger] s.drop_last()[i])@.len() > 0);
        assert(forall|i: int|
            0 <= i < s.drop_last().len() ==> all_zero_fitness((#[trigger] s.drop_last()[i])@));
        lemma_zero_fitness_zero_total(s.drop_last());
        let p = s.last()@;
        lemma_zero_fitness_zero_sum(p);
        assert(mean_fitness_spec(p) == 0) by (nonlinear_arith)
            requires
                p.len() > 0,
                sum_fitness(p) == 0,
                mean_fitness_spec(p) == sum_fitness(p) / p.len() as int,
        ;
    }
}

/// The degenerate equal-split policy: when every individual of every niche
/// has fitness zero, the total mean vanishes and every niche's share of
/// the target is the same rational `target / num_niches`, independent of
/// the niche sizes — not proportional to them.
pub proof fn lemma_zero_fitness_equal_split<T>(s: Seq<Niche<T>>, target: int)
    requires
        forall|i: int| 0 <= i < s.len() ==> (#[trigger] s[i])@.len() > 0,
        forall|i: int| 0 <= i < s.len() ==> all_zero_fitness((#[trigger] s[i])@),
    ensures
        total_means_spec(s) == 0,
        forall|i: int|
            0 <= i < s.len() ==> niche_share_num(
                target,
                mean_fitness_spec((#[trigger] s[i])@),
                total_means_spec(s),
            ) == target,
        niche_share_den(total_means_spec(s), s.len() as int) == s.len() as int,
{
    lemma_zero_fitness_zero_total(s);
}

/// The share of the global reproduction target a niche receives, as the
/// numerator of an exact rational: proportional to its mean fitness when
/// the total mean is positive, an equal split across the niches when every
/// fitness is zero.
pub open spec fn niche_share_num(target: int, mean: int, total: int) -> int {
    if total == 0 {
        target
    } else {
        target * mean
    }
}

/// The denominator of the niche's share: see `niche_share_num`.
pub open spec fn niche_share_den(total: int, num_niches: int) -> int {
    if total == 0 {
        num_niches
    } else {
        total
    }
}

/// Computes one niche's share of the reproduction target as an exact
/// rational `r.0 / r.1`.
pub fn niche_share(
    target_total: u64,
    niche_mean: Fitness,
    total_mean: u128,
    num_niches: usize,
) -> (r: (u128, u128))
    requires
        num_niches > 0,
        total_mean < 0x1000000000000000000000000,
    ensures
        r.0 == niche_share_num(target_total as int, niche_mean as int, total_mean as int),
        r.1 == niche_share_den(total_mean as int, num_niches as int),
        0 < r.1 < 0x1000000000000000000000000,
        r.0 < 0x1000000000000000000000000,
{
    if total_mean == 0 {
        (target_total as u128, num_niches as u128)
    } else {
        proof {
            assert((target_total as int) * (niche_mean as int) < 0x1000000000000000000000000)
                by (nonlinear_arith)
                requires
                    target_total <= 0xffff_ffff_ffff_ffff,
                    niche_mean <= 0xffff_ffff,
            ;
        }
        ((target_total as u128) * (niche_mean as u128), total_mean)
    }
}

/// The niche can report a match for `ind` under threshold `th`: its
/// representative — the centroid when one is set and in range, otherwise
/// some member — lies at distance strictly below `th`. With a valid
/// centroid this is exact; without one it holds for whichever member the
/// random choice picked.
pub open spec fn niche_may_match<T, C: Distance<T>>(
    n: Niche<T>,
    ind: Individual<T>,
    th: int,
    c: C,
) -> bool {
    if n.centroid_spec() is Some && (n.centroid_spec()->Some_0 as int) < n@.len() {
        c.spec_distance(n@[n.centroid_spec()->Some_0 as int].genome_spec(), ind.genome_spec())
            < th
    } else {
        exists|k: int|
            0 <= k < n@.len() && c.spec_distance(
                (#[trigger] n@[k]).genome_spec(),
                ind.genome_spec(),
            ) < th
    }
}

/// The niche can report no match for `ind` under threshold `th`: its
/// representative lies at distance at least `th` — distance exactly equal
/// to the threshold never matches.
pub open spec fn niche_may_fail<T, C: Distance<T>>(
    n: Niche<T>,
    ind: Individual<T>,
    th: int,
    c: C,
) -> bool {
    if n.centroid_spec() is Some && (n.centroid_spec()->Some_0 as int) < n@.len() {
        c.spec_distance(n@[n.centroid_spec()->Some_0 as int].genome_spec(), ind.genome_spec())
            >= th
    } else {
        exists|k: int|
            0 <= k < n@.len() && c.spec_distance(
                (#[trigger] n@[k]).genome_spec(),
                ind.genome_spec(),
            ) >= th
    }
}

/// One placement step of the greedy speciation pass: from the niches
/// `pre`, the individual either joined the first niche that could match
/// it — every earlier niche could fail it — or every niche could fail it
/// and a fresh singleton niche holding it was appended.
pub open spec fn partition_step<T, C: Distance<T>>(
    pre: Seq<Niche<T>>,
    post: Seq<Niche<T>>,
    ind: Individual<T>,
    th: int,
    c: C,
) -> bool {
    ||| (exists|i: int|
        0 <= i < pre.len() && niche_may_match(#[trigger] pre[i], ind, th, c) && (forall|j: int|
            0 <= j < i ==> niche_may_fail(#[trigger] pre[j], ind, th, c)) && post == pre.update(
            i,
            post[i],
        ) && post[i]@ == pre[i]@.push(ind) && post[i].centroid_spec() == pre[i].centroid_spec())
    ||| ((forall|j: int| 0 <= j < pre.len() ==> niche_may_fail(#[trigger] pre[j], ind, th, c))
        && post.len() == pre.len() + 1 && post == pre.push(post.last()) && post.last()@ == seq![
        ind,
    ] && post.last().centroid_spec() is None)
}

/// The whole greedy pass: processing the individuals in order, starting
/// from no niches, with each step placing one individual as
/// `partition_step` says, yields exactly `niches`.
pub open spec fn partition_outcome<T, C: Distance<T>>(
    inds: Seq<Individual<T>>,
    niches: Seq<Niche<T>>,
    th: int,
    c: C,
) -> bool
    decreases inds.len(),
{
    if inds.len() == 0 {
        niches == Seq::<Niche<T>>::empty()
    } else {
        exists|mid: Seq<Niche<T>>|
            #![trigger partition_outcome(inds.drop_last(), mid, th, c)]
            #![trigger partition_step(mid, niches, inds.last(), th, c)]
            partition_outcome(inds.drop_last(), mid, th, c) && partition_step(
                mid,
                niches,
                inds.last(),
                th,
                c,
            )
    }
}

/// What global reproduction guarantees, for one sequence `draws` of
/// per-niche stochastic draws `(rp, up, es, os, ss)`: the rated and
/// unrated results decompose, niche by niche in order, into segments cut
/// at `rp` and `up`, and each niche's pair of segments satisfies
/// `reproduce_outcome` with sizes `es`, `os`, `ss` for that niche against
/// its exact share of the target — `target * mean / total` when the total
/// mean is positive, the equal split `target / num_niches` when every
/// fitness is zero.
pub open spec fn global_outcome<T, M: Mate<T>>(
    niches: Seq<Niche<T>>,
    target: int,
    total: int,
    num_niches: int,
    elite: Fraction,
    selection: Fraction,
    draws: Seq<(int, int, int, int, int)>,
    rated: Seq<Individual<T>>,
    unrated: Seq<Individual<T>>,
) -> bool
    decreases niches.len(),
{
    if niches.len() == 0 {
        draws.len() == 0 && rated.len() == 0 && unrated.len() == 0
    } else {
        draws.len() == niches.len() && {
            let (rp, up, es, os, ss) = draws.last();
            &&& 0 <= rp <= rated.len()
            &&& 0 <= up <= unrated.len()
            &&& global_outcome::<T, M>(
                niches.drop_last(),
                target,
                total,
                num_niches,
                elite,
                selection,
                draws.drop_last(),
                rated.take(rp),
                unrated.take(up),
            )
            &&& reproduce_outcome::<T, M>(
                niches.last()@,
                niche_share_num(target, mean_fitness_spec(niches.last()@), total),
                niche_share_den(total, num_niches),
                elite,
                selection,
                es,
                os,
                ss,
                rated.skip(rp),
                unrated.skip(up),
            )
        }
    }
}

/// The set of all species for one generation, with the cached total count
/// of their individuals.
#[derive(Debug)]
pub struct Niches<T> {
    total_individuals: usize,
    niches: Vec<Niche<T>>,
}

impl<T> View for Niches<T> {
    type V = Seq<Niche<T>>;

    closed spec fn view(&self) -> Seq<Niche<T>> {
        self.niches@
    }
}

impl<T> Niches<T> {
    pub closed spec fn total_spec(&self) -> int {
        self.total_individuals as int
    }

    /// The cached total always equals the sum of the niche sizes, and
    /// every niche is well-formed.
    pub open spec fn wf(self) -> bool {
        self.total_spec() == sum_lens(self@)
            && (forall|i: int| 0 <= i < self@.len() ==> (#[trigger] self@[i]).wf())
    }

    pub fn new() -> (r: Niches<T>)
        ensures
            r@ == Seq::<Niche<T>>::empty(),
            r.total_spec() == 0,
            r.wf(),
    {
        Niches { total_individuals: 0, niches: Vec::new() }
    }

    /// A `Niches` holding one niche that contains the whole population.
    pub fn from_single_population(pop: Population<T, Rated>) -> (r: Niches<T>)
        requires
            pop@.len() > 0,
            all_rated(pop@),
        ensures
            r@.len() == 1,
            r@[0]@ == pop@,
            r@[0].centroid_spec() is None,
            r.total_spec() == pop@.len(),
            r.wf(),
    {
        let total = pop.len();
        let niche = Niche::from_population(pop);
        let mut niches: Vec<Niche<T>> = Vec::new();
        niches.push(niche);
        proof {
            assert(niches@.drop_last() =~= Seq::<Niche<T>>::empty());
            assert(niches@.last() == niche);
            assert(sum_lens(niches@) == sum_lens(Seq::<Niche<T>>::empty()) + pop@.len());
            assert(sum_lens(Seq::<Niche<T>>::empty()) == 0);
        }
        Niches { total_individuals: total, niches }
    }

    /// Collapses all niches into a single rated population, in niche
    /// order; its size equals the tracked total.
    pub fn collapse(self) -> (r: Population<T, Rated>)
        requires
            self.wf(),
            self@.len() > 0,
        ensures
            r@ == flat_seq(self@),
            r@.len() == self.total_spec(),
            all_rated(r@),
    {
        let ghost orig = self@;
        let mut v = self.niches;
        let mut pop: Population<T, Rated> = Population::new();
        proof {
            assert(v@ =~= orig.skip(0));
            assert(flat_seq(orig.take(0)) =~= Seq::<Individual<T>>::empty());
        }
        while v.len() > 0
            invariant
                v@ == orig.skip(orig.len() - v@.len()),
                v@.len() <= orig.len(),
                pop@ == flat_seq(orig.take(orig.len() - v@.len())),
                forall|i: int| 0 <= i < orig.len() ==> (#[trigger] orig[i]).wf(),
            decreases v@.len(),
        {
            let ghost k = orig.len() - v@.len();
            let niche = v.remove(0);
            proof {
                assert(niche == orig[k]);
                assert(v@ =~= orig.skip(k + 1));
                assert(orig.take(k + 1).drop_last() =~= orig.take(k));
                assert(orig.take(k + 1).last() == orig[k]);
            }
            pop.append(niche.population);
        }
        proof {
            assert(orig.take(orig.len() as int) =~= orig);
            lemma_flat_seq_len(orig);
            lemma_flat_seq_all_rated(orig);
        }
        pop
    }

    /// The sum of the mean fitnesses of all niches.
    pub fn total_mean(&self) -> (r: u128)
        requires
            self.wf(),
        ensures
            r == total_means_spec(self@),
            r <= self@.len() * 0xffff_ffff,
    {
        let n = self.niches.len();
        let mut total: u128 = 0;
        let mut i: usize = 0;
        proof {
            assert(self@.take(0) =~= Seq::<Niche<T>>::empty());
        }
        while i < n
            invariant
                i <= n,
                n == self@.len(),
                self.wf(),
                total == total_means_spec(self@.take(i as int)),
                total <= i * 0xffff_ffff,
            decreases n - i,
        {
            let m = self.niches[i].mean_fitness();
            proof {
                assert(self@.take(i + 1).drop_last() =~= self@.take(i as int));
                assert(self@.take(i + 1).last() == self@[i as int]);
            }
            total = total + m as u128;
            i += 1;
        }
        proof {
            assert(self@.take(n as int) =~= self@);
        }
        total
    }

    /// Total number of individuals across all niches.
    pub fn num_individuals(&self) -> (r: usize)
        ensures
            r == self.total_spec(),
    {
        self.total_individuals
    }

    /// Number of niches.
    pub fn num_niches(&self) -> (r: usize)
        ensures
            r == self@.len(),
    {
        self.niches.len()
    }

    /// Appends a new niche.
    pub fn add_niche(&mut self, niche: Niche<T>)
        requires
            old(self).wf(),
            niche.wf(),
            old(self).total_spec() + niche@.len() <= usize::MAX,
        ensures
            final(self)@ == old(self)@.push(niche),
            final(self).total_spec() == old(self).total_spec() + niche@.len(),
            final(self).wf(),
    {
        let n = niche.len();
        self.total_individuals = self.total_individuals + n;
        let ghost pre = self.niches@;
        self.niches.push(niche);
        proof {
            lemma_flat_seq_push(pre, niche);
        }
    }

    /// Appends an individual to the niche at index `i`.
    pub fn add_individual_to_niche(&mut self, i: usize, ind: Individual<T>)
        requires
            old(self).wf(),
            i < old(self)@.len(),
            ind.fitness_spec() is Some,
            old(self).total_spec() + 1 <= usize::MAX,
        ensures
            final(self)@.len() == old(self)@.len(),
            final(self)@ == old(self)@.update(i as int, final(self)@[i as int]),
            final(self)@[i as int]@ == old(self)@[i as int]@.push(ind),
            final(self)@[i as int].centroid_spec() == old(self)@[i as int].centroid_spec(),
            final(self).total_spec() == old(self).total_spec() + 1,
            final(self).wf(),
            flat_seq(final(self)@).to_multiset() == flat_seq(old(self)@).to_multiset().insert(
                ind,
            ),
    {
        let ghost pre = self.niches@;
        self.total_individuals = self.total_individuals + 1;
        let mut niche = self.niches.remove(i);
        niche.add_individual(ind);
        self.niches.insert(i, niche);
        proof {
            assert(self.niches@ =~= pre.update(i as int, self.niches@[i as int]));
            lemma_flat_update_push(pre, i as int, self.niches@[i as int], ind);
        }
    }

    /// Scans the niches in creation order and returns the index of the
    /// first whose representative lies at distance strictly below the
    /// threshold from `ind` — first match wins, never a best-match search,
    /// and a distance exactly equal to the threshold never matches.
    pub fn find_first_matching_niche<C: Distance<T>>(
        &self,
        ind: &Individual<T>,
        compatibility_threshold: u64,
        compatibility: &C,
        rng: &mut RandomSource,
    ) -> (r: Option<usize>)
        requires
            self.wf(),
        ensures
            match r {
                Some(i) => i < self@.len() && niche_may_match(
                    self@[i as int],
                    *ind,
                    compatibility_threshold as int,
                    *compatibility,
                ) && (forall|j: int|
                    0 <= j < i ==> niche_may_fail(
                        #[trigger] self@[j],
                        *ind,
                        compatibility_threshold as int,
                        *compatibility,
                    )),
                None => forall|j: int|
                    0 <= j < self@.len() ==> niche_may_fail(
                        #[trigger] self@[j],
                        *ind,
                        compatibility_threshold as int,
                        *compatibility,
                    ),
            },
    {
        let n = self.niches.len();
        let mut i: usize = 0;
        while i < n
            invariant
                i <= n,
                n == self@.len(),
                self.wf(),
                forall|j: int|
                    0 <= j < i ==> niche_may_fail(
                        #[trigger] self@[j],
                        *ind,
                        compatibility_threshold as int,
                        *compatibility,
                    ),
            decreases n - i,
        {
            let rep = self.niches[i].centroid_or_else_random(rng);
            let d = compatibility.distance(rep.genome(), ind.genome());
            let ghost niche = self@[i as int];
            proof {
                assert(exists|k: int| 0 <= k < niche@.len() && *rep == niche@[k]);
            }
            if d < compatibility_threshold {
                proof {
                    if !(niche.centroid_spec() is Some
                        && (niche.centroid_spec()->Some_0 as int) < niche@.len()) {
                        let k = choose|k: int| 0 <= k < niche@.len() && *rep == niche@[k];
                        assert(compatibility.spec_distance(
                            niche@[k].genome_spec(),
                            ind.genome_spec(),
                        ) < compatibility_threshold as int);
                    }
                }
                return Some(i);
            }
            proof {
                if !(niche.centroid_spec() is Some
                    && (niche.centroid_spec()->Some_0 as int) < niche@.len()) {
                    let k = choose|k: int| 0 <= k < niche@.len() && *rep == niche@[k];
                    assert(compatibility.spec_distance(
                        niche@[k].genome_spec(),
                        ind.genome_spec(),
                    ) >= compatibility_threshold as int);
                }
            }
            i += 1;
        }
        None
    }

    /// Reproduces the individuals of all niches towards the global target
    /// size, each niche receiving the share of the target its mean fitness
    /// earns (an equal split when every fitness is zero), and accumulates
    /// every niche's elites and offspring into one rated and one unrated
    /// population. Every niche contributes at least one elite.
    pub fn reproduce_global<M: Mate<T>>(
        self,
        new_pop_size: u64,
        elite_percentage: Fraction,
        selection_percentage: Fraction,
        mate: &mut M,
        rng: &mut RandomSource,
    ) -> (r: (Population<T, Rated>, Population<T, Unrated>))
        requires
            self.wf(),
            self@.len() > 0,
            elite_percentage.wf(),
            selection_percentage.wf(),
            elite_percentage.le_spec(selection_percentage),
        ensures
            all_rated(r.0@),
            all_unrated(r.1@),
            r.0@.len() >= self@.len(),
            exists|draws: Seq<(int, int, int, int, int)>|
                #[trigger] global_outcome::<T, M>(
                    self@,
                    new_pop_size as int,
                    total_means_spec(self@),
                    self@.len() as int,
                    elite_percentage,
                    selection_percentage,
                    draws,
                    r.0@,
                    r.1@,
                ),
    {
        let ghost orig = self@;
        let num_niches = self.niches.len();
        let total_mean = self.total_mean();
        proof {
            assert(forall|i: int| 0 <= i < orig.len() ==> (#[trigger] orig[i])@.len() > 0);
            lemma_total_means_bound(orig);
            assert((orig.len() as int) * 0xffff_ffff < 0x1000000000000000000000000)
                by (nonlinear_arith)
                requires
                    orig.len() <= 0xffff_ffff_ffff_ffff,
            ;
        }
        let mut new_unrated: Population<T, Unrated> = Population::new();
        let mut new_rated: Population<T, Rated> = Population::new();
        let mut v = self.niches;
        proof {
            assert(v@ =~= orig.skip(0));
            assert(orig.take(0) =~= Seq::<Niche<T>>::empty());
        }
        let ghost mut draws: Seq<(int, int, int, int, int)> = Seq::empty();
        proof {
            assert(global_outcome::<T, M>(
                orig.take(0),
                new_pop_size as int,
                total_mean as int,
                num_niches as int,
                elite_percentage,
                selection_percentage,
                draws,
                new_rated@,
                new_unrated@,
            ));
        }
        while v.len() > 0
            invariant
                v@ == orig.skip(orig.len() - v@.len()),
                v@.len() <= orig.len(),
                forall|i: int| 0 <= i < orig.len() ==> (#[trigger] orig[i]).wf(),
                total_mean < 0x1000000000000000000000000,
                total_mean == total_means_spec(orig),
                num_niches == orig.len(),
                elite_percentage.wf(),
                selection_percentage.wf(),
                elite_percentage.le_spec(selection_percentage),
                all_rated(new_rated@),
                all_unrated(new_unrated@),
                new_rated@.len() >= orig.len() - v@.len(),
                global_outcome::<T, M>(
                    orig.take(orig.len() - v@.len()),
                    new_pop_size as int,
                    total_mean as int,
                    num_niches as int,
                    elite_percentage,
                    selection_percentage,
                    draws,
                    new_rated@,
                    new_unrated@,
                ),
            decreases v@.len(),
        {
            let ghost k = orig.len() - v@.len();
            let ghost pre_rated = new_rated@;
            let ghost pre_unrated = new_unrated@;
            let niche = v.remove(0);
            proof {
                assert(niche == orig[k]);
                assert(v@ =~= orig.skip(k + 1));
                assert(orig.take(k + 1).drop_last() =~= orig.take(k));
                assert(orig.take(k + 1).last() == orig[k]);
            }
            let m = niche.mean_fitness();
            let (share_num, share_den) = niche_share(new_pop_size, m, total_mean, num_niches);
            let Niche { population, centroid: _ } = niche;
            proof {
                assert(population@ == niche@);
            }
            let sizes = population.reproduce_into(
                share_num,
                share_den,
                elite_percentage,
                selection_percentage,
                mate,
                &mut new_unrated,
                &mut new_rated,
                rng,
            );
            proof {
                let ghost target = new_pop_size as int;
                let ghost total = total_mean as int;
                let ghost nn = num_niches as int;
                let ghost taken = orig.take(k + 1);
                assert(new_rated@.take(pre_rated.len() as int) == pre_rated);
                assert(new_unrated@.take(pre_unrated.len() as int) == pre_unrated);
                assert(share_num == niche_share_num(
                    target,
                    mean_fitness_spec(taken.last()@),
                    total,
                ));
                assert(share_den == niche_share_den(total, nn));
                assert(global_outcome::<T, M>(
                    taken.drop_last(),
                    target,
                    total,
                    nn,
                    elite_percentage,
                    selection_percentage,
                    draws,
                    new_rated@.take(pre_rated.len() as int),
                    new_unrated@.take(pre_unrated.len() as int),
                ));
                assert(reproduce_outcome::<T, M>(
                    taken.last()@,
                    niche_share_num(target, mean_fitness_spec(taken.last()@), total),
                    niche_share_den(total, nn),
                    elite_percentage,
                    selection_percentage,
                    sizes.0 as int,
                    sizes.1 as int,
                    sizes.2 as int,
                    new_rated@.skip(pre_rated.len() as int),
                    new_unrated@.skip(pre_unrated.len() as int),
                ));
                let ghost prev_draws = draws;
                draws = draws.push(
                    (
                        pre_rated.len() as int,
                        pre_unrated.len() as int,
                        sizes.0 as int,
                        sizes.1 as int,
                        sizes.2 as int,
                    ),
                );
                assert(draws.drop_last() =~= prev_draws);
                assert(global_outcome::<T, M>(
                    taken,
                    target,
                    total,
                    nn,
                    elite_percentage,
                    selection_percentage,
                    draws,
                    new_rated@,
                    new_unrated@,
                ));
            }
        }
        proof {
            assert(orig.take(orig.len() as int) =~= orig);
        }
        (new_rated, new_unrated)
    }
}

impl<T> Population<T, Rated> {
    /// Partitions the whole population into species: for each individual
    /// in population order, the first niche (in creation order) whose
    /// representative lies strictly within the compatibility threshold
    /// receives it; if none does, a new singleton niche is appended. A
    /// single greedy pass, deliberately order-dependent. The niches
    /// conserve the population: same individuals, same total count.
    pub fn partition<C: Distance<T>>(
        self,
        rng: &mut RandomSource,
        compatibility_threshold: u64,
        compatibility: &C,
    ) -> (r: Niches<T>)
        requires
            all_rated(self@),
        ensures
            r.wf(),
            r.total_spec() == self@.len(),
            flat_seq(r@).to_multiset() == self@.to_multiset(),
            partition_outcome(self@, r@, compatibility_threshold as int, *compatibility),
    {
        broadcast use vstd::seq_lib::group_to_multiset_ensures;

        let ghost orig = self@;
        let mut niches: Niches<T> = Niches::new();
        let mut v = self.into_vec();
        let n = v.len();
        proof {
            assert(v@ =~= orig.skip(0));
            assert(orig.len() == n);
            assert(orig.take(0) =~= Seq::<Individual<T>>::empty());
            assert(flat_seq(niches@).to_multiset() =~~= orig.take(0).to_multiset());
        }
        while v.len() > 0
            invariant
                v@ == orig.skip(orig.len() - v@.len()),
                v@.len() <= orig.len(),
                orig.len() <= usize::MAX,
                all_rated(orig),
                niches.wf(),
                niches.total_spec() == orig.len() - v@.len(),
                flat_seq(niches@).to_multiset() == orig.take(
                    orig.len() - v@.len(),
                ).to_multiset(),
                partition_outcome(
                    orig.take(orig.len() - v@.len()),
                    niches@,
                    compatibility_threshold as int,
                    *compatibility,
                ),
            decreases v@.len(),
        {
            let ghost k = orig.len() - v@.len();
            let ghost pre = niches@;
            let ghost th = compatibility_threshold as int;
            let ind = v.remove(0);
            proof {
                assert(ind == orig[k]);
                assert(v@ =~= orig.skip(k + 1));
                assert(orig.take(k + 1).drop_last() =~= orig.take(k));
                assert(orig.take(k + 1).last() == orig[k]);
                assert(orig.take(k + 1) =~= orig.take(k).push(orig[k]));
                orig.take(k).to_multiset_ensures();
                assert(orig.take(k + 1).to_multiset()
                    =~~= orig.take(k).to_multiset().insert(orig[k]));
            }
            match niches.find_first_matching_niche(
                &ind,
                compatibility_threshold,
                compatibility,
                rng,
            ) {
                Some(i) => {
                    niches.add_individual_to_niche(i, ind);
                    proof {
                        assert(niches@ == pre.update(i as int, niches@[i as int]));
                        assert(partition_step(pre, niches@, ind, th, *compatibility));
                    }
                },
                None => {
                    niches.add_niche(Niche::from_individual(ind));
                    proof {
                        lemma_flat_seq_push(pre, niches@.last());
                        vstd::seq_lib::lemma_multiset_commutative(
                            flat_seq(pre),
                            niches@.last()@,
                        );
                        lemma_singleton_to_multiset(ind);
                        assert(niches@.last()@.to_multiset()
                            =~~= Multiset::<Individual<T>>::empty().insert(ind));
                        assert(flat_seq(niches@).to_multiset()
                            =~~= flat_seq(pre).to_multiset().insert(ind));
                        assert(partition_step(pre, niches@, ind, th, *compatibility));
                    }
                },
            }
            proof {
                assert(orig.take(k + 1).last() == ind);
                assert(partition_step(pre, niches@, orig.take(k + 1).last(), th, *compatibility));
                assert(partition_outcome(orig.take(k + 1).drop_last(), pre, th, *compatibility));
                assert(partition_outcome(orig.take(k + 1), niches@, th, *compatibility));
            }
        }
        proof {
            assert(orig.take(orig.len() as int) =~= orig);
        }
        niches
    }
}

} // verus!
