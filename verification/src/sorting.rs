//! The mathematical account of sorting a population: a stable sort by
//! non-increasing fitness, defined as a recursive insertion, together with
//! the laws it obeys — sortedness, conservation of the individuals, and
//! stability (ties keep their original relative order).

use vstd::prelude::*;
use vstd::seq_lib::group_seq_properties;
use crate::individual::Individual;

verus! {

/// The sequence is ordered by non-increasing fitness (index 0 = best).
pub open spec fn sorted_desc<T>(s: Seq<Individual<T>>) -> bool {
    forall|i: int, j: int| 0 <= i < j < s.len() ==> s[i].fit() >= s[j].fit()
}

/// Inserts `x` into the sorted sequence `s` after every element whose
/// fitness is at least `x`'s: the placement a stable descending sort gives.
pub open spec fn insert_desc<T>(s: Seq<Individual<T>>, x: Individual<T>) -> Seq<Individual<T>>
    decreases s.len(),
{
    if s.len() == 0 {
        seq![x]
    } else if s[0].fit() >= x.fit() {
        seq![s[0]] + insert_desc(s.drop_first(), x)
    } else {
        seq![x] + s
    }
}

/// The stable descending sort of `s`, built by inserting each element in
/// turn into the sorted sequence of those before it.
pub open spec fn stable_sort<T>(s: Seq<Individual<T>>) -> Seq<Individual<T>>
    decreases s.len(),
{
    if s.len() == 0 {
        Seq::empty()
    } else {
        insert_desc(stable_sort(s.drop_last()), s.last())
    }
}

pub proof fn lemma_insert_desc_len<T>(s: Seq<Individual<T>>, x: Individual<T>)
    ensures
        insert_desc(s, x).len() == s.len() + 1,
    decreases s.len(),
{
    if s.len() > 0 && s[0].fit() >= x.fit() {
        lemma_insert_desc_len(s.drop_first(), x);
    }
}

pub proof fn lemma_stable_sort_len<T>(s: Seq<Individual<T>>)
    ensures
        stable_sort(s).len() == s.len(),
    decreases s.len(),
{
    if s.len() > 0 {
        lemma_stable_sort_len(s.drop_last());
        lemma_insert_desc_len(stable_sort(s.drop_last()), s.last());
    }
}

/// Inserting into a sorted sequence keeps it sorted.
pub proof fn lemma_insert_desc_sorted<T>(s: Seq<Individual<T>>, x: Individual<T>)
    requires
        sorted_desc(s),
    ensures
        sorted_desc(insert_desc(s, x)),
    decreases s.len(),
{
    lemma_insert_desc_len(s, x);
    if s.len() == 0 {
    } else if s[0].fit() >= x.fit() {
        assert(sorted_desc(s.drop_first()));
        lemma_insert_desc_sorted(s.drop_first(), x);
        lemma_insert_desc_len(s.drop_first(), x);
        let r = seq![s[0]] + insert_desc(s.drop_first(), x);
        // every element of the inserted tail is either from s or is x, so
        // the head still dominates it
        lemma_insert_desc_first_bound(s.drop_first(), x, s[0].fit());
        assert forall|i: int, j: int| 0 <= i < j < r.len() implies r[i].fit() >= r[j].fit() by {
            if i > 0 {
                assert(r[i] == insert_desc(s.drop_first(), x)[i - 1]);
                assert(r[j] == insert_desc(s.drop_first(), x)[j - 1]);
            }
        }
    } else {
    }
}

/// Every element of `insert_desc(s, x)` whose fitness could exceed a bound
/// dominating both `s` and `x` does not exist: used to keep the head of a
/// sorted sequence dominant after an insertion into its tail.
proof fn lemma_insert_desc_first_bound<T>(s: Seq<Individual<T>>, x: Individual<T>, b: int)
    requires
        b >= x.fit(),
        forall|i: int| 0 <= i < s.len() ==> b >= s[i].fit(),
    ensures
        forall|i: int| 0 <= i < insert_desc(s, x).len() ==> b >= insert_desc(s, x)[i].fit(),
    decreases s.len(),
{
    lemma_insert_desc_len(s, x);
    if s.len() == 0 {
    } else if s[0].fit() >= x.fit() {
        assert(forall|i: int| 0 <= i < s.drop_first().len() ==> b >= s.drop_first()[i].fit());
        lemma_insert_desc_first_bound(s.drop_first(), x, b);
        lemma_insert_desc_len(s.drop_first(), x);
        let r = seq![s[0]] + insert_desc(s.drop_first(), x);
        assert forall|i: int| 0 <= i < r.len() implies b >= r[i].fit() by {
            if i > 0 {
                assert(r[i] == insert_desc(s.drop_first(), x)[i - 1]);
            }
        }
    } else {
    }
}

/// The stable sort is sorted by non-increasing fitness.
pub proof fn lemma_stable_sort_sorted<T>(s: Seq<Individual<T>>)
    ensures
        sorted_desc(stable_sort(s)),
    decreases s.len(),
{
    if s.len() > 0 {
        lemma_stable_sort_sorted(s.drop_last());
        lemma_insert_desc_sorted(stable_sort(s.drop_last()), s.last());
    }
}

pub proof fn lemma_insert_desc_multiset<T>(s: Seq<Individual<T>>, x: Individual<T>)
    ensures
        insert_desc(s, x).to_multiset() == s.to_multiset().insert(x),
    decreases s.len(),
{
    broadcast use group_seq_properties;

    if s.len() == 0 {
        assert(seq![x] =~= Seq::empty().push(x));
        assert(insert_desc(s, x).to_multiset() =~~= s.to_multiset().insert(x));
    } else if s[0].fit() >= x.fit() {
        lemma_insert_desc_multiset(s.drop_first(), x);
        let r = seq![s[0]] + insert_desc(s.drop_first(), x);
        vstd::seq_lib::lemma_multiset_commutative(seq![s[0]], insert_desc(s.drop_first(), x));
        vstd::seq_lib::lemma_multiset_commutative(seq![s[0]], s.drop_first());
        assert(s =~= seq![s[0]] + s.drop_first());
        assert(r.to_multiset() =~~= s.to_multiset().insert(x));
    } else {
        vstd::seq_lib::lemma_multiset_commutative(seq![x], s);
        assert((seq![x] + s).to_multiset() =~~= s.to_multiset().insert(x));
    }
}

/// The stable sort is a permutation of its input: the same individuals,
/// with the same multiplicities.
pub proof fn lemma_stable_sort_multiset<T>(s: Seq<Individual<T>>)
    ensures
        stable_sort(s).to_multiset() == s.to_multiset(),
    decreases s.len(),
{
    broadcast use group_seq_properties;

    if s.len() > 0 {
        lemma_stable_sort_multiset(s.drop_last());
        lemma_insert_desc_multiset(stable_sort(s.drop_last()), s.last());
        assert(s =~= s.drop_last().push(s.last()));
        assert(stable_sort(s).to_multiset() =~~= s.to_multiset());
    }
}

/// Stability: for any fitness value `f`, the subsequence of individuals
/// with fitness `f` is exactly the same, in the same order, before and
/// after sorting — ties keep their original relative order.
pub proof fn lemma_stable_sort_stable<T>(s: Seq<Individual<T>>, f: int)
    ensures
        stable_sort(s).filter(|ind: Individual<T>| ind.fit() == f)
            == s.filter(|ind: Individual<T>| ind.fit() == f),
    decreases s.len(),
{
    let pred = |ind: Individual<T>| ind.fit() == f;
    if s.len() > 0 {
        lemma_stable_sort_stable(s.drop_last(), f);
        lemma_stable_sort_sorted(s.drop_last());
        lemma_insert_desc_filter(stable_sort(s.drop_last()), s.last(), f);
        assert(s =~= s.drop_last() + seq![s.last()]);
        Seq::filter_distributes_over_add(s.drop_last(), seq![s.last()], pred);
        reveal_with_fuel(Seq::filter, 2);
        assert(seq![s.last()].drop_last() =~= Seq::<Individual<T>>::empty());
        if pred(s.last()) {
            assert(seq![s.last()].filter(pred) =~= seq![s.last()]);
            assert(s.filter(pred) =~= s.drop_last().filter(pred).push(s.last()));
        } else {
            assert(seq![s.last()].filter(pred) =~= Seq::<Individual<T>>::empty());
            assert(s.filter(pred) =~= s.drop_last().filter(pred));
        }
    } else {
        reveal_with_fuel(Seq::filter, 1);
    }
}

/// Inserting `x` into a sorted sequence appends it to the subsequence of
/// its own fitness value and leaves every other fitness class unchanged.
proof fn lemma_insert_desc_filter<T>(s: Seq<Individual<T>>, x: Individual<T>, f: int)
    requires
        sorted_desc(s),
    ensures
        x.fit() == f ==> insert_desc(s, x).filter(|ind: Individual<T>| ind.fit() == f)
            == s.filter(|ind: Individual<T>| ind.fit() == f).push(x),
        x.fit() != f ==> insert_desc(s, x).filter(|ind: Individual<T>| ind.fit() == f)
            == s.filter(|ind: Individual<T>| ind.fit() == f),
    decreases s.len(),
{
    let pred = |ind: Individual<T>| ind.fit() == f;
    reveal_with_fuel(Seq::filter, 2);
    if s.len() == 0 {
        assert(seq![x].drop_last() =~= Seq::<Individual<T>>::empty());
        if pred(x) {
            assert(seq![x].filter(pred) =~= Seq::<Individual<T>>::empty().push(x));
            assert(s.filter(pred) =~= Seq::<Individual<T>>::empty());
        } else {
            assert(seq![x].filter(pred) =~= Seq::<Individual<T>>::empty());
        }
    } else if s[0].fit() >= x.fit() {
        assert(sorted_desc(s.drop_first()));
        lemma_insert_desc_filter(s.drop_first(), x, f);
        let r = seq![s[0]] + insert_desc(s.drop_first(), x);
        Seq::filter_distributes_over_add(
            seq![s[0]],
            insert_desc(s.drop_first(), x),
            pred,
        );
        assert(s =~= seq![s[0]] + s.drop_first());
        Seq::filter_distributes_over_add(seq![s[0]], s.drop_first(), pred);
        assert(seq![s[0]].drop_last() =~= Seq::<Individual<T>>::empty());
        if pred(s[0]) {
            assert(seq![s[0]].filter(pred) =~= Seq::<Individual<T>>::empty().push(s[0]));
        } else {
            assert(seq![s[0]].filter(pred) =~= Seq::<Individual<T>>::empty());
        }
        if x.fit() == f {
            assert(r.filter(pred) =~= s.filter(pred).push(x));
        } else {
            assert(r.filter(pred) =~= s.filter(pred));
        }
    } else {
        // x goes in front; every element of s has fitness strictly below
        // x's, so when f == x.fit() nothing in s matches
        let r = seq![x] + s;
        Seq::filter_distributes_over_add(seq![x], s, pred);
        assert(seq![x].drop_last() =~= Seq::<Individual<T>>::empty());
        if x.fit() == f {
            assert forall|i: int| 0 <= i < s.len() implies s[i].fit() != f by {
                if i > 0 {
                    assert(s[0].fit() >= s[i].fit());
                }
            }
            lemma_filter_none_matches(s, f);
            assert(seq![x].filter(pred) =~= Seq::<Individual<T>>::empty().push(x));
            assert(r.filter(pred) =~= s.filter(pred).push(x));
        } else {
            assert(seq![x].filter(pred) =~= Seq::<Individual<T>>::empty());
            assert(r.filter(pred) =~= s.filter(pred));
        }
    }
}

/// A sequence in which no element has fitness `f` filters to empty.
proof fn lemma_filter_none_matches<T>(s: Seq<Individual<T>>, f: int)
    requires
        forall|i: int| 0 <= i < s.len() ==> s[i].fit() != f,
    ensures
        s.filter(|ind: Individual<T>| ind.fit() == f) == Seq::<Individual<T>>::empty(),
    decreases s.len(),
{
    reveal_with_fuel(Seq::filter, 2);
    if s.len() > 0 {
        lemma_filter_none_matches(s.drop_last(), f);
        assert(s.filter(|ind: Individual<T>| ind.fit() == f)
            =~= Seq::<Individual<T>>::empty());
    }
}

/// Where the inserted sequence places `x`: at the first position whose
/// element is strictly less fit, everything before it staying in place.
pub proof fn lemma_insert_desc_at<T>(s: Seq<Individual<T>>, x: Individual<T>, j: int)
    requires
        sorted_desc(s),
        0 <= j <= s.len(),
        forall|k: int| 0 <= k < j ==> s[k].fit() >= x.fit(),
        j < s.len() ==> s[j].fit() < x.fit(),
    ensures
        insert_desc(s, x) == s.take(j) + seq![x] + s.skip(j),
    decreases s.len(),
{
    if s.len() == 0 {
        assert(s.take(0) =~= Seq::<Individual<T>>::empty());
        assert(s.skip(0) =~= Seq::<Individual<T>>::empty());
        assert(insert_desc(s, x) =~= s.take(j) + seq![x] + s.skip(j));
    } else if s[0].fit() >= x.fit() {
        assert(j > 0);
        assert(sorted_desc(s.drop_first()));
        lemma_insert_desc_at(s.drop_first(), x, j - 1);
        assert(s.drop_first().take(j - 1) =~= s.take(j).drop_first());
        assert(s.drop_first().skip(j - 1) =~= s.skip(j));
        assert(seq![s[0]] + (s.drop_first().take(j - 1) + seq![x] + s.drop_first().skip(j - 1))
            =~= s.take(j) + seq![x] + s.skip(j));
    } else {
        assert(j == 0);
        assert(s.take(0) =~= Seq::<Individual<T>>::empty());
        assert(s.skip(0) =~= s);
        assert(seq![x] + s =~= s.take(0) + seq![x] + s.skip(0));
    }
}

/// A sorted population whose members are all rated sorts to one whose
/// members are all rated: sorting conserves membership.
pub proof fn lemma_stable_sort_all_rated<T>(s: Seq<Individual<T>>)
    requires
        forall|i: int| 0 <= i < s.len() ==> s[i].fitness_spec() is Some,
    ensures
        forall|i: int|
            0 <= i < stable_sort(s).len() ==> stable_sort(s)[i].fitness_spec() is Some,
{
    broadcast use vstd::seq_lib::group_to_multiset_ensures;

    lemma_stable_sort_multiset(s);
    lemma_stable_sort_len(s);
    assert forall|i: int|
        0 <= i < stable_sort(s).len() implies stable_sort(s)[i].fitness_spec() is Some by {
        let x = stable_sort(s)[i];
        assert(stable_sort(s).contains(x));
        assert(stable_sort(s).to_multiset().count(x) > 0);
        assert(s.to_multiset().count(x) > 0);
        assert(s.contains(x));
        let k = choose|k: int| 0 <= k < s.len() && s[k] == x;
        assert(s[k].fitness_spec() is Some);
    }
}

} // verus!
