//! The host-side selection stage: rank the scored map sets, keep the top
//! ones as elites, and rebuild the population from elites and children.
//!
//! Ranking orders map-set indices by descending score and breaks ties by
//! the original index, so equally scored map sets keep their order (a
//! stable sort).  That order is strict and total on the indices, which
//! pins the ranking down uniquely.  The mutation that turns an elite into
//! a child perturbs floating-point parameters and is the driver's; the
//! shape of the new population — elites first, then the children — is
//! fixed here.

use vstd::prelude::*;

verus! {

/// Index `a` strictly precedes index `b` in the ranking: a higher score
/// wins, and equal scores keep the original index order.
pub open spec fn rank_before(scores: Seq<u32>, a: int, b: int) -> bool {
    scores[a] > scores[b] || (scores[a] == scores[b] && a < b)
}

/// `r` is the ranking of the map-set indices under `scores`: a permutation
/// of `0 .. scores.len()` that is strictly sorted by descending score with
/// ties broken by ascending index.
pub open spec fn is_ranking(scores: Seq<u32>, r: Seq<usize>) -> bool {
    &&& r.len() == scores.len()
    &&& forall|i: int| 0 <= i < r.len() ==> (#[trigger] r[i]) < scores.len()
    &&& forall|i: int, j: int|
        #![trigger r[i], r[j]]
        0 <= i < j < r.len() ==> rank_before(scores, r[i] as int, r[j] as int)
    &&& forall|v: usize| v < scores.len() ==> #[trigger] r.contains(v)
}

/// Ranks the map-set indices by score: highest first, ties by original
/// index.  The result is the unique ranking of `scores`.
pub fn rank_by_score(scores: &Vec<u32>) -> (r: Vec<usize>)
    ensures
        is_ranking(scores@, r@),
{
    let mut r: Vec<usize> = Vec::new();
    let mut k: usize = 0;
    while k < scores.len()
        invariant
            k <= scores@.len(),
            r@.len() == k,
            forall|i: int| 0 <= i < k ==> (#[trigger] r@[i]) < k,
            forall|i: int, j: int|
                #![trigger r@[i], r@[j]]
                0 <= i < j < k ==> rank_before(scores@, r@[i] as int, r@[j] as int),
            forall|v: usize| v < k ==> #[trigger] r@.contains(v),
        decreases scores@.len() - k,
    {
        let mut pos: usize = 0;
        while pos < r.len() && scores[r[pos]] >= scores[k]
            invariant
                pos <= r@.len(),
                r@.len() == k,
                k < scores@.len(),
                forall|i: int| 0 <= i < k ==> (#[trigger] r@[i]) < k,
                forall|i: int| 0 <= i < pos ==> rank_before(scores@, #[trigger] r@[i] as int, k as int),
            decreases r@.len() - pos,
        {
            proof {
                assert(rank_before(scores@, r@[pos as int] as int, k as int));
            }
            pos = pos + 1;
        }
        proof {
            lemma_insertion_position(scores@, r@, k as int, pos as int);
        }
        let ghost pre = r@;
        r.insert(pos, k);
        proof {
            pre.insert_ensures(pos as int, k);
            assert(r@ == pre.insert(pos as int, k));
            assert forall|i: int| 0 <= i < r@.len() implies (#[trigger] r@[i]) < k + 1 by {
                if i < pos {
                    assert(r@[i] == pre[i]);
                } else if i > pos {
                    assert(r@[i] == pre[i - 1]);
                }
            }
            assert forall|i: int, j: int| #![trigger r@[i], r@[j]] 0 <= i < j < r@.len() implies
                rank_before(scores@, r@[i] as int, r@[j] as int) by {
                if j < pos {
                    assert(r@[i] == pre[i] && r@[j] == pre[j]);
                } else if j == pos {
                    assert(r@[i] == pre[i]);
                } else if i < pos {
                    assert(r@[i] == pre[i] && r@[j] == pre[j - 1]);
                    assert(rank_before(scores@, pre[i] as int, k as int));
                    assert(rank_before(scores@, k as int, pre[j - 1] as int));
                } else if i == pos {
                    assert(r@[j] == pre[j - 1]);
                    assert(rank_before(scores@, k as int, pre[j - 1] as int));
                } else {
                    assert(r@[i] == pre[i - 1] && r@[j] == pre[j - 1]);
                }
            }
            assert forall|v: usize| v < k + 1 implies #[trigger] r@.contains(v) by {
                if v == k {
                    assert(r@[pos as int] == v);
                } else {
                    assert(pre.contains(v));
                    let i0 = choose|i: int| 0 <= i < pre.len() && (#[trigger] pre[i]) == v;
                    if i0 < pos {
                        assert(r@[i0] == v);
                    } else {
                        assert(r@[i0 + 1] == v);
                    }
                }
            }
        }
        k = k + 1;
    }
    r
}

/// Law: the ranking contract pins the result down uniquely.  Descending
/// score with ties broken by the original index is a strict total order on
/// the map-set indices, so any two rankings of the same scores are equal:
/// in particular the tie-break is an explicit contract, not an accident of
/// the sort used.
pub proof fn lemma_ranking_unique(scores: Seq<u32>, r1: Seq<usize>, r2: Seq<usize>)
    requires
        is_ranking(scores, r1),
        is_ranking(scores, r2),
    ensures
        r1 == r2,
{
    lemma_rankings_agree_from(scores, r1, r2, 0);
    assert(r1 =~= r2);
}

/// Rankings that agree below position `i` agree everywhere.
proof fn lemma_rankings_agree_from(scores: Seq<u32>, r1: Seq<usize>, r2: Seq<usize>, i: int)
    requires
        is_ranking(scores, r1),
        is_ranking(scores, r2),
        0 <= i <= r1.len(),
        forall|j: int| 0 <= j < i ==> r1[j] == r2[j],
    ensures
        forall|j: int| 0 <= j < r1.len() ==> r1[j] == r2[j],
    decreases r1.len() - i,
{
    if i < r1.len() {
        let a = r1[i];
        let b = r2[i];
        if a != b {
            assert(r1.contains(b));
            let p = choose|p: int| 0 <= p < r1.len() && (#[trigger] r1[p]) == b;
            if p < i {
                assert(r2[p] == b);
                assert(rank_before(scores, r2[p] as int, r2[i] as int));
            }
            assert(p > i);
            assert(rank_before(scores, r1[i] as int, r1[p] as int));
            assert(r2.contains(a));
            let q = choose|q: int| 0 <= q < r2.len() && (#[trigger] r2[q]) == a;
            if q < i {
                assert(r1[q] == a);
                assert(rank_before(scores, r1[q] as int, r1[i] as int));
            }
            assert(q > i);
            assert(rank_before(scores, r2[i] as int, r2[q] as int));
            assert(false);
        }
        lemma_rankings_agree_from(scores, r1, r2, i + 1);
    }
}

/// Map set `i` of a flat population: its `maps_per_set` consecutive entries.
pub open spec fn map_set<T>(population: Seq<T>, i: int, maps_per_set: int) -> Seq<T> {
    population.subrange(i * maps_per_set, i * maps_per_set + maps_per_set)
}

/// Gathers the elite pool: the full map sets of the top `elite_len` ranked
/// map-set indices, concatenated in rank order.
pub fn elite_pool<T: Copy>(
    population: &Vec<T>,
    ranked: &Vec<usize>,
    elite_len: usize,
    maps_per_set: usize,
) -> (elites: Vec<T>)
    requires
        1 <= maps_per_set,
        population@.len() == ranked@.len() * maps_per_set,
        elite_len <= ranked@.len(),
        forall|i: int| 0 <= i < ranked@.len() ==> (#[trigger] ranked@[i]) < ranked@.len(),
    ensures
        elites@.len() == elite_len * maps_per_set,
        forall|e: int, k: int|
            #![trigger elites@[e * maps_per_set + k]]
            0 <= e < elite_len && 0 <= k < maps_per_set ==> elites@[e * maps_per_set + k]
                == population@[ranked@[e] * maps_per_set + k],
{
    let pop_len = population.len();
    let mut elites: Vec<T> = Vec::new();
    let mut e: usize = 0;
    while e < elite_len
        invariant
            e <= elite_len,
            elite_len <= ranked@.len(),
            1 <= maps_per_set,
            pop_len == population@.len(),
            population@.len() == ranked@.len() * maps_per_set,
            forall|i: int| 0 <= i < ranked@.len() ==> (#[trigger] ranked@[i]) < ranked@.len(),
            elites@.len() == e * maps_per_set,
            forall|e2: int, k2: int|
                #![trigger elites@[e2 * maps_per_set + k2]]
                0 <= e2 < e && 0 <= k2 < maps_per_set ==> elites@[e2 * maps_per_set + k2]
                    == population@[ranked@[e2] * maps_per_set + k2],
        decreases elite_len - e,
    {
        proof {
            vstd::arithmetic::mul::lemma_mul_inequality(
                ranked@[e as int] + 1,
                ranked@.len() as int,
                maps_per_set as int,
            );
            vstd::arithmetic::mul::lemma_mul_inequality(
                e + 1,
                ranked@.len() as int,
                maps_per_set as int,
            );
            assert((ranked@[e as int] + 1) * maps_per_set == ranked@[e as int] * maps_per_set
                + maps_per_set) by (nonlinear_arith);
            assert((e + 1) * maps_per_set == e * maps_per_set + maps_per_set) by (nonlinear_arith);
        }
        let base: usize = ranked[e] * maps_per_set;
        let mut k: usize = 0;
        while k < maps_per_set
            invariant
                k <= maps_per_set,
                e < elite_len,
                elite_len <= ranked@.len(),
                1 <= maps_per_set,
                pop_len == population@.len(),
                population@.len() == ranked@.len() * maps_per_set,
                forall|i: int| 0 <= i < ranked@.len() ==> (#[trigger] ranked@[i]) < ranked@.len(),
                base == ranked@[e as int] * maps_per_set,
                base + maps_per_set <= population@.len(),
                elites@.len() == e * maps_per_set + k,
                forall|e2: int, k2: int|
                    #![trigger elites@[e2 * maps_per_set + k2]]
                    0 <= e2 < e && 0 <= k2 < maps_per_set ==> elites@[e2 * maps_per_set + k2]
                        == population@[ranked@[e2] * maps_per_set + k2],
                forall|k2: int|
                    0 <= k2 < k ==> #[trigger] elites@[e * maps_per_set + k2] == population@[base
                        + k2],
            decreases maps_per_set - k,
        {
            elites.push(population[base + k]);
            k = k + 1;
            proof {
                assert forall|e2: int, k2: int|
                    #![trigger elites@[e2 * maps_per_set + k2]]
                    0 <= e2 < e && 0 <= k2 < maps_per_set implies elites@[e2 * maps_per_set + k2]
                    == population@[ranked@[e2] * maps_per_set + k2] by {
                    vstd::arithmetic::mul::lemma_mul_inequality(e2 + 1, e as int, maps_per_set as int);
                    assert((e2 + 1) * maps_per_set == e2 * maps_per_set + maps_per_set)
                        by (nonlinear_arith);
                }
            }
        }
        e = e + 1;
        proof {
            assert forall|e2: int, k2: int|
                #![trigger elites@[e2 * maps_per_set + k2]]
                0 <= e2 < e && 0 <= k2 < maps_per_set implies elites@[e2 * maps_per_set + k2]
                == population@[ranked@[e2] * maps_per_set + k2] by {
                if e2 == e - 1 {
                    assert(elites@[e2 * maps_per_set + k2] == population@[base + k2]);
                }
            }
        }
    }
    elites
}

/// Rebuilds the population for the next generation: the unmutated elite
/// pool first, then all the children, as one flat buffer.
pub fn next_population<T: Copy>(elites: &Vec<T>, children: &Vec<T>) -> (population: Vec<T>)
    ensures
        population@ == elites@ + children@,
        population@.len() == elites@.len() + children@.len(),
        population@.subrange(0, elites@.len() as int) == elites@,
{
    let mut population: Vec<T> = Vec::new();
    let mut i: usize = 0;
    while i < elites.len()
        invariant
            i <= elites@.len(),
            population@.len() == i,
            forall|m: int| 0 <= m < i ==> population@[m] == elites@[m],
        decreases elites@.len() - i,
    {
        population.push(elites[i]);
        i = i + 1;
    }
    let mut j: usize = 0;
    while j < children.len()
        invariant
            j <= children@.len(),
            population@.len() == elites@.len() + j,
            forall|m: int| 0 <= m < elites@.len() ==> population@[m] == elites@[m],
            forall|m: int|
                0 <= m < j ==> population@[elites@.len() + m] == children@[m],
        decreases children@.len() - j,
    {
        population.push(children[j]);
        j = j + 1;
    }
    proof {
        assert(population@ =~= elites@ + children@);
        assert(population@.subrange(0, elites@.len() as int) =~= elites@);
    }
    population
}

/// Law: one select cycle preserves the population length.  The elite pool
/// holds `elite_len` map sets and every elite yields `n_children` children,
/// so the rebuilt population always holds `elite_len * (1 + n_children)`
/// map sets of `maps_per_set` entries, exactly as many as it replaces.
pub proof fn lemma_select_preserves_population_len<T>(
    elites: Seq<T>,
    children: Seq<T>,
    elite_len: int,
    maps_per_set: int,
    n_children: int,
)
    requires
        elites.len() == elite_len * maps_per_set,
        children.len() == n_children * elites.len(),
    ensures
        (elites + children).len() == (elite_len * (1 + n_children)) * maps_per_set,
{
    assert(elite_len * maps_per_set + n_children * (elite_len * maps_per_set) == (elite_len * (1
        + n_children)) * maps_per_set) by (nonlinear_arith);
}

/// Law: elitism.  The top `elite_len` ranked map sets of the scored
/// population appear unmutated, in rank order, as the first `elite_len`
/// map sets of the rebuilt population, whatever children follow them; and
/// each of them scores at least as high as every map set ranked below
/// them.
pub proof fn lemma_elitism<T>(
    population: Seq<T>,
    scores: Seq<u32>,
    ranked: Seq<usize>,
    elites: Seq<T>,
    children: Seq<T>,
    elite_len: int,
    maps_per_set: int,
)
    requires
        is_ranking(scores, ranked),
        1 <= maps_per_set,
        0 <= elite_len <= ranked.len(),
        population.len() == ranked.len() * maps_per_set,
        elites.len() == elite_len * maps_per_set,
        forall|e: int, k: int|
            #![trigger elites[e * maps_per_set + k]]
            0 <= e < elite_len && 0 <= k < maps_per_set ==> elites[e * maps_per_set + k]
                == population[ranked[e] * maps_per_set + k],
    ensures
        forall|e: int|
            0 <= e < elite_len ==> #[trigger] map_set(elites + children, e, maps_per_set)
                == map_set(population, ranked[e] as int, maps_per_set),
        forall|e: int, p: int|
            #![trigger ranked[e], ranked[p]]
            0 <= e < elite_len && elite_len <= p < ranked.len() ==> scores[ranked[e] as int]
                >= scores[ranked[p] as int],
{
    assert forall|e: int| 0 <= e < elite_len implies #[trigger] map_set(
        elites + children,
        e,
        maps_per_set,
    ) == map_set(population, ranked[e] as int, maps_per_set) by {
        vstd::arithmetic::mul::lemma_mul_inequality(e + 1, elite_len, maps_per_set);
        assert((e + 1) * maps_per_set == e * maps_per_set + maps_per_set) by (nonlinear_arith);
        vstd::arithmetic::mul::lemma_mul_inequality(
            ranked[e] + 1,
            ranked.len() as int,
            maps_per_set,
        );
        assert((ranked[e] + 1) * maps_per_set == ranked[e] * maps_per_set + maps_per_set)
            by (nonlinear_arith);
        assert forall|k: int| 0 <= k < maps_per_set implies map_set(
            elites + children,
            e,
            maps_per_set,
        )[k] == map_set(population, ranked[e] as int, maps_per_set)[k] by {
            assert((elites + children)[e * maps_per_set + k] == elites[e * maps_per_set + k]);
        }
        assert(map_set(elites + children, e, maps_per_set) =~= map_set(
            population,
            ranked[e] as int,
            maps_per_set,
        ));
    }
    assert forall|e: int, p: int|
        #![trigger ranked[e], ranked[p]]
        0 <= e < elite_len && elite_len <= p < ranked.len() implies scores[ranked[e] as int]
        >= scores[ranked[p] as int] by {
        assert(rank_before(scores, ranked[e] as int, ranked[p] as int));
    }
}

/// After the scan, everything from the insertion position on ranks after
/// the new index `k`: the element at the position scores strictly lower
/// than `k`, and the sorted tail scores no higher than that element.
proof fn lemma_insertion_position(scores: Seq<u32>, r: Seq<usize>, k: int, pos: int)
    requires
        0 <= pos <= r.len(),
        r.len() < scores.len(),
        k == r.len(),
        forall|i: int| 0 <= i < r.len() ==> (#[trigger] r[i]) < r.len(),
        forall|i: int, j: int|
            #![trigger r[i], r[j]]
            0 <= i < j < r.len() ==> rank_before(scores, r[i] as int, r[j] as int),
        forall|i: int| 0 <= i < pos ==> rank_before(scores, #[trigger] r[i] as int, k),
        pos < r.len() ==> !(scores[r[pos] as int] >= scores[k]),
    ensures
        forall|i: int| pos <= i < r.len() ==> rank_before(scores, k, #[trigger] r[i] as int),
{
    assert forall|i: int| pos <= i < r.len() implies rank_before(scores, k, #[trigger] r[i] as int)
    by {
        if i > pos {
            assert(rank_before(scores, r[pos] as int, r[i] as int));
        }
    }
}

} // verus!
