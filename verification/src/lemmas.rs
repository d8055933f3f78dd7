//! Properties of the functional model's selection pipeline: every stage
//! hands on only eligible placements, never two on one pool (nor, under the
//! distinct-sled strategy, two on one sled), and the shuffle is a
//! permutation. The committer's proofs and the library's laws rest on these.

use vstd::prelude::*;

use crate::catalog::{
    dataset_index, dataset_index_upto, dataset_pool_id, dataset_provisionable, find_dataset,
    lemma_dataset_index_upto_props, lemma_pool_usage_upto_monotone, pool_usage, pool_usage_upto,
    CatalogModel, CrucibleDataset, RegionRecord, Zpool,
};
use crate::model::{
    apply_updates, best_dataset, best_dataset_upto, bumped_dataset, candidate_ok, candidate_pools,
    candidates_of, candidates_upto, eligible_pools, eligible_pools_upto, existing_pools,
    existing_pools_upto, insert_pos_upto, insert_sorted, lemma_insert_pos_upto_bounds, new_pairs,
    new_regions_from, placements_datasets_distinct, placements_pools_distinct,
    placements_sleds_distinct, pool_in_catalog, pool_passes, shuffle_sorted, shuffle_sorted_upto,
    sled_dedup_upto, sled_index, volume_pairs, volume_pairs_upto, volume_pools,
    volume_pools_upto, volume_region_count, volume_region_count_upto, CandidatePlacement,
};
use crate::params::RegionParameters;

verus! {

/// Unique ids make any occurrence of a dataset record the one its id finds.
pub proof fn lemma_find_dataset_of_member(datasets: Seq<CrucibleDataset>, i: int)
    requires
        forall|a: int, b: int| 0 <= a < b < datasets.len() ==> datasets[a].id != datasets[b].id,
        0 <= i < datasets.len(),
    ensures
        find_dataset(datasets, datasets[i].id) == Some(datasets[i]),
{
    lemma_dataset_index_upto_props(datasets, datasets[i].id, datasets.len() as int);
    match dataset_index(datasets, datasets[i].id) {
        Some(j) => {
            if i < j {
                assert(datasets[i].id != datasets[j].id);
            } else if j < i {
                assert(datasets[j].id != datasets[i].id);
            }
        },
        None => {
            assert(false);
        },
    }
}

/// A live dataset's own usage never exceeds its pool's usage sum.
pub proof fn lemma_dataset_usage_within_pool(datasets: Seq<CrucibleDataset>, i: int)
    requires
        0 <= i < datasets.len(),
        forall|k: int| 0 <= k < datasets.len() ==> datasets[k].size_used >= 0,
        !datasets[i].deleted,
    ensures
        datasets[i].size_used <= pool_usage(datasets, datasets[i].pool_id),
{
    let pid = datasets[i].pool_id;
    lemma_pool_usage_upto_monotone(datasets, pid, 0, i);
    assert(pool_usage_upto(datasets, pid, i + 1) == pool_usage_upto(datasets, pid, i)
        + datasets[i].size_used);
    lemma_pool_usage_upto_monotone(datasets, pid, i + 1, datasets.len() as int);
}

/// The eligible pools are pools of the catalog's prefix, each passing the
/// filter, and no id repeats.
pub proof fn lemma_eligible_pools_upto_facts(
    m: CatalogModel,
    size_delta: int,
    excluded: Seq<u128>,
    distinct_sleds: bool,
    n: int,
)
    requires
        0 <= n <= m.pools.len(),
        forall|a: int, b: int| 0 <= a < b < m.pools.len() ==> m.pools[a].id != m.pools[b].id,
    ensures
        ({
            let e = eligible_pools_upto(m, size_delta, excluded, distinct_sleds, n);
            &&& forall|j: int|
                0 <= j < e.len() ==> exists|i: int| 0 <= i < n && m.pools[i] == #[trigger] e[j]
            &&& forall|j: int|
                0 <= j < e.len() ==> pool_passes(
                    m,
                    #[trigger] e[j],
                    size_delta,
                    excluded,
                    distinct_sleds,
                )
            &&& forall|a: int, b: int| 0 <= a < b < e.len() ==> e[a].id != e[b].id
        }),
    decreases n,
{
    if n > 0 {
        lemma_eligible_pools_upto_facts(m, size_delta, excluded, distinct_sleds, n - 1);
        let prev = eligible_pools_upto(m, size_delta, excluded, distinct_sleds, n - 1);
        let e = eligible_pools_upto(m, size_delta, excluded, distinct_sleds, n);
        if pool_passes(m, m.pools[n - 1], size_delta, excluded, distinct_sleds) {
            assert(e == prev.push(m.pools[n - 1]));
            assert forall|j: int| 0 <= j < e.len() implies exists|i: int|
                0 <= i < n && m.pools[i] == #[trigger] e[j] by {
                if j < prev.len() {
                    let i = choose|i: int| 0 <= i < n - 1 && m.pools[i] == prev[j];
                    assert(0 <= i < n && m.pools[i] == e[j]);
                } else {
                    assert(e[j] == m.pools[n - 1]);
                    assert(0 <= n - 1 < n && m.pools[n - 1] == e[j]);
                }
            }
            assert forall|a: int, b: int| 0 <= a < b < e.len() implies e[a].id != e[b].id by {
                if b < prev.len() {
                } else {
                    let i = choose|i: int| 0 <= i < n - 1 && m.pools[i] == prev[a];
                    assert(m.pools[i].id != m.pools[n - 1].id);
                }
            }
        }
    }
}

/// Sled deduplication keeps only pools of its input, one per sled.
pub proof fn lemma_sled_dedup_upto_facts(pools: Seq<Zpool>, seed: u128, n: int)
    requires
        0 <= n <= pools.len(),
    ensures
        ({
            let d = sled_dedup_upto(pools, seed, n);
            &&& forall|j: int|
                0 <= j < d.len() ==> exists|i: int| 0 <= i < n && pools[i] == #[trigger] d[j]
            &&& forall|a: int, b: int| 0 <= a < b < d.len() ==> d[a].sled_id != d[b].sled_id
        }),
    decreases n,
{
    if n > 0 {
        lemma_sled_dedup_upto_facts(pools, seed, n - 1);
        let prev = sled_dedup_upto(pools, seed, n - 1);
        let d = sled_dedup_upto(pools, seed, n);
        let p = pools[n - 1];
        crate::model::lemma_sled_index_upto_props(prev, p.sled_id, prev.len() as int);
        match sled_index(prev, p.sled_id) {
            None => {
                assert(d == prev.push(p));
                assert forall|j: int| 0 <= j < d.len() implies exists|i: int|
                    0 <= i < n && pools[i] == #[trigger] d[j] by {
                    if j < prev.len() {
                        let i = choose|i: int| 0 <= i < n - 1 && pools[i] == prev[j];
                        assert(0 <= i < n && pools[i] == d[j]);
                    } else {
                        assert(d[j] == p);
                        assert(pools[n - 1] == d[j]);
                    }
                }
                assert forall|a: int, b: int| 0 <= a < b < d.len() implies d[a].sled_id
                    != d[b].sled_id by {
                    if b == prev.len() {
                        assert(prev[a].sled_id != p.sled_id);
                    }
                }
            },
            Some(i) => {
                if crate::shuffle::shuffle_lt(p.id, prev[i].id, seed) {
                    assert(d == prev.update(i, p));
                    assert forall|j: int| 0 <= j < d.len() implies exists|ii: int|
                        0 <= ii < n && pools[ii] == #[trigger] d[j] by {
                        if j == i {
                            assert(d[j] == p);
                            assert(pools[n - 1] == d[j]);
                        } else {
                            let ii = choose|ii: int| 0 <= ii < n - 1 && pools[ii] == prev[j];
                            assert(0 <= ii < n && pools[ii] == d[j]);
                        }
                    }
                    assert forall|a: int, b: int| 0 <= a < b < d.len() implies d[a].sled_id
                        != d[b].sled_id by {
                        assert(d[i].sled_id == prev[i].sled_id);
                    }
                }
            },
        }
    }
}

/// A chosen best dataset is a provisionable dataset of the pool, taken from
/// the catalog's prefix.
pub proof fn lemma_best_dataset_upto_facts(
    datasets: Seq<CrucibleDataset>,
    pool_id: u128,
    seed: u128,
    n: int,
)
    requires
        0 <= n <= datasets.len(),
    ensures
        match best_dataset_upto(datasets, pool_id, seed, n) {
            Some(d) => (exists|i: int| 0 <= i < n && datasets[i] == d) && d.pool_id == pool_id
                && dataset_provisionable(d),
            None => true,
        },
    decreases n,
{
    if n > 0 {
        lemma_best_dataset_upto_facts(datasets, pool_id, seed, n - 1);
        match best_dataset_upto(datasets, pool_id, seed, n) {
            Some(d) => {
                if d == datasets[n - 1] {
                    assert(0 <= n - 1 < n && datasets[n - 1] == d);
                }
            },
            None => {},
        }
    }
}

/// Candidates pair pools of the candidate list with their chosen datasets;
/// no pool and no dataset repeats, and sled distinctness carries over.
pub proof fn lemma_candidates_upto_facts(
    m: CatalogModel,
    pools: Seq<Zpool>,
    seed: u128,
    n: int,
)
    requires
        0 <= n <= pools.len(),
        forall|a: int, b: int| 0 <= a < b < pools.len() ==> pools[a].id != pools[b].id,
    ensures
        ({
            let c = candidates_upto(m, pools, seed, n);
            &&& forall|k: int|
                0 <= k < c.len() ==> exists|j: int|
                    0 <= j < n && pools[j] == (#[trigger] c[k]).pool && best_dataset(
                        m,
                        pools[j].id,
                        seed,
                    ) == Some(c[k].dataset)
            &&& forall|a: int, b: int| 0 <= a < b < c.len() ==> c[a].pool.id != c[b].pool.id
        }),
    decreases n,
{
    if n > 0 {
        lemma_candidates_upto_facts(m, pools, seed, n - 1);
        let prev = candidates_upto(m, pools, seed, n - 1);
        let c = candidates_upto(m, pools, seed, n);
        match best_dataset(m, pools[n - 1].id, seed) {
            Some(d) => {
                assert(c == prev.push(CandidatePlacement { pool: pools[n - 1], dataset: d }));
                assert forall|k: int| 0 <= k < c.len() implies exists|j: int|
                    0 <= j < n && pools[j] == (#[trigger] c[k]).pool && best_dataset(
                        m,
                        pools[j].id,
                        seed,
                    ) == Some(c[k].dataset) by {
                    if k < prev.len() {
                        let j = choose|j: int|
                            0 <= j < n - 1 && pools[j] == prev[k].pool && best_dataset(
                                m,
                                pools[j].id,
                                seed,
                            ) == Some(prev[k].dataset);
                        assert(0 <= j < n && pools[j] == c[k].pool && best_dataset(
                            m,
                            pools[j].id,
                            seed,
                        ) == Some(c[k].dataset));
                    } else {
                        assert(c[k].pool == pools[n - 1]);
                        assert(pools[n - 1] == c[k].pool && best_dataset(m, pools[n - 1].id, seed)
                            == Some(c[k].dataset));
                    }
                }
                assert forall|a: int, b: int| 0 <= a < b < c.len() implies c[a].pool.id
                    != c[b].pool.id by {
                    if b == prev.len() {
                        let j = choose|j: int|
                            0 <= j < n - 1 && pools[j] == prev[a].pool && best_dataset(
                                m,
                                pools[j].id,
                                seed,
                            ) == Some(prev[a].dataset);
                        assert(pools[j].id != pools[n - 1].id);
                    }
                }
            },
            None => {},
        }
    }
}

/// How inserting a candidate rearranges the sequence: the prefix up to the
/// insertion position stays, the candidate lands there, the rest shifts by
/// one.
pub proof fn lemma_insert_sorted_index(s: Seq<CandidatePlacement>, x: CandidatePlacement, seed: u128)
    ensures
        ({
            let t = insert_sorted(s, x, seed);
            let pos = insert_pos_upto(s, x.dataset.id, seed, s.len() as int);
            &&& 0 <= pos <= s.len()
            &&& t.len() == s.len() + 1
            &&& forall|i: int| 0 <= i < pos ==> #[trigger] t[i] == s[i]
            &&& t[pos] == x
            &&& forall|i: int| pos < i < t.len() ==> #[trigger] t[i] == s[i - 1]
        }),
{
    lemma_insert_pos_upto_bounds(s, x.dataset.id, seed, s.len() as int);
    let pos = insert_pos_upto(s, x.dataset.id, seed, s.len() as int);
    s.insert_ensures(pos, x);
}

/// The shuffled prefix holds exactly `n` entries, each one of the first `n`
/// candidates, and keeps every pairwise-distinctness the candidates had.
pub proof fn lemma_shuffle_sorted_upto_facts(cands: Seq<CandidatePlacement>, seed: u128, n: int)
    requires
        0 <= n <= cands.len(),
    ensures
        ({
            let s = shuffle_sorted_upto(cands, seed, n);
            &&& s.len() == n
            &&& forall|j: int|
                0 <= j < s.len() ==> exists|k: int| 0 <= k < n && cands[k] == #[trigger] s[j]
            &&& placements_pools_distinct(cands) ==> placements_pools_distinct(s)
            &&& placements_sleds_distinct(cands) ==> placements_sleds_distinct(s)
            &&& placements_datasets_distinct(cands) ==> placements_datasets_distinct(s)
        }),
    decreases n,
{
    if n > 0 {
        lemma_shuffle_sorted_upto_facts(cands, seed, n - 1);
        let prev = shuffle_sorted_upto(cands, seed, n - 1);
        let x = cands[n - 1];
        let s = shuffle_sorted_upto(cands, seed, n);
        lemma_insert_sorted_index(prev, x, seed);
        let pos = insert_pos_upto(prev, x.dataset.id, seed, prev.len() as int);
        assert forall|j: int| 0 <= j < s.len() implies exists|k: int|
            0 <= k < n && cands[k] == #[trigger] s[j] by {
            if j < pos {
                let k = choose|k: int| 0 <= k < n - 1 && cands[k] == prev[j];
                assert(cands[k] == s[j]);
            } else if j == pos {
                assert(cands[n - 1] == s[j]);
            } else {
                let k = choose|k: int| 0 <= k < n - 1 && cands[k] == prev[j - 1];
                assert(cands[k] == s[j]);
            }
        }
        if placements_pools_distinct(cands) {
            assert forall|a: int, b: int| 0 <= a < b < s.len() implies s[a].dataset.pool_id
                != s[b].dataset.pool_id by {
                lemma_insert_distinct_helper(cands, prev, seed, n, pos, a, b);
                let pa = to_prev_index(pos, a);
                let pb = to_prev_index(pos, b);
                if a != pos && b != pos {
                    assert(s[a] == prev[pa] && s[b] == prev[pb]);
                } else if a == pos {
                    let k = choose|k: int| 0 <= k < n - 1 && cands[k] == prev[pb];
                    assert(s[a] == cands[n - 1] && s[b] == cands[k]);
                } else {
                    let k = choose|k: int| 0 <= k < n - 1 && cands[k] == prev[pa];
                    assert(s[b] == cands[n - 1] && s[a] == cands[k]);
                }
            }
        }
        if placements_sleds_distinct(cands) {
            assert forall|a: int, b: int| 0 <= a < b < s.len() implies s[a].pool.sled_id
                != s[b].pool.sled_id by {
                lemma_insert_distinct_helper(cands, prev, seed, n, pos, a, b);
                let pa = to_prev_index(pos, a);
                let pb = to_prev_index(pos, b);
                if a != pos && b != pos {
                    assert(s[a] == prev[pa] && s[b] == prev[pb]);
                } else if a == pos {
                    let k = choose|k: int| 0 <= k < n - 1 && cands[k] == prev[pb];
                    assert(s[a] == cands[n - 1] && s[b] == cands[k]);
                } else {
                    let k = choose|k: int| 0 <= k < n - 1 && cands[k] == prev[pa];
                    assert(s[b] == cands[n - 1] && s[a] == cands[k]);
                }
            }
        }
        if placements_datasets_distinct(cands) {
            assert forall|a: int, b: int| 0 <= a < b < s.len() implies s[a].dataset.id
                != s[b].dataset.id by {
                lemma_insert_distinct_helper(cands, prev, seed, n, pos, a, b);
                let pa = to_prev_index(pos, a);
                let pb = to_prev_index(pos, b);
                if a != pos && b != pos {
                    assert(s[a] == prev[pa] && s[b] == prev[pb]);
                } else if a == pos {
                    let k = choose|k: int| 0 <= k < n - 1 && cands[k] == prev[pb];
                    assert(s[a] == cands[n - 1] && s[b] == cands[k]);
                } else {
                    let k = choose|k: int| 0 <= k < n - 1 && cands[k] == prev[pa];
                    assert(s[b] == cands[n - 1] && s[a] == cands[k]);
                }
            }
        }
    }
}

/// What the whole selection pipeline guarantees on a well-formed catalog:
/// the shuffled candidates are as many as the candidates, every one is a
/// sound placement, no two share a pool or a dataset, and under the
/// distinct-sled strategy no two share a sled.
pub proof fn lemma_selection_facts(
    m: CatalogModel,
    size_delta: int,
    excluded: Seq<u128>,
    distinct_sleds: bool,
    seed: u128,
)
    requires
        m.wf(),
    ensures
        ({
            let cand_pools = candidate_pools(m, size_delta, excluded, distinct_sleds, seed);
            let cands = candidates_of(m, cand_pools, seed);
            let sorted = shuffle_sorted(cands, seed);
            &&& sorted.len() == cands.len()
            &&& forall|j: int|
                0 <= j < sorted.len() ==> candidate_ok(
                    m,
                    size_delta,
                    excluded,
                    distinct_sleds,
                    #[trigger] sorted[j],
                )
            &&& placements_pools_distinct(sorted)
            &&& placements_datasets_distinct(sorted)
            &&& distinct_sleds ==> placements_sleds_distinct(sorted)
        }),
{
    let elig = eligible_pools(m, size_delta, excluded, distinct_sleds);
    lemma_eligible_pools_upto_facts(m, size_delta, excluded, distinct_sleds, m.pools.len() as int);
    let cp = candidate_pools(m, size_delta, excluded, distinct_sleds, seed);

    // The candidate pools are eligible catalog pools with pairwise distinct
    // ids; under distinct sleds, with pairwise distinct sleds too.
    assert(forall|j: int|
        0 <= j < cp.len() ==> pool_passes(m, #[trigger] cp[j], size_delta, excluded, distinct_sleds)
            && crate::model::pool_in_catalog(m, cp[j])) by {
        if distinct_sleds {
            lemma_sled_dedup_upto_facts(elig, seed, elig.len() as int);
            assert forall|j: int| 0 <= j < cp.len() implies pool_passes(
                m,
                #[trigger] cp[j],
                size_delta,
                excluded,
                distinct_sleds,
            ) && crate::model::pool_in_catalog(m, cp[j]) by {
                let i = choose|i: int| 0 <= i < elig.len() && elig[i] == cp[j];
                assert(pool_passes(m, elig[i], size_delta, excluded, distinct_sleds));
                let ii = choose|ii: int| 0 <= ii < m.pools.len() && m.pools[ii] == elig[i];
                assert(crate::model::pool_in_catalog(m, cp[j]));
            }
        } else {
            assert forall|j: int| 0 <= j < cp.len() implies pool_passes(
                m,
                #[trigger] cp[j],
                size_delta,
                excluded,
                distinct_sleds,
            ) && crate::model::pool_in_catalog(m, cp[j]) by {
                let ii = choose|ii: int| 0 <= ii < m.pools.len() && m.pools[ii] == elig[j];
                assert(crate::model::pool_in_catalog(m, cp[j]));
            }
        }
    }
    assert(forall|a: int, b: int| 0 <= a < b < cp.len() ==> cp[a].id != cp[b].id) by {
        if distinct_sleds {
            lemma_sled_dedup_upto_facts(elig, seed, elig.len() as int);
            assert forall|a: int, b: int| 0 <= a < b < cp.len() implies cp[a].id != cp[b].id by {
                let ia = choose|i: int| 0 <= i < elig.len() && elig[i] == cp[a];
                let ib = choose|i: int| 0 <= i < elig.len() && elig[i] == cp[b];
                if cp[a].id == cp[b].id {
                    if ia != ib {
                        assert(elig[ia].id != elig[ib].id);
                    } else {
                        assert(cp[a].sled_id != cp[b].sled_id);
                    }
                }
            }
        }
    }

    // The candidates: sound placements, pairwise distinct pools, datasets
    // and (under distinct sleds) sleds.
    let cands = candidates_of(m, cp, seed);
    lemma_candidates_upto_facts(m, cp, seed, cp.len() as int);
    assert forall|k: int| 0 <= k < cands.len() implies candidate_ok(
        m,
        size_delta,
        excluded,
        distinct_sleds,
        #[trigger] cands[k],
    ) by {
        let j = choose|j: int|
            0 <= j < cp.len() && cp[j] == cands[k].pool && best_dataset(m, cp[j].id, seed) == Some(
                cands[k].dataset,
            );
        assert(pool_passes(m, cp[j], size_delta, excluded, distinct_sleds));
        lemma_best_dataset_upto_facts(m.datasets, cp[j].id, seed, m.datasets.len() as int);
        let i = choose|i: int| 0 <= i < m.datasets.len() && m.datasets[i] == cands[k].dataset;
        lemma_find_dataset_of_member(m.datasets, i);
    }
    assert(placements_pools_distinct(cands)) by {
        assert forall|a: int, b: int| 0 <= a < b < cands.len() implies cands[a].dataset.pool_id
            != cands[b].dataset.pool_id by {
            assert(candidate_ok(m, size_delta, excluded, distinct_sleds, cands[a]));
            assert(candidate_ok(m, size_delta, excluded, distinct_sleds, cands[b]));
            assert(cands[a].pool.id != cands[b].pool.id);
        }
    }
    assert(placements_datasets_distinct(cands)) by {
        assert forall|a: int, b: int| 0 <= a < b < cands.len() implies cands[a].dataset.id
            != cands[b].dataset.id by {
            assert(candidate_ok(m, size_delta, excluded, distinct_sleds, cands[a]));
            assert(candidate_ok(m, size_delta, excluded, distinct_sleds, cands[b]));
            if cands[a].dataset.id == cands[b].dataset.id {
                let ia = choose|i: int|
                    0 <= i < m.datasets.len() && m.datasets[i] == cands[a].dataset;
                let ib = choose|i: int|
                    0 <= i < m.datasets.len() && m.datasets[i] == cands[b].dataset;
                if ia != ib {
                    assert(m.datasets[ia].id != m.datasets[ib].id);
                } else {
                    assert(cands[a].dataset.pool_id == cands[b].dataset.pool_id);
                }
            }
        }
    }
    if distinct_sleds {
        lemma_sled_dedup_upto_facts(elig, seed, elig.len() as int);
        assert(placements_sleds_distinct(cands)) by {
            assert forall|a: int, b: int| 0 <= a < b < cands.len() implies cands[a].pool.sled_id
                != cands[b].pool.sled_id by {
                let ja = choose|j: int|
                    0 <= j < cp.len() && cp[j] == cands[a].pool && best_dataset(m, cp[j].id, seed)
                        == Some(cands[a].dataset);
                let jb = choose|j: int|
                    0 <= j < cp.len() && cp[j] == cands[b].pool && best_dataset(m, cp[j].id, seed)
                        == Some(cands[b].dataset);
                if ja == jb {
                    assert(cands[a].pool.id == cands[b].pool.id);
                    assert(candidate_ok(m, size_delta, excluded, distinct_sleds, cands[a]));
                    assert(candidate_ok(m, size_delta, excluded, distinct_sleds, cands[b]));
                    assert(cands[a].dataset.pool_id == cands[b].dataset.pool_id);
                    assert(placements_pools_distinct(cands));
                    assert(false);
                } else if ja < jb {
                    assert(cp[ja].sled_id != cp[jb].sled_id);
                } else {
                    assert(cp[jb].sled_id != cp[ja].sled_id);
                }
            }
        }
    }

    // The shuffle keeps every one of these properties.
    lemma_shuffle_sorted_upto_facts(cands, seed, cands.len() as int);
    let sorted = shuffle_sorted(cands, seed);
    assert forall|j: int| 0 <= j < sorted.len() implies candidate_ok(
        m,
        size_delta,
        excluded,
        distinct_sleds,
        #[trigger] sorted[j],
    ) by {
        let k = choose|k: int| 0 <= k < cands.len() && cands[k] == sorted[j];
        assert(candidate_ok(m, size_delta, excluded, distinct_sleds, cands[k]));
    }
}

/// Usage updates keep the length and every dataset's identity in place:
/// only `size_used` changes.
pub proof fn lemma_apply_updates_shape(
    datasets: Seq<CrucibleDataset>,
    selected: Seq<CandidatePlacement>,
    size_delta: int,
    n: int,
)
    requires
        0 <= n,
    ensures
        ({
            let a = apply_updates(datasets, selected, size_delta, n);
            &&& a.len() == datasets.len()
            &&& forall|p: int|
                0 <= p < datasets.len() ==> (#[trigger] a[p]).id == datasets[p].id && a[p].pool_id
                    == datasets[p].pool_id && a[p].deleted == datasets[p].deleted
                    && a[p].no_provision == datasets[p].no_provision
        }),
    decreases n,
{
    if n > 0 {
        lemma_apply_updates_shape(datasets, selected, size_delta, n - 1);
        let prev = apply_updates(datasets, selected, size_delta, n - 1);
        lemma_dataset_index_upto_props(prev, selected[n - 1].dataset.id, prev.len() as int);
    }
}

/// Two dataset sequences whose ids agree pointwise agree on every
/// first-index lookup.
pub proof fn lemma_dataset_index_same_ids(
    s1: Seq<CrucibleDataset>,
    s2: Seq<CrucibleDataset>,
    dataset_id: u128,
    n: int,
)
    requires
        forall|p: int| 0 <= p < n ==> s1[p].id == s2[p].id,
        0 <= n <= s1.len(),
        n <= s2.len(),
    ensures
        dataset_index_upto(s1, dataset_id, n) == dataset_index_upto(s2, dataset_id, n),
    decreases n,
{
    if n > 0 {
        lemma_dataset_index_same_ids(s1, s2, dataset_id, n - 1);
    }
}

/// A position addressed by none of the first `n` selected datasets holds
/// its original record after the updates.
pub proof fn lemma_apply_updates_untouched(
    datasets: Seq<CrucibleDataset>,
    selected: Seq<CandidatePlacement>,
    size_delta: int,
    n: int,
    p: int,
)
    requires
        0 <= n,
        0 <= p < datasets.len(),
        forall|k: int|
            0 <= k < n ==> dataset_index(datasets, (#[trigger] selected[k]).dataset.id) != Some(p),
    ensures
        apply_updates(datasets, selected, size_delta, n)[p] == datasets[p],
    decreases n,
{
    if n > 0 {
        lemma_apply_updates_untouched(datasets, selected, size_delta, n - 1, p);
        let prev = apply_updates(datasets, selected, size_delta, n - 1);
        lemma_apply_updates_shape(datasets, selected, size_delta, n - 1);
        lemma_dataset_index_same_ids(
            prev,
            datasets,
            selected[n - 1].dataset.id,
            datasets.len() as int,
        );
        lemma_dataset_index_upto_props(prev, selected[n - 1].dataset.id, prev.len() as int);
    }
}

/// Updating one dataset's usage moves exactly its contribution to its own
/// pool's sum and no other pool's.
pub proof fn lemma_pool_usage_update(
    datasets: Seq<CrucibleDataset>,
    i: int,
    d2: CrucibleDataset,
    pid: u128,
    n: int,
)
    requires
        0 <= i < datasets.len(),
        d2.id == datasets[i].id,
        d2.pool_id == datasets[i].pool_id,
        d2.deleted == datasets[i].deleted,
        0 <= n <= datasets.len(),
    ensures
        pool_usage_upto(datasets.update(i, d2), pid, n) == pool_usage_upto(datasets, pid, n) + (
        if i < n && datasets[i].pool_id == pid && !datasets[i].deleted {
            d2.size_used - datasets[i].size_used
        } else {
            0
        }),
    decreases n,
{
    if n > 0 {
        lemma_pool_usage_update(datasets, i, d2, pid, n - 1);
    }
}

/// What each position holds after the updates: the original record, or —
/// where a selected dataset sits — the original with its usage increased.
pub proof fn lemma_apply_updates_pointwise(
    datasets: Seq<CrucibleDataset>,
    selected: Seq<CandidatePlacement>,
    size_delta: int,
    n: int,
    p: int,
)
    requires
        0 <= n <= selected.len(),
        0 <= p < datasets.len(),
        forall|a: int, b: int| 0 <= a < b < datasets.len() ==> datasets[a].id != datasets[b].id,
        forall|k: int|
            0 <= k < selected.len() ==> find_dataset(
                datasets,
                (#[trigger] selected[k]).dataset.id,
            ) == Some(selected[k].dataset),
        placements_datasets_distinct(selected),
    ensures
        ({
            let a = apply_updates(datasets, selected, size_delta, n);
            &&& (forall|k: int|
                0 <= k < n ==> dataset_index(datasets, (#[trigger] selected[k]).dataset.id)
                    != Some(p)) ==> a[p] == datasets[p]
            &&& forall|k: int|
                0 <= k < n && dataset_index(datasets, (#[trigger] selected[k]).dataset.id) == Some(
                    p,
                ) ==> a[p] == bumped_dataset(datasets[p], size_delta)
        }),
    decreases n,
{
    if n > 0 {
        lemma_apply_updates_pointwise(datasets, selected, size_delta, n - 1, p);
        let prev = apply_updates(datasets, selected, size_delta, n - 1);
        lemma_apply_updates_shape(datasets, selected, size_delta, n - 1);
        lemma_dataset_index_same_ids(
            prev,
            datasets,
            selected[n - 1].dataset.id,
            datasets.len() as int,
        );
        lemma_dataset_index_upto_props(datasets, selected[n - 1].dataset.id, datasets.len() as int);
        let j = dataset_index(datasets, selected[n - 1].dataset.id)->Some_0;
        assert(datasets[j] == selected[n - 1].dataset);
        assert forall|k: int| 0 <= k < n - 1 implies dataset_index(
            datasets,
            (#[trigger] selected[k]).dataset.id,
        ) != Some(j) by {
            if dataset_index(datasets, selected[k].dataset.id) == Some(j) {
                lemma_dataset_index_upto_props(datasets, selected[k].dataset.id, datasets.len() as int);
                assert(datasets[j] == selected[k].dataset);
                assert(selected[k].dataset.id == selected[n - 1].dataset.id);
            }
        }
        lemma_apply_updates_untouched(datasets, selected, size_delta, n - 1, j);
        assert(prev[j] == datasets[j]);
    }
}

/// How many of the first `n` selected placements land on the given pool.
pub open spec fn selected_pool_hits(selected: Seq<CandidatePlacement>, pid: u128, n: int) -> int
    decreases n,
{
    if n <= 0 {
        0
    } else {
        selected_pool_hits(selected, pid, n - 1) + if selected[n - 1].dataset.pool_id == pid {
            1int
        } else {
            0int
        }
    }
}

/// A pool's usage after the updates: the usage before, plus one reservation
/// per selected placement on that pool.
pub proof fn lemma_pool_usage_after_updates(
    datasets: Seq<CrucibleDataset>,
    selected: Seq<CandidatePlacement>,
    size_delta: int,
    n: int,
    pid: u128,
)
    requires
        0 <= n <= selected.len(),
        size_delta >= 0,
        forall|a: int, b: int| 0 <= a < b < datasets.len() ==> datasets[a].id != datasets[b].id,
        forall|k: int|
            0 <= k < selected.len() ==> find_dataset(
                datasets,
                (#[trigger] selected[k]).dataset.id,
            ) == Some(selected[k].dataset),
        forall|k: int|
            0 <= k < selected.len() ==> !(#[trigger] selected[k]).dataset.deleted,
        forall|k: int|
            0 <= k < selected.len() ==> (#[trigger] selected[k]).dataset.size_used + size_delta
                <= i64::MAX,
        placements_datasets_distinct(selected),
    ensures
        pool_usage(apply_updates(datasets, selected, size_delta, n), pid) == pool_usage(
            datasets,
            pid,
        ) + size_delta * selected_pool_hits(selected, pid, n),
    decreases n,
{
    if n > 0 {
        lemma_pool_usage_after_updates(datasets, selected, size_delta, n - 1, pid);
        let prev = apply_updates(datasets, selected, size_delta, n - 1);
        lemma_apply_updates_shape(datasets, selected, size_delta, n - 1);
        lemma_dataset_index_same_ids(
            prev,
            datasets,
            selected[n - 1].dataset.id,
            datasets.len() as int,
        );
        lemma_dataset_index_upto_props(datasets, selected[n - 1].dataset.id, datasets.len() as int);
        let j = dataset_index(datasets, selected[n - 1].dataset.id)->Some_0;
        assert(datasets[j] == selected[n - 1].dataset);
        assert forall|k: int| 0 <= k < n - 1 implies dataset_index(
            datasets,
            (#[trigger] selected[k]).dataset.id,
        ) != Some(j) by {
            if dataset_index(datasets, selected[k].dataset.id) == Some(j) {
                lemma_dataset_index_upto_props(datasets, selected[k].dataset.id, datasets.len() as int);
                assert(datasets[j] == selected[k].dataset);
                assert(selected[k].dataset.id == selected[n - 1].dataset.id);
            }
        }
        lemma_apply_updates_untouched(datasets, selected, size_delta, n - 1, j);
        assert(prev[j] == datasets[j]);
        let d2 = bumped_dataset(prev[j], size_delta);
        lemma_pool_usage_update(prev, j, d2, pid, prev.len() as int);
        assert(apply_updates(datasets, selected, size_delta, n) == prev.update(j, d2));
        assert(d2.size_used - prev[j].size_used == size_delta);
        let h = selected_pool_hits(selected, pid, n - 1);
        assert(size_delta * (h + 1) == size_delta * h + size_delta) by (nonlinear_arith);
    }
}

/// Counting a volume's regions looks only at the records in range.
pub proof fn lemma_volume_count_agree(
    r1: Seq<RegionRecord>,
    r2: Seq<RegionRecord>,
    volume_id: u128,
    n: int,
)
    requires
        0 <= n <= r1.len(),
        n <= r2.len(),
        forall|i: int| 0 <= i < n ==> r1[i] == r2[i],
    ensures
        volume_region_count_upto(r1, volume_id, n) == volume_region_count_upto(r2, volume_id, n),
    decreases n,
{
    if n > 0 {
        lemma_volume_count_agree(r1, r2, volume_id, n - 1);
    }
}

/// Counting over appended records splits into the two counts.
pub proof fn lemma_volume_count_concat(
    r1: Seq<RegionRecord>,
    r2: Seq<RegionRecord>,
    volume_id: u128,
    k: int,
)
    requires
        0 <= k <= r2.len(),
    ensures
        volume_region_count_upto(r1 + r2, volume_id, r1.len() + k) == volume_region_count(
            r1,
            volume_id,
        ) + volume_region_count_upto(r2, volume_id, k),
    decreases k,
{
    if k == 0 {
        lemma_volume_count_agree(r1, r1 + r2, volume_id, r1.len() as int);
    } else {
        lemma_volume_count_concat(r1, r2, volume_id, k - 1);
        assert((r1 + r2)[r1.len() + k - 1] == r2[k - 1]);
    }
}

/// Every record of the new-region sequence belongs to the volume, so it
/// counts one each.
pub proof fn lemma_volume_count_all_new(
    selected: Seq<CandidatePlacement>,
    volume_id: u128,
    params: RegionParameters,
    first_id: u128,
    k: int,
)
    requires
        0 <= k <= selected.len(),
    ensures
        volume_region_count_upto(
            new_regions_from(selected, volume_id, params, first_id),
            volume_id,
            k,
        ) == k,
    decreases k,
{
    if k > 0 {
        lemma_volume_count_all_new(selected, volume_id, params, first_id, k - 1);
    }
}

/// On a well-formed catalog, the volume's distinct-pool list holds one pool
/// per region — exactly the pools its regions use.
pub proof fn lemma_volume_pools_upto_facts(m: CatalogModel, volume_id: u128, n: int)
    requires
        m.wf(),
        0 <= n <= m.regions.len(),
    ensures
        ({
            let vp = volume_pools_upto(m, volume_id, n);
            &&& vp.len() == volume_region_count_upto(m.regions, volume_id, n)
            &&& forall|x: u128|
                #[trigger] vp.contains(x) <==> exists|i: int|
                    0 <= i < n && (#[trigger] m.regions[i]).volume_id == volume_id
                        && dataset_pool_id(m.datasets, m.regions[i].dataset_id) == Some(x)
        }),
    decreases n,
{
    if n > 0 {
        lemma_volume_pools_upto_facts(m, volume_id, n - 1);
        let prev = volume_pools_upto(m, volume_id, n - 1);
        let vp = volume_pools_upto(m, volume_id, n);
        let r = m.regions[n - 1];
        if r.volume_id == volume_id {
            assert(find_dataset(m.datasets, r.dataset_id) is Some);
            let p = dataset_pool_id(m.datasets, r.dataset_id)->Some_0;
            if prev.contains(p) {
                let i = choose|i: int|
                    0 <= i < n - 1 && (#[trigger] m.regions[i]).volume_id == volume_id
                        && dataset_pool_id(m.datasets, m.regions[i].dataset_id) == Some(p);
                assert(dataset_pool_id(m.datasets, m.regions[i].dataset_id) != dataset_pool_id(
                    m.datasets,
                    m.regions[n - 1].dataset_id,
                ));
                assert(false);
            }
            assert(vp == prev.push(p));
            assert forall|x: u128| #[trigger] vp.contains(x) implies exists|i: int|
                0 <= i < n && (#[trigger] m.regions[i]).volume_id == volume_id && dataset_pool_id(
                    m.datasets,
                    m.regions[i].dataset_id,
                ) == Some(x) by {
                let j = choose|j: int| 0 <= j < vp.len() && vp[j] == x;
                if j < prev.len() {
                    assert(prev.contains(x));
                } else {
                    assert(x == p);
                    assert((m.regions[n - 1]).volume_id == volume_id && dataset_pool_id(
                        m.datasets,
                        m.regions[n - 1].dataset_id,
                    ) == Some(x));
                }
            }
            assert forall|x: u128| (exists|i: int|
                0 <= i < n && (#[trigger] m.regions[i]).volume_id == volume_id && dataset_pool_id(
                    m.datasets,
                    m.regions[i].dataset_id,
                ) == Some(x)) implies #[trigger] vp.contains(x) by {
                let i = choose|i: int|
                    0 <= i < n && (#[trigger] m.regions[i]).volume_id == volume_id
                        && dataset_pool_id(m.datasets, m.regions[i].dataset_id) == Some(x);
                if i < n - 1 {
                    assert(prev.contains(x));
                    let j = choose|j: int| 0 <= j < prev.len() && prev[j] == x;
                    assert(vp[j] == x);
                } else {
                    assert(vp[prev.len() as int] == p);
                }
            }
        }
    }
}

/// The excluded-pool list extends the volume's pool list: it is at least as
/// long and keeps every entry.
pub proof fn lemma_existing_pools_superset(
    m: CatalogModel,
    volume_id: u128,
    snapshot_id: u128,
    n: int,
)
    requires
        0 <= n <= m.region_snapshots.len(),
    ensures
        volume_pools(m, volume_id).len() <= existing_pools_upto(m, volume_id, snapshot_id, n).len(),
        forall|x: u128|
            volume_pools(m, volume_id).contains(x) ==> #[trigger] existing_pools_upto(
                m,
                volume_id,
                snapshot_id,
                n,
            ).contains(x),
    decreases n,
{
    if n > 0 {
        lemma_existing_pools_superset(m, volume_id, snapshot_id, n - 1);
        let prev = existing_pools_upto(m, volume_id, snapshot_id, n - 1);
        let cur = existing_pools_upto(m, volume_id, snapshot_id, n);
        assert forall|x: u128|
            volume_pools(m, volume_id).contains(x) implies #[trigger] cur.contains(x) by {
            assert(prev.contains(x));
            let j = choose|j: int| 0 <= j < prev.len() && prev[j] == x;
            if cur != prev {
                assert(cur[j] == x);
            }
        }
    }
}

/// Usage updates change no dataset's pool lookup.
pub proof fn lemma_dataset_pool_id_after_updates(
    datasets: Seq<CrucibleDataset>,
    selected: Seq<CandidatePlacement>,
    size_delta: int,
    n: int,
    dataset_id: u128,
)
    requires
        0 <= n,
    ensures
        dataset_pool_id(apply_updates(datasets, selected, size_delta, n), dataset_id)
            == dataset_pool_id(datasets, dataset_id),
        dataset_index(apply_updates(datasets, selected, size_delta, n), dataset_id)
            == dataset_index(datasets, dataset_id),
{
    let a = apply_updates(datasets, selected, size_delta, n);
    lemma_apply_updates_shape(datasets, selected, size_delta, n);
    lemma_dataset_index_same_ids(a, datasets, dataset_id, datasets.len() as int);
    lemma_dataset_index_upto_props(datasets, dataset_id, datasets.len() as int);
}

/// With no two placements on one pool, a pool sees at most one hit, and a
/// hit means some placement lies on it.
pub proof fn lemma_pool_hits_bound(selected: Seq<CandidatePlacement>, pid: u128, n: int)
    requires
        0 <= n <= selected.len(),
        placements_pools_distinct(selected),
    ensures
        ({
            let h = selected_pool_hits(selected, pid, n);
            &&& 0 <= h <= 1
            &&& h == 1 <==> exists|k: int|
                0 <= k < n && (#[trigger] selected[k]).dataset.pool_id == pid
        }),
    decreases n,
{
    if n > 0 {
        lemma_pool_hits_bound(selected, pid, n - 1);
        if selected[n - 1].dataset.pool_id == pid {
            if selected_pool_hits(selected, pid, n - 1) == 1 {
                let k = choose|k: int|
                    0 <= k < n - 1 && (#[trigger] selected[k]).dataset.pool_id == pid;
                assert(selected[k].dataset.pool_id != selected[n - 1].dataset.pool_id);
                assert(false);
            }
            assert(0 <= n - 1 < n && (selected[n - 1]).dataset.pool_id == pid);
        } else {
            if selected_pool_hits(selected, pid, n) == 1 {
                let k = choose|k: int|
                    0 <= k < n - 1 && (#[trigger] selected[k]).dataset.pool_id == pid;
                assert(0 <= k < n && (selected[k]).dataset.pool_id == pid);
            }
            if exists|k: int| 0 <= k < n && (#[trigger] selected[k]).dataset.pool_id == pid {
                let k = choose|k: int|
                    0 <= k < n && (#[trigger] selected[k]).dataset.pool_id == pid;
                assert(k < n - 1);
                assert(0 <= k < n - 1 && (selected[k]).dataset.pool_id == pid);
            }
        }
    }
}

/// After the commit, the volume's pairs are its old pairs followed by the
/// new placements' pairs, each new dataset shown with its increased usage.
pub proof fn lemma_volume_pairs_after_commit(
    m: CatalogModel,
    m2: CatalogModel,
    volume_id: u128,
    snapshot_id: Option<u128>,
    selected: Seq<CandidatePlacement>,
    params: RegionParameters,
    size_delta: int,
    first_id: u128,
)
    requires
        m.wf(),
        size_delta >= 0,
        forall|k: int|
            0 <= k < selected.len() ==> find_dataset(
                m.datasets,
                (#[trigger] selected[k]).dataset.id,
            ) == Some(selected[k].dataset),
        forall|k: int|
            0 <= k < selected.len() ==> (#[trigger] selected[k]).dataset.pool_id
                == selected[k].pool.id,
        forall|k: int|
            0 <= k < selected.len() ==> !existing_pools(m, volume_id, snapshot_id).contains(
                (#[trigger] selected[k]).pool.id,
            ),
        placements_datasets_distinct(selected),
        m2.datasets == apply_updates(m.datasets, selected, size_delta, selected.len() as int),
        m2.regions == m.regions + new_regions_from(selected, volume_id, params, first_id),
    ensures
        volume_pairs(m2, volume_id) == volume_pairs(m, volume_id) + new_pairs(
            selected,
            volume_id,
            params,
            size_delta,
            first_id,
        ),
{
    let excluded = existing_pools(m, volume_id, snapshot_id);
    let nr = new_regions_from(selected, volume_id, params, first_id);
    let np = new_pairs(selected, volume_id, params, size_delta, first_id);
    let old_len = m.regions.len() as int;

    // No selected dataset backs one of the volume's own regions: the
    // volume's pools are excluded, a selected pool is not.
    assert forall|i: int, k: int|
        0 <= i < old_len && 0 <= k < selected.len() && (#[trigger] m.regions[i]).volume_id
            == volume_id implies dataset_index(
        m.datasets,
        (#[trigger] selected[k]).dataset.id,
    ) != dataset_index(m.datasets, m.regions[i].dataset_id) by {
        lemma_volume_pools_upto_facts(m, volume_id, old_len);
        assert(find_dataset(m.datasets, m.regions[i].dataset_id) is Some);
        let p = dataset_pool_id(m.datasets, m.regions[i].dataset_id)->Some_0;
        assert(volume_pools(m, volume_id).contains(p));
        match snapshot_id {
            None => {},
            Some(s) => {
                lemma_existing_pools_superset(m, volume_id, s, m.region_snapshots.len() as int);
            },
        }
        assert(excluded.contains(p));
        if dataset_index(m.datasets, selected[k].dataset.id) == dataset_index(
            m.datasets,
            m.regions[i].dataset_id,
        ) {
            assert(find_dataset(m.datasets, selected[k].dataset.id) == Some(selected[k].dataset));
            assert(find_dataset(m.datasets, m.regions[i].dataset_id) == Some(
                selected[k].dataset,
            ));
            assert(p == selected[k].dataset.pool_id);
            assert(selected[k].dataset.pool_id == selected[k].pool.id);
            assert(!excluded.contains(selected[k].pool.id));
            assert(false);
        }
    }

    // The volume's old pairs are unchanged: their datasets are untouched.
    assert forall|n: int| 0 <= n <= old_len implies #[trigger] volume_pairs_upto(m2, volume_id, n)
        == volume_pairs_upto(m, volume_id, n) by {
        lemma_volume_pairs_prefix_unchanged(m, m2, volume_id, snapshot_id, selected, params,
            size_delta, first_id, n);
    }

    // Each new region contributes its pair.
    let ghost base = volume_pairs(m, volume_id);
    assert forall|k: int| 0 <= k <= selected.len() implies #[trigger] volume_pairs_upto(
        m2,
        volume_id,
        old_len + k,
    ) == base + np.take(k) by {
        lemma_volume_pairs_new_part(m, m2, volume_id, snapshot_id, selected, params, size_delta,
            first_id, k);
    }
    assert(volume_pairs(m2, volume_id) == volume_pairs_upto(
        m2,
        volume_id,
        old_len + selected.len(),
    ));
    assert(np.take(selected.len() as int) =~= np);
}

/// The volume's pairs over the old region prefix are unchanged by the
/// commit.
proof fn lemma_volume_pairs_prefix_unchanged(
    m: CatalogModel,
    m2: CatalogModel,
    volume_id: u128,
    snapshot_id: Option<u128>,
    selected: Seq<CandidatePlacement>,
    params: RegionParameters,
    size_delta: int,
    first_id: u128,
    n: int,
)
    requires
        m.wf(),
        size_delta >= 0,
        forall|k: int|
            0 <= k < selected.len() ==> find_dataset(
                m.datasets,
                (#[trigger] selected[k]).dataset.id,
            ) == Some(selected[k].dataset),
        placements_datasets_distinct(selected),
        m2.datasets == apply_updates(m.datasets, selected, size_delta, selected.len() as int),
        m2.regions == m.regions + new_regions_from(selected, volume_id, params, first_id),
        0 <= n <= m.regions.len(),
        forall|i: int, k: int|
            0 <= i < m.regions.len() && 0 <= k < selected.len() && (#[trigger] m.regions[i]).volume_id
                == volume_id ==> dataset_index(m.datasets, (#[trigger] selected[k]).dataset.id)
                != dataset_index(m.datasets, m.regions[i].dataset_id),
    ensures
        volume_pairs_upto(m2, volume_id, n) == volume_pairs_upto(m, volume_id, n),
    decreases n,
{
    if n > 0 {
        lemma_volume_pairs_prefix_unchanged(m, m2, volume_id, snapshot_id, selected, params,
            size_delta, first_id, n - 1);
        let r = m.regions[n - 1];
        assert(m2.regions[n - 1] == r);
        if r.volume_id == volume_id {
            assert(find_dataset(m.datasets, r.dataset_id) is Some);
            lemma_dataset_index_upto_props(m.datasets, r.dataset_id, m.datasets.len() as int);
            let idx = dataset_index(m.datasets, r.dataset_id)->Some_0;
            lemma_dataset_pool_id_after_updates(
                m.datasets,
                selected,
                size_delta,
                selected.len() as int,
                r.dataset_id,
            );
            assert forall|k: int| 0 <= k < selected.len() implies dataset_index(
                m.datasets,
                (#[trigger] selected[k]).dataset.id,
            ) != Some(idx) by {
                assert(dataset_index(m.datasets, selected[k].dataset.id) != dataset_index(
                    m.datasets,
                    m.regions[n - 1].dataset_id,
                ));
            }
            lemma_apply_updates_pointwise(
                m.datasets,
                selected,
                size_delta,
                selected.len() as int,
                idx,
            );
            assert(m2.datasets[idx] == m.datasets[idx]);
            assert(find_dataset(m2.datasets, r.dataset_id) == find_dataset(
                m.datasets,
                r.dataset_id,
            ));
        }
    }
}

/// Each new region joined with its updated dataset yields exactly its
/// prepared pair.
proof fn lemma_volume_pairs_new_part(
    m: CatalogModel,
    m2: CatalogModel,
    volume_id: u128,
    snapshot_id: Option<u128>,
    selected: Seq<CandidatePlacement>,
    params: RegionParameters,
    size_delta: int,
    first_id: u128,
    k: int,
)
    requires
        m.wf(),
        size_delta >= 0,
        forall|kk: int|
            0 <= kk < selected.len() ==> find_dataset(
                m.datasets,
                (#[trigger] selected[kk]).dataset.id,
            ) == Some(selected[kk].dataset),
        placements_datasets_distinct(selected),
        m2.datasets == apply_updates(m.datasets, selected, size_delta, selected.len() as int),
        m2.regions == m.regions + new_regions_from(selected, volume_id, params, first_id),
        0 <= k <= selected.len(),
        forall|i: int, kk: int|
            0 <= i < m.regions.len() && 0 <= kk < selected.len() && (#[trigger] m.regions[i]).volume_id
                == volume_id ==> dataset_index(m.datasets, (#[trigger] selected[kk]).dataset.id)
                != dataset_index(m.datasets, m.regions[i].dataset_id),
    ensures
        volume_pairs_upto(m2, volume_id, m.regions.len() + k) == volume_pairs(m, volume_id)
            + new_pairs(selected, volume_id, params, size_delta, first_id).take(k),
    decreases k,
{
    let np = new_pairs(selected, volume_id, params, size_delta, first_id);
    if k == 0 {
        lemma_volume_pairs_prefix_unchanged(m, m2, volume_id, snapshot_id, selected, params,
            size_delta, first_id, m.regions.len() as int);
        assert(np.take(0) =~= Seq::<(CrucibleDataset, RegionRecord)>::empty());
        assert(volume_pairs(m, volume_id) + np.take(0) =~= volume_pairs(m, volume_id));
    } else {
        lemma_volume_pairs_new_part(m, m2, volume_id, snapshot_id, selected, params, size_delta,
            first_id, k - 1);
        let r = m2.regions[m.regions.len() + k - 1];
        assert(r == new_regions_from(selected, volume_id, params, first_id)[k - 1]);
        assert(r.volume_id == volume_id);
        assert(r.dataset_id == selected[k - 1].dataset.id);
        lemma_dataset_index_upto_props(m.datasets, r.dataset_id, m.datasets.len() as int);
        let idx = dataset_index(m.datasets, r.dataset_id)->Some_0;
        assert(m.datasets[idx] == selected[k - 1].dataset);
        lemma_dataset_pool_id_after_updates(
            m.datasets,
            selected,
            size_delta,
            selected.len() as int,
            r.dataset_id,
        );
        lemma_apply_updates_pointwise(
            m.datasets,
            selected,
            size_delta,
            selected.len() as int,
            idx,
        );
        assert(m2.datasets[idx] == bumped_dataset(selected[k - 1].dataset, size_delta));
        assert(find_dataset(m2.datasets, r.dataset_id) == Some(
            bumped_dataset(selected[k - 1].dataset, size_delta),
        ));
        assert((bumped_dataset(selected[k - 1].dataset, size_delta), r) == np[k - 1]);
        assert(np.take(k) =~= np.take(k - 1).push(np[k - 1]));
        assert(volume_pairs(m, volume_id) + np.take(k) =~= (volume_pairs(m, volume_id) + np.take(
            k - 1,
        )).push(np[k - 1]));
    }
}

/// A volume's region count lies between zero and the prefix length.
pub proof fn lemma_volume_count_bounds(regions: Seq<RegionRecord>, volume_id: u128, n: int)
    requires
        0 <= n,
    ensures
        0 <= volume_region_count_upto(regions, volume_id, n) <= n,
    decreases n,
{
    if n > 0 {
        lemma_volume_count_bounds(regions, volume_id, n - 1);
    }
}

/// The validated sizes, read off the validation's outcome: the requested
/// size and its reservation are non-negative and equal the model's
/// formulas.
pub proof fn lemma_sizes_bounds(params: RegionParameters)
    requires
        crate::params::spec_validate_region_params(params) is Ok,
    ensures
        ({
            let sizes = crate::params::spec_validate_region_params(params)->Ok_0;
            &&& 0 <= sizes.requested_size
            &&& sizes.requested_size == crate::params::spec_requested_size(params)
            &&& 0 <= sizes.size_delta
            &&& sizes.size_delta == crate::params::spec_size_delta(sizes.requested_size as int)
        }),
{
    let b = params.block_size as int;
    let bpe = params.blocks_per_extent as int;
    let ec = params.extent_count as int;
    assert(b * bpe >= 0) by (nonlinear_arith)
        requires
            b >= 0,
            bpe >= 0,
    ;
    assert((b * bpe) * ec >= 0) by (nonlinear_arith)
        requires
            b * bpe >= 0,
            ec >= 0,
    ;
}

/// Everything the committer needs of each selected placement, derived from
/// the candidate guarantees on a well-formed catalog.
pub proof fn lemma_selected_committable(
    m: CatalogModel,
    size_delta: int,
    excluded: Seq<u128>,
    distinct_sleds: bool,
    selected: Seq<CandidatePlacement>,
)
    requires
        m.wf(),
        size_delta >= 0,
        forall|k: int|
            0 <= k < selected.len() ==> candidate_ok(
                m,
                size_delta,
                excluded,
                distinct_sleds,
                (#[trigger] selected[k]),
            ),
    ensures
        forall|k: int|
            0 <= k < selected.len() ==> {
                let d = (#[trigger] selected[k]).dataset;
                &&& 0 <= d.size_used
                &&& d.size_used + size_delta + selected[k].pool.control_plane_storage_buffer
                    <= selected[k].pool.total_size
                &&& selected[k].pool.control_plane_storage_buffer >= 0
                &&& !d.deleted
            },
{
    assert forall|k: int| 0 <= k < selected.len() implies {
        let d = (#[trigger] selected[k]).dataset;
        &&& 0 <= d.size_used
        &&& d.size_used + size_delta + selected[k].pool.control_plane_storage_buffer
            <= selected[k].pool.total_size
        &&& selected[k].pool.control_plane_storage_buffer >= 0
        &&& !d.deleted
    } by {
        let c = selected[k];
        assert(candidate_ok(m, size_delta, excluded, distinct_sleds, c));
        lemma_dataset_index_upto_props(m.datasets, c.dataset.id, m.datasets.len() as int);
        let i = dataset_index(m.datasets, c.dataset.id)->Some_0;
        assert(m.datasets[i] == c.dataset);
        lemma_dataset_usage_within_pool(m.datasets, i);
        let ii = choose|ii: int| 0 <= ii < m.pools.len() && m.pools[ii] == c.pool;
        assert(m.pools[ii].control_plane_storage_buffer >= 0);
    }
}

/// A well-formed catalog stays well-formed through an allocation: ids stay
/// unique and fresh, every region keeps a dataset, sizes stay within their
/// pools, and no volume ends with two regions on one pool.
pub proof fn lemma_spec_allocate_sized_wf(
    m: CatalogModel,
    volume_id: u128,
    snapshot_id: Option<u128>,
    params: RegionParameters,
    sizes: crate::params::RegionSizes,
    distinct_sleds: bool,
    seed: u128,
    redundancy: int,
)
    requires
        m.wf(),
        0 <= redundancy,
        m.next_region_id + redundancy <= u128::MAX,
        crate::params::spec_validate_region_params(params) == Ok::<
            crate::params::RegionSizes,
            crate::params::AllocationQueryError,
        >(sizes),
    ensures
        crate::model::spec_allocate_sized(
            m,
            volume_id,
            snapshot_id,
            params,
            sizes,
            distinct_sleds,
            seed,
            redundancy,
        ).0.wf(),
{
    lemma_sizes_bounds(params);
    let size_delta = sizes.size_delta as int;
    let old_count = volume_region_count(m.regions, volume_id);
    let excluded = existing_pools(m, volume_id, snapshot_id);
    let cand_pools = candidate_pools(m, size_delta, excluded, distinct_sleds, seed);
    let cands = candidates_of(m, cand_pools, seed);
    let sorted = shuffle_sorted(cands, seed);
    let needed = crate::model::spec_needed(old_count, redundancy);
    let t = if needed <= sorted.len() {
        needed
    } else {
        sorted.len() as int
    };
    let selected = sorted.take(t);
    lemma_volume_count_bounds(m.regions, volume_id, m.regions.len() as int);

    let space_short = cand_pools.len() + excluded.len() < redundancy;
    let datasets_short = selected.len() + old_count < redundancy;
    let unique_short = crate::model::combined_pools_upto(
        volume_pools(m, volume_id),
        selected,
        selected.len() as int,
    ).len() < redundancy;
    if !space_short && !datasets_short && !unique_short && old_count < redundancy {
        lemma_selection_facts(m, size_delta, excluded, distinct_sleds, seed);
        assert forall|k: int| 0 <= k < selected.len() implies candidate_ok(
            m,
            size_delta,
            excluded,
            distinct_sleds,
            (#[trigger] selected[k]),
        ) by {
            assert(selected[k] == sorted[k]);
        }
        assert(placements_datasets_distinct(selected)) by {
            assert forall|a: int, b: int| 0 <= a < b < selected.len() implies selected[a].dataset.id
                != selected[b].dataset.id by {
                assert(selected[a] == sorted[a] && selected[b] == sorted[b]);
            }
        }
        assert(placements_pools_distinct(selected)) by {
            assert forall|a: int, b: int|
                0 <= a < b < selected.len() implies selected[a].dataset.pool_id
                != selected[b].dataset.pool_id by {
                assert(selected[a] == sorted[a] && selected[b] == sorted[b]);
            }
        }
        lemma_selected_committable(m, size_delta, excluded, distinct_sleds, selected);
        let nr = new_regions_from(selected, volume_id, params, m.next_region_id);
        let d2 = apply_updates(m.datasets, selected, size_delta, selected.len() as int);
        let m2 = crate::model::spec_allocate_sized(
            m,
            volume_id,
            snapshot_id,
            params,
            sizes,
            distinct_sleds,
            seed,
            redundancy,
        ).0;
        assert(m2.datasets == d2 && m2.regions == m.regions + nr && m2.pools == m.pools
            && m2.sleds == m.sleds && m2.physical_disks == m.physical_disks
            && m2.next_region_id == (m.next_region_id + selected.len()) as u128);
        lemma_apply_updates_shape(m.datasets, selected, size_delta, selected.len() as int);
        let old_len = m.regions.len() as int;

        // Unique ids.
        assert(m2.ids_unique()) by {
            assert forall|a: int, b: int|
                0 <= a < b < m2.regions.len() implies m2.regions[a].id != m2.regions[b].id by {
                if b < old_len {
                } else if a < old_len {
                    assert(m2.regions[a].id < m.next_region_id);
                    assert(m2.regions[b] == nr[b - old_len]);
                } else {
                    assert(m2.regions[a] == nr[a - old_len]);
                    assert(m2.regions[b] == nr[b - old_len]);
                }
            }
        }

        // Every region keeps a dataset.
        assert(m2.regions_have_datasets()) by {
            assert forall|i: int| 0 <= i < m2.regions.len() implies find_dataset(
                m2.datasets,
                m2.regions[i].dataset_id,
            ) is Some by {
                lemma_dataset_pool_id_after_updates(
                    m.datasets,
                    selected,
                    size_delta,
                    selected.len() as int,
                    m2.regions[i].dataset_id,
                );
                if i < old_len {
                    assert(m2.regions[i] == m.regions[i]);
                    assert(find_dataset(m.datasets, m.regions[i].dataset_id) is Some);
                } else {
                    let k = i - old_len;
                    assert(m2.regions[i] == nr[k]);
                    assert(candidate_ok(m, size_delta, excluded, distinct_sleds, selected[k]));
                    assert(find_dataset(m.datasets, selected[k].dataset.id) is Some);
                }
            }
        }

        // Pool exclusivity per volume.
        assert(m2.volume_pools_exclusive()) by {
            lemma_volume_pools_upto_facts(m, volume_id, old_len);
            assert forall|i: int, j: int|
                0 <= i < j < m2.regions.len() && m2.regions[i].volume_id
                    == m2.regions[j].volume_id implies dataset_pool_id(
                m2.datasets,
                m2.regions[i].dataset_id,
            ) != dataset_pool_id(m2.datasets, m2.regions[j].dataset_id) by {
                lemma_dataset_pool_id_after_updates(
                    m.datasets,
                    selected,
                    size_delta,
                    selected.len() as int,
                    m2.regions[i].dataset_id,
                );
                lemma_dataset_pool_id_after_updates(
                    m.datasets,
                    selected,
                    size_delta,
                    selected.len() as int,
                    m2.regions[j].dataset_id,
                );
                if j < old_len {
                } else if i >= old_len {
                    let a = i - old_len;
                    let b = j - old_len;
                    assert(candidate_ok(m, size_delta, excluded, distinct_sleds, selected[a]));
                    assert(candidate_ok(m, size_delta, excluded, distinct_sleds, selected[b]));
                    assert(dataset_pool_id(m.datasets, selected[a].dataset.id) == Some(
                        selected[a].dataset.pool_id,
                    ));
                    assert(dataset_pool_id(m.datasets, selected[b].dataset.id) == Some(
                        selected[b].dataset.pool_id,
                    ));
                } else {
                    // An old region of this volume against a new one: the
                    // volume's pools are excluded, a selected pool is not.
                    let b = j - old_len;
                    assert(m2.regions[i] == m.regions[i]);
                    assert(m2.regions[j] == nr[b]);
                    assert(m.regions[i].volume_id == volume_id);
                    assert(find_dataset(m.datasets, m.regions[i].dataset_id) is Some);
                    let p = dataset_pool_id(m.datasets, m.regions[i].dataset_id)->Some_0;
                    assert(volume_pools(m, volume_id).contains(p));
                    match snapshot_id {
                        None => {},
                        Some(s) => {
                            lemma_existing_pools_superset(
                                m,
                                volume_id,
                                s,
                                m.region_snapshots.len() as int,
                            );
                        },
                    }
                    assert(excluded.contains(p));
                    assert(candidate_ok(m, size_delta, excluded, distinct_sleds, selected[b]));
                    assert(!excluded.contains(selected[b].pool.id));
                    assert(dataset_pool_id(m.datasets, selected[b].dataset.id) == Some(
                        selected[b].dataset.pool_id,
                    ));
                }
            }
        }

        // Sizes stay bounded.
        assert(m2.sizes_bounded()) by {
            assert forall|p: int| 0 <= p < m2.datasets.len() implies m2.datasets[p].size_used
                >= 0 by {
                lemma_apply_updates_pointwise(
                    m.datasets,
                    selected,
                    size_delta,
                    selected.len() as int,
                    p,
                );
                if m2.datasets[p] != m.datasets[p] {
                    let k = choose|k: int|
                        0 <= k < selected.len() && dataset_index(
                            m.datasets,
                            (#[trigger] selected[k]).dataset.id,
                        ) == Some(p);
                    lemma_dataset_index_upto_props(
                        m.datasets,
                        selected[k].dataset.id,
                        m.datasets.len() as int,
                    );
                    assert(m.datasets[p] == selected[k].dataset);
                }
            }
            assert forall|i: int| 0 <= i < m2.pools.len() implies pool_usage(
                m2.datasets,
                #[trigger] m2.pools[i].id,
            ) <= i64::MAX by {
                let pid = m.pools[i].id;
                lemma_pool_usage_after_updates(
                    m.datasets,
                    selected,
                    size_delta,
                    selected.len() as int,
                    pid,
                );
                lemma_pool_hits_bound(selected, pid, selected.len() as int);
                let h = selected_pool_hits(selected, pid, selected.len() as int);
                assert(pool_usage(m.datasets, pid) <= i64::MAX);
                if h == 1 {
                    let k = choose|k: int|
                        0 <= k < selected.len() && (#[trigger] selected[k]).dataset.pool_id == pid;
                    assert(candidate_ok(m, size_delta, excluded, distinct_sleds, selected[k]));
                    assert(selected[k].pool.id == pid);
                    assert(pool_usage(m.datasets, pid) + size_delta
                        + selected[k].pool.control_plane_storage_buffer
                        <= selected[k].pool.total_size);
                    assert(size_delta * h == size_delta) by (nonlinear_arith)
                        requires
                            h == 1,
                    ;
                } else {
                    assert(size_delta * h == 0) by (nonlinear_arith)
                        requires
                            h == 0,
                    ;
                }
            }
        }

        // Region ids stay below the counter.
        assert(m2.region_ids_fresh()) by {
            assert forall|i: int| 0 <= i < m2.regions.len() implies m2.regions[i].id
                < m2.next_region_id by {
                if i < old_len {
                    assert(m2.regions[i] == m.regions[i]);
                } else {
                    assert(m2.regions[i] == nr[i - old_len]);
                }
            }
        }
    }
}

/// Where an index of the inserted sequence falls in the sequence before the
/// insertion.
pub open spec fn to_prev_index(pos: int, i: int) -> int {
    if i < pos {
        i
    } else {
        i - 1
    }
}

/// Both indices of a distinctness obligation, when they differ from the
/// insertion position, address entries of the sequence before the insertion.
proof fn lemma_insert_distinct_helper(
    cands: Seq<CandidatePlacement>,
    prev: Seq<CandidatePlacement>,
    seed: u128,
    n: int,
    pos: int,
    a: int,
    b: int,
)
    requires
        0 < n <= cands.len(),
        prev == shuffle_sorted_upto(cands, seed, n - 1),
        pos == insert_pos_upto(prev, cands[n - 1].dataset.id, seed, prev.len() as int),
        prev.len() == n - 1,
        forall|j: int|
            0 <= j < prev.len() ==> exists|k: int| 0 <= k < n - 1 && cands[k] == #[trigger] prev[j],
        0 <= a < b < n,
    ensures
        ({
            let s = shuffle_sorted_upto(cands, seed, n);
            &&& a != pos ==> 0 <= to_prev_index(pos, a) < prev.len() && s[a] == prev[to_prev_index(
                pos,
                a,
            )]
            &&& b != pos ==> 0 <= to_prev_index(pos, b) < prev.len() && s[b] == prev[to_prev_index(
                pos,
                b,
            )]
            &&& a == pos ==> s[a] == cands[n - 1]
            &&& b == pos ==> s[b] == cands[n - 1]
            &&& to_prev_index(pos, a) != to_prev_index(pos, b) || a == pos || b == pos
        }),
{
    lemma_insert_sorted_index(prev, cands[n - 1], seed);
}

} // verus!
