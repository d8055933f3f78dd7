//! The allocator's laws, proved once and for all over the functional model:
//! allocation preserves the catalog's invariants, tops a volume up
//! monotonically, is idempotent, never doubles up on a pool — nor, under the
//! distinct-sled strategy, on a sled — and never overcommits a pool.

use vstd::prelude::*;

use crate::catalog::{
    dataset_pool_id, find_pool, lemma_find_pool_of_member, lemma_pool_index_upto_props,
    pool_index_upto, pool_usage, CatalogModel, CrucibleDataset, RegionRecord,
};
use crate::errors::AllocationError;
use crate::lemmas::{
    lemma_dataset_pool_id_after_updates, lemma_existing_pools_superset, lemma_pool_hits_bound,
    lemma_pool_usage_after_updates, lemma_selected_committable, lemma_selection_facts,
    lemma_sizes_bounds, lemma_spec_allocate_sized_wf, lemma_volume_count_all_new,
    lemma_volume_count_bounds, lemma_volume_count_concat, lemma_volume_pairs_after_commit,
    lemma_volume_pools_upto_facts, selected_pool_hits,
};
use crate::model::{
    candidate_ok, candidate_pools, candidates_of, combined_pools_upto, existing_pools,
    new_regions_from, placements_datasets_distinct, placements_pools_distinct,
    placements_sleds_distinct, region_sled_id, shuffle_sorted, sled_hosts_excluded_pool,
    spec_allocate, spec_needed, volume_pairs, volume_pools, volume_region_count,
};
use crate::params::{spec_validate_region_params, RegionParameters, RegionSizes};

verus! {

/// **Invariant preservation.** An allocation keeps the catalog well-formed:
/// ids stay unique and fresh, every region keeps its dataset, sizes stay
/// within their pools, and no volume holds two regions on one pool.
pub proof fn lemma_allocate_preserves_well_formedness(
    m: CatalogModel,
    volume_id: u128,
    snapshot_id: Option<u128>,
    params: RegionParameters,
    distinct_sleds: bool,
    seed: u128,
    redundancy: int,
)
    requires
        m.wf(),
        0 <= redundancy,
        m.next_region_id + redundancy <= u128::MAX,
    ensures
        spec_allocate(m, volume_id, snapshot_id, params, distinct_sleds, seed, redundancy).0.wf(),
{
    match spec_validate_region_params(params) {
        Err(_) => {},
        Ok(sizes) => {
            lemma_spec_allocate_sized_wf(
                m,
                volume_id,
                snapshot_id,
                params,
                sizes,
                distinct_sleds,
                seed,
                redundancy,
            );
        },
    }
}

/// **Pool exclusivity.** After an allocation under any strategy, no two
/// regions of any one volume share a pool.
pub proof fn lemma_pool_exclusivity(
    m: CatalogModel,
    volume_id: u128,
    snapshot_id: Option<u128>,
    params: RegionParameters,
    distinct_sleds: bool,
    seed: u128,
    redundancy: int,
)
    requires
        m.wf(),
        0 <= redundancy,
        m.next_region_id + redundancy <= u128::MAX,
    ensures
        spec_allocate(
            m,
            volume_id,
            snapshot_id,
            params,
            distinct_sleds,
            seed,
            redundancy,
        ).0.volume_pools_exclusive(),
{
    lemma_allocate_preserves_well_formedness(
        m,
        volume_id,
        snapshot_id,
        params,
        distinct_sleds,
        seed,
        redundancy,
    );
}

/// **Monotonic top-up.** When a volume holds fewer regions than the target
/// and the allocation succeeds, exactly the missing number of regions is
/// created, no existing region is removed, and the volume ends exactly at
/// the target.
pub proof fn lemma_monotonic_top_up(
    m: CatalogModel,
    volume_id: u128,
    snapshot_id: Option<u128>,
    params: RegionParameters,
    distinct_sleds: bool,
    seed: u128,
    redundancy: int,
)
    requires
        m.wf(),
        0 <= redundancy,
        m.next_region_id + redundancy <= u128::MAX,
        volume_region_count(m.regions, volume_id) < redundancy,
        spec_allocate(m, volume_id, snapshot_id, params, distinct_sleds, seed, redundancy).1 is Ok,
    ensures
        ({
            let m2 = spec_allocate(
                m,
                volume_id,
                snapshot_id,
                params,
                distinct_sleds,
                seed,
                redundancy,
            ).0;
            let k = volume_region_count(m.regions, volume_id);
            &&& m2.regions.len() == m.regions.len() + (redundancy - k)
            &&& forall|i: int| 0 <= i < m.regions.len() ==> m2.regions[i] == m.regions[i]
            &&& volume_region_count(m2.regions, volume_id) == redundancy
        }),
{
    let sizes = spec_validate_region_params(params)->Ok_0;
    lemma_sizes_bounds(params);
    let size_delta = sizes.size_delta as int;
    let old_count = volume_region_count(m.regions, volume_id);
    let excluded = existing_pools(m, volume_id, snapshot_id);
    let sorted = shuffle_sorted(
        candidates_of(m, candidate_pools(m, size_delta, excluded, distinct_sleds, seed), seed),
        seed,
    );
    let needed = spec_needed(old_count, redundancy);
    let t = if needed <= sorted.len() {
        needed
    } else {
        sorted.len() as int
    };
    let selected = sorted.take(t);
    assert(selected.len() == t);
    assert(selected.len() + old_count >= redundancy);
    assert(t == needed);
    let nr = new_regions_from(selected, volume_id, params, m.next_region_id);
    lemma_volume_count_concat(m.regions, nr, volume_id, nr.len() as int);
    lemma_volume_count_all_new(selected, volume_id, params, m.next_region_id, nr.len() as int);
}

/// **Capacity bound.** Every region created by a successful allocation
/// leaves its pool's usage within the pool's capacity less the
/// control-plane buffer.
pub proof fn lemma_capacity_bound(
    m: CatalogModel,
    volume_id: u128,
    snapshot_id: Option<u128>,
    params: RegionParameters,
    distinct_sleds: bool,
    seed: u128,
    redundancy: int,
    i: int,
)
    requires
        m.wf(),
        0 <= redundancy,
        m.next_region_id + redundancy <= u128::MAX,
        spec_allocate(m, volume_id, snapshot_id, params, distinct_sleds, seed, redundancy).1 is Ok,
        m.regions.len() <= i < spec_allocate(
            m,
            volume_id,
            snapshot_id,
            params,
            distinct_sleds,
            seed,
            redundancy,
        ).0.regions.len(),
    ensures
        ({
            let m2 = spec_allocate(
                m,
                volume_id,
                snapshot_id,
                params,
                distinct_sleds,
                seed,
                redundancy,
            ).0;
            let r = m2.regions[i];
            &&& dataset_pool_id(m2.datasets, r.dataset_id) is Some
            &&& match find_pool(m2.pools, dataset_pool_id(m2.datasets, r.dataset_id)->Some_0) {
                Some(p) => pool_usage(m2.datasets, p.id) + p.control_plane_storage_buffer
                    <= p.total_size,
                None => false,
            }
        }),
{
    let sizes = spec_validate_region_params(params)->Ok_0;
    lemma_sizes_bounds(params);
    let size_delta = sizes.size_delta as int;
    let old_count = volume_region_count(m.regions, volume_id);
    let excluded = existing_pools(m, volume_id, snapshot_id);
    let sorted = shuffle_sorted(
        candidates_of(m, candidate_pools(m, size_delta, excluded, distinct_sleds, seed), seed),
        seed,
    );
    let needed = spec_needed(old_count, redundancy);
    let t = if needed <= sorted.len() {
        needed
    } else {
        sorted.len() as int
    };
    let selected = sorted.take(t);
    let m2 = spec_allocate(m, volume_id, snapshot_id, params, distinct_sleds, seed, redundancy).0;
    lemma_selection_facts(m, size_delta, excluded, distinct_sleds, seed);
    assert forall|kk: int| 0 <= kk < selected.len() implies candidate_ok(
        m,
        size_delta,
        excluded,
        distinct_sleds,
        (#[trigger] selected[kk]),
    ) by {
        assert(selected[kk] == sorted[kk]);
    }
    assert(placements_pools_distinct(selected)) by {
        assert forall|a: int, b: int| 0 <= a < b < selected.len() implies selected[a].dataset.pool_id
            != selected[b].dataset.pool_id by {
            assert(selected[a] == sorted[a] && selected[b] == sorted[b]);
        }
    }
    assert(placements_datasets_distinct(selected)) by {
        assert forall|a: int, b: int| 0 <= a < b < selected.len() implies selected[a].dataset.id
            != selected[b].dataset.id by {
            assert(selected[a] == sorted[a] && selected[b] == sorted[b]);
        }
    }
    lemma_selected_committable(m, size_delta, excluded, distinct_sleds, selected);

    let k = i - m.regions.len();
    let nr = new_regions_from(selected, volume_id, params, m.next_region_id);
    assert(m2.regions[i] == nr[k]);
    let c = selected[k];
    assert(candidate_ok(m, size_delta, excluded, distinct_sleds, c));
    lemma_dataset_pool_id_after_updates(
        m.datasets,
        selected,
        size_delta,
        selected.len() as int,
        c.dataset.id,
    );
    assert(dataset_pool_id(m.datasets, c.dataset.id) == Some(c.dataset.pool_id));
    let pid = c.pool.id;
    let ii = choose|ii: int| 0 <= ii < m.pools.len() && m.pools[ii] == c.pool;
    lemma_find_pool_of_member(m.pools, ii);
    assert(find_pool(m2.pools, pid) == Some(c.pool));
    lemma_pool_usage_after_updates(m.datasets, selected, size_delta, selected.len() as int, pid);
    lemma_pool_hits_bound(selected, pid, selected.len() as int);
    let h = selected_pool_hits(selected, pid, selected.len() as int);
    assert(h == 1) by {
        assert(0 <= k < selected.len() && selected[k].dataset.pool_id == pid);
    }
    assert(size_delta * h == size_delta) by (nonlinear_arith)
        requires
            h == 1,
    ;
    assert(pool_usage(m.datasets, pid) + size_delta + c.pool.control_plane_storage_buffer
        <= c.pool.total_size);
}

/// **Anti-affinity.** Under the distinct-sled strategy, when the volume's
/// regions lay on pairwise distinct sleds before the call, they do so after
/// it: no two of the volume's regions share a sled.
pub proof fn lemma_anti_affinity(
    m: CatalogModel,
    volume_id: u128,
    snapshot_id: Option<u128>,
    params: RegionParameters,
    seed: u128,
    redundancy: int,
)
    requires
        m.wf(),
        0 <= redundancy,
        m.next_region_id + redundancy <= u128::MAX,
        forall|i: int, j: int|
            0 <= i < j < m.regions.len() && (#[trigger] m.regions[i]).volume_id == volume_id && (
            #[trigger] m.regions[j]).volume_id == volume_id ==> !(region_sled_id(
                m,
                m.regions[i],
            ) is Some && region_sled_id(m, m.regions[i]) == region_sled_id(m, m.regions[j])),
        spec_allocate(m, volume_id, snapshot_id, params, true, seed, redundancy).1 is Ok,
    ensures
        ({
            let m2 = spec_allocate(m, volume_id, snapshot_id, params, true, seed, redundancy).0;
            forall|i: int, j: int|
                0 <= i < j < m2.regions.len() && (#[trigger] m2.regions[i]).volume_id == volume_id
                    && (#[trigger] m2.regions[j]).volume_id == volume_id ==> !(region_sled_id(
                    m2,
                    m2.regions[i],
                ) is Some && region_sled_id(m2, m2.regions[i]) == region_sled_id(
                    m2,
                    m2.regions[j],
                ))
        }),
{
    let sizes = spec_validate_region_params(params)->Ok_0;
    lemma_sizes_bounds(params);
    let size_delta = sizes.size_delta as int;
    let old_count = volume_region_count(m.regions, volume_id);
    let excluded = existing_pools(m, volume_id, snapshot_id);
    let sorted = shuffle_sorted(
        candidates_of(m, candidate_pools(m, size_delta, excluded, true, seed), seed),
        seed,
    );
    let needed = spec_needed(old_count, redundancy);
    let t = if needed <= sorted.len() {
        needed
    } else {
        sorted.len() as int
    };
    let selected = sorted.take(t);
    let m2 = spec_allocate(m, volume_id, snapshot_id, params, true, seed, redundancy).0;
    if old_count < redundancy {
        lemma_selection_facts(m, size_delta, excluded, true, seed);
        assert forall|kk: int| 0 <= kk < selected.len() implies candidate_ok(
            m,
            size_delta,
            excluded,
            true,
            (#[trigger] selected[kk]),
        ) by {
            assert(selected[kk] == sorted[kk]);
        }
        assert(placements_sleds_distinct(selected)) by {
            assert forall|a: int, b: int| 0 <= a < b < selected.len() implies selected[a].pool.sled_id
                != selected[b].pool.sled_id by {
                assert(selected[a] == sorted[a] && selected[b] == sorted[b]);
            }
        }
        let nr = new_regions_from(selected, volume_id, params, m.next_region_id);
        let old_len = m.regions.len() as int;
        lemma_volume_pools_upto_facts(m, volume_id, old_len);

        // The sled of any record is read the same way before and after the
        // commit: datasets keep their pools, pools are untouched.
        assert forall|r: RegionRecord| true implies #[trigger] region_sled_id(m2, r)
            == region_sled_id(m, r) by {
            lemma_dataset_pool_id_after_updates(
                m.datasets,
                selected,
                size_delta,
                selected.len() as int,
                r.dataset_id,
            );
        }

        // A new region's sled is its placement's sled.
        assert forall|k: int| 0 <= k < selected.len() implies #[trigger] region_sled_id(m, nr[k])
            == Some(selected[k].pool.sled_id) by {
            let c = selected[k];
            assert(candidate_ok(m, size_delta, excluded, true, c));
            assert(dataset_pool_id(m.datasets, c.dataset.id) == Some(c.pool.id));
            let ii = choose|ii: int| 0 <= ii < m.pools.len() && m.pools[ii] == c.pool;
            lemma_find_pool_of_member(m.pools, ii);
        }

        assert forall|i: int, j: int|
            0 <= i < j < m2.regions.len() && (#[trigger] m2.regions[i]).volume_id == volume_id && (
            #[trigger] m2.regions[j]).volume_id == volume_id implies !(region_sled_id(
            m2,
            m2.regions[i],
        ) is Some && region_sled_id(m2, m2.regions[i]) == region_sled_id(m2, m2.regions[j])) by {
            if j < old_len {
                assert(m2.regions[i] == m.regions[i] && m2.regions[j] == m.regions[j]);
            } else if i >= old_len {
                let a = i - old_len;
                let b = j - old_len;
                assert(m2.regions[i] == nr[a] && m2.regions[j] == nr[b]);
                assert(selected[a].pool.sled_id != selected[b].pool.sled_id);
            } else {
                // An old region of the volume against a new one: the old
                // region's sled hosts an excluded pool, which bars it from
                // the candidates.
                let b = j - old_len;
                assert(m2.regions[i] == m.regions[i] && m2.regions[j] == nr[b]);
                let c = selected[b];
                assert(candidate_ok(m, size_delta, excluded, true, c));
                if region_sled_id(m, m.regions[i]) is Some {
                    let p = dataset_pool_id(m.datasets, m.regions[i].dataset_id)->Some_0;
                    assert(volume_pools(m, volume_id).contains(p));
                    match snapshot_id {
                        None => {},
                        Some(s) => {
                            lemma_existing_pools_superset(
                                m,
                                volume_id,
                                s,
                                m.region_snapshots.len() as int,
                            );
                        },
                    }
                    assert(excluded.contains(p));
                    let pr = find_pool(m.pools, p)->Some_0;
                    lemma_pool_index_upto_props(m.pools, p, m.pools.len() as int);
                    let pidx = pool_index_upto(m.pools, p, m.pools.len() as int)->Some_0;
                    assert(m.pools[pidx] == pr && pr.id == p);
                    assert(sled_hosts_excluded_pool(m.pools, excluded, pr.sled_id));
                    assert(!sled_hosts_excluded_pool(m.pools, excluded, c.pool.sled_id));
                }
            }
        }
    }
}

/// **Idempotence.** After a successful allocation, repeating the call with
/// the same volume, parameters and target — under any seed — changes
/// nothing and returns the same placements.
pub proof fn lemma_idempotent(
    m: CatalogModel,
    volume_id: u128,
    snapshot_id: Option<u128>,
    params: RegionParameters,
    distinct_sleds: bool,
    seed: u128,
    seed2: u128,
    redundancy: int,
)
    requires
        m.wf(),
        0 <= redundancy,
        m.next_region_id + redundancy <= u128::MAX,
        spec_allocate(m, volume_id, snapshot_id, params, distinct_sleds, seed, redundancy).1 is Ok,
    ensures
        ({
            let (m1, r1) = spec_allocate(
                m,
                volume_id,
                snapshot_id,
                params,
                distinct_sleds,
                seed,
                redundancy,
            );
            spec_allocate(m1, volume_id, snapshot_id, params, distinct_sleds, seed2, redundancy)
                == (m1, r1)
        }),
{
    let (m1, r1) = spec_allocate(
        m,
        volume_id,
        snapshot_id,
        params,
        distinct_sleds,
        seed,
        redundancy,
    );
    let sizes = spec_validate_region_params(params)->Ok_0;
    lemma_sizes_bounds(params);
    let size_delta = sizes.size_delta as int;
    let old_count = volume_region_count(m.regions, volume_id);
    let excluded = existing_pools(m, volume_id, snapshot_id);
    let sorted = shuffle_sorted(
        candidates_of(m, candidate_pools(m, size_delta, excluded, distinct_sleds, seed), seed),
        seed,
    );
    let needed = spec_needed(old_count, redundancy);
    let t = if needed <= sorted.len() {
        needed
    } else {
        sorted.len() as int
    };
    let selected = sorted.take(t);
    lemma_allocate_preserves_well_formedness(
        m,
        volume_id,
        snapshot_id,
        params,
        distinct_sleds,
        seed,
        redundancy,
    );
    lemma_volume_count_bounds(m.regions, volume_id, m.regions.len() as int);

    if old_count >= redundancy {
        // The first call was already a pure read.
        assert(m1 == m);
        lemma_volume_pools_upto_facts(m, volume_id, m.regions.len() as int);
        lemma_second_call_degenerate(m, volume_id, snapshot_id, params, sizes, distinct_sleds,
            seed2, redundancy);
    } else {
        // The first call committed; the volume now sits at the target.
        lemma_selection_facts(m, size_delta, excluded, distinct_sleds, seed);
        assert forall|kk: int| 0 <= kk < selected.len() implies candidate_ok(
            m,
            size_delta,
            excluded,
            distinct_sleds,
            (#[trigger] selected[kk]),
        ) by {
            assert(selected[kk] == sorted[kk]);
        }
        assert(placements_datasets_distinct(selected)) by {
            assert forall|a: int, b: int| 0 <= a < b < selected.len() implies selected[a].dataset.id
                != selected[b].dataset.id by {
                assert(selected[a] == sorted[a] && selected[b] == sorted[b]);
            }
        }
        assert(t == needed);
        let nr = new_regions_from(selected, volume_id, params, m.next_region_id);
        lemma_volume_count_concat(m.regions, nr, volume_id, nr.len() as int);
        lemma_volume_count_all_new(selected, volume_id, params, m.next_region_id, nr.len() as int);
        assert(volume_region_count(m1.regions, volume_id) == redundancy);
        lemma_volume_pairs_after_commit(
            m,
            m1,
            volume_id,
            snapshot_id,
            selected,
            params,
            size_delta,
            m.next_region_id,
        );
        assert(r1 == Ok::<Seq<(CrucibleDataset, RegionRecord)>, AllocationError>(
            volume_pairs(m1, volume_id),
        ));
        lemma_second_call_degenerate(m1, volume_id, snapshot_id, params, sizes, distinct_sleds,
            seed2, redundancy);
    }
}

/// A call on a catalog whose volume already meets the target is a pure
/// read: nothing changes and the volume's pairs come back.
proof fn lemma_second_call_degenerate(
    m1: CatalogModel,
    volume_id: u128,
    snapshot_id: Option<u128>,
    params: RegionParameters,
    sizes: RegionSizes,
    distinct_sleds: bool,
    seed2: u128,
    redundancy: int,
)
    requires
        m1.wf(),
        0 <= redundancy,
        spec_validate_region_params(params) == Ok::<RegionSizes, crate::params::AllocationQueryError>(
            sizes,
        ),
        volume_region_count(m1.regions, volume_id) >= redundancy,
    ensures
        spec_allocate(m1, volume_id, snapshot_id, params, distinct_sleds, seed2, redundancy) == (
            m1,
            Ok::<Seq<(CrucibleDataset, RegionRecord)>, AllocationError>(
                volume_pairs(m1, volume_id),
            ),
        ),
{
    let size_delta = sizes.size_delta as int;
    let old_count = volume_region_count(m1.regions, volume_id);
    let excluded = existing_pools(m1, volume_id, snapshot_id);
    let sorted = shuffle_sorted(
        candidates_of(m1, candidate_pools(m1, size_delta, excluded, distinct_sleds, seed2), seed2),
        seed2,
    );
    let needed = spec_needed(old_count, redundancy);
    assert(needed == 0);
    let selected = sorted.take(0);
    assert(selected.len() == 0);
    lemma_volume_pools_upto_facts(m1, volume_id, m1.regions.len() as int);
    assert(volume_pools(m1, volume_id).len() == old_count);
    match snapshot_id {
        None => {},
        Some(s) => {
            lemma_existing_pools_superset(m1, volume_id, s, m1.region_snapshots.len() as int);
        },
    }
    assert(excluded.len() >= redundancy);
    assert(combined_pools_upto(volume_pools(m1, volume_id), selected, 0) == volume_pools(
        m1,
        volume_id,
    ));
}

} // verus!
