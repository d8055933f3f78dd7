//! The executable allocator: each pipeline stage implements its piece of the
//! functional model exactly, and the public entry points carry the model as
//! their contract.

use vstd::prelude::*;

use crate::catalog::{
    dataset_index, dataset_index_upto, dataset_pool_id, dataset_provisionable, disk_eligible,
    find_dataset, lemma_dataset_index_upto_extend, lemma_dataset_index_upto_props,
    lemma_pool_usage_upto_monotone, pool_has_provisionable_dataset, pool_usage, pool_usage_upto,
    sled_eligible, Catalog, CrucibleDataset, PhysicalDisk, RegionRecord, Sled, Zpool,
};
use crate::errors::AllocationError;
use crate::lemmas::{
    lemma_apply_updates_shape, lemma_apply_updates_untouched, lemma_dataset_index_same_ids,
    lemma_dataset_usage_within_pool, lemma_selection_facts,
};
use crate::model::{
    apply_updates, best_dataset_upto, candidate_ok, candidate_pools, candidates_of,
    candidates_upto, combined_pools_upto, eligible_pools_upto, existing_pools,
    existing_pools_upto, insert_pos_upto, lemma_insert_pos_upto_bounds,
    lemma_insert_pos_upto_stable, lemma_sled_index_upto_extend, lemma_sled_index_upto_props,
    new_pairs, new_regions_from, placements_datasets_distinct, pool_eligible, shuffle_sorted,
    shuffle_sorted_upto, sled_dedup_upto, sled_hosts_excluded_pool, sled_index, sled_index_upto,
    spec_allocate, volume_pairs, volume_pairs_upto, volume_pools, volume_pools_upto,
    volume_region_count, volume_region_count_upto, CandidatePlacement,
};
use crate::params::{validate_region_params, RegionParameters};
use crate::shuffle::shuffle_before;

verus! {

/// Whether the id is among the collected pool ids.
fn contains_id(ids: &Vec<u128>, id: u128) -> (r: bool)
    ensures
        r == ids@.contains(id),
{
    let mut k: usize = 0;
    while k < ids.len()
        invariant
            0 <= k <= ids@.len(),
            forall|j: int| 0 <= j < k ==> ids@[j] != id,
        decreases ids@.len() - k,
    {
        if ids[k] == id {
            assert(ids@.contains(id));
            return true;
        }
        k += 1;
    }
    assert(!ids@.contains(id));
    false
}

/// How many regions the volume currently has.
fn count_volume_regions(regions: &Vec<RegionRecord>, volume_id: u128) -> (n: usize)
    ensures
        n as int == volume_region_count(regions@, volume_id),
{
    let mut n: usize = 0;
    let mut k: usize = 0;
    while k < regions.len()
        invariant
            0 <= k <= regions@.len(),
            n <= k,
            n as int == volume_region_count_upto(regions@, volume_id, k as int),
        decreases regions@.len() - k,
    {
        if regions[k].volume_id == volume_id {
            n += 1;
        }
        k += 1;
    }
    n
}

/// Index of the first dataset carrying the given id.
fn find_dataset_index(datasets: &Vec<CrucibleDataset>, dataset_id: u128) -> (r: Option<usize>)
    ensures
        dataset_index(datasets@, dataset_id) == match r {
            Some(i) => Some(i as int),
            None => None::<int>,
        },
        r matches Some(i) ==> i < datasets@.len(),
{
    let mut k: usize = 0;
    while k < datasets.len()
        invariant
            0 <= k <= datasets@.len(),
            dataset_index_upto(datasets@, dataset_id, k as int) is None,
        decreases datasets@.len() - k,
    {
        if datasets[k].id == dataset_id {
            proof {
                assert(dataset_index_upto(datasets@, dataset_id, k + 1) == Some(k as int));
                lemma_dataset_index_upto_extend(
                    datasets@,
                    dataset_id,
                    k + 1,
                    datasets@.len() as int,
                );
            }
            return Some(k);
        }
        k += 1;
    }
    None
}

/// The pool of the dataset carrying the given id, if the dataset exists.
fn lookup_dataset_pool(datasets: &Vec<CrucibleDataset>, dataset_id: u128) -> (r: Option<u128>)
    ensures
        r == dataset_pool_id(datasets@, dataset_id),
{
    match find_dataset_index(datasets, dataset_id) {
        Some(i) => Some(datasets[i].pool_id),
        None => None,
    }
}

/// Whether a sled with this id exists, in-service and active.
fn sled_is_eligible(sleds: &Vec<Sled>, sled_id: u128) -> (r: bool)
    ensures
        r == sled_eligible(sleds@, sled_id),
{
    let mut k: usize = 0;
    while k < sleds.len()
        invariant
            0 <= k <= sleds@.len(),
            forall|j: int|
                0 <= j < k ==> !(sleds@[j].id == sled_id && sleds@[j].policy_in_service
                    && sleds@[j].state_active),
        decreases sleds@.len() - k,
    {
        let s = &sleds[k];
        if s.id == sled_id && s.policy_in_service && s.state_active {
            return true;
        }
        k += 1;
    }
    false
}

/// Whether a physical disk with this id exists, in-service and active.
fn disk_is_eligible(disks: &Vec<PhysicalDisk>, disk_id: u128) -> (r: bool)
    ensures
        r == disk_eligible(disks@, disk_id),
{
    let mut k: usize = 0;
    while k < disks.len()
        invariant
            0 <= k <= disks@.len(),
            forall|j: int|
                0 <= j < k ==> !(disks@[j].id == disk_id && disks@[j].policy_in_service
                    && disks@[j].state_active),
        decreases disks@.len() - k,
    {
        let d = &disks[k];
        if d.id == disk_id && d.policy_in_service && d.state_active {
            return true;
        }
        k += 1;
    }
    false
}

/// Sums the usage of the pool's datasets that are not soft-deleted.
fn compute_pool_usage(datasets: &Vec<CrucibleDataset>, pool_id: u128) -> (r: i64)
    requires
        forall|i: int| 0 <= i < datasets@.len() ==> datasets@[i].size_used >= 0,
        pool_usage(datasets@, pool_id) <= i64::MAX,
    ensures
        r as int == pool_usage(datasets@, pool_id),
{
    let mut acc: i64 = 0;
    let mut k: usize = 0;
    while k < datasets.len()
        invariant
            0 <= k <= datasets@.len(),
            forall|i: int| 0 <= i < datasets@.len() ==> datasets@[i].size_used >= 0,
            pool_usage(datasets@, pool_id) <= i64::MAX,
            acc as int == pool_usage_upto(datasets@, pool_id, k as int),
        decreases datasets@.len() - k,
    {
        let d = &datasets[k];
        if d.pool_id == pool_id && !d.deleted {
            proof {
                lemma_pool_usage_upto_monotone(
                    datasets@,
                    pool_id,
                    k + 1,
                    datasets@.len() as int,
                );
            }
            acc = acc + d.size_used;
        }
        k += 1;
    }
    acc
}

/// Collects the distinct pools backing the volume's current regions.
fn collect_volume_pools(catalog: &Catalog, volume_id: u128) -> (r: Vec<u128>)
    ensures
        r@ == volume_pools(catalog@, volume_id),
{
    let mut acc: Vec<u128> = Vec::new();
    let mut k: usize = 0;
    while k < catalog.regions.len()
        invariant
            0 <= k <= catalog.regions@.len(),
            acc@ == volume_pools_upto(catalog@, volume_id, k as int),
        decreases catalog.regions@.len() - k,
    {
        let region = &catalog.regions[k];
        if region.volume_id == volume_id {
            match lookup_dataset_pool(&catalog.datasets, region.dataset_id) {
                Some(pool_id) => {
                    if !contains_id(&acc, pool_id) {
                        acc.push(pool_id);
                    }
                },
                None => {},
            }
        }
        k += 1;
    }
    acc
}

/// Collects the distinct pools already committed to the volume and, when a
/// snapshot is named, to the snapshot's lineage.
fn collect_existing_pools(catalog: &Catalog, volume_id: u128, snapshot_id: Option<u128>) -> (r:
    Vec<u128>)
    ensures
        r@ == existing_pools(catalog@, volume_id, snapshot_id),
{
    let mut acc: Vec<u128> = collect_volume_pools(catalog, volume_id);
    match snapshot_id {
        None => acc,
        Some(snap) => {
            let mut k: usize = 0;
            while k < catalog.region_snapshots.len()
                invariant
                    0 <= k <= catalog.region_snapshots@.len(),
                    acc@ == existing_pools_upto(catalog@, volume_id, snap, k as int),
                decreases catalog.region_snapshots@.len() - k,
            {
                let rs = &catalog.region_snapshots[k];
                if rs.snapshot_id == snap {
                    match lookup_dataset_pool(&catalog.datasets, rs.dataset_id) {
                        Some(pool_id) => {
                            if !contains_id(&acc, pool_id) {
                                acc.push(pool_id);
                            }
                        },
                        None => {},
                    }
                }
                k += 1;
            }
            acc
        },
    }
}

/// Whether some pool lies on the given sled and is among the excluded
/// pools.
fn sled_has_excluded_pool(pools: &Vec<Zpool>, excluded: &Vec<u128>, sled_id: u128) -> (r: bool)
    ensures
        r == sled_hosts_excluded_pool(pools@, excluded@, sled_id),
{
    let mut k: usize = 0;
    while k < pools.len()
        invariant
            0 <= k <= pools@.len(),
            forall|j: int|
                0 <= j < k ==> !(pools@[j].sled_id == sled_id && excluded@.contains(
                    pools@[j].id,
                )),
        decreases pools@.len() - k,
    {
        if pools[k].sled_id == sled_id && contains_id(excluded, pools[k].id) {
            return true;
        }
        k += 1;
    }
    false
}

/// Whether one pool is eligible: free capacity for the reservation on top of
/// usage and buffer, an in-service active sled and disk, not excluded, and a
/// provisionable dataset.
fn pool_is_eligible(catalog: &Catalog, p: &Zpool, size_delta: i64, excluded: &Vec<u128>) -> (r:
    bool)
    requires
        forall|i: int|
            0 <= i < catalog.datasets@.len() ==> catalog.datasets@[i].size_used >= 0,
        pool_usage(catalog@.datasets, p.id) <= i64::MAX,
        p.control_plane_storage_buffer >= 0,
        size_delta >= 0,
    ensures
        r == pool_eligible(catalog@, *p, size_delta as int, excluded@),
{
    // Capacity: usage + size_delta + buffer <= total_size. A sum that leaves
    // i64 exceeds any total_size, so overflow means ineligible.
    let usage = compute_pool_usage(&catalog.datasets, p.id);
    let with_delta = match usage.checked_add(size_delta) {
        Some(v) => v,
        None => {
            return false;
        },
    };
    let with_buffer = match with_delta.checked_add(p.control_plane_storage_buffer) {
        Some(v) => v,
        None => {
            return false;
        },
    };
    if with_buffer > p.total_size {
        return false;
    }
    if !sled_is_eligible(&catalog.sleds, p.sled_id) {
        return false;
    }
    if !disk_is_eligible(&catalog.physical_disks, p.physical_disk_id) {
        return false;
    }
    if contains_id(excluded, p.id) {
        return false;
    }
    // A provisionable dataset of the pool must exist.
    has_provisionable_dataset(&catalog.datasets, p.id)
}

/// Whether the pool has a dataset that may host a new region.
fn has_provisionable_dataset(datasets: &Vec<CrucibleDataset>, pool_id: u128) -> (r: bool)
    ensures
        r == pool_has_provisionable_dataset(datasets@, pool_id),
{
    let mut k: usize = 0;
    while k < datasets.len()
        invariant
            0 <= k <= datasets@.len(),
            forall|j: int|
                0 <= j < k ==> !(datasets@[j].pool_id == pool_id && dataset_provisionable(
                    datasets@[j],
                )),
        decreases datasets@.len() - k,
    {
        let d = &datasets[k];
        if d.pool_id == pool_id && !d.deleted && !d.no_provision {
            proof {
                assert(dataset_provisionable(datasets@[k as int]));
            }
            return true;
        }
        k += 1;
    }
    false
}

/// Index of the first collected pool lying on the given sled.
fn find_sled_index(pools: &Vec<Zpool>, sled_id: u128) -> (r: Option<usize>)
    ensures
        sled_index(pools@, sled_id) == match r {
            Some(i) => Some(i as int),
            None => None::<int>,
        },
        r matches Some(i) ==> i < pools@.len(),
{
    let mut k: usize = 0;
    while k < pools.len()
        invariant
            0 <= k <= pools@.len(),
            sled_index_upto(pools@, sled_id, k as int) is None,
        decreases pools@.len() - k,
    {
        if pools[k].sled_id == sled_id {
            proof {
                assert(sled_index_upto(pools@, sled_id, k + 1) == Some(k as int));
                lemma_sled_index_upto_extend(pools@, sled_id, k + 1, pools@.len() as int);
            }
            return Some(k);
        }
        k += 1;
    }
    None
}

/// Collects the candidate pools: the eligible pools, reduced to one per
/// sled under the distinct-sled strategy.
fn collect_candidate_pools(
    catalog: &Catalog,
    size_delta: i64,
    excluded: &Vec<u128>,
    distinct_sleds: bool,
    seed: u128,
) -> (r: Vec<Zpool>)
    requires
        catalog.wf(),
        size_delta >= 0,
    ensures
        r@ == candidate_pools(catalog@, size_delta as int, excluded@, distinct_sleds, seed),
{
    let mut elig: Vec<Zpool> = Vec::new();
    let mut k: usize = 0;
    while k < catalog.pools.len()
        invariant
            0 <= k <= catalog.pools@.len(),
            catalog.wf(),
            size_delta >= 0,
            elig@ == eligible_pools_upto(
                catalog@,
                size_delta as int,
                excluded@,
                distinct_sleds,
                k as int,
            ),
        decreases catalog.pools@.len() - k,
    {
        let p = catalog.pools[k];
        proof {
            assert(pool_usage(catalog@.datasets, catalog@.pools[k as int].id) <= i64::MAX);
            assert(catalog@.pools[k as int].control_plane_storage_buffer >= 0);
        }
        let mut passes = pool_is_eligible(catalog, &p, size_delta, excluded);
        if passes && distinct_sleds {
            passes = !sled_has_excluded_pool(&catalog.pools, excluded, p.sled_id);
        }
        if passes {
            elig.push(p);
        }
        k += 1;
    }
    if !distinct_sleds {
        return elig;
    }
    // One pool per sled: each sled keeps the pool whose id orders first
    // under the seed.
    let ghost elig_seq = elig@;
    let mut acc: Vec<Zpool> = Vec::new();
    let mut k: usize = 0;
    while k < elig.len()
        invariant
            0 <= k <= elig@.len(),
            elig@ == elig_seq,
            acc@ == sled_dedup_upto(elig_seq, seed, k as int),
        decreases elig@.len() - k,
    {
        let p = elig[k];
        match find_sled_index(&acc, p.sled_id) {
            None => {
                acc.push(p);
            },
            Some(i) => {
                proof {
                    lemma_sled_index_upto_props(acc@, p.sled_id, acc@.len() as int);
                }
                if shuffle_before(p.id, acc[i].id, seed) {
                    acc[i] = p;
                }
            },
        }
        k += 1;
    }
    acc
}

/// The dataset chosen to host a new region on the given pool: of the pool's
/// provisionable datasets, the one whose id orders first under the seed.
fn choose_best_dataset(datasets: &Vec<CrucibleDataset>, pool_id: u128, seed: u128) -> (r: Option<
    CrucibleDataset,
>)
    ensures
        r == best_dataset_upto(datasets@, pool_id, seed, datasets@.len() as int),
{
    let mut best: Option<CrucibleDataset> = None;
    let mut k: usize = 0;
    while k < datasets.len()
        invariant
            0 <= k <= datasets@.len(),
            best == best_dataset_upto(datasets@, pool_id, seed, k as int),
        decreases datasets@.len() - k,
    {
        let d = datasets[k];
        if d.pool_id == pool_id && !d.deleted && !d.no_provision {
            best = match best {
                None => Some(d),
                Some(b) => {
                    if shuffle_before(d.id, b.id, seed) {
                        Some(d)
                    } else {
                        Some(b)
                    }
                },
            };
        }
        k += 1;
    }
    best
}

/// Pairs each candidate pool with its chosen dataset; pools without a
/// provisionable dataset contribute nothing.
fn collect_candidates(catalog: &Catalog, pools: &Vec<Zpool>, seed: u128) -> (r: Vec<
    CandidatePlacement,
>)
    ensures
        r@ == candidates_of(catalog@, pools@, seed),
{
    let mut acc: Vec<CandidatePlacement> = Vec::new();
    let mut k: usize = 0;
    while k < pools.len()
        invariant
            0 <= k <= pools@.len(),
            acc@ == candidates_upto(catalog@, pools@, seed, k as int),
        decreases pools@.len() - k,
    {
        let p = pools[k];
        match choose_best_dataset(&catalog.datasets, p.id, seed) {
            Some(d) => {
                acc.push(CandidatePlacement { pool: p, dataset: d });
            },
            None => {},
        }
        k += 1;
    }
    acc
}

/// Orders the candidates by the shuffle key of their dataset id under the
/// seed.
fn sort_candidates(cands: &Vec<CandidatePlacement>, seed: u128) -> (r: Vec<CandidatePlacement>)
    ensures
        r@ == shuffle_sorted(cands@, seed),
{
    let mut acc: Vec<CandidatePlacement> = Vec::new();
    let mut k: usize = 0;
    while k < cands.len()
        invariant
            0 <= k <= cands@.len(),
            acc@ == shuffle_sorted_upto(cands@, seed, k as int),
            acc@.len() == k,
        decreases cands@.len() - k,
    {
        let x = cands[k];
        // Scan for the first entry the candidate orders under.
        let mut pos: usize = 0;
        while pos < acc.len()
            invariant_except_break
                0 <= pos <= acc@.len(),
                insert_pos_upto(acc@, x.dataset.id, seed, pos as int) == pos as int,
            ensures
                0 <= pos <= acc@.len(),
                insert_pos_upto(acc@, x.dataset.id, seed, acc@.len() as int) == pos as int,
            decreases acc@.len() - pos,
        {
            if shuffle_before(x.dataset.id, acc[pos].dataset.id, seed) {
                proof {
                    assert(insert_pos_upto(acc@, x.dataset.id, seed, pos + 1) == pos as int);
                    lemma_insert_pos_upto_stable(
                        acc@,
                        x.dataset.id,
                        seed,
                        pos + 1,
                        acc@.len() as int,
                    );
                }
                break ;
            }
            pos += 1;
        }
        proof {
            lemma_insert_pos_upto_bounds(acc@, x.dataset.id, seed, acc@.len() as int);
        }
        acc.insert(pos, x);
        k += 1;
    }
    acc
}

/// Folds the selected placements' pools into the collected pool ids,
/// skipping those already present.
fn extend_combined(acc: &mut Vec<u128>, selected: &Vec<CandidatePlacement>)
    ensures
        final(acc)@ == combined_pools_upto(old(acc)@, selected@, selected@.len() as int),
{
    let ghost base = acc@;
    let mut k: usize = 0;
    while k < selected.len()
        invariant
            0 <= k <= selected@.len(),
            acc@ == combined_pools_upto(base, selected@, k as int),
        decreases selected@.len() - k,
    {
        let pid = selected[k].dataset.pool_id;
        if !contains_id(acc, pid) {
            acc.push(pid);
        }
        k += 1;
    }
}

/// The `(dataset, region)` pairs of the volume's current regions.
fn collect_volume_pairs(catalog: &Catalog, volume_id: u128) -> (r: Vec<
    (CrucibleDataset, RegionRecord),
>)
    ensures
        r@ == volume_pairs(catalog@, volume_id),
{
    let mut acc: Vec<(CrucibleDataset, RegionRecord)> = Vec::new();
    let mut k: usize = 0;
    while k < catalog.regions.len()
        invariant
            0 <= k <= catalog.regions@.len(),
            acc@ == volume_pairs_upto(catalog@, volume_id, k as int),
        decreases catalog.regions@.len() - k,
    {
        let region = catalog.regions[k];
        if region.volume_id == volume_id {
            match find_dataset_index(&catalog.datasets, region.dataset_id) {
                Some(i) => {
                    acc.push((catalog.datasets[i], region));
                },
                None => {},
            }
        }
        k += 1;
    }
    acc
}

/// Adds the reservation of one new region to each selected dataset's usage.
fn commit_updates(
    datasets: &mut Vec<CrucibleDataset>,
    selected: &Vec<CandidatePlacement>,
    size_delta: i64,
)
    requires
        size_delta >= 0,
        forall|a: int, b: int|
            0 <= a < b < old(datasets)@.len() ==> old(datasets)@[a].id != old(datasets)@[b].id,
        forall|k: int|
            0 <= k < selected@.len() ==> find_dataset(
                old(datasets)@,
                (#[trigger] selected@[k]).dataset.id,
            ) == Some(selected@[k].dataset),
        forall|k: int|
            0 <= k < selected@.len() ==> (#[trigger] selected@[k]).dataset.size_used + size_delta
                <= i64::MAX,
        placements_datasets_distinct(selected@),
    ensures
        final(datasets)@ == apply_updates(
            old(datasets)@,
            selected@,
            size_delta as int,
            selected@.len() as int,
        ),
{
    let ghost orig = datasets@;
    let mut k: usize = 0;
    while k < selected.len()
        invariant
            0 <= k <= selected@.len(),
            size_delta >= 0,
            forall|a: int, b: int| 0 <= a < b < orig.len() ==> orig[a].id != orig[b].id,
            forall|kk: int|
                0 <= kk < selected@.len() ==> find_dataset(
                    orig,
                    (#[trigger] selected@[kk]).dataset.id,
                ) == Some(selected@[kk].dataset),
            forall|kk: int|
                0 <= kk < selected@.len() ==> (#[trigger] selected@[kk]).dataset.size_used
                    + size_delta <= i64::MAX,
            placements_datasets_distinct(selected@),
            datasets@ == apply_updates(orig, selected@, size_delta as int, k as int),
        decreases selected@.len() - k,
    {
        let target_id = selected[k].dataset.id;
        proof {
            lemma_apply_updates_shape(orig, selected@, size_delta as int, k as int);
            lemma_dataset_index_same_ids(datasets@, orig, target_id, orig.len() as int);
            lemma_dataset_index_upto_props(orig, target_id, orig.len() as int);
        }
        let ghost j = dataset_index(orig, target_id)->Some_0;
        proof {
            assert(orig[j] == selected@[k as int].dataset);
            assert forall|kk: int| 0 <= kk < k implies dataset_index(
                orig,
                (#[trigger] selected@[kk]).dataset.id,
            ) != Some(j) by {
                lemma_dataset_index_upto_props(
                    orig,
                    selected@[kk].dataset.id,
                    orig.len() as int,
                );
                if dataset_index(orig, selected@[kk].dataset.id) == Some(j) {
                    assert(orig[j] == selected@[kk].dataset);
                    assert(selected@[kk].dataset.id == selected@[k as int].dataset.id);
                }
            }
            lemma_apply_updates_untouched(orig, selected@, size_delta as int, k as int, j);
        }
        match find_dataset_index(datasets, target_id) {
            Some(i) => {
                let d = datasets[i];
                datasets[i] = CrucibleDataset { size_used: d.size_used + size_delta, ..d };
            },
            None => {
                proof {
                    assert(false);
                }
            },
        }
        k += 1;
    }
}

/// Appends one new region per selected placement, handing out ids in order
/// from `first_id`, and appends the matching `(dataset, region)` pairs with
/// the dataset's usage already increased.
fn append_new_regions(
    regions: &mut Vec<RegionRecord>,
    pairs: &mut Vec<(CrucibleDataset, RegionRecord)>,
    selected: &Vec<CandidatePlacement>,
    volume_id: u128,
    params: RegionParameters,
    size_delta: i64,
    first_id: u128,
)
    requires
        size_delta >= 0,
        first_id as int + selected@.len() <= u128::MAX as int,
        forall|k: int|
            0 <= k < selected@.len() ==> 0 <= (#[trigger] selected@[k]).dataset.size_used
                + size_delta <= i64::MAX,
    ensures
        final(regions)@ == old(regions)@ + new_regions_from(selected@, volume_id, params, first_id),
        final(pairs)@ == old(pairs)@ + new_pairs(
            selected@,
            volume_id,
            params,
            size_delta as int,
            first_id,
        ),
{
    let ghost orig_regions = regions@;
    let ghost orig_pairs = pairs@;
    let ghost all_regions = new_regions_from(selected@, volume_id, params, first_id);
    let ghost all_pairs = new_pairs(selected@, volume_id, params, size_delta as int, first_id);
    let mut k: usize = 0;
    while k < selected.len()
        invariant
            0 <= k <= selected@.len(),
            size_delta >= 0,
            first_id as int + selected@.len() <= u128::MAX as int,
            forall|kk: int|
                0 <= kk < selected@.len() ==> 0 <= (#[trigger] selected@[kk]).dataset.size_used
                    + size_delta <= i64::MAX,
            all_regions == new_regions_from(selected@, volume_id, params, first_id),
            all_pairs == new_pairs(selected@, volume_id, params, size_delta as int, first_id),
            regions@ == orig_regions + all_regions.take(k as int),
            pairs@ == orig_pairs + all_pairs.take(k as int),
        decreases selected@.len() - k,
    {
        let c = selected[k];
        let region = RegionRecord {
            id: first_id + k as u128,
            dataset_id: c.dataset.id,
            volume_id,
            block_size: params.block_size,
            blocks_per_extent: params.blocks_per_extent,
            extent_count: params.extent_count,
            port: None,
            read_only: params.read_only,
            deleting: false,
            reservation_percent: crate::params::RegionReservationPercent::TwentyFive,
        };
        let dataset = CrucibleDataset {
            size_used: c.dataset.size_used + size_delta,
            ..c.dataset
        };
        regions.push(region);
        pairs.push((dataset, region));
        proof {
            assert(region == all_regions[k as int]);
            assert((dataset, region) == all_pairs[k as int]);
            assert(all_regions.take(k + 1) =~= all_regions.take(k as int).push(
                all_regions[k as int],
            ));
            assert(all_pairs.take(k + 1) =~= all_pairs.take(k as int).push(all_pairs[k as int]));
            assert(regions@ =~= orig_regions + all_regions.take(k + 1));
            assert(pairs@ =~= orig_pairs + all_pairs.take(k + 1));
        }
        k += 1;
    }
    proof {
        assert(all_regions.take(selected@.len() as int) =~= all_regions);
        assert(all_pairs.take(selected@.len() as int) =~= all_pairs);
    }
}

/// The returned placements, viewed mathematically.
pub open spec fn alloc_result_view(
    r: Result<Vec<(CrucibleDataset, RegionRecord)>, AllocationError>,
) -> Result<Seq<(CrucibleDataset, RegionRecord)>, AllocationError> {
    match r {
        Ok(v) => Ok(v@),
        Err(e) => Err(e),
    }
}

/// Idempotently allocates enough regions for the volume to meet the
/// redundancy target, deterministically under the given seed.
///
/// The whole outcome — the catalog afterwards and the returned placements
/// or error — equals the functional model [`spec_allocate`] of the catalog
/// beforehand. On any error the catalog is unchanged. On success the result
/// holds every `(dataset, region)` pair of the volume: the pre-existing ones
/// and the newly committed ones.
pub fn allocate_with_seed(
    catalog: &mut Catalog,
    volume_id: u128,
    snapshot_id: Option<u128>,
    params: RegionParameters,
    distinct_sleds: bool,
    seed: u128,
    redundancy: usize,
) -> (r: Result<Vec<(CrucibleDataset, RegionRecord)>, AllocationError>)
    requires
        old(catalog).wf(),
        old(catalog)@.next_region_id + redundancy <= u128::MAX,
    ensures
        ({
            let (m2, r2) = spec_allocate(
                old(catalog)@,
                volume_id,
                snapshot_id,
                params,
                distinct_sleds,
                seed,
                redundancy as int,
            );
            &&& final(catalog)@ == m2
            &&& alloc_result_view(r) == r2
        }),
        final(catalog).wf(),
{
    let ghost m = catalog@;
    let sizes = match validate_region_params(&params) {
        Ok(s) => s,
        Err(e) => {
            return Err(AllocationError::Query(e));
        },
    };
    let old_count = count_volume_regions(&catalog.regions, volume_id);
    let excluded = collect_existing_pools(catalog, volume_id, snapshot_id);
    let cand_pools = collect_candidate_pools(
        catalog,
        sizes.size_delta,
        &excluded,
        distinct_sleds,
        seed,
    );
    let cands = collect_candidates(catalog, &cand_pools, seed);
    let sorted = sort_candidates(&cands, seed);
    let needed: usize = if old_count < redundancy {
        redundancy - old_count
    } else {
        0
    };
    let take_n: usize = if needed <= sorted.len() {
        needed
    } else {
        sorted.len()
    };
    let ghost sorted_seq = sorted@;
    let mut selected = sorted;
    selected.truncate(take_n);
    proof {
        assert(selected@ =~= sorted_seq.take(take_n as int));
    }

    if (cand_pools.len() as u128) + (excluded.len() as u128) < (redundancy as u128) {
        return Err(AllocationError::NotEnoughZpoolSpace);
    }
    if (selected.len() as u128) + (old_count as u128) < (redundancy as u128) {
        return Err(AllocationError::NotEnoughDatasets);
    }
    let mut combined = collect_volume_pools(catalog, volume_id);
    extend_combined(&mut combined, &selected);
    if (combined.len() as u128) < (redundancy as u128) {
        return Err(AllocationError::NotEnoughUniqueZpools);
    }
    if old_count >= redundancy {
        return Ok(collect_volume_pairs(catalog, volume_id));
    }

    // Commit: the selection lemmas give everything the updates need — each
    // selected dataset is the catalog's record, no dataset repeats, and the
    // increased usage stays within its pool's capacity.
    proof {
        lemma_selection_facts(m, sizes.size_delta as int, excluded@, distinct_sleds, seed);
        assert forall|k: int| 0 <= k < selected@.len() implies candidate_ok(
            m,
            sizes.size_delta as int,
            excluded@,
            distinct_sleds,
            #[trigger] selected@[k],
        ) by {
            assert(selected@[k] == sorted_seq[k]);
        }
        assert(placements_datasets_distinct(selected@)) by {
            assert forall|a: int, b: int| 0 <= a < b < selected@.len() implies selected@[a].dataset.id
                != selected@[b].dataset.id by {
                assert(selected@[a] == sorted_seq[a] && selected@[b] == sorted_seq[b]);
            }
        }
        assert forall|k: int| 0 <= k < selected@.len() implies 0 <= (
        #[trigger] selected@[k]).dataset.size_used + sizes.size_delta <= i64::MAX by {
            let c = selected@[k];
            assert(candidate_ok(m, sizes.size_delta as int, excluded@, distinct_sleds, c));
            lemma_dataset_index_upto_props(m.datasets, c.dataset.id, m.datasets.len() as int);
            let i = dataset_index(m.datasets, c.dataset.id)->Some_0;
            assert(m.datasets[i] == c.dataset);
            lemma_dataset_usage_within_pool(m.datasets, i);
            let ii = choose|ii: int| 0 <= ii < m.pools.len() && m.pools[ii] == c.pool;
            assert(m.pools[ii].control_plane_storage_buffer >= 0);
            assert(pool_usage(m.datasets, m.pools[ii].id) <= i64::MAX);
        }
    }
    proof {
        crate::laws::lemma_allocate_preserves_well_formedness(
            m,
            volume_id,
            snapshot_id,
            params,
            distinct_sleds,
            seed,
            redundancy as int,
        );
    }
    let mut pairs = collect_volume_pairs(catalog, volume_id);
    let first_id = catalog.next_region_id;
    commit_updates(&mut catalog.datasets, &selected, sizes.size_delta);
    append_new_regions(
        &mut catalog.regions,
        &mut pairs,
        &selected,
        volume_id,
        params,
        sizes.size_delta,
        first_id,
    );
    catalog.next_region_id = first_id + take_n as u128;
    proof {
        let (m2, r2) = spec_allocate(
            m,
            volume_id,
            snapshot_id,
            params,
            distinct_sleds,
            seed,
            redundancy as int,
        );
        assert(catalog@ =~= m2);
        assert(pairs@ =~= volume_pairs(m, volume_id) + new_pairs(
            selected@,
            volume_id,
            params,
            sizes.size_delta as int,
            first_id,
        ));
    }
    Ok(pairs)
}

/// How regions are spread over the catalog: pseudo-randomly, optionally with
/// every region of the volume on a distinct sled. The same seed over the
/// same catalog always gives the same placement; an absent seed is filled
/// from the clock at the boundary, trading reproducibility for freshness.
#[derive(Debug, Clone, Copy, PartialEq, Eq)]
pub enum RegionAllocationStrategy {
    Random { seed: Option<u64> },
    RandomWithDistinctSleds { seed: Option<u64> },
}

/// The strategy's seed, if it carries one.
pub open spec fn strategy_seed(s: RegionAllocationStrategy) -> Option<u128> {
    match s {
        RegionAllocationStrategy::Random { seed } => match seed {
            Some(v) => Some(v as u128),
            None => None,
        },
        RegionAllocationStrategy::RandomWithDistinctSleds { seed } => match seed {
            Some(v) => Some(v as u128),
            None => None,
        },
    }
}

/// Whether the strategy demands distinct sleds.
pub open spec fn strategy_distinct_sleds(s: RegionAllocationStrategy) -> bool {
    s is RandomWithDistinctSleds
}

/// Relies on std::time::SystemTime: nanoseconds since the epoch, taken as a
/// fallback seed. Nothing is promised of the value.
#[verifier::external_body]
fn now_nanos() -> u128 {
    match std::time::SystemTime::now().duration_since(std::time::UNIX_EPOCH) {
        Ok(d) => d.as_nanos(),
        Err(_) => 0,
    }
}

/// Idempotently allocates enough regions for the volume to meet the
/// redundancy target, under the given strategy.
///
/// With a seeded strategy the whole outcome equals the functional model
/// [`spec_allocate`] under that seed. With an unseeded one the seed is taken
/// from the clock, so the outcome equals the model under some seed.
pub fn allocate(
    catalog: &mut Catalog,
    volume_id: u128,
    snapshot_id: Option<u128>,
    params: RegionParameters,
    allocation_strategy: &RegionAllocationStrategy,
    redundancy: usize,
) -> (r: Result<Vec<(CrucibleDataset, RegionRecord)>, AllocationError>)
    requires
        old(catalog).wf(),
        old(catalog)@.next_region_id + redundancy <= u128::MAX,
    ensures
        ({
            let distinct_sleds = strategy_distinct_sleds(*allocation_strategy);
            match strategy_seed(*allocation_strategy) {
                Some(seed) => {
                    let (m2, r2) = spec_allocate(
                        old(catalog)@,
                        volume_id,
                        snapshot_id,
                        params,
                        distinct_sleds,
                        seed,
                        redundancy as int,
                    );
                    final(catalog)@ == m2 && alloc_result_view(r) == r2
                },
                None => exists|seed: u128|
                    {
                        let (m2, r2) = #[trigger] spec_allocate(
                            old(catalog)@,
                            volume_id,
                            snapshot_id,
                            params,
                            distinct_sleds,
                            seed,
                            redundancy as int,
                        );
                        final(catalog)@ == m2 && alloc_result_view(r) == r2
                    },
            }
        }),
        final(catalog).wf(),
{
    let (seed_opt, distinct_sleds) = match allocation_strategy {
        RegionAllocationStrategy::Random { seed } => (*seed, false),
        RegionAllocationStrategy::RandomWithDistinctSleds { seed } => (*seed, true),
    };
    match seed_opt {
        Some(v) => allocate_with_seed(
            catalog,
            volume_id,
            snapshot_id,
            params,
            distinct_sleds,
            v as u128,
            redundancy,
        ),
        None => {
            let seed = now_nanos();
            allocate_with_seed(
                catalog,
                volume_id,
                snapshot_id,
                params,
                distinct_sleds,
                seed,
                redundancy,
            )
        },
    }
}

} // verus!
