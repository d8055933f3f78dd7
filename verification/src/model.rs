//! The functional model of one allocation: every stage of the pipeline as a
//! mathematical function of the catalog model.
//!
//! [`spec_allocate`] pins down the complete outcome — the catalog after the
//! call and the returned placements or error — so the executable allocator's
//! contract is a single equation, and the library's laws are theorems about
//! this model.

use vstd::prelude::*;

use crate::catalog::{
    dataset_index, dataset_pool_id, dataset_provisionable, disk_eligible, find_dataset,
    pool_has_provisionable_dataset, pool_usage, sled_eligible, CatalogModel, CrucibleDataset,
    RegionRecord, Zpool,
};
use crate::errors::AllocationError;
use crate::params::{
    spec_validate_region_params, RegionParameters, RegionReservationPercent, RegionSizes,
};
use crate::shuffle::shuffle_lt;

verus! {

/// An eligible pool paired with the dataset chosen to host a new region.
#[derive(Debug, Clone, Copy, PartialEq, Eq)]
pub struct CandidatePlacement {
    pub pool: Zpool,
    pub dataset: CrucibleDataset,
}

/// Appends an id unless it is already present.
pub open spec fn push_unique(s: Seq<u128>, x: u128) -> Seq<u128> {
    if s.contains(x) {
        s
    } else {
        s.push(x)
    }
}

/// Number of regions of the volume among the first `n` region records.
pub open spec fn volume_region_count_upto(regions: Seq<RegionRecord>, volume_id: u128, n: int) -> int
    decreases n,
{
    if n <= 0 {
        0
    } else {
        volume_region_count_upto(regions, volume_id, n - 1) + if regions[n - 1].volume_id
            == volume_id {
            1int
        } else {
            0int
        }
    }
}

/// Number of regions the volume currently has.
pub open spec fn volume_region_count(regions: Seq<RegionRecord>, volume_id: u128) -> int {
    volume_region_count_upto(regions, volume_id, regions.len() as int)
}

/// The distinct pools backing the volume's first `n` regions, in first-use
/// order.
pub open spec fn volume_pools_upto(m: CatalogModel, volume_id: u128, n: int) -> Seq<u128>
    decreases n,
{
    if n <= 0 {
        Seq::empty()
    } else {
        let prev = volume_pools_upto(m, volume_id, n - 1);
        let r = m.regions[n - 1];
        if r.volume_id == volume_id {
            match dataset_pool_id(m.datasets, r.dataset_id) {
                Some(p) => push_unique(prev, p),
                None => prev,
            }
        } else {
            prev
        }
    }
}

/// The distinct pools backing the volume's regions.
pub open spec fn volume_pools(m: CatalogModel, volume_id: u128) -> Seq<u128> {
    volume_pools_upto(m, volume_id, m.regions.len() as int)
}

/// The volume's pools extended by the pools hosting the snapshot's first `n`
/// region-snapshot entries.
pub open spec fn existing_pools_upto(m: CatalogModel, volume_id: u128, snapshot_id: u128, n: int) -> Seq<u128>
    decreases n,
{
    if n <= 0 {
        volume_pools(m, volume_id)
    } else {
        let prev = existing_pools_upto(m, volume_id, snapshot_id, n - 1);
        let rs = m.region_snapshots[n - 1];
        if rs.snapshot_id == snapshot_id {
            match dataset_pool_id(m.datasets, rs.dataset_id) {
                Some(p) => push_unique(prev, p),
                None => prev,
            }
        } else {
            prev
        }
    }
}

/// The distinct pools already committed to the volume, and, when a snapshot
/// is named, to the snapshot's lineage. New candidates must avoid them all.
pub open spec fn existing_pools(m: CatalogModel, volume_id: u128, snapshot_id: Option<u128>) -> Seq<
    u128,
> {
    match snapshot_id {
        None => volume_pools(m, volume_id),
        Some(s) => existing_pools_upto(m, volume_id, s, m.region_snapshots.len() as int),
    }
}

/// True when some pool in `pools` lies on the given sled and is among the
/// excluded pools. Under the distinct-sled strategy such sleds are barred.
pub open spec fn sled_hosts_excluded_pool(
    pools: Seq<Zpool>,
    excluded: Seq<u128>,
    sled_id: u128,
) -> bool {
    exists|i: int|
        0 <= i < pools.len() && pools[i].sled_id == sled_id && excluded.contains(pools[i].id)
}

/// Eligibility of one pool: enough free capacity for the reservation on top
/// of current usage and the control-plane buffer, an in-service active sled
/// and disk, not an excluded pool, and a provisionable dataset to host the
/// region.
pub open spec fn pool_eligible(m: CatalogModel, p: Zpool, size_delta: int, excluded: Seq<u128>) -> bool {
    &&& pool_usage(m.datasets, p.id) + size_delta + p.control_plane_storage_buffer <= p.total_size
    &&& sled_eligible(m.sleds, p.sled_id)
    &&& disk_eligible(m.physical_disks, p.physical_disk_id)
    &&& !excluded.contains(p.id)
    &&& pool_has_provisionable_dataset(m.datasets, p.id)
}

/// Eligibility of one pool under the chosen strategy: under distinct sleds,
/// pools on sleds already used by the volume are barred as well.
pub open spec fn pool_passes(
    m: CatalogModel,
    p: Zpool,
    size_delta: int,
    excluded: Seq<u128>,
    distinct_sleds: bool,
) -> bool {
    &&& pool_eligible(m, p, size_delta, excluded)
    &&& (distinct_sleds ==> !sled_hosts_excluded_pool(m.pools, excluded, p.sled_id))
}

/// The eligible pools among the catalog's first `n`, in catalog order.
pub open spec fn eligible_pools_upto(
    m: CatalogModel,
    size_delta: int,
    excluded: Seq<u128>,
    distinct_sleds: bool,
    n: int,
) -> Seq<Zpool>
    decreases n,
{
    if n <= 0 {
        Seq::empty()
    } else {
        let prev = eligible_pools_upto(m, size_delta, excluded, distinct_sleds, n - 1);
        if pool_passes(m, m.pools[n - 1], size_delta, excluded, distinct_sleds) {
            prev.push(m.pools[n - 1])
        } else {
            prev
        }
    }
}

/// All eligible pools, in catalog order.
pub open spec fn eligible_pools(
    m: CatalogModel,
    size_delta: int,
    excluded: Seq<u128>,
    distinct_sleds: bool,
) -> Seq<Zpool> {
    eligible_pools_upto(m, size_delta, excluded, distinct_sleds, m.pools.len() as int)
}

/// Index of the first pool among the first `n` lying on the given sled.
pub open spec fn sled_index_upto(pools: Seq<Zpool>, sled_id: u128, n: int) -> Option<int>
    decreases n,
{
    if n <= 0 {
        None
    } else {
        match sled_index_upto(pools, sled_id, n - 1) {
            Some(i) => Some(i),
            None => if pools[n - 1].sled_id == sled_id {
                Some(n - 1)
            } else {
                None
            },
        }
    }
}

/// Index of the first pool lying on the given sled, if any.
pub open spec fn sled_index(pools: Seq<Zpool>, sled_id: u128) -> Option<int> {
    sled_index_upto(pools, sled_id, pools.len() as int)
}

/// What a first-match sled index means: the index is in range, lies on the
/// sled, and nothing before it does; absence means nothing in range does.
pub proof fn lemma_sled_index_upto_props(pools: Seq<Zpool>, sled_id: u128, n: int)
    requires
        0 <= n <= pools.len(),
    ensures
        match sled_index_upto(pools, sled_id, n) {
            Some(i) => 0 <= i < n && pools[i].sled_id == sled_id && forall|j: int|
                0 <= j < i ==> pools[j].sled_id != sled_id,
            None => forall|j: int| 0 <= j < n ==> pools[j].sled_id != sled_id,
        },
    decreases n,
{
    if n > 0 {
        lemma_sled_index_upto_props(pools, sled_id, n - 1);
    }
}

/// A first sled match within a prefix stays the first match of every
/// extension.
pub proof fn lemma_sled_index_upto_extend(pools: Seq<Zpool>, sled_id: u128, n: int, m: int)
    requires
        0 <= n <= m,
        sled_index_upto(pools, sled_id, n) is Some,
    ensures
        sled_index_upto(pools, sled_id, m) == sled_index_upto(pools, sled_id, n),
    decreases m,
{
    if m > n {
        lemma_sled_index_upto_extend(pools, sled_id, n, m - 1);
    }
}

/// One pool per sled: of the first `n` pools, each sled keeps the pool whose
/// id orders first under the seed.
pub open spec fn sled_dedup_upto(pools: Seq<Zpool>, seed: u128, n: int) -> Seq<Zpool>
    decreases n,
{
    if n <= 0 {
        Seq::empty()
    } else {
        let prev = sled_dedup_upto(pools, seed, n - 1);
        let p = pools[n - 1];
        match sled_index(prev, p.sled_id) {
            None => prev.push(p),
            Some(i) => if shuffle_lt(p.id, prev[i].id, seed) {
                prev.update(i, p)
            } else {
                prev
            },
        }
    }
}

/// The candidate pools: every eligible pool, reduced to one pool per sled
/// under the distinct-sled strategy.
pub open spec fn candidate_pools(
    m: CatalogModel,
    size_delta: int,
    excluded: Seq<u128>,
    distinct_sleds: bool,
    seed: u128,
) -> Seq<Zpool> {
    let elig = eligible_pools(m, size_delta, excluded, distinct_sleds);
    if distinct_sleds {
        sled_dedup_upto(elig, seed, elig.len() as int)
    } else {
        elig
    }
}

/// Of a pool's provisionable datasets among the first `n`, the one whose id
/// orders first under the seed.
pub open spec fn best_dataset_upto(
    datasets: Seq<CrucibleDataset>,
    pool_id: u128,
    seed: u128,
    n: int,
) -> Option<CrucibleDataset>
    decreases n,
{
    if n <= 0 {
        None
    } else {
        let prev = best_dataset_upto(datasets, pool_id, seed, n - 1);
        let d = datasets[n - 1];
        if d.pool_id == pool_id && dataset_provisionable(d) {
            match prev {
                None => Some(d),
                Some(b) => if shuffle_lt(d.id, b.id, seed) {
                    Some(d)
                } else {
                    Some(b)
                },
            }
        } else {
            prev
        }
    }
}

/// The dataset chosen to host a new region on the given pool, if any.
pub open spec fn best_dataset(m: CatalogModel, pool_id: u128, seed: u128) -> Option<
    CrucibleDataset,
> {
    best_dataset_upto(m.datasets, pool_id, seed, m.datasets.len() as int)
}

/// Candidate placements for the first `n` candidate pools: each pool paired
/// with its chosen dataset; pools without one contribute nothing.
pub open spec fn candidates_upto(m: CatalogModel, pools: Seq<Zpool>, seed: u128, n: int) -> Seq<
    CandidatePlacement,
>
    decreases n,
{
    if n <= 0 {
        Seq::empty()
    } else {
        let prev = candidates_upto(m, pools, seed, n - 1);
        match best_dataset(m, pools[n - 1].id, seed) {
            Some(d) => prev.push(CandidatePlacement { pool: pools[n - 1], dataset: d }),
            None => prev,
        }
    }
}

/// Candidate placements of all candidate pools.
pub open spec fn candidates_of(m: CatalogModel, pools: Seq<Zpool>, seed: u128) -> Seq<
    CandidatePlacement,
> {
    candidates_upto(m, pools, seed, pools.len() as int)
}

/// Where a candidate is inserted in a sorted prefix of length `n`: before
/// the first entry it orders under, else at the end.
pub open spec fn insert_pos_upto(s: Seq<CandidatePlacement>, dataset_id: u128, seed: u128, n: int) -> int
    decreases n,
{
    if n <= 0 {
        0
    } else {
        let prev = insert_pos_upto(s, dataset_id, seed, n - 1);
        if prev < n - 1 {
            prev
        } else if shuffle_lt(dataset_id, s[n - 1].dataset.id, seed) {
            n - 1
        } else {
            n
        }
    }
}

/// The insertion position never runs past the prefix it scanned.
pub proof fn lemma_insert_pos_upto_bounds(
    s: Seq<CandidatePlacement>,
    dataset_id: u128,
    seed: u128,
    n: int,
)
    requires
        0 <= n,
    ensures
        0 <= insert_pos_upto(s, dataset_id, seed, n) <= n,
    decreases n,
{
    if n > 0 {
        lemma_insert_pos_upto_bounds(s, dataset_id, seed, n - 1);
    }
}

/// Once the scan has stopped before the end of a prefix, every longer scan
/// stops at the same position.
pub proof fn lemma_insert_pos_upto_stable(
    s: Seq<CandidatePlacement>,
    dataset_id: u128,
    seed: u128,
    n: int,
    m: int,
)
    requires
        0 <= n <= m,
        insert_pos_upto(s, dataset_id, seed, n) < n,
    ensures
        insert_pos_upto(s, dataset_id, seed, m) == insert_pos_upto(s, dataset_id, seed, n),
    decreases m,
{
    if m > n {
        lemma_insert_pos_upto_stable(s, dataset_id, seed, n, m - 1);
    }
}

/// Inserts a candidate into a sorted sequence at its position.
pub open spec fn insert_sorted(s: Seq<CandidatePlacement>, x: CandidatePlacement, seed: u128) -> Seq<
    CandidatePlacement,
> {
    let pos = insert_pos_upto(s, x.dataset.id, seed, s.len() as int);
    s.insert(pos, x)
}

/// The first `n` candidates, ordered by the shuffle key of their dataset id
/// under the seed.
pub open spec fn shuffle_sorted_upto(cands: Seq<CandidatePlacement>, seed: u128, n: int) -> Seq<
    CandidatePlacement,
>
    decreases n,
{
    if n <= 0 {
        Seq::empty()
    } else {
        insert_sorted(shuffle_sorted_upto(cands, seed, n - 1), cands[n - 1], seed)
    }
}

/// All candidates, ordered by the shuffle key of their dataset id under the
/// seed.
pub open spec fn shuffle_sorted(cands: Seq<CandidatePlacement>, seed: u128) -> Seq<
    CandidatePlacement,
> {
    shuffle_sorted_upto(cands, seed, cands.len() as int)
}

/// The record of one newly allocated region.
pub open spec fn new_region_record(
    volume_id: u128,
    params: RegionParameters,
    id: u128,
    dataset_id: u128,
) -> RegionRecord {
    RegionRecord {
        id,
        dataset_id,
        volume_id,
        block_size: params.block_size,
        blocks_per_extent: params.blocks_per_extent,
        extent_count: params.extent_count,
        port: None,
        read_only: params.read_only,
        deleting: false,
        reservation_percent: RegionReservationPercent::TwentyFive,
    }
}

/// The records of the newly allocated regions, one per selected placement,
/// with ids handed out in order from `first_id`.
pub open spec fn new_regions_from(
    selected: Seq<CandidatePlacement>,
    volume_id: u128,
    params: RegionParameters,
    first_id: u128,
) -> Seq<RegionRecord> {
    Seq::new(
        selected.len(),
        |k: int|
            new_region_record(volume_id, params, (first_id + k) as u128, selected[k].dataset.id),
    )
}

/// A dataset with the reservation of one new region added to its usage.
pub open spec fn bumped_dataset(d: CrucibleDataset, size_delta: int) -> CrucibleDataset {
    CrucibleDataset { size_used: (d.size_used + size_delta) as i64, ..d }
}

/// The datasets after the first `n` selected placements have each added the
/// reservation to their dataset's usage.
pub open spec fn apply_updates(
    datasets: Seq<CrucibleDataset>,
    selected: Seq<CandidatePlacement>,
    size_delta: int,
    n: int,
) -> Seq<CrucibleDataset>
    decreases n,
{
    if n <= 0 {
        datasets
    } else {
        let prev = apply_updates(datasets, selected, size_delta, n - 1);
        match dataset_index(prev, selected[n - 1].dataset.id) {
            Some(i) => prev.update(i, bumped_dataset(prev[i], size_delta)),
            None => prev,
        }
    }
}

/// The `(dataset, region)` pairs of the volume's regions among the first
/// `n`, each region joined with its dataset record.
pub open spec fn volume_pairs_upto(m: CatalogModel, volume_id: u128, n: int) -> Seq<
    (CrucibleDataset, RegionRecord),
>
    decreases n,
{
    if n <= 0 {
        Seq::empty()
    } else {
        let prev = volume_pairs_upto(m, volume_id, n - 1);
        let r = m.regions[n - 1];
        if r.volume_id == volume_id {
            match find_dataset(m.datasets, r.dataset_id) {
                Some(d) => prev.push((d, r)),
                None => prev,
            }
        } else {
            prev
        }
    }
}

/// The `(dataset, region)` pairs of all the volume's current regions.
pub open spec fn volume_pairs(m: CatalogModel, volume_id: u128) -> Seq<
    (CrucibleDataset, RegionRecord),
> {
    volume_pairs_upto(m, volume_id, m.regions.len() as int)
}

/// The `(dataset, region)` pairs of the newly allocated regions, with each
/// dataset record reflecting its increased usage.
pub open spec fn new_pairs(
    selected: Seq<CandidatePlacement>,
    volume_id: u128,
    params: RegionParameters,
    size_delta: int,
    first_id: u128,
) -> Seq<(CrucibleDataset, RegionRecord)> {
    Seq::new(
        selected.len(),
        |k: int|
            (
                bumped_dataset(selected[k].dataset, size_delta),
                new_region_record(
                    volume_id,
                    params,
                    (first_id + k) as u128,
                    selected[k].dataset.id,
                ),
            ),
    )
}

/// The distinct pools over the volume's pools and the first `n` selected
/// placements together.
pub open spec fn combined_pools_upto(
    base: Seq<u128>,
    selected: Seq<CandidatePlacement>,
    n: int,
) -> Seq<u128>
    decreases n,
{
    if n <= 0 {
        base
    } else {
        push_unique(combined_pools_upto(base, selected, n - 1), selected[n - 1].dataset.pool_id)
    }
}

/// Whether the pool record is one of the catalog's.
pub open spec fn pool_in_catalog(m: CatalogModel, p: Zpool) -> bool {
    exists|i: int| 0 <= i < m.pools.len() && m.pools[i] == p
}

/// Everything the pipeline guarantees of one candidate placement: a pool of
/// the catalog, eligible (and on a permitted sled under the distinct-sled
/// strategy), and a provisionable dataset of that pool that really is the
/// catalog's record.
pub open spec fn candidate_ok(
    m: CatalogModel,
    size_delta: int,
    excluded: Seq<u128>,
    distinct_sleds: bool,
    c: CandidatePlacement,
) -> bool {
    &&& pool_in_catalog(m, c.pool)
    &&& pool_eligible(m, c.pool, size_delta, excluded)
    &&& (distinct_sleds ==> !sled_hosts_excluded_pool(m.pools, excluded, c.pool.sled_id))
    &&& c.dataset.pool_id == c.pool.id
    &&& dataset_provisionable(c.dataset)
    &&& find_dataset(m.datasets, c.dataset.id) == Some(c.dataset)
}

/// No two placements share a pool.
pub open spec fn placements_pools_distinct(s: Seq<CandidatePlacement>) -> bool {
    forall|a: int, b: int|
        0 <= a < b < s.len() ==> s[a].dataset.pool_id != s[b].dataset.pool_id
}

/// No two placements share a sled.
pub open spec fn placements_sleds_distinct(s: Seq<CandidatePlacement>) -> bool {
    forall|a: int, b: int| 0 <= a < b < s.len() ==> s[a].pool.sled_id != s[b].pool.sled_id
}

/// No two placements share a dataset.
pub open spec fn placements_datasets_distinct(s: Seq<CandidatePlacement>) -> bool {
    forall|a: int, b: int| 0 <= a < b < s.len() ==> s[a].dataset.id != s[b].dataset.id
}

/// The sled a region lives on: through its dataset's pool to the pool's
/// sled, where the catalog knows them.
pub open spec fn region_sled_id(m: CatalogModel, r: RegionRecord) -> Option<u128> {
    match dataset_pool_id(m.datasets, r.dataset_id) {
        Some(pid) => match crate::catalog::find_pool(m.pools, pid) {
            Some(p) => Some(p.sled_id),
            None => None,
        },
        None => None,
    }
}

/// How many regions are still needed to reach the redundancy target.
pub open spec fn spec_needed(old_count: int, redundancy: int) -> int {
    if old_count < redundancy {
        redundancy - old_count
    } else {
        0
    }
}

/// The outcome of one allocation once the sizes have been validated: the
/// catalog after the call, and the returned placements or the first failing
/// condition's error.
pub open spec fn spec_allocate_sized(
    m: CatalogModel,
    volume_id: u128,
    snapshot_id: Option<u128>,
    params: RegionParameters,
    sizes: RegionSizes,
    distinct_sleds: bool,
    seed: u128,
    redundancy: int,
) -> (CatalogModel, Result<Seq<(CrucibleDataset, RegionRecord)>, AllocationError>) {
    let old_count = volume_region_count(m.regions, volume_id);
    let excluded = existing_pools(m, volume_id, snapshot_id);
    let cand_pools = candidate_pools(m, sizes.size_delta as int, excluded, distinct_sleds, seed);
    let sorted = shuffle_sorted(candidates_of(m, cand_pools, seed), seed);
    let needed = spec_needed(old_count, redundancy);
    let selected = sorted.take(
        if needed <= sorted.len() {
            needed
        } else {
            sorted.len() as int
        },
    );
    if cand_pools.len() + excluded.len() < redundancy {
        (m, Err(AllocationError::NotEnoughZpoolSpace))
    } else if selected.len() + old_count < redundancy {
        (m, Err(AllocationError::NotEnoughDatasets))
    } else if combined_pools_upto(volume_pools(m, volume_id), selected, selected.len() as int).len()
        < redundancy {
        (m, Err(AllocationError::NotEnoughUniqueZpools))
    } else if old_count < redundancy {
        let m2 = CatalogModel {
            datasets: apply_updates(m.datasets, selected, sizes.size_delta as int, selected.len() as int),
            regions: m.regions + new_regions_from(selected, volume_id, params, m.next_region_id),
            next_region_id: (m.next_region_id + selected.len()) as u128,
            ..m
        };
        (
            m2,
            Ok(
                volume_pairs(m, volume_id) + new_pairs(
                    selected,
                    volume_id,
                    params,
                    sizes.size_delta as int,
                    m.next_region_id,
                ),
            ),
        )
    } else {
        (m, Ok(volume_pairs(m, volume_id)))
    }
}

/// The outcome of one allocation: numeric validation first, then the
/// catalog pipeline.
pub open spec fn spec_allocate(
    m: CatalogModel,
    volume_id: u128,
    snapshot_id: Option<u128>,
    params: RegionParameters,
    distinct_sleds: bool,
    seed: u128,
    redundancy: int,
) -> (CatalogModel, Result<Seq<(CrucibleDataset, RegionRecord)>, AllocationError>) {
    match spec_validate_region_params(params) {
        Err(e) => (m, Err(AllocationError::Query(e))),
        Ok(sizes) => spec_allocate_sized(
            m,
            volume_id,
            snapshot_id,
            params,
            sizes,
            distinct_sleds,
            seed,
            redundancy,
        ),
    }
}

} // verus!
