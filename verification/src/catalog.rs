//! The capacity catalog: sleds, their storage pools, the datasets within the
//! pools, and the regions already committed to volumes.
//!
//! The allocator reads the catalog to find eligible placements and commits
//! new regions to it. [`Catalog`] is the executable state; [`CatalogModel`]
//! is its mathematical view, over which every contract is stated.

use vstd::prelude::*;

use crate::params::RegionReservationPercent;

verus! {

/// A physical machine hosting pools; the failure-domain unit for the
/// distinct-sled allocation strategy.
#[derive(Debug, Clone, Copy, PartialEq, Eq)]
pub struct Sled {
    pub id: u128,
    /// True while the sled's policy is in-service.
    pub policy_in_service: bool,
    /// True while the sled's state is active.
    pub state_active: bool,
}

/// A physical disk backing a pool. A pool is eligible only while its disk is
/// in-service and active.
#[derive(Debug, Clone, Copy, PartialEq, Eq)]
pub struct PhysicalDisk {
    pub id: u128,
    pub policy_in_service: bool,
    pub state_active: bool,
}

/// A storage pool (zpool): an aggregation of one physical disk's capacity on
/// one sled, and the unit of capacity accounting.
#[derive(Debug, Clone, Copy, PartialEq, Eq)]
pub struct Zpool {
    pub id: u128,
    pub sled_id: u128,
    pub physical_disk_id: u128,
    /// Capacity in bytes, as of the latest inventory snapshot.
    pub total_size: i64,
    /// Bytes held back from provisioning for the control plane's own use.
    pub control_plane_storage_buffer: i64,
}

/// A provisionable storage unit within a pool that hosts regions.
#[derive(Debug, Clone, Copy, PartialEq, Eq)]
pub struct CrucibleDataset {
    pub id: u128,
    pub pool_id: u128,
    /// Bytes of the pool's capacity this dataset has reserved.
    pub size_used: i64,
    /// True once the dataset has been soft-deleted.
    pub deleted: bool,
    /// True when the dataset is excluded from provisioning.
    pub no_provision: bool,
}

/// One replica's worth of block storage backing a slice of a volume.
#[derive(Debug, Clone, Copy, PartialEq, Eq)]
pub struct RegionRecord {
    pub id: u128,
    pub dataset_id: u128,
    pub volume_id: u128,
    pub block_size: u64,
    pub blocks_per_extent: u64,
    pub extent_count: u64,
    pub port: Option<u16>,
    pub read_only: bool,
    pub deleting: bool,
    pub reservation_percent: RegionReservationPercent,
}

/// A record that a dataset hosts a region of a snapshot's lineage. Pools
/// backing a snapshot must be avoided when allocating for a volume that
/// references that snapshot.
#[derive(Debug, Clone, Copy, PartialEq, Eq)]
pub struct RegionSnapshot {
    pub dataset_id: u128,
    pub region_id: u128,
    pub snapshot_id: u128,
}

/// The executable capacity catalog.
///
/// Region records are created only by the allocator; the `next_region_id`
/// counter hands every new region an identifier no existing region holds.
#[derive(Debug, Clone, PartialEq)]
pub struct Catalog {
    pub sleds: Vec<Sled>,
    pub physical_disks: Vec<PhysicalDisk>,
    pub pools: Vec<Zpool>,
    pub datasets: Vec<CrucibleDataset>,
    pub regions: Vec<RegionRecord>,
    pub region_snapshots: Vec<RegionSnapshot>,
    pub next_region_id: u128,
}

/// The mathematical view of a catalog.
#[verifier::ext_equal]
pub struct CatalogModel {
    pub sleds: Seq<Sled>,
    pub physical_disks: Seq<PhysicalDisk>,
    pub pools: Seq<Zpool>,
    pub datasets: Seq<CrucibleDataset>,
    pub regions: Seq<RegionRecord>,
    pub region_snapshots: Seq<RegionSnapshot>,
    pub next_region_id: u128,
}

impl View for Catalog {
    type V = CatalogModel;

    open spec fn view(&self) -> CatalogModel {
        CatalogModel {
            sleds: self.sleds@,
            physical_disks: self.physical_disks@,
            pools: self.pools@,
            datasets: self.datasets@,
            regions: self.regions@,
            region_snapshots: self.region_snapshots@,
            next_region_id: self.next_region_id,
        }
    }
}

/// Index of the first dataset among the first `n` that carries the given id.
pub open spec fn dataset_index_upto(
    datasets: Seq<CrucibleDataset>,
    dataset_id: u128,
    n: int,
) -> Option<int>
    decreases n,
{
    if n <= 0 {
        None
    } else {
        match dataset_index_upto(datasets, dataset_id, n - 1) {
            Some(i) => Some(i),
            None => if datasets[n - 1].id == dataset_id {
                Some(n - 1)
            } else {
                None
            },
        }
    }
}

/// Index of the first dataset carrying the given id, if any.
pub open spec fn dataset_index(datasets: Seq<CrucibleDataset>, dataset_id: u128) -> Option<int> {
    dataset_index_upto(datasets, dataset_id, datasets.len() as int)
}

/// The first dataset carrying the given id, if any.
pub open spec fn find_dataset(datasets: Seq<CrucibleDataset>, dataset_id: u128) -> Option<
    CrucibleDataset,
> {
    match dataset_index(datasets, dataset_id) {
        Some(i) => Some(datasets[i]),
        None => None,
    }
}

/// The pool of the first dataset carrying the given id, if any.
pub open spec fn dataset_pool_id(datasets: Seq<CrucibleDataset>, dataset_id: u128) -> Option<
    u128,
> {
    match find_dataset(datasets, dataset_id) {
        Some(d) => Some(d.pool_id),
        None => None,
    }
}

/// Index of the first pool among the first `n` that carries the given id.
pub open spec fn pool_index_upto(pools: Seq<Zpool>, pool_id: u128, n: int) -> Option<int>
    decreases n,
{
    if n <= 0 {
        None
    } else {
        match pool_index_upto(pools, pool_id, n - 1) {
            Some(i) => Some(i),
            None => if pools[n - 1].id == pool_id {
                Some(n - 1)
            } else {
                None
            },
        }
    }
}

/// The first pool carrying the given id, if any.
pub open spec fn find_pool(pools: Seq<Zpool>, pool_id: u128) -> Option<Zpool> {
    match pool_index_upto(pools, pool_id, pools.len() as int) {
        Some(i) => Some(pools[i]),
        None => None,
    }
}

/// What a first-match pool index means.
pub proof fn lemma_pool_index_upto_props(pools: Seq<Zpool>, pool_id: u128, n: int)
    requires
        0 <= n <= pools.len(),
    ensures
        match pool_index_upto(pools, pool_id, n) {
            Some(i) => 0 <= i < n && pools[i].id == pool_id && forall|j: int|
                0 <= j < i ==> pools[j].id != pool_id,
            None => forall|j: int| 0 <= j < n ==> pools[j].id != pool_id,
        },
    decreases n,
{
    if n > 0 {
        lemma_pool_index_upto_props(pools, pool_id, n - 1);
    }
}

/// Unique ids make any occurrence of a pool record the one its id finds.
pub proof fn lemma_find_pool_of_member(pools: Seq<Zpool>, i: int)
    requires
        forall|a: int, b: int| 0 <= a < b < pools.len() ==> pools[a].id != pools[b].id,
        0 <= i < pools.len(),
    ensures
        find_pool(pools, pools[i].id) == Some(pools[i]),
{
    lemma_pool_index_upto_props(pools, pools[i].id, pools.len() as int);
    match pool_index_upto(pools, pools[i].id, pools.len() as int) {
        Some(j) => {
            if i < j {
                assert(pools[i].id != pools[j].id);
            } else if j < i {
                assert(pools[j].id != pools[i].id);
            }
        },
        None => {
            assert(false);
        },
    }
}

/// True when a sled with this id exists, is in-service and active.
pub open spec fn sled_eligible(sleds: Seq<Sled>, sled_id: u128) -> bool {
    exists|i: int|
        0 <= i < sleds.len() && sleds[i].id == sled_id && sleds[i].policy_in_service
            && sleds[i].state_active
}

/// True when a physical disk with this id exists, is in-service and active.
pub open spec fn disk_eligible(disks: Seq<PhysicalDisk>, disk_id: u128) -> bool {
    exists|i: int|
        0 <= i < disks.len() && disks[i].id == disk_id && disks[i].policy_in_service
            && disks[i].state_active
}

/// Bytes reserved on a pool by the first `n` datasets: the sum of `size_used`
/// over the pool's datasets that are not soft-deleted.
pub open spec fn pool_usage_upto(datasets: Seq<CrucibleDataset>, pool_id: u128, n: int) -> int
    decreases n,
{
    if n <= 0 {
        0
    } else {
        pool_usage_upto(datasets, pool_id, n - 1) + if datasets[n - 1].pool_id == pool_id
            && !datasets[n - 1].deleted {
            datasets[n - 1].size_used as int
        } else {
            0
        }
    }
}

/// Bytes reserved on a pool: the sum of `size_used` over the pool's datasets
/// that are not soft-deleted.
pub open spec fn pool_usage(datasets: Seq<CrucibleDataset>, pool_id: u128) -> int {
    pool_usage_upto(datasets, pool_id, datasets.len() as int)
}

/// True when the dataset may host a new region: not soft-deleted and not
/// excluded from provisioning.
pub open spec fn dataset_provisionable(d: CrucibleDataset) -> bool {
    !d.deleted && !d.no_provision
}

/// True when the pool has at least one dataset that may host a new region.
pub open spec fn pool_has_provisionable_dataset(
    datasets: Seq<CrucibleDataset>,
    pool_id: u128,
) -> bool {
    exists|i: int|
        0 <= i < datasets.len() && datasets[i].pool_id == pool_id && dataset_provisionable(
            datasets[i],
        )
}

/// What a first-match dataset index means: the index is in range, carries
/// the id, and nothing before it does; absence means nothing in range does.
pub proof fn lemma_dataset_index_upto_props(datasets: Seq<CrucibleDataset>, dataset_id: u128, n: int)
    requires
        0 <= n <= datasets.len(),
    ensures
        match dataset_index_upto(datasets, dataset_id, n) {
            Some(i) => 0 <= i < n && datasets[i].id == dataset_id && forall|j: int|
                0 <= j < i ==> datasets[j].id != dataset_id,
            None => forall|j: int| 0 <= j < n ==> datasets[j].id != dataset_id,
        },
    decreases n,
{
    if n > 0 {
        lemma_dataset_index_upto_props(datasets, dataset_id, n - 1);
    }
}

/// A first match within a prefix stays the first match of every extension.
pub proof fn lemma_dataset_index_upto_extend(
    datasets: Seq<CrucibleDataset>,
    dataset_id: u128,
    n: int,
    m: int,
)
    requires
        0 <= n <= m,
        dataset_index_upto(datasets, dataset_id, n) is Some,
    ensures
        dataset_index_upto(datasets, dataset_id, m) == dataset_index_upto(datasets, dataset_id, n),
    decreases m,
{
    if m > n {
        lemma_dataset_index_upto_extend(datasets, dataset_id, n, m - 1);
    }
}

/// Pool usage sums are non-negative and grow with the prefix when every
/// dataset's `size_used` is non-negative.
pub proof fn lemma_pool_usage_upto_monotone(
    datasets: Seq<CrucibleDataset>,
    pool_id: u128,
    n: int,
    m: int,
)
    requires
        0 <= n <= m <= datasets.len(),
        forall|i: int| 0 <= i < datasets.len() ==> datasets[i].size_used >= 0,
    ensures
        0 <= pool_usage_upto(datasets, pool_id, n) <= pool_usage_upto(datasets, pool_id, m),
    decreases m,
{
    if m > n {
        lemma_pool_usage_upto_monotone(datasets, pool_id, n, m - 1);
    } else if n > 0 {
        lemma_pool_usage_upto_monotone(datasets, pool_id, 0, n - 1);
    }
}

impl CatalogModel {
    /// Every sled, pool, dataset and region id is carried by one record only.
    pub open spec fn ids_unique(self) -> bool {
        &&& forall|i: int, j: int|
            0 <= i < j < self.sleds.len() ==> self.sleds[i].id != self.sleds[j].id
        &&& forall|i: int, j: int|
            0 <= i < j < self.pools.len() ==> self.pools[i].id != self.pools[j].id
        &&& forall|i: int, j: int|
            0 <= i < j < self.datasets.len() ==> self.datasets[i].id != self.datasets[j].id
        &&& forall|i: int, j: int|
            0 <= i < j < self.regions.len() ==> self.regions[i].id != self.regions[j].id
    }

    /// Every region's dataset exists in the catalog.
    pub open spec fn regions_have_datasets(self) -> bool {
        forall|i: int|
            0 <= i < self.regions.len() ==> find_dataset(
                self.datasets,
                self.regions[i].dataset_id,
            ) is Some
    }

    /// No two regions of one volume share a pool.
    pub open spec fn volume_pools_exclusive(self) -> bool {
        forall|i: int, j: int|
            0 <= i < j < self.regions.len() && self.regions[i].volume_id
                == self.regions[j].volume_id ==> dataset_pool_id(
                self.datasets,
                self.regions[i].dataset_id,
            ) != dataset_pool_id(self.datasets, self.regions[j].dataset_id)
    }

    /// Sizes are non-negative and every pool's usage sum stays within i64.
    pub open spec fn sizes_bounded(self) -> bool {
        &&& forall|i: int| 0 <= i < self.datasets.len() ==> self.datasets[i].size_used >= 0
        &&& forall|i: int|
            0 <= i < self.pools.len() ==> self.pools[i].total_size >= 0
                && self.pools[i].control_plane_storage_buffer >= 0
        &&& forall|i: int|
            0 <= i < self.pools.len() ==> pool_usage(self.datasets, #[trigger] self.pools[i].id)
                <= i64::MAX
    }

    /// Every region id lies below the fresh-id counter.
    pub open spec fn region_ids_fresh(self) -> bool {
        forall|i: int| 0 <= i < self.regions.len() ==> self.regions[i].id < self.next_region_id
    }

    /// Well-formedness of the catalog. Constructors establish it and the
    /// allocator preserves it.
    pub open spec fn wf(self) -> bool {
        &&& self.ids_unique()
        &&& self.regions_have_datasets()
        &&& self.volume_pools_exclusive()
        &&& self.sizes_bounded()
        &&& self.region_ids_fresh()
    }
}

/// Appending a dataset leaves every usage sum over the old prefix alone and
/// adds the newcomer's own contribution at the end.
pub proof fn lemma_pool_usage_push(datasets: Seq<CrucibleDataset>, d: CrucibleDataset, pid: u128, n: int)
    requires
        0 <= n <= datasets.len(),
    ensures
        pool_usage_upto(datasets.push(d), pid, n) == pool_usage_upto(datasets, pid, n),
        pool_usage(datasets.push(d), pid) == pool_usage(datasets, pid) + (
        if d.pool_id == pid && !d.deleted {
            d.size_used as int
        } else {
            0
        }),
{
    lemma_usage_prefix_agree(datasets.push(d), datasets, pid, n);
    lemma_usage_prefix_agree(datasets.push(d), datasets, pid, datasets.len() as int);
    assert(pool_usage_upto(datasets.push(d), pid, datasets.len() as int + 1) == pool_usage_upto(
        datasets.push(d),
        pid,
        datasets.len() as int,
    ) + (if d.pool_id == pid && !d.deleted {
        d.size_used as int
    } else {
        0
    }));
}

/// Two dataset sequences that agree on a prefix have the same usage sums
/// over it.
proof fn lemma_usage_prefix_agree(
    s1: Seq<CrucibleDataset>,
    s2: Seq<CrucibleDataset>,
    pid: u128,
    n: int,
)
    requires
        0 <= n <= s1.len(),
        n <= s2.len(),
        forall|p: int| 0 <= p < n ==> s1[p] == s2[p],
    ensures
        pool_usage_upto(s1, pid, n) == pool_usage_upto(s2, pid, n),
    decreases n,
{
    if n > 0 {
        lemma_usage_prefix_agree(s1, s2, pid, n - 1);
    }
}

impl Catalog {
    /// Well-formedness of the catalog.
    pub open spec fn wf(self) -> bool {
        self@.wf()
    }

    /// An empty catalog.
    pub fn new() -> (r: Catalog)
        ensures
            r@ == (CatalogModel {
                sleds: Seq::<Sled>::empty(),
                physical_disks: Seq::<PhysicalDisk>::empty(),
                pools: Seq::<Zpool>::empty(),
                datasets: Seq::<CrucibleDataset>::empty(),
                regions: Seq::<RegionRecord>::empty(),
                region_snapshots: Seq::<RegionSnapshot>::empty(),
                next_region_id: 1,
            }),
            r.wf(),
    {
        let r = Catalog {
            sleds: Vec::new(),
            physical_disks: Vec::new(),
            pools: Vec::new(),
            datasets: Vec::new(),
            regions: Vec::new(),
            region_snapshots: Vec::new(),
            next_region_id: 1,
        };
        proof {
            assert(r@ =~= CatalogModel {
                sleds: Seq::<Sled>::empty(),
                physical_disks: Seq::<PhysicalDisk>::empty(),
                pools: Seq::<Zpool>::empty(),
                datasets: Seq::<CrucibleDataset>::empty(),
                regions: Seq::<RegionRecord>::empty(),
                region_snapshots: Seq::<RegionSnapshot>::empty(),
                next_region_id: 1,
            });
        }
        r
    }

    /// Records a sled. Its id must be new.
    pub fn add_sled(&mut self, sled: Sled)
        requires
            old(self).wf(),
            forall|i: int| 0 <= i < old(self)@.sleds.len() ==> old(self)@.sleds[i].id != sled.id,
        ensures
            final(self)@ == (CatalogModel { sleds: old(self)@.sleds.push(sled), ..old(self)@ }),
            final(self).wf(),
    {
        self.sleds.push(sled);
        proof {
            assert(self@ =~= (CatalogModel { sleds: old(self)@.sleds.push(sled), ..old(self)@ }));
        }
    }

    /// Records a physical disk.
    pub fn add_physical_disk(&mut self, disk: PhysicalDisk)
        requires
            old(self).wf(),
        ensures
            final(self)@ == (CatalogModel {
                physical_disks: old(self)@.physical_disks.push(disk),
                ..old(self)@
            }),
            final(self).wf(),
    {
        self.physical_disks.push(disk);
        proof {
            assert(self@ =~= (CatalogModel {
                physical_disks: old(self)@.physical_disks.push(disk),
                ..old(self)@
            }));
        }
    }

    /// Records a pool. Its id must be new and its sizes non-negative.
    pub fn add_pool(&mut self, pool: Zpool)
        requires
            old(self).wf(),
            forall|i: int| 0 <= i < old(self)@.pools.len() ==> old(self)@.pools[i].id != pool.id,
            pool.total_size >= 0,
            pool.control_plane_storage_buffer >= 0,
            pool_usage(old(self)@.datasets, pool.id) <= i64::MAX,
        ensures
            final(self)@ == (CatalogModel { pools: old(self)@.pools.push(pool), ..old(self)@ }),
            final(self).wf(),
    {
        self.pools.push(pool);
        proof {
            assert(self@ =~= (CatalogModel { pools: old(self)@.pools.push(pool), ..old(self)@ }));
        }
    }

    /// Records a dataset. Its id must be new, its usage non-negative, and
    /// its pool's usage sum must stay within bounds.
    pub fn add_dataset(&mut self, dataset: CrucibleDataset)
        requires
            old(self).wf(),
            forall|i: int|
                0 <= i < old(self)@.datasets.len() ==> old(self)@.datasets[i].id != dataset.id,
            dataset.size_used >= 0,
            pool_usage(old(self)@.datasets, dataset.pool_id) + dataset.size_used <= i64::MAX,
        ensures
            final(self)@ == (CatalogModel {
                datasets: old(self)@.datasets.push(dataset),
                ..old(self)@
            }),
            final(self).wf(),
    {
        let ghost m = self@;
        self.datasets.push(dataset);
        proof {
            assert(self@ =~= (CatalogModel { datasets: m.datasets.push(dataset), ..m }));
            let d2 = m.datasets.push(dataset);
            // Old lookups are unchanged: the new dataset's id is new.
            assert forall|rid: u128|
                dataset_index(m.datasets, rid) is Some implies find_dataset(d2, rid)
                == find_dataset(m.datasets, rid) by {
                crate::lemmas::lemma_dataset_index_same_ids(
                    d2,
                    m.datasets,
                    rid,
                    m.datasets.len() as int,
                );
                lemma_dataset_index_upto_extend(d2, rid, m.datasets.len() as int, d2.len() as int);
                lemma_dataset_index_upto_props(m.datasets, rid, m.datasets.len() as int);
                let i = dataset_index(m.datasets, rid)->Some_0;
                assert(d2[i] == m.datasets[i]);
            }
            assert(self@.regions_have_datasets()) by {
                assert forall|i: int| 0 <= i < m.regions.len() implies find_dataset(
                    d2,
                    m.regions[i].dataset_id,
                ) is Some by {
                    assert(find_dataset(m.datasets, m.regions[i].dataset_id) is Some);
                }
            }
            assert(self@.volume_pools_exclusive()) by {
                assert forall|i: int, j: int|
                    0 <= i < j < m.regions.len() && m.regions[i].volume_id
                        == m.regions[j].volume_id implies dataset_pool_id(
                    d2,
                    m.regions[i].dataset_id,
                ) != dataset_pool_id(d2, m.regions[j].dataset_id) by {
                    assert(find_dataset(m.datasets, m.regions[i].dataset_id) is Some);
                    assert(find_dataset(m.datasets, m.regions[j].dataset_id) is Some);
                }
            }
            assert(self@.sizes_bounded()) by {
                assert forall|i: int| 0 <= i < m.pools.len() implies pool_usage(
                    d2,
                    #[trigger] m.pools[i].id,
                ) <= i64::MAX by {
                    lemma_pool_usage_push(m.datasets, dataset, m.pools[i].id, 0);
                    lemma_pool_usage_upto_monotone(
                        m.datasets,
                        dataset.pool_id,
                        0,
                        m.datasets.len() as int,
                    );
                }
            }
        }
    }

    /// Records that a dataset hosts part of a snapshot's lineage.
    pub fn add_region_snapshot(&mut self, rs: RegionSnapshot)
        requires
            old(self).wf(),
        ensures
            final(self)@ == (CatalogModel {
                region_snapshots: old(self)@.region_snapshots.push(rs),
                ..old(self)@
            }),
            final(self).wf(),
    {
        self.region_snapshots.push(rs);
        proof {
            assert(self@ =~= (CatalogModel {
                region_snapshots: old(self)@.region_snapshots.push(rs),
                ..old(self)@
            }));
        }
    }
}

} // verus!
