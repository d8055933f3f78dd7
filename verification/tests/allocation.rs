//! End-to-end tests of the region allocator over an in-memory catalog.

use region_alloc::allocate::{allocate, allocate_with_seed, RegionAllocationStrategy};
use region_alloc::catalog::{
    Catalog, CrucibleDataset, PhysicalDisk, RegionRecord, RegionSnapshot, Sled, Zpool,
};
use region_alloc::errors::AllocationError;
use region_alloc::params::{
    validate_region_params, AllocationQueryError, RegionParameters, RegionReservationPercent,
    MAX_REGION_SIZE_BYTES,
};

const REGION_REDUNDANCY_THRESHOLD: usize = 3;

/// A catalog with `n` sleds, one pool of `total_size` bytes and one empty
/// dataset each.
fn catalog_with_pools(n: u128, total_size: i64) -> Catalog {
    let mut c = Catalog::new();
    for i in 0..n {
        c.add_sled(Sled { id: 100 + i, policy_in_service: true, state_active: true });
        c.add_physical_disk(PhysicalDisk {
            id: 200 + i,
            policy_in_service: true,
            state_active: true,
        });
        c.add_pool(Zpool {
            id: 300 + i,
            sled_id: 100 + i,
            physical_disk_id: 200 + i,
            total_size,
            control_plane_storage_buffer: 0,
        });
        c.add_dataset(CrucibleDataset {
            id: 400 + i,
            pool_id: 300 + i,
            size_used: 0,
            deleted: false,
            no_provision: false,
        });
    }
    c
}

fn sled_of_pool(c: &Catalog, pool_id: u128) -> u128 {
    c.pools.iter().find(|p| p.id == pool_id).expect("pool must exist").sled_id
}

#[test]
fn allocation_query_region_size_overflow() {
    let volume_id = 0u128;
    let snapshot_id = None;

    let params = RegionParameters {
        block_size: 512,
        blocks_per_extent: 4294967296,
        extent_count: 8388609, // should cause an overflow!
        read_only: false,
    };

    let mut catalog = Catalog::new();
    let Err(e) = allocate(
        &mut catalog,
        volume_id,
        snapshot_id,
        params,
        &RegionAllocationStrategy::RandomWithDistinctSleds { seed: Some(1) },
        REGION_REDUNDANCY_THRESHOLD,
    ) else {
        panic!("expected error");
    };

    assert!(matches!(
        e,
        AllocationError::Query(AllocationQueryError::RegionSizeOverflow)
    ));
}

#[test]
fn allocation_query_region_size_too_large() {
    let volume_id = 0u128;
    let snapshot_id = None;

    let params = RegionParameters {
        block_size: 512,
        blocks_per_extent: 8388608, // 2^32 / 512
        extent_count: 256,          // 255 would be ok, 256 is too large
        read_only: false,
    };

    let mut catalog = Catalog::new();
    let Err(e) = allocate(
        &mut catalog,
        volume_id,
        snapshot_id,
        params,
        &RegionAllocationStrategy::RandomWithDistinctSleds { seed: Some(1) },
        REGION_REDUNDANCY_THRESHOLD,
    ) else {
        panic!("expected error!");
    };

    assert!(matches!(
        e,
        AllocationError::Query(AllocationQueryError::RequestedRegionOverMaxSize {
            request: 1099511627776u64,
            maximum: MAX_REGION_SIZE_BYTES,
        })
    ));
}

#[test]
fn allocation_boundary_size_succeeds() {
    // One extent fewer than the over-maximum case fits under the ceiling.
    let params = RegionParameters {
        block_size: 512,
        blocks_per_extent: 8388608,
        extent_count: 255,
        read_only: false,
    };
    // requested = 512 * 8388608 * 255; reserve another quarter on top.
    let mut catalog = catalog_with_pools(5, 2_000_000_000_000);
    let result = allocate(
        &mut catalog,
        7,
        None,
        params,
        &RegionAllocationStrategy::RandomWithDistinctSleds { seed: Some(1) },
        REGION_REDUNDANCY_THRESHOLD,
    )
    .expect("boundary-sized region must allocate");
    assert_eq!(result.len(), 3);
}

#[test]
fn allocation_not_divisible_by_factor() {
    let params = RegionParameters {
        block_size: 2,
        blocks_per_extent: 1,
        extent_count: 1,
        read_only: false,
    };
    let e = validate_region_params(&params).unwrap_err();
    assert!(matches!(
        e,
        AllocationQueryError::RequestedRegionNotDivisibleByFactor { request: 2, factor: 4 }
    ));
}

#[test]
fn allocation_validates_sizes_exactly() {
    let params = RegionParameters {
        block_size: 512,
        blocks_per_extent: 4,
        extent_count: 8,
        read_only: false,
    };
    let sizes = validate_region_params(&params).expect("must validate");
    assert_eq!(sizes.requested_size, 16384);
    assert_eq!(sizes.size_delta, 20480);
}

#[test]
fn scenario_distinct_sleds_allocates_three() {
    // Five eligible distinct-sled pools with ample space; target 3 and no
    // existing regions gives exactly 3 regions on 3 distinct sleds.
    let params = RegionParameters {
        block_size: 512,
        blocks_per_extent: 4,
        extent_count: 8,
        read_only: false,
    };
    let mut catalog = catalog_with_pools(5, 1_000_000);
    let result = allocate(
        &mut catalog,
        1,
        None,
        params,
        &RegionAllocationStrategy::RandomWithDistinctSleds { seed: Some(1) },
        3,
    )
    .expect("allocation must succeed");

    assert_eq!(result.len(), 3);
    let mut sleds: Vec<u128> = result
        .iter()
        .map(|(d, _)| sled_of_pool(&catalog, d.pool_id))
        .collect();
    sleds.sort();
    sleds.dedup();
    assert_eq!(sleds.len(), 3, "regions must land on 3 distinct sleds");

    // Every new region reserves the requested size plus a 25% surcharge.
    for (d, r) in &result {
        assert_eq!(d.size_used, 20480);
        assert_eq!(r.volume_id, 1);
        assert_eq!(r.block_size, 512);
        assert_eq!(r.blocks_per_extent, 4);
        assert_eq!(r.extent_count, 8);
        assert!(!r.read_only);
    }
    assert_eq!(catalog.regions.len(), 3);
}

#[test]
fn scenario_too_few_pools_fails_with_space_error() {
    // Only 2 eligible pools exist while 3 regions are wanted.
    let params = RegionParameters {
        block_size: 512,
        blocks_per_extent: 4,
        extent_count: 8,
        read_only: false,
    };
    let mut catalog = catalog_with_pools(2, 1_000_000);
    let before = catalog.clone();
    let e = allocate(
        &mut catalog,
        1,
        None,
        params,
        &RegionAllocationStrategy::RandomWithDistinctSleds { seed: Some(1) },
        3,
    )
    .unwrap_err();
    assert!(matches!(e, AllocationError::NotEnoughZpoolSpace));
    assert_eq!(catalog, before, "a failed allocation writes nothing");
}

#[test]
fn scenario_shared_sled_fails_under_distinct_sleds() {
    // Three pools with space, but all on one sled: the distinct-sled
    // strategy keeps one candidate and cannot meet the target.
    let params = RegionParameters {
        block_size: 512,
        blocks_per_extent: 4,
        extent_count: 8,
        read_only: false,
    };
    let mut catalog = Catalog::new();
    catalog.add_sled(Sled { id: 1, policy_in_service: true, state_active: true });
    for i in 0..3u128 {
        catalog.add_physical_disk(PhysicalDisk {
            id: 20 + i,
            policy_in_service: true,
            state_active: true,
        });
        catalog.add_pool(Zpool {
            id: 30 + i,
            sled_id: 1,
            physical_disk_id: 20 + i,
            total_size: 1_000_000,
            control_plane_storage_buffer: 0,
        });
        catalog.add_dataset(CrucibleDataset {
            id: 40 + i,
            pool_id: 30 + i,
            size_used: 0,
            deleted: false,
            no_provision: false,
        });
    }
    let e = allocate(
        &mut catalog,
        1,
        None,
        params,
        &RegionAllocationStrategy::RandomWithDistinctSleds { seed: Some(1) },
        3,
    )
    .unwrap_err();
    assert!(matches!(e, AllocationError::NotEnoughZpoolSpace));
    assert!(catalog.regions.is_empty());
}

#[test]
fn scenario_target_already_met_is_pure_read() {
    // The volume reaches its target, then a second identical call returns
    // the same placements and writes nothing.
    let params = RegionParameters {
        block_size: 512,
        blocks_per_extent: 4,
        extent_count: 8,
        read_only: false,
    };
    let mut catalog = catalog_with_pools(5, 1_000_000);
    let first = allocate(
        &mut catalog,
        1,
        None,
        params,
        &RegionAllocationStrategy::RandomWithDistinctSleds { seed: Some(1) },
        3,
    )
    .expect("first allocation must succeed");
    assert_eq!(first.len(), 3);

    let snapshot_of_catalog = catalog.clone();
    let second = allocate(
        &mut catalog,
        1,
        None,
        params,
        &RegionAllocationStrategy::RandomWithDistinctSleds { seed: Some(1) },
        3,
    )
    .expect("second allocation must succeed");

    assert_eq!(second, first, "identical call returns the same placements");
    assert_eq!(catalog, snapshot_of_catalog, "zero catalog writes");
}

#[test]
fn idempotent_under_a_fresh_seed() {
    // Once the target is met, even a different seed changes nothing.
    let params = RegionParameters {
        block_size: 512,
        blocks_per_extent: 4,
        extent_count: 8,
        read_only: false,
    };
    let mut catalog = catalog_with_pools(4, 1_000_000);
    let first = allocate_with_seed(&mut catalog, 1, None, params, true, 11, 3)
        .expect("first allocation must succeed");
    let snapshot_of_catalog = catalog.clone();
    let second = allocate_with_seed(&mut catalog, 1, None, params, true, 99, 3)
        .expect("second allocation must succeed");
    assert_eq!(second, first);
    assert_eq!(catalog, snapshot_of_catalog);
}

#[test]
fn monotonic_top_up_adds_only_missing_regions() {
    let params = RegionParameters {
        block_size: 512,
        blocks_per_extent: 4,
        extent_count: 8,
        read_only: false,
    };
    let mut catalog = catalog_with_pools(5, 1_000_000);
    let first = allocate_with_seed(&mut catalog, 1, None, params, true, 1, 1)
        .expect("allocation to one region must succeed");
    assert_eq!(first.len(), 1);
    let old_region_ids: Vec<u128> = catalog.regions.iter().map(|r| r.id).collect();

    let topped = allocate_with_seed(&mut catalog, 1, None, params, true, 1, 3)
        .expect("top-up must succeed");
    assert_eq!(topped.len(), 3);
    assert_eq!(catalog.regions.len(), 3);
    for id in &old_region_ids {
        assert!(
            catalog.regions.iter().any(|r| r.id == *id),
            "top-up never removes an existing region"
        );
    }
}

#[test]
fn same_seed_same_catalog_same_outcome() {
    let params = RegionParameters {
        block_size: 512,
        blocks_per_extent: 4,
        extent_count: 8,
        read_only: false,
    };
    let mut c1 = catalog_with_pools(6, 1_000_000);
    let mut c2 = catalog_with_pools(6, 1_000_000);
    let r1 = allocate_with_seed(&mut c1, 1, None, params, true, 42, 3).unwrap();
    let r2 = allocate_with_seed(&mut c2, 1, None, params, true, 42, 3).unwrap();
    assert_eq!(r1, r2);
    assert_eq!(c1, c2);
}

#[test]
fn snapshot_pools_are_avoided() {
    // The snapshot's lineage occupies two pools; allocating for a volume
    // that references the snapshot must avoid them.
    let params = RegionParameters {
        block_size: 512,
        blocks_per_extent: 4,
        extent_count: 8,
        read_only: false,
    };
    let mut catalog = catalog_with_pools(5, 1_000_000);
    catalog.add_region_snapshot(RegionSnapshot {
        dataset_id: 400,
        region_id: 900,
        snapshot_id: 77,
    });
    catalog.add_region_snapshot(RegionSnapshot {
        dataset_id: 401,
        region_id: 901,
        snapshot_id: 77,
    });
    let result = allocate(
        &mut catalog,
        1,
        Some(77),
        params,
        &RegionAllocationStrategy::Random { seed: Some(5) },
        3,
    )
    .expect("three pools remain free");
    assert_eq!(result.len(), 3);
    for (d, _) in &result {
        assert!(d.pool_id != 300 && d.pool_id != 301, "snapshot pools must be avoided");
    }
}

#[test]
fn full_pool_is_not_eligible() {
    // One pool's free space falls below the reservation; the other four
    // carry the allocation.
    let params = RegionParameters {
        block_size: 512,
        blocks_per_extent: 4,
        extent_count: 8,
        read_only: false,
    };
    let mut catalog = Catalog::new();
    for i in 0..5u128 {
        catalog.add_sled(Sled { id: 100 + i, policy_in_service: true, state_active: true });
        catalog.add_physical_disk(PhysicalDisk {
            id: 200 + i,
            policy_in_service: true,
            state_active: true,
        });
        catalog.add_pool(Zpool {
            id: 300 + i,
            sled_id: 100 + i,
            physical_disk_id: 200 + i,
            // 20480 bytes are reserved per new region; pool 300 cannot fit.
            total_size: if i == 0 { 20000 } else { 1_000_000 },
            control_plane_storage_buffer: 0,
        });
        catalog.add_dataset(CrucibleDataset {
            id: 400 + i,
            pool_id: 300 + i,
            size_used: 0,
            deleted: false,
            no_provision: false,
        });
    }
    let result = allocate(
        &mut catalog,
        1,
        None,
        params,
        &RegionAllocationStrategy::Random { seed: Some(3) },
        3,
    )
    .expect("four pools remain eligible");
    for (d, _) in &result {
        assert_ne!(d.pool_id, 300, "the full pool must not be chosen");
    }
}

#[test]
fn shuffle_follows_digest_order() {
    // The selection order is fixed by the MD5 digest of dataset id and
    // seed: for datasets 400..404 under seed 1 the digests order them
    // 402, 404, 401, 400, 403, so the first three are taken in that order.
    let params = RegionParameters {
        block_size: 512,
        blocks_per_extent: 4,
        extent_count: 8,
        read_only: false,
    };
    let mut catalog = catalog_with_pools(5, 1_000_000);
    let result = allocate_with_seed(&mut catalog, 1, None, params, false, 1, 3).unwrap();
    let chosen: Vec<u128> = result.iter().map(|(d, _)| d.id).collect();
    assert_eq!(chosen, vec![402, 404, 401]);

    // Under seed 42 the digests order them 403, 404, 401, 402, 400.
    let mut catalog = catalog_with_pools(5, 1_000_000);
    let result = allocate_with_seed(&mut catalog, 1, None, params, false, 42, 3).unwrap();
    let chosen: Vec<u128> = result.iter().map(|(d, _)| d.id).collect();
    assert_eq!(chosen, vec![403, 404, 401]);
}

#[test]
fn not_enough_datasets_with_snapshot_lineage() {
    // Three pools count toward the space check — two of them through the
    // snapshot's lineage — but only one dataset can host a new region.
    let params = RegionParameters {
        block_size: 512,
        blocks_per_extent: 4,
        extent_count: 8,
        read_only: false,
    };
    let mut catalog = catalog_with_pools(3, 1_000_000);
    catalog.add_region_snapshot(RegionSnapshot {
        dataset_id: 400,
        region_id: 900,
        snapshot_id: 77,
    });
    catalog.add_region_snapshot(RegionSnapshot {
        dataset_id: 401,
        region_id: 901,
        snapshot_id: 77,
    });
    let e = allocate(
        &mut catalog,
        1,
        Some(77),
        params,
        &RegionAllocationStrategy::Random { seed: Some(1) },
        3,
    )
    .unwrap_err();
    assert!(matches!(e, AllocationError::NotEnoughDatasets));
    assert!(catalog.regions.is_empty());
}

#[test]
fn not_enough_unique_zpools_is_detected() {
    // A catalog whose volume already doubled up on one pool (written
    // directly, bypassing the allocator) cannot reach three distinct pools.
    let params = RegionParameters {
        block_size: 512,
        blocks_per_extent: 4,
        extent_count: 8,
        read_only: false,
    };
    let mut catalog = catalog_with_pools(3, 1_000_000);
    let stray = RegionRecord {
        id: 901,
        dataset_id: 400,
        volume_id: 1,
        block_size: 512,
        blocks_per_extent: 4,
        extent_count: 8,
        port: None,
        read_only: false,
        deleting: false,
        reservation_percent: RegionReservationPercent::TwentyFive,
    };
    catalog.regions.push(stray);
    catalog.regions.push(RegionRecord { id: 902, ..stray });
    catalog.next_region_id = 1000;

    let e = allocate(
        &mut catalog,
        1,
        None,
        params,
        &RegionAllocationStrategy::Random { seed: Some(1) },
        3,
    )
    .unwrap_err();
    assert!(matches!(e, AllocationError::NotEnoughUniqueZpools));
}
