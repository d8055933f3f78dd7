//! Tests of the header parsing, the error classifier and messages, and the
//! background-task status records.

use region_alloc::console::accept_gz;
use region_alloc::errors::{classify_sentinel, AllocationError};
use region_alloc::params::AllocationQueryError;
use region_alloc::status::{
    AbandonedVmmReaperStatus, BlueprintRendezvousStats, CrucibleDatasetsRendezvousStats,
    DebugDatasetsRendezvousStats, LookupRegionPortStatus, RegionReplacementDriverStatus,
    RegionReplacementStatus, RegionSnapshotReplacementFinishStatus,
    RegionSnapshotReplacementGarbageCollectStatus, RegionSnapshotReplacementStartStatus,
    RegionSnapshotReplacementStepStatus, ReincarnationReason, SupportBundleCleanupReport,
};

#[test]
fn test_accept_gz() {
    assert!(!accept_gz(""));
    assert!(accept_gz("gzip"));
    assert!(accept_gz("deflate, gzip;q=1.0, *;q=0.5"));
    assert!(accept_gz(" gzip ; q=0.9 "));
    assert!(!accept_gz("gzip2"));
    assert!(accept_gz("gzip2, gzip;q=0.9"));
}

#[test]
fn external_api_document_is_openapi() {
    let doc = region_alloc::controller::controller_external_api_document();
    assert!(doc.starts_with("{\"openapi\":\"3.0.3\""));
    assert!(doc.contains("\"operationId\":\"region_allocate\""));
}

#[test]
fn classifier_maps_each_sentinel() {
    assert!(matches!(
        classify_sentinel("Not enough datasets"),
        Some(AllocationError::NotEnoughDatasets)
    ));
    assert!(matches!(
        classify_sentinel("Not enough space"),
        Some(AllocationError::NotEnoughZpoolSpace)
    ));
    assert!(matches!(
        classify_sentinel("Not enough unique zpools selected"),
        Some(AllocationError::NotEnoughUniqueZpools)
    ));
    assert!(classify_sentinel("something else entirely").is_none());
    assert!(classify_sentinel("Not enough dataset").is_none());
}

#[test]
fn insufficiency_messages_read_as_not_enough_storage() {
    for e in [
        AllocationError::NotEnoughZpoolSpace,
        AllocationError::NotEnoughDatasets,
        AllocationError::NotEnoughUniqueZpools,
    ] {
        assert_eq!(e.external_message(), Some("Not enough storage"));
    }
    assert_eq!(
        AllocationError::NotEnoughDatasets.internal_message(),
        Some("Not enough datasets to allocate disks")
    );
    assert_eq!(
        AllocationError::NotEnoughUniqueZpools.internal_message(),
        Some("Not enough unique zpools selected while allocating disks")
    );
    assert!(AllocationError::NotEnoughZpoolSpace
        .internal_message()
        .unwrap()
        .starts_with("Not enough zpool space to allocate disks"));
}

#[test]
fn validation_error_labels() {
    assert_eq!(
        AllocationQueryError::RegionSizeOverflow.label(),
        "region size overflowed u64"
    );
    assert_eq!(
        AllocationQueryError::RequestedRegionOverMaxSize { request: 5, maximum: 4 }.label(),
        "region size over maximum"
    );
    assert_eq!(
        AllocationQueryError::RequestedRegionNotDivisibleByFactor { request: 2, factor: 4 }
            .label(),
        "region size not divisible by reservation factor"
    );
}

#[test]
fn reincarnation_reason_labels() {
    assert_eq!(ReincarnationReason::Failed.label(), "instance failed");
    assert_eq!(ReincarnationReason::SagaUnwound.label(), "start saga failed");
    assert!(ReincarnationReason::Failed < ReincarnationReason::SagaUnwound);
}

#[test]
fn status_records_start_empty() {
    let s = RegionSnapshotReplacementStartStatus::default();
    assert!(s.requests_created_ok.is_empty());
    assert!(s.start_invoked_ok.is_empty());
    assert!(s.requests_completed_ok.is_empty());
    assert!(s.errors.is_empty());
    assert_eq!(s, RegionSnapshotReplacementStartStatus::default());

    let g = RegionSnapshotReplacementGarbageCollectStatus::default();
    assert!(g.garbage_collect_requested.is_empty() && g.errors.is_empty());

    let st = RegionSnapshotReplacementStepStatus::default();
    assert!(st.step_records_created_ok.is_empty());
    assert!(st.step_garbage_collect_invoked_ok.is_empty());
    assert!(st.step_invoked_ok.is_empty());
    assert!(st.step_set_volume_deleted_ok.is_empty());

    let f = RegionSnapshotReplacementFinishStatus::default();
    assert!(f.finish_invoked_ok.is_empty() && f.errors.is_empty());

    let r = RegionReplacementStatus::default();
    assert!(r.requests_created_ok.is_empty() && r.errors.is_empty());

    let d = RegionReplacementDriverStatus::default();
    assert!(d.drive_invoked_ok.is_empty() && d.finish_invoked_ok.is_empty());

    let l = LookupRegionPortStatus::default();
    assert!(l.found_port_ok.is_empty() && l.errors.is_empty());

    let a = AbandonedVmmReaperStatus::default();
    assert_eq!(a.vmms_found + a.sled_reservations_deleted + a.vmms_deleted, 0);

    let b = SupportBundleCleanupReport::default();
    assert_eq!(b.sled_bundles_deleted_ok, 0);
    assert_eq!(b.db_destroying_bundles_removed, 0);
}

#[test]
fn rendezvous_stats_hold_their_counts() {
    let crucible = CrucibleDatasetsRendezvousStats {
        num_inserted: 2,
        num_already_exist: 1,
        num_not_in_inventory: 3,
    };
    let debug = DebugDatasetsRendezvousStats {
        num_inserted: 4,
        num_already_exist: 0,
        num_not_in_inventory: 1,
        num_tombstoned: 2,
        num_already_tombstoned: 5,
    };
    let stats = BlueprintRendezvousStats { debug_dataset: debug, crucible_dataset: crucible };
    assert_eq!(stats.crucible_dataset.num_inserted, 2);
    assert_eq!(stats.debug_dataset.num_already_tombstoned, 5);
    assert_eq!(stats, stats.clone());
}
