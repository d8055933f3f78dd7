//! Status reports of the background tasks that drive region and
//! region-snapshot replacement and related upkeep: plain records of what one
//! activation did, handed to the task framework for display.

use vstd::prelude::*;

verus! {

/// The status of a `region_replacement` background task activation
#[derive(Debug, Default)]
pub struct RegionReplacementStatus {
    pub requests_created_ok: Vec<String>,
    pub start_invoked_ok: Vec<String>,
    pub requests_completed_ok: Vec<String>,
    pub errors: Vec<String>,
}

/// The status of a `region_replacement_drive` background task activation
#[derive(Default)]
pub struct RegionReplacementDriverStatus {
    pub drive_invoked_ok: Vec<String>,
    pub finish_invoked_ok: Vec<String>,
    pub errors: Vec<String>,
}

/// The status of a `lookup_region_port` background task activation
#[derive(Default)]
pub struct LookupRegionPortStatus {
    pub found_port_ok: Vec<String>,
    pub errors: Vec<String>,
}

/// The status of a `region_snapshot_replacement_start` background task
/// activation
#[derive(Default, Debug, PartialEq, Eq)]
pub struct RegionSnapshotReplacementStartStatus {
    pub requests_created_ok: Vec<String>,
    pub start_invoked_ok: Vec<String>,
    pub requests_completed_ok: Vec<String>,
    pub errors: Vec<String>,
}

/// The status of a `region_snapshot_replacement_garbage_collect` background
/// task activation
#[derive(Default, Debug, PartialEq, Eq)]
pub struct RegionSnapshotReplacementGarbageCollectStatus {
    pub garbage_collect_requested: Vec<String>,
    pub errors: Vec<String>,
}

/// The status of a `region_snapshot_replacement_step` background task
/// activation
#[derive(Default, Debug, PartialEq, Eq)]
pub struct RegionSnapshotReplacementStepStatus {
    pub step_records_created_ok: Vec<String>,
    pub step_garbage_collect_invoked_ok: Vec<String>,
    pub step_invoked_ok: Vec<String>,
    pub step_set_volume_deleted_ok: Vec<String>,
    pub errors: Vec<String>,
}

/// The status of a `region_snapshot_replacement_finish` background task
/// activation
#[derive(Default, Debug, PartialEq, Eq)]
pub struct RegionSnapshotReplacementFinishStatus {
    pub finish_invoked_ok: Vec<String>,
    pub errors: Vec<String>,
}

/// The status of an `abandoned_vmm_reaper` background task activation.
#[derive(Default, Debug, PartialEq, Eq)]
pub struct AbandonedVmmReaperStatus {
    pub vmms_found: usize,
    pub sled_reservations_deleted: usize,
    pub vmms_deleted: usize,
    pub vmms_already_deleted: usize,
    pub errors: Vec<String>,
}

/// Describes a reason why an instance needs reincarnation.
#[derive(Debug, Copy, Clone, Eq, PartialEq, Ord, PartialOrd)]
pub enum ReincarnationReason {
    /// The instance is Failed.
    Failed,
    /// A previous instance-start saga for this instance has failed.
    SagaUnwound,
}

impl ReincarnationReason {
    /// The reason, spelled out for display.
    pub fn label(&self) -> (r: &'static str)
        ensures
            *self is Failed ==> r@ == "instance failed"@,
            *self is SagaUnwound ==> r@ == "start saga failed"@,
    {
        match self {
            ReincarnationReason::Failed => "instance failed",
            ReincarnationReason::SagaUnwound => "start saga failed",
        }
    }
}

/// Describes what happened while attempting to clean up Support Bundles.
#[derive(Debug, Default, Eq, PartialEq)]
pub struct SupportBundleCleanupReport {
    // Responses from Sled Agents
    pub sled_bundles_deleted_ok: usize,
    pub sled_bundles_deleted_not_found: usize,
    pub sled_bundles_delete_failed: usize,
    // Results from updating our database records
    pub db_destroying_bundles_removed: usize,
    pub db_failing_bundles_updated: usize,
}

/// Counts of operations performed during a blueprint rendezvous.
#[derive(Debug, Clone, Copy, PartialEq, Eq)]
pub struct BlueprintRendezvousStats {
    pub debug_dataset: DebugDatasetsRendezvousStats,
    pub crucible_dataset: CrucibleDatasetsRendezvousStats,
}

/// Counts of Crucible-dataset records reconciled during a rendezvous.
#[derive(Debug, Clone, Copy, Default, PartialEq, Eq)]
pub struct CrucibleDatasetsRendezvousStats {
    /// Number of new Crucible datasets recorded.
    ///
    /// This is a count of in-service Crucible datasets that were also
    /// present in inventory and newly-inserted into `crucible_dataset`.
    pub num_inserted: usize,
    /// Number of Crucible datasets that would have been inserted, except
    /// records for them already existed.
    pub num_already_exist: usize,
    /// Number of Crucible datasets that the current blueprint says are
    /// in-service, but we did not attempt to insert them because they're not
    /// present in the latest inventory collection.
    pub num_not_in_inventory: usize,
}

/// Counts of Debug-dataset records reconciled during a rendezvous.
#[derive(Debug, Clone, Copy, Default, PartialEq, Eq)]
pub struct DebugDatasetsRendezvousStats {
    /// Number of new Debug datasets recorded.
    ///
    /// This is a count of in-service Debug datasets that were also present
    /// in inventory and newly-inserted into `rendezvous_debug_dataset`.
    pub num_inserted: usize,
    /// Number of Debug datasets that would have been inserted, except
    /// records for them already existed.
    pub num_already_exist: usize,
    /// Number of Debug datasets that the current blueprint says are
    /// in-service, but we did not attempt to insert them because they're not
    /// present in the latest inventory collection.
    pub num_not_in_inventory: usize,
    /// Number of Debug datasets that we tombstoned based on their
    /// disposition in the current blueprint being expunged.
    pub num_tombstoned: usize,
    /// Number of Debug datasets that we would have tombstoned, except they
    /// were already tombstoned or deleted.
    pub num_already_tombstoned: usize,
}

} // verus!
