//! Region placement allocator.
//!
//! For a volume that needs a number of redundant block-storage regions, this
//! library decides which datasets (grouped into pools, grouped into sleds)
//! host each region. It enforces capacity limits, pool exclusivity and
//! optional sled anti-affinity, tops up an existing allocation idempotently,
//! and commits all of its changes to the catalog atomically: on any
//! validation failure nothing is changed.

pub mod allocate;
pub mod catalog;
pub mod console;
pub mod controller;
pub mod errors;
pub mod laws;
pub mod lemmas;
pub mod model;
pub mod params;
pub mod shuffle;
pub mod status;
