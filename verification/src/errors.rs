//! The closed error taxonomy of the allocator.
//!
//! Numeric validation failures are wrapped as [`AllocationError::Query`];
//! the three insufficiency conditions each carry their own variant so that
//! operators can tell the root causes apart.

use vstd::prelude::*;
use vstd::string::StringSliceAdditionalSpecFns;

use crate::params::AllocationQueryError;

verus! {

/// Why an allocation was refused. On any of these the catalog is untouched.
#[derive(Debug)]
pub enum AllocationError {
    /// A numeric validation failed before the catalog was read.
    Query(AllocationQueryError),
    /// Too few eligible pools with enough free capacity to meet the
    /// redundancy target.
    NotEnoughZpoolSpace,
    /// Too few eligible datasets to meet the redundancy target.
    NotEnoughDatasets,
    /// Too few distinct pools across existing and new regions to meet the
    /// redundancy target.
    NotEnoughUniqueZpools,
}

impl AllocationError {
    /// The short message shown to callers for an insufficiency; numeric
    /// validation failures carry none.
    pub fn external_message(&self) -> (r: Option<&'static str>)
        ensures
            match *self {
                AllocationError::Query(_) => r is None,
                _ => r matches Some(s) && s@ == "Not enough storage"@,
            },
    {
        match self {
            AllocationError::Query(_) => None,
            _ => Some("Not enough storage"),
        }
    }

    /// The detailed message logged for an insufficiency, telling the three
    /// root causes apart.
    pub fn internal_message(&self) -> (r: Option<&'static str>)
        ensures
            match *self {
                AllocationError::Query(_) => r is None,
                AllocationError::NotEnoughZpoolSpace => r matches Some(s) && s@
                    == "Not enough zpool space to allocate disks. There may not be enough disks with space for the requested region. You may also see this if your rack is in a degraded state, or you're running the default multi-rack topology configuration in a 1-sled development environment."@,
                AllocationError::NotEnoughDatasets => r matches Some(s) && s@
                    == "Not enough datasets to allocate disks"@,
                AllocationError::NotEnoughUniqueZpools => r matches Some(s) && s@
                    == "Not enough unique zpools selected while allocating disks"@,
            },
    {
        match self {
            AllocationError::Query(_) => None,
            AllocationError::NotEnoughZpoolSpace => Some(
                "Not enough zpool space to allocate disks. There may not be enough disks with space for the requested region. You may also see this if your rack is in a degraded state, or you're running the default multi-rack topology configuration in a 1-sled development environment.",
            ),
            AllocationError::NotEnoughDatasets => Some("Not enough datasets to allocate disks"),
            AllocationError::NotEnoughUniqueZpools => Some(
                "Not enough unique zpools selected while allocating disks",
            ),
        }
    }
}

/// Whether two strings hold the same bytes.
fn str_bytes_equal(a: &str, b: &str) -> (r: bool)
    ensures
        r == (a.spec_bytes() == b.spec_bytes()),
{
    let ab = a.as_bytes();
    let bb = b.as_bytes();
    if ab.len() != bb.len() {
        return false;
    }
    let mut k: usize = 0;
    while k < ab.len()
        invariant
            k <= ab@.len(),
            ab@.len() == bb@.len(),
            ab@ == a.spec_bytes(),
            bb@ == b.spec_bytes(),
            forall|j: int| 0 <= j < k ==> ab@[j] == bb@[j],
        decreases ab@.len() - k,
    {
        if ab[k] != bb[k] {
            return false;
        }
        k += 1;
    }
    proof {
        assert(a.spec_bytes() =~= b.spec_bytes());
    }
    true
}

/// The sentinel a backend reports for each insufficiency, classified back
/// into the taxonomy. Any other message is no insufficiency.
pub fn classify_sentinel(message: &str) -> (r: Option<AllocationError>)
    ensures
        ({
            let s = message.spec_bytes();
            if s == "Not enough datasets".spec_bytes() {
                r matches Some(e) && e is NotEnoughDatasets
            } else if s == "Not enough space".spec_bytes() {
                r matches Some(e) && e is NotEnoughZpoolSpace
            } else if s == "Not enough unique zpools selected".spec_bytes() {
                r matches Some(e) && e is NotEnoughUniqueZpools
            } else {
                r is None
            }
        }),
{
    if str_bytes_equal(message, "Not enough datasets") {
        Some(AllocationError::NotEnoughDatasets)
    } else if str_bytes_equal(message, "Not enough space") {
        Some(AllocationError::NotEnoughZpoolSpace)
    } else if str_bytes_equal(message, "Not enough unique zpools selected") {
        Some(AllocationError::NotEnoughUniqueZpools)
    } else {
        None
    }
}

} // verus!
