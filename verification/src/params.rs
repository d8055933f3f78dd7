//! Parameters of a region allocation request and their fail-fast numeric
//! validation: the requested size is computed with overflow detection, held
//! against the policy maximum, and extended by the reservation surcharge.

use vstd::prelude::*;

verus! {

/// Largest region that may be requested. Currently this matches the largest
/// disk that can be requested, but it is a separate constant so that the
/// allocator keeps its own ceiling if the disk maximum grows.
pub const MAX_REGION_SIZE_BYTES: u64 = 1098437885952;

/// Parameters for the region(s) being allocated.
#[derive(Debug, Clone, Copy)]
pub struct RegionParameters {
    pub block_size: u64,
    pub blocks_per_extent: u64,
    pub extent_count: u64,
    /// True if the region will be filled by a clone operation and is meant to
    /// be read-only.
    pub read_only: bool,
}

/// Fixed policy surcharge applied to every region's capacity reservation, to
/// account for metadata and copy-on-write overhead.
#[derive(Debug, Clone, Copy, PartialEq, Eq, Structural)]
pub enum RegionReservationPercent {
    TwentyFive,
}

/// A validation failure detected before the catalog is touched.
#[derive(Debug)]
#[allow(inconsistent_fields)]
pub enum AllocationQueryError {
    /// Region size multiplication overflowed u64
    RegionSizeOverflow,
    /// Requested region size larger than maximum
    RequestedRegionOverMaxSize { request: u64, maximum: u64 },
    /// Requested size not divisible by reservation factor
    RequestedRegionNotDivisibleByFactor { request: i64, factor: i64 },
    /// Adding the overhead to the requested size overflowed
    RequestedRegionOverheadOverflow { request: i64, overhead: i64 },
    /// Converting from u64 to i64 truncated
    RequestedRegionSizeTruncated { request: u64, e: String },
}

impl AllocationQueryError {
    /// The fixed part of the message each validation failure is reported
    /// with; callers append the offending values.
    pub fn label(&self) -> (r: &'static str)
        ensures
            match *self {
                AllocationQueryError::RegionSizeOverflow => r@ == "region size overflowed u64"@,
                AllocationQueryError::RequestedRegionOverMaxSize { .. } => r@
                    == "region size over maximum"@,
                AllocationQueryError::RequestedRegionNotDivisibleByFactor { .. } => r@
                    == "region size not divisible by reservation factor"@,
                AllocationQueryError::RequestedRegionOverheadOverflow { .. } => r@
                    == "adding overhead to region size overflowed"@,
                AllocationQueryError::RequestedRegionSizeTruncated { .. } => r@
                    == "converting region size to i64 truncated"@,
            },
    {
        match self {
            AllocationQueryError::RegionSizeOverflow => "region size overflowed u64",
            AllocationQueryError::RequestedRegionOverMaxSize { .. } => "region size over maximum",
            AllocationQueryError::RequestedRegionNotDivisibleByFactor { .. } => {
                "region size not divisible by reservation factor"
            },
            AllocationQueryError::RequestedRegionOverheadOverflow { .. } => {
                "adding overhead to region size overflowed"
            },
            AllocationQueryError::RequestedRegionSizeTruncated { .. } => {
                "converting region size to i64 truncated"
            },
        }
    }
}

/// The validated sizes of one region request: the exact size asked for, and
/// the amount reserved against a pool (the size plus the 25% surcharge).
#[derive(Debug, Clone, Copy, PartialEq, Eq, Structural)]
pub struct RegionSizes {
    pub requested_size: i64,
    pub size_delta: i64,
}

/// Exact size of the requested region, as unbounded arithmetic.
pub open spec fn spec_requested_size(params: RegionParameters) -> int {
    params.block_size * params.blocks_per_extent * params.extent_count
}

/// Whether the two chained multiplications of the size computation stay in
/// u64, in the order the computation performs them.
pub open spec fn spec_size_mul_fits(params: RegionParameters) -> bool {
    &&& params.block_size * params.blocks_per_extent <= u64::MAX
    &&& spec_requested_size(params) <= u64::MAX
}

/// The reservation applied to a pool for a region of the given size: the size
/// plus a quarter of it.
pub open spec fn spec_size_delta(requested_size: int) -> int {
    requested_size + requested_size / 4
}

/// Whether the request passes every numeric validation.
pub open spec fn spec_params_valid(params: RegionParameters) -> bool {
    &&& spec_size_mul_fits(params)
    &&& spec_requested_size(params) <= MAX_REGION_SIZE_BYTES
    &&& spec_requested_size(params) % 4 == 0
}

/// The outcome of the fail-fast numeric validation, as a function of the
/// parameters alone: either the validated sizes, or the first failing check's
/// error. The overhead addition can never overflow once the size has passed
/// the maximum-size check, so no overhead-overflow or truncation error
/// arises.
pub open spec fn spec_validate_region_params(params: RegionParameters) -> Result<
    RegionSizes,
    AllocationQueryError,
> {
    let size = spec_requested_size(params);
    if !spec_size_mul_fits(params) {
        Err(AllocationQueryError::RegionSizeOverflow)
    } else if size > MAX_REGION_SIZE_BYTES {
        Err(
            AllocationQueryError::RequestedRegionOverMaxSize {
                request: size as u64,
                maximum: MAX_REGION_SIZE_BYTES,
            },
        )
    } else if size % 4 != 0 {
        Err(
            AllocationQueryError::RequestedRegionNotDivisibleByFactor {
                request: size as i64,
                factor: 4,
            },
        )
    } else {
        Ok(RegionSizes { requested_size: size as i64, size_delta: spec_size_delta(size) as i64 })
    }
}

/// Fail-fast numeric validation of a region request, performed before any
/// catalog access.
///
/// The requested size is the product `block_size * blocks_per_extent *
/// extent_count`, computed with overflow detection. It must not exceed
/// [`MAX_REGION_SIZE_BYTES`], and the current 25% reservation policy requires
/// it to be evenly divisible by 4.
pub fn validate_region_params(params: &RegionParameters) -> (r: Result<
    RegionSizes,
    AllocationQueryError,
>)
    ensures
        r == spec_validate_region_params(*params),
        r is Ok <==> spec_params_valid(*params),
{
    // Ensure that the multiplications do not overflow.
    let partial: u64 = match params.block_size.checked_mul(params.blocks_per_extent) {
        Some(v) => v,
        None => {
            return Err(AllocationQueryError::RegionSizeOverflow);
        },
    };
    let requested_size: u64 = match partial.checked_mul(params.extent_count) {
        Some(v) => v,
        None => {
            return Err(AllocationQueryError::RegionSizeOverflow);
        },
    };

    if requested_size > MAX_REGION_SIZE_BYTES {
        return Err(AllocationQueryError::RequestedRegionOverMaxSize {
            request: requested_size,
            maximum: MAX_REGION_SIZE_BYTES,
        });
    }

    // After the check above the value fits in i64.
    let requested_size: i64 = requested_size as i64;

    // The 25% surcharge is taken as a quarter of the requested size, so the
    // requested size must divide evenly by 4.
    if requested_size % 4 != 0 {
        return Err(AllocationQueryError::RequestedRegionNotDivisibleByFactor {
            request: requested_size,
            factor: 4,
        });
    }

    let overhead: i64 = requested_size / 4;

    // The maximum size check above leaves plenty of headroom in i64, so
    // adding the overhead cannot overflow.
    let size_delta: i64 = match requested_size.checked_add(overhead) {
        Some(v) => v,
        None => {
            return Err(AllocationQueryError::RequestedRegionOverheadOverflow {
                request: requested_size,
                overhead,
            });
        },
    };

    Ok(RegionSizes { requested_size, size_delta })
}

} // verus!
