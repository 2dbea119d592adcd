//! Benchmarked weights of the runtime: database access costs, the base cost
//! of an extrinsic, and the vault pallet's calls.

use crate::weight::{sat_add_u64, sat_mul_u64, saturating_mul_u64, Weight};
use vstd::prelude::*;

verus! {

/// Reference time of one second.
pub const WEIGHT_REF_TIME_PER_SECOND: u64 = 1_000_000_000_000;

/// Reference time of one millisecond.
pub const WEIGHT_REF_TIME_PER_MILLIS: u64 = 1_000_000_000;

/// Reference time of one microsecond.
pub const WEIGHT_REF_TIME_PER_MICROS: u64 = 1_000_000;

/// Reference time of one nanosecond.
pub const WEIGHT_REF_TIME_PER_NANOS: u64 = 1_000;

/// Cost of reading and of writing one storage item.
#[derive(Clone, Copy, Debug, PartialEq, Eq, Structural)]
pub struct RuntimeDbWeight {
    pub read: u64,
    pub write: u64,
}

impl RuntimeDbWeight {
    /// Weight of `r` reads, saturating.
    pub open spec fn spec_reads(self, r: u64) -> Weight {
        Weight { ref_time: sat_mul_u64(self.read, r), proof_size: 0 }
    }

    /// Weight of `w` writes, saturating.
    pub open spec fn spec_writes(self, w: u64) -> Weight {
        Weight { ref_time: sat_mul_u64(self.write, w), proof_size: 0 }
    }

    /// Weight of `r` reads, saturating.
    pub fn reads(self, r: u64) -> (w: Weight)
        ensures
            w == self.spec_reads(r),
    {
        Weight::from_parts(saturating_mul_u64(self.read, r), 0)
    }

    /// Weight of `w` writes, saturating.
    pub fn writes(self, w: u64) -> (res: Weight)
        ensures
            res == self.spec_writes(w),
    {
        Weight::from_parts(saturating_mul_u64(self.write, w), 0)
    }

    /// Weight of `r` reads and `w` writes, saturating.
    pub fn reads_writes(self, r: u64, w: u64) -> (res: Weight)
        ensures
            res == (Weight {
                ref_time: sat_add_u64(sat_mul_u64(self.read, r), sat_mul_u64(self.write, w)),
                proof_size: 0,
            }),
    {
        let read_weight = saturating_mul_u64(self.read, r);
        let write_weight = saturating_mul_u64(self.write, w);
        Weight::from_parts(read_weight.saturating_add(write_weight), 0)
    }
}

/// Storage costs measured on RocksDB, twice the average observed.
pub struct RocksDbWeight;

impl RocksDbWeight {
    /// 51 866 ns per read and 822 866 ns per write.
    pub fn get() -> (w: RuntimeDbWeight)
        ensures
            w.read == 51_866 * WEIGHT_REF_TIME_PER_NANOS,
            w.write == 822_866 * WEIGHT_REF_TIME_PER_NANOS,
    {
        RuntimeDbWeight {
            read: 51_866 * WEIGHT_REF_TIME_PER_NANOS,
            write: 822_866 * WEIGHT_REF_TIME_PER_NANOS,
        }
    }
}

/// Time to execute a no-op extrinsic.
pub struct ExtrinsicBaseWeight;

impl ExtrinsicBaseWeight {
    /// 72 073 ns of reference time and no proof size.
    pub fn get() -> (w: Weight)
        ensures
            w.ref_time == 72_073 * WEIGHT_REF_TIME_PER_NANOS,
            w.proof_size == 0,
    {
        Weight::from_parts(saturating_mul_u64(WEIGHT_REF_TIME_PER_NANOS, 72_073), 0)
    }
}

/// A benchmarked call weight: fixed reference time and proof size, plus the
/// cost of its reads and writes.
pub open spec fn call_weight(
    db: RuntimeDbWeight,
    ref_time: u64,
    proof_size: u64,
    reads: u64,
    writes: u64,
) -> Weight {
    Weight { ref_time, proof_size: 0 }.spec_saturating_add(
        Weight { ref_time: 0, proof_size },
    ).spec_saturating_add(db.spec_reads(reads)).spec_saturating_add(db.spec_writes(writes))
}

/// Weights of the vault pallet's calls, for a given storage cost.
#[derive(Clone, Copy, Debug, PartialEq, Eq, Structural)]
pub struct WeightInfo {
    pub db_weight: RuntimeDbWeight,
}

impl WeightInfo {
    /// Seven reads and six writes on top of the measured cost.
    pub fn add_element(&self) -> (w: Weight)
        ensures
            w == call_weight(self.db_weight, 10_317_658_000, 3_203_517, 7, 6),
    {
        Weight::from_parts(10_317_658_000, 0).saturating_add(
            Weight::from_parts(0, 3_203_517),
        ).saturating_add(self.db_weight.reads(7)).saturating_add(self.db_weight.writes(6))
    }

    /// One read and one write on top of the measured cost.
    pub fn set_element_source(&self) -> (w: Weight)
        ensures
            w == call_weight(self.db_weight, 29_665_000, 13_763, 1, 1),
    {
        Weight::from_parts(29_665_000, 0).saturating_add(Weight::from_parts(0, 13_763)).saturating_add(
            self.db_weight.reads(1),
        ).saturating_add(self.db_weight.writes(1))
    }

    /// One read and one write on top of the measured cost.
    pub fn delete_element(&self) -> (w: Weight)
        ensures
            w == call_weight(self.db_weight, 10_527_000, 13_763, 1, 1),
    {
        Weight::from_parts(10_527_000, 0).saturating_add(Weight::from_parts(0, 13_763)).saturating_add(
            self.db_weight.reads(1),
        ).saturating_add(self.db_weight.writes(1))
    }
}

} // verus!
