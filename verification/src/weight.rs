//! Two-dimensional execution weight: reference time and proof size.

use vstd::prelude::*;

verus! {

/// An amount of execution weight, measured in reference time (picoseconds)
/// and proof size (bytes).
#[derive(Clone, Copy, Debug, PartialEq, Eq, Structural)]
pub struct Weight {
    pub ref_time: u64,
    pub proof_size: u64,
}

/// `a + b`, saturating at `u64::MAX`.
pub open spec fn sat_add_u64(a: u64, b: u64) -> u64 {
    if a + b > u64::MAX { u64::MAX } else { (a + b) as u64 }
}

/// `a - b`, saturating at zero.
pub open spec fn sat_sub_u64(a: u64, b: u64) -> u64 {
    if a < b { 0 } else { (a - b) as u64 }
}

/// `a * b`, saturating at `u64::MAX`.
pub open spec fn sat_mul_u64(a: u64, b: u64) -> u64 {
    if a * b > u64::MAX { u64::MAX } else { (a * b) as u64 }
}

/// `a * b` on `u64`, saturating at `u64::MAX`.
pub fn saturating_mul_u64(a: u64, b: u64) -> (r: u64)
    ensures
        r == sat_mul_u64(a, b),
{
    match a.checked_mul(b) {
        Some(v) => v,
        None => u64::MAX,
    }
}

impl Weight {
    /// Component-wise saturating sum.
    pub open spec fn spec_saturating_add(self, rhs: Weight) -> Weight {
        Weight {
            ref_time: sat_add_u64(self.ref_time, rhs.ref_time),
            proof_size: sat_add_u64(self.proof_size, rhs.proof_size),
        }
    }

    /// Component-wise saturating difference.
    pub open spec fn spec_saturating_sub(self, rhs: Weight) -> Weight {
        Weight {
            ref_time: sat_sub_u64(self.ref_time, rhs.ref_time),
            proof_size: sat_sub_u64(self.proof_size, rhs.proof_size),
        }
    }

    /// Whether any component of `self` is strictly below that of `other`.
    pub open spec fn spec_any_lt(self, other: Weight) -> bool {
        self.ref_time < other.ref_time || self.proof_size < other.proof_size
    }

    /// Whether `self + rhs` fits in both components.
    pub open spec fn add_fits(self, rhs: Weight) -> bool {
        self.ref_time + rhs.ref_time <= u64::MAX && self.proof_size + rhs.proof_size <= u64::MAX
    }

    /// Component-wise exact sum (meaningful where `add_fits` holds).
    pub open spec fn spec_add(self, rhs: Weight) -> Weight {
        Weight {
            ref_time: (self.ref_time + rhs.ref_time) as u64,
            proof_size: (self.proof_size + rhs.proof_size) as u64,
        }
    }

    /// Builds a weight from its two components.
    pub fn from_parts(ref_time: u64, proof_size: u64) -> (w: Weight)
        ensures
            w.ref_time == ref_time,
            w.proof_size == proof_size,
    {
        Weight { ref_time, proof_size }
    }

    /// The zero weight.
    pub fn zero() -> (w: Weight)
        ensures
            w.ref_time == 0,
            w.proof_size == 0,
    {
        Weight { ref_time: 0, proof_size: 0 }
    }

    /// The reference-time component.
    pub fn ref_time(&self) -> (r: u64)
        ensures
            r == self.ref_time,
    {
        self.ref_time
    }

    /// The proof-size component.
    pub fn proof_size(&self) -> (r: u64)
        ensures
            r == self.proof_size,
    {
        self.proof_size
    }

    /// Component-wise saturating sum.
    pub fn saturating_add(self, rhs: Weight) -> (w: Weight)
        ensures
            w == self.spec_saturating_add(rhs),
    {
        Weight {
            ref_time: self.ref_time.saturating_add(rhs.ref_time),
            proof_size: self.proof_size.saturating_add(rhs.proof_size),
        }
    }

    /// Component-wise saturating difference.
    pub fn saturating_sub(self, rhs: Weight) -> (w: Weight)
        ensures
            w == self.spec_saturating_sub(rhs),
    {
        Weight {
            ref_time: self.ref_time.saturating_sub(rhs.ref_time),
            proof_size: self.proof_size.saturating_sub(rhs.proof_size),
        }
    }

    /// Component-wise exact sum; the sum must fit in both components.
    pub fn add(self, rhs: Weight) -> (w: Weight)
        requires
            self.add_fits(rhs),
        ensures
            w == self.spec_add(rhs),
    {
        Weight {
            ref_time: self.ref_time + rhs.ref_time,
            proof_size: self.proof_size + rhs.proof_size,
        }
    }

    /// Whether any component of `self` is strictly below that of `other`.
    pub fn any_lt(self, other: Weight) -> (b: bool)
        ensures
            b == self.spec_any_lt(other),
    {
        self.ref_time < other.ref_time || self.proof_size < other.proof_size
    }
}

} // verus!
