//! How the runtime turns weights and lengths into fees, and how it answers
//! who owns a vault element.

use crate::perbill::{spec_from_rational, Perbill};
use crate::vault;
use crate::weight::Weight;
use crate::weights::{ExtrinsicBaseWeight, WEIGHT_REF_TIME_PER_NANOS};
use vstd::prelude::*;

verus! {

/// Fee numerator: the fee of one extrinsic of base weight.
pub const FEE_NUMERATOR: u128 = 1_000_000_000_000_000;

/// The length fee: one unit per hundred units of length.
pub struct LengthToFeeImpl;

impl LengthToFeeImpl {
    /// The fee for `length_in_bytes`, whose reference time holds the length.
    pub fn weight_to_fee(length_in_bytes: &Weight) -> (fee: u128)
        ensures
            fee == length_in_bytes.ref_time / 100,
    {
        (length_in_bytes.ref_time / 100) as u128
    }
}

/// One term `coeff * weight ^ degree` of a fee polynomial, the coefficient
/// being an integer part plus a fraction.
#[derive(Clone, Copy, Debug, PartialEq, Eq, Structural)]
pub struct WeightToFeeCoefficient {
    pub coeff_integer: u128,
    pub coeff_frac: Perbill,
    pub negative: bool,
    pub degree: u8,
}

/// The base weight's reference time, as a balance.
pub open spec fn base_ref_time() -> u128 {
    (72_073 * WEIGHT_REF_TIME_PER_NANOS) as u128
}

/// The weight fee: linear, such that an extrinsic of base weight costs
/// `FEE_NUMERATOR`.
pub struct WeightToFeeImpl;

impl WeightToFeeImpl {
    /// One term of degree one whose coefficient is
    /// `FEE_NUMERATOR / base_ref_time()`, split into integer part and fraction.
    pub fn polynomial() -> (p: Vec<WeightToFeeCoefficient>)
        ensures
            p@ == seq![
                WeightToFeeCoefficient {
                    coeff_integer: FEE_NUMERATOR / base_ref_time(),
                    coeff_frac: Perbill {
                        parts: spec_from_rational(
                            FEE_NUMERATOR % base_ref_time(),
                            base_ref_time(),
                        ),
                    },
                    negative: false,
                    degree: 1,
                },
            ],
    {
        let p: u128 = FEE_NUMERATOR;
        let q: u128 = ExtrinsicBaseWeight::get().ref_time as u128;
        let mut v: Vec<WeightToFeeCoefficient> = Vec::new();
        v.push(
            WeightToFeeCoefficient {
                degree: 1,
                negative: false,
                coeff_frac: Perbill::from_rational(p % q, q),
                coeff_integer: p / q,
            },
        );
        v
    }
}

/// Answers who owns a vault element.
pub struct AccountIdOf;

impl AccountIdOf {
    /// The owner of `element` in `pallet`, if it is there.
    pub fn convert(pallet: &vault::Pallet, element: u64) -> (r: Option<u64>)
        ensures
            r == (if pallet.elements().contains_key(element) {
                Some(pallet.elements()[element].owner)
            } else {
                None
            }),
    {
        pallet.account_id_of(&element)
    }
}

} // verus!
