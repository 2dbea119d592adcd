use science_vault::handlers::{LengthToFeeImpl, WeightToFeeCoefficient, WeightToFeeImpl, FEE_NUMERATOR};
use science_vault::perbill::Perbill;
use science_vault::weight::Weight;
use science_vault::weights::{
    ExtrinsicBaseWeight, RocksDbWeight, WeightInfo, WEIGHT_REF_TIME_PER_MICROS,
    WEIGHT_REF_TIME_PER_MILLIS, WEIGHT_REF_TIME_PER_NANOS, WEIGHT_REF_TIME_PER_SECOND,
};

#[test]
fn sane() {
    let w = ExtrinsicBaseWeight::get();

    // At least 10 µs.
    assert!(
        w.ref_time() >= 10u64 * WEIGHT_REF_TIME_PER_MICROS,
        "Weight should be at least 10 µs."
    );
    // At most 1 ms.
    assert!(w.ref_time() <= WEIGHT_REF_TIME_PER_MILLIS, "Weight should be at most 1 ms.");
}

#[test]
fn bound() {
    let w = RocksDbWeight::get;
    // At least 1 µs.
    assert!(
        w().reads(1).ref_time() >= WEIGHT_REF_TIME_PER_MICROS,
        "Read weight should be at least 1 µs."
    );
    assert!(
        w().writes(1).ref_time() >= WEIGHT_REF_TIME_PER_MICROS,
        "Write weight should be at least 1 µs."
    );
    // At most 1 ms.
    assert!(
        w().reads(1).ref_time() <= WEIGHT_REF_TIME_PER_MILLIS,
        "Read weight should be at most 1 ms."
    );
    assert!(
        w().writes(1).ref_time() <= WEIGHT_REF_TIME_PER_MILLIS,
        "Write weight should be at most 1 ms."
    );
}

#[test]
fn time_constants_match_sp_weights() {
    assert_eq!(WEIGHT_REF_TIME_PER_SECOND, sp_weights::constants::WEIGHT_REF_TIME_PER_SECOND);
    assert_eq!(WEIGHT_REF_TIME_PER_MILLIS, sp_weights::constants::WEIGHT_REF_TIME_PER_MILLIS);
    assert_eq!(WEIGHT_REF_TIME_PER_MICROS, sp_weights::constants::WEIGHT_REF_TIME_PER_MICROS);
    assert_eq!(WEIGHT_REF_TIME_PER_NANOS, sp_weights::constants::WEIGHT_REF_TIME_PER_NANOS);
}

#[test]
fn extrinsic_base_weight_value() {
    assert_eq!(ExtrinsicBaseWeight::get(), Weight::from_parts(72_073_000, 0));
}

#[test]
fn db_weights_saturate() {
    let db = RocksDbWeight::get();
    assert_eq!(db.reads(3), Weight::from_parts(3 * 51_866_000, 0));
    assert_eq!(db.writes(2), Weight::from_parts(2 * 822_866_000, 0));
    assert_eq!(db.reads(u64::MAX), Weight::from_parts(u64::MAX, 0));
    assert_eq!(db.reads_writes(1, 1), Weight::from_parts(51_866_000 + 822_866_000, 0));
    let theirs = sp_weights::RuntimeDbWeight { read: db.read, write: db.write };
    assert_eq!(theirs.reads(u64::MAX).ref_time(), db.reads(u64::MAX).ref_time());
    assert_eq!(theirs.reads_writes(5, 9).ref_time(), db.reads_writes(5, 9).ref_time());
}

#[test]
fn vault_call_weights() {
    let info = WeightInfo { db_weight: RocksDbWeight::get() };
    assert_eq!(info.add_element(), Weight::from_parts(15_617_916_000, 3_203_517));
    assert_eq!(info.set_element_source(), Weight::from_parts(904_397_000, 13_763));
    assert_eq!(info.delete_element(), Weight::from_parts(885_259_000, 13_763));
}

#[test]
fn weight_arithmetic_matches_sp_weights() {
    let cases = [(0u64, 0u64), (1, u64::MAX), (u64::MAX, 5), (100, 200), (7, 7)];
    for &(a, b) in cases.iter() {
        for &(c, d) in cases.iter() {
            let x = Weight::from_parts(a, b);
            let y = Weight::from_parts(c, d);
            let sx = sp_weights::Weight::from_parts(a, b);
            let sy = sp_weights::Weight::from_parts(c, d);
            let s = x.saturating_add(y);
            assert_eq!((s.ref_time(), s.proof_size()), (sx.saturating_add(sy).ref_time(), sx.saturating_add(sy).proof_size()));
            let s = x.saturating_sub(y);
            assert_eq!((s.ref_time(), s.proof_size()), (sx.saturating_sub(sy).ref_time(), sx.saturating_sub(sy).proof_size()));
            assert_eq!(x.any_lt(y), sx.any_lt(sy));
        }
    }
    assert_eq!(Weight::from_parts(1, 2).add(Weight::from_parts(3, 4)), Weight::from_parts(4, 6));
    assert_eq!(Weight::zero(), Weight::from_parts(0, 0));
}

#[test]
fn length_fee_is_a_hundredth() {
    assert_eq!(LengthToFeeImpl::weight_to_fee(&Weight::from_parts(1_234, 5)), 12);
    assert_eq!(LengthToFeeImpl::weight_to_fee(&Weight::from_parts(99, 0)), 0);
}

#[test]
fn weight_fee_polynomial() {
    let p = WeightToFeeImpl::polynomial();
    assert_eq!(
        p,
        vec![WeightToFeeCoefficient {
            coeff_integer: 13_874_821,
            coeff_frac: Perbill { parts: 361_674_968 },
            negative: false,
            degree: 1,
        }]
    );
    assert_eq!(FEE_NUMERATOR, 1_000_000_000_000_000);
}

#[test]
fn perbill_from_rational_rounds_down_and_saturates() {
    assert_eq!(Perbill::from_rational(1, 3), Perbill { parts: 333_333_333 });
    assert_eq!(Perbill::from_rational(2, 3), Perbill { parts: 666_666_666 });
    assert_eq!(Perbill::from_rational(5, 0), Perbill { parts: 1_000_000_000 });
    assert_eq!(Perbill::from_rational(7, 3), Perbill { parts: 1_000_000_000 });
    assert_eq!(Perbill::from_rational(0, 3), Perbill { parts: 0 });
    assert_eq!(
        Perbill::from_rational(u128::MAX - 1, u128::MAX),
        Perbill { parts: 999_999_999 }
    );
}

#[test]
fn perbill_mul_rounds_halves_down() {
    assert_eq!(Perbill { parts: 500_000_000 }.mul(3), 1);
    assert_eq!(Perbill { parts: 500_000_001 }.mul(3), 2);
    assert_eq!(Perbill { parts: 2_000_000_000 }.mul(7), 7);
    assert_eq!(Perbill { parts: 250_000_000 }.mul(u128::MAX), u128::MAX / 4 + 1);
    assert_eq!(Perbill::zero().mul(1_000), 0);
    let theirs = sp_arithmetic::Perbill::from_parts(123_456_789) * 987_654_321_987u128;
    assert_eq!(Perbill { parts: 123_456_789 }.mul(987_654_321_987), theirs);
}
