//! Fractions in parts per billion, computed by `sp_arithmetic`.

use vstd::prelude::*;

verus! {

/// Parts in a whole.
pub const ACCURACY: u32 = 1_000_000_000;

/// A fraction of one, in parts per billion.
#[derive(Clone, Copy, Debug, PartialEq, Eq, Structural)]
pub struct Perbill {
    pub parts: u32,
}

/// The parts of `p / q`, rounded down; one whole when `q` is zero or `p > q`.
pub open spec fn spec_from_rational(p: u128, q: u128) -> u32 {
    if q == 0 || p > q {
        ACCURACY
    } else {
        ((ACCURACY as int * p) / (q as int)) as u32
    }
}

/// `parts` capped at one whole.
pub open spec fn capped(parts: u32) -> u32 {
    if parts > ACCURACY { ACCURACY } else { parts }
}

/// `x * parts / 10^9`, rounded to the nearest integer, halves rounded down.
pub open spec fn spec_perbill_mul(parts: u32, x: u128) -> u128 {
    let prod = x as int * capped(parts) as int;
    let q = prod / (ACCURACY as int);
    let r = prod % (ACCURACY as int);
    (if r > ACCURACY as int / 2 { q + 1 } else { q }) as u128
}

/// `Perbill::from_rational(p, q)` of `sp_arithmetic`, as parts. Its source
/// computes `floor(10^9 * p / q)` exactly (rounding down) when `q != 0` and
/// `p <= q`, and gives one whole otherwise.
#[verifier::external_body]
fn sp_from_rational(p: u128, q: u128) -> (parts: u32)
    ensures
        parts == spec_from_rational(p, q),
{
    sp_arithmetic::Perbill::from_rational(p, q).deconstruct()
}

/// `Perbill::from_parts(parts) * x` of `sp_arithmetic` on `u128`. Its source
/// caps the parts at one whole and multiplies without overflow, rounding to
/// the nearest integer with halves rounded down.
#[verifier::external_body]
fn sp_perbill_mul(parts: u32, x: u128) -> (r: u128)
    ensures
        r == spec_perbill_mul(parts, x),
{
    sp_arithmetic::Perbill::from_parts(parts) * x
}

/// `spec_perbill_mul` never exceeds its argument.
pub proof fn lemma_perbill_mul_le(parts: u32, x: u128)
    ensures
        spec_perbill_mul(parts, x) <= x,
{
    let c = capped(parts) as int;
    let a = ACCURACY as int;
    let prod = x as int * c;
    assert(0 <= c <= a);
    assert(0 <= prod <= x as int * a) by (nonlinear_arith)
        requires
            0 <= c <= a,
            prod == x as int * c,
            x >= 0,
    ;
    let q = prod / a;
    let r = prod % a;
    assert(prod == a * q + r && 0 <= r < a) by (nonlinear_arith)
        requires
            a > 0,
            q == prod / a,
            r == prod % a,
    ;
    if c == a {
        assert(prod == x as int * a);
        assert(q == x as int && r == 0) by (nonlinear_arith)
            requires
                prod == x as int * a,
                prod == a * q + r,
                0 <= r < a,
                a > 0,
        ;
    } else {
        assert(prod < x as int * a || x == 0) by (nonlinear_arith)
            requires
                0 <= c < a,
                prod == x as int * c,
                x >= 0,
        ;
        if x == 0 {
            assert(prod == 0);
        } else {
            assert(q < x as int) by (nonlinear_arith)
                requires
                    prod < x as int * a,
                    prod == a * q + r,
                    0 <= r < a,
                    a > 0,
            ;
        }
    }
}

/// `spec_from_rational` never exceeds one whole.
pub proof fn lemma_from_rational_le(p: u128, q: u128)
    ensures
        spec_from_rational(p, q) <= ACCURACY,
{
    if q != 0 && p <= q {
        assert(ACCURACY as int * p <= ACCURACY as int * q) by (nonlinear_arith)
            requires
                p <= q,
        ;
        assert((ACCURACY as int * p) / (q as int) <= ACCURACY as int) by (nonlinear_arith)
            requires
                ACCURACY as int * p <= ACCURACY as int * q,
                q > 0,
        ;
    }
}

impl Perbill {
    /// Nothing.
    pub fn zero() -> (p: Perbill)
        ensures
            p.parts == 0,
    {
        Perbill { parts: 0 }
    }

    /// The fraction `p / q`, rounded down; one whole when `q` is zero or `p > q`.
    pub fn from_rational(p: u128, q: u128) -> (r: Perbill)
        ensures
            r.parts == spec_from_rational(p, q),
            r.parts <= ACCURACY,
    {
        let parts = sp_from_rational(p, q);
        proof {
            lemma_from_rational_le(p, q);
        }
        Perbill { parts }
    }

    /// The parts per billion.
    pub fn deconstruct(self) -> (r: u32)
        ensures
            r == self.parts,
    {
        self.parts
    }

    /// `x` scaled by this fraction, rounded to nearest with halves rounded down.
    pub fn mul(self, x: u128) -> (r: u128)
        ensures
            r == spec_perbill_mul(self.parts, x),
            r <= x,
    {
        proof {
            lemma_perbill_mul_le(self.parts, x);
        }
        sp_perbill_mul(self.parts, x)
    }
}

} // verus!
