//! Products and inner products modulo a 64-bit modulus, without overflow.
use crate::linalg::lemma_sum3_mod;
use vstd::prelude::*;

verus! {

/// `a * b` reduced modulo `m`.
pub(crate) fn mul_mod(a: u64, b: u64, m: u128) -> (r: u128)
    requires
        0 < m,
    ensures
        r == (a * b) % (m as int),
        r < m,
{
    assert(a * b <= 0xffff_ffff_ffff_ffff * 0xffff_ffff_ffff_ffff) by (nonlinear_arith)
        requires
            a <= 0xffff_ffff_ffff_ffff,
            b <= 0xffff_ffff_ffff_ffff,
    ;
    (a as u128) * (b as u128) % m
}

/// The inner product of `(a0, a1, a2)` and `(b0, b1, b2)`, reduced modulo `m`.
pub(crate) fn dot_mod(a0: u64, a1: u64, a2: u64, b0: u64, b1: u64, b2: u64, m: u128) -> (r: u64)
    requires
        0 < m <= u64::MAX,
    ensures
        r == (a0 * b0 + a1 * b1 + a2 * b2) % (m as int),
        r < m,
{
    let p = mul_mod(a0, b0, m);
    let q = mul_mod(a1, b1, m);
    let t = mul_mod(a2, b2, m);
    proof {
        lemma_sum3_mod(a0 * b0, a1 * b1, a2 * b2, m as int);
    }
    ((p + q + t) % m) as u64
}

} // verus!
