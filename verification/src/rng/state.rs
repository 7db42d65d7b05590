//! The mathematical model of a combined generator's state, and what a jump by
//! a pair of matrices does to it.
use crate::linalg::{
    lemma_mat_vec_assoc, lemma_mat_vec_mod_right, lemma_mod_of_negative, lemma_vec_identity,
    lemma_vec_mod_reduced, mat_pow, mat_vec, vec_mod, vec_reduced, Mat3, Vec3,
};
use vstd::arithmetic::div_mod::{
    lemma_mul_mod_noop_left, lemma_mul_mod_noop_right, lemma_small_mod,
};
use vstd::prelude::*;

verus! {

/// The modulus of the first component, a prime just below 2^32.
pub const M1: u64 = 4_294_967_087;

/// The modulus of the second component, a prime just below 2^32.
pub const M2: u64 = 4_294_944_443;

/// Six integers: the three-term history of each of the two recurrences.
pub struct GeneratorState {
    pub first: Vec3,
    pub second: Vec3,
}

/// Three values as a vector.
pub open spec fn vec_of(v: [u64; 3]) -> Vec3 {
    Vec3 { x: v[0] as int, y: v[1] as int, z: v[2] as int }
}

/// The state that six values stand for: three of the first component, then
/// three of the second.
pub open spec fn seed_state(seed: [u64; 6]) -> GeneratorState {
    GeneratorState {
        first: Vec3 { x: seed[0] as int, y: seed[1] as int, z: seed[2] as int },
        second: Vec3 { x: seed[3] as int, y: seed[4] as int, z: seed[5] as int },
    }
}

/// Every entry is reduced modulo the modulus of its component.
pub open spec fn state_reduced(s: GeneratorState) -> bool {
    vec_reduced(s.first, M1 as int) && vec_reduced(s.second, M2 as int)
}

/// Some entry of each component is not zero.
pub open spec fn state_live(s: GeneratorState) -> bool {
    s.first != (Vec3 { x: 0, y: 0, z: 0 }) && s.second != (Vec3 { x: 0, y: 0, z: 0 })
}

/// The state after each component is multiplied by its matrix and reduced.
pub open spec fn jump(s: GeneratorState, a1: Mat3, a2: Mat3) -> GeneratorState {
    GeneratorState {
        first: vec_mod(mat_vec(a1, s.first), M1 as int),
        second: vec_mod(mat_vec(a2, s.second), M2 as int),
    }
}

/// The state after `n` jumps by the same pair of matrices, one after another.
pub open spec fn jumps(s: GeneratorState, a1: Mat3, a2: Mat3, n: nat) -> GeneratorState
    decreases n,
{
    if n == 0 {
        s
    } else {
        jump(jumps(s, a1, a2, (n - 1) as nat), a1, a2)
    }
}

/// Jumping keeps a state reduced.
pub proof fn lemma_jumps_reduced(s: GeneratorState, a1: Mat3, a2: Mat3, n: nat)
    requires
        state_reduced(s),
    ensures
        state_reduced(jumps(s, a1, a2, n)),
    decreases n,
{
    if n > 0 {
        let p = jumps(s, a1, a2, (n - 1) as nat);
        lemma_vec_mod_reduced(mat_vec(a1, p.first), M1 as int);
        lemma_vec_mod_reduced(mat_vec(a2, p.second), M2 as int);
    }
}

/// `n` jumps in a row are one jump by the `n`-th powers of the matrices.
pub proof fn lemma_jumps_by_power(s: GeneratorState, a1: Mat3, a2: Mat3, n: nat)
    requires
        state_reduced(s),
    ensures
        jumps(s, a1, a2, n) == jump(s, mat_pow(a1, n), mat_pow(a2, n)),
    decreases n,
{
    if n == 0 {
        lemma_vec_identity(s.first);
        lemma_vec_identity(s.second);
        lemma_vec_mod_reduced(s.first, M1 as int);
        lemma_vec_mod_reduced(s.second, M2 as int);
    } else {
        let k = (n - 1) as nat;
        lemma_jumps_by_power(s, a1, a2, k);
        lemma_mat_vec_mod_right(a1, mat_vec(mat_pow(a1, k), s.first), M1 as int);
        lemma_mat_vec_mod_right(a2, mat_vec(mat_pow(a2, k), s.second), M2 as int);
        lemma_mat_vec_assoc(a1, mat_pow(a1, k), s.first);
        lemma_mat_vec_assoc(a2, mat_pow(a2, k), s.second);
    }
}

/// A reduced number that a unit of the residues takes to zero is zero: if
/// `a` has the inverse `inverse` modulo `m` and `m` divides `-a * z`, then
/// `z` is 0.
pub proof fn lemma_unit_cancels(a: int, inverse: int, z: int, m: int)
    requires
        m > 1,
        (inverse * a) % m == 1,
        0 <= z < m,
        (-(a * z)) % m == 0,
    ensures
        z == 0,
{
    lemma_mod_of_negative(a * z, m);
    assert((a * z) % m == 0);
    lemma_mul_mod_noop_right(inverse, a * z, m);
    assert((inverse * (a * z)) % m == (inverse * 0) % m);
    assert(inverse * (a * z) == (inverse * a) * z) by (nonlinear_arith);
    lemma_mul_mod_noop_left(inverse * a, z, m);
    assert(1 * z == z);
    lemma_small_mod(z as nat, m as nat);
    lemma_small_mod(0, m as nat);
}

} // verus!
