//! Integer vectors and matrices of dimension three, with the algebra that
//! jump-ahead by matrix powers rests on.
//!
//! Everything here is specification: entries are mathematical integers, products
//! are exact, and reduction modulo `m` is a separate, entry-wise operation.
use vstd::arithmetic::div_mod::{
    lemma_add_mod_noop, lemma_fundamental_div_mod, lemma_fundamental_div_mod_converse_mod,
    lemma_mod_twice, lemma_mul_mod_noop_general, lemma_small_mod,
};
use vstd::prelude::*;

verus! {

/// A column vector `(x, y, z)`.
pub struct Vec3 {
    pub x: int,
    pub y: int,
    pub z: int,
}

/// A matrix given by its three rows.
pub struct Mat3 {
    pub r0: Vec3,
    pub r1: Vec3,
    pub r2: Vec3,
}

/// The inner product of two vectors.
pub open spec fn dot(a: Vec3, b: Vec3) -> int {
    a.x * b.x + a.y * b.y + a.z * b.z
}

/// The row vector `r` times the matrix `b`.
pub open spec fn row_mat(r: Vec3, b: Mat3) -> Vec3 {
    Vec3 {
        x: r.x * b.r0.x + r.y * b.r1.x + r.z * b.r2.x,
        y: r.x * b.r0.y + r.y * b.r1.y + r.z * b.r2.y,
        z: r.x * b.r0.z + r.y * b.r1.z + r.z * b.r2.z,
    }
}

/// The matrix product `a * b`.
pub open spec fn mat_mul(a: Mat3, b: Mat3) -> Mat3 {
    Mat3 { r0: row_mat(a.r0, b), r1: row_mat(a.r1, b), r2: row_mat(a.r2, b) }
}

/// The matrix `a` applied to the column vector `v`.
pub open spec fn mat_vec(a: Mat3, v: Vec3) -> Vec3 {
    Vec3 { x: dot(a.r0, v), y: dot(a.r1, v), z: dot(a.r2, v) }
}

/// The identity matrix.
pub open spec fn mat_identity() -> Mat3 {
    Mat3 {
        r0: Vec3 { x: 1, y: 0, z: 0 },
        r1: Vec3 { x: 0, y: 1, z: 0 },
        r2: Vec3 { x: 0, y: 0, z: 1 },
    }
}

/// The `k`-th power of `a`.
pub open spec fn mat_pow(a: Mat3, k: nat) -> Mat3
    decreases k,
{
    if k == 0 {
        mat_identity()
    } else {
        mat_mul(a, mat_pow(a, (k - 1) as nat))
    }
}

/// Every entry of `v` reduced modulo `m`.
pub open spec fn vec_mod(v: Vec3, m: int) -> Vec3 {
    Vec3 { x: v.x % m, y: v.y % m, z: v.z % m }
}

/// Every entry of `a` reduced modulo `m`.
pub open spec fn mat_mod(a: Mat3, m: int) -> Mat3 {
    Mat3 { r0: vec_mod(a.r0, m), r1: vec_mod(a.r1, m), r2: vec_mod(a.r2, m) }
}

/// Every entry of `v` lies in `0..m`.
pub open spec fn vec_reduced(v: Vec3, m: int) -> bool {
    0 <= v.x < m && 0 <= v.y < m && 0 <= v.z < m
}

/// Every entry of `a` lies in `0..m`.
pub open spec fn mat_reduced(a: Mat3, m: int) -> bool {
    vec_reduced(a.r0, m) && vec_reduced(a.r1, m) && vec_reduced(a.r2, m)
}

proof fn lemma_mul_sum3(p: int, q: int, r: int, c: int)
    by (nonlinear_arith)
    ensures
        (p + q + r) * c == p * c + q * c + r * c,
        c * (p + q + r) == c * p + c * q + c * r,
{
}

proof fn lemma_mul_assoc3(x: int, y: int, z: int)
    by (nonlinear_arith)
    ensures
        (x * y) * z == x * (y * z),
{
}

proof fn lemma_assoc_entry(rx: int, ry: int, rz: int, b0: Vec3, b1: Vec3, b2: Vec3, c: Vec3)
    ensures
        (rx * b0.x + ry * b1.x + rz * b2.x) * c.x + (rx * b0.y + ry * b1.y + rz * b2.y) * c.y + (rx
            * b0.z + ry * b1.z + rz * b2.z) * c.z == rx * (b0.x * c.x + b0.y * c.y + b0.z * c.z)
            + ry * (b1.x * c.x + b1.y * c.y + b1.z * c.z) + rz * (b2.x * c.x + b2.y * c.y + b2.z
            * c.z),
{
    lemma_mul_sum3(rx * b0.x, ry * b1.x, rz * b2.x, c.x);
    lemma_mul_sum3(rx * b0.y, ry * b1.y, rz * b2.y, c.y);
    lemma_mul_sum3(rx * b0.z, ry * b1.z, rz * b2.z, c.z);
    lemma_mul_assoc3(rx, b0.x, c.x);
    lemma_mul_assoc3(ry, b1.x, c.x);
    lemma_mul_assoc3(rz, b2.x, c.x);
    lemma_mul_assoc3(rx, b0.y, c.y);
    lemma_mul_assoc3(ry, b1.y, c.y);
    lemma_mul_assoc3(rz, b2.y, c.y);
    lemma_mul_assoc3(rx, b0.z, c.z);
    lemma_mul_assoc3(ry, b1.z, c.z);
    lemma_mul_assoc3(rz, b2.z, c.z);
    lemma_mul_sum3(b0.x * c.x, b0.y * c.y, b0.z * c.z, rx);
    lemma_mul_sum3(b1.x * c.x, b1.y * c.y, b1.z * c.z, ry);
    lemma_mul_sum3(b2.x * c.x, b2.y * c.y, b2.z * c.z, rz);
}

/// A row times a product is the row times the first factor, times the second.
pub proof fn lemma_row_mat_assoc(r: Vec3, b: Mat3, c: Mat3)
    ensures
        row_mat(row_mat(r, b), c) == row_mat(r, mat_mul(b, c)),
{
    lemma_assoc_entry(r.x, r.y, r.z, b.r0, b.r1, b.r2, Vec3 { x: c.r0.x, y: c.r1.x, z: c.r2.x });
    lemma_assoc_entry(r.x, r.y, r.z, b.r0, b.r1, b.r2, Vec3 { x: c.r0.y, y: c.r1.y, z: c.r2.y });
    lemma_assoc_entry(r.x, r.y, r.z, b.r0, b.r1, b.r2, Vec3 { x: c.r0.z, y: c.r1.z, z: c.r2.z });
}

/// Matrix multiplication is associative.
pub proof fn lemma_mat_mul_assoc(a: Mat3, b: Mat3, c: Mat3)
    ensures
        mat_mul(mat_mul(a, b), c) == mat_mul(a, mat_mul(b, c)),
{
    lemma_row_mat_assoc(a.r0, b, c);
    lemma_row_mat_assoc(a.r1, b, c);
    lemma_row_mat_assoc(a.r2, b, c);
}

/// Applying a product is applying the second factor, then the first.
pub proof fn lemma_mat_vec_assoc(a: Mat3, b: Mat3, v: Vec3)
    ensures
        mat_vec(mat_mul(a, b), v) == mat_vec(a, mat_vec(b, v)),
{
    lemma_assoc_entry(a.r0.x, a.r0.y, a.r0.z, b.r0, b.r1, b.r2, v);
    lemma_assoc_entry(a.r1.x, a.r1.y, a.r1.z, b.r0, b.r1, b.r2, v);
    lemma_assoc_entry(a.r2.x, a.r2.y, a.r2.z, b.r0, b.r1, b.r2, v);
}

/// The identity is neutral on both sides.
pub proof fn lemma_mat_identity(a: Mat3)
    ensures
        mat_mul(mat_identity(), a) == a,
        mat_mul(a, mat_identity()) == a,
{
}

/// The identity fixes every vector.
pub proof fn lemma_vec_identity(v: Vec3)
    ensures
        mat_vec(mat_identity(), v) == v,
{
}

/// Exponents add: `a^(j + k) = a^j * a^k`.
pub proof fn lemma_mat_pow_add(a: Mat3, j: nat, k: nat)
    ensures
        mat_pow(a, j + k) == mat_mul(mat_pow(a, j), mat_pow(a, k)),
    decreases j,
{
    if j == 0 {
        lemma_mat_identity(mat_pow(a, k));
    } else {
        let j1 = (j - 1) as nat;
        lemma_mat_pow_add(a, j1, k);
        assert(mat_pow(a, j + k) == mat_mul(a, mat_pow(a, j1 + k)));
        lemma_mat_mul_assoc(a, mat_pow(a, j1), mat_pow(a, k));
    }
}

/// A sum of three residues is congruent to the sum of the three numbers.
pub proof fn lemma_sum3_mod(p: int, q: int, r: int, m: int)
    requires
        m > 0,
    ensures
        ((p % m) + (q % m) + (r % m)) % m == (p + q + r) % m,
{
    lemma_add_mod_noop(p, q, m);
    lemma_add_mod_noop(p + q, r, m);
    lemma_add_mod_noop((p % m) + (q % m), r % m, m);
    lemma_mod_twice(r, m);
}

/// The inner product modulo `m` depends only on the entries modulo `m`.
pub proof fn lemma_dot_mod(a: Vec3, b: Vec3, m: int)
    requires
        m > 0,
    ensures
        dot(vec_mod(a, m), vec_mod(b, m)) % m == dot(a, b) % m,
{
    lemma_mul_mod_noop_general(a.x, b.x, m);
    lemma_mul_mod_noop_general(a.y, b.y, m);
    lemma_mul_mod_noop_general(a.z, b.z, m);
    lemma_sum3_mod(a.x * b.x, a.y * b.y, a.z * b.z, m);
    lemma_sum3_mod((a.x % m) * (b.x % m), (a.y % m) * (b.y % m), (a.z % m) * (b.z % m), m);
}

/// Reducing the factors before a matrix-vector product does not change the
/// reduced result.
pub proof fn lemma_mat_vec_mod(a: Mat3, v: Vec3, m: int)
    requires
        m > 0,
    ensures
        vec_mod(mat_vec(mat_mod(a, m), vec_mod(v, m)), m) == vec_mod(mat_vec(a, v), m),
{
    lemma_dot_mod(a.r0, v, m);
    lemma_dot_mod(a.r1, v, m);
    lemma_dot_mod(a.r2, v, m);
}

/// Reducing the vector before a matrix-vector product does not change the
/// reduced result.
pub proof fn lemma_mat_vec_mod_right(a: Mat3, v: Vec3, m: int)
    requires
        m > 0,
    ensures
        vec_mod(mat_vec(a, vec_mod(v, m)), m) == vec_mod(mat_vec(a, v), m),
{
    lemma_mat_vec_mod(a, v, m);
    lemma_mat_vec_mod(a, vec_mod(v, m), m);
    lemma_mod_twice(v.x, m);
    lemma_mod_twice(v.y, m);
    lemma_mod_twice(v.z, m);
}

/// Reducing the matrix before a matrix-vector product does not change the
/// reduced result.
pub proof fn lemma_mat_vec_mod_left(a: Mat3, v: Vec3, m: int)
    requires
        m > 0,
    ensures
        vec_mod(mat_vec(mat_mod(a, m), v), m) == vec_mod(mat_vec(a, v), m),
{
    lemma_mat_vec_mod(a, v, m);
    lemma_mat_vec_mod(mat_mod(a, m), v, m);
    lemma_mat_mod_reduced(mat_mod(a, m), m);
}

/// Reducing the factors before a matrix product does not change the reduced
/// result.
pub proof fn lemma_mat_mul_mod(a: Mat3, b: Mat3, m: int)
    requires
        m > 0,
    ensures
        mat_mod(mat_mul(mat_mod(a, m), mat_mod(b, m)), m) == mat_mod(mat_mul(a, b), m),
{
    let c0 = Vec3 { x: b.r0.x, y: b.r1.x, z: b.r2.x };
    let c1 = Vec3 { x: b.r0.y, y: b.r1.y, z: b.r2.y };
    let c2 = Vec3 { x: b.r0.z, y: b.r1.z, z: b.r2.z };
    lemma_dot_mod(a.r0, c0, m);
    lemma_dot_mod(a.r0, c1, m);
    lemma_dot_mod(a.r0, c2, m);
    lemma_dot_mod(a.r1, c0, m);
    lemma_dot_mod(a.r1, c1, m);
    lemma_dot_mod(a.r1, c2, m);
    lemma_dot_mod(a.r2, c0, m);
    lemma_dot_mod(a.r2, c1, m);
    lemma_dot_mod(a.r2, c2, m);
}

/// Reduction gives a reduced vector, and leaves a reduced vector as it is.
pub proof fn lemma_vec_mod_reduced(v: Vec3, m: int)
    requires
        m > 0,
    ensures
        vec_reduced(vec_mod(v, m), m),
        vec_reduced(v, m) ==> vec_mod(v, m) == v,
{
    if vec_reduced(v, m) {
        lemma_small_mod(v.x as nat, m as nat);
        lemma_small_mod(v.y as nat, m as nat);
        lemma_small_mod(v.z as nat, m as nat);
    }
}

/// Reduction gives a reduced matrix, and leaves a reduced matrix as it is.
pub proof fn lemma_mat_mod_reduced(a: Mat3, m: int)
    requires
        m > 0,
    ensures
        mat_reduced(mat_mod(a, m), m),
        mat_reduced(a, m) ==> mat_mod(a, m) == a,
{
    lemma_vec_mod_reduced(a.r0, m);
    lemma_vec_mod_reduced(a.r1, m);
    lemma_vec_mod_reduced(a.r2, m);
}

/// Two matrices with the same residues give products with the same residues.
pub proof fn lemma_mat_mul_congruent(a: Mat3, a2: Mat3, b: Mat3, b2: Mat3, m: int)
    requires
        m > 0,
        mat_mod(a, m) == mat_mod(a2, m),
        mat_mod(b, m) == mat_mod(b2, m),
    ensures
        mat_mod(mat_mul(a, b), m) == mat_mod(mat_mul(a2, b2), m),
{
    lemma_mat_mul_mod(a, b, m);
    lemma_mat_mul_mod(a2, b2, m);
}

/// The residue of a negative number, from the residue of its absolute value.
pub proof fn lemma_mod_of_negative(x: int, m: int)
    requires
        m > 0,
    ensures
        (-x) % m == if x % m == 0 {
            0
        } else {
            m - x % m
        },
{
    let q = x / m;
    let t = x % m;
    lemma_fundamental_div_mod(x, m);
    if t == 0 {
        assert(-x == (-q) * m + 0) by (nonlinear_arith)
            requires
                x == m * q + t,
                t == 0,
        ;
        lemma_fundamental_div_mod_converse_mod(-x, m, -q, 0);
    } else {
        assert(-x == (-q - 1) * m + (m - t)) by (nonlinear_arith)
            requires
                x == m * q + t,
        ;
        lemma_fundamental_div_mod_converse_mod(-x, m, -q - 1, m - t);
    }
}

/// Powers of matrices with the same residues have the same residues.
pub proof fn lemma_mat_pow_congruent(a: Mat3, b: Mat3, n: nat, m: int)
    requires
        m > 0,
        mat_mod(a, m) == mat_mod(b, m),
    ensures
        mat_mod(mat_pow(a, n), m) == mat_mod(mat_pow(b, n), m),
    decreases n,
{
    if n > 0 {
        lemma_mat_pow_congruent(a, b, (n - 1) as nat, m);
        lemma_mat_mul_congruent(a, b, mat_pow(a, (n - 1) as nat), mat_pow(b, (n - 1) as nat), m);
    }
}

/// A power of a power: `(a^e)^n = a^(e * n)`.
pub proof fn lemma_mat_pow_mul(a: Mat3, e: nat, n: nat)
    ensures
        mat_pow(mat_pow(a, e), n) == mat_pow(a, e * n),
    decreases n,
{
    if n == 0 {
        assert(e * n == 0);
    } else {
        let k = (n - 1) as nat;
        lemma_mat_pow_mul(a, e, k);
        lemma_mat_pow_add(a, e, e * k);
        assert(e * n == e + e * k) by (nonlinear_arith)
            requires
                n == k + 1,
        ;
    }
}

} // verus!
