//! The combined generator with stream and substream jumps.
//!
//! A substream starts 2^76 steps after the one before it, a stream 2^127
//! steps. The matrix of such a jump is the one-step matrix of the recurrence
//! squared 76 or 127 times over, and a jump by `n` of them is that matrix
//! raised to the power `n`: every jump leaves the state that so many single
//! steps would leave.
use crate::linalg::{
    lemma_mat_identity, lemma_mat_mod_reduced, lemma_mat_mul_congruent, lemma_mat_pow_add,
    lemma_mat_pow_congruent, lemma_mat_pow_mul, lemma_mat_vec_mod_left, mat_identity, mat_mod,
    mat_mul, mat_pow, mat_vec, vec_mod, Mat3, Vec3,
};
use crate::rng::modular::dot_mod;
use crate::rng::state::{
    jump, jumps, lemma_jumps_by_power, lemma_unit_cancels, seed_state, state_live, state_reduced,
    vec_of, GeneratorState, M1, M2,
};
use vstd::arithmetic::div_mod::{lemma_mod_multiples_vanish, lemma_small_mod};
use vstd::arithmetic::power2::{lemma_pow2_unfold, pow2};
use vstd::prelude::*;

verus! {

/// The multiplier of the first recurrence on the value two steps back.
pub const A12: u64 = 1_403_580;

/// The multiplier that the first recurrence subtracts, on the value three steps back.
pub const A13: u64 = 810_728;

/// The multiplier of the second recurrence on the value two steps back.
pub const A21: u64 = 527_612;

/// The multiplier that the second recurrence subtracts, on the value three steps back.
pub const A23: u64 = 1_370_589;

/// `M1 * A13`: added before reduction, it keeps the first difference from going negative.
pub const CORR1: u64 = 3_482_050_076_509_336;

/// `M2 * A23`: added before reduction, it keeps the second difference from going negative.
pub const CORR2: u64 = 5_886_603_609_186_927;

/// The odd increment between the inputs of the mixing function when seeding.
pub const SEED_INCREMENT: u64 = 0x9e37_79b9_7f4a_7c15;

/// The number of values that `generate` emits at a time.
pub const N: usize = 16;

/// The state of the generator: three values of each recurrence, oldest first.
#[derive(Debug)]
pub struct Mrg32k3aCore {
    s10: u64,
    s11: u64,
    s12: u64,
    s20: u64,
    s21: u64,
    s22: u64,
}

/// Why a list of sub-seeds was refused.
#[derive(Debug, Clone, Copy, PartialEq, Eq)]
pub enum Mrg32k3aError {
    /// A sub-seed of the first component is not in `1..M1`.
    InvalidM1Seed(u64),
    /// A sub-seed of the second component is not in `1..M2`.
    InvalidM2Seed(u64),
    /// The number of sub-seeds is not six.
    InvalidSeedLength(u32),
}

/// The modulus that sub-seed `i` belongs to.
pub open spec fn modulus_at(i: int) -> u64 {
    if i < 3 {
        M1
    } else {
        M2
    }
}

/// Sub-seed `i` lies in `1..modulus`.
pub open spec fn seed_in_range(seeds: [u64; 6], i: int) -> bool {
    0 < seeds[i] < modulus_at(i)
}

/// The error that reports sub-seed `i`.
pub open spec fn seed_error(seeds: [u64; 6], i: int) -> Mrg32k3aError {
    if i < 3 {
        Mrg32k3aError::InvalidM1Seed(seeds[i])
    } else {
        Mrg32k3aError::InvalidM2Seed(seeds[i])
    }
}

/// Stafford's variant 13 of the 64-bit finalizer, with the closing step that
/// this generator uses.
pub open spec fn mix13(z: u64) -> u64 {
    let a = (z ^ (z >> 30)).wrapping_mul(0xBF58_476D_1CE4_E5B9);
    let b = (a ^ (a >> 27)).wrapping_mul(0x94D0_49BB_1331_11EB);
    (b >> 1) ^ (b >> 32)
}

/// The input of the mixing function for sub-seed number `k`, counted from 1.
pub open spec fn seed_input(seed: u64, k: nat) -> u64
    decreases k,
{
    if k == 0 {
        seed
    } else {
        seed_input(seed, (k - 1) as nat).wrapping_add(SEED_INCREMENT)
    }
}

/// The sub-state that stands in for one whose three values are all zero.
pub open spec fn fallback() -> Vec3 {
    Vec3 { x: 12345, y: 12345, z: 12345 }
}

/// A component made fit to run: the zero vector, from which a recurrence
/// never gets away, is replaced by `fallback()`.
pub open spec fn revived(v: Vec3) -> Vec3 {
    if v == (Vec3 { x: 0, y: 0, z: 0 }) {
        fallback()
    } else {
        v
    }
}

/// The state that `set_seed` derives from a 64-bit seed: the mixed
/// sub-seeds, with a component of zeros replaced.
pub open spec fn seeded_state(seed: u64) -> GeneratorState {
    GeneratorState {
        first: revived(mixed_state(seed).first),
        second: revived(mixed_state(seed).second),
    }
}

/// The six mixed and reduced sub-seeds of a 64-bit seed.
pub open spec fn mixed_state(seed: u64) -> GeneratorState {
    GeneratorState {
        first: Vec3 {
            x: (mix13(seed_input(seed, 1)) % M1) as int,
            y: (mix13(seed_input(seed, 2)) % M1) as int,
            z: (mix13(seed_input(seed, 3)) % M1) as int,
        },
        second: Vec3 {
            x: (mix13(seed_input(seed, 4)) % M2) as int,
            y: (mix13(seed_input(seed, 5)) % M2) as int,
            z: (mix13(seed_input(seed, 6)) % M2) as int,
        },
    }
}

/// The number that eight bytes stand for, the least significant byte first.
pub open spec fn le_value(bytes: [u8; 8]) -> int {
    bytes[0] + 0x100 * bytes[1] + 0x1_0000 * bytes[2] + 0x100_0000 * bytes[3] + 0x1_0000_0000
        * bytes[4] + 0x100_0000_0000 * bytes[5] + 0x1_0000_0000_0000 * bytes[6]
        + 0x100_0000_0000_0000 * bytes[7]
}

/// The documented default state: every sub-state is 12345.
pub open spec fn default_state() -> GeneratorState {
    GeneratorState {
        first: Vec3 { x: 12345, y: 12345, z: 12345 },
        second: Vec3 { x: 12345, y: 12345, z: 12345 },
    }
}

/// The state after one step of both recurrences.
pub open spec fn step(s: GeneratorState) -> GeneratorState {
    GeneratorState {
        first: Vec3 {
            x: s.first.y,
            y: s.first.z,
            z: (A12 * s.first.y - A13 * s.first.x) % (M1 as int),
        },
        second: Vec3 {
            x: s.second.y,
            y: s.second.z,
            z: (A21 * s.second.y - A23 * s.second.x) % (M2 as int),
        },
    }
}

/// The state after `n` steps, one after another.
pub open spec fn steps(s: GeneratorState, n: nat) -> GeneratorState
    decreases n,
{
    if n == 0 {
        s
    } else {
        step(steps(s, (n - 1) as nat))
    }
}

/// The 64-bit value that a step emits from the state it starts in: the
/// difference of the newest values where that is positive, and otherwise the
/// difference less `M1`, taken modulo 2^64.
pub open spec fn output(s: GeneratorState) -> int {
    if s.first.z > s.second.z {
        s.first.z - s.second.z
    } else {
        0x1_0000_0000_0000_0000 + s.first.z - s.second.z - M1
    }
}

/// The matrix of one step of the first recurrence.
pub open spec fn transition_first() -> Mat3 {
    Mat3 {
        r0: Vec3 { x: 0, y: 1, z: 0 },
        r1: Vec3 { x: 0, y: 0, z: 1 },
        r2: Vec3 { x: M1 - A13, y: A12 as int, z: 0 },
    }
}

/// The matrix of one step of the second recurrence.
pub open spec fn transition_second() -> Mat3 {
    Mat3 {
        r0: Vec3 { x: 0, y: 1, z: 0 },
        r1: Vec3 { x: 0, y: 0, z: 1 },
        r2: Vec3 { x: M2 - A23, y: A21 as int, z: 0 },
    }
}

/// The binary logarithm of the number of steps between two substreams.
pub const SUBSTREAM_LOG2: u32 = 76;

/// The binary logarithm of the number of steps between two streams.
pub const STREAM_LOG2: u32 = 127;

/// The number of steps from the start of one substream to the start of the
/// next: 2^76.
pub open spec fn substream_steps() -> nat {
    pow2(76)
}

/// The number of steps from the start of one stream to the start of the
/// next: 2^127.
pub open spec fn stream_steps() -> nat {
    pow2(127)
}

/// The state `n` substreams on: `n * 2^76` steps.
pub open spec fn substreams(s: GeneratorState, n: nat) -> GeneratorState {
    steps(s, n * substream_steps())
}

/// The state `n` streams on: `n * 2^127` steps.
pub open spec fn streams(s: GeneratorState, n: nat) -> GeneratorState {
    steps(s, n * stream_steps())
}

/// Three rows as a matrix.
pub open spec fn mat_of(a: [[u64; 3]; 3]) -> Mat3 {
    Mat3 { r0: vec_of(a[0]), r1: vec_of(a[1]), r2: vec_of(a[2]) }
}

/// A step is the jump by the two one-step matrices.
pub proof fn lemma_step_is_jump(s: GeneratorState)
    requires
        state_reduced(s),
    ensures
        step(s) == jump(s, transition_first(), transition_second()),
        state_reduced(step(s)),
{
    let m1 = M1 as int;
    let m2 = M2 as int;
    lemma_mod_multiples_vanish(s.first.x, A12 * s.first.y - A13 * s.first.x, m1);
    lemma_mod_multiples_vanish(s.second.x, A21 * s.second.y - A23 * s.second.x, m2);
    assert(mat_vec(transition_first(), s.first).z == m1 * s.first.x + (A12 * s.first.y - A13
        * s.first.x)) by (nonlinear_arith)
        requires
            mat_vec(transition_first(), s.first).z == (M1 - A13) * s.first.x + A12 * s.first.y + 0
                * s.first.z,
            m1 == M1,
    ;
    assert(mat_vec(transition_second(), s.second).z == m2 * s.second.x + (A21 * s.second.y - A23
        * s.second.x)) by (nonlinear_arith)
        requires
            mat_vec(transition_second(), s.second).z == (M2 - A23) * s.second.x + A21
                * s.second.y + 0 * s.second.z,
            m2 == M2,
    ;
    lemma_small_mod(s.first.y as nat, m1 as nat);
    lemma_small_mod(s.first.z as nat, m1 as nat);
    lemma_small_mod(s.second.y as nat, m2 as nat);
    lemma_small_mod(s.second.z as nat, m2 as nat);
}

/// `n` steps are `n` jumps by the one-step matrices, and keep the state
/// reduced.
pub proof fn lemma_steps_are_jumps(s: GeneratorState, n: nat)
    requires
        state_reduced(s),
    ensures
        steps(s, n) == jumps(s, transition_first(), transition_second(), n),
        state_reduced(steps(s, n)),
    decreases n,
{
    if n > 0 {
        lemma_steps_are_jumps(s, (n - 1) as nat);
        lemma_step_is_jump(steps(s, (n - 1) as nat));
    }
}

/// Stepping `a` times and then `b` times is stepping `a + b` times.
pub proof fn lemma_steps_add(s: GeneratorState, a: nat, b: nat)
    ensures
        steps(steps(s, a), b) == steps(s, a + b),
    decreases b,
{
    if b > 0 {
        lemma_steps_add(s, a, (b - 1) as nat);
        assert((a + b - 1) as nat == a + (b - 1) as nat);
    }
}

/// A step keeps a state away from the zero vectors: the multipliers that
/// the recurrences subtract are units modulo the primes.
pub proof fn lemma_step_live(s: GeneratorState)
    requires
        state_reduced(s),
        state_live(s),
    ensures
        state_live(step(s)),
{
    let t = step(s);
    if t.first == (Vec3 { x: 0, y: 0, z: 0 }) {
        // 2349796154 is the inverse of A13 modulo M1.
        assert(A12 * s.first.y - A13 * s.first.x == -(A13 * s.first.x));
        lemma_unit_cancels(A13 as int, 2349796154, s.first.x, M1 as int);
    }
    if t.second == (Vec3 { x: 0, y: 0, z: 0 }) {
        // 69372715 is the inverse of A23 modulo M2.
        assert(A21 * s.second.y - A23 * s.second.x == -(A23 * s.second.x));
        lemma_unit_cancels(A23 as int, 69372715, s.second.x, M2 as int);
    }
}

/// Any number of steps keeps a state reduced and away from the zero
/// vectors.
pub proof fn lemma_steps_live(s: GeneratorState, n: nat)
    requires
        state_reduced(s),
        state_live(s),
    ensures
        state_reduced(steps(s, n)),
        state_live(steps(s, n)),
    decreases n,
{
    lemma_steps_are_jumps(s, n);
    if n > 0 {
        lemma_steps_live(s, (n - 1) as nat);
        lemma_step_live(steps(s, (n - 1) as nat));
    }
}

/// The row `r` times the matrix `b`, reduced modulo `m`.
fn row_times(m: u64, r: &[u64; 3], b: &[[u64; 3]; 3]) -> (res: [u64; 3])
    requires
        m > 0,
    ensures
        vec_of(res) == vec_mod(crate::linalg::row_mat(vec_of(*r), mat_of(*b)), m as int),
{
    let w = m as u128;
    [
        dot_mod(r[0], r[1], r[2], b[0][0], b[1][0], b[2][0], w),
        dot_mod(r[0], r[1], r[2], b[0][1], b[1][1], b[2][1], w),
        dot_mod(r[0], r[1], r[2], b[0][2], b[1][2], b[2][2], w),
    ]
}

impl Mrg32k3aCore {
    #[verifier::type_invariant]
    spec fn sound(self) -> bool {
        state_reduced(self@) && state_live(self@)
    }

    /// The state as six integers.
    pub closed spec fn view(&self) -> GeneratorState {
        GeneratorState {
            first: Vec3 { x: self.s10 as int, y: self.s11 as int, z: self.s12 as int },
            second: Vec3 { x: self.s20 as int, y: self.s21 as int, z: self.s22 as int },
        }
    }

    /// The bit-mixing function that turns a counter into a sub-seed.
    pub fn stafford_mix_13(z: u64) -> (r: u64)
        ensures
            r == mix13(z),
    {
        let z = (z ^ (z >> 30)).wrapping_mul(0xBF58_476D_1CE4_E5B9);
        let z = (z ^ (z >> 27)).wrapping_mul(0x94D0_49BB_1331_11EB);
        (z >> 1) ^ (z >> 32)
    }

    /// Replaces `s` by `a * s`, reduced modulo `m`.
    fn mat_vec_mul(m: u64, a: &[[u64; 3]; 3], s: &mut [u64; 3])
        requires
            m > 0,
        ensures
            vec_of(*final(s)) == vec_mod(mat_vec(mat_of(*a), vec_of(*old(s))), m as int),
            final(s)[0] < m && final(s)[1] < m && final(s)[2] < m,
    {
        let w = m as u128;
        let res = [
            dot_mod(a[0][0], a[0][1], a[0][2], s[0], s[1], s[2], w),
            dot_mod(a[1][0], a[1][1], a[1][2], s[0], s[1], s[2], w),
            dot_mod(a[2][0], a[2][1], a[2][2], s[0], s[1], s[2], w),
        ];
        *s = res;
    }

    /// The product `a * b`, reduced modulo `m`.
    fn mat_mul(m: u64, a: &[[u64; 3]; 3], b: &[[u64; 3]; 3]) -> (res: [[u64; 3]; 3])
        requires
            m > 0,
        ensures
            mat_of(res) == mat_mod(mat_mul(mat_of(*a), mat_of(*b)), m as int),
    {
        [row_times(m, &a[0], b), row_times(m, &a[1], b), row_times(m, &a[2], b)]
    }

    /// The power `base^exp`, reduced modulo `m`, by repeated squaring.
    fn mat_pow(m: u64, base: &[[u64; 3]; 3], exp: u64) -> (res: [[u64; 3]; 3])
        requires
            m > 1,
        ensures
            mat_of(res) == mat_mod(mat_pow(mat_of(*base), exp as nat), m as int),
    {
        let ghost a = mat_of(*base);
        let ghost w = m as int;
        let ghost done: nat = 0;
        let ghost weight: nat = 1;
        let mut result = [[1u64, 0, 0], [0, 1, 0], [0, 0, 1]];
        let mut p = *base;
        let mut e = exp;
        proof {
            lemma_mat_mod_reduced(mat_identity(), w);
            lemma_mat_identity(a);
            assert(mat_pow(a, 1) == mat_mul(a, mat_pow(a, 0)));
        }
        while e > 0
            invariant
                w == m,
                m > 1,
                a == mat_of(*base),
                mat_of(result) == mat_mod(mat_pow(a, done), w),
                mat_mod(mat_of(p), w) == mat_mod(mat_pow(a, weight), w),
                done + weight * e == exp,
            decreases e,
        {
            let ghost e0 = e;
            let ghost done0 = done;
            let ghost result0 = mat_of(result);
            let ghost before = mat_of(p);
            assert(e & 1 == e % 2 && e >> 1 == e / 2) by (bit_vector);
            if e & 1 == 1 {
                result = Self::mat_mul(m, &result, &p);
                proof {
                    lemma_mat_mod_reduced(mat_pow(a, done), w);
                    lemma_mat_mod_reduced(result0, w);
                    lemma_mat_mul_congruent(result0, mat_pow(a, done), before, mat_pow(a, weight), w);
                    lemma_mat_pow_add(a, done, weight);
                    done = done + weight;
                }
            }
            p = Self::mat_mul(m, &p, &p);
            e >>= 1;
            proof {
                lemma_mat_mul_congruent(before, mat_pow(a, weight), before, mat_pow(a, weight), w);
                lemma_mat_pow_add(a, weight, weight);
                lemma_mat_mod_reduced(mat_of(p), w);
                assert(done + (weight + weight) * e == exp) by (nonlinear_arith)
                    requires
                        done0 + weight * e0 == exp,
                        e == e0 / 2,
                        e0 % 2 == 1 ==> done == done0 + weight,
                        e0 % 2 == 0 ==> done == done0,
                ;
                weight = weight + weight;
            }
        }
        result
    }

    /// `base` squared `k` times over: the power `base^(2^k)`, modulo `m`.
    fn mat_squarings(m: u64, base: &[[u64; 3]; 3], k: u32) -> (res: [[u64; 3]; 3])
        requires
            m > 0,
        ensures
            mat_mod(mat_of(res), m as int) == mat_mod(mat_pow(mat_of(*base), pow2(k as nat)), m as int),
    {
        let ghost a = mat_of(*base);
        let ghost w = m as int;
        let mut p = *base;
        let mut i: u32 = 0;
        proof {
            lemma_mat_identity(a);
            assert(mat_pow(a, 1) == mat_mul(a, mat_pow(a, 0)));
            assert(pow2(0) == 1) by {
                vstd::arithmetic::power2::lemma2_to64();
            }
        }
        while i < k
            invariant
                i <= k,
                w == m,
                m > 0,
                a == mat_of(*base),
                mat_mod(mat_of(p), w) == mat_mod(mat_pow(a, pow2(i as nat)), w),
            decreases k - i,
        {
            let ghost before = mat_of(p);
            let ghost e = pow2(i as nat);
            p = Self::mat_mul(m, &p, &p);
            proof {
                lemma_mat_mul_congruent(before, mat_pow(a, e), before, mat_pow(a, e), w);
                lemma_mat_pow_add(a, e, e);
                lemma_mat_mod_reduced(mat_of(p), w);
                lemma_pow2_unfold((i + 1) as nat);
            }
            i += 1;
        }
        p
    }

    /// The one-step matrices of the two recurrences.
    fn transitions() -> (r: ([[u64; 3]; 3], [[u64; 3]; 3]))
        ensures
            mat_of(r.0) == transition_first(),
            mat_of(r.1) == transition_second(),
    {
        ([[0, 1, 0], [0, 0, 1], [M1 - A13, A12, 0]], [[0, 1, 0], [0, 0, 1], [M2 - A23, A21, 0]])
    }

    /// Moves the state on by `n * 2^log2` steps: the one-step matrices are
    /// squared `log2` times, the results raised to the power `n`, and the
    /// state multiplied by what comes out.
    fn jump_by(&mut self, log2: u32, n: u64)
        ensures
            final(self)@ == steps(old(self)@, (n as nat) * pow2(log2 as nat)),
            state_reduced(final(self)@),
            state_live(final(self)@),
    {
        let ghost s = self@;
        let ghost unit = pow2(log2 as nat);
        let ghost total: nat = (n as nat) * unit;
        proof {
            use_type_invariant(&*self);
            assert(0 * unit == 0);
        }
        if n == 0 {
            return ;
        }
        let (t1, t2) = Self::transitions();
        let u1 = Self::mat_squarings(M1, &t1, log2);
        let u2 = Self::mat_squarings(M2, &t2, log2);
        let a1 = Self::mat_pow(M1, &u1, n);
        let a2 = Self::mat_pow(M2, &u2, n);
        proof {
            lemma_mat_pow_congruent(mat_of(u1), mat_pow(transition_first(), unit), n as nat, M1 as int);
            lemma_mat_pow_congruent(mat_of(u2), mat_pow(transition_second(), unit), n as nat, M2 as int);
            lemma_mat_pow_mul(transition_first(), unit, n as nat);
            lemma_mat_pow_mul(transition_second(), unit, n as nat);
            assert(unit * (n as nat) == total) by (nonlinear_arith)
                requires
                    total == (n as nat) * unit,
            ;
            lemma_mat_vec_mod_left(mat_pow(transition_first(), total), s.first, M1 as int);
            lemma_mat_vec_mod_left(mat_pow(transition_second(), total), s.second, M2 as int);
            lemma_jumps_by_power(s, transition_first(), transition_second(), total);
            lemma_steps_are_jumps(s, total);
            lemma_steps_live(s, total);
        }
        self.apply_matrix(&a1, &a2);
    }

    /// Multiplies the first component by `a1` and the second by `a2`.
    fn apply_matrix(&mut self, a1: &[[u64; 3]; 3], a2: &[[u64; 3]; 3])
        requires
            state_live(jump(old(self)@, mat_of(*a1), mat_of(*a2))),
        ensures
            final(self)@ == jump(old(self)@, mat_of(*a1), mat_of(*a2)),
    {
        let mut v1 = [self.s10, self.s11, self.s12];
        let mut v2 = [self.s20, self.s21, self.s22];
        Self::mat_vec_mul(M1, a1, &mut v1);
        Self::mat_vec_mul(M2, a2, &mut v2);
        *self = Self { s10: v1[0], s11: v1[1], s12: v1[2], s20: v2[0], s21: v2[1], s22: v2[2] };
    }

    /// The generator seeded from eight bytes, which are read as a 64-bit
    /// value with the least significant byte first.
    pub fn from_seed(seed: [u8; 8]) -> (r: Self)
        ensures
            r@ == seeded_state(le_value(seed) as u64),
            le_value(seed) <= u64::MAX,
            state_reduced(r@),
            state_live(r@),
    {
        let b0 = seed[0] as u64;
        let b1 = seed[1] as u64;
        let b2 = seed[2] as u64;
        let b3 = seed[3] as u64;
        let b4 = seed[4] as u64;
        let b5 = seed[5] as u64;
        let b6 = seed[6] as u64;
        let b7 = seed[7] as u64;
        let value = b0 | (b1 << 8) | (b2 << 16) | (b3 << 24) | (b4 << 32) | (b5 << 40) | (b6 << 48)
            | (b7 << 56);
        assert(value == b0 + 0x100 * b1 + 0x1_0000 * b2 + 0x100_0000 * b3 + 0x1_0000_0000 * b4
            + 0x100_0000_0000 * b5 + 0x1_0000_0000_0000 * b6 + 0x100_0000_0000_0000 * b7)
            by (bit_vector)
            requires
                b0 < 0x100,
                b1 < 0x100,
                b2 < 0x100,
                b3 < 0x100,
                b4 < 0x100,
                b5 < 0x100,
                b6 < 0x100,
                b7 < 0x100,
                value == b0 | (b1 << 8) | (b2 << 16) | (b3 << 24) | (b4 << 32) | (b5 << 40) | (b6
                    << 48) | (b7 << 56),
        ;
        let mut rng = Self::default();
        rng.set_seed(value);
        rng
    }

    /// Emits the next `N` values, in order, into `results`.
    pub fn generate(&mut self, results: &mut [u64; N])
        ensures
            forall|k: int| 0 <= k < N ==> final(results)[k] == output(steps(old(self)@, k as nat)),
            final(self)@ == steps(old(self)@, N as nat),
            state_reduced(final(self)@),
            state_live(final(self)@),
    {
        proof {
            use_type_invariant(&*self);
        }
        let mut k: usize = 0;
        while k < N
            invariant
                k <= N,
                forall|j: int| 0 <= j < k ==> results[j] == output(steps(old(self)@, j as nat)),
                self@ == steps(old(self)@, k as nat),
                state_reduced(self@),
                state_live(self@),
            decreases N - k,
        {
            results[k] = self.step_u64();
            k += 1;
        }
    }

    /// Seeds the generator from one 64-bit value: six counters, an odd
    /// increment apart, go through the mixing function and are reduced. A
    /// component that comes out as three zeros is replaced by the fallback
    /// sub-state, so that the state can run whatever the seed.
    pub fn set_seed(&mut self, seed: u64)
        ensures
            final(self)@ == seeded_state(seed),
            state_reduced(final(self)@),
            state_live(final(self)@),
    {
        proof {
            assert(seed_input(seed, 1) == seed_input(seed, 0).wrapping_add(SEED_INCREMENT));
            assert(seed_input(seed, 2) == seed_input(seed, 1).wrapping_add(SEED_INCREMENT));
            assert(seed_input(seed, 3) == seed_input(seed, 2).wrapping_add(SEED_INCREMENT));
            assert(seed_input(seed, 4) == seed_input(seed, 3).wrapping_add(SEED_INCREMENT));
            assert(seed_input(seed, 5) == seed_input(seed, 4).wrapping_add(SEED_INCREMENT));
            assert(seed_input(seed, 6) == seed_input(seed, 5).wrapping_add(SEED_INCREMENT));
        }
        let mut seed = seed.wrapping_add(0x9e37_79b9_7f4a_7c15);
        let s10 = Self::stafford_mix_13(seed) % M1;
        seed = seed.wrapping_add(0x9e37_79b9_7f4a_7c15);
        let s11 = Self::stafford_mix_13(seed) % M1;
        seed = seed.wrapping_add(0x9e37_79b9_7f4a_7c15);
        let s12 = Self::stafford_mix_13(seed) % M1;
        seed = seed.wrapping_add(0x9e37_79b9_7f4a_7c15);
        let s20 = Self::stafford_mix_13(seed) % M2;
        seed = seed.wrapping_add(0x9e37_79b9_7f4a_7c15);
        let s21 = Self::stafford_mix_13(seed) % M2;
        seed = seed.wrapping_add(0x9e37_79b9_7f4a_7c15);
        let s22 = Self::stafford_mix_13(seed) % M2;
        let first = Self::revive([s10, s11, s12]);
        let second = Self::revive([s20, s21, s22]);
        *self = Self {
            s10: first[0],
            s11: first[1],
            s12: first[2],
            s20: second[0],
            s21: second[1],
            s22: second[2],
        };
    }

    /// A component made fit to run: three zeros are replaced by the fallback
    /// sub-state, and any other values are left as they are.
    pub fn revive(values: [u64; 3]) -> (r: [u64; 3])
        ensures
            vec_of(r) == revived(vec_of(values)),
            vec_of(values) != (Vec3 { x: 0, y: 0, z: 0 }) ==> r == values,
    {
        if values[0] == 0 && values[1] == 0 && values[2] == 0 {
            [12345, 12345, 12345]
        } else {
            values
        }
    }

    /// Sets the state to six explicit sub-seeds, or reports the first of them
    /// that is not in `1..modulus` and leaves the state as it was.
    pub fn set_seeds(&mut self, seeds: [u64; 6]) -> (r: Result<(), Mrg32k3aError>)
        ensures
            r is Ok <==> forall|i: int| 0 <= i < 6 ==> seed_in_range(seeds, i),
            r is Ok ==> final(self)@ == seed_state(seeds),
            state_reduced(final(self)@),
            state_live(final(self)@),
            r is Err ==> final(self)@ == old(self)@,
            r is Err ==> exists|i: int|
                0 <= i < 6 && !seed_in_range(seeds, i) && r->Err_0 == seed_error(seeds, i) && forall|
                    j: int,
                | 0 <= j < i ==> seed_in_range(seeds, j),
    {
        proof {
            use_type_invariant(&*self);
        }
        if !(0 < seeds[0] && seeds[0] < M1) {
            assert(!seed_in_range(seeds, 0));
            return Err(Mrg32k3aError::InvalidM1Seed(seeds[0]));
        }
        if !(0 < seeds[1] && seeds[1] < M1) {
            assert(!seed_in_range(seeds, 1) && seed_in_range(seeds, 0));
            return Err(Mrg32k3aError::InvalidM1Seed(seeds[1]));
        }
        if !(0 < seeds[2] && seeds[2] < M1) {
            assert(!seed_in_range(seeds, 2) && seed_in_range(seeds, 0) && seed_in_range(seeds, 1));
            return Err(Mrg32k3aError::InvalidM1Seed(seeds[2]));
        }
        if !(0 < seeds[3] && seeds[3] < M2) {
            assert(!seed_in_range(seeds, 3) && seed_in_range(seeds, 0) && seed_in_range(seeds, 1)
                && seed_in_range(seeds, 2));
            return Err(Mrg32k3aError::InvalidM2Seed(seeds[3]));
        }
        if !(0 < seeds[4] && seeds[4] < M2) {
            assert(!seed_in_range(seeds, 4) && seed_in_range(seeds, 0) && seed_in_range(seeds, 1)
                && seed_in_range(seeds, 2) && seed_in_range(seeds, 3));
            return Err(Mrg32k3aError::InvalidM2Seed(seeds[4]));
        }
        if !(0 < seeds[5] && seeds[5] < M2) {
            assert(!seed_in_range(seeds, 5) && seed_in_range(seeds, 0) && seed_in_range(seeds, 1)
                && seed_in_range(seeds, 2) && seed_in_range(seeds, 3) && seed_in_range(seeds, 4));
            return Err(Mrg32k3aError::InvalidM2Seed(seeds[5]));
        }
        *self = Self {
            s10: seeds[0],
            s11: seeds[1],
            s12: seeds[2],
            s20: seeds[3],
            s21: seeds[4],
            s22: seeds[5],
        };
        Ok(())
    }

    /// Emits the value of the current state and moves both recurrences on by
    /// one step.
    pub fn step_u64(&mut self) -> (r: u64)
        ensures
            r == output(old(self)@),
            final(self)@ == step(old(self)@),
            state_reduced(final(self)@),
            state_live(final(self)@),
    {
        proof {
            use_type_invariant(&*self);
            lemma_step_is_jump(self@);
            lemma_step_live(self@);
        }
        let mut r = self.s12.wrapping_sub(self.s22);
        let borrow = (r.wrapping_sub(1)) >> 63;
        assert(borrow == if r.wrapping_sub(1) >= 0x8000_0000_0000_0000 {
            1u64
        } else {
            0u64
        }) by (bit_vector)
            requires
                borrow == (r.wrapping_sub(1)) >> 63,
        ;
        r = r.wrapping_sub(M1 * borrow);

        let t1 = A12.wrapping_mul(self.s11).wrapping_sub(A13.wrapping_mul(self.s10)).wrapping_add(
            CORR1,
        );
        proof {
            lemma_small_mod((A12 * self.s11) as nat, 0x1_0000_0000_0000_0000);
            lemma_small_mod((A13 * self.s10) as nat, 0x1_0000_0000_0000_0000);
            assert(t1 == A12 * self.s11 - A13 * self.s10 + CORR1);
            lemma_mod_multiples_vanish(A13 as int, A12 * self.s11 - A13 * self.s10, M1 as int);
        }
        let p1 = t1 % M1;

        let t2 = A21.wrapping_mul(self.s21).wrapping_sub(A23.wrapping_mul(self.s20)).wrapping_add(
            CORR2,
        );
        proof {
            lemma_small_mod((A21 * self.s21) as nat, 0x1_0000_0000_0000_0000);
            lemma_small_mod((A23 * self.s20) as nat, 0x1_0000_0000_0000_0000);
            assert(t2 == A21 * self.s21 - A23 * self.s20 + CORR2);
            lemma_mod_multiples_vanish(A23 as int, A21 * self.s21 - A23 * self.s20, M2 as int);
        }
        let p2 = t2 % M2;
        *self = Self {
            s10: self.s11,
            s11: self.s12,
            s12: p1,
            s20: self.s21,
            s21: self.s22,
            s22: p2,
        };
        r
    }

    /// Moves the state on by `n` substreams, that is by `n * 2^76` steps, in
    /// a number of matrix products logarithmic in that.
    pub fn advance_substreams(&mut self, n: u64)
        ensures
            final(self)@ == substreams(old(self)@, n as nat),
            state_reduced(final(self)@),
            state_live(final(self)@),
    {
        self.jump_by(SUBSTREAM_LOG2, n);
    }

    /// Moves the state on to the start of the next substream: 2^76 steps.
    pub fn advance_substream(&mut self)
        ensures
            final(self)@ == steps(old(self)@, substream_steps()),
            state_reduced(final(self)@),
            state_live(final(self)@),
    {
        assert(1 * substream_steps() == substream_steps());
        self.advance_substreams(1);
    }

    /// Moves the state on by `n` streams, that is by `n * 2^127` steps, in a
    /// number of matrix products logarithmic in that.
    pub fn advance_streams(&mut self, n: u64)
        ensures
            final(self)@ == streams(old(self)@, n as nat),
            state_reduced(final(self)@),
            state_live(final(self)@),
    {
        self.jump_by(STREAM_LOG2, n);
    }

    /// Moves the state on to the start of the next stream: 2^127 steps.
    pub fn advance_stream(&mut self)
        ensures
            final(self)@ == steps(old(self)@, stream_steps()),
            state_reduced(final(self)@),
            state_live(final(self)@),
    {
        assert(1 * stream_steps() == stream_steps());
        self.advance_streams(1);
    }

    /// Moves the state on by `n` streams: the same state as `n` calls of
    /// `advance_stream`, one after another.
    pub fn set_stream(&mut self, n: u64)
        ensures
            final(self)@ == streams(old(self)@, n as nat),
            state_reduced(final(self)@),
            state_live(final(self)@),
    {
        self.advance_streams(n);
    }
}

impl Clone for Mrg32k3aCore {
    /// A full copy of the state, independent of the one it was taken from.
    fn clone(&self) -> (r: Self)
        ensures
            r@ == self@,
    {
        proof {
            use_type_invariant(self);
        }
        Self {
            s10: self.s10,
            s11: self.s11,
            s12: self.s12,
            s20: self.s20,
            s21: self.s21,
            s22: self.s22,
        }
    }
}

impl Default for Mrg32k3aCore {
    /// The documented default state: every sub-state is 12345.
    fn default() -> (r: Self)
        ensures
            r@ == default_state(),
            state_reduced(r@),
            state_live(r@),
    {
        Self { s10: 12345, s11: 12345, s12: 12345, s20: 12345, s21: 12345, s22: 12345 }
    }
}

/// Moving on by `n + 1` streams is moving on by `n` streams and then to the
/// start of the next one; moving on by none changes nothing. So `set_stream`
/// with `n` leaves the state that `n` calls of `advance_stream` leave.
pub proof fn lemma_streams_unfold(s: GeneratorState, n: nat)
    ensures
        streams(s, 0) == s,
        streams(s, n + 1) == steps(streams(s, n), stream_steps()),
{
    lemma_streams_add(s, n, 1);
    assert(0 * stream_steps() == 0);
    assert(1 * stream_steps() == stream_steps());
}

/// Moving on by `n + 1` substreams is moving on by `n` substreams and then
/// to the start of the next one; moving on by none changes nothing.
pub proof fn lemma_substreams_unfold(s: GeneratorState, n: nat)
    ensures
        substreams(s, 0) == s,
        substreams(s, n + 1) == steps(substreams(s, n), substream_steps()),
{
    lemma_substreams_add(s, n, 1);
    assert(0 * substream_steps() == 0);
    assert(1 * substream_steps() == substream_steps());
}

/// The stream jump is additive in the number of streams: `a + b` streams on
/// are `a` streams and then `b` streams on.
pub proof fn lemma_streams_add(s: GeneratorState, a: nat, b: nat)
    ensures
        streams(s, a + b) == streams(streams(s, a), b),
{
    let k = stream_steps();
    lemma_steps_add(s, a * k, b * k);
    assert((a + b) * k == a * k + b * k) by (nonlinear_arith);
}

/// The substream jump is additive in the number of substreams.
pub proof fn lemma_substreams_add(s: GeneratorState, a: nat, b: nat)
    ensures
        substreams(s, a + b) == substreams(substreams(s, a), b),
{
    let k = substream_steps();
    lemma_steps_add(s, a * k, b * k);
    assert((a + b) * k == a * k + b * k) by (nonlinear_arith);
}

/// A stream is a whole number of substreams long: 2^51 of them.
pub proof fn lemma_stream_of_substreams(s: GeneratorState)
    ensures
        stream_steps() == pow2(51) * substream_steps(),
        steps(s, stream_steps()) == substreams(s, pow2(51)),
{
    vstd::arithmetic::power2::lemma_pow2_adds(51, 76);
}

} // verus!
