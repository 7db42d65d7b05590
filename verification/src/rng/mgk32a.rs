//! A combined multiple-recursive generator with jump-ahead by matrix powers.
use crate::linalg::{
    lemma_mat_identity, lemma_mat_mul_congruent, lemma_mat_pow_add, lemma_mat_vec_mod_left,
    lemma_mod_of_negative, lemma_mat_mod_reduced, mat_identity, mat_mod, mat_mul, mat_pow, mat_vec,
    vec_mod, Mat3, Vec3,
};
use crate::rng::modular::dot_mod;
use crate::rng::state::{
    jump, jumps, lemma_jumps_by_power, lemma_unit_cancels, seed_state, state_live, state_reduced,
    vec_of, GeneratorState, M1, M2,
};
use crate::rng::RngCore;
use vstd::arithmetic::div_mod::{lemma_mod_multiples_vanish, lemma_small_mod};
use vstd::prelude::*;

verus! {

/// The multiplier of the first recurrence on the value two steps back.
pub const A12: u64 = 1_403_580;

/// The multiplier that the first recurrence subtracts, on the value three steps back.
pub const A13N: u64 = 810_728;

/// The multiplier of the second recurrence on the value one step back.
pub const A21: u64 = 527_612;

/// The multiplier that the second recurrence subtracts, on the value three steps back.
pub const A23N: u64 = 1_370_589;

/// The increment of the seed expander.
pub const GOLDEN_GAMMA: u64 = 0x9E37_79B9_7F4A_7C15;

/// A sub-seed lies outside `1..modulus` of its component.
#[derive(Debug, Clone, Copy, PartialEq, Eq)]
pub struct SeedError;

/// The generator: the last three values of each recurrence, newest first.
#[derive(Debug, Clone, Copy)]
pub struct Mgk32a {
    s1: [u64; 3],
    s2: [u64; 3],
}

/// Each entry of `v` lies in `1..modulus`.
pub open spec fn valid_vec(v: Vec3, modulus: int) -> bool {
    1 <= v.x < modulus && 1 <= v.y < modulus && 1 <= v.z < modulus
}

/// Each sub-seed lies in `1..modulus` of its component.
pub open spec fn valid_seed(seed: [u64; 6]) -> bool {
    valid_vec(seed_state(seed).first, M1 as int) && valid_vec(seed_state(seed).second, M2 as int)
}

/// One step of both recurrences.
pub open spec fn step(s: GeneratorState) -> GeneratorState {
    GeneratorState {
        first: Vec3 {
            x: (A12 * s.first.y - A13N * s.first.z) % (M1 as int),
            y: s.first.x,
            z: s.first.y,
        },
        second: Vec3 {
            x: (A21 * s.second.x - A23N * s.second.z) % (M2 as int),
            y: s.second.x,
            z: s.second.y,
        },
    }
}

/// `n` steps, one after another.
pub open spec fn steps(s: GeneratorState, n: nat) -> GeneratorState
    decreases n,
{
    if n == 0 {
        s
    } else {
        step(steps(s, (n - 1) as nat))
    }
}

/// The value that a state emits: the difference of the newest values of the
/// two recurrences, brought into `1..=M1`.
pub open spec fn combined(s: GeneratorState) -> int {
    if s.first.x > s.second.x {
        s.first.x - s.second.x
    } else {
        s.first.x - s.second.x + M1
    }
}

/// The matrix of one step of the first recurrence.
pub open spec fn transition_first() -> Mat3 {
    Mat3 {
        r0: Vec3 { x: 0, y: A12 as int, z: M1 - A13N },
        r1: Vec3 { x: 1, y: 0, z: 0 },
        r2: Vec3 { x: 0, y: 1, z: 0 },
    }
}

/// The matrix of one step of the second recurrence.
pub open spec fn transition_second() -> Mat3 {
    Mat3 {
        r0: Vec3 { x: A21 as int, y: 0, z: M2 - A23N },
        r1: Vec3 { x: 1, y: 0, z: 0 },
        r2: Vec3 { x: 0, y: 1, z: 0 },
    }
}

/// The finalizer of the seed expander.
pub open spec fn mix64(z: u64) -> u64 {
    let a = (z ^ (z >> 30)).wrapping_mul(0xBF58_476D_1CE4_E5B9);
    let b = (a ^ (a >> 27)).wrapping_mul(0x94D0_49BB_1331_11EB);
    b ^ (b >> 31)
}

/// The `k`-th value that the seed expander started at `seed` gives, counted from 1.
pub open spec fn expanded(seed: u64, k: nat) -> u64 {
    mix64(expander_state(seed, k))
}

/// The seed expander's counter after `k` values.
pub open spec fn expander_state(seed: u64, k: nat) -> u64
    decreases k,
{
    if k == 0 {
        seed
    } else {
        expander_state(seed, (k - 1) as nat).wrapping_add(GOLDEN_GAMMA)
    }
}

/// The state that `from_seed64` derives from a 64-bit seed: the expander's
/// values go to the two components in turn, each mapped into `1..modulus`.
pub open spec fn expanded_state(seed: u64) -> GeneratorState {
    GeneratorState {
        first: Vec3 {
            x: 1 + expanded(seed, 1) % ((M1 - 1) as u64),
            y: 1 + expanded(seed, 3) % ((M1 - 1) as u64),
            z: 1 + expanded(seed, 5) % ((M1 - 1) as u64),
        },
        second: Vec3 {
            x: 1 + expanded(seed, 2) % ((M2 - 1) as u64),
            y: 1 + expanded(seed, 4) % ((M2 - 1) as u64),
            z: 1 + expanded(seed, 6) % ((M2 - 1) as u64),
        },
    }
}

/// A step is the jump by the two transition matrices.
pub proof fn lemma_step_is_jump(s: GeneratorState)
    requires
        state_reduced(s),
    ensures
        step(s) == jump(s, transition_first(), transition_second()),
        state_reduced(step(s)),
{
    let m1 = M1 as int;
    let m2 = M2 as int;
    lemma_mod_multiples_vanish(s.first.z, A12 * s.first.y - A13N * s.first.z, m1);
    lemma_mod_multiples_vanish(s.second.z, A21 * s.second.x - A23N * s.second.z, m2);
    assert(mat_vec(transition_first(), s.first).x == m1 * s.first.z + (A12 * s.first.y - A13N
        * s.first.z)) by (nonlinear_arith)
        requires
            mat_vec(transition_first(), s.first).x == 0 * s.first.x + A12 * s.first.y + (M1
                - A13N) * s.first.z,
            m1 == M1,
    ;
    assert(mat_vec(transition_second(), s.second).x == m2 * s.second.z + (A21 * s.second.x
        - A23N * s.second.z)) by (nonlinear_arith)
        requires
            mat_vec(transition_second(), s.second).x == A21 * s.second.x + 0 * s.second.y + (M2
                - A23N) * s.second.z,
            m2 == M2,
    ;
    lemma_small_mod(s.first.x as nat, m1 as nat);
    lemma_small_mod(s.first.y as nat, m1 as nat);
    lemma_small_mod(s.second.x as nat, m2 as nat);
    lemma_small_mod(s.second.y as nat, m2 as nat);
}

/// A step takes no component but the zero vector to the zero vector: the
/// multipliers that the recurrences subtract are units modulo the primes.
pub proof fn lemma_step_live(s: GeneratorState)
    requires
        state_reduced(s),
        state_live(s),
    ensures
        state_live(step(s)),
{
    let t = step(s);
    if t.first == (Vec3 { x: 0, y: 0, z: 0 }) {
        // 2349796154 is the inverse of A13N modulo M1.
        assert(A12 * s.first.y - A13N * s.first.z == -(A13N * s.first.z));
        lemma_unit_cancels(A13N as int, 2349796154, s.first.z, M1 as int);
    }
    if t.second == (Vec3 { x: 0, y: 0, z: 0 }) {
        // 69372715 is the inverse of A23N modulo M2.
        assert(A21 * s.second.x - A23N * s.second.z == -(A23N * s.second.z));
        lemma_unit_cancels(A23N as int, 69372715, s.second.z, M2 as int);
    }
}

/// Stepping keeps a state away from the zero vectors.
pub proof fn lemma_steps_live(s: GeneratorState, n: nat)
    requires
        state_reduced(s),
        state_live(s),
    ensures
        state_live(steps(s, n)),
    decreases n,
{
    if n > 0 {
        lemma_steps_live(s, (n - 1) as nat);
        lemma_steps_are_jumps(s, (n - 1) as nat);
        lemma_step_live(steps(s, (n - 1) as nat));
    }
}

/// `n` steps are `n` jumps by the transition matrices, and keep the state reduced.
pub proof fn lemma_steps_are_jumps(s: GeneratorState, n: nat)
    requires
        state_reduced(s),
    ensures
        steps(s, n) == jumps(s, transition_first(), transition_second(), n),
        state_reduced(steps(s, n)),
    decreases n,
{
    if n > 0 {
        lemma_steps_are_jumps(s, (n - 1) as nat);
        lemma_step_is_jump(steps(s, (n - 1) as nat));
    }
}

/// Stepping `a` times and then `b` times is stepping `a + b` times.
pub proof fn lemma_steps_add(s: GeneratorState, a: nat, b: nat)
    ensures
        steps(steps(s, a), b) == steps(s, a + b),
    decreases b,
{
    if b > 0 {
        lemma_steps_add(s, a, (b - 1) as nat);
        assert((a + b - 1) as nat == a + (b - 1) as nat);
    }
}

/// The residue of `value` modulo `modulus`, in `0..modulus`.
pub fn mod_m(value: i128, modulus: u64) -> (r: u64)
    requires
        modulus > 0,
    ensures
        r == (value as int) % (modulus as int),
{
    let m = modulus as i128;
    let mut v = value % m;
    proof {
        if value < 0 {
            lemma_mod_of_negative(-(value as int), modulus as int);
        }
    }
    if v < 0 {
        v += m;
    }
    v as u64
}

/// Whether each entry of `v` lies in `1..modulus`.
pub fn valid_component(v: &[u64; 3], modulus: u64) -> (ok: bool)
    ensures
        ok == valid_vec(vec_of(*v), modulus as int),
{
    let mut i: usize = 0;
    while i < 3
        invariant
            i <= 3,
            forall|j: int| 0 <= j < i ==> 1 <= #[trigger] v[j] < modulus,
        decreases 3 - i,
    {
        if !(1 <= v[i] && v[i] < modulus) {
            return false;
        }
        i += 1;
    }
    true
}

/// A 3x3 matrix with entries reduced modulo the modulus it is used with.
#[derive(Clone, Copy)]
struct Matrix3 {
    a00: u64,
    a01: u64,
    a02: u64,
    a10: u64,
    a11: u64,
    a12: u64,
    a20: u64,
    a21: u64,
    a22: u64,
}

impl Matrix3 {
    /// The matrix as integers.
    spec fn view(self) -> Mat3 {
        Mat3 {
            r0: Vec3 { x: self.a00 as int, y: self.a01 as int, z: self.a02 as int },
            r1: Vec3 { x: self.a10 as int, y: self.a11 as int, z: self.a12 as int },
            r2: Vec3 { x: self.a20 as int, y: self.a21 as int, z: self.a22 as int },
        }
    }

    /// The one-step matrix of the first recurrence.
    fn mrg32k3a_m1() -> (r: Self)
        ensures
            r@ == transition_first(),
    {
        Self {
            a00: 0,
            a01: A12,
            a02: M1 - A13N,
            a10: 1,
            a11: 0,
            a12: 0,
            a20: 0,
            a21: 1,
            a22: 0,
        }
    }

    /// The one-step matrix of the second recurrence.
    fn mrg32k3a_m2() -> (r: Self)
        ensures
            r@ == transition_second(),
    {
        Self {
            a00: A21,
            a01: 0,
            a02: M2 - A23N,
            a10: 1,
            a11: 0,
            a12: 0,
            a20: 0,
            a21: 1,
            a22: 0,
        }
    }

    /// The identity matrix.
    fn identity() -> (r: Self)
        ensures
            r@ == mat_identity(),
    {
        Self { a00: 1, a01: 0, a02: 0, a10: 0, a11: 1, a12: 0, a20: 0, a21: 0, a22: 1 }
    }

    /// The power `self^exp`, reduced modulo `modulus`, by repeated squaring.
    fn pow(self, exp: u128, modulus: u64) -> (r: Self)
        requires
            modulus > 1,
        ensures
            r@ == mat_mod(mat_pow(self@, exp as nat), modulus as int),
    {
        let ghost m = modulus as int;
        let ghost total = exp as nat;
        let ghost done: nat = 0;
        let ghost weight: nat = 1;
        let mut exp = exp;
        let mut base = self;
        let mut acc = Self::identity();
        proof {
            lemma_mat_mod_reduced(mat_identity(), m);
            lemma_mat_identity(self@);
            assert(mat_pow(self@, 1) == mat_mul(self@, mat_pow(self@, 0)));
        }
        while exp > 0
            invariant
                m == modulus,
                modulus > 1,
                acc@ == mat_mod(mat_pow(self@, done), m),
                exp > 0 ==> mat_mod(base@, m) == mat_mod(mat_pow(self@, weight), m),
                done + weight * exp == total,
            decreases exp,
        {
            let ghost e0 = exp;
            let ghost acc0 = acc;
            let ghost done0 = done;
            assert(exp & 1 == exp % 2 && exp >> 1 == exp / 2) by (bit_vector);
            if exp & 1 == 1 {
                acc = acc.mul(base, modulus);
                proof {
                    lemma_mat_mod_reduced(mat_pow(self@, done), m);
                    lemma_mat_mod_reduced(acc0@, m);
                    lemma_mat_mul_congruent(
                        acc0@,
                        mat_pow(self@, done),
                        base@,
                        mat_pow(self@, weight),
                        m,
                    );
                    lemma_mat_pow_add(self@, done, weight);
                    done = done + weight;
                }
            }
            exp >>= 1;
            assert(done + (weight + weight) * exp == total) by (nonlinear_arith)
                requires
                    done0 + weight * e0 == total,
                    exp == e0 / 2,
                    e0 % 2 == 1 ==> done == done0 + weight,
                    e0 % 2 == 0 ==> done == done0,
            ;
            if exp > 0 {
                let ghost base0 = base;
                base = base.mul(base, modulus);
                proof {
                    lemma_mat_mul_congruent(
                        base0@,
                        mat_pow(self@, weight),
                        base0@,
                        mat_pow(self@, weight),
                        m,
                    );
                    lemma_mat_pow_add(self@, weight, weight);
                    lemma_mat_mod_reduced(base@, m);
                }
            }
            proof {
                weight = weight + weight;
            }
        }
        acc
    }

    /// The product `self * other`, reduced modulo `modulus`.
    fn mul(self, other: Self, modulus: u64) -> (r: Self)
        requires
            modulus > 0,
        ensures
            r@ == mat_mod(mat_mul(self@, other@), modulus as int),
    {
        let m = modulus as u128;
        Self {
            a00: dot_mod(self.a00, self.a01, self.a02, other.a00, other.a10, other.a20, m),
            a01: dot_mod(self.a00, self.a01, self.a02, other.a01, other.a11, other.a21, m),
            a02: dot_mod(self.a00, self.a01, self.a02, other.a02, other.a12, other.a22, m),
            a10: dot_mod(self.a10, self.a11, self.a12, other.a00, other.a10, other.a20, m),
            a11: dot_mod(self.a10, self.a11, self.a12, other.a01, other.a11, other.a21, m),
            a12: dot_mod(self.a10, self.a11, self.a12, other.a02, other.a12, other.a22, m),
            a20: dot_mod(self.a20, self.a21, self.a22, other.a00, other.a10, other.a20, m),
            a21: dot_mod(self.a20, self.a21, self.a22, other.a01, other.a11, other.a21, m),
            a22: dot_mod(self.a20, self.a21, self.a22, other.a02, other.a12, other.a22, m),
        }
    }

    /// The vector `self * v`, reduced modulo `modulus`.
    fn mul_vec(self, v: [u64; 3], modulus: u64) -> (r: [u64; 3])
        requires
            modulus > 0,
        ensures
            vec_of(r) == vec_mod(mat_vec(self@, vec_of(v)), modulus as int),
            r[0] < modulus && r[1] < modulus && r[2] < modulus,
    {
        let m = modulus as u128;
        let a0 = dot_mod(self.a00, self.a01, self.a02, v[0], v[1], v[2], m);
        let a1 = dot_mod(self.a10, self.a11, self.a12, v[0], v[1], v[2], m);
        let a2 = dot_mod(self.a20, self.a21, self.a22, v[0], v[1], v[2], m);
        [a0, a1, a2]
    }
}

/// The expander that turns one 64-bit seed into a run of sub-seeds.
struct SplitMix64 {
    state: u64,
}

impl SplitMix64 {
    fn new(seed: u64) -> (r: Self)
        ensures
            r.state == seed,
    {
        Self { state: seed }
    }

    fn next_u64(&mut self) -> (r: u64)
        ensures
            final(self).state == old(self).state.wrapping_add(GOLDEN_GAMMA),
            r == mix64(final(self).state),
    {
        let mut z = self.state.wrapping_add(0x9E37_79B9_7F4A_7C15);
        self.state = z;
        z = (z ^ (z >> 30)).wrapping_mul(0xBF58_476D_1CE4_E5B9);
        z = (z ^ (z >> 27)).wrapping_mul(0x94D0_49BB_1331_11EB);
        z ^ (z >> 31)
    }
}

impl Mgk32a {
    #[verifier::type_invariant]
    spec fn sound(self) -> bool {
        state_reduced(self@) && state_live(self@)
    }

    /// The state as six integers.
    pub closed spec fn view(&self) -> GeneratorState {
        GeneratorState { first: vec_of(self.s1), second: vec_of(self.s2) }
    }

    /// The generator of six sub-seeds, each of which must lie in `1..modulus`
    /// of its component.
    pub fn new(seed: [u64; 6]) -> (r: Result<Self, SeedError>)
        ensures
            r is Ok <==> valid_seed(seed),
            r is Ok ==> r->Ok_0@ == seed_state(seed),
    {
        let s1 = [seed[0], seed[1], seed[2]];
        let s2 = [seed[3], seed[4], seed[5]];
        if !valid_component(&s1, M1) || !valid_component(&s2, M2) {
            return Err(SeedError);
        }
        Ok(Self { s1, s2 })
    }

    /// The generator that a 64-bit seed expands to. Every sub-seed lies in
    /// `1..modulus`, whatever the seed.
    pub fn from_seed64(seed: u64) -> (r: Self)
        ensures
            r@ == expanded_state(seed),
            valid_vec(r@.first, M1 as int),
            valid_vec(r@.second, M2 as int),
    {
        let mut sm = SplitMix64::new(seed);
        let mut s1 = [0u64;3];
        let mut s2 = [0u64;3];
        let mut i: usize = 0;
        while i < 3
            invariant
                i <= 3,
                sm.state == expander_state(seed, (2 * i) as nat),
                forall|j: int|
                    0 <= j < i ==> #[trigger] s1[j] == 1 + expanded(seed, (2 * j + 1) as nat) % ((M1
                        - 1) as u64),
                forall|j: int|
                    0 <= j < i ==> #[trigger] s2[j] == 1 + expanded(seed, (2 * j + 2) as nat) % ((M2
                        - 1) as u64),
            decreases 3 - i,
        {
            assert(expander_state(seed, (2 * i + 1) as nat) == expander_state(
                seed,
                (2 * i) as nat,
            ).wrapping_add(GOLDEN_GAMMA));
            assert(expander_state(seed, (2 * i + 2) as nat) == expander_state(
                seed,
                (2 * i + 1) as nat,
            ).wrapping_add(GOLDEN_GAMMA));
            s1[i] = 1 + (sm.next_u64() % (M1 - 1));
            s2[i] = 1 + (sm.next_u64() % (M2 - 1));
            i += 1;
        }
        Self { s1, s2 }
    }

    /// The six state values: the first component, then the second.
    pub fn state(&self) -> (r: [u64; 6])
        ensures
            seed_state(r) == self@,
    {
        [self.s1[0], self.s1[1], self.s1[2], self.s2[0], self.s2[1], self.s2[2]]
    }

    /// Repositions the generator as if `delta` values had been drawn and
    /// discarded, in a number of matrix products logarithmic in `delta`.
    pub fn advance(&mut self, delta: u128)
        ensures
            final(self)@ == steps(old(self)@, delta as nat),
            state_reduced(final(self)@),
            state_live(final(self)@),
    {
        proof {
            use_type_invariant(&*self);
            lemma_steps_live(self@, delta as nat);
        }
        if delta == 0 {
            return ;
        }
        let m1 = Matrix3::mrg32k3a_m1();
        let m2 = Matrix3::mrg32k3a_m2();
        let m1p = m1.pow(delta, M1);
        let m2p = m2.pow(delta, M2);
        proof {
            let s = self@;
            let n = delta as nat;
            lemma_mat_vec_mod_left(mat_pow(transition_first(), n), s.first, M1 as int);
            lemma_mat_vec_mod_left(mat_pow(transition_second(), n), s.second, M2 as int);
            lemma_jumps_by_power(s, transition_first(), transition_second(), n);
            lemma_steps_are_jumps(s, n);
        }
        self.s1 = m1p.mul_vec(self.s1, M1);
        self.s2 = m2p.mul_vec(self.s2, M2);
    }

    /// The generator of `seed`, moved on by `stream * stride` values; the
    /// product saturates at `u128::MAX`.
    pub fn for_stream(seed: [u64; 6], stream: u128, stride: u128) -> (r: Result<Self, SeedError>)
        ensures
            r is Ok <==> valid_seed(seed),
            r is Ok ==> r->Ok_0@ == steps(seed_state(seed), stream_offset(stream, stride)),
    {
        let mut rng = match Self::new(seed) {
            Ok(rng) => rng,
            Err(e) => {
                return Err(e);
            },
        };
        let offset = match stream.checked_mul(stride) {
            Some(v) => v,
            None => u128::MAX,
        };
        rng.advance(offset);
        Ok(rng)
    }
}

/// The number of values that lie before stream number `stream` when streams
/// are `stride` values apart: their product, or `u128::MAX` where that is less.
pub open spec fn stream_offset(stream: u128, stride: u128) -> nat {
    if stream * stride <= u128::MAX {
        (stream * stride) as nat
    } else {
        u128::MAX as nat
    }
}

impl RngCore for Mgk32a {
    open spec fn upcoming(&self, i: nat) -> u32 {
        combined(steps(self@, i + 1)) as u32
    }

    fn next_u32(&mut self) -> (r: u32)
        ensures
            final(self)@ == step(old(self)@),
            r == combined(final(self)@),
            state_reduced(final(self)@),
            state_live(final(self)@),
    {
        proof {
            use_type_invariant(&*self);
            lemma_step_is_jump(self@);
            lemma_step_live(self@);
            assert(steps(self@, 1) == step(steps(self@, 0)));
        }
        let x = mod_m(
            (A12 as i128) * (self.s1[1] as i128) - (A13N as i128) * (self.s1[2] as i128),
            M1,
        );
        self.s1 = [x, self.s1[0], self.s1[1]];

        let y = mod_m(
            (A21 as i128) * (self.s2[0] as i128) - (A23N as i128) * (self.s2[2] as i128),
            M2,
        );
        self.s2 = [y, self.s2[0], self.s2[1]];

        let u = if x > y {
            x - y
        } else {
            x + M1 - y
        };
        proof {
            assert forall|i: nat| #[trigger] self.upcoming(i) == old(self).upcoming(i + 1) by {
                lemma_steps_add(old(self)@, 1, i + 1);
                assert(1 + (i + 1) == i + 1 + 1);
            }
        }
        u as u32
    }
}

} // verus!
