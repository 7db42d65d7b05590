//! A low-discrepancy sequence with random access to its points.
//!
//! A point's coordinate in dimension `d` is a 32-bit word read as a fraction
//! of 2^32. The word at index `n` is the XOR of the direction numbers of `d`
//! that the set bits of the Gray code of `n` select.
use vstd::prelude::*;
use vstd::std_specs::bits::{axiom_u64_trailing_zeros, u64_trailing_zeros};

verus! {

/// The number of indices: a sequence has the points `0..INDEX_LIMIT`.
pub const INDEX_LIMIT: u64 = 0x1_0000_0000;

/// The sequence was asked for something that it cannot give: a dimension
/// without direction numbers, a buffer of the wrong length, or an index past
/// the last one.
#[derive(Debug, Clone, Copy, PartialEq, Eq)]
pub struct SobolError;

/// The Gray code of `index`.
pub open spec fn gray(index: u64) -> u64 {
    index ^ (index >> 1)
}

/// Whether bit `j` of `g` is set.
pub open spec fn bit_set(g: u64, j: nat) -> bool {
    (g >> (j as u64)) & 1 == 1
}

/// The XOR of the direction numbers `dir[j]` for the `j < k` with bit `j` of
/// `g` set.
pub open spec fn fold_xor(dir: [u32; 32], g: u64, k: nat) -> u32
    decreases k,
{
    if k == 0 {
        0
    } else {
        let rest = fold_xor(dir, g, (k - 1) as nat);
        if bit_set(g, (k - 1) as nat) {
            rest ^ dir[k - 1]
        } else {
            rest
        }
    }
}

/// The word of a dimension with direction numbers `dir` at `index`.
pub open spec fn word_at(dir: [u32; 32], index: u64) -> u32 {
    fold_xor(dir, gray(index), 32)
}

/// The number of the direction column that takes the word at `index` to the
/// word at `index + 1`: the number of trailing zeros of `index + 1`.
pub open spec fn column(index: u64) -> nat
    recommends
        index < u64::MAX,
{
    u64_trailing_zeros((index + 1) as u64) as nat
}

proof fn lemma_low_bits_clear(m: u64, c: nat)
    requires
        c <= 63,
        forall|j: u64| 0 <= j < c ==> #[trigger] (m >> j) & 1u64 == 0u64,
    ensures
        m & (((1u64 << (c as u64)) - 1) as u64) == 0,
    decreases c,
{
    if c == 0 {
        assert(m & (((1u64 << 0u64) - 1) as u64) == 0) by (bit_vector);
    } else {
        let b = (c - 1) as u64;
        let c64 = c as u64;
        lemma_low_bits_clear(m, (c - 1) as nat);
        assert((m >> b) & 1u64 == 0u64);
        assert(m & (((1u64 << c64) - 1) as u64) == 0) by (bit_vector)
            requires
                1 <= c64 <= 63,
                b == c64 - 1,
                m & (((1u64 << b) - 1) as u64) == 0,
                (m >> b) & 1u64 == 0u64,
        ;
    }
}

/// The Gray codes of neighbours differ in one bit: the one that the trailing
/// zeros of the larger index name.
pub proof fn lemma_gray_step(index: u64)
    requires
        index + 1 < INDEX_LIMIT,
    ensures
        column(index) < 32,
        gray((index + 1) as u64) == gray(index) ^ (1u64 << (column(index) as u64)),
{
    let m = (index + 1) as u64;
    let c = u64_trailing_zeros(m) as u64;
    axiom_u64_trailing_zeros(m);
    assert(c < 64);
    assert((m >> c) & 1 == 1);
    assert(c < 32) by (bit_vector)
        requires
            c < 64,
            m < 0x1_0000_0000u64,
            (m >> c) & 1 == 1,
    ;
    lemma_low_bits_clear(m, c as nat);
    assert((m ^ (m >> 1)) == (index ^ (index >> 1)) ^ (1u64 << c)) by (bit_vector)
        requires
            c < 32,
            m == index + 1,
            index < 0xffff_ffffu64,
            (m >> c) & 1 == 1,
            m & (((1u64 << c) - 1) as u64) == 0,
    ;
}

/// Flipping bit `c` of `g` toggles `dir[c]` in the fold, once the fold
/// reaches past bit `c`.
pub proof fn lemma_fold_flip(dir: [u32; 32], g: u64, c: nat, k: nat)
    requires
        c < 32,
        k <= 32,
    ensures
        fold_xor(dir, g ^ (1u64 << (c as u64)), k) == if c < k {
            fold_xor(dir, g, k) ^ dir[c as int]
        } else {
            fold_xor(dir, g, k)
        },
    decreases k,
{
    if k > 0 {
        let j = (k - 1) as u64;
        let c64 = c as u64;
        let h = g ^ (1u64 << c64);
        lemma_fold_flip(dir, g, c, (k - 1) as nat);
        assert(((h >> j) & 1 == 1) == (if j == c64 {
            !((g >> j) & 1 == 1)
        } else {
            (g >> j) & 1 == 1
        })) by (bit_vector)
            requires
                h == g ^ (1u64 << c64),
                j < 32,
                c64 < 32,
        ;
        let rest = fold_xor(dir, g, (k - 1) as nat);
        let a = dir[k - 1];
        let b = dir[c as int];
        assert(rest ^ a ^ a == rest && (rest ^ b) ^ a == (rest ^ a) ^ b) by (bit_vector);
    }
}

/// Bits at and above `from` do not count when `g` has none there.
pub proof fn lemma_fold_done(dir: [u32; 32], g: u64, from: nat, k: nat)
    requires
        from <= k <= 32,
        g >> (from as u64) == 0,
    ensures
        fold_xor(dir, g, k) == fold_xor(dir, g, from),
    decreases k,
{
    if k > from {
        let j = (k - 1) as u64;
        let f = from as u64;
        lemma_fold_done(dir, g, from, (k - 1) as nat);
        assert((g >> j) & 1 == 0) by (bit_vector)
            requires
                g >> f == 0,
                f <= j < 32,
        ;
    }
}

/// The word at `index + 1` is the word at `index`, XOR the direction number
/// of column `column(index)`.
pub proof fn lemma_word_step(dir: [u32; 32], index: u64)
    requires
        index + 1 < INDEX_LIMIT,
    ensures
        column(index) < 32,
        word_at(dir, (index + 1) as u64) == word_at(dir, index) ^ dir[column(index) as int],
{
    lemma_gray_step(index);
    lemma_fold_flip(dir, gray(index), column(index), 32);
}

/// The word at index 0 is 0.
pub proof fn lemma_word_zero(dir: [u32; 32])
    ensures
        word_at(dir, 0) == 0,
{
    assert(gray(0) == 0 && 0u64 >> 0u64 == 0) by (bit_vector);
    lemma_fold_done(dir, 0, 0, 32);
}

/// What a sequence is, as plain values.
pub struct SobolView {
    /// The index of the point that comes next.
    pub index: u64,
    /// The word of each dimension at `index`.
    pub words: Seq<u32>,
    /// The direction numbers of each dimension.
    pub directions: Seq<[u32; 32]>,
}

/// The words of all dimensions at `index`.
pub open spec fn words_at(directions: Seq<[u32; 32]>, index: u64) -> Seq<u32> {
    Seq::new(directions.len(), |d: int| word_at(directions[d], index))
}

/// The sequence at `index`.
pub open spec fn sought(directions: Seq<[u32; 32]>, index: u64) -> SobolView {
    SobolView { index, words: words_at(directions, index), directions }
}

/// What holds of every sequence: it has a dimension, its index is at most
/// `INDEX_LIMIT`, and while a point is left its words are those of its index.
pub open spec fn valid(v: SobolView) -> bool {
    &&& v.directions.len() > 0
    &&& v.words.len() == v.directions.len()
    &&& v.index <= INDEX_LIMIT
    &&& v.index < INDEX_LIMIT ==> v.words == words_at(v.directions, v.index)
}

/// The sequence after one point was taken: each word is updated with the
/// direction number of column `column(index)`, unless the point was the last.
pub open spec fn next_state(v: SobolView) -> SobolView {
    SobolView {
        index: (v.index + 1) as u64,
        words: if v.index + 1 < INDEX_LIMIT {
            Seq::new(v.words.len(), |d: int| v.words[d] ^ v.directions[d][column(v.index) as int])
        } else {
            v.words
        },
        directions: v.directions,
    }
}

/// The sequence after `n` points were taken, one after another.
pub open spec fn iterate(v: SobolView, n: nat) -> SobolView
    decreases n,
{
    if n == 0 {
        v
    } else {
        next_state(iterate(v, (n - 1) as nat))
    }
}

/// The direction numbers of the built-in first dimension: bit `31 - i` for
/// column `i`.
pub open spec fn default_direction(i: int) -> u32 {
    1u32 << ((31 - i) as u32)
}

/// Taking the next point of a valid sequence that has one left gives the
/// sequence at the next index.
pub proof fn lemma_next_is_seek(v: SobolView)
    requires
        valid(v),
        v.index + 1 < INDEX_LIMIT,
    ensures
        next_state(v) == sought(v.directions, (v.index + 1) as u64),
{
    let a = next_state(v).words;
    let b = words_at(v.directions, (v.index + 1) as u64);
    assert forall|d: int| 0 <= d < a.len() implies a[d] == b[d] by {
        lemma_word_step(v.directions[d], v.index);
    }
    assert(a =~= b);
}

/// Random access agrees with iteration: `index` points taken one by one from
/// the start leave the sequence exactly where a seek to `index` puts it.
pub proof fn lemma_iterate_is_seek(directions: Seq<[u32; 32]>, index: u64)
    requires
        directions.len() > 0,
        index < INDEX_LIMIT,
    ensures
        iterate(sought(directions, 0), index as nat) == sought(directions, index),
        valid(sought(directions, index)),
    decreases index,
{
    if index > 0 {
        let before = (index - 1) as u64;
        lemma_iterate_is_seek(directions, before);
        lemma_next_is_seek(sought(directions, before));
    }
}

/// Sets the words to those of index `target`.
fn place(index: &mut u64, x: &mut Vec<u32>, directions: &Vec<[u32; 32]>, target: u64)
    requires
        target < INDEX_LIMIT,
        old(x)@.len() == directions@.len(),
    ensures
        *final(index) == target,
        final(x)@ == words_at(directions@, target),
    no_unwind
{
    *index = target;
    let code = target ^ (target >> 1);
    assert(code < 0x1_0000_0000) by (bit_vector)
        requires
            code == target ^ (target >> 1),
            target < 0x1_0000_0000,
    ;
    let n = x.len();
    let mut dim: usize = 0;
    while dim < n
        invariant
            dim <= n,
            n == x@.len(),
            n == directions@.len(),
            code == gray(target),
            code < 0x1_0000_0000,
            forall|d: int| 0 <= d < dim ==> x@[d] == word_at(#[trigger] directions@[d], target),
        decreases n - dim,
    {
        let mut acc = 0u32;
        let mut g = code;
        let mut bit: usize = 0;
        assert(code >> 0 == code) by (bit_vector);
        while g != 0
            invariant
                dim < n,
                n == directions@.len(),
                bit <= 32,
                code < 0x1_0000_0000,
                g == code >> (bit as u64),
                acc == fold_xor(directions@[dim as int], code, bit as nat),
            decreases 32 - bit,
        {
            let ghost b = bit as u64;
            assert(b < 32 && (g >> 1) == code >> ((b + 1) as u64)) by (bit_vector)
                requires
                    b <= 32,
                    code < 0x1_0000_0000,
                    g == code >> b,
                    g != 0,
            ;
            if g & 1 == 1 {
                acc = acc ^ directions[dim][bit];
            }
            g >>= 1;
            bit += 1;
        }
        proof {
            lemma_fold_done(directions@[dim as int], code, bit as nat, 32);
        }
        x[dim] = acc;
        dim += 1;
    }
    assert(x@ =~= words_at(directions@, target));
}

/// Moves the index on by one, and the words with it unless the last point
/// was just taken. `c` is the number of the column for this index.
fn bump(index: &mut u64, x: &mut Vec<u32>, directions: &Vec<[u32; 32]>, c: usize)
    requires
        *old(index) < INDEX_LIMIT,
        valid(SobolView { index: *old(index), words: old(x)@, directions: directions@ }),
        c == column(*old(index)),
    ensures
        (SobolView { index: *final(index), words: final(x)@, directions: directions@ })
            == next_state(SobolView { index: *old(index), words: old(x)@, directions: directions@ }),
        valid(SobolView { index: *final(index), words: final(x)@, directions: directions@ }),
    no_unwind
{
    let ghost before = SobolView { index: *index, words: x@, directions: directions@ };
    proof {
        let m = (*index + 1) as u64;
        if *index + 1 < INDEX_LIMIT {
            lemma_next_is_seek(before);
            lemma_gray_step(*index);
        } else {
            axiom_u64_trailing_zeros(m);
            let t = u64_trailing_zeros(m) as u64;
            assert(t >= 32) by (bit_vector)
                requires
                    m == 0x1_0000_0000u64,
                    t < 64 ==> (m >> t) & 1 == 1,
            ;
        }
    }
    if c < 32 {
        let n = x.len();
        let mut i: usize = 0;
        while i < n
            invariant
                i <= n,
                c < 32,
                n == x@.len(),
                n == old(x)@.len(),
                n == directions@.len(),
                forall|d: int|
                    0 <= d < i ==> x@[d] == old(x)@[d] ^ #[trigger] directions@[d][c as int],
                forall|d: int| i <= d < n ==> x@[d] == old(x)@[d],
            decreases n - i,
        {
            x[i] = x[i] ^ directions[i][c];
            i += 1;
        }
    }
    *index = *index + 1;
    assert(x@ =~= next_state(before).words);
}

/// Sets the index and every word to zero.
fn rewind(index: &mut u64, x: &mut Vec<u32>, directions: &Vec<[u32; 32]>)
    requires
        old(x)@.len() == directions@.len(),
    ensures
        *final(index) == 0,
        final(x)@ == words_at(directions@, 0),
    no_unwind
{
    *index = 0;
    let n = x.len();
    let mut i: usize = 0;
    while i < n
        invariant
            i <= n,
            n == x@.len(),
            n == old(x)@.len(),
            forall|d: int| 0 <= d < i ==> x@[d] == 0,
        decreases n - i,
    {
        x[i] = 0;
        i += 1;
    }
    proof {
        assert forall|d: int| 0 <= d < n implies x@[d] == word_at(directions@[d], 0) by {
            lemma_word_zero(directions@[d]);
        }
        assert(x@ =~= words_at(directions@, 0));
    }
}

/// The direction numbers of the one dimension that has built-in ones.
pub fn default_directions_dim1() -> (r: Vec<[u32; 32]>)
    ensures
        r@.len() == 1,
        forall|i: int| 0 <= i < 32 ==> r@[0][i] == default_direction(i),
{
    let mut v = [0u32;32];
    let mut i: usize = 0;
    while i < 32
        invariant
            i <= 32,
            forall|j: int| 0 <= j < i ==> v[j] == default_direction(j),
        decreases 32 - i,
    {
        let shift = (31 - i) as u32;
        v[i] = 1u32 << shift;
        i += 1;
    }
    let mut r = Vec::new();
    r.push(v);
    r
}

/// The sequence: its dimension, the index of the next point, and for each
/// dimension the current word and the direction numbers.
#[derive(Debug)]
pub struct Sobol {
    dim: usize,
    index: u64,
    x: Vec<u32>,
    directions: Vec<[u32; 32]>,
}

impl Sobol {
    #[verifier::type_invariant]
    spec fn well_formed(self) -> bool {
        self.dim == self.x@.len() && valid(self@)
    }

    /// The sequence as plain values.
    pub closed spec fn view(&self) -> SobolView {
        SobolView { index: self.index, words: self.x@, directions: self.directions@ }
    }

    /// The sequence of dimension `dim` at its start. Only dimension 1 has
    /// built-in direction numbers.
    pub fn new(dim: usize) -> (r: Result<Self, SobolError>)
        ensures
            r is Ok <==> dim == 1,
            r is Ok ==> valid(r->Ok_0@) && r->Ok_0@.index == 0 && r->Ok_0@.words == seq![0u32],
            r is Ok ==> r->Ok_0@.directions.len() == 1,
            r is Ok ==> forall|i: int|
                0 <= i < 32 ==> r->Ok_0@.directions[0][i] == default_direction(i),
    {
        if dim == 0 {
            return Err(SobolError);
        }
        if dim == 1 {
            return Self::with_directions(default_directions_dim1());
        }
        Err(SobolError)
    }

    /// The sequence with the given direction numbers, one table for each
    /// dimension, at its start.
    pub fn with_directions(directions: Vec<[u32; 32]>) -> (r: Result<Self, SobolError>)
        ensures
            r is Ok <==> directions@.len() > 0,
            r is Ok ==> r->Ok_0@ == sought(directions@, 0) && valid(r->Ok_0@),
            r is Ok ==> r->Ok_0@.words == Seq::new(directions@.len(), |d: int| 0u32),
    {
        if directions.len() == 0 {
            return Err(SobolError);
        }
        let dim = directions.len();
        let mut x: Vec<u32> = Vec::new();
        let mut i: usize = 0;
        while i < dim
            invariant
                i <= dim,
                x@.len() == i,
                forall|d: int| 0 <= d < i ==> x@[d] == 0,
            decreases dim - i,
        {
            x.push(0u32);
            i += 1;
        }
        proof {
            assert forall|d: int| 0 <= d < dim implies x@[d] == word_at(directions@[d], 0) by {
                lemma_word_zero(directions@[d]);
            }
            assert(x@ =~= words_at(directions@, 0));
            assert(x@ =~= Seq::new(directions@.len(), |d: int| 0u32));
        }
        Ok(Self { dim, index: 0, x, directions })
    }

    /// The number of coordinates of a point.
    pub fn dimension(&self) -> (r: usize)
        ensures
            r == self@.directions.len(),
            r > 0,
    {
        proof {
            use_type_invariant(self);
        }
        self.dim
    }

    /// The index of the point that comes next.
    pub fn index(&self) -> (r: u64)
        ensures
            r == self@.index,
            r <= INDEX_LIMIT,
    {
        proof {
            use_type_invariant(self);
        }
        self.index
    }

    /// Goes back to the start of the sequence.
    pub fn reset(&mut self)
        ensures
            final(self)@ == sought(old(self)@.directions, 0),
            valid(final(self)@),
    {
        proof {
            use_type_invariant(&*self);
        }
        rewind(&mut self.index, &mut self.x, &self.directions);
    }

    /// Writes the words of the current point to `out`, one for each
    /// dimension, and moves on to the next point. A word `w` stands for the
    /// coordinate `w / 2^32`.
    ///
    /// Fails, and changes nothing, where `out` has not the length of the
    /// dimension or no point is left.
    pub fn next_point(&mut self, out: &mut [u32]) -> (r: Result<(), SobolError>)
        ensures
            r is Ok <==> old(out)@.len() == old(self)@.directions.len() && old(self)@.index
                < INDEX_LIMIT,
            r is Ok ==> final(out)@ == old(self)@.words && final(self)@ == next_state(old(self)@),
            r is Err ==> final(out)@ == old(out)@ && final(self)@ == old(self)@,
            valid(final(self)@),
    {
        proof {
            use_type_invariant(&*self);
        }
        if out.len() != self.dim {
            return Err(SobolError);
        }
        if self.index >= INDEX_LIMIT {
            return Err(SobolError);
        }
        let n = self.dim;
        let mut d: usize = 0;
        while d < n
            invariant
                d <= n,
                n == out@.len(),
                n == self.x@.len(),
                forall|j: int| 0 <= j < d ==> out@[j] == self.x@[j],
            decreases n - d,
        {
            out[d] = self.x[d];
            d += 1;
        }
        assert(out@ =~= self.x@);
        let c = (self.index.wrapping_add(1)).trailing_zeros() as usize;
        bump(&mut self.index, &mut self.x, &self.directions, c);
        Ok(())
    }

    /// The words of the current point as a new vector; moves on to the next
    /// point. Fails, and changes nothing, where no point is left.
    pub fn next_vec(&mut self) -> (r: Result<Vec<u32>, SobolError>)
        ensures
            r is Ok <==> old(self)@.index < INDEX_LIMIT,
            r is Ok ==> r->Ok_0@ == old(self)@.words && final(self)@ == next_state(old(self)@),
            r is Err ==> final(self)@ == old(self)@,
            valid(final(self)@),
    {
        proof {
            use_type_invariant(&*self);
        }
        let mut out = vec![0u32; self.dim];
        match self.next_point(out.as_mut_slice()) {
            Ok(()) => Ok(out),
            Err(e) => Err(e),
        }
    }

    /// Puts the sequence at `index`, in time that does not depend on
    /// `index`. Fails, and changes nothing, where `index` is not below
    /// `INDEX_LIMIT`.
    pub fn seek(&mut self, index: u64) -> (r: Result<(), SobolError>)
        ensures
            r is Ok <==> index < INDEX_LIMIT,
            r is Ok ==> final(self)@ == sought(old(self)@.directions, index),
            r is Err ==> final(self)@ == old(self)@,
            valid(final(self)@),
    {
        proof {
            use_type_invariant(&*self);
        }
        if index >= INDEX_LIMIT {
            return Err(SobolError);
        }
        place(&mut self.index, &mut self.x, &self.directions, index);
        Ok(())
    }

    /// Moves the sequence on by `delta` points: a seek to `index + delta`.
    /// Fails, and changes nothing, where that is not below `INDEX_LIMIT`.
    pub fn advance(&mut self, delta: u64) -> (r: Result<(), SobolError>)
        ensures
            r is Ok <==> old(self)@.index + delta < INDEX_LIMIT,
            r is Ok ==> final(self)@ == sought(
                old(self)@.directions,
                (old(self)@.index + delta) as u64,
            ),
            r is Err ==> final(self)@ == old(self)@,
            valid(final(self)@),
    {
        proof {
            use_type_invariant(&*self);
        }
        match self.index.checked_add(delta) {
            Some(target) => self.seek(target),
            None => Err(SobolError),
        }
    }
}

impl Clone for Sobol {
    /// A full copy of the sequence, independent of the one it was taken from.
    fn clone(&self) -> (r: Self)
        ensures
            r@ == self@,
    {
        proof {
            use_type_invariant(self);
        }
        let x = self.x.clone();
        assert(x@ =~= self.x@);
        let n = self.directions.len();
        let mut directions: Vec<[u32; 32]> = Vec::new();
        let mut d: usize = 0;
        while d < n
            invariant
                d <= n,
                n == self.directions@.len(),
                directions@ == self.directions@.take(d as int),
            decreases n - d,
        {
            directions.push(self.directions[d]);
            assert(directions@ =~= self.directions@.take(d + 1));
            d += 1;
        }
        assert(directions@ =~= self.directions@);
        Self { dim: self.dim, index: self.index, x, directions }
    }
}

} // verus!
