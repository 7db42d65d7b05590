//! Deterministic generators with random access to their streams.
pub mod mgk32a;
pub mod modular;
pub mod mrg32k3a;
pub mod sobol;
pub mod state;

use vstd::prelude::*;

verus! {

/// Deterministic jump-ahead for reproducible streams.
pub trait JumpAhead {
    type Error;

    /// Repositions the generator as if `delta` values had been drawn.
    fn advance(&mut self, delta: u128) -> Result<(), Self::Error>;
}

/// Block splitting via jump-ahead for parallel stream construction.
pub trait BlockSplit: Sized {
    type Seed;

    type Error;

    /// The generator of the given seed, positioned at `stream * stride`.
    fn for_stream(seed: Self::Seed, stream: u128, stride: u128) -> Result<Self, Self::Error>;
}

/// The 64-bit word made of two 32-bit draws, the first one on top.
pub open spec fn word64(hi: u32, lo: u32) -> u64 {
    ((hi as u64) << 32) | (lo as u64)
}

/// Byte `k` of `v`, counted from the least significant one.
pub open spec fn le_byte(v: u64, k: nat) -> u8 {
    ((v >> ((8 * k) as u64)) & 0xff) as u8
}

/// Byte `j` of a run of bytes in which the 64-bit word made of `hi` and `lo`
/// takes up the eight places that `j` lies in.
pub open spec fn word_byte(hi: u32, lo: u32, j: int) -> u8 {
    le_byte(word64(hi, lo), (j % 8) as nat)
}

/// The number of 64-bit words that it takes to fill `len` bytes.
pub open spec fn words_for(len: nat) -> nat {
    (len + 7) / 8
}

/// Byte `k` of `v`, counted from the least significant one.
fn byte_of(v: u64, k: usize) -> (b: u8)
    requires
        k < 8,
    ensures
        b == le_byte(v, k as nat),
{
    let shift = 8 * (k as u64);
    let low = (v >> shift) & 0xff;
    assert(low <= 0xff) by (bit_vector)
        requires
            low == (v >> shift) & 0xff,
    ;
    low as u8
}

/// Writes the `count` low bytes of `v`, least significant first, to
/// `out[at..at + count]`, and leaves the rest of `out` as it is.
fn put_bytes(out: &mut [u8], at: usize, count: usize, v: u64)
    requires
        count <= 8,
        at + count <= old(out)@.len(),
    ensures
        final(out)@.len() == old(out)@.len(),
        forall|j: int|
            0 <= j < at || at + count <= j < old(out)@.len() ==> final(out)@[j] == old(out)@[j],
        forall|j: int| at <= j < at + count ==> final(out)@[j] == le_byte(v, (j - at) as nat),
{
    let len = out.len();
    let mut k: usize = 0;
    while k < count
        invariant
            k <= count <= 8,
            at + count <= len,
            len == out@.len(),
            out@.len() == old(out)@.len(),
            forall|j: int| 0 <= j < at || at + k <= j < out@.len() ==> out@[j] == old(out)@[j],
            forall|j: int| at <= j < at + k ==> out@[j] == le_byte(v, (j - at) as nat),
        decreases count - k,
    {
        out[at + k] = byte_of(v, k);
        k += 1;
    }
}

/// Core 32-bit generator interface.
///
/// A generator is a state that determines the whole sequence of values still
/// to come: `upcoming(i)` is the value that the call after `i` more calls of
/// `next_u32` returns.
pub trait RngCore {
    /// The value that `next_u32` returns after `i` further calls of it. An
    /// implementation that is to be verified defines it from its state.
    open spec fn upcoming(&self, i: nat) -> u32 {
        arbitrary()
    }

    /// Returns the next value and moves the sequence on by one.
    fn next_u32(&mut self) -> (r: u32)
        ensures
            r == old(self).upcoming(0),
            forall|i: nat| final(self).upcoming(i) == old(self).upcoming(i + 1),
    ;

    /// Returns two draws as one word, the first draw in the upper half.
    fn next_u64(&mut self) -> (r: u64)
        ensures
            r == word64(old(self).upcoming(0), old(self).upcoming(1)),
            forall|i: nat| final(self).upcoming(i) == old(self).upcoming(i + 2),
    {
        let hi = self.next_u32() as u64;
        let lo = self.next_u32() as u64;
        assert forall|i: nat| self.upcoming(i) == old(self).upcoming(i + 2) by {
            assert(old(self).upcoming(i + 1 + 1) == old(self).upcoming(i + 2));
        }
        (hi << 32) | lo
    }

    /// Fills `out` with the little-endian bytes of successive 64-bit words;
    /// of the last word only as many bytes as still fit are used, and the
    /// rest of it is dropped.
    fn fill_bytes(&mut self, out: &mut [u8])
        ensures
            final(out)@.len() == old(out)@.len(),
            forall|j: int|
                0 <= j < old(out)@.len() ==> #[trigger] final(out)@[j] == word_byte(
                    old(self).upcoming((2 * (j / 8)) as nat),
                    old(self).upcoming((2 * (j / 8) + 1) as nat),
                    j,
                ),
            forall|i: nat|
                final(self).upcoming(i) == old(self).upcoming(i + 2 * words_for(old(out)@.len())),
    {
        let len = out.len();
        let mut i: usize = 0;
        while len - i >= 8
            invariant
                i <= len,
                i % 8 == 0,
                out@.len() == len,
                len == old(out)@.len(),
                forall|j: int|
                    0 <= j < i ==> #[trigger] out@[j] == word_byte(
                        old(self).upcoming((2 * (j / 8)) as nat),
                        old(self).upcoming((2 * (j / 8) + 1) as nat),
                        j,
                    ),
                forall|n: nat|
                    #[trigger] self.upcoming(n) == old(self).upcoming(n + 2 * (i / 8) as nat),
            decreases len - i,
        {
            let ghost w = (i / 8) as nat;
            let ghost before = out@;
            assert(self.upcoming(0) == old(self).upcoming(0 + 2 * w));
            assert(self.upcoming(1) == old(self).upcoming(1 + 2 * w));
            let v = self.next_u64();
            put_bytes(out, i, 8, v);
            assert forall|j: int| 0 <= j < i + 8 implies #[trigger] out@[j] == word_byte(
                old(self).upcoming((2 * (j / 8)) as nat),
                old(self).upcoming((2 * (j / 8) + 1) as nat),
                j,
            ) by {
                if j < i {
                    assert(out@[j] == before[j]);
                } else {
                    assert(j / 8 == w && j % 8 == j - i);
                }
            }
            i += 8;
        }
        if i < len {
            let ghost w = (i / 8) as nat;
            let ghost before = out@;
            assert(self.upcoming(0) == old(self).upcoming(0 + 2 * w));
            assert(self.upcoming(1) == old(self).upcoming(1 + 2 * w));
            let v = self.next_u64();
            let remaining = len - i;
            put_bytes(out, i, remaining, v);
            assert forall|j: int| 0 <= j < len implies #[trigger] out@[j] == word_byte(
                old(self).upcoming((2 * (j / 8)) as nat),
                old(self).upcoming((2 * (j / 8) + 1) as nat),
                j,
            ) by {
                if j < i {
                    assert(out@[j] == before[j]);
                } else {
                    assert(j / 8 == w && j % 8 == j - i);
                }
            }
            assert(words_for(len as nat) == w + 1);
        } else {
            assert(words_for(len as nat) == (i / 8) as nat);
        }
    }
}

} // verus!
