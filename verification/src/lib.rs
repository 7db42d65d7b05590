//! Reproducible draws for Monte Carlo projections.
//!
//! A combined multiple-recursive generator, jump-ahead that repositions it
//! by large offsets in logarithmic time, a low-discrepancy sequence with the
//! same random access, and the harness of a simulation that gives every
//! path a stream of its own. Every function is verified against the contract
//! it carries: jumping ahead by `k` leaves the state that `k` single steps
//! leave, a seek leaves the sequence where iteration would, and a row of the
//! result depends on its path alone.
pub mod compounding;
pub mod contract;
pub mod date;
pub mod frequency;
pub mod gaussian;
pub mod linalg;
pub mod model;
pub mod product;
pub mod rng;
pub mod sim;

pub use date::Frequency;

use vstd::prelude::*;

verus! {

/// The sum of two numbers that have one in 64 bits.
pub fn add(left: u64, right: u64) -> (r: u64)
    requires
        left + right <= u64::MAX,
    ensures
        r == left + right,
{
    left + right
}

} // verus!
