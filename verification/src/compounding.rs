//! How interest is compounded.
use crate::frequency::Frequency;
use vstd::prelude::*;

verus! {

/// The rule by which interest accrues.
#[derive(Clone, Copy, Debug)]
pub enum Compounding {
    Simple,
    Compounded(Frequency),
    Continuous,
    /// Apply simple interest until a switch date and compound afterwards.
    SimpleThenCompounded(Frequency),
}

} // verus!
