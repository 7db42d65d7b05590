//! How far apart the cashflows of a projection lie.
use vstd::prelude::*;

verus! {

/// The distance from one cashflow date to the next.
#[derive(Debug, Clone, Copy, PartialEq, Eq)]
pub enum Frequency {
    Daily,
    Weekly,
    Monthly,
    Quarterly,
    SemiAnnual,
    Annual,
}

} // verus!
