//! The unit in which an interval between dates is counted.
use vstd::prelude::*;

verus! {

/// The unit of an interval: so many years, months, weeks or days.
#[derive(Clone, Copy, Debug)]
pub enum Frequency {
    Yearly,
    Monthly,
    Weekly,
    Daily,
}

} // verus!
