//! The currencies that a cashflow can be paid in.
use vstd::prelude::*;

verus! {

/// The currency of a payment.
#[derive(Clone, Copy, Debug)]
pub enum Currency {
    USD,
    EUR,
    GBP,
    JPY,
    CNY,
}

} // verus!
