//! The error of the inverse normal transform. The transform itself is
//! floating-point arithmetic and stands outside this library.
use vstd::prelude::*;

verus! {

/// Why the inverse normal transform gave no value.
#[derive(Debug, Clone, Copy, PartialEq, Eq)]
pub enum InverseGaussianError {
    /// The input was not in the open interval (0, 1).
    OutOfRange,
}

} // verus!
