//! The fixed definition of a product.
use crate::product::required::RequiredDataLayout;
use vstd::prelude::*;

verus! {

/// A product was defined without a state or without a kind of cashflow.
#[derive(Debug, Clone, Copy, PartialEq, Eq)]
pub struct ProductDefinitionError;

/// Fixed definition of a product's dimensions and required data.
#[derive(Debug, Clone, Copy, PartialEq, Eq)]
pub struct ProductDefinition {
    pub n_states: usize,
    pub n_kinds: usize,
    pub required_data: RequiredDataLayout,
}

impl ProductDefinition {
    /// The definition with the given dimensions, neither of which may be
    /// zero.
    pub fn new(n_states: usize, n_kinds: usize, required_data: RequiredDataLayout) -> (r: Result<
        Self,
        ProductDefinitionError,
    >)
        ensures
            r is Ok <==> n_states > 0 && n_kinds > 0,
            r is Ok ==> r->Ok_0.n_states == n_states && r->Ok_0.n_kinds == n_kinds
                && r->Ok_0.required_data == required_data,
    {
        if n_states == 0 || n_kinds == 0 {
            return Err(ProductDefinitionError);
        }
        Ok(Self { n_states, n_kinds, required_data })
    }
}

} // verus!
