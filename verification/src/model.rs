//! What a model checks before it projects a product: that the buffers it is
//! handed have the shape that the product's definition and the run fix.
use crate::date::Frequency;
use crate::product::cashflow::CashflowShape;
use crate::product::definition::ProductDefinition;
use crate::product::required::RequiredDataShape;
use vstd::prelude::*;

verus! {

/// A buffer's shape disagrees with the product's definition or with the
/// number of steps of the run.
#[derive(Debug, Clone, Copy, PartialEq, Eq)]
pub struct ModelError;

/// The run of a projection: where it starts, how far apart its steps lie and
/// how many there are. `T` is the type of a point in time.
#[derive(Debug, Clone, Copy, PartialEq, Eq)]
pub struct ModelConfig<T> {
    pub start: T,
    pub frequency: Frequency,
    pub steps: usize,
}

/// The shapes fit a product projected over `steps` steps: the cashflow
/// buffer has the product's states and kinds and `steps` steps, and the
/// required-data buffer has the product's states and layout.
pub open spec fn buffers_fit(
    definition: ProductDefinition,
    steps: usize,
    cashflows: CashflowShape,
    data: RequiredDataShape,
) -> bool {
    &&& cashflows.states() == definition.n_states
    &&& cashflows.kinds() == definition.n_kinds
    &&& cashflows.step_count() == steps
    &&& data.states() == definition.n_states
    &&& data.layout_of().scalars() == definition.required_data.scalars()
    &&& data.layout_of().vectors() == definition.required_data.vectors()
}

/// Checks the shapes of the two buffers against the definition and the
/// number of steps, before anything is written.
pub fn validate_buffers(
    definition: &ProductDefinition,
    steps: usize,
    cashflows: &CashflowShape,
    data: &RequiredDataShape,
) -> (r: Result<(), ModelError>)
    ensures
        r is Ok <==> buffers_fit(*definition, steps, *cashflows, *data),
{
    if cashflows.n_states() != definition.n_states || cashflows.n_kinds() != definition.n_kinds
        || cashflows.len_steps() != steps {
        return Err(ModelError);
    }
    if data.n_states() != definition.n_states || !data.layout().same_as(&definition.required_data) {
        return Err(ModelError);
    }
    Ok(())
}

} // verus!
