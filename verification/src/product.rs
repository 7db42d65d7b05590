//! The fixed dimensions of a product, and the shapes of the buffers that a
//! projection of it fills.
pub mod cashflow;
pub mod definition;
pub mod required;

pub use cashflow::{CashflowBufferError, CashflowKindId, CashflowShape};
pub use definition::{ProductDefinition, ProductDefinitionError};
pub use required::{
    RequiredDataBufferError, RequiredDataLayout, RequiredDataLayoutError, RequiredDataShape,
};
