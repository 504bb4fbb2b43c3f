use vstd::prelude::*;

pub mod algo;
pub mod binding;
pub mod matrix;
pub mod text;
pub mod vector;

pub use crate::algo::Algo;
pub use crate::algo::AlgoType;

verus! {

/// The failures that the matrix engine reports to its callers.
#[derive(Debug, Clone, Copy, PartialEq, Eq, Structural)]
pub enum AlgoError {
    /// `multiply` was given matrices whose inner dimensions differ.
    DimensionMismatch,
    /// `dot_product` was given vectors of different lengths.
    LengthMismatch,
    /// A work item could not be dispatched, or a result channel closed
    /// before delivering its value.
    ChannelFailure,
}

} // verus!
