use vstd::prelude::*;

verus! {

/// Every way an operation of this library can fail.
#[derive(Clone, Copy, Debug, PartialEq, Eq, Structural)]
pub enum MlError {
    /// Two operands differ in length or shape.
    DimensionMismatch,
    /// An index lies outside the container.
    IndexOutOfRange,
    /// Matrix rows of differing lengths.
    RaggedInput,
    /// Fewer data points than requested clusters.
    InsufficientData,
    /// Evaluation over no samples.
    EmptyInput,
    /// Evaluation over a sample without an output.
    MissingLabel,
    /// A result does not fit in the number type.
    Overflow,
}

} // verus!
