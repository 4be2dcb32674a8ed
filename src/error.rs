use vstd::prelude::*;

verus! {

/// What can go wrong in a tensor operation or in backward replay.
#[derive(Clone, Debug)]
pub enum Error {
    /// The shapes of two operands are incompatible for the operation.
    ShapeMismatch { lhs: Vec<usize>, rhs: Vec<usize> },
    /// The tape was already consumed by backward replay.
    TapeMisuse,
    /// A tensor's identifier is not known to the tape.
    UnknownTensor,
    /// The buffer length does not match the shape's element count.
    BadBuffer,
    /// A value or a size left the range of its machine type.
    Overflow,
}

} // verus!
