//! Failures of the post-processing pipeline; each one ends the call.
use vstd::prelude::*;

verus! {

#[derive(Clone, Copy, Debug, PartialEq, Eq, Structural)]
pub enum Error {
    /// The output tensors cannot be grouped into three branches of at least three.
    InvalidOutputCount,
    /// A tensor's quantization kind is not recognized, or its scale is not positive.
    UnsupportedQuantType,
    /// A box tensor holds more than one regression bin per coordinate.
    UnsupportedDflLength,
    /// A read falls outside a tensor's shape or its buffer.
    IndexOutOfRange,
}

} // verus!
