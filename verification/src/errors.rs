//! The failure taxonomy: reading an address no section maps, an opcode
//! rule meeting an operand shape it does not support, and an image that
//! cannot be parsed at all. An instruction with no matching rule is not a
//! failure; it degrades to an opaque node.

use vstd::prelude::*;

verus! {

/// A typed failure of the analysis.
#[derive(Clone, Copy, PartialEq, Eq, Structural, Debug)]
pub enum AnalysisError {
    /// An address outside every known section was read.
    UnmappedAddress,
    /// An opcode rule matched, but the operand shape is not supported by
    /// that rule.
    UnsupportedOperand,
    /// The executable image cannot be parsed as a recognized format.
    MalformedImage,
}

} // verus!
