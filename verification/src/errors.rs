use vstd::prelude::*;

verus! {

/// Failure taxonomy shared by every encode/decode operation in this crate.
///
/// Any failure at any depth aborts the entire enclosing operation: partial
/// trees are never produced or accepted.
#[derive(Clone, Copy, Debug, PartialEq, Eq, Structural)]
pub enum CodecError {
    /// Truncated or otherwise invalid byte stream.
    MalformedInput,
    /// A tree was nested deeper than the configured limit.
    RecursionLimitExceeded,
    /// The stream carried an opcode that has never been assigned.
    UnknownOpCode,
    /// A binding id was declared twice within one tree.
    DuplicateBinding,
    /// A binding id was used without having been declared.
    UnresolvedBinding,
    /// A numeric value or index lay outside its permitted range.
    ValueOutOfRange,
}

} // verus!
