//! The opcode table: a fixed, append-only bijection between node kinds and
//! compact numeric tags, plus the type-tag codes for constants.
//!
//! Once assigned, an opcode is never reassigned or reused, even if its kind
//! is later retired, because historical chain data must remain decodable.

use vstd::prelude::*;

use crate::expr::{BinOpKind, TypeTag};

verus! {

/// Opcode of a literal constant written inline.
pub const OP_CONSTANT: u8 = 1;

/// Opcode of a placeholder referencing the segregated constant store.
pub const OP_CONSTANT_PLACEHOLDER: u8 = 2;

/// Opcode of a binding declaration.
pub const OP_VAL_DEF: u8 = 3;

/// Opcode of a binding use.
pub const OP_VAL_USE: u8 = 4;

/// Opcode of a binary operator node.
pub const OP_BIN_OP: u8 = 5;

/// Type code of `TypeTag::Boolean`.
pub const TYPE_CODE_BOOLEAN: u8 = 1;

/// Type code of `TypeTag::Int`.
pub const TYPE_CODE_INT: u8 = 4;

/// Type code of `TypeTag::Long`.
pub const TYPE_CODE_LONG: u8 = 5;

/// Kind code of `BinOpKind::Plus`.
pub const BIN_OP_CODE_PLUS: u8 = 1;

/// Kind code of `BinOpKind::Minus`.
pub const BIN_OP_CODE_MINUS: u8 = 2;

/// Kind code of `BinOpKind::Multiply`.
pub const BIN_OP_CODE_MULTIPLY: u8 = 3;

/// Whether `op` is an opcode that has ever been assigned to a node kind.
/// Decoding a byte stream that carries any other first byte always fails
/// with `UnknownOpCode`, never skips it.
pub open spec fn spec_is_assigned_opcode(op: u8) -> bool {
    op == OP_CONSTANT || op == OP_CONSTANT_PLACEHOLDER || op == OP_VAL_DEF || op == OP_VAL_USE
        || op == OP_BIN_OP
}

/// Whether `op` is an opcode that has ever been assigned to a node kind.
pub fn is_assigned_opcode(op: u8) -> (r: bool)
    ensures
        r == spec_is_assigned_opcode(op),
{
    op == OP_CONSTANT || op == OP_CONSTANT_PLACEHOLDER || op == OP_VAL_DEF || op == OP_VAL_USE
        || op == OP_BIN_OP
}

/// The numeric code of a type tag.
pub open spec fn spec_type_code(t: TypeTag) -> u8 {
    match t {
        TypeTag::Boolean => TYPE_CODE_BOOLEAN,
        TypeTag::Int => TYPE_CODE_INT,
        TypeTag::Long => TYPE_CODE_LONG,
    }
}

/// The numeric code of a type tag.
pub fn type_code(t: TypeTag) -> (r: u8)
    ensures
        r == spec_type_code(t),
{
    match t {
        TypeTag::Boolean => TYPE_CODE_BOOLEAN,
        TypeTag::Int => TYPE_CODE_INT,
        TypeTag::Long => TYPE_CODE_LONG,
    }
}

/// The type tag assigned to a numeric code, if any.
pub open spec fn spec_type_of_code(c: u8) -> Option<TypeTag> {
    if c == TYPE_CODE_BOOLEAN {
        Some(TypeTag::Boolean)
    } else if c == TYPE_CODE_INT {
        Some(TypeTag::Int)
    } else if c == TYPE_CODE_LONG {
        Some(TypeTag::Long)
    } else {
        None
    }
}

/// The type tag assigned to a numeric code, if any.
pub fn type_of_code(c: u8) -> (r: Option<TypeTag>)
    ensures
        r == spec_type_of_code(c),
{
    if c == TYPE_CODE_BOOLEAN {
        Some(TypeTag::Boolean)
    } else if c == TYPE_CODE_INT {
        Some(TypeTag::Int)
    } else if c == TYPE_CODE_LONG {
        Some(TypeTag::Long)
    } else {
        None
    }
}

/// The numeric code of a binary operator kind.
pub open spec fn spec_bin_op_code(k: BinOpKind) -> u8 {
    match k {
        BinOpKind::Plus => BIN_OP_CODE_PLUS,
        BinOpKind::Minus => BIN_OP_CODE_MINUS,
        BinOpKind::Multiply => BIN_OP_CODE_MULTIPLY,
    }
}

/// The numeric code of a binary operator kind.
pub fn bin_op_code(k: BinOpKind) -> (r: u8)
    ensures
        r == spec_bin_op_code(k),
{
    match k {
        BinOpKind::Plus => BIN_OP_CODE_PLUS,
        BinOpKind::Minus => BIN_OP_CODE_MINUS,
        BinOpKind::Multiply => BIN_OP_CODE_MULTIPLY,
    }
}

/// The binary operator kind assigned to a numeric code, if any.
pub open spec fn spec_bin_op_of_code(c: u8) -> Option<BinOpKind> {
    if c == BIN_OP_CODE_PLUS {
        Some(BinOpKind::Plus)
    } else if c == BIN_OP_CODE_MINUS {
        Some(BinOpKind::Minus)
    } else if c == BIN_OP_CODE_MULTIPLY {
        Some(BinOpKind::Multiply)
    } else {
        None
    }
}

/// The binary operator kind assigned to a numeric code, if any.
pub fn bin_op_of_code(c: u8) -> (r: Option<BinOpKind>)
    ensures
        r == spec_bin_op_of_code(c),
{
    if c == BIN_OP_CODE_PLUS {
        Some(BinOpKind::Plus)
    } else if c == BIN_OP_CODE_MINUS {
        Some(BinOpKind::Minus)
    } else if c == BIN_OP_CODE_MULTIPLY {
        Some(BinOpKind::Multiply)
    } else {
        None
    }
}

/// The opcode-to-kind maps invert the kind-to-opcode maps: the table is a
/// bijection between the assigned codes and the kinds.
pub proof fn lemma_opcode_table_bijective()
    ensures
        forall|t: TypeTag| spec_type_of_code(spec_type_code(t)) == Some(t),
        forall|k: BinOpKind| spec_bin_op_of_code(spec_bin_op_code(k)) == Some(k),
        forall|c: u8| #[trigger] spec_type_of_code(c) is Some ==> spec_type_code(
            spec_type_of_code(c).unwrap(),
        ) == c,
        forall|c: u8| #[trigger] spec_bin_op_of_code(c) is Some ==> spec_bin_op_code(
            spec_bin_op_of_code(c).unwrap(),
        ) == c,
{
}

} // verus!
