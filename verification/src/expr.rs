//! The expression node model: a closed, tagged set of node kinds, some of
//! which hold child nodes.

use vstd::prelude::*;

verus! {

/// A resolved type of a constant or of a bound value.
#[derive(Clone, Copy, Debug, PartialEq, Eq, Structural)]
pub enum TypeTag {
    /// A boolean value.
    Boolean,
    /// A 32-bit signed integer.
    Int,
    /// A 64-bit signed integer.
    Long,
}

/// A literal value, tagged with its type.
#[derive(Clone, Copy, Debug, PartialEq, Eq, Structural)]
pub enum Constant {
    /// A boolean literal.
    Boolean(bool),
    /// A 32-bit signed integer literal.
    Int(i32),
    /// A 64-bit signed integer literal.
    Long(i64),
}

impl Constant {
    /// The type of this literal.
    pub fn type_tag(&self) -> (r: TypeTag)
        ensures
            r == self.spec_type_tag(),
    {
        match self {
            Constant::Boolean(_) => TypeTag::Boolean,
            Constant::Int(_) => TypeTag::Int,
            Constant::Long(_) => TypeTag::Long,
        }
    }

    /// The type of this literal.
    pub open spec fn spec_type_tag(&self) -> TypeTag {
        match self {
            Constant::Boolean(_) => TypeTag::Boolean,
            Constant::Int(_) => TypeTag::Int,
            Constant::Long(_) => TypeTag::Long,
        }
    }
}

/// The kind of a binary operator node.
#[derive(Clone, Copy, Debug, PartialEq, Eq, Structural)]
pub enum BinOpKind {
    /// Addition.
    Plus,
    /// Subtraction.
    Minus,
    /// Multiplication.
    Multiply,
}

/// One expression node.
///
/// The set of kinds is closed and append-only: a new kind may be added under
/// a fresh opcode, but existing kinds and their opcodes never change, so
/// historical byte streams stay decodable.
#[derive(Debug, PartialEq, Eq)]
pub enum Expr {
    /// A literal value.
    Constant(Constant),
    /// A use of a binding declared by an enclosing `ValDef`.
    ValUse(u32),
    /// Declares a binding id with its resolved type and the defining
    /// subexpression.
    ValDef {
        /// The binding id, unique within one tree.
        id: u32,
        /// The resolved type recorded for decoders.
        tpe: TypeTag,
        /// The defining subexpression.
        rhs: Box<Expr>,
    },
    /// A binary operator over two subexpressions.
    BinOp {
        /// The operator kind.
        op: BinOpKind,
        /// The left operand.
        left: Box<Expr>,
        /// The right operand.
        right: Box<Expr>,
    },
}

/// The nesting depth of a tree: one for a leaf, one more for each level of
/// children. The decoder's recursion budget is spent against this measure.
pub open spec fn expr_depth(e: Expr) -> nat
    decreases e,
{
    match e {
        Expr::Constant(_) => 1,
        Expr::ValUse(_) => 1,
        Expr::ValDef { rhs, .. } => 1 + expr_depth(*rhs),
        Expr::BinOp { left, right, .. } => {
            let dl = expr_depth(*left);
            let dr = expr_depth(*right);
            1 + if dl >= dr {
                dl
            } else {
                dr
            }
        },
    }
}

} // verus!
