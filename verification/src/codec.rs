//! The serialization protocol: the per-node-kind encode/decode contract,
//! composed recursively through the opcode table, the constant store, the
//! binding type store and the depth-guarded cursor.
//!
//! Two encoding modes exist. In inline mode every literal is written
//! directly into the node stream. In segregated mode literals are appended
//! to the constant store, the stream opens with the store's contents, and
//! the tree carries placeholders referencing store indices; both modes
//! decode to structurally identical trees.

use vstd::prelude::*;

use crate::binding_store::BindingTypeStore;
use crate::constant_store::ConstantStore;
use crate::cursor::{ByteReader, ByteWriter};
use crate::errors::CodecError;
use crate::expr::{BinOpKind, Constant, Expr, TypeTag};
use crate::opcode::{
    bin_op_code, bin_op_of_code, spec_bin_op_code, spec_bin_op_of_code, spec_type_code,
    spec_type_of_code, type_code, type_of_code, OP_BIN_OP, OP_CONSTANT,
    OP_CONSTANT_PLACEHOLDER, OP_VAL_DEF, OP_VAL_USE,
};
use crate::opcode::{TYPE_CODE_BOOLEAN, TYPE_CODE_INT, TYPE_CODE_LONG};
use crate::vlq::{lemma_parse_varint_range, parse_varint, unzigzag64, varint_bytes, zigzag};

verus! {

/// The wire form of a literal: its type code, then its payload.
pub open spec fn const_bytes(c: Constant) -> Seq<u8> {
    match c {
        Constant::Boolean(b) => seq![
            TYPE_CODE_BOOLEAN,
            if b {
                1u8
            } else {
                0u8
            },
        ],
        Constant::Int(v) => seq![TYPE_CODE_INT] + varint_bytes(zigzag(v as int)),
        Constant::Long(v) => seq![TYPE_CODE_LONG] + varint_bytes(zigzag(v as int)),
    }
}

/// The literal found at `pos` of `s`, with the position just past it, or the
/// exact error the decoder reports there.
pub open spec fn spec_decode_const(s: Seq<u8>, pos: int) -> Result<(Constant, int), CodecError> {
    if pos < 0 || pos >= s.len() {
        Err(CodecError::MalformedInput)
    } else {
        let tag = s[pos];
        if tag == TYPE_CODE_BOOLEAN {
            if pos + 1 < s.len() {
                let b = s[pos + 1];
                if b == 0 {
                    Ok((Constant::Boolean(false), pos + 2))
                } else if b == 1 {
                    Ok((Constant::Boolean(true), pos + 2))
                } else {
                    Err(CodecError::MalformedInput)
                }
            } else {
                Err(CodecError::MalformedInput)
            }
        } else if tag == TYPE_CODE_INT {
            match parse_varint(s, pos + 1) {
                Some((n, p)) => {
                    let v = unzigzag64(n);
                    if i32::MIN <= v <= i32::MAX {
                        Ok((Constant::Int(v as i32), p))
                    } else {
                        Err(CodecError::ValueOutOfRange)
                    }
                },
                None => Err(CodecError::MalformedInput),
            }
        } else if tag == TYPE_CODE_LONG {
            match parse_varint(s, pos + 1) {
                Some((n, p)) => Ok((Constant::Long(unzigzag64(n) as i64), p)),
                None => Err(CodecError::MalformedInput),
            }
        } else {
            Err(CodecError::MalformedInput)
        }
    }
}

/// Writes the wire form of a literal.
pub fn encode_const(c: &Constant, w: &mut ByteWriter)
    ensures
        final(w).bytes@ == old(w).bytes@ + const_bytes(*c),
{
    match c {
        Constant::Boolean(b) => {
            w.write_u8(TYPE_CODE_BOOLEAN);
            w.write_u8(
                if *b {
                    1
                } else {
                    0
                },
            );
            proof {
                assert(final(w).bytes@ =~= old(w).bytes@ + const_bytes(*c));
            }
        },
        Constant::Int(v) => {
            w.write_u8(TYPE_CODE_INT);
            w.write_signed_varint(*v as i64);
            proof {
                assert(final(w).bytes@ =~= old(w).bytes@ + const_bytes(*c));
            }
        },
        Constant::Long(v) => {
            w.write_u8(TYPE_CODE_LONG);
            w.write_signed_varint(*v);
            proof {
                assert(final(w).bytes@ =~= old(w).bytes@ + const_bytes(*c));
            }
        },
    }
}

/// Reads one literal from the cursor.
pub fn decode_const(r: &mut ByteReader) -> (res: Result<Constant, CodecError>)
    ensures
        final(r).bytes@ == old(r).bytes@,
        final(r).depth_left == old(r).depth_left,
        match spec_decode_const(old(r).bytes@, old(r).pos as int) {
            Ok((c, p)) => res == Ok::<Constant, CodecError>(c) && final(r).pos == p,
            Err(er) => res == Err::<Constant, CodecError>(er),
        },
{
    let tag = match r.read_u8() {
        Ok(b) => b,
        Err(e) => {
            return Err(e);
        },
    };
    if tag == TYPE_CODE_BOOLEAN {
        let b = match r.read_u8() {
            Ok(b) => b,
            Err(e) => {
                return Err(e);
            },
        };
        if b == 0 {
            Ok(Constant::Boolean(false))
        } else if b == 1 {
            Ok(Constant::Boolean(true))
        } else {
            Err(CodecError::MalformedInput)
        }
    } else if tag == TYPE_CODE_INT {
        let v = match r.read_signed_varint() {
            Ok(v) => v,
            Err(e) => {
                return Err(e);
            },
        };
        if i32::MIN as i64 <= v && v <= i32::MAX as i64 {
            Ok(Constant::Int(v as i32))
        } else {
            Err(CodecError::ValueOutOfRange)
        }
    } else if tag == TYPE_CODE_LONG {
        let v = match r.read_signed_varint() {
            Ok(v) => v,
            Err(e) => {
                return Err(e);
            },
        };
        Ok(Constant::Long(v))
    } else {
        Err(CodecError::MalformedInput)
    }
}

/// What encoding one node under a given mode, store state and remaining
/// depth budget produces: the node's bytes and the stores as it leaves them,
/// or the exact error.
pub open spec fn spec_encode_expr(
    e: Expr,
    seg: bool,
    cs: Seq<Constant>,
    bm: Map<u32, TypeTag>,
    d: nat,
) -> Result<(Seq<u8>, Seq<Constant>, Map<u32, TypeTag>), CodecError>
    decreases d,
{
    if d == 0 {
        Err(CodecError::RecursionLimitExceeded)
    } else {
        match e {
            Expr::Constant(c) => if seg {
                Ok((seq![OP_CONSTANT_PLACEHOLDER] + varint_bytes(cs.len()), cs.push(c), bm))
            } else {
                Ok((seq![OP_CONSTANT] + const_bytes(c), cs, bm))
            },
            Expr::ValUse(id) => if bm.contains_key(id) {
                Ok((seq![OP_VAL_USE] + varint_bytes(id as nat), cs, bm))
            } else {
                Err(CodecError::UnresolvedBinding)
            },
            Expr::ValDef { id, tpe, rhs } => if bm.contains_key(id) {
                Err(CodecError::DuplicateBinding)
            } else {
                match spec_encode_expr(*rhs, seg, cs, bm.insert(id, tpe), (d - 1) as nat) {
                    Ok((rb, cs2, bm2)) => Ok(
                        (
                            seq![OP_VAL_DEF] + varint_bytes(id as nat) + seq![spec_type_code(tpe)]
                                + rb,
                            cs2,
                            bm2,
                        ),
                    ),
                    Err(er) => Err(er),
                }
            },
            Expr::BinOp { op, left, right } => match spec_encode_expr(
                *left,
                seg,
                cs,
                bm,
                (d - 1) as nat,
            ) {
                Ok((lb, cs1, bm1)) => match spec_encode_expr(*right, seg, cs1, bm1, (d - 1) as nat) {
                    Ok((rb, cs2, bm2)) => Ok(
                        (seq![OP_BIN_OP, spec_bin_op_code(op)] + lb + rb, cs2, bm2),
                    ),
                    Err(er) => Err(er),
                },
                Err(er) => Err(er),
            },
        }
    }
}

/// What decoding one node from `pos` of `s` produces, under the given
/// constant store contents, binding map and remaining depth budget: the
/// node, the position just past it and the binding map as it leaves it, or
/// the exact error.
pub open spec fn spec_decode_expr(
    s: Seq<u8>,
    pos: int,
    cs: Seq<Constant>,
    bm: Map<u32, TypeTag>,
    d: nat,
) -> Result<(Expr, int, Map<u32, TypeTag>), CodecError>
    decreases d,
{
    if d == 0 {
        Err(CodecError::RecursionLimitExceeded)
    } else if pos < 0 || pos >= s.len() {
        Err(CodecError::MalformedInput)
    } else {
        let op = s[pos];
        if op == OP_CONSTANT {
            match spec_decode_const(s, pos + 1) {
                Ok((c, p)) => Ok((Expr::Constant(c), p, bm)),
                Err(er) => Err(er),
            }
        } else if op == OP_CONSTANT_PLACEHOLDER {
            match parse_varint(s, pos + 1) {
                Some((idx, p)) => if idx < cs.len() {
                    Ok((Expr::Constant(cs[idx as int]), p, bm))
                } else {
                    Err(CodecError::ValueOutOfRange)
                },
                None => Err(CodecError::MalformedInput),
            }
        } else if op == OP_VAL_USE {
            match parse_varint(s, pos + 1) {
                Some((id, p)) => if id > u32::MAX {
                    Err(CodecError::MalformedInput)
                } else if bm.contains_key(id as u32) {
                    Ok((Expr::ValUse(id as u32), p, bm))
                } else {
                    Err(CodecError::UnresolvedBinding)
                },
                None => Err(CodecError::MalformedInput),
            }
        } else if op == OP_VAL_DEF {
            match parse_varint(s, pos + 1) {
                Some((id, p1)) => if id > u32::MAX {
                    Err(CodecError::MalformedInput)
                } else if bm.contains_key(id as u32) {
                    Err(CodecError::DuplicateBinding)
                } else if p1 >= s.len() {
                    Err(CodecError::MalformedInput)
                } else {
                    match spec_type_of_code(s[p1]) {
                        Some(tpe) => match spec_decode_expr(
                            s,
                            p1 + 1,
                            cs,
                            bm.insert(id as u32, tpe),
                            (d - 1) as nat,
                        ) {
                            Ok((rhs, p2, bm2)) => Ok(
                                (Expr::ValDef { id: id as u32, tpe, rhs: Box::new(rhs) }, p2, bm2),
                            ),
                            Err(er) => Err(er),
                        },
                        None => Err(CodecError::MalformedInput),
                    }
                },
                None => Err(CodecError::MalformedInput),
            }
        } else if op == OP_BIN_OP {
            if pos + 1 >= s.len() {
                Err(CodecError::MalformedInput)
            } else {
                match spec_bin_op_of_code(s[pos + 1]) {
                    Some(opk) => match spec_decode_expr(s, pos + 2, cs, bm, (d - 1) as nat) {
                        Ok((l, p1, bm1)) => match spec_decode_expr(s, p1, cs, bm1, (d - 1) as nat) {
                            Ok((rr, p2, bm2)) => Ok(
                                (
                                    Expr::BinOp {
                                        op: opk,
                                        left: Box::new(l),
                                        right: Box::new(rr),
                                    },
                                    p2,
                                    bm2,
                                ),
                            ),
                            Err(er) => Err(er),
                        },
                        Err(er) => Err(er),
                    },
                    None => Err(CodecError::MalformedInput),
                }
            }
        } else {
            Err(CodecError::UnknownOpCode)
        }
    }
}

/// Writes one node: its opcode, then its kind-specific payload in the
/// kind's fixed field order, recursing into children through the same
/// contract.
pub fn encode_expr(
    e: &Expr,
    segregate: bool,
    cs: &mut ConstantStore,
    bm: &mut BindingTypeStore,
    w: &mut ByteWriter,
    depth: u32,
) -> (r: Result<(), CodecError>)
    ensures
        match spec_encode_expr(*e, segregate, old(cs)@, old(bm)@, depth as nat) {
            Ok((bytes, cs2, bm2)) => r == Ok::<(), CodecError>(())
                && final(w).bytes@ == old(w).bytes@ + bytes && final(cs)@ == cs2
                && final(bm)@ == bm2,
            Err(er) => r == Err::<(), CodecError>(er),
        },
    decreases depth,
{
    if depth == 0 {
        return Err(CodecError::RecursionLimitExceeded);
    }
    match e {
        Expr::Constant(c) => {
            if segregate {
                let idx = cs.append(*c);
                w.write_u8(OP_CONSTANT_PLACEHOLDER);
                w.write_varint(idx as u64);
                proof {
                    assert(final(w).bytes@ =~= old(w).bytes@ + (seq![OP_CONSTANT_PLACEHOLDER]
                        + varint_bytes(old(cs)@.len())));
                }
                Ok(())
            } else {
                w.write_u8(OP_CONSTANT);
                encode_const(c, w);
                proof {
                    assert(final(w).bytes@ =~= old(w).bytes@ + (seq![OP_CONSTANT] + const_bytes(
                        *c,
                    )));
                }
                Ok(())
            }
        },
        Expr::ValUse(id) => {
            if bm.contains(*id) {
                w.write_u8(OP_VAL_USE);
                w.write_varint(*id as u64);
                proof {
                    assert(final(w).bytes@ =~= old(w).bytes@ + (seq![OP_VAL_USE] + varint_bytes(
                        *id as nat,
                    )));
                }
                Ok(())
            } else {
                Err(CodecError::UnresolvedBinding)
            }
        },
        Expr::ValDef { id, tpe, rhs } => {
            match bm.declare(*id, *tpe) {
                Ok(()) => {
                    w.write_u8(OP_VAL_DEF);
                    w.write_varint(*id as u64);
                    w.write_u8(type_code(*tpe));
                    match encode_expr(&*rhs, segregate, cs, bm, w, depth - 1) {
                        Ok(()) => {
                            proof {
                                assert(final(w).bytes@ =~= old(w).bytes@ + (seq![OP_VAL_DEF]
                                    + varint_bytes(*id as nat) + seq![spec_type_code(*tpe)]
                                    + spec_encode_expr(
                                    **rhs,
                                    segregate,
                                    old(cs)@,
                                    old(bm)@.insert(*id, *tpe),
                                    (depth - 1) as nat,
                                ).unwrap().0));
                            }
                            Ok(())
                        },
                        Err(er) => Err(er),
                    }
                },
                Err(er) => Err(er),
            }
        },
        Expr::BinOp { op, left, right } => {
            w.write_u8(OP_BIN_OP);
            w.write_u8(bin_op_code(*op));
            match encode_expr(&*left, segregate, cs, bm, w, depth - 1) {
                Ok(()) => {
                    match encode_expr(&*right, segregate, cs, bm, w, depth - 1) {
                        Ok(()) => {
                            proof {
                                let lres = spec_encode_expr(
                                    **left,
                                    segregate,
                                    old(cs)@,
                                    old(bm)@,
                                    (depth - 1) as nat,
                                ).unwrap();
                                let rres = spec_encode_expr(
                                    **right,
                                    segregate,
                                    lres.1,
                                    lres.2,
                                    (depth - 1) as nat,
                                ).unwrap();
                                assert(final(w).bytes@ =~= old(w).bytes@ + (seq![
                                    OP_BIN_OP,
                                    spec_bin_op_code(*op),
                                ] + lres.0 + rres.0));
                            }
                            Ok(())
                        },
                        Err(er) => Err(er),
                    }
                },
                Err(er) => Err(er),
            }
        },
    }
}

/// Reads one node: its opcode, then the matching kind's payload, recursing
/// into children while spending the cursor's depth budget.
#[verifier::rlimit(60)]
pub fn decode_expr(r: &mut ByteReader, cs: &ConstantStore, bm: &mut BindingTypeStore) -> (res:
    Result<Expr, CodecError>)
    ensures
        final(r).bytes@ == old(r).bytes@,
        match spec_decode_expr(
            old(r).bytes@,
            old(r).pos as int,
            cs@,
            old(bm)@,
            old(r).depth_left as nat,
        ) {
            Ok((e, p, bm2)) => res == Ok::<Expr, CodecError>(e) && final(r).pos == p
                && final(bm)@ == bm2 && final(r).depth_left == old(r).depth_left,
            Err(er) => res == Err::<Expr, CodecError>(er),
        },
    decreases r.depth_left,
{
    match r.enter_node() {
        Ok(()) => {},
        Err(er) => {
            return Err(er);
        },
    }
    let op = match r.read_u8() {
        Ok(b) => b,
        Err(er) => {
            return Err(er);
        },
    };
    if op == OP_CONSTANT {
        let c = match decode_const(r) {
            Ok(c) => c,
            Err(er) => {
                return Err(er);
            },
        };
        r.leave_node();
        Ok(Expr::Constant(c))
    } else if op == OP_CONSTANT_PLACEHOLDER {
        let idx = match r.read_varint() {
            Ok(v) => v,
            Err(er) => {
                return Err(er);
            },
        };
        if idx >= cs.len() as u64 {
            return Err(CodecError::ValueOutOfRange);
        }
        let c = match cs.get(idx as usize) {
            Ok(c) => c,
            Err(er) => {
                return Err(er);
            },
        };
        r.leave_node();
        Ok(Expr::Constant(c))
    } else if op == OP_VAL_USE {
        let id = match r.read_varint() {
            Ok(v) => v,
            Err(er) => {
                return Err(er);
            },
        };
        if id > u32::MAX as u64 {
            return Err(CodecError::MalformedInput);
        }
        let id32 = id as u32;
        if bm.contains(id32) {
            r.leave_node();
            Ok(Expr::ValUse(id32))
        } else {
            Err(CodecError::UnresolvedBinding)
        }
    } else if op == OP_VAL_DEF {
        let id = match r.read_varint() {
            Ok(v) => v,
            Err(er) => {
                return Err(er);
            },
        };
        if id > u32::MAX as u64 {
            return Err(CodecError::MalformedInput);
        }
        let id32 = id as u32;
        if bm.contains(id32) {
            return Err(CodecError::DuplicateBinding);
        }
        let tag = match r.read_u8() {
            Ok(b) => b,
            Err(er) => {
                return Err(er);
            },
        };
        let tpe = match type_of_code(tag) {
            Some(t) => t,
            None => {
                return Err(CodecError::MalformedInput);
            },
        };
        match bm.declare(id32, tpe) {
            Ok(()) => {},
            Err(er) => {
                return Err(er);
            },
        }
        let rhs = match decode_expr(r, cs, bm) {
            Ok(e) => e,
            Err(er) => {
                return Err(er);
            },
        };
        r.leave_node();
        Ok(Expr::ValDef { id: id32, tpe, rhs: Box::new(rhs) })
    } else if op == OP_BIN_OP {
        let kind = match r.read_u8() {
            Ok(b) => b,
            Err(er) => {
                return Err(er);
            },
        };
        let opk = match bin_op_of_code(kind) {
            Some(k) => k,
            None => {
                return Err(CodecError::MalformedInput);
            },
        };
        let left = match decode_expr(r, cs, bm) {
            Ok(e) => e,
            Err(er) => {
                return Err(er);
            },
        };
        let right = match decode_expr(r, cs, bm) {
            Ok(e) => e,
            Err(er) => {
                return Err(er);
            },
        };
        r.leave_node();
        Ok(Expr::BinOp { op: opk, left: Box::new(left), right: Box::new(right) })
    } else {
        Err(CodecError::UnknownOpCode)
    }
}

/// The wire form of a whole constant store: each literal's bytes in index
/// order.
pub open spec fn consts_bytes(cs: Seq<Constant>) -> Seq<u8>
    decreases cs.len(),
{
    if cs.len() == 0 {
        Seq::empty()
    } else {
        const_bytes(cs.first()) + consts_bytes(cs.drop_first())
    }
}

/// Appending one literal to a store appends its bytes to the store's wire
/// form.
pub proof fn lemma_consts_bytes_push(cs: Seq<Constant>, c: Constant)
    ensures
        consts_bytes(cs.push(c)) == consts_bytes(cs) + const_bytes(c),
    decreases cs.len(),
{
    if cs.len() == 0 {
        assert(cs.push(c).first() == c);
        assert(cs.push(c).drop_first() =~= Seq::<Constant>::empty());
        assert(consts_bytes(Seq::<Constant>::empty()) =~= Seq::<u8>::empty());
        assert(consts_bytes(cs.push(c)) =~= const_bytes(c));
        assert(consts_bytes(cs) + const_bytes(c) =~= const_bytes(c));
    } else {
        assert(cs.push(c).first() == cs.first());
        assert(cs.push(c).drop_first() =~= cs.drop_first().push(c));
        lemma_consts_bytes_push(cs.drop_first(), c);
        let a = const_bytes(cs.first());
        let b = consts_bytes(cs.drop_first());
        let tail = const_bytes(c);
        assert(consts_bytes(cs.push(c)) == a + (b + tail));
        assert((a + b) + tail =~= a + (b + tail));
        assert(consts_bytes(cs) + const_bytes(c) == (a + b) + tail);
    }
}

/// What reading `count` literals in a row from `pos` of `s` produces.
pub open spec fn spec_decode_consts(s: Seq<u8>, pos: int, count: nat) -> Result<
    (Seq<Constant>, int),
    CodecError,
>
    decreases count,
{
    if count == 0 {
        Ok((Seq::empty(), pos))
    } else {
        match spec_decode_const(s, pos) {
            Ok((c, p)) => match spec_decode_consts(s, p, (count - 1) as nat) {
                Ok((cs, p2)) => Ok((seq![c] + cs, p2)),
                Err(er) => Err(er),
            },
            Err(er) => Err(er),
        }
    }
}

/// The full byte stream of one tree under the given mode and depth limit:
/// a mode flag, then in segregated mode the constant store's size and
/// contents, then the tree's node stream.
pub open spec fn spec_serialize_tree(e: Expr, seg: bool, limit: nat) -> Result<Seq<u8>, CodecError> {
    match spec_encode_expr(e, seg, Seq::empty(), Map::empty(), limit) {
        Ok((body, cs, bm)) => if seg {
            Ok(seq![1u8] + varint_bytes(cs.len()) + consts_bytes(cs) + body)
        } else {
            Ok(seq![0u8] + body)
        },
        Err(er) => Err(er),
    }
}

/// What decoding a full tree stream produces: the tree, or the exact error.
/// Trailing bytes after the tree are rejected.
pub open spec fn spec_deserialize_tree(s: Seq<u8>, limit: nat) -> Result<Expr, CodecError> {
    if s.len() < 1 {
        Err(CodecError::MalformedInput)
    } else if s[0] == 0 {
        match spec_decode_expr(s, 1, Seq::empty(), Map::empty(), limit) {
            Ok((e, p, bm)) => if p == s.len() {
                Ok(e)
            } else {
                Err(CodecError::MalformedInput)
            },
            Err(er) => Err(er),
        }
    } else if s[0] == 1 {
        match parse_varint(s, 1) {
            Some((count, p1)) => if count as int > s.len() - p1 {
                Err(CodecError::MalformedInput)
            } else {
                match spec_decode_consts(s, p1, count as nat) {
                    Ok((cs, p2)) => match spec_decode_expr(s, p2, cs, Map::empty(), limit) {
                        Ok((e, p3, bm)) => if p3 == s.len() {
                            Ok(e)
                        } else {
                            Err(CodecError::MalformedInput)
                        },
                        Err(er) => Err(er),
                    },
                    Err(er) => Err(er),
                }
            },
            None => Err(CodecError::MalformedInput),
        }
    } else {
        Err(CodecError::MalformedInput)
    }
}

/// Encodes one whole tree with fresh stores, created for this call and
/// discarded at its end.
pub fn serialize_tree(e: &Expr, segregate: bool, limit: u32) -> (r: Result<Vec<u8>, CodecError>)
    ensures
        match spec_serialize_tree(*e, segregate, limit as nat) {
            Ok(bytes) => match r {
                Ok(v) => v@ == bytes,
                Err(_) => false,
            },
            Err(er) => r == Err::<Vec<u8>, CodecError>(er),
        },
{
    let mut cs = ConstantStore::new();
    let mut bm = BindingTypeStore::new();
    let mut body = ByteWriter::new();
    match encode_expr(e, segregate, &mut cs, &mut bm, &mut body, limit) {
        Ok(()) => {},
        Err(er) => {
            return Err(er);
        },
    }
    let ghost spec_body = spec_encode_expr(
        *e,
        segregate,
        Seq::empty(),
        Map::empty(),
        limit as nat,
    ).unwrap().0;
    let mut out = ByteWriter::new();
    if segregate {
        out.write_u8(1);
        let n = cs.len();
        out.write_varint(n as u64);
        proof {
            assert(out.bytes@ =~= seq![1u8] + varint_bytes(cs@.len()));
        }
        let mut i: usize = 0;
        while i < n
            invariant
                n == cs@.len(),
                i <= n,
                out.bytes@ == seq![1u8] + varint_bytes(cs@.len()) + consts_bytes(
                    cs@.take(i as int),
                ),
            decreases n - i,
        {
            let c = match cs.get(i) {
                Ok(c) => c,
                Err(er) => {
                    return Err(er);
                },
            };
            encode_const(&c, &mut out);
            proof {
                assert(cs@.take(i + 1) =~= cs@.take(i as int).push(cs@[i as int]));
                lemma_consts_bytes_push(cs@.take(i as int), cs@[i as int]);
                assert(out.bytes@ =~= seq![1u8] + varint_bytes(cs@.len()) + consts_bytes(
                    cs@.take(i + 1),
                ));
            }
            i = i + 1;
        }
        proof {
            assert(cs@.take(n as int) =~= cs@);
        }
        out.write_bytes(body.bytes.as_slice());
        proof {
            assert(out.bytes@ =~= seq![1u8] + varint_bytes(cs@.len()) + consts_bytes(cs@)
                + spec_body);
        }
        Ok(out.into_bytes())
    } else {
        out.write_u8(0);
        out.write_bytes(body.bytes.as_slice());
        proof {
            assert(out.bytes@ =~= seq![0u8] + spec_body);
        }
        Ok(out.into_bytes())
    }
}

/// Decodes one whole tree with fresh stores, created for this call and
/// discarded at its end. Decode never panics on malformed input: every
/// failure is a typed error, and any failure at any depth aborts the whole
/// operation.
#[verifier::loop_isolation(false)]
pub fn deserialize_tree(bytes: Vec<u8>, limit: u32) -> (r: Result<Expr, CodecError>)
    ensures
        match spec_deserialize_tree(bytes@, limit as nat) {
            Ok(e) => r == Ok::<Expr, CodecError>(e),
            Err(er) => r == Err::<Expr, CodecError>(er),
        },
{
    let ghost s = bytes@;
    let mut rd = ByteReader::new(bytes, limit);
    let flag = match rd.read_u8() {
        Ok(b) => b,
        Err(er) => {
            return Err(er);
        },
    };
    if flag == 0 {
        let cs = ConstantStore::new();
        let mut bm = BindingTypeStore::new();
        let e = match decode_expr(&mut rd, &cs, &mut bm) {
            Ok(e) => e,
            Err(er) => {
                return Err(er);
            },
        };
        if rd.is_at_end() {
            Ok(e)
        } else {
            Err(CodecError::MalformedInput)
        }
    } else if flag == 1 {
        let count = match rd.read_varint() {
            Ok(v) => v,
            Err(er) => {
                return Err(er);
            },
        };
        proof {
            lemma_parse_varint_range(s, 1);
        }
        let remaining = rd.bytes.len() - rd.pos;
        if count > remaining as u64 {
            return Err(CodecError::MalformedInput);
        }
        let ghost p1 = rd.pos as int;
        let ghost count0 = count as nat;
        let mut cs = ConstantStore::new();
        let mut left = count;
        while left > 0
            invariant
                rd.bytes@ == s,
                rd.depth_left == limit,
                left <= count,
                ({
                    let full = spec_decode_consts(s, p1, count0);
                    match spec_decode_consts(s, rd.pos as int, left as nat) {
                        Ok((tail, p)) => full == Ok::<(Seq<Constant>, int), CodecError>(
                            (cs@ + tail, p),
                        ),
                        Err(er) => full == Err::<(Seq<Constant>, int), CodecError>(er),
                    }
                }),
            decreases left,
        {
            let ghost cs_before = cs@;
            let ghost pos_before = rd.pos as int;
            let c = match decode_const(&mut rd) {
                Ok(c) => c,
                Err(er) => {
                    return Err(er);
                },
            };
            cs.append(c);
            left = left - 1;
            proof {
                let rest = spec_decode_consts(s, rd.pos as int, left as nat);
                match rest {
                    Ok((tail, p)) => {
                        assert(cs_before + (seq![c] + tail) =~= cs@ + tail);
                    },
                    Err(_) => {},
                }
            }
        }
        proof {
            assert(cs@ + Seq::<Constant>::empty() =~= cs@);
        }
        let mut bm = BindingTypeStore::new();
        let e = match decode_expr(&mut rd, &cs, &mut bm) {
            Ok(e) => e,
            Err(er) => {
                return Err(er);
            },
        };
        if rd.is_at_end() {
            Ok(e)
        } else {
            Err(CodecError::MalformedInput)
        }
    } else {
        Err(CodecError::MalformedInput)
    }
}

} // verus!
