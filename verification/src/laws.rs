//! The protocol laws, proved over the codec's specification functions:
//! round-trip equality, the exactness of the depth guard, opcode totality,
//! and the agreement of the two encoding modes.

use vstd::prelude::*;

use crate::codec::{
    const_bytes, consts_bytes, spec_decode_const, spec_decode_consts, spec_decode_expr,
    spec_deserialize_tree, spec_encode_expr, spec_serialize_tree,
};
use crate::errors::CodecError;
use crate::expr::{expr_depth, Constant, Expr, TypeTag};
use crate::opcode::{
    lemma_opcode_table_bijective, spec_is_assigned_opcode, spec_type_code, OP_BIN_OP, OP_CONSTANT,
    OP_CONSTANT_PLACEHOLDER, OP_VAL_DEF, OP_VAL_USE,
};
use crate::vlq::{
    lemma_parse_varint_encode, lemma_varint_bytes_len, lemma_zigzag_roundtrip, parse_varint,
    varint_bytes, zigzag,
};

verus! {

/// The number of nodes in a tree; it bounds how far the constant store can
/// grow while the tree is encoded.
pub open spec fn expr_size(e: Expr) -> nat
    decreases e,
{
    match e {
        Expr::Constant(_) => 1,
        Expr::ValUse(_) => 1,
        Expr::ValDef { rhs, .. } => 1 + expr_size(*rhs),
        Expr::BinOp { left, right, .. } => 1 + expr_size(*left) + expr_size(*right),
    }
}

/// Encoding only appends to the constant store: the starting contents stay
/// in place, and at most one literal is added per node.
pub proof fn lemma_encode_cs_prefix(
    e: Expr,
    seg: bool,
    cs0: Seq<Constant>,
    bm0: Map<u32, TypeTag>,
    d: nat,
)
    requires
        spec_encode_expr(e, seg, cs0, bm0, d) is Ok,
    ensures
        ({
            let cs2 = spec_encode_expr(e, seg, cs0, bm0, d).unwrap().1;
            &&& cs0.len() <= cs2.len()
            &&& cs2.len() <= cs0.len() + expr_size(e)
            &&& forall|i: int| 0 <= i < cs0.len() ==> cs2[i] == cs0[i]
        }),
    decreases d,
{
    match e {
        Expr::Constant(_) => {},
        Expr::ValUse(_) => {},
        Expr::ValDef { id, tpe, rhs } => {
            lemma_encode_cs_prefix(*rhs, seg, cs0, bm0.insert(id, tpe), (d - 1) as nat);
        },
        Expr::BinOp { op, left, right } => {
            lemma_encode_cs_prefix(*left, seg, cs0, bm0, (d - 1) as nat);
            let mid = spec_encode_expr(*left, seg, cs0, bm0, (d - 1) as nat).unwrap();
            lemma_encode_cs_prefix(*right, seg, mid.1, mid.2, (d - 1) as nat);
        },
    }
}

/// A tree that encoded within depth budget `d` is nested at most `d` deep.
pub proof fn lemma_encode_depth(
    e: Expr,
    seg: bool,
    cs0: Seq<Constant>,
    bm0: Map<u32, TypeTag>,
    d: nat,
)
    requires
        spec_encode_expr(e, seg, cs0, bm0, d) is Ok,
    ensures
        expr_depth(e) <= d,
    decreases d,
{
    match e {
        Expr::Constant(_) => {},
        Expr::ValUse(_) => {},
        Expr::ValDef { id, tpe, rhs } => {
            lemma_encode_depth(*rhs, seg, cs0, bm0.insert(id, tpe), (d - 1) as nat);
        },
        Expr::BinOp { op, left, right } => {
            lemma_encode_depth(*left, seg, cs0, bm0, (d - 1) as nat);
            let mid = spec_encode_expr(*left, seg, cs0, bm0, (d - 1) as nat).unwrap();
            lemma_encode_depth(*right, seg, mid.1, mid.2, (d - 1) as nat);
        },
    }
}

/// Wherever a literal's wire form sits in a stream, the literal decoder
/// recovers exactly that literal and stops just past it.
pub proof fn lemma_decode_const_encoded(s: Seq<u8>, pos: int, c: Constant)
    requires
        0 <= pos,
        pos + const_bytes(c).len() <= s.len(),
        forall|i: int| 0 <= i < const_bytes(c).len() ==> s[pos + i] == const_bytes(c)[i],
    ensures
        spec_decode_const(s, pos) == Ok::<(Constant, int), CodecError>(
            (c, pos + const_bytes(c).len()),
        ),
{
    match c {
        Constant::Boolean(b) => {
            assert(s[pos + 0] == const_bytes(c)[0]);
            assert(s[pos + 1] == const_bytes(c)[1]);
        },
        Constant::Int(v) => {
            assert(s[pos + 0] == const_bytes(c)[0]);
            lemma_zigzag_roundtrip(v as i64);
            let enc = varint_bytes(zigzag(v as int));
            assert(forall|i: int| 0 <= i < enc.len() ==> #[trigger] s[pos + 1 + i] == enc[i]) by {
                assert(forall|i: int|
                    0 <= i < enc.len() ==> #[trigger] enc[i] == const_bytes(c)[i + 1]);
                assert(forall|i: int|
                    0 <= i < enc.len() ==> #[trigger] s[pos + 1 + i] == const_bytes(c)[i + 1]);
            }
            lemma_parse_varint_encode(s, pos + 1, zigzag(v as int) as u64);
        },
        Constant::Long(v) => {
            assert(s[pos + 0] == const_bytes(c)[0]);
            lemma_zigzag_roundtrip(v);
            let enc = varint_bytes(zigzag(v as int));
            assert(forall|i: int| 0 <= i < enc.len() ==> #[trigger] s[pos + 1 + i] == enc[i]) by {
                assert(forall|i: int|
                    0 <= i < enc.len() ==> #[trigger] enc[i] == const_bytes(c)[i + 1]);
                assert(forall|i: int|
                    0 <= i < enc.len() ==> #[trigger] s[pos + 1 + i] == const_bytes(c)[i + 1]);
            }
            lemma_parse_varint_encode(s, pos + 1, zigzag(v as int) as u64);
        },
    }
}

/// Wherever a whole store's wire form sits in a stream, reading that many
/// literals recovers exactly the store's contents.
pub proof fn lemma_decode_consts_encoded(s: Seq<u8>, pos: int, cs: Seq<Constant>)
    requires
        0 <= pos,
        pos + consts_bytes(cs).len() <= s.len(),
        forall|i: int| 0 <= i < consts_bytes(cs).len() ==> s[pos + i] == consts_bytes(cs)[i],
    ensures
        spec_decode_consts(s, pos, cs.len()) == Ok::<(Seq<Constant>, int), CodecError>(
            (cs, pos + consts_bytes(cs).len()),
        ),
    decreases cs.len(),
{
    if cs.len() == 0 {
        assert(cs =~= Seq::<Constant>::empty());
    } else {
        let c = cs.first();
        let rest = cs.drop_first();
        let cb = const_bytes(c);
        assert(consts_bytes(cs) == cb + consts_bytes(rest));
        assert(forall|i: int| 0 <= i < cb.len() ==> #[trigger] s[pos + i] == cb[i]) by {
            assert(forall|i: int| 0 <= i < cb.len() ==> #[trigger] consts_bytes(cs)[i] == cb[i]);
            assert(forall|i: int|
                0 <= i < cb.len() ==> #[trigger] s[pos + i] == consts_bytes(cs)[i]);
        }
        lemma_decode_const_encoded(s, pos, c);
        let p2 = pos + cb.len();
        assert(forall|i: int|
            0 <= i < consts_bytes(rest).len() ==> #[trigger] s[p2 + i] == consts_bytes(rest)[i])
            by {
            assert(forall|i: int|
                0 <= i < consts_bytes(rest).len() ==> #[trigger] consts_bytes(rest)[i]
                    == consts_bytes(cs)[i + cb.len()]);
            assert(forall|i: int|
                0 <= i < consts_bytes(rest).len() ==> #[trigger] s[p2 + i] == consts_bytes(cs)[i
                    + cb.len()]);
        }
        lemma_decode_consts_encoded(s, p2, rest);
        assert(seq![c] + rest =~= cs);
    }
}

/// Each literal's wire form takes at least two bytes, so a store's wire
/// form is at least as long as the store.
pub proof fn lemma_consts_bytes_len(cs: Seq<Constant>)
    ensures
        consts_bytes(cs).len() >= cs.len(),
    decreases cs.len(),
{
    if cs.len() > 0 {
        lemma_consts_bytes_len(cs.drop_first());
    }
}

/// The heart of the round trip: wherever the encoding of a tree sits in a
/// stream, decoding with any constant store that extends the encoder's
/// final store, the encoder's starting binding map, and depth budget `d2`
/// recovers exactly the tree when `d2` covers its depth, and fails with
/// `RecursionLimitExceeded` when it does not.
#[verifier::rlimit(100)]
#[verifier::spinoff_prover]
pub proof fn lemma_decode_encoded(
    e: Expr,
    seg: bool,
    cs0: Seq<Constant>,
    bm0: Map<u32, TypeTag>,
    d: nat,
    s: Seq<u8>,
    pos: int,
    cs_dec: Seq<Constant>,
    d2: nat,
)
    requires
        spec_encode_expr(e, seg, cs0, bm0, d) is Ok,
        0 <= pos,
        pos + spec_encode_expr(e, seg, cs0, bm0, d).unwrap().0.len() <= s.len(),
        forall|i: int|
            0 <= i < spec_encode_expr(e, seg, cs0, bm0, d).unwrap().0.len() ==> s[pos + i]
                == spec_encode_expr(e, seg, cs0, bm0, d).unwrap().0[i],
        spec_encode_expr(e, seg, cs0, bm0, d).unwrap().1.len() <= cs_dec.len(),
        forall|i: int|
            0 <= i < spec_encode_expr(e, seg, cs0, bm0, d).unwrap().1.len() ==> cs_dec[i]
                == spec_encode_expr(e, seg, cs0, bm0, d).unwrap().1[i],
        cs_dec.len() <= u64::MAX,
    ensures
        ({
            let enc = spec_encode_expr(e, seg, cs0, bm0, d).unwrap();
            &&& expr_depth(e) <= d2 ==> spec_decode_expr(s, pos, cs_dec, bm0, d2)
                == Ok::<(Expr, int, Map<u32, TypeTag>), CodecError>((e, pos + enc.0.len(), enc.2))
            &&& expr_depth(e) > d2 ==> spec_decode_expr(s, pos, cs_dec, bm0, d2)
                == Err::<(Expr, int, Map<u32, TypeTag>), CodecError>(
                CodecError::RecursionLimitExceeded,
            )
        }),
    decreases d,
{
    lemma_opcode_table_bijective();
    let enc = spec_encode_expr(e, seg, cs0, bm0, d).unwrap();
    let bytes = enc.0;
    if d2 == 0 {
        return;
    }
    match e {
        Expr::Constant(c) => {
            if seg {
                let idx_enc = varint_bytes(cs0.len());
                assert(bytes == seq![OP_CONSTANT_PLACEHOLDER] + idx_enc);
                assert(s[pos + 0] == bytes[0]);
                assert(s[pos] == OP_CONSTANT_PLACEHOLDER);
                assert(forall|i: int|
                    0 <= i < idx_enc.len() ==> #[trigger] s[pos + 1 + i] == idx_enc[i]) by {
                    assert(forall|i: int|
                        0 <= i < idx_enc.len() ==> #[trigger] idx_enc[i] == bytes[i + 1]);
                    assert(forall|i: int|
                        0 <= i < idx_enc.len() ==> #[trigger] s[pos + 1 + i] == bytes[i + 1]);
                }
                assert(cs0.len() < cs_dec.len());
                lemma_parse_varint_encode(s, pos + 1, cs0.len() as u64);
                assert(cs_dec[cs0.len() as int] == enc.1[cs0.len() as int]);
                assert(enc.1[cs0.len() as int] == c);
            } else {
                let cb = const_bytes(c);
                assert(bytes == seq![OP_CONSTANT] + cb);
                assert(s[pos + 0] == bytes[0]);
                assert(s[pos] == OP_CONSTANT);
                assert(forall|i: int| 0 <= i < cb.len() ==> #[trigger] s[pos + 1 + i] == cb[i])
                    by {
                    assert(forall|i: int| 0 <= i < cb.len() ==> #[trigger] cb[i] == bytes[i + 1]);
                    assert(forall|i: int|
                        0 <= i < cb.len() ==> #[trigger] s[pos + 1 + i] == bytes[i + 1]);
                }
                lemma_decode_const_encoded(s, pos + 1, c);
            }
        },
        Expr::ValUse(id) => {
            let id_enc = varint_bytes(id as nat);
            assert(bytes == seq![OP_VAL_USE] + id_enc);
            assert(s[pos + 0] == bytes[0]);
            assert(s[pos] == OP_VAL_USE);
            assert(forall|i: int| 0 <= i < id_enc.len() ==> #[trigger] s[pos + 1 + i] == id_enc[i])
                by {
                assert(forall|i: int|
                    0 <= i < id_enc.len() ==> #[trigger] id_enc[i] == bytes[i + 1]);
                assert(forall|i: int|
                    0 <= i < id_enc.len() ==> #[trigger] s[pos + 1 + i] == bytes[i + 1]);
            }
            lemma_parse_varint_encode(s, pos + 1, id as u64);
        },
        Expr::ValDef { id, tpe, rhs } => {
            let id_enc = varint_bytes(id as nat);
            let rb = spec_encode_expr(*rhs, seg, cs0, bm0.insert(id, tpe), (d - 1) as nat).unwrap();
            assert(bytes == seq![OP_VAL_DEF] + id_enc + seq![spec_type_code(tpe)] + rb.0);
            assert(s[pos + 0] == bytes[0]);
            assert(s[pos] == OP_VAL_DEF);
            assert(forall|i: int| 0 <= i < id_enc.len() ==> #[trigger] s[pos + 1 + i] == id_enc[i])
                by {
                assert(forall|i: int|
                    0 <= i < id_enc.len() ==> #[trigger] id_enc[i] == bytes[i + 1]);
                assert(forall|i: int|
                    0 <= i < id_enc.len() ==> #[trigger] s[pos + 1 + i] == bytes[i + 1]);
            }
            lemma_parse_varint_encode(s, pos + 1, id as u64);
            let p1 = pos + 1 + id_enc.len();
            assert(s[pos + (1 + id_enc.len() as int)] == bytes[1 + id_enc.len() as int]);
            assert(s[p1] == spec_type_code(tpe));
            let p_rhs = p1 + 1;
            assert(forall|i: int| 0 <= i < rb.0.len() ==> #[trigger] s[p_rhs + i] == rb.0[i]) by {
                assert(forall|i: int|
                    0 <= i < rb.0.len() ==> #[trigger] rb.0[i] == bytes[i + 2 + id_enc.len()]);
                assert(forall|i: int|
                    0 <= i < rb.0.len() ==> #[trigger] s[pos + (i + 2 + id_enc.len())] == bytes[i
                        + 2 + id_enc.len()]);
                assert(forall|i: int|
                    0 <= i < rb.0.len() ==> #[trigger] s[p_rhs + i] == bytes[i + 2
                        + id_enc.len()]);
            }
            lemma_decode_encoded(
                *rhs,
                seg,
                cs0,
                bm0.insert(id, tpe),
                (d - 1) as nat,
                s,
                p_rhs,
                cs_dec,
                (d2 - 1) as nat,
            );
            assert(expr_depth(e) == 1 + expr_depth(*rhs));
        },
        Expr::BinOp { op, left, right } => {
            let lres = spec_encode_expr(*left, seg, cs0, bm0, (d - 1) as nat).unwrap();
            let rres = spec_encode_expr(*right, seg, lres.1, lres.2, (d - 1) as nat).unwrap();
            assert(bytes == seq![OP_BIN_OP, crate::opcode::spec_bin_op_code(op)] + lres.0 + rres.0);
            assert(s[pos + 0] == bytes[0]);
            assert(s[pos + 1] == bytes[1]);
            assert(s[pos] == OP_BIN_OP);
            let p_l = pos + 2;
            assert(forall|i: int| 0 <= i < lres.0.len() ==> #[trigger] s[p_l + i] == lres.0[i])
                by {
                assert(forall|i: int|
                    0 <= i < lres.0.len() ==> #[trigger] lres.0[i] == bytes[i + 2]);
                assert(forall|i: int|
                    0 <= i < lres.0.len() ==> #[trigger] s[pos + (i + 2)] == bytes[i + 2]);
                assert(forall|i: int|
                    0 <= i < lres.0.len() ==> #[trigger] s[p_l + i] == bytes[i + 2]);
            }
            // The left child's final store is a prefix of the whole node's
            // final store, which `cs_dec` extends.
            lemma_encode_cs_prefix(*right, seg, lres.1, lres.2, (d - 1) as nat);
            assert(forall|i: int| 0 <= i < lres.1.len() ==> #[trigger] cs_dec[i] == lres.1[i]) by {
                assert(forall|i: int| 0 <= i < lres.1.len() ==> #[trigger] rres.1[i] == lres.1[i]);
                assert(forall|i: int| 0 <= i < lres.1.len() ==> #[trigger] cs_dec[i] == rres.1[i]);
            }
            lemma_decode_encoded(
                *left,
                seg,
                cs0,
                bm0,
                (d - 1) as nat,
                s,
                p_l,
                cs_dec,
                (d2 - 1) as nat,
            );
            let p_r = p_l + lres.0.len();
            assert(forall|i: int| 0 <= i < rres.0.len() ==> #[trigger] s[p_r + i] == rres.0[i])
                by {
                assert(forall|i: int|
                    0 <= i < rres.0.len() ==> #[trigger] rres.0[i] == bytes[i + 2
                        + lres.0.len()]);
                assert(forall|i: int|
                    0 <= i < rres.0.len() ==> #[trigger] s[pos + (i + 2 + lres.0.len())] == bytes[i
                        + 2 + lres.0.len()]);
                assert(forall|i: int|
                    0 <= i < rres.0.len() ==> #[trigger] s[p_r + i] == bytes[i + 2
                        + lres.0.len()]);
            }
            lemma_decode_encoded(
                *right,
                seg,
                lres.1,
                lres.2,
                (d - 1) as nat,
                s,
                p_r,
                cs_dec,
                (d2 - 1) as nat,
            );
            let dl = expr_depth(*left);
            let dr = expr_depth(*right);
            assert(expr_depth(e) == 1 + if dl >= dr {
                dl
            } else {
                dr
            });
        },
    }
}


/// Inline encoding never touches the constant store.
pub proof fn lemma_encode_inline_cs(e: Expr, cs0: Seq<Constant>, bm0: Map<u32, TypeTag>, d: nat)
    requires
        spec_encode_expr(e, false, cs0, bm0, d) is Ok,
    ensures
        spec_encode_expr(e, false, cs0, bm0, d).unwrap().1 == cs0,
    decreases d,
{
    match e {
        Expr::Constant(_) => {},
        Expr::ValUse(_) => {},
        Expr::ValDef { id, tpe, rhs } => {
            lemma_encode_inline_cs(*rhs, cs0, bm0.insert(id, tpe), (d - 1) as nat);
        },
        Expr::BinOp { op, left, right } => {
            lemma_encode_inline_cs(*left, cs0, bm0, (d - 1) as nat);
            let mid = spec_encode_expr(*left, false, cs0, bm0, (d - 1) as nat).unwrap();
            lemma_encode_inline_cs(*right, mid.1, mid.2, (d - 1) as nat);
        },
    }
}

/// The depth guard is exact: a stream that a tree encoded into decodes to
/// that tree under any depth limit covering the tree's nesting, and fails
/// with `RecursionLimitExceeded` under any limit one short of it or less.
/// In particular a tree exactly at the limit succeeds and a tree one level
/// deeper fails.
#[verifier::rlimit(100)]
#[verifier::spinoff_prover]
pub proof fn lemma_deserialize_depth_guard(e: Expr, seg: bool, limit: nat, limit2: nat)
    requires
        spec_serialize_tree(e, seg, limit) is Ok,
        expr_size(e) <= u64::MAX,
    ensures
        limit2 >= expr_depth(e) ==> spec_deserialize_tree(
            spec_serialize_tree(e, seg, limit).unwrap(),
            limit2,
        ) == Ok::<Expr, CodecError>(e),
        limit2 < expr_depth(e) ==> spec_deserialize_tree(
            spec_serialize_tree(e, seg, limit).unwrap(),
            limit2,
        ) == Err::<Expr, CodecError>(CodecError::RecursionLimitExceeded),
{
    let enc = spec_encode_expr(e, seg, Seq::empty(), Map::empty(), limit).unwrap();
    let body = enc.0;
    let cs = enc.1;
    lemma_encode_cs_prefix(e, seg, Seq::empty(), Map::empty(), limit);
    if seg {
        let vb = varint_bytes(cs.len());
        let cb = consts_bytes(cs);
        let s = spec_serialize_tree(e, seg, limit).unwrap();
        assert(s == seq![1u8] + vb + cb + body);
        assert(s[0] == 1);
        assert(forall|i: int| 0 <= i < vb.len() ==> #[trigger] s[1 + i] == vb[i]);
        lemma_varint_bytes_len(cs.len());
        lemma_parse_varint_encode(s, 1, cs.len() as u64);
        let p1 = 1 + vb.len() as int;
        lemma_consts_bytes_len(cs);
        assert(forall|i: int| 0 <= i < cb.len() ==> #[trigger] s[p1 + i] == cb[i]);
        lemma_decode_consts_encoded(s, p1, cs);
        let p2 = p1 + cb.len() as int;
        assert(forall|i: int| 0 <= i < body.len() ==> #[trigger] s[p2 + i] == body[i]);
        lemma_decode_encoded(
            e,
            seg,
            Seq::empty(),
            Map::empty(),
            limit,
            s,
            p2,
            cs,
            limit2,
        );
        assert(p2 + body.len() == s.len());
    } else {
        let s = spec_serialize_tree(e, seg, limit).unwrap();
        assert(s == seq![0u8] + body);
        assert(s[0] == 0);
        lemma_encode_inline_cs(e, Seq::empty(), Map::empty(), limit);
        assert(cs.len() == 0);
        assert(forall|i: int| 0 <= i < body.len() ==> #[trigger] s[1 + i] == body[i]);
        lemma_decode_encoded(
            e,
            seg,
            Seq::empty(),
            Map::empty(),
            limit,
            s,
            1,
            Seq::empty(),
            limit2,
        );
        assert(1 + body.len() == s.len());
    }
}

/// Round trip: decoding the encoding of any tree that encodes successfully,
/// in either mode and under the same depth limit, reproduces the tree.
pub proof fn lemma_round_trip(e: Expr, seg: bool, limit: nat)
    requires
        spec_serialize_tree(e, seg, limit) is Ok,
        expr_size(e) <= u64::MAX,
    ensures
        spec_deserialize_tree(spec_serialize_tree(e, seg, limit).unwrap(), limit)
            == Ok::<Expr, CodecError>(e),
{
    lemma_encode_depth(e, seg, Seq::empty(), Map::empty(), limit);
    lemma_deserialize_depth_guard(e, seg, limit, limit);
}

/// Opcode totality: a tree stream whose first node byte was never assigned
/// as an opcode always fails with `UnknownOpCode`, whatever follows it.
pub proof fn lemma_unknown_opcode(s: Seq<u8>, limit: nat)
    requires
        s.len() >= 2,
        s[0] == 0,
        !spec_is_assigned_opcode(s[1]),
        limit >= 1,
    ensures
        spec_deserialize_tree(s, limit) == Err::<Expr, CodecError>(CodecError::UnknownOpCode),
{
}

/// Opcode totality holds in segregated mode too: in a stream whose
/// constant section parses, a node stream opening with a byte never
/// assigned as an opcode always fails with `UnknownOpCode`, whatever
/// follows it.
pub proof fn lemma_unknown_opcode_segregated(s: Seq<u8>, limit: nat)
    requires
        s.len() >= 1,
        s[0] == 1,
        limit >= 1,
        parse_varint(s, 1) is Some,
        ({
            let (count, p1) = parse_varint(s, 1).unwrap();
            &&& count as int <= s.len() - p1
            &&& spec_decode_consts(s, p1, count as nat) is Ok
            &&& ({
                let (cs, p2) = spec_decode_consts(s, p1, count as nat).unwrap();
                0 <= p2 < s.len() && !spec_is_assigned_opcode(s[p2])
            })
        }),
    ensures
        spec_deserialize_tree(s, limit) == Err::<Expr, CodecError>(CodecError::UnknownOpCode),
{
}

/// The two encoding modes agree: whenever one tree encodes in both inline
/// and segregated mode, both streams decode to the same, original tree.
pub proof fn lemma_modes_agree(e: Expr, limit: nat)
    requires
        spec_serialize_tree(e, false, limit) is Ok,
        spec_serialize_tree(e, true, limit) is Ok,
        expr_size(e) <= u64::MAX,
    ensures
        spec_deserialize_tree(spec_serialize_tree(e, false, limit).unwrap(), limit)
            == Ok::<Expr, CodecError>(e),
        spec_deserialize_tree(spec_serialize_tree(e, true, limit).unwrap(), limit)
            == Ok::<Expr, CodecError>(e),
{
    lemma_round_trip(e, false, limit);
    lemma_round_trip(e, true, limit);
}


/// The binding discipline of a tree: walking it in serialization order,
/// every declared id must be fresh and every used id must have been
/// declared. The result is the set of ids declared after the walk, or
/// nothing when the discipline is broken.
pub open spec fn check_bindings(e: Expr, declared: Set<u32>) -> Option<Set<u32>>
    decreases e,
{
    match e {
        Expr::Constant(_) => Some(declared),
        Expr::ValUse(id) => if declared.contains(id) {
            Some(declared)
        } else {
            None
        },
        Expr::ValDef { id, tpe, rhs } => if declared.contains(id) {
            None
        } else {
            check_bindings(*rhs, declared.insert(id))
        },
        Expr::BinOp { op, left, right } => match check_bindings(*left, declared) {
            Some(d1) => check_bindings(*right, d1),
            None => None,
        },
    }
}

/// Encoding a well-formed in-memory tree always succeeds: a failure there
/// indicates a defect in the producing code, not adversarial input. A tree
/// is well formed when its nesting fits the depth budget and its bindings
/// keep the declare-before-use, declare-once discipline.
pub proof fn lemma_encode_total(
    e: Expr,
    seg: bool,
    cs0: Seq<Constant>,
    bm0: Map<u32, TypeTag>,
    d: nat,
)
    requires
        expr_depth(e) <= d,
        check_bindings(e, bm0.dom()) is Some,
    ensures
        spec_encode_expr(e, seg, cs0, bm0, d) is Ok,
        spec_encode_expr(e, seg, cs0, bm0, d).unwrap().2.dom() == check_bindings(
            e,
            bm0.dom(),
        ).unwrap(),
    decreases e,
{
    match e {
        Expr::Constant(_) => {},
        Expr::ValUse(_) => {},
        Expr::ValDef { id, tpe, rhs } => {
            assert(bm0.insert(id, tpe).dom() =~= bm0.dom().insert(id));
            lemma_encode_total(*rhs, seg, cs0, bm0.insert(id, tpe), (d - 1) as nat);
        },
        Expr::BinOp { op, left, right } => {
            lemma_encode_total(*left, seg, cs0, bm0, (d - 1) as nat);
            let mid = spec_encode_expr(*left, seg, cs0, bm0, (d - 1) as nat).unwrap();
            lemma_encode_total(*right, seg, mid.1, mid.2, (d - 1) as nat);
        },
    }
}

/// A whole well-formed tree serializes successfully in either mode.
pub proof fn lemma_serialize_total(e: Expr, seg: bool, limit: nat)
    requires
        expr_depth(e) <= limit,
        check_bindings(e, Set::empty()) is Some,
    ensures
        spec_serialize_tree(e, seg, limit) is Ok,
{
    assert(Map::<u32, TypeTag>::empty().dom() =~= Set::<u32>::empty());
    lemma_encode_total(e, seg, Seq::empty(), Map::empty(), limit);
}


/// The total length of the index references a segregated encoding writes
/// for the constants appended while the store grows from `from` to `to`
/// entries.
pub open spec fn idx_ref_lens(from: nat, to: nat) -> nat
    decreases to - from,
{
    if from >= to {
        0
    } else {
        varint_bytes(from).len() + idx_ref_lens(from + 1, to)
    }
}

proof fn lemma_idx_ref_lens_concat(a: nat, b: nat, c: nat)
    requires
        a <= b <= c,
    ensures
        idx_ref_lens(a, b) + idx_ref_lens(b, c) == idx_ref_lens(a, c),
    decreases b - a,
{
    if a < b {
        lemma_idx_ref_lens_concat(a + 1, b, c);
    }
}

/// How the two modes' body lengths relate: the inline body carries each
/// literal's bytes where the segregated body carries an index reference,
/// and the literal's bytes move to the store section.
proof fn lemma_mode_body_lengths(
    e: Expr,
    cs_i: Seq<Constant>,
    cs_s: Seq<Constant>,
    bm0: Map<u32, TypeTag>,
    d: nat,
)
    requires
        spec_encode_expr(e, false, cs_i, bm0, d) is Ok,
        spec_encode_expr(e, true, cs_s, bm0, d) is Ok,
    ensures
        ({
            let bi = spec_encode_expr(e, false, cs_i, bm0, d).unwrap();
            let bs = spec_encode_expr(e, true, cs_s, bm0, d).unwrap();
            &&& bi.0.len() + idx_ref_lens(cs_s.len(), bs.1.len()) + consts_bytes(cs_s).len()
                == bs.0.len() + consts_bytes(bs.1).len()
            &&& bi.2 == bs.2
        }),
    decreases d,
{
    let bi = spec_encode_expr(e, false, cs_i, bm0, d).unwrap();
    let bs = spec_encode_expr(e, true, cs_s, bm0, d).unwrap();
    match e {
        Expr::Constant(c) => {
            crate::codec::lemma_consts_bytes_push(cs_s, c);
            assert(idx_ref_lens(cs_s.len() + 1, cs_s.len() + 1) == 0);
            assert(idx_ref_lens(cs_s.len(), cs_s.len() + 1) == varint_bytes(cs_s.len()).len());
        },
        Expr::ValUse(_) => {
            assert(idx_ref_lens(cs_s.len(), cs_s.len()) == 0);
        },
        Expr::ValDef { id, tpe, rhs } => {
            lemma_mode_body_lengths(*rhs, cs_i, cs_s, bm0.insert(id, tpe), (d - 1) as nat);
        },
        Expr::BinOp { op, left, right } => {
            lemma_mode_body_lengths(*left, cs_i, cs_s, bm0, (d - 1) as nat);
            let li = spec_encode_expr(*left, false, cs_i, bm0, (d - 1) as nat).unwrap();
            let ls = spec_encode_expr(*left, true, cs_s, bm0, (d - 1) as nat).unwrap();
            lemma_mode_body_lengths(*right, li.1, ls.1, ls.2, (d - 1) as nat);
            lemma_encode_cs_prefix(*left, true, cs_s, bm0, (d - 1) as nat);
            lemma_encode_cs_prefix(*right, true, ls.1, ls.2, (d - 1) as nat);
            lemma_idx_ref_lens_concat(cs_s.len(), ls.1.len(), bs.1.len());
        },
    }
}

/// Segregation always costs bytes: whenever one tree encodes in both
/// modes, the segregated stream is strictly longer than the inline one,
/// by the store count and one index reference per literal.
pub proof fn lemma_segregated_stream_longer(e: Expr, limit: nat)
    requires
        spec_serialize_tree(e, false, limit) is Ok,
        spec_serialize_tree(e, true, limit) is Ok,
    ensures
        spec_serialize_tree(e, true, limit).unwrap().len() > spec_serialize_tree(
            e,
            false,
            limit,
        ).unwrap().len(),
{
    let bi = spec_encode_expr(e, false, Seq::empty(), Map::empty(), limit).unwrap();
    let bs = spec_encode_expr(e, true, Seq::empty(), Map::empty(), limit).unwrap();
    lemma_mode_body_lengths(e, Seq::empty(), Seq::empty(), Map::empty(), limit);
    assert(consts_bytes(Seq::<Constant>::empty()).len() == 0);
    lemma_varint_bytes_len(0);
    lemma_encode_cs_prefix(e, true, Seq::empty(), Map::empty(), limit);
    assert(varint_bytes(bs.1.len()).len() >= 1) by {
        if bs.1.len() < 128 {
        }
    }
}

} // verus!
