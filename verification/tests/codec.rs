use ergotree_codec::codec::{decode_expr, deserialize_tree, encode_expr, serialize_tree};
use ergotree_codec::binding_store::BindingTypeStore;
use ergotree_codec::constant_store::ConstantStore;
use ergotree_codec::cursor::{ByteReader, ByteWriter};
use ergotree_codec::errors::CodecError;
use ergotree_codec::expr::{BinOpKind, Constant, Expr, TypeTag};

fn int_lit(v: i32) -> Expr {
    Expr::Constant(Constant::Int(v))
}

fn sample_tree() -> Expr {
    // A binding whose body both uses it and mixes operators: one tree
    // exercising every node kind.
    Expr::ValDef {
        id: 7,
        tpe: TypeTag::Int,
        rhs: Box::new(Expr::BinOp {
            op: BinOpKind::Plus,
            left: Box::new(int_lit(1)),
            right: Box::new(Expr::BinOp {
                op: BinOpKind::Multiply,
                left: Box::new(Expr::ValUse(7)),
                right: Box::new(int_lit(-300)),
            }),
        }),
    }
}

#[test]
fn encode_int_literal_42_exact_bytes() {
    // A single integer literal encodes as opcode(Constant), type tag (Int),
    // then the zig-zag variable-length form of 42, which is 84.
    let mut cs = ConstantStore::new();
    let mut bm = BindingTypeStore::new();
    let mut w = ByteWriter::new();
    let r = encode_expr(&int_lit(42), false, &mut cs, &mut bm, &mut w, 16);
    assert_eq!(r, Ok(()));
    assert_eq!(w.bytes, vec![1u8, 4u8, 84u8]);
}

#[test]
fn decode_int_literal_42_exact_bytes() {
    let mut rd = ByteReader::new(vec![1u8, 4u8, 84u8], 16);
    let cs = ConstantStore::new();
    let mut bm = BindingTypeStore::new();
    let r = decode_expr(&mut rd, &cs, &mut bm);
    assert_eq!(r, Ok(int_lit(42)));
}

#[test]
fn tree_round_trip_inline() {
    let t = sample_tree();
    let bytes = serialize_tree(&t, false, 16).unwrap();
    assert_eq!(deserialize_tree(bytes, 16), Ok(sample_tree()));
}

#[test]
fn tree_round_trip_segregated() {
    let t = sample_tree();
    let bytes = serialize_tree(&t, true, 16).unwrap();
    assert_eq!(deserialize_tree(bytes, 16), Ok(sample_tree()));
}

#[test]
fn round_trip_boolean_and_long() {
    for c in [
        Constant::Boolean(true),
        Constant::Boolean(false),
        Constant::Long(0),
        Constant::Long(-1),
        Constant::Long(i64::MIN),
        Constant::Long(i64::MAX),
        Constant::Int(i32::MIN),
        Constant::Int(i32::MAX),
    ] {
        let t = Expr::Constant(c);
        let bytes = serialize_tree(&t, false, 4).unwrap();
        assert_eq!(deserialize_tree(bytes, 4), Ok(Expr::Constant(c)));
    }
}

#[test]
fn modes_differ_in_length_but_agree_in_tree() {
    let t = Expr::BinOp {
        op: BinOpKind::Plus,
        left: Box::new(int_lit(1)),
        right: Box::new(int_lit(1)),
    };
    let inline = serialize_tree(&t, false, 8).unwrap();
    let segregated = serialize_tree(&t, true, 8).unwrap();
    assert_ne!(inline.len(), segregated.len());
    let a = deserialize_tree(inline, 8).unwrap();
    let b = deserialize_tree(segregated, 8).unwrap();
    assert_eq!(a, b);
}

#[test]
fn depth_exactly_at_limit_succeeds() {
    // sample_tree nests ValDef -> BinOp -> BinOp -> leaf: depth 4.
    let t = sample_tree();
    let bytes = serialize_tree(&t, false, 64).unwrap();
    assert_eq!(deserialize_tree(bytes, 4), Ok(sample_tree()));
}

#[test]
fn depth_one_past_limit_fails() {
    let t = sample_tree();
    let bytes = serialize_tree(&t, false, 64).unwrap();
    assert_eq!(deserialize_tree(bytes, 3), Err(CodecError::RecursionLimitExceeded));
}

#[test]
fn encode_rejects_depth_past_limit() {
    let t = sample_tree();
    assert_eq!(serialize_tree(&t, false, 3), Err(CodecError::RecursionLimitExceeded));
}

#[test]
fn unknown_opcode_fails() {
    // 99 has never been assigned as an opcode.
    assert_eq!(deserialize_tree(vec![0u8, 99u8], 8), Err(CodecError::UnknownOpCode));
    assert_eq!(deserialize_tree(vec![0u8, 0u8], 8), Err(CodecError::UnknownOpCode));
}

#[test]
fn duplicate_binding_fails_decode() {
    // ValDef id 3 whose body declares id 3 again.
    let bytes = vec![0u8, 3u8, 3u8, 4u8, 3u8, 3u8];
    assert_eq!(deserialize_tree(bytes, 8), Err(CodecError::DuplicateBinding));
}

#[test]
fn duplicate_binding_fails_encode() {
    let t = Expr::ValDef {
        id: 3,
        tpe: TypeTag::Int,
        rhs: Box::new(Expr::ValDef { id: 3, tpe: TypeTag::Int, rhs: Box::new(int_lit(1)) }),
    };
    assert_eq!(serialize_tree(&t, false, 8), Err(CodecError::DuplicateBinding));
}

#[test]
fn unresolved_binding_fails_decode() {
    // ValUse of id 5 with no enclosing declaration.
    let bytes = vec![0u8, 4u8, 5u8];
    assert_eq!(deserialize_tree(bytes, 8), Err(CodecError::UnresolvedBinding));
}

#[test]
fn unresolved_binding_fails_encode() {
    let t = Expr::ValUse(5);
    assert_eq!(serialize_tree(&t, false, 8), Err(CodecError::UnresolvedBinding));
}

#[test]
fn malformed_inputs_fail() {
    // Empty stream.
    assert_eq!(deserialize_tree(vec![], 8), Err(CodecError::MalformedInput));
    // Unknown mode flag.
    assert_eq!(deserialize_tree(vec![7u8], 8), Err(CodecError::MalformedInput));
    // Constant cut off after its type tag.
    assert_eq!(deserialize_tree(vec![0u8, 1u8, 4u8], 8), Err(CodecError::MalformedInput));
    // A variable-length integer whose continuation never ends.
    assert_eq!(deserialize_tree(vec![0u8, 1u8, 4u8, 0x80u8], 8), Err(CodecError::MalformedInput));
    // Trailing bytes after a complete tree.
    assert_eq!(
        deserialize_tree(vec![0u8, 1u8, 4u8, 84u8, 0u8], 8),
        Err(CodecError::MalformedInput)
    );
    // A boolean payload other than zero or one.
    assert_eq!(deserialize_tree(vec![0u8, 1u8, 1u8, 9u8], 8), Err(CodecError::MalformedInput));
}

#[test]
fn placeholder_index_out_of_range_fails() {
    // Segregated stream declaring no constants but referencing index zero.
    let bytes = vec![1u8, 0u8, 2u8, 0u8];
    assert_eq!(deserialize_tree(bytes, 8), Err(CodecError::ValueOutOfRange));
}

#[test]
fn int_constant_out_of_range_fails() {
    // An Int-tagged constant carrying a value only a Long could hold:
    // zig-zag of 2^40 needs six bytes.
    let mut w = ByteWriter::new();
    w.write_u8(0);
    w.write_u8(1);
    w.write_u8(4);
    w.write_signed_varint(1i64 << 40);
    assert_eq!(deserialize_tree(w.into_bytes(), 8), Err(CodecError::ValueOutOfRange));
}

#[test]
fn binding_declared_in_left_sibling_is_visible_to_the_right() {
    // The store is populated in serialization order and never shrinks, so a
    // use after the declaring subtree resolves.
    let t = Expr::BinOp {
        op: BinOpKind::Plus,
        left: Box::new(Expr::ValDef {
            id: 1,
            tpe: TypeTag::Int,
            rhs: Box::new(int_lit(5)),
        }),
        right: Box::new(Expr::ValUse(1)),
    };
    let bytes = serialize_tree(&t, false, 8).unwrap();
    assert!(deserialize_tree(bytes, 8).is_ok());
}

#[test]
fn segregated_store_keeps_every_literal_in_order() {
    // Three literals of three types, one repeated: four store entries.
    let t = Expr::BinOp {
        op: BinOpKind::Minus,
        left: Box::new(Expr::BinOp {
            op: BinOpKind::Plus,
            left: Box::new(Expr::Constant(Constant::Boolean(true))),
            right: Box::new(Expr::Constant(Constant::Long(-5))),
        }),
        right: Box::new(Expr::BinOp {
            op: BinOpKind::Plus,
            left: Box::new(int_lit(9)),
            right: Box::new(int_lit(9)),
        }),
    };
    let bytes = serialize_tree(&t, true, 8).unwrap();
    // Mode flag, then the store count: four entries, not deduplicated.
    assert_eq!(bytes[0], 1);
    assert_eq!(bytes[1], 4);
    let decoded = deserialize_tree(bytes, 8).unwrap();
    assert_eq!(decoded, t);
}
