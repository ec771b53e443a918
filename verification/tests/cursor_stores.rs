use ergotree_codec::binding_store::BindingTypeStore;
use ergotree_codec::collection::Collection;
use ergotree_codec::constant_store::ConstantStore;
use ergotree_codec::cursor::{ByteReader, ByteWriter};
use ergotree_codec::errors::CodecError;
use ergotree_codec::expr::{Constant, TypeTag};

#[test]
fn varint_round_trips() {
    for v in [0u64, 1, 127, 128, 129, 300, 16383, 16384, u64::MAX - 1, u64::MAX] {
        let mut w = ByteWriter::new();
        w.write_varint(v);
        let mut rd = ByteReader::new(w.into_bytes(), 0);
        assert_eq!(rd.read_varint(), Ok(v));
        assert!(rd.is_at_end());
    }
}

#[test]
fn varint_small_values_take_one_byte() {
    let mut w = ByteWriter::new();
    w.write_varint(127);
    assert_eq!(w.bytes, vec![127u8]);
    let mut w2 = ByteWriter::new();
    w2.write_varint(128);
    assert_eq!(w2.bytes, vec![0x80u8, 0x01u8]);
}

#[test]
fn signed_varint_round_trips() {
    for v in [0i64, 1, -1, 2, -2, 63, -64, i64::MIN, i64::MAX] {
        let mut w = ByteWriter::new();
        w.write_signed_varint(v);
        let mut rd = ByteReader::new(w.into_bytes(), 0);
        assert_eq!(rd.read_signed_varint(), Ok(v));
    }
}

#[test]
fn signed_varint_zigzag_keeps_small_magnitudes_compact() {
    for v in [0i64, 1, -1, 63, -64] {
        let mut w = ByteWriter::new();
        w.write_signed_varint(v);
        assert_eq!(w.bytes.len(), 1);
    }
}

#[test]
fn reader_rejects_truncated_input() {
    let mut rd = ByteReader::new(vec![], 0);
    assert_eq!(rd.read_u8(), Err(CodecError::MalformedInput));
    let mut rd2 = ByteReader::new(vec![0x80u8, 0x80u8], 0);
    assert_eq!(rd2.read_varint(), Err(CodecError::MalformedInput));
    let mut rd3 = ByteReader::new(vec![1u8, 2u8], 0);
    assert_eq!(rd3.read_bytes(3), Err(CodecError::MalformedInput));
}

#[test]
fn reader_rejects_oversized_varint() {
    // Eleven continuation bytes can never denote a 64-bit value.
    let mut rd = ByteReader::new(vec![0xFFu8; 11], 0);
    assert_eq!(rd.read_varint(), Err(CodecError::MalformedInput));
    // Ten bytes whose last group is too large overflow as well.
    let mut bytes = vec![0x80u8; 9];
    bytes.push(2u8);
    let mut rd2 = ByteReader::new(bytes, 0);
    assert_eq!(rd2.read_varint(), Err(CodecError::MalformedInput));
}

#[test]
fn reader_reads_bytes_and_tracks_position() {
    let mut rd = ByteReader::new(vec![10u8, 20u8, 30u8], 0);
    assert_eq!(rd.read_bytes(2), Ok(vec![10u8, 20u8]));
    assert!(!rd.is_at_end());
    assert_eq!(rd.read_u8(), Ok(30u8));
    assert!(rd.is_at_end());
}

#[test]
fn reader_depth_budget_guards_recursion() {
    let mut rd = ByteReader::new(vec![], 2);
    assert_eq!(rd.enter_node(), Ok(()));
    assert_eq!(rd.enter_node(), Ok(()));
    assert_eq!(rd.enter_node(), Err(CodecError::RecursionLimitExceeded));
    rd.leave_node();
    assert_eq!(rd.enter_node(), Ok(()));
}

#[test]
fn constant_store_appends_in_order() {
    let mut cs = ConstantStore::new();
    assert_eq!(cs.len(), 0);
    assert_eq!(cs.append(Constant::Int(5)), 0);
    assert_eq!(cs.append(Constant::Boolean(true)), 1);
    // Identical values are not deduplicated.
    assert_eq!(cs.append(Constant::Int(5)), 2);
    assert_eq!(cs.get(0), Ok(Constant::Int(5)));
    assert_eq!(cs.get(2), Ok(Constant::Int(5)));
    assert_eq!(cs.get(3), Err(CodecError::ValueOutOfRange));
    cs.reset();
    assert_eq!(cs.len(), 0);
    assert_eq!(cs.get(0), Err(CodecError::ValueOutOfRange));
}

#[test]
fn binding_store_declares_once() {
    let mut bm = BindingTypeStore::new();
    assert_eq!(bm.lookup(1), Err(CodecError::UnresolvedBinding));
    assert_eq!(bm.declare(1, TypeTag::Int), Ok(()));
    assert_eq!(bm.lookup(1), Ok(TypeTag::Int));
    assert_eq!(bm.declare(1, TypeTag::Long), Err(CodecError::DuplicateBinding));
    // The failed declaration left the store unchanged.
    assert_eq!(bm.lookup(1), Ok(TypeTag::Int));
    assert_eq!(bm.declare(2, TypeTag::Boolean), Ok(()));
    assert_eq!(bm.lookup(2), Ok(TypeTag::Boolean));
}

#[test]
fn collection_contract() {
    let mut c: Collection<i64> = Collection::new();
    assert_eq!(c.len(), 0);
    assert_eq!(c.get(0), Err(CodecError::ValueOutOfRange));
    c.add(10);
    c.add(20);
    assert_eq!(c.len(), 2);
    assert_eq!(c.get(0), Ok(&10));
    assert_eq!(c.get(1), Ok(&20));
    assert_eq!(c.get(2), Err(CodecError::ValueOutOfRange));
    c.delete();
}
