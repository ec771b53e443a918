use ergotree_codec::arena::{
    ids_equal, IrBoxId, IrErgoBox, IrErgoBoxArena, IrErgoBoxDummy, IrErgoBoxDummyArena,
};
use ergotree_codec::errors::CodecError;
use ergotree_codec::expr::Constant;
use ergotree_codec::header::{
    ADDigest, AutolykosSolution, BlockId, Digest32, Header, Votes,
};
use ergotree_codec::scalar::{
    decode_distance, decode_hex, encode_distance, encode_hex, format_distance, parse_distance,
    EcPoint, EC_POINT_SIZE,
};

fn sample_box(tag: u8, value: i64) -> IrErgoBoxDummy {
    IrErgoBoxDummy {
        id: IrBoxId::new([tag; 32]),
        value,
        tokens: vec![(vec![1i8; 32], 100)],
        additional_registers: vec![
            Constant::Int(0),
            Constant::Int(1),
            Constant::Int(2),
            Constant::Int(3),
            Constant::Boolean(true),
            Constant::Long(99),
        ],
        creation_height: 5,
        script_bytes: vec![0xAAu8, 0xBB],
    }
}

#[test]
fn arena_get_twice_returns_equal_views() {
    let arena = IrErgoBoxDummyArena(vec![
        (IrBoxId::new([1; 32]), sample_box(1, 1000)),
        (IrBoxId::new([2; 32]), sample_box(2, 2000)),
    ]);
    let id = IrBoxId::new([2; 32]);
    let first = arena.get(&id).unwrap();
    let second = arena.get(&id).unwrap();
    assert_eq!(first, second);
    assert_eq!(first.value, 2000);
}

#[test]
fn arena_absent_id_is_not_found() {
    let arena = IrErgoBoxDummyArena(vec![(IrBoxId::new([1; 32]), sample_box(1, 1000))]);
    let absent = IrBoxId::new([9; 32]);
    let err = arena.get(&absent).unwrap_err();
    assert_eq!(err.0, format!("IrErgoBox with id {} not found", "09".repeat(32)));
}

#[test]
fn get_box_resolves_through_an_arena() {
    let arena = IrErgoBoxDummyArena(vec![(IrBoxId::new([3; 32]), sample_box(3, 42))]);
    let id = IrBoxId::new([3; 32]);
    let b = id.get_box(&arena).unwrap();
    assert_eq!(b.creation_height(), 5);
    assert_eq!(b.script_bytes(), &vec![0xAAu8, 0xBB]);
    assert_eq!(b.tokens().len(), 1);
    assert_eq!(b.id(), &[3u8; 32]);
}

#[test]
fn register_zero_aliases_the_monetary_value() {
    // The additional-register list holds R4 first: element 0 is R4.
    let b = sample_box(1, 777);
    assert_eq!(b.get_register(0), Some(Constant::Long(777)));
    assert_eq!(b.get_register(4), Some(Constant::Int(0)));
    assert_eq!(b.get_register(5), Some(Constant::Int(1)));
    assert_eq!(b.get_register(8), Some(Constant::Boolean(true)));
    assert_eq!(b.get_register(9), Some(Constant::Long(99)));
    assert_eq!(b.get_register(1), None);
    assert_eq!(b.get_register(3), None);
    assert_eq!(b.get_register(10), None);
    assert_eq!(b.get_register(-1), None);
}

#[test]
fn registers_past_the_stored_list_are_absent() {
    let mut b = sample_box(1, 5);
    b.additional_registers = vec![Constant::Int(4)];
    assert_eq!(b.get_register(4), Some(Constant::Int(4)));
    assert_eq!(b.get_register(5), None);
    assert_eq!(b.get_register(9), None);
}

#[test]
fn ids_compare_by_contents() {
    assert!(ids_equal(&IrBoxId::new([7; 32]), &IrBoxId::new([7; 32])));
    assert!(!ids_equal(&IrBoxId::new([7; 32]), &IrBoxId::new([8; 32])));
}

#[test]
fn hex_codec_round_trips() {
    let bytes = vec![0x00u8, 0xAB, 0xFF, 0x10];
    let text = encode_hex(&bytes);
    assert_eq!(text, "00abff10");
    assert_eq!(decode_hex(&text), Ok(bytes));
    assert_eq!(encode_hex(&vec![]), "");
    assert_eq!(decode_hex(""), Ok(vec![]));
}

#[test]
fn hex_codec_rejects_malformed_text() {
    assert_eq!(decode_hex("abc"), Err(CodecError::MalformedInput));
    assert_eq!(decode_hex("zz"), Err(CodecError::MalformedInput));
    assert_eq!(decode_hex("AB"), Err(CodecError::MalformedInput));
}

#[test]
fn distance_codec_round_trips() {
    for v in [0u64, 1, 9, 10, 42, u64::MAX - 1, u64::MAX] {
        let text = format_distance(v);
        assert_eq!(parse_distance(&text), Ok(v));
    }
    assert_eq!(format_distance(0), "0");
    assert_eq!(format_distance(1), "1");
    assert_eq!(format_distance(u64::MAX), "18446744073709551615");
}

#[test]
fn distance_codec_rejects_negative_values() {
    // The distance domain is non-negative: a minus sign is unparsable.
    assert_eq!(parse_distance("-1"), Err(CodecError::ValueOutOfRange));
}

#[test]
fn distance_codec_rejects_values_past_the_64_bit_boundary() {
    assert_eq!(parse_distance("18446744073709551615"), Ok(u64::MAX));
    assert_eq!(parse_distance("18446744073709551616"), Err(CodecError::ValueOutOfRange));
    assert_eq!(
        parse_distance("99999999999999999999999999"),
        Err(CodecError::ValueOutOfRange)
    );
}

#[test]
fn distance_codec_rejects_other_malformed_text() {
    assert_eq!(parse_distance(""), Err(CodecError::ValueOutOfRange));
    assert_eq!(parse_distance("12x"), Err(CodecError::ValueOutOfRange));
    assert_eq!(parse_distance("1.5"), Err(CodecError::ValueOutOfRange));
}

#[test]
fn absent_distance_decodes_to_none() {
    assert_eq!(decode_distance(None), Ok(None));
    assert_eq!(decode_distance(Some("7")), Ok(Some(7)));
    assert_eq!(decode_distance(Some("x")), Err(CodecError::ValueOutOfRange));
    assert!(encode_distance(&None).is_none());
    assert_eq!(encode_distance(&Some(42)).unwrap(), "42");
}

#[test]
fn ec_point_codec_checks_length() {
    let bytes = vec![2u8; EC_POINT_SIZE];
    let p = EcPoint::from_bytes(bytes.clone()).unwrap();
    assert_eq!(p.as_bytes(), &bytes);
    assert_eq!(
        EcPoint::from_bytes(vec![2u8; 32]),
        Err(CodecError::MalformedInput)
    );
}

#[test]
fn header_holds_its_fields() {
    let solution = AutolykosSolution {
        miner_pk: EcPoint::from_bytes(vec![2u8; 33]).unwrap(),
        pow_onetime_pk: None,
        nonce: decode_hex("0001020304050607").unwrap(),
        pow_distance: Some(123456789),
    };
    let header = Header {
        version: 2,
        id: BlockId(Digest32([1; 32])),
        parent_id: BlockId(Digest32([2; 32])),
        ad_proofs_root: Digest32([3; 32]),
        state_root: ADDigest([4; 33]),
        transaction_root: Digest32([5; 32]),
        timestamp: 1_600_000_000_000,
        n_bits: 0x0100_0000,
        height: 414_474,
        extension_root: Digest32([6; 32]),
        autolykos_solution: solution,
        votes: Votes([0, 0, 0]),
    };
    assert_eq!(header.autolykos_solution.nonce.len(), 8);
    assert_eq!(
        encode_hex(&header.autolykos_solution.nonce),
        "0001020304050607"
    );
    assert_eq!(
        format_distance(header.autolykos_solution.pow_distance.unwrap()),
        "123456789"
    );
    assert_eq!(header.height, 414_474);
}
