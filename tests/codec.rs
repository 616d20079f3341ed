use tytodb_client::albastream::ErrorKind;
use tytodb_client::dynamic_int::DynamicInteger;
use tytodb_client::logical_operators::LogicalOperator;
use tytodb_client::types::{AlbaTypes, Digest, ToAlbaAlbaTypes};

fn round_trip(v: AlbaTypes) -> (AlbaTypes, usize, usize) {
    let b = v.as_bytes();
    let (d, n) = AlbaTypes::from_bytes(&b).expect("decodes");
    (d, n, b.len())
}

#[test]
fn varint_picks_narrowest_width() {
    assert_eq!(DynamicInteger::from_usize(255).compile(), vec![0u8, 255]);
    assert_eq!(DynamicInteger::from_usize(256).compile(), vec![1u8, 0, 1]);
    assert_eq!(DynamicInteger::from_usize(65535).compile(), vec![1u8, 255, 255]);
    assert_eq!(DynamicInteger::from_usize(65536).compile(), vec![2u8, 0, 0, 1, 0]);
    assert_eq!(DynamicInteger::from_usize(0x1_0000_0000).compile(), vec![3u8, 0, 0, 0, 0, 1, 0, 0, 0]);
    assert_eq!(DynamicInteger::from_usize(300).size(), 3);
}

#[test]
fn varint_decodes_and_reports_consumed() {
    let (d, n) = DynamicInteger::from_bytes(&[1, 0x34, 0x12, 99]).unwrap();
    assert_eq!(d.to_usize(), 0x1234);
    assert_eq!(n, 3);
    let e = DynamicInteger::from_bytes(&[2, 1, 2]).err().unwrap();
    assert!(matches!(e.kind(), ErrorKind::InvalidInput));
    let e = DynamicInteger::from_bytes(&[4, 1]).err().unwrap();
    assert!(matches!(e.kind(), ErrorKind::InvalidInput));
    assert!(DynamicInteger::from_bytes(&[]).is_err());
    assert!(DynamicInteger::decompile(&[0, 7]).is_ok());
    assert!(DynamicInteger::decompile(&[0, 7, 8]).is_err());
}

#[test]
fn value_round_trips() {
    let values = vec![
        AlbaTypes::String("héllo".to_string()),
        AlbaTypes::U8(200),
        AlbaTypes::U16(0xBEEF),
        AlbaTypes::U32(0xDEADBEEF),
        AlbaTypes::U64(u64::MAX),
        AlbaTypes::U128(u128::MAX - 5),
        AlbaTypes::F32(1.5f32.to_bits()),
        AlbaTypes::F64((-2.25f64).to_bits()),
        AlbaTypes::Bool(true),
        AlbaTypes::I32(-7),
        AlbaTypes::I64(i64::MIN),
        AlbaTypes::Bytes(vec![1, 2, 3, 0, 255]),
    ];
    for v in values {
        let tag = v.id();
        let (d, n, len) = round_trip(v);
        assert_eq!(n, len);
        assert_eq!(d.id(), tag);
    }
    let (d, _, _) = round_trip(AlbaTypes::I32(-7));
    assert!(matches!(d, AlbaTypes::I32(-7)));
    let (d, _, _) = round_trip(AlbaTypes::String("héllo".to_string()));
    match d {
        AlbaTypes::String(s) => assert_eq!(s, "héllo"),
        _ => panic!("wrong kind"),
    }
}

#[test]
fn value_encodings_are_exact() {
    assert_eq!(AlbaTypes::U16(0x0102).as_bytes(), vec![2u8, 0x02, 0x01]);
    assert_eq!(AlbaTypes::Bool(true).as_bytes(), vec![8u8, 1]);
    assert_eq!(AlbaTypes::I32(-1).as_bytes(), vec![9u8, 255, 255, 255, 255]);
    assert_eq!(AlbaTypes::String("ab".to_string()).as_bytes(), vec![0u8, 0, 2, b'a', b'b']);
    assert_eq!(AlbaTypes::Bytes(vec![9]).as_bytes(), vec![11u8, 0, 1, 9]);
}

#[test]
fn value_decode_reads_only_its_bytes() {
    let mut b = AlbaTypes::U32(5).as_bytes();
    b.extend_from_slice(&[42, 43]);
    let (v, n) = AlbaTypes::from_bytes(&b).unwrap();
    assert_eq!(n, 5);
    assert!(matches!(v, AlbaTypes::U32(5)));
}

#[test]
fn truncated_values_fail() {
    let values = vec![
        AlbaTypes::String("abc".to_string()),
        AlbaTypes::String(String::new()),
        AlbaTypes::U64(9),
        AlbaTypes::U128(1),
        AlbaTypes::Bool(false),
        AlbaTypes::Bytes(vec![1, 2]),
    ];
    for v in values {
        let b = v.as_bytes();
        let e = AlbaTypes::from_bytes(&b[..b.len() - 1]).err().expect("truncated input fails");
        assert!(matches!(e.kind(), ErrorKind::UnexpectedEof | ErrorKind::InvalidInput));
    }
}

#[test]
fn bad_value_tag_is_invalid_input() {
    let e = AlbaTypes::from_bytes(&[12, 0]).err().unwrap();
    assert!(matches!(e.kind(), ErrorKind::InvalidInput));
    let e = AlbaTypes::from_bytes(&[]).err().unwrap();
    assert!(matches!(e.kind(), ErrorKind::InvalidInput));
    let e = AlbaTypes::from_bytes(&[12u8]).err().unwrap();
    assert!(matches!(e.kind(), ErrorKind::InvalidInput));
}

#[test]
fn invalid_utf8_is_decoded_lossily() {
    let (v, n) = AlbaTypes::from_bytes(&[0, 0, 2, 0xff, b'a']).unwrap();
    assert_eq!(n, 5);
    match v {
        AlbaTypes::String(s) => assert_eq!(s, "\u{FFFD}a"),
        _ => panic!("wrong kind"),
    }
}

#[test]
fn from_id_gives_zero_values() {
    assert!(matches!(AlbaTypes::from_id(4).unwrap(), AlbaTypes::U64(0)));
    assert!(matches!(AlbaTypes::from_id(8).unwrap(), AlbaTypes::Bool(false)));
    let e = AlbaTypes::from_id(12).err().unwrap();
    assert!(matches!(e.kind(), ErrorKind::InvalidInput));
}

#[test]
fn operator_ids_are_stable() {
    assert_eq!(LogicalOperator::Equal.id(), 0);
    assert_eq!(LogicalOperator::StringRegex.id(), 8);
    for id in 0u8..9 {
        assert_eq!(LogicalOperator::from_id(id).unwrap().id(), id);
    }
    assert!(matches!(LogicalOperator::from_id(9).err().unwrap().kind(), ErrorKind::InvalidInput));
}

#[test]
fn digest_concatenates_bare_bytes() {
    let v = vec![AlbaTypes::String("hi".to_string()), AlbaTypes::U16(0x0201), AlbaTypes::Bool(true), AlbaTypes::Bytes(vec![7])];
    assert_eq!(v.digest(), vec![b'h', b'i', 1, 2, 1, 7]);
}

#[test]
fn conversions_pick_the_matching_kind() {
    assert!(matches!(7u64.to_alba_alba_types(), AlbaTypes::U64(7)));
    assert!(matches!((-3i32).to_alba_alba_types(), AlbaTypes::I32(-3)));
    assert!(matches!(true.to_alba_alba_types(), AlbaTypes::Bool(true)));
}

#[test]
fn error_text_shows_kind_and_message() {
    let e = tytodb_client::albastream::Error::new(ErrorKind::InvalidInput, "bad tag");
    assert_eq!(e.to_string(), "Error<Kind:InvalidInput>: bad tag");
    let e = AlbaTypes::from_bytes(&[]).err().unwrap();
    assert!(e.to_string().starts_with("Error<Kind:InvalidInput>: "));
}

#[test]
fn varint_decompile_keeps_the_width() {
    let d = DynamicInteger::from_usize(7);
    let wide = DynamicInteger::decompile(&[3, 7, 0, 0, 0, 0, 0, 0, 0]).unwrap();
    assert_eq!(wide.size(), 9);
    assert_eq!(wide.usize(), 7);
    let back = DynamicInteger::decompile(&d.compile()).unwrap();
    assert_eq!(back.size(), d.size());
}

#[test]
fn str_converts_to_a_string_value() {
    match "abc".to_alba_alba_types() {
        AlbaTypes::String(s) => assert_eq!(s, "abc"),
        other => panic!("unexpected {:?}", other),
    }
}
