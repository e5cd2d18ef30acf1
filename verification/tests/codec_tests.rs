use cino::codec::{decode_value, encode_value, CodecError};
use cino::host_cbor::{decode_vm_value, encode_vm_value};
use cino::vm::VmValue;

#[test]
fn lib_cbor_roundtrip_for_tuple_and_enum() {
    let value = VmValue::Tuple(vec![
        VmValue::Int(1),
        VmValue::Enum {
            tag: "Event".to_string(),
            fields: vec![("id".to_string(), VmValue::Int(42))],
        },
    ]);

    let encoded = encode_value(&value).expect("must encode");
    let decoded = decode_value(&encoded).expect("must decode");
    assert_eq!(decoded, value);

    let encoded = encode_vm_value(&value).expect("must encode");
    let decoded = decode_vm_value(&encoded).expect("must decode");
    assert_eq!(decoded, value);
}

#[test]
fn decode_small_integers_and_booleans() {
    assert_eq!(decode_value(&[0x0a]).expect("int"), VmValue::Int(10));
    assert_eq!(decode_value(&[0x07]).expect("int"), VmValue::Int(7));
    assert_eq!(decode_value(&[0xf5]).expect("bool"), VmValue::Bool(true));
    assert_eq!(decode_value(&[0xf4]).expect("bool"), VmValue::Bool(false));
    assert_eq!(decode_value(&[0xf6]).expect("null"), VmValue::Unit);
    assert_eq!(decode_value(&[0x20]).expect("negative"), VmValue::Int(-1));
}

#[test]
fn encode_small_values_exactly() {
    assert_eq!(encode_value(&VmValue::Int(17)).expect("int"), vec![0x11]);
    assert_eq!(
        encode_value(&VmValue::List(vec![VmValue::Int(7)])).expect("list"),
        vec![0x81, 0x07]
    );
    assert_eq!(encode_value(&VmValue::Unit).expect("unit"), vec![0xf6]);
    assert_eq!(
        encode_value(&VmValue::String("a".to_string())).expect("text"),
        vec![0x61, 0x61]
    );
    assert_eq!(
        encode_value(&VmValue::Tuple(vec![])).expect("tuple"),
        vec![0xa1, 0x66, b'$', b't', b'u', b'p', b'l', b'e', 0x80]
    );
}

#[test]
fn decode_rejects_invalid_bytes() {
    assert!(matches!(decode_value(&[0xff]), Err(CodecError::Decode(_))));
    assert!(matches!(decode_value(&[]), Err(CodecError::Decode(_))));
}

#[test]
fn decode_rejects_values_without_a_runtime_form() {
    // a half-precision float
    assert!(matches!(
        decode_value(&[0xf9, 0x3c, 0x00]),
        Err(CodecError::InvalidFormat(_))
    ));
    // an unsigned integer above i64::MAX
    assert!(matches!(
        decode_value(&[0x1b, 0xff, 0xff, 0xff, 0xff, 0xff, 0xff, 0xff, 0xff]),
        Err(CodecError::InvalidFormat(_))
    ));
    // a map with an integer key
    assert!(matches!(
        decode_value(&[0xa1, 0x01, 0x02]),
        Err(CodecError::InvalidFormat(_))
    ));
}

#[test]
fn plain_map_and_nested_values_round_trip() {
    let value = VmValue::Dict(vec![
        ("a".to_string(), VmValue::List(vec![VmValue::Bool(true), VmValue::Unit])),
        ("b".to_string(), VmValue::String("text".to_string())),
    ]);
    let encoded = encode_value(&value).expect("must encode");
    assert_eq!(decode_value(&encoded).expect("must decode"), value);
}

#[test]
fn encoded_map_keys_are_in_canonical_order() {
    // shorter keys first, then by their bytes
    let value = VmValue::Dict(vec![
        ("a".to_string(), VmValue::Int(1)),
        ("bb".to_string(), VmValue::Int(2)),
        ("c".to_string(), VmValue::Int(3)),
    ]);
    let bytes = encode_value(&value).expect("encode");
    assert_eq!(bytes, vec![0xa3, 0x61, b'a', 0x01, 0x61, b'c', 0x03, 0x62, b'b', b'b', 0x02]);
    assert_eq!(decode_value(&bytes).expect("decode"), value);
    // an enum value: `$tag` comes before `$fields`
    let value = VmValue::Enum { tag: "Ev".to_string(), fields: vec![] };
    assert_eq!(
        encode_value(&value).expect("encode"),
        vec![
            0xa2, 0x64, 0x24, 0x74, 0x61, 0x67, 0x62, 0x45, 0x76, 0x67, 0x24, 0x66, 0x69, 0x65, 0x6c, 0x64,
            0x73, 0xa0
        ]
    );
    // the fields of an enum value are in canonical order too
    let value = VmValue::Enum {
        tag: "E".to_string(),
        fields: vec![("bb".to_string(), VmValue::Int(1)), ("c".to_string(), VmValue::Int(2))],
    };
    let bytes = encode_value(&value).expect("encode");
    let mut expected = vec![0xa2, 0x64, b'$', b't', b'a', b'g', 0x61, b'E'];
    expected.extend_from_slice(&[0x67, b'$', b'f', b'i', b'e', b'l', b'd', b's']);
    expected.extend_from_slice(&[0xa2, 0x61, b'c', 0x02, 0x62, b'b', b'b', 0x01]);
    assert_eq!(bytes, expected);
    assert_eq!(decode_value(&bytes).expect("decode"), value);
}

#[test]
fn deeply_nested_values_encode_but_decode_only_within_the_limit() {
    let nest = |depth: usize| {
        let mut v = VmValue::Int(7);
        for _ in 0..depth {
            v = VmValue::List(vec![v]);
        }
        v
    };
    let shallow = nest(200);
    let bytes = encode_value(&shallow).expect("encode");
    assert_eq!(decode_value(&bytes).expect("decode"), shallow);
    let deep = nest(300);
    let bytes = encode_value(&deep).expect("encode");
    assert!(matches!(decode_value(&bytes), Err(CodecError::Decode(_))));
}

#[test]
fn decode_errors_name_the_first_problem() {
    let message = |bytes: &[u8]| match decode_value(bytes) {
        Err(CodecError::InvalidFormat(m)) => m,
        other => panic!("expected an invalid format, got {other:?}"),
    };
    assert_eq!(message(&[0xf9, 0x3c, 0x00]), "unsupported CBOR type for VmValue");
    assert_eq!(
        message(&[0x1b, 0xff, 0xff, 0xff, 0xff, 0xff, 0xff, 0xff, 0xff]),
        "integer does not fit in i64"
    );
    assert_eq!(message(&[0xa1, 0x01, 0x02]), "map key must be text");
    // `$tag` alone
    assert_eq!(message(&[0xa1, 0x64, b'$', b't', b'a', b'g', 0x61, b'E']), "enum map is missing `$fields`");
    // `$fields` alone
    assert_eq!(message(&[0xa1, 0x67, b'$', b'f', b'i', b'e', b'l', b'd', b's', 0xa0]), "enum map is missing `$tag`");
    // an array whose second item is a float
    assert_eq!(message(&[0x82, 0x01, 0xf9, 0x3c, 0x00]), "unsupported CBOR type for VmValue");
}
