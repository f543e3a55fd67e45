use vessels::format::{parse_item, serialize};
use vessels::kind::round_trip_via_bytes;
use vessels::wire::{ForkHandle, Primitive, WireItem};

#[test]
fn codec_exact_bytes_unit() {
    assert_eq!(serialize(&WireItem::Value(Primitive::Unit)), vec![0u8]);
}

#[test]
fn codec_exact_bytes_bool() {
    assert_eq!(serialize(&WireItem::Value(Primitive::Bool(false))), vec![1u8, 0]);
    assert_eq!(serialize(&WireItem::Value(Primitive::Bool(true))), vec![1u8, 1]);
}

#[test]
fn codec_exact_bytes_uint() {
    assert_eq!(
        serialize(&WireItem::Value(Primitive::Uint(1))),
        vec![2u8, 1, 0, 0, 0, 0, 0, 0, 0]
    );
    assert_eq!(
        serialize(&WireItem::Value(Primitive::Uint(0x0102))),
        vec![2u8, 2, 1, 0, 0, 0, 0, 0, 0]
    );
}

#[test]
fn codec_exact_bytes_int() {
    assert_eq!(serialize(&WireItem::Value(Primitive::Int(7))), vec![3u8, 7, 0, 0, 0, 0, 0, 0, 0]);
    assert_eq!(serialize(&WireItem::Value(Primitive::Int(-1))), vec![4u8, 1, 0, 0, 0, 0, 0, 0, 0]);
    assert_eq!(
        serialize(&WireItem::Value(Primitive::Int(i64::MIN))),
        vec![4u8, 0, 0, 0, 0, 0, 0, 0, 0x80]
    );
}

#[test]
fn codec_exact_bytes_text() {
    assert_eq!(
        serialize(&WireItem::Value(Primitive::Text(String::from("hi")))),
        vec![5u8, 2, 0, 0, 0, 0, 0, 0, 0, b'h', b'i']
    );
    assert_eq!(
        serialize(&WireItem::Value(Primitive::Text(String::new()))),
        vec![5u8, 0, 0, 0, 0, 0, 0, 0, 0]
    );
}

#[test]
fn codec_exact_bytes_handles() {
    assert_eq!(
        serialize(&WireItem::Handle(ForkHandle { id: 5 })),
        vec![6u8, 5, 0, 0, 0, 0, 0, 0, 0]
    );
    assert_eq!(
        serialize(&WireItem::Handles(vec![ForkHandle { id: 1 }, ForkHandle { id: 2 }])),
        vec![7u8, 2, 0, 0, 0, 0, 0, 0, 0, 1, 0, 0, 0, 0, 0, 0, 0, 2, 0, 0, 0, 0, 0, 0, 0]
    );
    assert_eq!(serialize(&WireItem::Request), vec![8u8]);
}

#[test]
fn codec_parse_inverts_serialize() {
    let items = vec![
        WireItem::Value(Primitive::Unit),
        WireItem::Value(Primitive::Bool(true)),
        WireItem::Value(Primitive::Uint(u64::MAX)),
        WireItem::Value(Primitive::Int(i64::MIN)),
        WireItem::Value(Primitive::Int(i64::MAX)),
        WireItem::Value(Primitive::Int(0)),
        WireItem::Value(Primitive::Text(String::from("grüße, мир"))),
        WireItem::Handle(ForkHandle { id: u64::MAX }),
        WireItem::Handles(vec![]),
        WireItem::Handles(vec![ForkHandle { id: 9 }]),
        WireItem::Request,
    ];
    for item in items {
        let bytes = serialize(&item);
        let back = parse_item(&bytes).expect("well-formed representation");
        assert_eq!(back, item);
    }
}

#[test]
fn codec_rejects_malformed() {
    assert!(parse_item(&vec![]).is_none());
    assert!(parse_item(&vec![99u8]).is_none());
    // a boolean byte other than 0 or 1
    assert!(parse_item(&vec![1u8, 2]).is_none());
    // trailing bytes after a complete item
    assert!(parse_item(&vec![0u8, 0]).is_none());
    assert!(parse_item(&vec![8u8, 0]).is_none());
    // truncated integer payload
    assert!(parse_item(&vec![2u8, 1, 2, 3]).is_none());
    // a nonnegative-integer payload beyond the signed range
    assert!(parse_item(&vec![3u8, 0xff, 0xff, 0xff, 0xff, 0xff, 0xff, 0xff, 0xff]).is_none());
    // a negative-integer payload of zero magnitude
    assert!(parse_item(&vec![4u8, 0, 0, 0, 0, 0, 0, 0, 0]).is_none());
    // a text length that disagrees with the payload
    assert!(parse_item(&vec![5u8, 3, 0, 0, 0, 0, 0, 0, 0, b'h', b'i']).is_none());
    // invalid UTF-8 in a text payload
    assert!(parse_item(&vec![5u8, 1, 0, 0, 0, 0, 0, 0, 0, 0xff]).is_none());
    // a handle-list payload that is not a multiple of the handle width
    assert!(parse_item(&vec![7u8, 1, 0, 0, 0, 0, 0, 0, 0, 1, 2]).is_none());
}

#[test]
fn round_trip_primitives() {
    assert_eq!(round_trip_via_bytes(42u64).unwrap(), 42u64);
    assert_eq!(round_trip_via_bytes(0u64).unwrap(), 0u64);
    assert_eq!(round_trip_via_bytes(-7i64).unwrap(), -7i64);
    assert_eq!(round_trip_via_bytes(i64::MIN).unwrap(), i64::MIN);
    assert_eq!(round_trip_via_bytes(true).unwrap(), true);
    assert_eq!(round_trip_via_bytes(false).unwrap(), false);
    assert_eq!(round_trip_via_bytes(String::from("hello world")).unwrap(), "hello world");
    assert_eq!(round_trip_via_bytes(String::new()).unwrap(), "");
    assert_eq!(round_trip_via_bytes(String::from("çatal höyük")).unwrap(), "çatal höyük");
    assert_eq!(round_trip_via_bytes(ForkHandle { id: 12 }).unwrap(), ForkHandle { id: 12 });
}

#[test]
fn round_trip_never_loses_a_value() {
    for x in [0u64, 1, 255, 256, u64::MAX / 2, u64::MAX] {
        match round_trip_via_bytes(x) {
            Ok(y) => assert_eq!(x, y),
            Err(e) => panic!("round trip failed: {:?}", e),
        }
    }
}
