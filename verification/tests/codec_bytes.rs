use rearward::codec::decode;
use rearward::codec::encode;
use rearward::value::DecodeError;
use rearward::value::Value;

fn round_trip(v: Value) {
    let bytes = encode(&v);
    assert_eq!(decode(bytes.as_slice()).unwrap(), v);
}

#[test]
fn round_trip_every_variant() {
    round_trip(Value::SignedInteger(1234));
    round_trip(Value::SignedInteger(-1));
    round_trip(Value::SignedInteger(i64::MIN));
    round_trip(Value::SignedInteger(i64::MAX));
    round_trip(Value::UnsignedInteger(0));
    round_trip(Value::UnsignedInteger(u64::MAX));
    round_trip(Value::Float(1234.0f64.to_bits()));
    round_trip(Value::Float((-0.5f64).to_bits()));
    round_trip(Value::Instant(1528318073700));
    round_trip(Value::Instant(0));
    round_trip(Value::Boolean(true));
    round_trip(Value::Boolean(false));
    round_trip(Value::Str(String::new()));
    round_trip(Value::Str("Héllo, wörld!".to_string()));
    round_trip(Value::Json(r#"{"foo":"bar", "number": 1}"#.to_string()));
    round_trip(Value::Blob(Vec::new()));
    round_trip(Value::Blob(vec![0u8, 255u8, 7u8]));
}

#[test]
fn exact_encodings() {
    assert_eq!(encode(&Value::Boolean(true)), vec![5u8, 1]);
    assert_eq!(encode(&Value::Boolean(false)), vec![5u8, 0]);
    assert_eq!(encode(&Value::UnsignedInteger(1)), vec![2u8, 0, 0, 0, 0, 0, 0, 0, 1]);
    // The sign bit is flipped, so zero encodes with a leading 0x80 and
    // byte order follows numeric order.
    assert_eq!(encode(&Value::SignedInteger(0)), vec![1u8, 0x80, 0, 0, 0, 0, 0, 0, 0]);
    assert_eq!(encode(&Value::SignedInteger(-1)), vec![1u8, 0x7f, 255, 255, 255, 255, 255, 255, 255]);
    assert!(encode(&Value::SignedInteger(-5)) < encode(&Value::SignedInteger(3)));
    assert_eq!(encode(&Value::Str("A".to_string())), vec![6u8, 65]);
    assert_eq!(encode(&Value::Json("{}".to_string())), vec![7u8, 123, 125]);
    assert_eq!(encode(&Value::Blob(vec![1, 2])), vec![8u8, 1, 2]);
    assert_eq!(encode(&Value::Instant(1)), vec![4u8, 0x80, 0, 0, 0, 0, 0, 0, 1]);
    assert_eq!(encode(&Value::Float(3)), vec![3u8, 0, 0, 0, 0, 0, 0, 0, 3]);
}

#[test]
fn numeric_encodings_follow_natural_order() {
    // Byte-lexicographic order of the payloads matches numeric order,
    // so range scans over numerically keyed data behave predictably.
    assert!(encode(&Value::UnsignedInteger(1)) < encode(&Value::UnsignedInteger(256)));
    assert!(encode(&Value::UnsignedInteger(255)) < encode(&Value::UnsignedInteger(256)));
    assert!(encode(&Value::SignedInteger(i64::MIN)) < encode(&Value::SignedInteger(-1)));
    assert!(encode(&Value::SignedInteger(-1)) < encode(&Value::SignedInteger(0)));
    assert!(encode(&Value::SignedInteger(0)) < encode(&Value::SignedInteger(i64::MAX)));
    assert!(encode(&Value::Instant(1528318073699)) < encode(&Value::Instant(1528318073700)));
    assert!(encode(&Value::Str("ab".to_string())) < encode(&Value::Str("b".to_string())));
    assert!(encode(&Value::Blob(vec![1])) < encode(&Value::Blob(vec![1, 0])));
}

#[test]
fn decode_errors_name_tag_and_offset() {
    // Empty input.
    assert_eq!(decode(&[]), Err(DecodeError { expected: 0, offset: 0 }));
    // Unknown tag.
    assert_eq!(decode(&[9]), Err(DecodeError { expected: 0, offset: 0 }));
    // Truncated numeric payload: the offset is where the bytes ran out.
    assert_eq!(decode(&[1, 2]), Err(DecodeError { expected: 1, offset: 2 }));
    assert_eq!(decode(&[2]), Err(DecodeError { expected: 2, offset: 1 }));
    // Surplus numeric payload.
    assert_eq!(
        decode(&[4, 0, 0, 0, 0, 0, 0, 0, 0, 0]),
        Err(DecodeError { expected: 4, offset: 9 })
    );
    // A boolean byte that is neither 0 nor 1.
    assert_eq!(decode(&[5, 7]), Err(DecodeError { expected: 5, offset: 1 }));
    assert_eq!(decode(&[5]), Err(DecodeError { expected: 5, offset: 1 }));
    // Text that is not valid UTF-8.
    assert_eq!(decode(&[6, 0xff]), Err(DecodeError { expected: 6, offset: 1 }));
    assert_eq!(decode(&[7, 0xc0, 0x00]), Err(DecodeError { expected: 7, offset: 1 }));
}

#[test]
fn float_bits_survive_storage() {
    let v = Value::Float(6.62607015e-34f64.to_bits());
    let bytes = encode(&v);
    match decode(bytes.as_slice()).unwrap() {
        Value::Float(bits) => assert_eq!(f64::from_bits(bits), 6.62607015e-34),
        other => panic!("wrong variant: {:?}", other),
    }
}
