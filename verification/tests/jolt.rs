use boltstub::error::{CodecReason, StubError};
use boltstub::jolt::{
    bits_to_signed, read_be, signed_to_bits, write_be, Float, Value, ValueType, FLOAT_TAG,
    INTEGER_TAG, WIDTH,
};

fn wrong_width(actual: usize) -> StubError {
    StubError::CodecError { reason: CodecReason::WrongWidth { expected: 8, actual } }
}

#[test]
fn width_is_eight() {
    assert_eq!(WIDTH, 8);
}

#[test]
fn integer_encodes_big_endian() {
    assert_eq!(1i64.jolt(), vec![0, 0, 0, 0, 0, 0, 0, 1]);
    assert_eq!(258i64.jolt(), vec![0, 0, 0, 0, 0, 0, 1, 2]);
    assert_eq!(0x0102030405060708i64.jolt(), vec![1, 2, 3, 4, 5, 6, 7, 8]);
    assert_eq!(0i64.jolt(), vec![0; 8]);
}

#[test]
fn integer_encodes_twos_complement() {
    assert_eq!((-1i64).jolt(), vec![0xFF; 8]);
    assert_eq!((-2i64).jolt(), vec![0xFF, 0xFF, 0xFF, 0xFF, 0xFF, 0xFF, 0xFF, 0xFE]);
    assert_eq!(i64::MIN.jolt(), vec![0x80, 0, 0, 0, 0, 0, 0, 0]);
    assert_eq!(i64::MAX.jolt(), vec![0x7F, 0xFF, 0xFF, 0xFF, 0xFF, 0xFF, 0xFF, 0xFF]);
}

#[test]
fn integer_encoding_agrees_with_std() {
    for v in [0i64, 1, -1, 42, -42, 255, 256, -256, 1 << 40, -(1 << 40), i64::MIN, i64::MAX] {
        assert_eq!(v.jolt(), v.to_be_bytes().to_vec());
    }
}

#[test]
fn integer_round_trip() {
    for v in [0i64, 1, -1, 42, -42, 65535, -65536, i64::MIN, i64::MIN + 1, i64::MAX] {
        assert_eq!(i64::unjolt(&v.jolt()), Ok(v));
    }
}

#[test]
fn float_encodes_ieee_bits() {
    let one_and_half = Float { bits: 1.5f64.to_bits() };
    assert_eq!(one_and_half.jolt(), vec![0x3F, 0xF8, 0, 0, 0, 0, 0, 0]);
    for v in [0.0f64, -0.0, 1.0, -1.0, 3.141592653589793, f64::MAX, f64::MIN_POSITIVE, f64::INFINITY] {
        assert_eq!(Float { bits: v.to_bits() }.jolt(), v.to_be_bytes().to_vec());
    }
}

#[test]
fn float_round_trip_is_bit_exact() {
    let quiet_nan = f64::NAN.to_bits();
    let payload_nan = 0x7FF0_0000_0000_0001u64;
    let negative_nan = 0xFFF8_0000_DEAD_BEEFu64;
    for bits in [
        0.0f64.to_bits(),
        (-0.0f64).to_bits(),
        1.5f64.to_bits(),
        f64::NEG_INFINITY.to_bits(),
        quiet_nan,
        payload_nan,
        negative_nan,
        u64::MAX,
    ] {
        let back = Float::unjolt(&Float { bits }.jolt()).unwrap();
        assert_eq!(back.bits, bits);
    }
    let zero = Float::unjolt(&Float { bits: 0.0f64.to_bits() }.jolt()).unwrap();
    let minus_zero = Float::unjolt(&Float { bits: (-0.0f64).to_bits() }.jolt()).unwrap();
    assert_ne!(zero, minus_zero);
    assert!(f64::from_bits(minus_zero.bits).is_sign_negative());
    assert!(f64::from_bits(Float::unjolt(&Float { bits: payload_nan }.jolt()).unwrap().bits).is_nan());
}

#[test]
fn decode_refuses_wrong_width() {
    assert_eq!(i64::unjolt(&[]), Err(wrong_width(0)));
    assert_eq!(i64::unjolt(&[0; 7]), Err(wrong_width(7)));
    assert_eq!(i64::unjolt(&[0; 9]), Err(wrong_width(9)));
    assert_eq!(Float::unjolt(&[1, 2, 3, 4]), Err(wrong_width(4)));
    assert_eq!(read_be(&[0; 16]), Err(wrong_width(16)));
}

#[test]
fn read_and_write_be() {
    assert_eq!(write_be(0x1122334455667788), vec![0x11, 0x22, 0x33, 0x44, 0x55, 0x66, 0x77, 0x88]);
    assert_eq!(read_be(&[0x11, 0x22, 0x33, 0x44, 0x55, 0x66, 0x77, 0x88]), Ok(0x1122334455667788));
    assert_eq!(read_be(&[0xFF; 8]), Ok(u64::MAX));
    assert_eq!(write_be(u64::MAX), vec![0xFF; 8]);
    assert_eq!(write_be(0), vec![0; 8]);
}

#[test]
fn signed_and_unsigned_bits() {
    assert_eq!(signed_to_bits(-1), u64::MAX);
    assert_eq!(signed_to_bits(i64::MIN), 1u64 << 63);
    assert_eq!(signed_to_bits(7), 7);
    assert_eq!(bits_to_signed(u64::MAX), -1);
    assert_eq!(bits_to_signed(1u64 << 63), i64::MIN);
    assert_eq!(bits_to_signed((1u64 << 63) - 1), i64::MAX);
    for v in [i64::MIN, -5, 0, 5, i64::MAX] {
        assert_eq!(signed_to_bits(v), v as u64);
        assert_eq!(bits_to_signed(signed_to_bits(v)), v);
    }
}

#[test]
fn value_tags() {
    assert_eq!(Value::Integer(3).tag(), INTEGER_TAG);
    assert_eq!(Value::Float(Float { bits: 3 }).tag(), FLOAT_TAG);
    assert_ne!(INTEGER_TAG, FLOAT_TAG);
}

#[test]
fn value_round_trip() {
    let values = [
        Value::Integer(0),
        Value::Integer(-1),
        Value::Integer(i64::MIN),
        Value::Integer(i64::MAX),
        Value::Float(Float { bits: 2.5f64.to_bits() }),
        Value::Float(Float { bits: (-0.0f64).to_bits() }),
        Value::Float(Float { bits: 0x7FF8_0000_0000_1234 }),
    ];
    for value in values {
        let bytes = value.encode();
        assert_eq!(bytes.len(), 8);
        assert_eq!(Value::decode(value.tag(), &bytes), Ok(value));
    }
}

#[test]
fn value_decodes_by_tag() {
    let bytes = [0x3F, 0xF8, 0, 0, 0, 0, 0, 0];
    assert_eq!(Value::decode(INTEGER_TAG, &bytes), Ok(Value::Integer(0x3FF8_0000_0000_0000)));
    assert_eq!(
        Value::decode(FLOAT_TAG, &bytes),
        Ok(Value::Float(Float { bits: 1.5f64.to_bits() }))
    );
}

#[test]
fn value_decode_refuses_unknown_tag() {
    for tag in [0u8, 1, 0x53, 0xFF] {
        assert_eq!(
            Value::decode(tag, &[0; 8]),
            Err(StubError::CodecError { reason: CodecReason::UnknownTag { tag } })
        );
    }
    assert_eq!(
        Value::decode(7, &[0; 3]),
        Err(StubError::CodecError { reason: CodecReason::UnknownTag { tag: 7 } })
    );
}

#[test]
fn value_decode_refuses_wrong_width() {
    assert_eq!(Value::decode(INTEGER_TAG, &[0; 4]), Err(wrong_width(4)));
    assert_eq!(Value::decode(FLOAT_TAG, &[0; 10]), Err(wrong_width(10)));
}
