//! The value codec: the canonical byte form of scripted scalar values.
//!
//! Every kind of value encodes to eight bytes, most significant byte first.
//! An integer is written in two's complement; a floating-point number is
//! written as its IEEE-754 bit pattern. Decoding is the exact inverse of
//! encoding and refuses everything that encoding cannot produce.

use crate::error::{CodecReason, StubError};
use vstd::arithmetic::div_mod::lemma_div_denominator;
use vstd::prelude::*;

verus! {

/// Width in bytes of every encoded scalar.
pub const WIDTH: usize = 8;

/// Type tag of an integer value.
pub const INTEGER_TAG: u8 = 0x5A;

/// Type tag of a floating-point value.
pub const FLOAT_TAG: u8 = 0x52;

/// The eight bytes of `bits`, most significant first.
pub open spec fn be_bytes(bits: u64) -> Seq<u8> {
    seq![
        (bits / 0x100_0000_0000_0000 % 0x100) as u8,
        (bits / 0x1_0000_0000_0000 % 0x100) as u8,
        (bits / 0x100_0000_0000 % 0x100) as u8,
        (bits / 0x1_0000_0000 % 0x100) as u8,
        (bits / 0x100_0000 % 0x100) as u8,
        (bits / 0x1_0000 % 0x100) as u8,
        (bits / 0x100 % 0x100) as u8,
        (bits % 0x100) as u8,
    ]
}

/// The number whose eight bytes, most significant first, are `bytes`.
pub open spec fn from_be_bytes(bytes: Seq<u8>) -> int {
    bytes[0] * 0x100_0000_0000_0000 + bytes[1] * 0x1_0000_0000_0000 + bytes[2] * 0x100_0000_0000
        + bytes[3] * 0x1_0000_0000 + bytes[4] * 0x100_0000 + bytes[5] * 0x1_0000 + bytes[6] * 0x100
        + bytes[7]
}

/// The unsigned number with the same 64 bits as `value` in two's complement.
pub open spec fn to_bits(value: i64) -> u64 {
    if value >= 0 {
        value as u64
    } else {
        (value + 0x1_0000_0000_0000_0000) as u64
    }
}

/// The signed number with the same 64 bits as `bits` in two's complement.
pub open spec fn from_bits(bits: u64) -> i64 {
    if bits < 0x8000_0000_0000_0000 {
        bits as i64
    } else {
        (bits - 0x1_0000_0000_0000_0000) as i64
    }
}

/// The error that reports a payload of `actual` bytes.
pub open spec fn wrong_width(actual: nat) -> StubError {
    StubError::CodecError {
        reason: CodecReason::WrongWidth { expected: WIDTH, actual: actual as usize },
    }
}

/// The quotients of `x` by the powers of 256 are reached one division by
/// 256 at a time.
proof fn lemma_quotients(x: int)
    requires
        0 <= x,
    ensures
        x / 0x1_0000 == x / 0x100 / 0x100,
        x / 0x100_0000 == x / 0x1_0000 / 0x100,
        x / 0x1_0000_0000 == x / 0x100_0000 / 0x100,
        x / 0x100_0000_0000 == x / 0x1_0000_0000 / 0x100,
        x / 0x1_0000_0000_0000 == x / 0x100_0000_0000 / 0x100,
        x / 0x100_0000_0000_0000 == x / 0x1_0000_0000_0000 / 0x100,
{
    lemma_div_denominator(x, 0x100, 0x100);
    lemma_div_denominator(x, 0x1_0000, 0x100);
    lemma_div_denominator(x, 0x100_0000, 0x100);
    lemma_div_denominator(x, 0x1_0000_0000, 0x100);
    lemma_div_denominator(x, 0x100_0000_0000, 0x100);
    lemma_div_denominator(x, 0x1_0000_0000_0000, 0x100);
    assert(0x100 * 0x100 == 0x1_0000);
    assert(0x1_0000 * 0x100 == 0x100_0000);
    assert(0x100_0000 * 0x100 == 0x1_0000_0000);
    assert(0x1_0000_0000 * 0x100 == 0x100_0000_0000);
    assert(0x100_0000_0000 * 0x100 == 0x1_0000_0000_0000);
    assert(0x1_0000_0000_0000 * 0x100 == 0x100_0000_0000_0000);
}

/// Reading back the bytes of a number gives the number.
pub proof fn lemma_be_bytes_round_trip(bits: u64)
    ensures
        be_bytes(bits).len() == WIDTH,
        from_be_bytes(be_bytes(bits)) == bits,
{
    let x = bits as int;
    lemma_quotients(x);
    let q1 = x / 0x100;
    let q2 = x / 0x1_0000;
    let q3 = x / 0x100_0000;
    let q4 = x / 0x1_0000_0000;
    let q5 = x / 0x100_0000_0000;
    let q6 = x / 0x1_0000_0000_0000;
    let q7 = x / 0x100_0000_0000_0000;
    assert(x == 0x100 * q1 + x % 0x100);
    assert(q1 == 0x100 * q2 + q1 % 0x100);
    assert(q2 == 0x100 * q3 + q2 % 0x100);
    assert(q3 == 0x100 * q4 + q3 % 0x100);
    assert(q4 == 0x100 * q5 + q4 % 0x100);
    assert(q5 == 0x100 * q6 + q5 % 0x100);
    assert(q6 == 0x100 * q7 + q6 % 0x100);
    assert(q7 == q7 % 0x100);
    let bytes = be_bytes(bits);
    assert(bytes[0] == q7 % 0x100);
    assert(bytes[1] == q6 % 0x100);
    assert(bytes[2] == q5 % 0x100);
    assert(bytes[3] == q4 % 0x100);
    assert(bytes[4] == q3 % 0x100);
    assert(bytes[5] == q2 % 0x100);
    assert(bytes[6] == q1 % 0x100);
    assert(bytes[7] == x % 0x100);
}

/// Writing the number that eight bytes spell gives the same eight bytes.
pub proof fn lemma_from_be_bytes_round_trip(bytes: Seq<u8>)
    requires
        bytes.len() == WIDTH,
    ensures
        0 <= from_be_bytes(bytes) <= u64::MAX,
        be_bytes(from_be_bytes(bytes) as u64) == bytes,
{
    let n7 = bytes[0] as int;
    let n6 = n7 * 0x100 + bytes[1];
    let n5 = n6 * 0x100 + bytes[2];
    let n4 = n5 * 0x100 + bytes[3];
    let n3 = n4 * 0x100 + bytes[4];
    let n2 = n3 * 0x100 + bytes[5];
    let n1 = n2 * 0x100 + bytes[6];
    let n0 = n1 * 0x100 + bytes[7];
    assert(n0 == from_be_bytes(bytes));
    lemma_quotients(n0);
    assert(n0 / 0x100 == n1 && n0 % 0x100 == bytes[7]);
    assert(n1 / 0x100 == n2 && n1 % 0x100 == bytes[6]);
    assert(n2 / 0x100 == n3 && n2 % 0x100 == bytes[5]);
    assert(n3 / 0x100 == n4 && n3 % 0x100 == bytes[4]);
    assert(n4 / 0x100 == n5 && n4 % 0x100 == bytes[3]);
    assert(n5 / 0x100 == n6 && n5 % 0x100 == bytes[2]);
    assert(n6 / 0x100 == n7 && n6 % 0x100 == bytes[1]);
    assert(n7 % 0x100 == bytes[0]);
    let again = be_bytes(n0 as u64);
    assert(again[0] == bytes[0]);
    assert(again[1] == bytes[1]);
    assert(again[2] == bytes[2]);
    assert(again[3] == bytes[3]);
    assert(again[4] == bytes[4]);
    assert(again[5] == bytes[5]);
    assert(again[6] == bytes[6]);
    assert(again[7] == bytes[7]);
    assert(again =~= bytes);
}

/// The two readings of 64 bits, signed and unsigned, convert losslessly.
pub proof fn lemma_bits_round_trip(value: i64, bits: u64)
    ensures
        from_bits(to_bits(value)) == value,
        to_bits(from_bits(bits)) == bits,
{
}

/// Writes `bits` as eight bytes, most significant first.
pub fn write_be(bits: u64) -> (bytes: Vec<u8>)
    ensures
        bytes@ == be_bytes(bits),
{
    let mut bytes: Vec<u8> = Vec::with_capacity(WIDTH);
    bytes.push((bits / 0x100_0000_0000_0000 % 0x100) as u8);
    bytes.push((bits / 0x1_0000_0000_0000 % 0x100) as u8);
    bytes.push((bits / 0x100_0000_0000 % 0x100) as u8);
    bytes.push((bits / 0x1_0000_0000 % 0x100) as u8);
    bytes.push((bits / 0x100_0000 % 0x100) as u8);
    bytes.push((bits / 0x1_0000 % 0x100) as u8);
    bytes.push((bits / 0x100 % 0x100) as u8);
    bytes.push((bits % 0x100) as u8);
    assert(bytes@ =~= be_bytes(bits));
    bytes
}

/// Reads eight bytes, most significant first, as one number.
pub fn read_be(bytes: &[u8]) -> (outcome: Result<u64, StubError>)
    ensures
        bytes@.len() == WIDTH ==> outcome == Ok::<u64, StubError>(from_be_bytes(bytes@) as u64)
            && be_bytes(outcome->Ok_0) == bytes@,
        bytes@.len() != WIDTH ==> outcome == Err::<u64, StubError>(wrong_width(bytes@.len())),
{
    if bytes.len() != WIDTH {
        return Err(
            StubError::CodecError {
                reason: CodecReason::WrongWidth { expected: WIDTH, actual: bytes.len() },
            },
        );
    }
    proof {
        lemma_from_be_bytes_round_trip(bytes@);
    }
    let b0: u64 = bytes[0] as u64;
    let b1: u64 = bytes[1] as u64;
    let b2: u64 = bytes[2] as u64;
    let b3: u64 = bytes[3] as u64;
    let b4: u64 = bytes[4] as u64;
    let b5: u64 = bytes[5] as u64;
    let b6: u64 = bytes[6] as u64;
    let b7: u64 = bytes[7] as u64;
    let bits: u64 = b0 * 0x100_0000_0000_0000 + b1 * 0x1_0000_0000_0000 + b2 * 0x100_0000_0000 + b3
        * 0x1_0000_0000 + b4 * 0x100_0000 + b5 * 0x1_0000 + b6 * 0x100 + b7;
    Ok(bits)
}

/// Reinterprets a signed number as its 64 bits.
pub fn signed_to_bits(value: i64) -> (bits: u64)
    ensures
        bits == to_bits(value),
{
    if value >= 0 {
        value as u64
    } else {
        let low: u64 = (value - i64::MIN) as u64;
        low + 0x8000_0000_0000_0000
    }
}

/// Reinterprets 64 bits as a signed number.
pub fn bits_to_signed(bits: u64) -> (value: i64)
    ensures
        value == from_bits(bits),
{
    if bits < 0x8000_0000_0000_0000 {
        bits as i64
    } else {
        let low: i64 = (bits - 0x8000_0000_0000_0000) as i64;
        low + i64::MIN
    }
}

/// A kind of value that has a canonical byte form.
///
/// A new kind joins the codec by implementing this trait, which obliges it to
/// show that its decoder is the exact inverse of its encoder.
pub trait ValueType: Sized {
    /// The canonical bytes of the value.
    spec fn jolt_bytes(self) -> Seq<u8>;

    /// What decoding `bytes` yields.
    spec fn unjolt_bytes(bytes: Seq<u8>) -> Result<Self, StubError>;

    /// Encodes the value.
    fn jolt(self) -> (bytes: Vec<u8>)
        ensures
            bytes@ == self.jolt_bytes(),
    ;

    /// Decodes a value, or says why the bytes are not one.
    fn unjolt(bytes: &[u8]) -> (outcome: Result<Self, StubError>)
        ensures
            outcome == Self::unjolt_bytes(bytes@),
    ;

    /// Decoding what was encoded gives the value back.
    proof fn lemma_decode_encode(value: Self)
        ensures
            Self::unjolt_bytes(value.jolt_bytes()) == Ok::<Self, StubError>(value),
    ;

    /// Only canonical bytes decode, and a codec error reports everything else.
    proof fn lemma_encode_decode(bytes: Seq<u8>)
        ensures
            Self::unjolt_bytes(bytes) matches Ok(value) ==> value.jolt_bytes() == bytes,
            Self::unjolt_bytes(bytes) matches Err(error) ==> error is CodecError,
    ;
}

impl ValueType for i64 {
    open spec fn jolt_bytes(self) -> Seq<u8> {
        be_bytes(to_bits(self))
    }

    open spec fn unjolt_bytes(bytes: Seq<u8>) -> Result<i64, StubError> {
        if bytes.len() == WIDTH {
            Ok(from_bits(from_be_bytes(bytes) as u64))
        } else {
            Err(wrong_width(bytes.len()))
        }
    }

    fn jolt(self) -> (bytes: Vec<u8>) {
        write_be(signed_to_bits(self))
    }

    fn unjolt(bytes: &[u8]) -> (outcome: Result<i64, StubError>) {
        match read_be(bytes) {
            Ok(bits) => Ok(bits_to_signed(bits)),
            Err(error) => Err(error),
        }
    }

    proof fn lemma_decode_encode(value: i64) {
        lemma_be_bytes_round_trip(to_bits(value));
        lemma_bits_round_trip(value, 0);
    }

    proof fn lemma_encode_decode(bytes: Seq<u8>) {
        if bytes.len() == WIDTH {
            lemma_from_be_bytes_round_trip(bytes);
            lemma_bits_round_trip(0, from_be_bytes(bytes) as u64);
        }
    }
}

/// A floating-point number, held as its IEEE-754 double-precision bit
/// pattern so that every payload, every NaN and both zeros stay apart.
#[derive(Debug, Clone, Copy, PartialEq, Eq)]
pub struct Float {
    pub bits: u64,
}

impl ValueType for Float {
    open spec fn jolt_bytes(self) -> Seq<u8> {
        be_bytes(self.bits)
    }

    open spec fn unjolt_bytes(bytes: Seq<u8>) -> Result<Float, StubError> {
        if bytes.len() == WIDTH {
            Ok(Float { bits: from_be_bytes(bytes) as u64 })
        } else {
            Err(wrong_width(bytes.len()))
        }
    }

    fn jolt(self) -> (bytes: Vec<u8>) {
        write_be(self.bits)
    }

    fn unjolt(bytes: &[u8]) -> (outcome: Result<Float, StubError>) {
        match read_be(bytes) {
            Ok(bits) => Ok(Float { bits }),
            Err(error) => Err(error),
        }
    }

    proof fn lemma_decode_encode(value: Float) {
        lemma_be_bytes_round_trip(value.bits);
    }

    proof fn lemma_encode_decode(bytes: Seq<u8>) {
        if bytes.len() == WIDTH {
            lemma_from_be_bytes_round_trip(bytes);
        }
    }
}

/// A scalar value that a script can reference.
#[derive(Debug, Clone, Copy, PartialEq, Eq)]
pub enum Value {
    Integer(i64),
    Float(Float),
}

/// The type tag of `value`.
pub open spec fn tag_of(value: Value) -> u8 {
    match value {
        Value::Integer(_) => INTEGER_TAG,
        Value::Float(_) => FLOAT_TAG,
    }
}

/// The canonical bytes of `value`.
pub open spec fn encoded(value: Value) -> Seq<u8> {
    match value {
        Value::Integer(number) => number.jolt_bytes(),
        Value::Float(number) => number.jolt_bytes(),
    }
}

/// What decoding `bytes` under the type tag `tag` yields.
pub open spec fn decoded(tag: u8, bytes: Seq<u8>) -> Result<Value, StubError> {
    if tag == INTEGER_TAG {
        match i64::unjolt_bytes(bytes) {
            Ok(number) => Ok(Value::Integer(number)),
            Err(error) => Err(error),
        }
    } else if tag == FLOAT_TAG {
        match Float::unjolt_bytes(bytes) {
            Ok(number) => Ok(Value::Float(number)),
            Err(error) => Err(error),
        }
    } else {
        Err(StubError::CodecError { reason: CodecReason::UnknownTag { tag } })
    }
}

impl Value {
    /// The type tag under which the value decodes.
    pub fn tag(&self) -> (tag: u8)
        ensures
            tag == tag_of(*self),
    {
        match self {
            Value::Integer(_) => INTEGER_TAG,
            Value::Float(_) => FLOAT_TAG,
        }
    }

    /// Encodes the value to its canonical bytes.
    pub fn encode(&self) -> (bytes: Vec<u8>)
        ensures
            bytes@ == encoded(*self),
    {
        match self {
            Value::Integer(number) => number.jolt(),
            Value::Float(number) => number.jolt(),
        }
    }

    /// Decodes the value of the kind that `tag` names from `bytes`.
    ///
    /// An unknown tag is refused before the payload is looked at; a payload
    /// that is not eight bytes wide is refused with its width.
    pub fn decode(tag: u8, bytes: &[u8]) -> (outcome: Result<Value, StubError>)
        ensures
            outcome == decoded(tag, bytes@),
    {
        if tag == INTEGER_TAG {
            match i64::unjolt(bytes) {
                Ok(number) => Ok(Value::Integer(number)),
                Err(error) => Err(error),
            }
        } else if tag == FLOAT_TAG {
            match Float::unjolt(bytes) {
                Ok(number) => Ok(Value::Float(number)),
                Err(error) => Err(error),
            }
        } else {
            Err(StubError::CodecError { reason: CodecReason::UnknownTag { tag } })
        }
    }
}

/// Decoding an encoded value under its own tag gives the value back, bit for
/// bit: every integer, and every floating-point bit pattern, NaN payloads and
/// the sign of zero included.
pub proof fn lemma_value_round_trip(value: Value)
    ensures
        encoded(value).len() == WIDTH,
        decoded(tag_of(value), encoded(value)) == Ok::<Value, StubError>(value),
{
    match value {
        Value::Integer(number) => {
            i64::lemma_decode_encode(number);
        },
        Value::Float(number) => {
            Float::lemma_decode_encode(number);
        },
    }
}

/// Decoding succeeds only on the canonical bytes of the value it returns, and
/// that value carries the tag it was decoded under.
pub proof fn lemma_value_decode_exact(tag: u8, bytes: Seq<u8>)
    ensures
        decoded(tag, bytes) matches Ok(value) ==> encoded(value) == bytes && tag_of(value) == tag,
        decoded(tag, bytes) is Ok <==> (tag == INTEGER_TAG || tag == FLOAT_TAG) && bytes.len()
            == WIDTH,
        decoded(tag, bytes) matches Err(error) ==> error is CodecError,
{
    i64::lemma_encode_decode(bytes);
    Float::lemma_encode_decode(bytes);
}

} // verus!
