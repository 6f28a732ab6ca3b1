//! The value codec: a self-describing, canonical byte encoding for
//! [`Value`], with a proved round trip.
//!
//! Layout: one tag byte naming the variant, then the payload. Numeric
//! payloads are eight big-endian bytes (signed ones with the sign bit
//! flipped, so byte order follows natural order); text is UTF-8; blobs
//! are raw.

use vstd::prelude::*;

use crate::value::DecodeError;
use crate::value::SpecValue;
use crate::value::Value;

verus! {

pub const TAG_SIGNED: u8 = 1;

pub const TAG_UNSIGNED: u8 = 2;

pub const TAG_FLOAT: u8 = 3;

pub const TAG_INSTANT: u8 = 4;

pub const TAG_BOOLEAN: u8 = 5;

pub const TAG_STR: u8 = 6;

pub const TAG_JSON: u8 = 7;

pub const TAG_BLOB: u8 = 8;

pub const SIGN_MASK: u64 = 0x8000_0000_0000_0000;

/// The eight big-endian bytes of a 64-bit word.
pub open spec fn be_bytes_of_u64(x: u64) -> Seq<u8> {
    seq![
        (x >> 56) as u8,
        (x >> 48) as u8,
        (x >> 40) as u8,
        (x >> 32) as u8,
        (x >> 24) as u8,
        (x >> 16) as u8,
        (x >> 8) as u8,
        x as u8,
    ]
}

/// The 64-bit word read from eight big-endian bytes.
pub open spec fn u64_of_be_bytes(b: Seq<u8>) -> u64
    recommends
        b.len() == 8,
{
    (((b[0] as u64) << 56) | ((b[1] as u64) << 48) | ((b[2] as u64) << 40) | ((b[3] as u64) << 32)
        | ((b[4] as u64) << 24) | ((b[5] as u64) << 16) | ((b[6] as u64) << 8) | (b[7] as u64))
}

/// A signed number as its order-preserving unsigned payload.
pub open spec fn signed_payload(x: i64) -> u64 {
    (x as u64) ^ SIGN_MASK
}

/// The signed number back from its unsigned payload.
pub open spec fn signed_of_payload(u: u64) -> i64 {
    (u ^ SIGN_MASK) as i64
}

/// The canonical encoding of a value.
pub open spec fn spec_encode(v: SpecValue) -> Seq<u8> {
    match v {
        SpecValue::SignedInteger(x) => seq![TAG_SIGNED] + be_bytes_of_u64(signed_payload(x)),
        SpecValue::UnsignedInteger(x) => seq![TAG_UNSIGNED] + be_bytes_of_u64(x),
        SpecValue::Float(x) => seq![TAG_FLOAT] + be_bytes_of_u64(x),
        SpecValue::Instant(x) => seq![TAG_INSTANT] + be_bytes_of_u64(signed_payload(x)),
        SpecValue::Boolean(b) => seq![TAG_BOOLEAN, if b { 1u8 } else { 0u8 }],
        SpecValue::Str(s) => seq![TAG_STR] + vstd::utf8::encode_utf8(s),
        SpecValue::Json(s) => seq![TAG_JSON] + vstd::utf8::encode_utf8(s),
        SpecValue::Blob(b) => seq![TAG_BLOB] + b,
    }
}

/// What a byte string decodes to, when it is a valid encoding.
pub open spec fn spec_decode(b: Seq<u8>) -> Option<SpecValue> {
    if b.len() == 0 {
        None
    } else {
        let tag = b[0];
        let p = b.drop_first();
        if tag == TAG_SIGNED {
            if p.len() == 8 {
                Some(SpecValue::SignedInteger(signed_of_payload(u64_of_be_bytes(p))))
            } else {
                None
            }
        } else if tag == TAG_UNSIGNED {
            if p.len() == 8 {
                Some(SpecValue::UnsignedInteger(u64_of_be_bytes(p)))
            } else {
                None
            }
        } else if tag == TAG_FLOAT {
            if p.len() == 8 {
                Some(SpecValue::Float(u64_of_be_bytes(p)))
            } else {
                None
            }
        } else if tag == TAG_INSTANT {
            if p.len() == 8 {
                Some(SpecValue::Instant(signed_of_payload(u64_of_be_bytes(p))))
            } else {
                None
            }
        } else if tag == TAG_BOOLEAN {
            if p.len() == 1 && (p[0] == 0 || p[0] == 1) {
                Some(SpecValue::Boolean(p[0] == 1))
            } else {
                None
            }
        } else if tag == TAG_STR {
            if vstd::utf8::valid_utf8(p) {
                Some(SpecValue::Str(vstd::utf8::decode_utf8(p)))
            } else {
                None
            }
        } else if tag == TAG_JSON {
            if vstd::utf8::valid_utf8(p) {
                Some(SpecValue::Json(vstd::utf8::decode_utf8(p)))
            } else {
                None
            }
        } else if tag == TAG_BLOB {
            Some(SpecValue::Blob(p))
        } else {
            None
        }
    }
}

/// The error reported for a byte string that does not decode: the tag
/// it announced (0 when empty or unknown) and the offset at which the
/// bytes stopped making sense.
pub open spec fn spec_decode_error(b: Seq<u8>) -> DecodeError
    recommends
        spec_decode(b) is None,
{
    if b.len() == 0 {
        DecodeError { expected: 0, offset: 0 }
    } else {
        let tag = b[0];
        if tag == TAG_SIGNED || tag == TAG_UNSIGNED || tag == TAG_FLOAT || tag == TAG_INSTANT {
            DecodeError {
                expected: tag,
                offset: if b.len() < 9 {
                    b.len() as usize
                } else {
                    9
                },
            }
        } else if tag == TAG_BOOLEAN {
            DecodeError {
                expected: tag,
                offset: if b.len() < 2 {
                    b.len() as usize
                } else if b.len() > 2 {
                    2
                } else {
                    1
                },
            }
        } else if tag == TAG_STR || tag == TAG_JSON {
            DecodeError { expected: tag, offset: 1 }
        } else {
            DecodeError { expected: 0, offset: 0 }
        }
    }
}

/// Reading back the eight big-endian bytes of a word gives the word.
pub proof fn lemma_u64_be_round_trip(x: u64)
    ensures
        u64_of_be_bytes(be_bytes_of_u64(x)) == x,
{
    let b = be_bytes_of_u64(x);
    assert(b[0] == (x >> 56) as u8);
    assert(b[1] == (x >> 48) as u8);
    assert(b[2] == (x >> 40) as u8);
    assert(b[3] == (x >> 32) as u8);
    assert(b[4] == (x >> 24) as u8);
    assert(b[5] == (x >> 16) as u8);
    assert(b[6] == (x >> 8) as u8);
    assert(b[7] == x as u8);
    assert(((((x >> 56) as u8 as u64) << 56) | (((x >> 48) as u8 as u64) << 48) | (((x >> 40)
        as u8 as u64) << 40) | (((x >> 32) as u8 as u64) << 32) | (((x >> 24) as u8 as u64) << 24)
        | (((x >> 16) as u8 as u64) << 16) | (((x >> 8) as u8 as u64) << 8) | (x as u8 as u64))
        == x) by (bit_vector);
}

/// Masking the sign bit twice gives the signed number back.
pub proof fn lemma_signed_payload_round_trip(x: i64)
    ensures
        signed_of_payload(signed_payload(x)) == x,
{
    assert(((((x as u64) ^ 0x8000_0000_0000_0000u64) ^ 0x8000_0000_0000_0000u64) as i64) == x)
        by (bit_vector);
}

proof fn lemma_tag_payload(t: u8, p: Seq<u8>)
    ensures
        (seq![t] + p).len() == 1 + p.len(),
        (seq![t] + p)[0] == t,
        (seq![t] + p).drop_first() == p,
{
    assert((seq![t] + p).drop_first() =~= p);
}

/// Round trip: decoding an encoded value recovers the exact variant and
/// payload that was stored, for every supported variant.
pub proof fn lemma_codec_round_trip(v: SpecValue)
    ensures
        spec_decode(spec_encode(v)) == Some(v),
{
    broadcast use vstd::utf8::encode_utf8_valid_utf8, vstd::utf8::encode_utf8_decode_utf8;

    match v {
        SpecValue::SignedInteger(x) => {
            lemma_tag_payload(TAG_SIGNED, be_bytes_of_u64(signed_payload(x)));
            lemma_u64_be_round_trip(signed_payload(x));
            lemma_signed_payload_round_trip(x);
        },
        SpecValue::UnsignedInteger(x) => {
            lemma_tag_payload(TAG_UNSIGNED, be_bytes_of_u64(x));
            lemma_u64_be_round_trip(x);
        },
        SpecValue::Float(x) => {
            lemma_tag_payload(TAG_FLOAT, be_bytes_of_u64(x));
            lemma_u64_be_round_trip(x);
        },
        SpecValue::Instant(x) => {
            lemma_tag_payload(TAG_INSTANT, be_bytes_of_u64(signed_payload(x)));
            lemma_u64_be_round_trip(signed_payload(x));
            lemma_signed_payload_round_trip(x);
        },
        SpecValue::Boolean(b) => {
            let e = spec_encode(v);
            assert(e.len() == 2);
            assert(e[0] == TAG_BOOLEAN);
            assert(e.drop_first() =~= seq![if b { 1u8 } else { 0u8 }]);
        },
        SpecValue::Str(s) => {
            lemma_tag_payload(TAG_STR, vstd::utf8::encode_utf8(s));
        },
        SpecValue::Json(s) => {
            lemma_tag_payload(TAG_JSON, vstd::utf8::encode_utf8(s));
        },
        SpecValue::Blob(b) => {
            lemma_tag_payload(TAG_BLOB, b);
        },
    }
}

/// Appends the eight big-endian bytes of a word.
fn push_be_u64(out: &mut Vec<u8>, x: u64)
    ensures
        final(out)@ == old(out)@ + be_bytes_of_u64(x),
{
    out.push((x >> 56) as u8);
    out.push((x >> 48) as u8);
    out.push((x >> 40) as u8);
    out.push((x >> 32) as u8);
    out.push((x >> 24) as u8);
    out.push((x >> 16) as u8);
    out.push((x >> 8) as u8);
    out.push(x as u8);
    assert(out@ =~= old(out)@ + be_bytes_of_u64(x));
}

/// Appends a copy of the given bytes.
fn push_bytes(out: &mut Vec<u8>, b: &[u8])
    ensures
        final(out)@ == old(out)@ + b@,
{
    let n = b.len();
    let mut i: usize = 0;
    while i < n
        invariant
            n == b@.len(),
            i <= n,
            out@ == old(out)@ + b@.take(i as int),
        decreases n - i,
    {
        out.push(b[i]);
        assert(out@ =~= old(out)@ + b@.take(i + 1));
        i = i + 1;
    }
    assert(out@ =~= old(out)@ + b@);
}

/// Encodes a value into its canonical byte string.
pub fn encode(v: &Value) -> (r: Vec<u8>)
    ensures
        r@ == spec_encode(v@),
{
    let mut out: Vec<u8> = Vec::new();
    match v {
        Value::SignedInteger(x) => {
            out.push(TAG_SIGNED);
            push_be_u64(&mut out, (*x as u64) ^ SIGN_MASK);
            assert(out@ =~= spec_encode(v@));
        },
        Value::UnsignedInteger(x) => {
            out.push(TAG_UNSIGNED);
            push_be_u64(&mut out, *x);
            assert(out@ =~= spec_encode(v@));
        },
        Value::Float(x) => {
            out.push(TAG_FLOAT);
            push_be_u64(&mut out, *x);
            assert(out@ =~= spec_encode(v@));
        },
        Value::Instant(x) => {
            out.push(TAG_INSTANT);
            push_be_u64(&mut out, (*x as u64) ^ SIGN_MASK);
            assert(out@ =~= spec_encode(v@));
        },
        Value::Boolean(b) => {
            out.push(TAG_BOOLEAN);
            out.push(if *b { 1u8 } else { 0u8 });
            assert(out@ =~= spec_encode(v@));
        },
        Value::Str(s) => {
            out.push(TAG_STR);
            push_bytes(&mut out, s.as_str().as_bytes());
            assert(out@ =~= spec_encode(v@));
        },
        Value::Json(s) => {
            out.push(TAG_JSON);
            push_bytes(&mut out, s.as_str().as_bytes());
            assert(out@ =~= spec_encode(v@));
        },
        Value::Blob(b) => {
            out.push(TAG_BLOB);
            push_bytes(&mut out, b.as_slice());
            assert(out@ =~= spec_encode(v@));
        },
    }
    out
}

/// Relies on `String::from_utf8`: it succeeds exactly on valid UTF-8
/// input, and the string it returns has that input as its UTF-8 bytes.
#[verifier::external_body]
fn string_from_utf8(b: Vec<u8>) -> (r: Option<String>)
    ensures
        r matches Some(s) ==> vstd::utf8::encode_utf8(s@) == b@,
        vstd::utf8::valid_utf8(b@) ==> r is Some,
{
    match String::from_utf8(b) {
        Ok(s) => Some(s),
        Err(_) => None,
    }
}

/// Copies `b[from..to]` into a fresh vector.
fn copy_range(b: &[u8], from: usize, to: usize) -> (r: Vec<u8>)
    requires
        from <= to <= b@.len(),
    ensures
        r@ == b@.subrange(from as int, to as int),
{
    let mut out: Vec<u8> = Vec::new();
    let mut i: usize = from;
    while i < to
        invariant
            from <= i <= to <= b@.len(),
            out@ == b@.subrange(from as int, i as int),
        decreases to - i,
    {
        out.push(b[i]);
        assert(out@ =~= b@.subrange(from as int, i + 1));
        i = i + 1;
    }
    out
}

/// Reads a word from eight big-endian bytes at the given offset.
fn read_be_u64(b: &[u8], off: usize) -> (r: u64)
    requires
        off + 8 <= b@.len(),
    ensures
        r == u64_of_be_bytes(b@.subrange(off as int, off + 8)),
{
    let r = (((b[off] as u64) << 56) | ((b[off + 1] as u64) << 48) | ((b[off + 2] as u64) << 40)
        | ((b[off + 3] as u64) << 32) | ((b[off + 4] as u64) << 24) | ((b[off + 5] as u64) << 16)
        | ((b[off + 6] as u64) << 8) | (b[off + 7] as u64));
    proof {
        let p = b@.subrange(off as int, off + 8);
        assert(p[0] == b@[off as int]);
        assert(p[1] == b@[off + 1]);
        assert(p[2] == b@[off + 2]);
        assert(p[3] == b@[off + 3]);
        assert(p[4] == b@[off + 4]);
        assert(p[5] == b@[off + 5]);
        assert(p[6] == b@[off + 6]);
        assert(p[7] == b@[off + 7]);
    }
    r
}

/// Decodes a byte string back into the value it encodes; reports a
/// [`DecodeError`] naming the expected tag and the offset of the
/// mismatch when the bytes are not a valid encoding.
pub fn decode(b: &[u8]) -> (r: Result<Value, DecodeError>)
    ensures
        r matches Ok(v) ==> spec_decode(b@) == Some(v@),
        spec_decode(b@) is Some ==> r is Ok,
        r matches Err(e) ==> spec_decode(b@) is None && e == spec_decode_error(b@),
{
    let n = b.len();
    if n == 0 {
        return Err(DecodeError { expected: 0, offset: 0 });
    }
    let tag = b[0];
    proof {
        assert(b@.drop_first() =~= b@.subrange(1, n as int));
    }
    if tag == TAG_SIGNED || tag == TAG_UNSIGNED || tag == TAG_FLOAT || tag == TAG_INSTANT {
        if n != 9 {
            return Err(
                DecodeError {
                    expected: tag,
                    offset: if n < 9 {
                        n
                    } else {
                        9
                    },
                },
            );
        }
        let u = read_be_u64(b, 1);
        if tag == TAG_SIGNED {
            Ok(Value::SignedInteger((u ^ SIGN_MASK) as i64))
        } else if tag == TAG_UNSIGNED {
            Ok(Value::UnsignedInteger(u))
        } else if tag == TAG_FLOAT {
            Ok(Value::Float(u))
        } else {
            Ok(Value::Instant((u ^ SIGN_MASK) as i64))
        }
    } else if tag == TAG_BOOLEAN {
        if n != 2 {
            return Err(
                DecodeError {
                    expected: tag,
                    offset: if n < 2 {
                        n
                    } else {
                        2
                    },
                },
            );
        }
        let byte = b[1];
        if byte == 0 {
            Ok(Value::Boolean(false))
        } else if byte == 1 {
            Ok(Value::Boolean(true))
        } else {
            Err(DecodeError { expected: tag, offset: 1 })
        }
    } else if tag == TAG_STR || tag == TAG_JSON {
        let payload = copy_range(b, 1, n);
        match string_from_utf8(payload) {
            Some(s) => {
                proof {
                    vstd::utf8::encode_utf8_valid_utf8(s@);
                    vstd::utf8::encode_utf8_decode_utf8(s@);
                }
                if tag == TAG_STR {
                    Ok(Value::Str(s))
                } else {
                    Ok(Value::Json(s))
                }
            },
            None => Err(DecodeError { expected: tag, offset: 1 }),
        }
    } else if tag == TAG_BLOB {
        let payload = copy_range(b, 1, n);
        Ok(Value::Blob(payload))
    } else {
        Err(DecodeError { expected: 0, offset: 0 })
    }
}

} // verus!

