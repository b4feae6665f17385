//! How each kind of declared field travels: the record a value becomes, what a record
//! decodes to, the helpers the message types are written with, the fold that turns a
//! run of records into a message, and the record-by-record reading of bytes into one.

use vstd::prelude::*;
use vstd::utf8::{decode_utf8, encode_utf8, valid_utf8};

use crate::wire::fields::{
    field_bytes, fields_bytes, lemma_fields_bytes_concat, lemma_fields_bytes_push,
    lemma_parse_field_len, numbers_ok, parse_field, parse_fields, MAX_FIELD_NUMBER,
    put_bytes_field, put_fixed32_field, put_fixed64_field, put_varint_field, FieldValue,
    SpecField, SpecValue,
};
use crate::wire::fixed::{decode_fixed64, fixed64_at};
use crate::wire::varint::{lemma_parse_varint_len, parse_varint, read_varint, WireError};

verus! {

broadcast use vstd::utf8::encode_utf8_valid_utf8, vstd::utf8::encode_utf8_decode_utf8;

// ---------------------------------------------------------------------------
// Decoding one record's payload as a declared kind.
// ---------------------------------------------------------------------------

pub open spec fn dec_u64(v: SpecValue) -> Result<u64, WireError> {
    match v {
        SpecValue::Varint(x) => Ok(x),
        _ => Err(WireError::WrongWireType),
    }
}

/// A `uint32` keeps the low 32 bits of the varint.
pub open spec fn dec_u32(v: SpecValue) -> Result<u32, WireError> {
    match v {
        SpecValue::Varint(x) => Ok(x as u32),
        _ => Err(WireError::WrongWireType),
    }
}

/// An `int32` (or an enum) keeps the low 32 bits, as two's complement.
pub open spec fn dec_i32(v: SpecValue) -> Result<i32, WireError> {
    match v {
        SpecValue::Varint(x) => Ok(x as i32),
        _ => Err(WireError::WrongWireType),
    }
}

pub open spec fn dec_i64(v: SpecValue) -> Result<i64, WireError> {
    match v {
        SpecValue::Varint(x) => Ok(x as i64),
        _ => Err(WireError::WrongWireType),
    }
}

/// A `bool` is true for any nonzero varint.
pub open spec fn dec_bool(v: SpecValue) -> Result<bool, WireError> {
    match v {
        SpecValue::Varint(x) => Ok(x != 0),
        _ => Err(WireError::WrongWireType),
    }
}

pub open spec fn dec_fixed64(v: SpecValue) -> Result<u64, WireError> {
    match v {
        SpecValue::Fixed64(x) => Ok(x),
        _ => Err(WireError::WrongWireType),
    }
}

pub open spec fn dec_fixed32(v: SpecValue) -> Result<u32, WireError> {
    match v {
        SpecValue::Fixed32(x) => Ok(x),
        _ => Err(WireError::WrongWireType),
    }
}

pub open spec fn dec_bytes(v: SpecValue) -> Result<Seq<u8>, WireError> {
    match v {
        SpecValue::Bytes(b) => Ok(b),
        _ => Err(WireError::WrongWireType),
    }
}

/// A `string` must be UTF-8.
pub open spec fn dec_string(v: SpecValue) -> Result<Seq<char>, WireError> {
    match v {
        SpecValue::Bytes(b) => if valid_utf8(b) {
            Ok(decode_utf8(b))
        } else {
            Err(WireError::InvalidUtf8)
        },
        _ => Err(WireError::WrongWireType),
    }
}

/// The varints a packed payload holds, one after the other.
pub open spec fn parse_packed_varints(s: Seq<u8>) -> Result<Seq<u64>, WireError>
    decreases s.len(),
{
    if s.len() == 0 {
        Ok(Seq::empty())
    } else {
        match parse_varint(s) {
            Ok((x, n)) => if 0 < n <= s.len() {
                match parse_packed_varints(s.skip(n as int)) {
                    Ok(xs) => Ok(seq![x] + xs),
                    Err(e) => Err(e),
                }
            } else {
                Err(WireError::UnexpectedEnd)
            },
            Err(e) => Err(e),
        }
    }
}

/// The eight-byte values a packed payload holds; its length must be a multiple of eight.
pub open spec fn parse_packed_fixed64(s: Seq<u8>) -> Result<Seq<u64>, WireError>
    decreases s.len(),
{
    if s.len() == 0 {
        Ok(Seq::empty())
    } else if s.len() < 8 {
        Err(WireError::MalformedPacked)
    } else {
        match parse_packed_fixed64(s.skip(8)) {
            Ok(xs) => Ok(seq![decode_fixed64(s)] + xs),
            Err(e) => Err(e),
        }
    }
}

/// A repeated varint field accepts one value per record, or a packed run of them.
pub open spec fn dec_packed_varint(v: SpecValue) -> Result<Seq<u64>, WireError> {
    match v {
        SpecValue::Varint(x) => Ok(seq![x]),
        SpecValue::Bytes(b) => parse_packed_varints(b),
        _ => Err(WireError::WrongWireType),
    }
}

/// A repeated eight-byte field accepts one value per record, or a packed run of them.
pub open spec fn dec_packed_fixed64(v: SpecValue) -> Result<Seq<u64>, WireError> {
    match v {
        SpecValue::Fixed64(x) => Ok(seq![x]),
        SpecValue::Bytes(b) => parse_packed_fixed64(b),
        _ => Err(WireError::WrongWireType),
    }
}

pub open spec fn low_u32s(xs: Seq<u64>) -> Seq<u32> {
    xs.map_values(|x: u64| x as u32)
}

pub open spec fn low_i32s(xs: Seq<u64>) -> Seq<i32> {
    xs.map_values(|x: u64| x as i32)
}

pub open spec fn dec_packed_u32(v: SpecValue) -> Result<Seq<u32>, WireError> {
    match dec_packed_varint(v) {
        Ok(xs) => Ok(low_u32s(xs)),
        Err(e) => Err(e),
    }
}

pub open spec fn dec_packed_i32(v: SpecValue) -> Result<Seq<i32>, WireError> {
    match dec_packed_varint(v) {
        Ok(xs) => Ok(low_i32s(xs)),
        Err(e) => Err(e),
    }
}

// ---------------------------------------------------------------------------
// Encoding a declared value as a record payload.
// ---------------------------------------------------------------------------

pub open spec fn enc_u32(x: u32) -> SpecValue {
    SpecValue::Varint(x as u64)
}

/// A negative `int32` travels sign-extended, in ten bytes.
pub open spec fn enc_i32(x: i32) -> SpecValue {
    SpecValue::Varint(x as u64)
}

pub open spec fn enc_u64(x: u64) -> SpecValue {
    SpecValue::Varint(x)
}

pub open spec fn enc_i64(x: i64) -> SpecValue {
    SpecValue::Varint(x as u64)
}

pub open spec fn enc_bool(x: bool) -> SpecValue {
    SpecValue::Varint(if x { 1 } else { 0 })
}

pub open spec fn enc_fixed64(x: u64) -> SpecValue {
    SpecValue::Fixed64(x)
}

pub open spec fn enc_fixed32(x: u32) -> SpecValue {
    SpecValue::Fixed32(x)
}

pub open spec fn enc_bytes(b: Seq<u8>) -> SpecValue {
    SpecValue::Bytes(b)
}

pub open spec fn enc_string(s: Seq<char>) -> SpecValue {
    SpecValue::Bytes(encode_utf8(s))
}

/// An optional field: one record when present, none when absent.
pub open spec fn opt_field(n: u32, o: Option<SpecValue>) -> Seq<SpecField> {
    match o {
        Some(w) => seq![SpecField { number: n, value: w }],
        None => Seq::empty(),
    }
}

/// A repeated field: one record per element, in order.
pub open spec fn rep_field(n: u32, ws: Seq<SpecValue>) -> Seq<SpecField> {
    ws.map_values(|w: SpecValue| SpecField { number: n, value: w })
}

#[verifier::opaque]
pub open spec fn opt_u32(n: u32, o: Option<u32>) -> Seq<SpecField> {
    opt_field(n, match o { Some(x) => Some(enc_u32(x)), None => None })
}

#[verifier::opaque]
pub open spec fn opt_i32(n: u32, o: Option<i32>) -> Seq<SpecField> {
    opt_field(n, match o { Some(x) => Some(enc_i32(x)), None => None })
}

#[verifier::opaque]
pub open spec fn opt_u64(n: u32, o: Option<u64>) -> Seq<SpecField> {
    opt_field(n, match o { Some(x) => Some(enc_u64(x)), None => None })
}

#[verifier::opaque]
pub open spec fn opt_i64(n: u32, o: Option<i64>) -> Seq<SpecField> {
    opt_field(n, match o { Some(x) => Some(enc_i64(x)), None => None })
}

#[verifier::opaque]
pub open spec fn opt_bool(n: u32, o: Option<bool>) -> Seq<SpecField> {
    opt_field(n, match o { Some(x) => Some(enc_bool(x)), None => None })
}

#[verifier::opaque]
pub open spec fn opt_fixed64(n: u32, o: Option<u64>) -> Seq<SpecField> {
    opt_field(n, match o { Some(x) => Some(enc_fixed64(x)), None => None })
}

#[verifier::opaque]
pub open spec fn opt_fixed32(n: u32, o: Option<u32>) -> Seq<SpecField> {
    opt_field(n, match o { Some(x) => Some(enc_fixed32(x)), None => None })
}

#[verifier::opaque]
pub open spec fn opt_bytes(n: u32, o: Option<Seq<u8>>) -> Seq<SpecField> {
    opt_field(n, match o { Some(x) => Some(enc_bytes(x)), None => None })
}

#[verifier::opaque]
pub open spec fn opt_string(n: u32, o: Option<Seq<char>>) -> Seq<SpecField> {
    opt_field(n, match o { Some(x) => Some(enc_string(x)), None => None })
}

#[verifier::opaque]
pub open spec fn rep_u32(n: u32, xs: Seq<u32>) -> Seq<SpecField> {
    rep_field(n, xs.map_values(|x: u32| enc_u32(x)))
}

#[verifier::opaque]
pub open spec fn rep_i32(n: u32, xs: Seq<i32>) -> Seq<SpecField> {
    rep_field(n, xs.map_values(|x: i32| enc_i32(x)))
}

#[verifier::opaque]
pub open spec fn rep_u64(n: u32, xs: Seq<u64>) -> Seq<SpecField> {
    rep_field(n, xs.map_values(|x: u64| enc_u64(x)))
}

#[verifier::opaque]
pub open spec fn rep_fixed64(n: u32, xs: Seq<u64>) -> Seq<SpecField> {
    rep_field(n, xs.map_values(|x: u64| enc_fixed64(x)))
}

#[verifier::opaque]
pub open spec fn rep_bytes(n: u32, xs: Seq<Seq<u8>>) -> Seq<SpecField> {
    rep_field(n, xs.map_values(|x: Seq<u8>| enc_bytes(x)))
}

#[verifier::opaque]
pub open spec fn rep_string(n: u32, xs: Seq<Seq<char>>) -> Seq<SpecField> {
    rep_field(n, xs.map_values(|x: Seq<char>| enc_string(x)))
}

// ---------------------------------------------------------------------------
// Every record a field is written as carries the field's number.
// ---------------------------------------------------------------------------

pub proof fn lemma_opt_u32_numbered(n: u32, o: Option<u32>)
    requires
        1 <= n <= MAX_FIELD_NUMBER,
    ensures
        numbers_ok(opt_u32(n, o)),
{
    reveal(opt_u32);
    reveal(numbers_ok);
}

pub proof fn lemma_opt_i32_numbered(n: u32, o: Option<i32>)
    requires
        1 <= n <= MAX_FIELD_NUMBER,
    ensures
        numbers_ok(opt_i32(n, o)),
{
    reveal(opt_i32);
    reveal(numbers_ok);
}

pub proof fn lemma_opt_u64_numbered(n: u32, o: Option<u64>)
    requires
        1 <= n <= MAX_FIELD_NUMBER,
    ensures
        numbers_ok(opt_u64(n, o)),
{
    reveal(opt_u64);
    reveal(numbers_ok);
}

pub proof fn lemma_opt_i64_numbered(n: u32, o: Option<i64>)
    requires
        1 <= n <= MAX_FIELD_NUMBER,
    ensures
        numbers_ok(opt_i64(n, o)),
{
    reveal(opt_i64);
    reveal(numbers_ok);
}

pub proof fn lemma_opt_bool_numbered(n: u32, o: Option<bool>)
    requires
        1 <= n <= MAX_FIELD_NUMBER,
    ensures
        numbers_ok(opt_bool(n, o)),
{
    reveal(opt_bool);
    reveal(numbers_ok);
}

pub proof fn lemma_opt_fixed64_numbered(n: u32, o: Option<u64>)
    requires
        1 <= n <= MAX_FIELD_NUMBER,
    ensures
        numbers_ok(opt_fixed64(n, o)),
{
    reveal(opt_fixed64);
    reveal(numbers_ok);
}

pub proof fn lemma_opt_fixed32_numbered(n: u32, o: Option<u32>)
    requires
        1 <= n <= MAX_FIELD_NUMBER,
    ensures
        numbers_ok(opt_fixed32(n, o)),
{
    reveal(opt_fixed32);
    reveal(numbers_ok);
}

pub proof fn lemma_opt_bytes_numbered(n: u32, o: Option<Seq<u8>>)
    requires
        1 <= n <= MAX_FIELD_NUMBER,
    ensures
        numbers_ok(opt_bytes(n, o)),
{
    reveal(opt_bytes);
    reveal(numbers_ok);
}

pub proof fn lemma_opt_string_numbered(n: u32, o: Option<Seq<char>>)
    requires
        1 <= n <= MAX_FIELD_NUMBER,
    ensures
        numbers_ok(opt_string(n, o)),
{
    reveal(opt_string);
    reveal(numbers_ok);
}

pub proof fn lemma_rep_u32_numbered(n: u32, xs: Seq<u32>)
    requires
        1 <= n <= MAX_FIELD_NUMBER,
    ensures
        numbers_ok(rep_u32(n, xs)),
{
    reveal(rep_u32);
    reveal(numbers_ok);
}

pub proof fn lemma_rep_i32_numbered(n: u32, xs: Seq<i32>)
    requires
        1 <= n <= MAX_FIELD_NUMBER,
    ensures
        numbers_ok(rep_i32(n, xs)),
{
    reveal(rep_i32);
    reveal(numbers_ok);
}

pub proof fn lemma_rep_u64_numbered(n: u32, xs: Seq<u64>)
    requires
        1 <= n <= MAX_FIELD_NUMBER,
    ensures
        numbers_ok(rep_u64(n, xs)),
{
    reveal(rep_u64);
    reveal(numbers_ok);
}

pub proof fn lemma_rep_fixed64_numbered(n: u32, xs: Seq<u64>)
    requires
        1 <= n <= MAX_FIELD_NUMBER,
    ensures
        numbers_ok(rep_fixed64(n, xs)),
{
    reveal(rep_fixed64);
    reveal(numbers_ok);
}

pub proof fn lemma_rep_bytes_numbered(n: u32, xs: Seq<Seq<u8>>)
    requires
        1 <= n <= MAX_FIELD_NUMBER,
    ensures
        numbers_ok(rep_bytes(n, xs)),
{
    reveal(rep_bytes);
    reveal(numbers_ok);
}

pub proof fn lemma_rep_string_numbered(n: u32, xs: Seq<Seq<char>>)
    requires
        1 <= n <= MAX_FIELD_NUMBER,
    ensures
        numbers_ok(rep_string(n, xs)),
{
    reveal(rep_string);
    reveal(numbers_ok);
}

// ---------------------------------------------------------------------------
// Views of the field types the messages hold.
// ---------------------------------------------------------------------------

pub open spec fn opt_string_view(o: Option<String>) -> Option<Seq<char>> {
    match o {
        Some(s) => Some(s@),
        None => None,
    }
}

pub open spec fn opt_bytes_view(o: Option<Vec<u8>>) -> Option<Seq<u8>> {
    match o {
        Some(b) => Some(b@),
        None => None,
    }
}

pub open spec fn strings_view(v: Seq<String>) -> Seq<Seq<char>> {
    v.map_values(|s: String| s@)
}

pub open spec fn bytes_seq_view(v: Seq<Vec<u8>>) -> Seq<Seq<u8>> {
    v.map_values(|b: Vec<u8>| b@)
}

// ---------------------------------------------------------------------------
// Reading payloads.
// ---------------------------------------------------------------------------

/// `std::str::from_utf8`: `Some` exactly when the bytes are UTF-8, and then a string
/// whose bytes are those bytes.
#[verifier::external_body]
pub(crate) fn utf8_str(bytes: &[u8]) -> (r: Option<&str>)
    ensures
        r is Some <==> valid_utf8(bytes@),
        r matches Some(s) ==> encode_utf8(s@) == bytes@,
{
    std::str::from_utf8(bytes).ok()
}

pub fn read_u64(v: &FieldValue) -> (r: Result<u64, WireError>)
    ensures
        r == dec_u64(v@),
{
    match v {
        FieldValue::Varint(x) => Ok(*x),
        _ => Err(WireError::WrongWireType),
    }
}

pub fn read_u32(v: &FieldValue) -> (r: Result<u32, WireError>)
    ensures
        r == dec_u32(v@),
{
    match v {
        FieldValue::Varint(x) => Ok(*x as u32),
        _ => Err(WireError::WrongWireType),
    }
}

pub fn read_i32(v: &FieldValue) -> (r: Result<i32, WireError>)
    ensures
        r == dec_i32(v@),
{
    match v {
        FieldValue::Varint(x) => Ok(*x as i32),
        _ => Err(WireError::WrongWireType),
    }
}

pub fn read_i64(v: &FieldValue) -> (r: Result<i64, WireError>)
    ensures
        r == dec_i64(v@),
{
    match v {
        FieldValue::Varint(x) => Ok(*x as i64),
        _ => Err(WireError::WrongWireType),
    }
}

pub fn read_bool(v: &FieldValue) -> (r: Result<bool, WireError>)
    ensures
        r == dec_bool(v@),
{
    match v {
        FieldValue::Varint(x) => Ok(*x != 0),
        _ => Err(WireError::WrongWireType),
    }
}

pub fn read_fixed64(v: &FieldValue) -> (r: Result<u64, WireError>)
    ensures
        r == dec_fixed64(v@),
{
    match v {
        FieldValue::Fixed64(x) => Ok(*x),
        _ => Err(WireError::WrongWireType),
    }
}

pub fn read_fixed32(v: &FieldValue) -> (r: Result<u32, WireError>)
    ensures
        r == dec_fixed32(v@),
{
    match v {
        FieldValue::Fixed32(x) => Ok(*x),
        _ => Err(WireError::WrongWireType),
    }
}

/// The payload of a length-delimited record, borrowed.
pub fn read_payload(v: &FieldValue) -> (r: Result<&[u8], WireError>)
    ensures
        match dec_bytes(v@) {
            Ok(b) => r matches Ok(s) && s@ == b,
            Err(e) => r == Err::<&[u8], WireError>(e),
        },
{
    match v {
        FieldValue::Bytes(b) => Ok(b.as_slice()),
        _ => Err(WireError::WrongWireType),
    }
}

pub fn read_bytes(v: &FieldValue) -> (r: Result<Vec<u8>, WireError>)
    ensures
        match dec_bytes(v@) {
            Ok(b) => r matches Ok(x) && x@ == b,
            Err(e) => r == Err::<Vec<u8>, WireError>(e),
        },
{
    match v {
        FieldValue::Bytes(b) => {
            let mut out: Vec<u8> = Vec::new();
            crate::wire::fields::push_all(&mut out, b.as_slice());
            assert(out@ =~= b@);
            Ok(out)
        },
        _ => Err(WireError::WrongWireType),
    }
}

pub fn read_string(v: &FieldValue) -> (r: Result<String, WireError>)
    ensures
        match dec_string(v@) {
            Ok(s) => r matches Ok(x) && x@ == s,
            Err(e) => r == Err::<String, WireError>(e),
        },
{
    match v {
        FieldValue::Bytes(b) => {
            match utf8_str(b.as_slice()) {
                Some(s) => {
                    proof {
                        vstd::utf8::encode_utf8_decode_utf8(s@);
                    }
                    Ok(s.to_owned())
                },
                None => Err(WireError::InvalidUtf8),
            }
        },
        _ => Err(WireError::WrongWireType),
    }
}

/// The varints of a packed payload, or the single value of an unpacked record.
pub fn read_packed_varints(v: &FieldValue) -> (r: Result<Vec<u64>, WireError>)
    ensures
        match dec_packed_varint(v@) {
            Ok(xs) => r matches Ok(x) && x@ == xs,
            Err(e) => r == Err::<Vec<u64>, WireError>(e),
        },
{
    match v {
        FieldValue::Varint(x) => {
            let mut out: Vec<u64> = Vec::new();
            out.push(*x);
            assert(out@ =~= seq![*x]);
            Ok(out)
        },
        FieldValue::Bytes(b) => {
            let buf = b.as_slice();
            let mut out: Vec<u64> = Vec::new();
            let mut pos: usize = 0;
            assert(buf@.skip(0) =~= buf@);
            while pos < buf.len()
                invariant
                    pos <= buf@.len(),
                    v@ == SpecValue::Bytes(buf@),
                    parse_packed_varints(buf@) == (match parse_packed_varints(buf@.skip(pos as int)) {
                        Ok(rest) => Ok::<Seq<u64>, WireError>(out@ + rest),
                        Err(e) => Err::<Seq<u64>, WireError>(e),
                    }),
                decreases buf@.len() - pos,
            {
                let ghost s = buf@.skip(pos as int);
                proof {
                    lemma_parse_varint_len(s);
                }
                match read_varint(buf, pos) {
                    Ok((x, end)) => {
                        let ghost before = out@;
                        assert(buf@.skip(end as int) =~= s.skip((end - pos) as int));
                        out.push(x);
                        proof {
                            if let Ok(rest) = parse_packed_varints(buf@.skip(end as int)) {
                                assert(before + (seq![x] + rest) =~= out@ + rest);
                            }
                        }
                        pos = end;
                    },
                    Err(e) => {
                        assert(s.len() > 0);
                        assert(parse_packed_varints(s) == Err::<Seq<u64>, WireError>(e));
                        return Err(e);
                    },
                }
            }
            assert(buf@.skip(pos as int) =~= Seq::<u8>::empty());
            assert(out@ + Seq::<u64>::empty() =~= out@);
            Ok(out)
        },
        _ => Err(WireError::WrongWireType),
    }
}

/// The eight-byte values of a packed payload, or the single value of an unpacked record.
pub fn read_packed_fixed64(v: &FieldValue) -> (r: Result<Vec<u64>, WireError>)
    ensures
        match dec_packed_fixed64(v@) {
            Ok(xs) => r matches Ok(x) && x@ == xs,
            Err(e) => r == Err::<Vec<u64>, WireError>(e),
        },
{
    match v {
        FieldValue::Fixed64(x) => {
            let mut out: Vec<u64> = Vec::new();
            out.push(*x);
            assert(out@ =~= seq![*x]);
            Ok(out)
        },
        FieldValue::Bytes(b) => {
            let buf = b.as_slice();
            let mut out: Vec<u64> = Vec::new();
            let mut pos: usize = 0;
            assert(buf@.skip(0) =~= buf@);
            while pos < buf.len()
                invariant
                    pos <= buf@.len(),
                    v@ == SpecValue::Bytes(buf@),
                    parse_packed_fixed64(buf@) == (match parse_packed_fixed64(
                        buf@.skip(pos as int),
                    ) {
                        Ok(rest) => Ok::<Seq<u64>, WireError>(out@ + rest),
                        Err(e) => Err::<Seq<u64>, WireError>(e),
                    }),
                decreases buf@.len() - pos,
            {
                let ghost s = buf@.skip(pos as int);
                if buf.len() - pos < 8 {
                    assert(s.len() > 0);
                    assert(parse_packed_fixed64(s) == Err::<Seq<u64>, WireError>(
                        WireError::MalformedPacked,
                    ));
                    return Err(WireError::MalformedPacked);
                }
                let x = fixed64_at(buf, pos);
                let ghost before = out@;
                assert(buf@.skip(pos + 8) =~= s.skip(8));
                out.push(x);
                proof {
                    if let Ok(rest) = parse_packed_fixed64(buf@.skip(pos + 8)) {
                        assert(before + (seq![x] + rest) =~= out@ + rest);
                    }
                }
                pos = pos + 8;
            }
            assert(buf@.skip(pos as int) =~= Seq::<u8>::empty());
            assert(out@ + Seq::<u64>::empty() =~= out@);
            Ok(out)
        },
        _ => Err(WireError::WrongWireType),
    }
}

/// The values of a packed or unpacked repeated `uint32` record.
pub fn read_packed_u32(v: &FieldValue) -> (r: Result<Vec<u32>, WireError>)
    ensures
        match dec_packed_u32(v@) {
            Ok(xs) => r matches Ok(x) && x@ == xs,
            Err(e) => r == Err::<Vec<u32>, WireError>(e),
        },
{
    let wide = match read_packed_varints(v) {
        Ok(w) => w,
        Err(e) => return Err(e),
    };
    let mut out: Vec<u32> = Vec::new();
    let mut i: usize = 0;
    while i < wide.len()
        invariant
            i <= wide@.len(),
            out@ =~= low_u32s(wide@.take(i as int)),
        decreases wide@.len() - i,
    {
        out.push(wide[i] as u32);
        i = i + 1;
        assert(out@ =~= low_u32s(wide@.take(i as int)));
    }
    assert(wide@.take(i as int) =~= wide@);
    Ok(out)
}

/// The values of a packed or unpacked repeated `int32` (or enum) record.
pub fn read_packed_i32(v: &FieldValue) -> (r: Result<Vec<i32>, WireError>)
    ensures
        match dec_packed_i32(v@) {
            Ok(xs) => r matches Ok(x) && x@ == xs,
            Err(e) => r == Err::<Vec<i32>, WireError>(e),
        },
{
    let wide = match read_packed_varints(v) {
        Ok(w) => w,
        Err(e) => return Err(e),
    };
    let mut out: Vec<i32> = Vec::new();
    let mut i: usize = 0;
    while i < wide.len()
        invariant
            i <= wide@.len(),
            out@ =~= low_i32s(wide@.take(i as int)),
        decreases wide@.len() - i,
    {
        out.push(wide[i] as i32);
        i = i + 1;
        assert(out@ =~= low_i32s(wide@.take(i as int)));
    }
    assert(wide@.take(i as int) =~= wide@);
    Ok(out)
}

// ---------------------------------------------------------------------------
// Writing fields.
// ---------------------------------------------------------------------------

/// The bytes of an optional field: one record's bytes, or none.
pub proof fn lemma_opt_field_bytes(n: u32, o: Option<SpecValue>)
    ensures
        fields_bytes(opt_field(n, o)) == match o {
            Some(w) => field_bytes(SpecField { number: n, value: w }),
            None => Seq::<u8>::empty(),
        },
{
    let e = Seq::<SpecField>::empty();
    assert(fields_bytes(e) =~= Seq::<u8>::empty());
    if let Some(w) = o {
        let f = SpecField { number: n, value: w };
        lemma_fields_bytes_push(e, f);
        assert(e.push(f) =~= seq![f]);
        assert(fields_bytes(e) + field_bytes(f) =~= field_bytes(f));
    }
}

/// Appends an optional varint field.
pub fn put_opt_varint(out: &mut Vec<u8>, n: u32, o: Option<u64>)
    ensures
        final(out)@ == old(out)@ + fields_bytes(opt_u64(n, o)),
{
    proof {
        reveal(opt_u64);
        lemma_opt_field_bytes(n, match o { Some(x) => Some(enc_u64(x)), None => None });
    }
    match o {
        Some(x) => put_varint_field(out, n, x),
        None => {
            assert(old(out)@ + Seq::<u8>::empty() =~= old(out)@);
        },
    }
}

pub fn put_opt_u32(out: &mut Vec<u8>, n: u32, o: Option<u32>)
    ensures
        final(out)@ == old(out)@ + fields_bytes(opt_u32(n, o)),
{
    proof {
        reveal(opt_u32);
        lemma_opt_field_bytes(n, match o { Some(x) => Some(enc_u32(x)), None => None });
    }
    match o {
        Some(x) => put_varint_field(out, n, x as u64),
        None => {
            assert(old(out)@ + Seq::<u8>::empty() =~= old(out)@);
        },
    }
}

pub fn put_opt_i32(out: &mut Vec<u8>, n: u32, o: Option<i32>)
    ensures
        final(out)@ == old(out)@ + fields_bytes(opt_i32(n, o)),
{
    proof {
        reveal(opt_i32);
        lemma_opt_field_bytes(n, match o { Some(x) => Some(enc_i32(x)), None => None });
    }
    match o {
        Some(x) => put_varint_field(out, n, x as u64),
        None => {
            assert(old(out)@ + Seq::<u8>::empty() =~= old(out)@);
        },
    }
}

pub fn put_opt_i64(out: &mut Vec<u8>, n: u32, o: Option<i64>)
    ensures
        final(out)@ == old(out)@ + fields_bytes(opt_i64(n, o)),
{
    proof {
        reveal(opt_i64);
        lemma_opt_field_bytes(n, match o { Some(x) => Some(enc_i64(x)), None => None });
    }
    match o {
        Some(x) => put_varint_field(out, n, x as u64),
        None => {
            assert(old(out)@ + Seq::<u8>::empty() =~= old(out)@);
        },
    }
}

pub fn put_opt_bool(out: &mut Vec<u8>, n: u32, o: Option<bool>)
    ensures
        final(out)@ == old(out)@ + fields_bytes(opt_bool(n, o)),
{
    proof {
        reveal(opt_bool);
        lemma_opt_field_bytes(n, match o { Some(x) => Some(enc_bool(x)), None => None });
    }
    match o {
        Some(x) => put_varint_field(out, n, if x { 1 } else { 0 }),
        None => {
            assert(old(out)@ + Seq::<u8>::empty() =~= old(out)@);
        },
    }
}

pub fn put_opt_fixed64(out: &mut Vec<u8>, n: u32, o: Option<u64>)
    ensures
        final(out)@ == old(out)@ + fields_bytes(opt_fixed64(n, o)),
{
    proof {
        reveal(opt_fixed64);
        lemma_opt_field_bytes(n, match o { Some(x) => Some(enc_fixed64(x)), None => None });
    }
    match o {
        Some(x) => put_fixed64_field(out, n, x),
        None => {
            assert(old(out)@ + Seq::<u8>::empty() =~= old(out)@);
        },
    }
}

pub fn put_opt_fixed32(out: &mut Vec<u8>, n: u32, o: Option<u32>)
    ensures
        final(out)@ == old(out)@ + fields_bytes(opt_fixed32(n, o)),
{
    proof {
        reveal(opt_fixed32);
        lemma_opt_field_bytes(n, match o { Some(x) => Some(enc_fixed32(x)), None => None });
    }
    match o {
        Some(x) => put_fixed32_field(out, n, x),
        None => {
            assert(old(out)@ + Seq::<u8>::empty() =~= old(out)@);
        },
    }
}

pub fn put_opt_bytes(out: &mut Vec<u8>, n: u32, o: &Option<Vec<u8>>)
    ensures
        final(out)@ == old(out)@ + fields_bytes(opt_bytes(n, opt_bytes_view(*o))),
{
    proof {
        reveal(opt_bytes);
        lemma_opt_field_bytes(
            n,
            match opt_bytes_view(*o) { Some(x) => Some(enc_bytes(x)), None => None },
        );
    }
    match o {
        Some(b) => put_bytes_field(out, n, b.as_slice()),
        None => {
            assert(old(out)@ + Seq::<u8>::empty() =~= old(out)@);
        },
    }
}

pub fn put_opt_string(out: &mut Vec<u8>, n: u32, o: &Option<String>)
    ensures
        final(out)@ == old(out)@ + fields_bytes(opt_string(n, opt_string_view(*o))),
{
    proof {
        reveal(opt_string);
        lemma_opt_field_bytes(
            n,
            match opt_string_view(*o) { Some(x) => Some(enc_string(x)), None => None },
        );
    }
    match o {
        Some(s) => put_bytes_field(out, n, s.as_str().as_bytes()),
        None => {
            assert(old(out)@ + Seq::<u8>::empty() =~= old(out)@);
        },
    }
}

/// The records of a repeated field, one more element at a time.
proof fn lemma_rep_field_push(n: u32, ws: Seq<SpecValue>, i: int)
    requires
        0 <= i < ws.len(),
    ensures
        rep_field(n, ws.take(i + 1)) == rep_field(n, ws.take(i)).push(
            SpecField { number: n, value: ws[i] },
        ),
{
    assert(rep_field(n, ws.take(i + 1)) =~= rep_field(n, ws.take(i)).push(
        SpecField { number: n, value: ws[i] },
    ));
}

pub fn put_rep_u32(out: &mut Vec<u8>, n: u32, xs: &Vec<u32>)
    ensures
        final(out)@ == old(out)@ + fields_bytes(rep_u32(n, xs@)),
{
    proof {
        reveal(rep_u32);
    }
    let ghost ws = xs@.map_values(|x: u32| enc_u32(x));
    let mut i: usize = 0;
    assert(rep_field(n, ws.take(0)) =~= Seq::<SpecField>::empty());
    assert(old(out)@ + fields_bytes(Seq::<SpecField>::empty()) =~= old(out)@);
    while i < xs.len()
        invariant
            i <= xs@.len(),
            ws == xs@.map_values(|x: u32| enc_u32(x)),
            out@ == old(out)@ + fields_bytes(rep_field(n, ws.take(i as int))),
        decreases xs@.len() - i,
    {
        proof {
            lemma_rep_field_push(n, ws, i as int);
            lemma_fields_bytes_push(
                rep_field(n, ws.take(i as int)),
                SpecField { number: n, value: ws[i as int] },
            );
        }
        let ghost before = out@;
        put_varint_field(out, n, xs[i] as u64);
        assert(out@ =~= old(out)@ + fields_bytes(rep_field(n, ws.take(i + 1))));
        i = i + 1;
    }
    assert(ws.take(i as int) =~= ws);
}

pub fn put_rep_i32(out: &mut Vec<u8>, n: u32, xs: &Vec<i32>)
    ensures
        final(out)@ == old(out)@ + fields_bytes(rep_i32(n, xs@)),
{
    proof {
        reveal(rep_i32);
    }
    let ghost ws = xs@.map_values(|x: i32| enc_i32(x));
    let mut i: usize = 0;
    assert(rep_field(n, ws.take(0)) =~= Seq::<SpecField>::empty());
    assert(old(out)@ + fields_bytes(Seq::<SpecField>::empty()) =~= old(out)@);
    while i < xs.len()
        invariant
            i <= xs@.len(),
            ws == xs@.map_values(|x: i32| enc_i32(x)),
            out@ == old(out)@ + fields_bytes(rep_field(n, ws.take(i as int))),
        decreases xs@.len() - i,
    {
        proof {
            lemma_rep_field_push(n, ws, i as int);
            lemma_fields_bytes_push(
                rep_field(n, ws.take(i as int)),
                SpecField { number: n, value: ws[i as int] },
            );
        }
        put_varint_field(out, n, xs[i] as u64);
        assert(out@ =~= old(out)@ + fields_bytes(rep_field(n, ws.take(i + 1))));
        i = i + 1;
    }
    assert(ws.take(i as int) =~= ws);
}

pub fn put_rep_u64(out: &mut Vec<u8>, n: u32, xs: &Vec<u64>)
    ensures
        final(out)@ == old(out)@ + fields_bytes(rep_u64(n, xs@)),
{
    proof {
        reveal(rep_u64);
    }
    let ghost ws = xs@.map_values(|x: u64| enc_u64(x));
    let mut i: usize = 0;
    assert(rep_field(n, ws.take(0)) =~= Seq::<SpecField>::empty());
    assert(old(out)@ + fields_bytes(Seq::<SpecField>::empty()) =~= old(out)@);
    while i < xs.len()
        invariant
            i <= xs@.len(),
            ws == xs@.map_values(|x: u64| enc_u64(x)),
            out@ == old(out)@ + fields_bytes(rep_field(n, ws.take(i as int))),
        decreases xs@.len() - i,
    {
        proof {
            lemma_rep_field_push(n, ws, i as int);
            lemma_fields_bytes_push(
                rep_field(n, ws.take(i as int)),
                SpecField { number: n, value: ws[i as int] },
            );
        }
        put_varint_field(out, n, xs[i]);
        assert(out@ =~= old(out)@ + fields_bytes(rep_field(n, ws.take(i + 1))));
        i = i + 1;
    }
    assert(ws.take(i as int) =~= ws);
}

pub fn put_rep_fixed64(out: &mut Vec<u8>, n: u32, xs: &Vec<u64>)
    ensures
        final(out)@ == old(out)@ + fields_bytes(rep_fixed64(n, xs@)),
{
    proof {
        reveal(rep_fixed64);
    }
    let ghost ws = xs@.map_values(|x: u64| enc_fixed64(x));
    let mut i: usize = 0;
    assert(rep_field(n, ws.take(0)) =~= Seq::<SpecField>::empty());
    assert(old(out)@ + fields_bytes(Seq::<SpecField>::empty()) =~= old(out)@);
    while i < xs.len()
        invariant
            i <= xs@.len(),
            ws == xs@.map_values(|x: u64| enc_fixed64(x)),
            out@ == old(out)@ + fields_bytes(rep_field(n, ws.take(i as int))),
        decreases xs@.len() - i,
    {
        proof {
            lemma_rep_field_push(n, ws, i as int);
            lemma_fields_bytes_push(
                rep_field(n, ws.take(i as int)),
                SpecField { number: n, value: ws[i as int] },
            );
        }
        put_fixed64_field(out, n, xs[i]);
        assert(out@ =~= old(out)@ + fields_bytes(rep_field(n, ws.take(i + 1))));
        i = i + 1;
    }
    assert(ws.take(i as int) =~= ws);
}

/// Appends one length-delimited record per element; nested messages arrive here
/// already encoded.
pub fn put_rep_bytes(out: &mut Vec<u8>, n: u32, xs: &Vec<Vec<u8>>)
    ensures
        final(out)@ == old(out)@ + fields_bytes(rep_bytes(n, bytes_seq_view(xs@))),
{
    proof {
        reveal(rep_bytes);
    }
    let ghost ws = bytes_seq_view(xs@).map_values(|x: Seq<u8>| enc_bytes(x));
    let mut i: usize = 0;
    assert(rep_field(n, ws.take(0)) =~= Seq::<SpecField>::empty());
    assert(old(out)@ + fields_bytes(Seq::<SpecField>::empty()) =~= old(out)@);
    while i < xs.len()
        invariant
            i <= xs@.len(),
            ws == bytes_seq_view(xs@).map_values(|x: Seq<u8>| enc_bytes(x)),
            out@ == old(out)@ + fields_bytes(rep_field(n, ws.take(i as int))),
        decreases xs@.len() - i,
    {
        proof {
            lemma_rep_field_push(n, ws, i as int);
            lemma_fields_bytes_push(
                rep_field(n, ws.take(i as int)),
                SpecField { number: n, value: ws[i as int] },
            );
        }
        put_bytes_field(out, n, xs[i].as_slice());
        assert(out@ =~= old(out)@ + fields_bytes(rep_field(n, ws.take(i + 1))));
        i = i + 1;
    }
    assert(ws.take(i as int) =~= ws);
}

pub fn put_rep_string(out: &mut Vec<u8>, n: u32, xs: &Vec<String>)
    ensures
        final(out)@ == old(out)@ + fields_bytes(rep_string(n, strings_view(xs@))),
{
    proof {
        reveal(rep_string);
    }
    let ghost ws = strings_view(xs@).map_values(|x: Seq<char>| enc_string(x));
    let mut i: usize = 0;
    assert(rep_field(n, ws.take(0)) =~= Seq::<SpecField>::empty());
    assert(old(out)@ + fields_bytes(Seq::<SpecField>::empty()) =~= old(out)@);
    while i < xs.len()
        invariant
            i <= xs@.len(),
            ws == strings_view(xs@).map_values(|x: Seq<char>| enc_string(x)),
            out@ == old(out)@ + fields_bytes(rep_field(n, ws.take(i as int))),
        decreases xs@.len() - i,
    {
        proof {
            lemma_rep_field_push(n, ws, i as int);
            lemma_fields_bytes_push(
                rep_field(n, ws.take(i as int)),
                SpecField { number: n, value: ws[i as int] },
            );
        }
        put_bytes_field(out, n, xs[i].as_str().as_bytes());
        assert(out@ =~= old(out)@ + fields_bytes(rep_field(n, ws.take(i + 1))));
        i = i + 1;
    }
    assert(ws.take(i as int) =~= ws);
}

// ---------------------------------------------------------------------------
// Folding records into a message.
// ---------------------------------------------------------------------------

/// Applies the records to `v` in order, stopping at the first that `apply` refuses.
#[verifier::opaque]
pub open spec fn fold_fields<V>(
    v: V,
    fs: Seq<SpecField>,
    apply: spec_fn(V, SpecField) -> Result<V, WireError>,
) -> Result<V, WireError>
    decreases fs.len(),
{
    if fs.len() == 0 {
        Ok(v)
    } else {
        match apply(v, fs[0]) {
            Ok(w) => fold_fields(w, fs.drop_first(), apply),
            Err(e) => Err(e),
        }
    }
}

/// Folding a concatenation folds the first part, then the second from where it left.
pub proof fn lemma_fold_concat<V>(
    v: V,
    a: Seq<SpecField>,
    b: Seq<SpecField>,
    apply: spec_fn(V, SpecField) -> Result<V, WireError>,
)
    ensures
        fold_fields(v, a + b, apply) == match fold_fields(v, a, apply) {
            Ok(w) => fold_fields(w, b, apply),
            Err(e) => Err(e),
        },
    decreases a.len(),
{
    reveal(fold_fields);
    if a.len() == 0 {
        assert(a + b =~= b);
    } else {
        assert((a + b).drop_first() =~= a.drop_first() + b);
        assert((a + b)[0] == a[0]);
        if let Ok(w) = apply(v, a[0]) {
            lemma_fold_concat(w, a.drop_first(), b, apply);
        }
    }
}

/// Folding a single record applies it.
pub proof fn lemma_fold_single<V>(
    v: V,
    f: SpecField,
    apply: spec_fn(V, SpecField) -> Result<V, WireError>,
)
    ensures
        fold_fields(v, seq![f], apply) == apply(v, f),
{
    reveal(fold_fields);
    assert(seq![f].drop_first() =~= Seq::<SpecField>::empty());
    if let Ok(w) = apply(v, f) {
        assert(fold_fields(w, Seq::<SpecField>::empty(), apply) == Ok::<V, WireError>(w));
    }
}

/// Folding no records changes nothing.
pub proof fn lemma_fold_empty<V>(v: V, apply: spec_fn(V, SpecField) -> Result<V, WireError>)
    ensures
        fold_fields(v, Seq::<SpecField>::empty(), apply) == Ok::<V, WireError>(v),
{
    reveal(fold_fields);
}

/// Folding an optional field: nothing when absent, one application when present.
pub proof fn lemma_fold_opt<V>(
    v: V,
    n: u32,
    o: Option<SpecValue>,
    apply: spec_fn(V, SpecField) -> Result<V, WireError>,
)
    ensures
        fold_fields(v, opt_field(n, o), apply) == match o {
            Some(w) => apply(v, SpecField { number: n, value: w }),
            None => Ok(v),
        },
{
    reveal(fold_fields);
    if let Some(w) = o {
        lemma_fold_single(v, SpecField { number: n, value: w }, apply);
    }
}

/// Folding a run of records that takes each state of `states` to the next ends in the last.
pub proof fn lemma_fold_chain<V>(
    fs: Seq<SpecField>,
    states: Seq<V>,
    apply: spec_fn(V, SpecField) -> Result<V, WireError>,
)
    requires
        states.len() == fs.len() + 1,
        forall|j: int|
            0 <= j < fs.len() ==> #[trigger] apply(states[j], fs[j]) == Ok::<V, WireError>(
                states[j + 1],
            ),
    ensures
        fold_fields(states[0], fs, apply) == Ok::<V, WireError>(states[fs.len() as int]),
    decreases fs.len(),
{
    reveal(fold_fields);
    if fs.len() > 0 {
        let rest = fs.drop_first();
        let st = states.drop_first();
        assert forall|j: int| 0 <= j < rest.len() implies #[trigger] apply(st[j], rest[j])
            == Ok::<V, WireError>(st[j + 1]) by {
            assert(apply(states[j + 1], fs[j + 1]) == Ok::<V, WireError>(states[j + 2]));
        }
        assert(apply(states[0], fs[0]) == Ok::<V, WireError>(states[1]));
        lemma_fold_chain(rest, st, apply);
    }
}

// ---------------------------------------------------------------------------
// Kinds read back what they wrote.
// ---------------------------------------------------------------------------

pub proof fn lemma_i32_roundtrip(x: i32)
    ensures
        dec_i32(enc_i32(x)) == Ok::<i32, WireError>(x),
        dec_packed_i32(enc_i32(x)) == Ok::<Seq<i32>, WireError>(seq![x]),
{
    assert(((x as u64) as i32) == x) by (bit_vector);
    assert(low_i32s(seq![x as u64]) =~= seq![x]);
}

pub proof fn lemma_i64_roundtrip(x: i64)
    ensures
        dec_i64(enc_i64(x)) == Ok::<i64, WireError>(x),
{
    assert(((x as u64) as i64) == x) by (bit_vector);
}

pub proof fn lemma_u32_roundtrip(x: u32)
    ensures
        dec_u32(enc_u32(x)) == Ok::<u32, WireError>(x),
        dec_packed_u32(enc_u32(x)) == Ok::<Seq<u32>, WireError>(seq![x]),
{
    assert(low_u32s(seq![x as u64]) =~= seq![x]);
}

pub proof fn lemma_u64_roundtrip(x: u64)
    ensures
        dec_u64(enc_u64(x)) == Ok::<u64, WireError>(x),
        dec_packed_varint(enc_u64(x)) == Ok::<Seq<u64>, WireError>(seq![x]),
        dec_fixed64(enc_fixed64(x)) == Ok::<u64, WireError>(x),
        dec_packed_fixed64(enc_fixed64(x)) == Ok::<Seq<u64>, WireError>(seq![x]),
{
}

pub proof fn lemma_string_roundtrip(s: Seq<char>)
    ensures
        dec_string(enc_string(s)) == Ok::<Seq<char>, WireError>(s),
{
}

// ---------------------------------------------------------------------------
// Reading records into a message as they come.
// ---------------------------------------------------------------------------

/// Reads the records of `s` into `v` one by one, as a decoder meets them: the message
/// when the reading stops, and the error that stopped it, if one did. A record that
/// does not parse, or that `apply` refuses, stops the reading with `v` as it stood
/// before that record.
#[verifier::opaque]
pub open spec fn merge_run<V>(
    v: V,
    s: Seq<u8>,
    apply: spec_fn(V, SpecField) -> Result<V, WireError>,
) -> (V, Option<WireError>)
    decreases s.len(),
{
    if s.len() == 0 {
        (v, None)
    } else {
        match parse_field(s) {
            Ok((f, n)) => if 0 < n <= s.len() {
                match apply(v, f) {
                    Ok(w) => merge_run(w, s.skip(n as int), apply),
                    Err(e) => (v, Some(e)),
                }
            } else {
                (v, Some(WireError::UnexpectedEnd))
            },
            Err(e) => (v, Some(e)),
        }
    }
}

/// Reading nothing leaves the message as it is.
pub proof fn lemma_merge_run_empty<V>(v: V, apply: spec_fn(V, SpecField) -> Result<V, WireError>)
    ensures
        merge_run(v, Seq::<u8>::empty(), apply) == (v, None::<WireError>),
{
    reveal(merge_run);
}

/// One step of the reading: the first record, then the rest from where it ends.
pub proof fn lemma_merge_run_step<V>(
    v: V,
    s: Seq<u8>,
    apply: spec_fn(V, SpecField) -> Result<V, WireError>,
)
    requires
        s.len() > 0,
    ensures
        merge_run(v, s, apply) == match parse_field(s) {
            Ok((f, n)) => match apply(v, f) {
                Ok(w) => merge_run(w, s.skip(n as int), apply),
                Err(e) => (v, Some(e)),
            },
            Err(e) => (v, Some(e)),
        },
{
    reveal(merge_run);
    lemma_parse_field_len(s);
}

/// On bytes that split into records, reading them one by one ends where the fold of
/// those records ends, and fails with the error the fold fails with.
pub proof fn lemma_merge_run_fold<V>(
    v: V,
    s: Seq<u8>,
    apply: spec_fn(V, SpecField) -> Result<V, WireError>,
)
    requires
        parse_fields(s) is Ok,
    ensures
        match fold_fields(v, parse_fields(s).unwrap(), apply) {
            Ok(w) => merge_run(v, s, apply) == (w, None::<WireError>),
            Err(e) => merge_run(v, s, apply).1 == Some(e),
        },
    decreases s.len(),
{
    reveal(merge_run);
    reveal(parse_fields);
    reveal(fold_fields);
    if s.len() > 0 {
        let (f, n) = parse_field(s).unwrap();
        let rest = parse_fields(s.skip(n as int)).unwrap();
        let fs = seq![f] + rest;
        assert(parse_fields(s).unwrap() == fs);
        assert(fs[0] == f);
        assert(fs.drop_first() =~= rest);
        if let Ok(w) = apply(v, f) {
            lemma_merge_run_fold(w, s.skip(n as int), apply);
        }
    }
}

} // verus!
