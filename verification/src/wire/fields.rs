use vstd::prelude::*;

use crate::wire::fixed::{
    decode_fixed32, decode_fixed64, encode_fixed32, encode_fixed64, fixed32_at, fixed64_at,
    lemma_fixed32_roundtrip, lemma_fixed64_roundtrip, put_fixed32, put_fixed64,
};
use crate::wire::varint::{
    lemma_parse_varint_extend,
    encode_varint, lemma_encode_varint_len, lemma_parse_varint_len, lemma_varint_roundtrip,
    parse_varint, put_varint, read_varint, WireError,
};

verus! {

/// The largest field number protobuf allows.
pub const MAX_FIELD_NUMBER: u32 = 536870911;

/// The payload of one field record, as it travels.
pub enum SpecValue {
    Varint(u64),
    Fixed64(u64),
    Bytes(Seq<u8>),
    Fixed32(u32),
}

/// One field record: its number and its payload.
pub struct SpecField {
    pub number: u32,
    pub value: SpecValue,
}

/// The payload of one field record read off the wire.
#[derive(Debug, PartialEq, Eq)]
pub enum FieldValue {
    Varint(u64),
    Fixed64(u64),
    Bytes(Vec<u8>),
    Fixed32(u32),
}

/// One field record read off the wire.
#[derive(Debug, PartialEq, Eq)]
pub struct Field {
    pub number: u32,
    pub value: FieldValue,
}

impl View for FieldValue {
    type V = SpecValue;

    open spec fn view(&self) -> SpecValue {
        match self {
            FieldValue::Varint(v) => SpecValue::Varint(*v),
            FieldValue::Fixed64(v) => SpecValue::Fixed64(*v),
            FieldValue::Bytes(b) => SpecValue::Bytes(b@),
            FieldValue::Fixed32(v) => SpecValue::Fixed32(*v),
        }
    }
}

impl View for Field {
    type V = SpecField;

    open spec fn view(&self) -> SpecField {
        SpecField { number: self.number, value: self.value@ }
    }
}

pub open spec fn fields_view(fs: Seq<Field>) -> Seq<SpecField> {
    fs.map_values(|f: Field| f@)
}

/// The wire type a payload travels under.
pub open spec fn wire_type(v: SpecValue) -> u64 {
    match v {
        SpecValue::Varint(_) => 0,
        SpecValue::Fixed64(_) => 1,
        SpecValue::Bytes(_) => 2,
        SpecValue::Fixed32(_) => 5,
    }
}

/// The key of a record: its number shifted past the three wire-type bits.
pub open spec fn key_of(f: SpecField) -> u64 {
    ((f.number as int) * 8 + wire_type(f.value)) as u64
}

/// The bytes of a payload after its key; a byte string is preceded by its length.
pub open spec fn payload_bytes(v: SpecValue) -> Seq<u8> {
    match v {
        SpecValue::Varint(x) => encode_varint(x),
        SpecValue::Fixed64(x) => encode_fixed64(x),
        SpecValue::Bytes(b) => encode_varint(b.len() as u64) + b,
        SpecValue::Fixed32(x) => encode_fixed32(x),
    }
}

/// The bytes of one record.
pub open spec fn field_bytes(f: SpecField) -> Seq<u8> {
    encode_varint(key_of(f)) + payload_bytes(f.value)
}

/// The bytes of a run of records, one after the other.
pub open spec fn fields_bytes(fs: Seq<SpecField>) -> Seq<u8>
    decreases fs.len(),
{
    if fs.len() == 0 {
        Seq::empty()
    } else {
        fields_bytes(fs.drop_last()) + field_bytes(fs.last())
    }
}

/// A record the codec can write so that it reads back the same: a legal number and a
/// payload whose length fits in a varint.
pub open spec fn field_wf(f: SpecField) -> bool {
    &&& 1 <= f.number <= MAX_FIELD_NUMBER
    &&& match f.value {
        SpecValue::Bytes(b) => b.len() <= u64::MAX,
        _ => true,
    }
}

#[verifier::opaque]
pub open spec fn fields_wf(fs: Seq<SpecField>) -> bool {
    forall|i: int| 0 <= i < fs.len() ==> field_wf(#[trigger] fs[i])
}

#[verifier::opaque]
pub open spec fn numbers_ok(fs: Seq<SpecField>) -> bool {
    forall|i: int| 0 <= i < fs.len() ==> 1 <= (#[trigger] fs[i]).number <= MAX_FIELD_NUMBER
}

/// The record at the start of `s` and how many bytes it takes.
pub open spec fn parse_field(s: Seq<u8>) -> Result<(SpecField, nat), WireError> {
    match parse_varint(s) {
        Err(e) => Err(e),
        Ok((key, kn)) => {
            let number = key / 8;
            let rest = s.skip(kn as int);
            if number == 0 || number > MAX_FIELD_NUMBER {
                Err(WireError::InvalidFieldNumber)
            } else if key % 8 == 0 {
                match parse_varint(rest) {
                    Ok((v, n)) => Ok(
                        (SpecField { number: number as u32, value: SpecValue::Varint(v) }, kn + n),
                    ),
                    Err(e) => Err(e),
                }
            } else if key % 8 == 1 {
                if rest.len() < 8 {
                    Err(WireError::UnexpectedEnd)
                } else {
                    Ok(
                        (
                            SpecField {
                                number: number as u32,
                                value: SpecValue::Fixed64(decode_fixed64(rest)),
                            },
                            kn + 8,
                        ),
                    )
                }
            } else if key % 8 == 2 {
                match parse_varint(rest) {
                    Ok((len, n)) => if rest.len() - n < len {
                        Err(WireError::UnexpectedEnd)
                    } else {
                        Ok(
                            (
                                SpecField {
                                    number: number as u32,
                                    value: SpecValue::Bytes(rest.subrange(n as int, n + len)),
                                },
                                kn + n + len as nat,
                            ),
                        )
                    },
                    Err(e) => Err(e),
                }
            } else if key % 8 == 5 {
                if rest.len() < 4 {
                    Err(WireError::UnexpectedEnd)
                } else {
                    Ok(
                        (
                            SpecField {
                                number: number as u32,
                                value: SpecValue::Fixed32(decode_fixed32(rest)),
                            },
                            kn + 4,
                        ),
                    )
                }
            } else {
                Err(WireError::UnsupportedWireType)
            }
        },
    }
}

/// The records `s` holds, in order, or why it does not split into records.
#[verifier::opaque]
pub open spec fn parse_fields(s: Seq<u8>) -> Result<Seq<SpecField>, WireError>
    decreases s.len(),
{
    if s.len() == 0 {
        Ok(Seq::empty())
    } else {
        match parse_field(s) {
            Ok((f, n)) => if 0 < n <= s.len() {
                match parse_fields(s.skip(n as int)) {
                    Ok(fs) => Ok(seq![f] + fs),
                    Err(e) => Err(e),
                }
            } else {
                Err(WireError::UnexpectedEnd)
            },
            Err(e) => Err(e),
        }
    }
}

/// A record always takes at least one byte and never more than the input holds.
pub proof fn lemma_parse_field_len(s: Seq<u8>)
    ensures
        parse_field(s) matches Ok((f, n)) ==> 0 < n <= s.len() && 1 <= f.number <= MAX_FIELD_NUMBER,
{
    lemma_parse_varint_len(s);
    if let Ok((key, kn)) = parse_varint(s) {
        lemma_parse_varint_len(s.skip(kn as int));
    }
}

/// What follows a record does not change how it reads.
pub proof fn lemma_parse_field_extend(s: Seq<u8>, t: Seq<u8>)
    requires
        parse_field(s) is Ok,
    ensures
        parse_field(s + t) == parse_field(s),
{
    lemma_parse_varint_extend(s, t);
    lemma_parse_varint_len(s);
    let (key, kn) = parse_varint(s).unwrap();
    let rest = s.skip(kn as int);
    assert((s + t).skip(kn as int) =~= rest + t);
    let number = key / 8;
    if number != 0 && number <= MAX_FIELD_NUMBER {
        if key % 8 == 0 || key % 8 == 2 {
            lemma_parse_varint_extend(rest, t);
            lemma_parse_varint_len(rest);
            if key % 8 == 2 {
                let (len, n) = parse_varint(rest).unwrap();
                if rest.len() - n >= len {
                    assert((rest + t).subrange(n as int, n + len) =~= rest.subrange(
                        n as int,
                        n + len,
                    ));
                }
            }
        } else if key % 8 == 1 && rest.len() >= 8 {
            assert(decode_fixed64(rest + t) == decode_fixed64(rest)) by {
                assert(forall|i: int| 0 <= i < 8 ==> (rest + t)[i] == rest[i]);
            }
        } else if key % 8 == 5 && rest.len() >= 4 {
            assert(decode_fixed32(rest + t) == decode_fixed32(rest)) by {
                assert(forall|i: int| 0 <= i < 4 ==> (rest + t)[i] == rest[i]);
            }
        }
    }
}

/// Bytes that split into records, followed by one more well-formed record, split into the
/// same records and that one.
pub proof fn lemma_parse_fields_append(s: Seq<u8>, f: SpecField)
    requires
        parse_fields(s) is Ok,
        field_wf(f),
    ensures
        parse_fields(s + field_bytes(f)) == Ok::<Seq<SpecField>, WireError>(
            parse_fields(s).unwrap().push(f),
        ),
    decreases s.len(),
{
    reveal(parse_fields);
    let x = field_bytes(f);
    if s.len() == 0 {
        assert(s + x =~= x);
        assert(fields_wf(seq![f])) by {
            reveal(fields_wf);
        }
        lemma_fields_roundtrip(seq![f]);
        lemma_fields_bytes_push(Seq::<SpecField>::empty(), f);
        assert(Seq::<SpecField>::empty().push(f) =~= seq![f]);
        assert(fields_bytes(Seq::<SpecField>::empty()) =~= Seq::<u8>::empty());
        assert(Seq::<u8>::empty() + field_bytes(f) =~= field_bytes(f));
        assert(parse_fields(s).unwrap() =~= Seq::<SpecField>::empty());
    } else {
        lemma_parse_field_len(s);
        lemma_parse_field_extend(s, x);
        let (g, n) = parse_field(s).unwrap();
        assert((s + x).skip(n as int) =~= s.skip(n as int) + x);
        lemma_parse_fields_append(s.skip(n as int), f);
        let rest = parse_fields(s.skip(n as int)).unwrap();
        assert(seq![g] + rest.push(f) =~= (seq![g] + rest).push(f));
    }
}

/// Copies `src` onto the end of `out`.
pub fn push_all(out: &mut Vec<u8>, src: &[u8])
    ensures
        final(out)@ == old(out)@ + src@,
{
    let mut i: usize = 0;
    while i < src.len()
        invariant
            i <= src@.len(),
            out@ == old(out)@ + src@.subrange(0, i as int),
        decreases src@.len() - i,
    {
        out.push(src[i]);
        i = i + 1;
        assert(out@ =~= old(out)@ + src@.subrange(0, i as int));
    }
    assert(src@.subrange(0, src@.len() as int) =~= src@);
}

/// Reads the record that starts at `pos`: the record and the position just past it.
pub fn read_field(buf: &[u8], pos: usize) -> (r: Result<(Field, usize), WireError>)
    requires
        pos <= buf@.len(),
    ensures
        match parse_field(buf@.skip(pos as int)) {
            Ok((f, n)) => r matches Ok((g, end)) && g@ == f && end == pos + n,
            Err(e) => r == Err::<(Field, usize), WireError>(e),
        },
{
    let ghost s = buf@.skip(pos as int);
    proof {
        lemma_parse_varint_len(s);
    }
    let (key, after_key) = match read_varint(buf, pos) {
        Ok(x) => x,
        Err(e) => return Err(e),
    };
    let ghost kn = (after_key - pos) as nat;
    assert(parse_varint(s) == Ok::<(u64, nat), WireError>((key, kn)));
    assert(kn <= s.len());
    assert(buf@.skip(after_key as int) =~= s.skip(kn as int));
    let number = key / 8;
    if number == 0 || number > MAX_FIELD_NUMBER as u64 {
        return Err(WireError::InvalidFieldNumber);
    }
    let number = number as u32;
    let wt = key % 8;
    if wt == 0 {
        proof {
            lemma_parse_varint_len(s.skip(kn as int));
        }
        match read_varint(buf, after_key) {
            Ok((v, end)) => Ok((Field { number, value: FieldValue::Varint(v) }, end)),
            Err(e) => Err(e),
        }
    } else if wt == 1 {
        if buf.len() - after_key < 8 {
            return Err(WireError::UnexpectedEnd);
        }
        let v = fixed64_at(buf, after_key);
        Ok((Field { number, value: FieldValue::Fixed64(v) }, after_key + 8))
    } else if wt == 2 {
        proof {
            lemma_parse_varint_len(s.skip(kn as int));
        }
        let (len, start) = match read_varint(buf, after_key) {
            Ok(x) => x,
            Err(e) => return Err(e),
        };
        if ((buf.len() - start) as u64) < len {
            return Err(WireError::UnexpectedEnd);
        }
        let end = start + len as usize;
        let mut payload: Vec<u8> = Vec::new();
        let mut i = start;
        while i < end
            invariant
                start <= i <= end <= buf@.len(),
                payload@ == buf@.subrange(start as int, i as int),
            decreases end - i,
        {
            payload.push(buf[i]);
            i = i + 1;
            assert(payload@ =~= buf@.subrange(start as int, i as int));
        }
        proof {
            let n = (start - after_key) as nat;
            assert(s.skip(kn as int).subrange(n as int, n + len) =~= buf@.subrange(
                start as int,
                end as int,
            ));
        }
        Ok((Field { number, value: FieldValue::Bytes(payload) }, end))
    } else if wt == 5 {
        if buf.len() - after_key < 4 {
            return Err(WireError::UnexpectedEnd);
        }
        let v = fixed32_at(buf, after_key);
        Ok((Field { number, value: FieldValue::Fixed32(v) }, after_key + 4))
    } else {
        Err(WireError::UnsupportedWireType)
    }
}

/// Splits `buf` into its records.
pub fn read_fields(buf: &[u8]) -> (r: Result<Vec<Field>, WireError>)
    ensures
        match parse_fields(buf@) {
            Ok(fs) => r matches Ok(v) && fields_view(v@) == fs,
            Err(e) => r == Err::<Vec<Field>, WireError>(e),
        },
{
    proof {
        reveal(parse_fields);
    }
    let mut out: Vec<Field> = Vec::new();
    let mut pos: usize = 0;
    assert(buf@.skip(0) =~= buf@);
    while pos < buf.len()
        invariant
            pos <= buf@.len(),
            parse_fields(buf@) == (match parse_fields(buf@.skip(pos as int)) {
                Ok(rest) => Ok::<Seq<SpecField>, WireError>(fields_view(out@) + rest),
                Err(e) => Err::<Seq<SpecField>, WireError>(e),
            }),
        decreases buf@.len() - pos,
    {
        let ghost s = buf@.skip(pos as int);
        proof {
            reveal(parse_fields);
            lemma_parse_field_len(s);
        }
        match read_field(buf, pos) {
            Ok((f, end)) => {
                let ghost before = out@;
                assert(buf@.skip(end as int) =~= s.skip((end - pos) as int));
                out.push(f);
                assert(fields_view(out@) =~= fields_view(before) + seq![f@]);
                proof {
                    if let Ok(rest) = parse_fields(buf@.skip(end as int)) {
                        assert(fields_view(before) + (seq![f@] + rest) =~= fields_view(out@)
                            + rest);
                    }
                }
                pos = end;
            },
            Err(e) => {
                return Err(e);
            },
        }
    }
    assert(buf@.skip(pos as int) =~= Seq::<u8>::empty());
    assert(fields_view(out@) + Seq::<SpecField>::empty() =~= fields_view(out@));
    Ok(out)
}

/// Appends the key of a record with number `number` and wire type `wt`.
fn put_key(out: &mut Vec<u8>, number: u32, wt: u64)
    requires
        wt < 8,
    ensures
        final(out)@ == old(out)@ + encode_varint(((number as int) * 8 + wt) as u64),
{
    put_varint(out, (number as u64) * 8 + wt);
}

/// Appends a varint record.
pub fn put_varint_field(out: &mut Vec<u8>, number: u32, v: u64)
    ensures
        final(out)@ == old(out)@ + field_bytes(
            SpecField { number, value: SpecValue::Varint(v) },
        ),
{
    let ghost before = out@;
    put_key(out, number, 0);
    put_varint(out, v);
    assert(out@ =~= before + field_bytes(SpecField { number, value: SpecValue::Varint(v) }));
}

/// Appends an eight-byte record.
pub fn put_fixed64_field(out: &mut Vec<u8>, number: u32, v: u64)
    ensures
        final(out)@ == old(out)@ + field_bytes(
            SpecField { number, value: SpecValue::Fixed64(v) },
        ),
{
    let ghost before = out@;
    put_key(out, number, 1);
    put_fixed64(out, v);
    assert(out@ =~= before + field_bytes(SpecField { number, value: SpecValue::Fixed64(v) }));
}

/// Appends a four-byte record.
pub fn put_fixed32_field(out: &mut Vec<u8>, number: u32, v: u32)
    ensures
        final(out)@ == old(out)@ + field_bytes(
            SpecField { number, value: SpecValue::Fixed32(v) },
        ),
{
    let ghost before = out@;
    put_key(out, number, 5);
    put_fixed32(out, v);
    assert(out@ =~= before + field_bytes(SpecField { number, value: SpecValue::Fixed32(v) }));
}

/// Appends a length-delimited record.
pub fn put_bytes_field(out: &mut Vec<u8>, number: u32, b: &[u8])
    ensures
        final(out)@ == old(out)@ + field_bytes(
            SpecField { number, value: SpecValue::Bytes(b@) },
        ),
{
    let ghost before = out@;
    put_key(out, number, 2);
    put_varint(out, b.len() as u64);
    push_all(out, b);
    assert(out@ =~= before + field_bytes(SpecField { number, value: SpecValue::Bytes(b@) }));
}

/// The bytes of two runs of records are the bytes of each, one after the other.
pub proof fn lemma_fields_bytes_concat(a: Seq<SpecField>, b: Seq<SpecField>)
    ensures
        fields_bytes(a + b) == fields_bytes(a) + fields_bytes(b),
    decreases b.len(),
{
    if b.len() == 0 {
        assert(a + b =~= a);
        assert(fields_bytes(a) + fields_bytes(b) =~= fields_bytes(a));
    } else {
        assert((a + b).drop_last() =~= a + b.drop_last());
        assert((a + b).last() == b.last());
        lemma_fields_bytes_concat(a, b.drop_last());
        assert(fields_bytes(a) + fields_bytes(b.drop_last()) + field_bytes(b.last())
            =~= fields_bytes(a) + (fields_bytes(b.drop_last()) + field_bytes(b.last())));
    }
}

/// Appending one record appends its bytes.
pub proof fn lemma_fields_bytes_push(a: Seq<SpecField>, f: SpecField)
    ensures
        fields_bytes(a.push(f)) == fields_bytes(a) + field_bytes(f),
{
    assert(a.push(f).drop_last() =~= a);
}

/// Reading back an encoded record gives the record, whatever follows it.
pub proof fn lemma_field_roundtrip(f: SpecField, rest: Seq<u8>)
    requires
        field_wf(f),
    ensures
        parse_field(field_bytes(f) + rest) == Ok::<(SpecField, nat), WireError>(
            (f, field_bytes(f).len()),
        ),
{
    let key = key_of(f);
    let p = payload_bytes(f.value);
    let s = field_bytes(f) + rest;
    assert(s =~= encode_varint(key) + (p + rest));
    lemma_varint_roundtrip(key, p + rest);
    let kn = encode_varint(key).len();
    assert(s.skip(kn as int) =~= p + rest);
    assert(key / 8 == f.number);
    match f.value {
        SpecValue::Varint(x) => {
            assert(key % 8 == 0);
            lemma_varint_roundtrip(x, rest);
        },
        SpecValue::Fixed64(x) => {
            assert(key % 8 == 1);
            lemma_fixed64_roundtrip(x, rest);
        },
        SpecValue::Bytes(b) => {
            assert(key % 8 == 2);
            assert(p + rest =~= encode_varint(b.len() as u64) + (b + rest));
            lemma_varint_roundtrip(b.len() as u64, b + rest);
            let n = encode_varint(b.len() as u64).len();
            assert((p + rest).subrange(n as int, (n + b.len()) as int) =~= b);
        },
        SpecValue::Fixed32(x) => {
            assert(key % 8 == 5);
            lemma_fixed32_roundtrip(x, rest);
        },
    }
}

/// Splitting the bytes of well-formed records gives back the records.
pub proof fn lemma_fields_roundtrip(fs: Seq<SpecField>)
    requires
        fields_wf(fs),
    ensures
        parse_fields(fields_bytes(fs)) == Ok::<Seq<SpecField>, WireError>(fs),
    decreases fs.len(),
{
    reveal(fields_wf);
    reveal(parse_fields);
    if fs.len() == 0 {
        assert(fs =~= Seq::<SpecField>::empty());
    } else {
        let f = fs[0];
        let rest = fs.drop_first();
        assert(seq![f] + rest =~= fs);
        lemma_fields_bytes_concat(seq![f], rest);
        lemma_fields_bytes_push(Seq::<SpecField>::empty(), f);
        assert(Seq::<SpecField>::empty().push(f) =~= seq![f]);
        assert(fields_bytes(Seq::<SpecField>::empty()) =~= Seq::<u8>::empty());
        assert(fields_bytes(seq![f]) =~= field_bytes(f));
        assert(field_wf(fs[0]));
        lemma_field_roundtrip(f, fields_bytes(rest));
        let s = fields_bytes(fs);
        let n = field_bytes(f).len();
        assert(s =~= field_bytes(f) + fields_bytes(rest));
        assert(parse_field(s) == Ok::<(SpecField, nat), WireError>((f, n)));
        assert(s.skip(n as int) =~= fields_bytes(rest));
        assert(fields_wf(rest)) by {
            assert forall|i: int| 0 <= i < rest.len() implies field_wf(#[trigger] rest[i]) by {
                assert(rest[i] == fs[i + 1]);
            }
        }
        lemma_fields_roundtrip(rest);
        lemma_encode_varint_len(key_of(f));
        assert(0 < n <= s.len());
        assert(parse_fields(s) == Ok::<Seq<SpecField>, WireError>(seq![f] + rest));
    }
}

/// Well-formedness of a concatenation is well-formedness of both parts.
pub proof fn lemma_fields_wf_concat(a: Seq<SpecField>, b: Seq<SpecField>)
    ensures
        fields_wf(a + b) <==> fields_wf(a) && fields_wf(b),
        numbers_ok(a + b) <==> numbers_ok(a) && numbers_ok(b),
{
    reveal(fields_wf);
    reveal(numbers_ok);
    if fields_wf(a + b) {
        assert forall|i: int| 0 <= i < a.len() implies field_wf(#[trigger] a[i]) by {
            assert(a[i] == (a + b)[i]);
        }
        assert forall|i: int| 0 <= i < b.len() implies field_wf(#[trigger] b[i]) by {
            assert(b[i] == (a + b)[i + a.len()]);
        }
    }
    if numbers_ok(a + b) {
        assert forall|i: int| 0 <= i < a.len() implies 1 <= (#[trigger] a[i]).number
            <= MAX_FIELD_NUMBER by {
            assert(a[i] == (a + b)[i]);
        }
        assert forall|i: int| 0 <= i < b.len() implies 1 <= (#[trigger] b[i]).number
            <= MAX_FIELD_NUMBER by {
            assert(b[i] == (a + b)[i + a.len()]);
        }
    }
}

/// Records with legal numbers whose bytes fit a 64-bit length are well-formed.
pub proof fn lemma_fields_wf_from_len(fs: Seq<SpecField>)
    requires
        numbers_ok(fs),
        fields_bytes(fs).len() <= u64::MAX,
    ensures
        fields_wf(fs),
    decreases fs.len(),
{
    reveal(fields_wf);
    reveal(numbers_ok);
    if fs.len() > 0 {
        let init = fs.drop_last();
        assert(fs =~= init + seq![fs.last()]);
        lemma_fields_wf_concat(init, seq![fs.last()]);
        lemma_fields_wf_from_len(init);
        let f = fs.last();
        assert(1 <= fs[fs.len() - 1].number <= MAX_FIELD_NUMBER);
        assert(field_wf(f));
        assert forall|i: int| 0 <= i < fs.len() implies field_wf(#[trigger] fs[i]) by {
            if i < fs.len() - 1 {
                assert(fs[i] == init[i]);
            }
        }
    }
}

} // verus!
