//! Types nested inside `file_mapping`.


use vstd::prelude::*;

use crate::codec::{
    bytes_seq_view, dec_bytes, dec_fixed32, dec_u32, dec_u64, enc_bytes, enc_fixed32, enc_u32,
    enc_u64, fold_fields, lemma_fold_concat, lemma_fold_empty, lemma_fold_opt,
    lemma_fold_single, lemma_merge_run_empty, lemma_merge_run_fold, lemma_merge_run_step,
    lemma_opt_bytes_numbered, lemma_opt_fixed32_numbered, lemma_opt_u32_numbered,
    lemma_opt_u64_numbered, lemma_u32_roundtrip, lemma_u64_roundtrip, merge_run, opt_bytes,
    opt_bytes_view, opt_fixed32, opt_u32, opt_u64, put_opt_bytes, put_opt_fixed32, put_opt_u32,
    put_opt_varint, read_bytes, read_fixed32, read_u32, read_u64,
};

use crate::wire::fields::{
    field_bytes, field_wf, fields_bytes, fields_wf, lemma_fields_bytes_concat,
    lemma_fields_roundtrip, lemma_fields_wf_concat, lemma_fields_wf_from_len,
    lemma_parse_field_len, lemma_parse_fields_append, numbers_ok, parse_fields, read_field,
    Field, SpecField,
};
use crate::wire::varint::WireError;

verus! {

/// `ChunkData`, as Valve's schema declares it.
#[derive(Debug, Clone, PartialEq)]
pub struct ChunkData {
    /// Field 1.
    pub sha: Option<Vec<u8>>,
    /// Field 2.
    pub crc: Option<u32>,
    /// Field 3.
    pub offset: Option<u64>,
    /// Field 4.
    pub cb_original: Option<u32>,
    /// Field 5.
    pub cb_compressed: Option<u32>,
}

/// What a `ChunkData` holds, as mathematical values.
#[verifier::ext_equal]
pub struct SpecChunkData {
    pub sha: Option<Seq<u8>>,
    pub crc: Option<u32>,
    pub offset: Option<u64>,
    pub cb_original: Option<u32>,
    pub cb_compressed: Option<u32>,
}

impl View for ChunkData {
    type V = SpecChunkData;

    open spec fn view(&self) -> SpecChunkData {
        SpecChunkData {
            sha: opt_bytes_view(self.sha),
            crc: self.crc,
            offset: self.offset,
            cb_original: self.cb_original,
            cb_compressed: self.cb_compressed,
        }
    }
}

impl Default for ChunkData {
    fn default() -> (r: Self)
        ensures
            r@ == ChunkData::spec_default(),
    {
        ChunkData {
            sha: None,
            crc: None,
            offset: None,
            cb_original: None,
            cb_compressed: None,
        }
    }
}

impl ChunkData {
    pub open spec fn spec_default() -> SpecChunkData {
        SpecChunkData {
            sha: None,
            crc: None,
            offset: None,
            cb_original: None,
            cb_compressed: None,
        }
    }

    /// The records a `ChunkData` is written as, in field order.
    pub open spec fn spec_fields(v: SpecChunkData) -> Seq<SpecField> {
        Seq::<SpecField>::empty()
            + opt_bytes(1, v.sha)
            + opt_fixed32(2, v.crc)
            + opt_u64(3, v.offset)
            + opt_u32(4, v.cb_original)
            + opt_u32(5, v.cb_compressed)
    }

    #[verifier::opaque]
    pub open spec fn spec_encode(v: SpecChunkData) -> Seq<u8> {
        fields_bytes(Self::spec_fields(v))
    }

    /// What one record does to the message: a declared number sets or extends its
    /// field, any other number is left alone.
    pub open spec fn spec_apply(v: SpecChunkData, f: SpecField) -> Result<SpecChunkData, WireError> {
        match f.number {
            1 => match dec_bytes(f.value) {
                Ok(x) => Ok(SpecChunkData { sha: Some(x), ..v }),
                Err(e) => Err(e),
            },
            2 => match dec_fixed32(f.value) {
                Ok(x) => Ok(SpecChunkData { crc: Some(x), ..v }),
                Err(e) => Err(e),
            },
            3 => match dec_u64(f.value) {
                Ok(x) => Ok(SpecChunkData { offset: Some(x), ..v }),
                Err(e) => Err(e),
            },
            4 => match dec_u32(f.value) {
                Ok(x) => Ok(SpecChunkData { cb_original: Some(x), ..v }),
                Err(e) => Err(e),
            },
            5 => match dec_u32(f.value) {
                Ok(x) => Ok(SpecChunkData { cb_compressed: Some(x), ..v }),
                Err(e) => Err(e),
            },
            _ => Ok(v),
        }
    }

    pub open spec fn apply_fn() -> spec_fn(SpecChunkData, SpecField) -> Result<SpecChunkData, WireError> {
        |v: SpecChunkData, f: SpecField| Self::spec_apply(v, f)
    }

    /// The message `bytes` makes of `v`: its records applied in order, or the error
    /// that stops the reading.
    pub open spec fn spec_merge(v: SpecChunkData, bytes: Seq<u8>) -> Result<SpecChunkData, WireError> {
        let (w, stop) = merge_run(v, bytes, Self::apply_fn());
        match stop {
            None => Ok(w),
            Some(e) => Err(e),
        }
    }

    #[verifier::opaque]
    pub open spec fn spec_decode(bytes: Seq<u8>) -> Result<SpecChunkData, WireError> {
        Self::spec_merge(Self::spec_default(), bytes)
    }

    pub open spec fn view_all(xs: Seq<ChunkData>) -> Seq<SpecChunkData> {
        xs.map_values(|m: ChunkData| m@)
    }

    pub open spec fn view_opt(o: Option<ChunkData>) -> Option<SpecChunkData> {
        match o {
            Some(m) => Some(m@),
            None => None,
        }
    }

    pub open spec fn spec_encode_all(xs: Seq<SpecChunkData>) -> Seq<Seq<u8>> {
        xs.map_values(|m: SpecChunkData| Self::spec_encode(m))
    }

    pub open spec fn spec_encode_opt(o: Option<SpecChunkData>) -> Option<Seq<u8>> {
        match o {
            Some(m) => Some(Self::spec_encode(m)),
            None => None,
        }
    }

    /// The encoding of each element.
    pub fn encode_all(xs: &Vec<ChunkData>) -> (r: Vec<Vec<u8>>)
        ensures
            bytes_seq_view(r@) == Self::spec_encode_all(Self::view_all(xs@)),
    {
        let mut out: Vec<Vec<u8>> = Vec::new();
        let mut i: usize = 0;
        while i < xs.len()
            invariant
                i <= xs@.len(),
                out@.len() == i,
                forall|j: int| 0 <= j < i ==> #[trigger] out@[j]@ == Self::spec_encode(xs@[j]@),
            decreases xs@.len() - i,
        {
            let e = xs[i].encode_to_vec();
            out.push(e);
            i = i + 1;
        }
        assert(bytes_seq_view(out@) =~= Self::spec_encode_all(Self::view_all(xs@)));
        out
    }

    /// The encoding of the element, when there is one.
    pub fn encode_opt(o: &Option<ChunkData>) -> (r: Option<Vec<u8>>)
        ensures
            opt_bytes_view(r) == Self::spec_encode_opt(Self::view_opt(*o)),
    {
        match o {
            Some(m) => Some(m.encode_to_vec()),
            None => None,
        }
    }

    /// This message with one record applied to it, or, when the record is refused,
    /// the message unchanged and the reason.
    fn applied(self, f: &Field) -> (r: Result<Self, (Self, WireError)>)
        ensures
            match Self::spec_apply(self@, f@) {
                Ok(v) => r matches Ok(m) && m@ == v,
                Err(e) => r matches Err((m, x)) && x == e && m@ == self@,
            },
    {
        match f.number {
            1 => match read_bytes(&f.value) {
                Ok(x) => Ok(Self { sha: Some(x), ..self }),
                Err(e) => Err((self, e)),
            },
            2 => match read_fixed32(&f.value) {
                Ok(x) => Ok(Self { crc: Some(x), ..self }),
                Err(e) => Err((self, e)),
            },
            3 => match read_u64(&f.value) {
                Ok(x) => Ok(Self { offset: Some(x), ..self }),
                Err(e) => Err((self, e)),
            },
            4 => match read_u32(&f.value) {
                Ok(x) => Ok(Self { cb_original: Some(x), ..self }),
                Err(e) => Err((self, e)),
            },
            5 => match read_u32(&f.value) {
                Ok(x) => Ok(Self { cb_compressed: Some(x), ..self }),
                Err(e) => Err((self, e)),
            },
            _ => Ok(self),
        }
    }

    /// Reads the records `bytes` holds into this message, in order. When a record does
    /// not parse or is refused, the reading stops there: the message keeps what the
    /// records before it gave, and the error is returned.
    pub fn merge(&mut self, bytes: &[u8]) -> (r: Result<(), WireError>)
        ensures
            final(self)@ == merge_run(old(self)@, bytes@, Self::apply_fn()).0,
            r == match merge_run(old(self)@, bytes@, Self::apply_fn()).1 {
                None => Ok::<(), WireError>(()),
                Some(e) => Err::<(), WireError>(e),
            },
    {
        let ghost total = merge_run(self@, bytes@, Self::apply_fn());
        let mut cur = Self::default();
        std::mem::swap(&mut cur, self);
        let mut pos: usize = 0;
        assert(bytes@.skip(0) =~= bytes@);
        while pos < bytes.len()
            invariant
                pos <= bytes@.len(),
                total == merge_run(old(self)@, bytes@, Self::apply_fn()),
                merge_run(cur@, bytes@.skip(pos as int), Self::apply_fn()) == total,
            decreases bytes@.len() - pos,
        {
            let ghost s = bytes@.skip(pos as int);
            proof {
                lemma_merge_run_step(cur@, s, Self::apply_fn());
                lemma_parse_field_len(s);
            }
            match read_field(bytes, pos) {
                Ok((f, end)) => {
                    assert(bytes@.skip(end as int) =~= s.skip((end - pos) as int));
                    match cur.applied(&f) {
                        Ok(m) => {
                            cur = m;
                        },
                        Err((m, e)) => {
                            *self = m;
                            return Err(e);
                        },
                    }
                    pos = end;
                },
                Err(e) => {
                    *self = cur;
                    return Err(e);
                },
            }
        }
        assert(bytes@.skip(pos as int) =~= Seq::<u8>::empty());
        proof {
            lemma_merge_run_empty(cur@, Self::apply_fn());
        }
        *self = cur;
        Ok(())
    }

    /// Decodes a message from its encoding.
    pub fn decode(bytes: &[u8]) -> (r: Result<Self, WireError>)
        ensures
            match Self::spec_decode(bytes@) {
                Ok(v) => r matches Ok(m) && m@ == v,
                Err(e) => r matches Err(x) && x == e,
            },
    {
        proof {
            reveal(ChunkData::spec_decode);
        }
        let mut m = Self::default();
        match m.merge(bytes) {
            Ok(()) => Ok(m),
            Err(e) => Err(e),
        }
    }

    /// The encoding of this message.
    pub fn encode_to_vec(&self) -> (r: Vec<u8>)
        ensures
            r@ == Self::spec_encode(self@),
    {
        let ghost v = self@;
        let mut out: Vec<u8> = Vec::new();
        let ghost p0 = Seq::<SpecField>::empty();
        put_opt_bytes(&mut out, 1, &self.sha);
        let ghost p1 = p0 + opt_bytes(1, v.sha);
        proof {
            lemma_fields_bytes_concat(p0, opt_bytes(1, v.sha));
        }
        put_opt_fixed32(&mut out, 2, self.crc);
        let ghost p2 = p1 + opt_fixed32(2, v.crc);
        proof {
            lemma_fields_bytes_concat(p1, opt_fixed32(2, v.crc));
        }
        put_opt_varint(&mut out, 3, self.offset);
        let ghost p3 = p2 + opt_u64(3, v.offset);
        proof {
            lemma_fields_bytes_concat(p2, opt_u64(3, v.offset));
        }
        put_opt_u32(&mut out, 4, self.cb_original);
        let ghost p4 = p3 + opt_u32(4, v.cb_original);
        proof {
            lemma_fields_bytes_concat(p3, opt_u32(4, v.cb_original));
        }
        put_opt_u32(&mut out, 5, self.cb_compressed);
        let ghost p5 = p4 + opt_u32(5, v.cb_compressed);
        proof {
            lemma_fields_bytes_concat(p4, opt_u32(5, v.cb_compressed));
        }
        proof {
            reveal(ChunkData::spec_encode);
        }
        assert(p5 == Self::spec_fields(v));
        out
    }

    /// Appends the encoding of this message to `out`.
    pub fn encode_raw(&self, out: &mut Vec<u8>)
        ensures
            final(out)@ == old(out)@ + Self::spec_encode(self@),
    {
        let mut b = self.encode_to_vec();
        out.append(&mut b);
    }

    /// The first `k` fields of `v`, the others as a fresh message has them.
    #[verifier::opaque]
    pub open spec fn spec_prefix(v: SpecChunkData, k: int) -> SpecChunkData {
        SpecChunkData {
            sha: if 1 <= k { v.sha } else { None },
            crc: if 2 <= k { v.crc } else { None },
            offset: if 3 <= k { v.offset } else { None },
            cb_original: if 4 <= k { v.cb_original } else { None },
            cb_compressed: if 5 <= k { v.cb_compressed } else { None },
        }
    }

    /// Reading field 1 back, after the fields before it.
    proof fn lemma_field_sha(v: SpecChunkData)
        ensures
            fold_fields(Self::spec_prefix(v, 0), opt_bytes(1, v.sha), Self::apply_fn())
                == Ok::<SpecChunkData, WireError>(Self::spec_prefix(v, 1)),
    {
        reveal(ChunkData::spec_prefix);
        reveal(opt_bytes);
        let apply = Self::apply_fn();
        let s = Self::spec_prefix(v, 0);
        lemma_fold_opt(s, 1, match v.sha { Some(x) => Some(enc_bytes(x)), None => None }, apply);
        assert(SpecChunkData { sha: v.sha, ..s } == Self::spec_prefix(v, 1));
    }

    /// Reading field 2 back, after the fields before it.
    proof fn lemma_field_crc(v: SpecChunkData)
        ensures
            fold_fields(Self::spec_prefix(v, 1), opt_fixed32(2, v.crc), Self::apply_fn())
                == Ok::<SpecChunkData, WireError>(Self::spec_prefix(v, 2)),
    {
        reveal(ChunkData::spec_prefix);
        reveal(opt_fixed32);
        let apply = Self::apply_fn();
        let s = Self::spec_prefix(v, 1);
        lemma_fold_opt(s, 2, match v.crc { Some(x) => Some(enc_fixed32(x)), None => None }, apply);
        assert(SpecChunkData { crc: v.crc, ..s } == Self::spec_prefix(v, 2));
    }

    /// Reading field 3 back, after the fields before it.
    proof fn lemma_field_offset(v: SpecChunkData)
        ensures
            fold_fields(Self::spec_prefix(v, 2), opt_u64(3, v.offset), Self::apply_fn())
                == Ok::<SpecChunkData, WireError>(Self::spec_prefix(v, 3)),
    {
        reveal(ChunkData::spec_prefix);
        reveal(opt_u64);
        let apply = Self::apply_fn();
        let s = Self::spec_prefix(v, 2);
        lemma_fold_opt(s, 3, match v.offset { Some(x) => Some(enc_u64(x)), None => None }, apply);
        if let Some(x) = v.offset {
            lemma_u64_roundtrip(x);
        }
        assert(SpecChunkData { offset: v.offset, ..s } == Self::spec_prefix(v, 3));
    }

    /// Reading field 4 back, after the fields before it.
    proof fn lemma_field_cb_original(v: SpecChunkData)
        ensures
            fold_fields(Self::spec_prefix(v, 3), opt_u32(4, v.cb_original), Self::apply_fn())
                == Ok::<SpecChunkData, WireError>(Self::spec_prefix(v, 4)),
    {
        reveal(ChunkData::spec_prefix);
        reveal(opt_u32);
        let apply = Self::apply_fn();
        let s = Self::spec_prefix(v, 3);
        lemma_fold_opt(s, 4, match v.cb_original { Some(x) => Some(enc_u32(x)), None => None }, apply);
        if let Some(x) = v.cb_original {
            lemma_u32_roundtrip(x);
        }
        assert(SpecChunkData { cb_original: v.cb_original, ..s } == Self::spec_prefix(v, 4));
    }

    /// Reading field 5 back, after the fields before it.
    proof fn lemma_field_cb_compressed(v: SpecChunkData)
        ensures
            fold_fields(Self::spec_prefix(v, 4), opt_u32(5, v.cb_compressed), Self::apply_fn())
                == Ok::<SpecChunkData, WireError>(Self::spec_prefix(v, 5)),
    {
        reveal(ChunkData::spec_prefix);
        reveal(opt_u32);
        let apply = Self::apply_fn();
        let s = Self::spec_prefix(v, 4);
        lemma_fold_opt(s, 5, match v.cb_compressed { Some(x) => Some(enc_u32(x)), None => None }, apply);
        if let Some(x) = v.cb_compressed {
            lemma_u32_roundtrip(x);
        }
        assert(SpecChunkData { cb_compressed: v.cb_compressed, ..s } == Self::spec_prefix(v, 5));
    }

    /// Whether this message declares field number `n`.
    pub open spec fn declares(n: u32) -> bool {
        n == 1 || n == 2 || n == 3 || n == 4 || n == 5
    }

    /// A record with a number this message does not declare is passed over: well-formed
    /// bytes decode to the same message with such a record after them as without it.
    pub proof fn lemma_unknown_field(bytes: Seq<u8>, f: SpecField)
        requires
            parse_fields(bytes) is Ok,
            field_wf(f),
            !Self::declares(f.number),
        ensures
            Self::spec_decode(bytes + field_bytes(f)) == Self::spec_decode(bytes),
    {
        reveal(ChunkData::spec_decode);
        lemma_parse_fields_append(bytes, f);
        let fs = parse_fields(bytes).unwrap();
        let apply = Self::apply_fn();
        lemma_fold_concat(Self::spec_default(), fs, seq![f], apply);
        assert(fs.push(f) =~= fs + seq![f]);
        if let Ok(w) = fold_fields(Self::spec_default(), fs, apply) {
            lemma_fold_single(w, f, apply);
        }
        lemma_merge_run_fold(Self::spec_default(), bytes, apply);
        lemma_merge_run_fold(Self::spec_default(), bytes + field_bytes(f), apply);
    }

    /// Decoding the encoding of a message gives the message back.
    pub proof fn lemma_decode_encode(v: SpecChunkData)
        requires
            Self::spec_encode(v).len() <= u64::MAX,
        ensures
            Self::spec_decode(Self::spec_encode(v)) == Ok::<SpecChunkData, WireError>(v),
    {
        let apply = Self::apply_fn();
        let d = Self::spec_default();
        let p0 = Seq::<SpecField>::empty();
        let l1 = opt_bytes(1, v.sha);
        let p1 = p0 + l1;
        let l2 = opt_fixed32(2, v.crc);
        let p2 = p1 + l2;
        let l3 = opt_u64(3, v.offset);
        let p3 = p2 + l3;
        let l4 = opt_u32(4, v.cb_original);
        let p4 = p3 + l4;
        let l5 = opt_u32(5, v.cb_compressed);
        let p5 = p4 + l5;
        assert(parse_fields(Self::spec_encode(v)) == Ok::<Seq<SpecField>, WireError>(p5)) by {
            reveal(ChunkData::spec_encode);
            assert(numbers_ok(p0) && fields_wf(p0)) by {
                reveal(numbers_ok);
                reveal(fields_wf);
            }
            lemma_opt_bytes_numbered(1, v.sha);
            lemma_fields_wf_concat(p0, l1);
            lemma_opt_fixed32_numbered(2, v.crc);
            lemma_fields_wf_concat(p1, l2);
            lemma_opt_u64_numbered(3, v.offset);
            lemma_fields_wf_concat(p2, l3);
            lemma_opt_u32_numbered(4, v.cb_original);
            lemma_fields_wf_concat(p3, l4);
            lemma_opt_u32_numbered(5, v.cb_compressed);
            lemma_fields_wf_concat(p4, l5);
            assert(p5 == Self::spec_fields(v));
            lemma_fields_wf_from_len(p5);
            lemma_fields_roundtrip(p5);
        }
        assert(Self::spec_prefix(v, 0) == d) by {
            reveal(ChunkData::spec_prefix);
        }
        lemma_fold_empty(d, apply);
        lemma_fold_concat(d, p0, l1, apply);
        Self::lemma_field_sha(v);
        lemma_fold_concat(d, p1, l2, apply);
        Self::lemma_field_crc(v);
        lemma_fold_concat(d, p2, l3, apply);
        Self::lemma_field_offset(v);
        lemma_fold_concat(d, p3, l4, apply);
        Self::lemma_field_cb_original(v);
        lemma_fold_concat(d, p4, l5, apply);
        Self::lemma_field_cb_compressed(v);
        assert(Self::spec_prefix(v, 5) == v) by {
            reveal(ChunkData::spec_prefix);
        }
        lemma_merge_run_fold(d, Self::spec_encode(v), apply);
        assert(Self::spec_decode(Self::spec_encode(v)) == Ok::<SpecChunkData, WireError>(v)) by {
            reveal(ChunkData::spec_decode);
        }
    }
}

} // verus!
