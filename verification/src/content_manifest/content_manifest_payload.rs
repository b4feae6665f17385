//! Types nested inside `content_manifest_payload`.

pub mod file_mapping;


use vstd::prelude::*;

use crate::codec::{
    bytes_seq_view, dec_bytes, dec_string, dec_u32, dec_u64, enc_bytes, enc_string, enc_u32,
    enc_u64, fold_fields, lemma_fold_chain, lemma_fold_concat, lemma_fold_empty, lemma_fold_opt,
    lemma_fold_single, lemma_merge_run_empty, lemma_merge_run_fold, lemma_merge_run_step,
    lemma_opt_bytes_numbered, lemma_opt_string_numbered, lemma_opt_u32_numbered,
    lemma_opt_u64_numbered, lemma_rep_bytes_numbered, lemma_string_roundtrip,
    lemma_u32_roundtrip, lemma_u64_roundtrip, merge_run, opt_bytes, opt_bytes_view, opt_string,
    opt_string_view, opt_u32, opt_u64, put_opt_bytes, put_opt_string, put_opt_u32,
    put_opt_varint, put_rep_bytes, read_bytes, read_payload, read_string, read_u32, read_u64,
    rep_bytes,
};

use crate::wire::fields::{
    field_bytes, field_wf, fields_bytes, fields_wf, lemma_fields_bytes_concat,
    lemma_fields_roundtrip, lemma_fields_wf_concat, lemma_fields_wf_from_len,
    lemma_parse_field_len, lemma_parse_fields_append, numbers_ok, parse_fields, read_field,
    Field, SpecField,
};
use crate::wire::varint::WireError;

verus! {

/// `FileMapping`, as Valve's schema declares it.
#[derive(Debug, Clone, PartialEq)]
pub struct FileMapping {
    /// Field 1.
    pub filename: Option<String>,
    /// Field 2.
    pub size: Option<u64>,
    /// Field 3.
    pub flags: Option<u32>,
    /// Field 4.
    pub sha_filename: Option<Vec<u8>>,
    /// Field 5.
    pub sha_content: Option<Vec<u8>>,
    /// Field 6.
    pub chunks: Vec<crate::content_manifest::content_manifest_payload::file_mapping::ChunkData>,
    /// Field 7.
    pub linktarget: Option<String>,
}

/// What a `FileMapping` holds, as mathematical values.
#[verifier::ext_equal]
pub struct SpecFileMapping {
    pub filename: Option<Seq<char>>,
    pub size: Option<u64>,
    pub flags: Option<u32>,
    pub sha_filename: Option<Seq<u8>>,
    pub sha_content: Option<Seq<u8>>,
    pub chunks: Seq<crate::content_manifest::content_manifest_payload::file_mapping::SpecChunkData>,
    pub linktarget: Option<Seq<char>>,
}

impl View for FileMapping {
    type V = SpecFileMapping;

    open spec fn view(&self) -> SpecFileMapping {
        SpecFileMapping {
            filename: opt_string_view(self.filename),
            size: self.size,
            flags: self.flags,
            sha_filename: opt_bytes_view(self.sha_filename),
            sha_content: opt_bytes_view(self.sha_content),
            chunks: crate::content_manifest::content_manifest_payload::file_mapping::ChunkData::view_all(self.chunks@),
            linktarget: opt_string_view(self.linktarget),
        }
    }
}

impl Default for FileMapping {
    fn default() -> (r: Self)
        ensures
            r@ == FileMapping::spec_default(),
    {
        FileMapping {
            filename: None,
            size: None,
            flags: None,
            sha_filename: None,
            sha_content: None,
            chunks: Vec::new(),
            linktarget: None,
        }
    }
}

impl FileMapping {
    pub open spec fn spec_default() -> SpecFileMapping {
        SpecFileMapping {
            filename: None,
            size: None,
            flags: None,
            sha_filename: None,
            sha_content: None,
            chunks: Seq::empty(),
            linktarget: None,
        }
    }

    /// The records a `FileMapping` is written as, in field order.
    pub open spec fn spec_fields(v: SpecFileMapping) -> Seq<SpecField> {
        Seq::<SpecField>::empty()
            + opt_string(1, v.filename)
            + opt_u64(2, v.size)
            + opt_u32(3, v.flags)
            + opt_bytes(4, v.sha_filename)
            + opt_bytes(5, v.sha_content)
            + rep_bytes(6, crate::content_manifest::content_manifest_payload::file_mapping::ChunkData::spec_encode_all(v.chunks))
            + opt_string(7, v.linktarget)
    }

    #[verifier::opaque]
    pub open spec fn spec_encode(v: SpecFileMapping) -> Seq<u8> {
        fields_bytes(Self::spec_fields(v))
    }

    /// What one record does to the message: a declared number sets or extends its
    /// field, any other number is left alone.
    pub open spec fn spec_apply(v: SpecFileMapping, f: SpecField) -> Result<SpecFileMapping, WireError> {
        match f.number {
            1 => match dec_string(f.value) {
                Ok(x) => Ok(SpecFileMapping { filename: Some(x), ..v }),
                Err(e) => Err(e),
            },
            2 => match dec_u64(f.value) {
                Ok(x) => Ok(SpecFileMapping { size: Some(x), ..v }),
                Err(e) => Err(e),
            },
            3 => match dec_u32(f.value) {
                Ok(x) => Ok(SpecFileMapping { flags: Some(x), ..v }),
                Err(e) => Err(e),
            },
            4 => match dec_bytes(f.value) {
                Ok(x) => Ok(SpecFileMapping { sha_filename: Some(x), ..v }),
                Err(e) => Err(e),
            },
            5 => match dec_bytes(f.value) {
                Ok(x) => Ok(SpecFileMapping { sha_content: Some(x), ..v }),
                Err(e) => Err(e),
            },
            6 => match dec_bytes(f.value) {
                Ok(b) => match crate::content_manifest::content_manifest_payload::file_mapping::ChunkData::spec_decode(b) {
                    Ok(m) => Ok(SpecFileMapping { chunks: v.chunks.push(m), ..v }),
                    Err(e) => Err(e),
                },
                Err(e) => Err(e),
            },
            7 => match dec_string(f.value) {
                Ok(x) => Ok(SpecFileMapping { linktarget: Some(x), ..v }),
                Err(e) => Err(e),
            },
            _ => Ok(v),
        }
    }

    pub open spec fn apply_fn() -> spec_fn(SpecFileMapping, SpecField) -> Result<SpecFileMapping, WireError> {
        |v: SpecFileMapping, f: SpecField| Self::spec_apply(v, f)
    }

    /// The message `bytes` makes of `v`: its records applied in order, or the error
    /// that stops the reading.
    pub open spec fn spec_merge(v: SpecFileMapping, bytes: Seq<u8>) -> Result<SpecFileMapping, WireError> {
        let (w, stop) = merge_run(v, bytes, Self::apply_fn());
        match stop {
            None => Ok(w),
            Some(e) => Err(e),
        }
    }

    #[verifier::opaque]
    pub open spec fn spec_decode(bytes: Seq<u8>) -> Result<SpecFileMapping, WireError> {
        Self::spec_merge(Self::spec_default(), bytes)
    }

    pub open spec fn view_all(xs: Seq<FileMapping>) -> Seq<SpecFileMapping> {
        xs.map_values(|m: FileMapping| m@)
    }

    pub open spec fn view_opt(o: Option<FileMapping>) -> Option<SpecFileMapping> {
        match o {
            Some(m) => Some(m@),
            None => None,
        }
    }

    pub open spec fn spec_encode_all(xs: Seq<SpecFileMapping>) -> Seq<Seq<u8>> {
        xs.map_values(|m: SpecFileMapping| Self::spec_encode(m))
    }

    pub open spec fn spec_encode_opt(o: Option<SpecFileMapping>) -> Option<Seq<u8>> {
        match o {
            Some(m) => Some(Self::spec_encode(m)),
            None => None,
        }
    }

    /// The encoding of each element.
    pub fn encode_all(xs: &Vec<FileMapping>) -> (r: Vec<Vec<u8>>)
        ensures
            bytes_seq_view(r@) == Self::spec_encode_all(Self::view_all(xs@)),
    {
        let mut out: Vec<Vec<u8>> = Vec::new();
        let mut i: usize = 0;
        while i < xs.len()
            invariant
                i <= xs@.len(),
                out@.len() == i,
                forall|j: int| 0 <= j < i ==> #[trigger] out@[j]@ == Self::spec_encode(xs@[j]@),
            decreases xs@.len() - i,
        {
            let e = xs[i].encode_to_vec();
            out.push(e);
            i = i + 1;
        }
        assert(bytes_seq_view(out@) =~= Self::spec_encode_all(Self::view_all(xs@)));
        out
    }

    /// The encoding of the element, when there is one.
    pub fn encode_opt(o: &Option<FileMapping>) -> (r: Option<Vec<u8>>)
        ensures
            opt_bytes_view(r) == Self::spec_encode_opt(Self::view_opt(*o)),
    {
        match o {
            Some(m) => Some(m.encode_to_vec()),
            None => None,
        }
    }

    /// This message with one record applied to it, or, when the record is refused,
    /// the message unchanged and the reason.
    fn applied(self, f: &Field) -> (r: Result<Self, (Self, WireError)>)
        ensures
            match Self::spec_apply(self@, f@) {
                Ok(v) => r matches Ok(m) && m@ == v,
                Err(e) => r matches Err((m, x)) && x == e && m@ == self@,
            },
    {
        match f.number {
            1 => match read_string(&f.value) {
                Ok(x) => Ok(Self { filename: Some(x), ..self }),
                Err(e) => Err((self, e)),
            },
            2 => match read_u64(&f.value) {
                Ok(x) => Ok(Self { size: Some(x), ..self }),
                Err(e) => Err((self, e)),
            },
            3 => match read_u32(&f.value) {
                Ok(x) => Ok(Self { flags: Some(x), ..self }),
                Err(e) => Err((self, e)),
            },
            4 => match read_bytes(&f.value) {
                Ok(x) => Ok(Self { sha_filename: Some(x), ..self }),
                Err(e) => Err((self, e)),
            },
            5 => match read_bytes(&f.value) {
                Ok(x) => Ok(Self { sha_content: Some(x), ..self }),
                Err(e) => Err((self, e)),
            },
            6 => match read_payload(&f.value) {
                Ok(b) => match crate::content_manifest::content_manifest_payload::file_mapping::ChunkData::decode(b) {
                    Ok(x) => {
                        let mut m = self;
                        let ghost before = m.chunks@;
                        m.chunks.push(x);
                        assert(crate::content_manifest::content_manifest_payload::file_mapping::ChunkData::view_all(m.chunks@) =~= crate::content_manifest::content_manifest_payload::file_mapping::ChunkData::view_all(before).push(x@));
                        Ok(m)
                    },
                    Err(e) => Err((self, e)),
                },
                Err(e) => Err((self, e)),
            },
            7 => match read_string(&f.value) {
                Ok(x) => Ok(Self { linktarget: Some(x), ..self }),
                Err(e) => Err((self, e)),
            },
            _ => Ok(self),
        }
    }

    /// Reads the records `bytes` holds into this message, in order. When a record does
    /// not parse or is refused, the reading stops there: the message keeps what the
    /// records before it gave, and the error is returned.
    pub fn merge(&mut self, bytes: &[u8]) -> (r: Result<(), WireError>)
        ensures
            final(self)@ == merge_run(old(self)@, bytes@, Self::apply_fn()).0,
            r == match merge_run(old(self)@, bytes@, Self::apply_fn()).1 {
                None => Ok::<(), WireError>(()),
                Some(e) => Err::<(), WireError>(e),
            },
    {
        let ghost total = merge_run(self@, bytes@, Self::apply_fn());
        let mut cur = Self::default();
        std::mem::swap(&mut cur, self);
        let mut pos: usize = 0;
        assert(bytes@.skip(0) =~= bytes@);
        while pos < bytes.len()
            invariant
                pos <= bytes@.len(),
                total == merge_run(old(self)@, bytes@, Self::apply_fn()),
                merge_run(cur@, bytes@.skip(pos as int), Self::apply_fn()) == total,
            decreases bytes@.len() - pos,
        {
            let ghost s = bytes@.skip(pos as int);
            proof {
                lemma_merge_run_step(cur@, s, Self::apply_fn());
                lemma_parse_field_len(s);
            }
            match read_field(bytes, pos) {
                Ok((f, end)) => {
                    assert(bytes@.skip(end as int) =~= s.skip((end - pos) as int));
                    match cur.applied(&f) {
                        Ok(m) => {
                            cur = m;
                        },
                        Err((m, e)) => {
                            *self = m;
                            return Err(e);
                        },
                    }
                    pos = end;
                },
                Err(e) => {
                    *self = cur;
                    return Err(e);
                },
            }
        }
        assert(bytes@.skip(pos as int) =~= Seq::<u8>::empty());
        proof {
            lemma_merge_run_empty(cur@, Self::apply_fn());
        }
        *self = cur;
        Ok(())
    }

    /// Decodes a message from its encoding.
    pub fn decode(bytes: &[u8]) -> (r: Result<Self, WireError>)
        ensures
            match Self::spec_decode(bytes@) {
                Ok(v) => r matches Ok(m) && m@ == v,
                Err(e) => r matches Err(x) && x == e,
            },
    {
        proof {
            reveal(FileMapping::spec_decode);
        }
        let mut m = Self::default();
        match m.merge(bytes) {
            Ok(()) => Ok(m),
            Err(e) => Err(e),
        }
    }

    /// The encoding of this message.
    pub fn encode_to_vec(&self) -> (r: Vec<u8>)
        ensures
            r@ == Self::spec_encode(self@),
    {
        let enc_chunks = crate::content_manifest::content_manifest_payload::file_mapping::ChunkData::encode_all(&self.chunks);
        let ghost v = self@;
        let mut out: Vec<u8> = Vec::new();
        let ghost p0 = Seq::<SpecField>::empty();
        put_opt_string(&mut out, 1, &self.filename);
        let ghost p1 = p0 + opt_string(1, v.filename);
        proof {
            lemma_fields_bytes_concat(p0, opt_string(1, v.filename));
        }
        put_opt_varint(&mut out, 2, self.size);
        let ghost p2 = p1 + opt_u64(2, v.size);
        proof {
            lemma_fields_bytes_concat(p1, opt_u64(2, v.size));
        }
        put_opt_u32(&mut out, 3, self.flags);
        let ghost p3 = p2 + opt_u32(3, v.flags);
        proof {
            lemma_fields_bytes_concat(p2, opt_u32(3, v.flags));
        }
        put_opt_bytes(&mut out, 4, &self.sha_filename);
        let ghost p4 = p3 + opt_bytes(4, v.sha_filename);
        proof {
            lemma_fields_bytes_concat(p3, opt_bytes(4, v.sha_filename));
        }
        put_opt_bytes(&mut out, 5, &self.sha_content);
        let ghost p5 = p4 + opt_bytes(5, v.sha_content);
        proof {
            lemma_fields_bytes_concat(p4, opt_bytes(5, v.sha_content));
        }
        put_rep_bytes(&mut out, 6, &enc_chunks);
        let ghost p6 = p5 + rep_bytes(6, crate::content_manifest::content_manifest_payload::file_mapping::ChunkData::spec_encode_all(v.chunks));
        proof {
            lemma_fields_bytes_concat(p5, rep_bytes(6, crate::content_manifest::content_manifest_payload::file_mapping::ChunkData::spec_encode_all(v.chunks)));
        }
        put_opt_string(&mut out, 7, &self.linktarget);
        let ghost p7 = p6 + opt_string(7, v.linktarget);
        proof {
            lemma_fields_bytes_concat(p6, opt_string(7, v.linktarget));
        }
        proof {
            reveal(FileMapping::spec_encode);
        }
        assert(p7 == Self::spec_fields(v));
        out
    }

    /// Appends the encoding of this message to `out`.
    pub fn encode_raw(&self, out: &mut Vec<u8>)
        ensures
            final(out)@ == old(out)@ + Self::spec_encode(self@),
    {
        let mut b = self.encode_to_vec();
        out.append(&mut b);
    }

    /// The first `k` fields of `v`, the others as a fresh message has them.
    #[verifier::opaque]
    pub open spec fn spec_prefix(v: SpecFileMapping, k: int) -> SpecFileMapping {
        SpecFileMapping {
            filename: if 1 <= k { v.filename } else { None },
            size: if 2 <= k { v.size } else { None },
            flags: if 3 <= k { v.flags } else { None },
            sha_filename: if 4 <= k { v.sha_filename } else { None },
            sha_content: if 5 <= k { v.sha_content } else { None },
            chunks: if 6 <= k { v.chunks } else { Seq::empty() },
            linktarget: if 7 <= k { v.linktarget } else { None },
        }
    }

    /// Reading field 1 back, after the fields before it.
    proof fn lemma_field_filename(v: SpecFileMapping)
        ensures
            fold_fields(Self::spec_prefix(v, 0), opt_string(1, v.filename), Self::apply_fn())
                == Ok::<SpecFileMapping, WireError>(Self::spec_prefix(v, 1)),
    {
        reveal(FileMapping::spec_prefix);
        reveal(opt_string);
        let apply = Self::apply_fn();
        let s = Self::spec_prefix(v, 0);
        lemma_fold_opt(s, 1, match v.filename { Some(x) => Some(enc_string(x)), None => None }, apply);
        if let Some(x) = v.filename {
            lemma_string_roundtrip(x);
        }
        assert(SpecFileMapping { filename: v.filename, ..s } == Self::spec_prefix(v, 1));
    }

    /// Reading field 2 back, after the fields before it.
    proof fn lemma_field_size(v: SpecFileMapping)
        ensures
            fold_fields(Self::spec_prefix(v, 1), opt_u64(2, v.size), Self::apply_fn())
                == Ok::<SpecFileMapping, WireError>(Self::spec_prefix(v, 2)),
    {
        reveal(FileMapping::spec_prefix);
        reveal(opt_u64);
        let apply = Self::apply_fn();
        let s = Self::spec_prefix(v, 1);
        lemma_fold_opt(s, 2, match v.size { Some(x) => Some(enc_u64(x)), None => None }, apply);
        if let Some(x) = v.size {
            lemma_u64_roundtrip(x);
        }
        assert(SpecFileMapping { size: v.size, ..s } == Self::spec_prefix(v, 2));
    }

    /// Reading field 3 back, after the fields before it.
    proof fn lemma_field_flags(v: SpecFileMapping)
        ensures
            fold_fields(Self::spec_prefix(v, 2), opt_u32(3, v.flags), Self::apply_fn())
                == Ok::<SpecFileMapping, WireError>(Self::spec_prefix(v, 3)),
    {
        reveal(FileMapping::spec_prefix);
        reveal(opt_u32);
        let apply = Self::apply_fn();
        let s = Self::spec_prefix(v, 2);
        lemma_fold_opt(s, 3, match v.flags { Some(x) => Some(enc_u32(x)), None => None }, apply);
        if let Some(x) = v.flags {
            lemma_u32_roundtrip(x);
        }
        assert(SpecFileMapping { flags: v.flags, ..s } == Self::spec_prefix(v, 3));
    }

    /// Reading field 4 back, after the fields before it.
    proof fn lemma_field_sha_filename(v: SpecFileMapping)
        ensures
            fold_fields(Self::spec_prefix(v, 3), opt_bytes(4, v.sha_filename), Self::apply_fn())
                == Ok::<SpecFileMapping, WireError>(Self::spec_prefix(v, 4)),
    {
        reveal(FileMapping::spec_prefix);
        reveal(opt_bytes);
        let apply = Self::apply_fn();
        let s = Self::spec_prefix(v, 3);
        lemma_fold_opt(s, 4, match v.sha_filename { Some(x) => Some(enc_bytes(x)), None => None }, apply);
        assert(SpecFileMapping { sha_filename: v.sha_filename, ..s } == Self::spec_prefix(v, 4));
    }

    /// Reading field 5 back, after the fields before it.
    proof fn lemma_field_sha_content(v: SpecFileMapping)
        ensures
            fold_fields(Self::spec_prefix(v, 4), opt_bytes(5, v.sha_content), Self::apply_fn())
                == Ok::<SpecFileMapping, WireError>(Self::spec_prefix(v, 5)),
    {
        reveal(FileMapping::spec_prefix);
        reveal(opt_bytes);
        let apply = Self::apply_fn();
        let s = Self::spec_prefix(v, 4);
        lemma_fold_opt(s, 5, match v.sha_content { Some(x) => Some(enc_bytes(x)), None => None }, apply);
        assert(SpecFileMapping { sha_content: v.sha_content, ..s } == Self::spec_prefix(v, 5));
    }

    /// Reading field 6 back, after the fields before it.
    proof fn lemma_field_chunks(v: SpecFileMapping)
        requires
            fields_wf(rep_bytes(6, crate::content_manifest::content_manifest_payload::file_mapping::ChunkData::spec_encode_all(v.chunks))),
        ensures
            fold_fields(Self::spec_prefix(v, 5), rep_bytes(6, crate::content_manifest::content_manifest_payload::file_mapping::ChunkData::spec_encode_all(v.chunks)), Self::apply_fn())
                == Ok::<SpecFileMapping, WireError>(Self::spec_prefix(v, 6)),
    {
        reveal(FileMapping::spec_prefix);
        reveal(rep_bytes);
        reveal(fields_wf);
        let apply = Self::apply_fn();
        let s = Self::spec_prefix(v, 5);
        let l = rep_bytes(6, crate::content_manifest::content_manifest_payload::file_mapping::ChunkData::spec_encode_all(v.chunks));
        let xs = v.chunks;
        let st = Seq::new((xs.len() + 1) as nat, |j: int| SpecFileMapping { chunks: xs.take(j), ..s });
        assert forall|j: int| 0 <= j < l.len() implies #[trigger] apply(st[j], l[j]) == Ok::<SpecFileMapping, WireError>(st[j + 1]) by {
            assert(field_wf(l[j]));
            crate::content_manifest::content_manifest_payload::file_mapping::ChunkData::lemma_decode_encode(xs[j]);
            assert(xs.take(j).push(xs[j]) =~= xs.take(j + 1));
        }
        lemma_fold_chain(l, st, apply);
        assert(xs.take(0) =~= Seq::<crate::content_manifest::content_manifest_payload::file_mapping::SpecChunkData>::empty());
        assert(xs.take(xs.len() as int) =~= xs);
        assert(st[0] == s);
        assert(st[xs.len() as int] == Self::spec_prefix(v, 6));
    }

    /// Reading field 7 back, after the fields before it.
    proof fn lemma_field_linktarget(v: SpecFileMapping)
        ensures
            fold_fields(Self::spec_prefix(v, 6), opt_string(7, v.linktarget), Self::apply_fn())
                == Ok::<SpecFileMapping, WireError>(Self::spec_prefix(v, 7)),
    {
        reveal(FileMapping::spec_prefix);
        reveal(opt_string);
        let apply = Self::apply_fn();
        let s = Self::spec_prefix(v, 6);
        lemma_fold_opt(s, 7, match v.linktarget { Some(x) => Some(enc_string(x)), None => None }, apply);
        if let Some(x) = v.linktarget {
            lemma_string_roundtrip(x);
        }
        assert(SpecFileMapping { linktarget: v.linktarget, ..s } == Self::spec_prefix(v, 7));
    }

    /// Whether this message declares field number `n`.
    pub open spec fn declares(n: u32) -> bool {
        n == 1 || n == 2 || n == 3 || n == 4 || n == 5 || n == 6 || n == 7
    }

    /// A record with a number this message does not declare is passed over: well-formed
    /// bytes decode to the same message with such a record after them as without it.
    pub proof fn lemma_unknown_field(bytes: Seq<u8>, f: SpecField)
        requires
            parse_fields(bytes) is Ok,
            field_wf(f),
            !Self::declares(f.number),
        ensures
            Self::spec_decode(bytes + field_bytes(f)) == Self::spec_decode(bytes),
    {
        reveal(FileMapping::spec_decode);
        lemma_parse_fields_append(bytes, f);
        let fs = parse_fields(bytes).unwrap();
        let apply = Self::apply_fn();
        lemma_fold_concat(Self::spec_default(), fs, seq![f], apply);
        assert(fs.push(f) =~= fs + seq![f]);
        if let Ok(w) = fold_fields(Self::spec_default(), fs, apply) {
            lemma_fold_single(w, f, apply);
        }
        lemma_merge_run_fold(Self::spec_default(), bytes, apply);
        lemma_merge_run_fold(Self::spec_default(), bytes + field_bytes(f), apply);
    }

    /// Decoding the encoding of a message gives the message back.
    pub proof fn lemma_decode_encode(v: SpecFileMapping)
        requires
            Self::spec_encode(v).len() <= u64::MAX,
        ensures
            Self::spec_decode(Self::spec_encode(v)) == Ok::<SpecFileMapping, WireError>(v),
    {
        let apply = Self::apply_fn();
        let d = Self::spec_default();
        let p0 = Seq::<SpecField>::empty();
        let l1 = opt_string(1, v.filename);
        let p1 = p0 + l1;
        let l2 = opt_u64(2, v.size);
        let p2 = p1 + l2;
        let l3 = opt_u32(3, v.flags);
        let p3 = p2 + l3;
        let l4 = opt_bytes(4, v.sha_filename);
        let p4 = p3 + l4;
        let l5 = opt_bytes(5, v.sha_content);
        let p5 = p4 + l5;
        let l6 = rep_bytes(6, crate::content_manifest::content_manifest_payload::file_mapping::ChunkData::spec_encode_all(v.chunks));
        let p6 = p5 + l6;
        let l7 = opt_string(7, v.linktarget);
        let p7 = p6 + l7;
        assert(parse_fields(Self::spec_encode(v)) == Ok::<Seq<SpecField>, WireError>(p7) && fields_wf(l6)) by {
            reveal(FileMapping::spec_encode);
            assert(numbers_ok(p0) && fields_wf(p0)) by {
                reveal(numbers_ok);
                reveal(fields_wf);
            }
            lemma_opt_string_numbered(1, v.filename);
            lemma_fields_wf_concat(p0, l1);
            lemma_opt_u64_numbered(2, v.size);
            lemma_fields_wf_concat(p1, l2);
            lemma_opt_u32_numbered(3, v.flags);
            lemma_fields_wf_concat(p2, l3);
            lemma_opt_bytes_numbered(4, v.sha_filename);
            lemma_fields_wf_concat(p3, l4);
            lemma_opt_bytes_numbered(5, v.sha_content);
            lemma_fields_wf_concat(p4, l5);
            lemma_rep_bytes_numbered(6, crate::content_manifest::content_manifest_payload::file_mapping::ChunkData::spec_encode_all(v.chunks));
            lemma_fields_wf_concat(p5, l6);
            lemma_opt_string_numbered(7, v.linktarget);
            lemma_fields_wf_concat(p6, l7);
            assert(p7 == Self::spec_fields(v));
            lemma_fields_wf_from_len(p7);
            lemma_fields_roundtrip(p7);
        }
        assert(Self::spec_prefix(v, 0) == d) by {
            reveal(FileMapping::spec_prefix);
        }
        lemma_fold_empty(d, apply);
        lemma_fold_concat(d, p0, l1, apply);
        Self::lemma_field_filename(v);
        lemma_fold_concat(d, p1, l2, apply);
        Self::lemma_field_size(v);
        lemma_fold_concat(d, p2, l3, apply);
        Self::lemma_field_flags(v);
        lemma_fold_concat(d, p3, l4, apply);
        Self::lemma_field_sha_filename(v);
        lemma_fold_concat(d, p4, l5, apply);
        Self::lemma_field_sha_content(v);
        lemma_fold_concat(d, p5, l6, apply);
        Self::lemma_field_chunks(v);
        lemma_fold_concat(d, p6, l7, apply);
        Self::lemma_field_linktarget(v);
        assert(Self::spec_prefix(v, 7) == v) by {
            reveal(FileMapping::spec_prefix);
        }
        lemma_merge_run_fold(d, Self::spec_encode(v), apply);
        assert(Self::spec_decode(Self::spec_encode(v)) == Ok::<SpecFileMapping, WireError>(v)) by {
            reveal(FileMapping::spec_decode);
        }
    }
}

} // verus!
