//! The depot manifest payload of `content_manifest.proto`: the files a depot holds and the
//! chunks each file is made of.

#![allow(non_camel_case_types, non_snake_case, non_upper_case_globals)]

pub mod content_manifest_payload;


use vstd::prelude::*;

use crate::codec::{
    dec_bytes, fold_fields, lemma_fold_chain, lemma_fold_concat, lemma_fold_empty,
    lemma_fold_single, lemma_merge_run_empty, lemma_merge_run_fold, lemma_merge_run_step,
    lemma_rep_bytes_numbered, merge_run, put_rep_bytes, read_payload, rep_bytes,
};

use crate::wire::fields::{
    field_bytes, field_wf, fields_bytes, fields_wf, lemma_fields_bytes_concat,
    lemma_fields_roundtrip, lemma_fields_wf_concat, lemma_fields_wf_from_len,
    lemma_parse_field_len, lemma_parse_fields_append, numbers_ok, parse_fields, read_field,
    Field, SpecField,
};
use crate::wire::varint::WireError;

verus! {

/// `ContentManifestPayload`, as Valve's schema declares it.
#[derive(Debug, Clone, PartialEq)]
pub struct ContentManifestPayload {
    /// Field 1.
    pub mappings: Vec<crate::content_manifest::content_manifest_payload::FileMapping>,
}

/// What a `ContentManifestPayload` holds, as mathematical values.
#[verifier::ext_equal]
pub struct SpecContentManifestPayload {
    pub mappings: Seq<crate::content_manifest::content_manifest_payload::SpecFileMapping>,
}

impl View for ContentManifestPayload {
    type V = SpecContentManifestPayload;

    open spec fn view(&self) -> SpecContentManifestPayload {
        SpecContentManifestPayload {
            mappings: crate::content_manifest::content_manifest_payload::FileMapping::view_all(self.mappings@),
        }
    }
}

impl Default for ContentManifestPayload {
    fn default() -> (r: Self)
        ensures
            r@ == ContentManifestPayload::spec_default(),
    {
        ContentManifestPayload {
            mappings: Vec::new(),
        }
    }
}

impl ContentManifestPayload {
    pub open spec fn spec_default() -> SpecContentManifestPayload {
        SpecContentManifestPayload {
            mappings: Seq::empty(),
        }
    }

    /// The records a `ContentManifestPayload` is written as, in field order.
    pub open spec fn spec_fields(v: SpecContentManifestPayload) -> Seq<SpecField> {
        Seq::<SpecField>::empty()
            + rep_bytes(1, crate::content_manifest::content_manifest_payload::FileMapping::spec_encode_all(v.mappings))
    }

    #[verifier::opaque]
    pub open spec fn spec_encode(v: SpecContentManifestPayload) -> Seq<u8> {
        fields_bytes(Self::spec_fields(v))
    }

    /// What one record does to the message: a declared number sets or extends its
    /// field, any other number is left alone.
    pub open spec fn spec_apply(v: SpecContentManifestPayload, f: SpecField) -> Result<SpecContentManifestPayload, WireError> {
        match f.number {
            1 => match dec_bytes(f.value) {
                Ok(b) => match crate::content_manifest::content_manifest_payload::FileMapping::spec_decode(b) {
                    Ok(m) => Ok(SpecContentManifestPayload { mappings: v.mappings.push(m), ..v }),
                    Err(e) => Err(e),
                },
                Err(e) => Err(e),
            },
            _ => Ok(v),
        }
    }

    pub open spec fn apply_fn() -> spec_fn(SpecContentManifestPayload, SpecField) -> Result<SpecContentManifestPayload, WireError> {
        |v: SpecContentManifestPayload, f: SpecField| Self::spec_apply(v, f)
    }

    /// The message `bytes` makes of `v`: its records applied in order, or the error
    /// that stops the reading.
    pub open spec fn spec_merge(v: SpecContentManifestPayload, bytes: Seq<u8>) -> Result<SpecContentManifestPayload, WireError> {
        let (w, stop) = merge_run(v, bytes, Self::apply_fn());
        match stop {
            None => Ok(w),
            Some(e) => Err(e),
        }
    }

    #[verifier::opaque]
    pub open spec fn spec_decode(bytes: Seq<u8>) -> Result<SpecContentManifestPayload, WireError> {
        Self::spec_merge(Self::spec_default(), bytes)
    }

    /// This message with one record applied to it, or, when the record is refused,
    /// the message unchanged and the reason.
    fn applied(self, f: &Field) -> (r: Result<Self, (Self, WireError)>)
        ensures
            match Self::spec_apply(self@, f@) {
                Ok(v) => r matches Ok(m) && m@ == v,
                Err(e) => r matches Err((m, x)) && x == e && m@ == self@,
            },
    {
        match f.number {
            1 => match read_payload(&f.value) {
                Ok(b) => match crate::content_manifest::content_manifest_payload::FileMapping::decode(b) {
                    Ok(x) => {
                        let mut m = self;
                        let ghost before = m.mappings@;
                        m.mappings.push(x);
                        assert(crate::content_manifest::content_manifest_payload::FileMapping::view_all(m.mappings@) =~= crate::content_manifest::content_manifest_payload::FileMapping::view_all(before).push(x@));
                        Ok(m)
                    },
                    Err(e) => Err((self, e)),
                },
                Err(e) => Err((self, e)),
            },
            _ => Ok(self),
        }
    }

    /// Reads the records `bytes` holds into this message, in order. When a record does
    /// not parse or is refused, the reading stops there: the message keeps what the
    /// records before it gave, and the error is returned.
    pub fn merge(&mut self, bytes: &[u8]) -> (r: Result<(), WireError>)
        ensures
            final(self)@ == merge_run(old(self)@, bytes@, Self::apply_fn()).0,
            r == match merge_run(old(self)@, bytes@, Self::apply_fn()).1 {
                None => Ok::<(), WireError>(()),
                Some(e) => Err::<(), WireError>(e),
            },
    {
        let ghost total = merge_run(self@, bytes@, Self::apply_fn());
        let mut cur = Self::default();
        std::mem::swap(&mut cur, self);
        let mut pos: usize = 0;
        assert(bytes@.skip(0) =~= bytes@);
        while pos < bytes.len()
            invariant
                pos <= bytes@.len(),
                total == merge_run(old(self)@, bytes@, Self::apply_fn()),
                merge_run(cur@, bytes@.skip(pos as int), Self::apply_fn()) == total,
            decreases bytes@.len() - pos,
        {
            let ghost s = bytes@.skip(pos as int);
            proof {
                lemma_merge_run_step(cur@, s, Self::apply_fn());
                lemma_parse_field_len(s);
            }
            match read_field(bytes, pos) {
                Ok((f, end)) => {
                    assert(bytes@.skip(end as int) =~= s.skip((end - pos) as int));
                    match cur.applied(&f) {
                        Ok(m) => {
                            cur = m;
                        },
                        Err((m, e)) => {
                            *self = m;
                            return Err(e);
                        },
                    }
                    pos = end;
                },
                Err(e) => {
                    *self = cur;
                    return Err(e);
                },
            }
        }
        assert(bytes@.skip(pos as int) =~= Seq::<u8>::empty());
        proof {
            lemma_merge_run_empty(cur@, Self::apply_fn());
        }
        *self = cur;
        Ok(())
    }

    /// Decodes a message from its encoding.
    pub fn decode(bytes: &[u8]) -> (r: Result<Self, WireError>)
        ensures
            match Self::spec_decode(bytes@) {
                Ok(v) => r matches Ok(m) && m@ == v,
                Err(e) => r matches Err(x) && x == e,
            },
    {
        proof {
            reveal(ContentManifestPayload::spec_decode);
        }
        let mut m = Self::default();
        match m.merge(bytes) {
            Ok(()) => Ok(m),
            Err(e) => Err(e),
        }
    }

    /// The encoding of this message.
    pub fn encode_to_vec(&self) -> (r: Vec<u8>)
        ensures
            r@ == Self::spec_encode(self@),
    {
        let enc_mappings = crate::content_manifest::content_manifest_payload::FileMapping::encode_all(&self.mappings);
        let ghost v = self@;
        let mut out: Vec<u8> = Vec::new();
        let ghost p0 = Seq::<SpecField>::empty();
        put_rep_bytes(&mut out, 1, &enc_mappings);
        let ghost p1 = p0 + rep_bytes(1, crate::content_manifest::content_manifest_payload::FileMapping::spec_encode_all(v.mappings));
        proof {
            lemma_fields_bytes_concat(p0, rep_bytes(1, crate::content_manifest::content_manifest_payload::FileMapping::spec_encode_all(v.mappings)));
        }
        proof {
            reveal(ContentManifestPayload::spec_encode);
        }
        assert(p1 == Self::spec_fields(v));
        out
    }

    /// Appends the encoding of this message to `out`.
    pub fn encode_raw(&self, out: &mut Vec<u8>)
        ensures
            final(out)@ == old(out)@ + Self::spec_encode(self@),
    {
        let mut b = self.encode_to_vec();
        out.append(&mut b);
    }

    /// The first `k` fields of `v`, the others as a fresh message has them.
    #[verifier::opaque]
    pub open spec fn spec_prefix(v: SpecContentManifestPayload, k: int) -> SpecContentManifestPayload {
        SpecContentManifestPayload {
            mappings: if 1 <= k { v.mappings } else { Seq::empty() },
        }
    }

    /// Reading field 1 back, after the fields before it.
    proof fn lemma_field_mappings(v: SpecContentManifestPayload)
        requires
            fields_wf(rep_bytes(1, crate::content_manifest::content_manifest_payload::FileMapping::spec_encode_all(v.mappings))),
        ensures
            fold_fields(Self::spec_prefix(v, 0), rep_bytes(1, crate::content_manifest::content_manifest_payload::FileMapping::spec_encode_all(v.mappings)), Self::apply_fn())
                == Ok::<SpecContentManifestPayload, WireError>(Self::spec_prefix(v, 1)),
    {
        reveal(ContentManifestPayload::spec_prefix);
        reveal(rep_bytes);
        reveal(fields_wf);
        let apply = Self::apply_fn();
        let s = Self::spec_prefix(v, 0);
        let l = rep_bytes(1, crate::content_manifest::content_manifest_payload::FileMapping::spec_encode_all(v.mappings));
        let xs = v.mappings;
        let st = Seq::new((xs.len() + 1) as nat, |j: int| SpecContentManifestPayload { mappings: xs.take(j), ..s });
        assert forall|j: int| 0 <= j < l.len() implies #[trigger] apply(st[j], l[j]) == Ok::<SpecContentManifestPayload, WireError>(st[j + 1]) by {
            assert(field_wf(l[j]));
            crate::content_manifest::content_manifest_payload::FileMapping::lemma_decode_encode(xs[j]);
            assert(xs.take(j).push(xs[j]) =~= xs.take(j + 1));
        }
        lemma_fold_chain(l, st, apply);
        assert(xs.take(0) =~= Seq::<crate::content_manifest::content_manifest_payload::SpecFileMapping>::empty());
        assert(xs.take(xs.len() as int) =~= xs);
        assert(st[0] == s);
        assert(st[xs.len() as int] == Self::spec_prefix(v, 1));
    }

    /// Whether this message declares field number `n`.
    pub open spec fn declares(n: u32) -> bool {
        n == 1
    }

    /// A record with a number this message does not declare is passed over: well-formed
    /// bytes decode to the same message with such a record after them as without it.
    pub proof fn lemma_unknown_field(bytes: Seq<u8>, f: SpecField)
        requires
            parse_fields(bytes) is Ok,
            field_wf(f),
            !Self::declares(f.number),
        ensures
            Self::spec_decode(bytes + field_bytes(f)) == Self::spec_decode(bytes),
    {
        reveal(ContentManifestPayload::spec_decode);
        lemma_parse_fields_append(bytes, f);
        let fs = parse_fields(bytes).unwrap();
        let apply = Self::apply_fn();
        lemma_fold_concat(Self::spec_default(), fs, seq![f], apply);
        assert(fs.push(f) =~= fs + seq![f]);
        if let Ok(w) = fold_fields(Self::spec_default(), fs, apply) {
            lemma_fold_single(w, f, apply);
        }
        lemma_merge_run_fold(Self::spec_default(), bytes, apply);
        lemma_merge_run_fold(Self::spec_default(), bytes + field_bytes(f), apply);
    }

    /// Decoding the encoding of a message gives the message back.
    pub proof fn lemma_decode_encode(v: SpecContentManifestPayload)
        requires
            Self::spec_encode(v).len() <= u64::MAX,
        ensures
            Self::spec_decode(Self::spec_encode(v)) == Ok::<SpecContentManifestPayload, WireError>(v),
    {
        let apply = Self::apply_fn();
        let d = Self::spec_default();
        let p0 = Seq::<SpecField>::empty();
        let l1 = rep_bytes(1, crate::content_manifest::content_manifest_payload::FileMapping::spec_encode_all(v.mappings));
        let p1 = p0 + l1;
        assert(parse_fields(Self::spec_encode(v)) == Ok::<Seq<SpecField>, WireError>(p1) && fields_wf(l1)) by {
            reveal(ContentManifestPayload::spec_encode);
            assert(numbers_ok(p0) && fields_wf(p0)) by {
                reveal(numbers_ok);
                reveal(fields_wf);
            }
            lemma_rep_bytes_numbered(1, crate::content_manifest::content_manifest_payload::FileMapping::spec_encode_all(v.mappings));
            lemma_fields_wf_concat(p0, l1);
            assert(p1 == Self::spec_fields(v));
            lemma_fields_wf_from_len(p1);
            lemma_fields_roundtrip(p1);
        }
        assert(Self::spec_prefix(v, 0) == d) by {
            reveal(ContentManifestPayload::spec_prefix);
        }
        lemma_fold_empty(d, apply);
        lemma_fold_concat(d, p0, l1, apply);
        Self::lemma_field_mappings(v);
        assert(Self::spec_prefix(v, 1) == v) by {
            reveal(ContentManifestPayload::spec_prefix);
        }
        lemma_merge_run_fold(d, Self::spec_encode(v), apply);
        assert(Self::spec_decode(Self::spec_encode(v)) == Ok::<SpecContentManifestPayload, WireError>(v)) by {
            reveal(ContentManifestPayload::spec_decode);
        }
    }
}

} // verus!
