//! Types nested inside `c_published_file_set_playtime_for_controller_configs_request`.


use vstd::prelude::*;

use crate::codec::{
    bytes_seq_view, dec_fixed32, dec_u64, enc_fixed32, enc_u64, fold_fields, lemma_fold_concat,
    lemma_fold_empty, lemma_fold_opt, lemma_fold_single, lemma_merge_run_empty,
    lemma_merge_run_fold, lemma_merge_run_step, lemma_opt_fixed32_numbered,
    lemma_opt_u64_numbered, lemma_u64_roundtrip, merge_run, opt_bytes_view, opt_fixed32,
    opt_u64, put_opt_fixed32, put_opt_varint, read_fixed32, read_u64,
};

use crate::wire::fields::{
    field_bytes, field_wf, fields_bytes, fields_wf, lemma_fields_bytes_concat,
    lemma_fields_roundtrip, lemma_fields_wf_concat, lemma_fields_wf_from_len,
    lemma_parse_field_len, lemma_parse_fields_append, numbers_ok, parse_fields, read_field,
    Field, SpecField,
};
use crate::wire::varint::WireError;

verus! {

/// `ControllerConfigUsage`, as Valve's schema declares it.
#[derive(Debug, Clone, PartialEq)]
pub struct ControllerConfigUsage {
    /// Field 1.
    pub publishedfileid: Option<u64>,
    /// Field 2, a `float` carried as its IEEE 754 bit pattern.
    pub seconds_active: Option<u32>,
}

/// What a `ControllerConfigUsage` holds, as mathematical values.
#[verifier::ext_equal]
pub struct SpecControllerConfigUsage {
    pub publishedfileid: Option<u64>,
    pub seconds_active: Option<u32>,
}

impl View for ControllerConfigUsage {
    type V = SpecControllerConfigUsage;

    open spec fn view(&self) -> SpecControllerConfigUsage {
        SpecControllerConfigUsage {
            publishedfileid: self.publishedfileid,
            seconds_active: self.seconds_active,
        }
    }
}

impl Default for ControllerConfigUsage {
    fn default() -> (r: Self)
        ensures
            r@ == ControllerConfigUsage::spec_default(),
    {
        ControllerConfigUsage {
            publishedfileid: None,
            seconds_active: None,
        }
    }
}

impl ControllerConfigUsage {
    pub open spec fn spec_default() -> SpecControllerConfigUsage {
        SpecControllerConfigUsage {
            publishedfileid: None,
            seconds_active: None,
        }
    }

    /// The records a `ControllerConfigUsage` is written as, in field order.
    pub open spec fn spec_fields(v: SpecControllerConfigUsage) -> Seq<SpecField> {
        Seq::<SpecField>::empty()
            + opt_u64(1, v.publishedfileid)
            + opt_fixed32(2, v.seconds_active)
    }

    #[verifier::opaque]
    pub open spec fn spec_encode(v: SpecControllerConfigUsage) -> Seq<u8> {
        fields_bytes(Self::spec_fields(v))
    }

    /// What one record does to the message: a declared number sets or extends its
    /// field, any other number is left alone.
    pub open spec fn spec_apply(v: SpecControllerConfigUsage, f: SpecField) -> Result<SpecControllerConfigUsage, WireError> {
        match f.number {
            1 => match dec_u64(f.value) {
                Ok(x) => Ok(SpecControllerConfigUsage { publishedfileid: Some(x), ..v }),
                Err(e) => Err(e),
            },
            2 => match dec_fixed32(f.value) {
                Ok(x) => Ok(SpecControllerConfigUsage { seconds_active: Some(x), ..v }),
                Err(e) => Err(e),
            },
            _ => Ok(v),
        }
    }

    pub open spec fn apply_fn() -> spec_fn(SpecControllerConfigUsage, SpecField) -> Result<SpecControllerConfigUsage, WireError> {
        |v: SpecControllerConfigUsage, f: SpecField| Self::spec_apply(v, f)
    }

    /// The message `bytes` makes of `v`: its records applied in order, or the error
    /// that stops the reading.
    pub open spec fn spec_merge(v: SpecControllerConfigUsage, bytes: Seq<u8>) -> Result<SpecControllerConfigUsage, WireError> {
        let (w, stop) = merge_run(v, bytes, Self::apply_fn());
        match stop {
            None => Ok(w),
            Some(e) => Err(e),
        }
    }

    #[verifier::opaque]
    pub open spec fn spec_decode(bytes: Seq<u8>) -> Result<SpecControllerConfigUsage, WireError> {
        Self::spec_merge(Self::spec_default(), bytes)
    }

    pub open spec fn view_all(xs: Seq<ControllerConfigUsage>) -> Seq<SpecControllerConfigUsage> {
        xs.map_values(|m: ControllerConfigUsage| m@)
    }

    pub open spec fn view_opt(o: Option<ControllerConfigUsage>) -> Option<SpecControllerConfigUsage> {
        match o {
            Some(m) => Some(m@),
            None => None,
        }
    }

    pub open spec fn spec_encode_all(xs: Seq<SpecControllerConfigUsage>) -> Seq<Seq<u8>> {
        xs.map_values(|m: SpecControllerConfigUsage| Self::spec_encode(m))
    }

    pub open spec fn spec_encode_opt(o: Option<SpecControllerConfigUsage>) -> Option<Seq<u8>> {
        match o {
            Some(m) => Some(Self::spec_encode(m)),
            None => None,
        }
    }

    /// The encoding of each element.
    pub fn encode_all(xs: &Vec<ControllerConfigUsage>) -> (r: Vec<Vec<u8>>)
        ensures
            bytes_seq_view(r@) == Self::spec_encode_all(Self::view_all(xs@)),
    {
        let mut out: Vec<Vec<u8>> = Vec::new();
        let mut i: usize = 0;
        while i < xs.len()
            invariant
                i <= xs@.len(),
                out@.len() == i,
                forall|j: int| 0 <= j < i ==> #[trigger] out@[j]@ == Self::spec_encode(xs@[j]@),
            decreases xs@.len() - i,
        {
            let e = xs[i].encode_to_vec();
            out.push(e);
            i = i + 1;
        }
        assert(bytes_seq_view(out@) =~= Self::spec_encode_all(Self::view_all(xs@)));
        out
    }

    /// The encoding of the element, when there is one.
    pub fn encode_opt(o: &Option<ControllerConfigUsage>) -> (r: Option<Vec<u8>>)
        ensures
            opt_bytes_view(r) == Self::spec_encode_opt(Self::view_opt(*o)),
    {
        match o {
            Some(m) => Some(m.encode_to_vec()),
            None => None,
        }
    }

    /// This message with one record applied to it, or, when the record is refused,
    /// the message unchanged and the reason.
    fn applied(self, f: &Field) -> (r: Result<Self, (Self, WireError)>)
        ensures
            match Self::spec_apply(self@, f@) {
                Ok(v) => r matches Ok(m) && m@ == v,
                Err(e) => r matches Err((m, x)) && x == e && m@ == self@,
            },
    {
        match f.number {
            1 => match read_u64(&f.value) {
                Ok(x) => Ok(Self { publishedfileid: Some(x), ..self }),
                Err(e) => Err((self, e)),
            },
            2 => match read_fixed32(&f.value) {
                Ok(x) => Ok(Self { seconds_active: Some(x), ..self }),
                Err(e) => Err((self, e)),
            },
            _ => Ok(self),
        }
    }

    /// Reads the records `bytes` holds into this message, in order. When a record does
    /// not parse or is refused, the reading stops there: the message keeps what the
    /// records before it gave, and the error is returned.
    pub fn merge(&mut self, bytes: &[u8]) -> (r: Result<(), WireError>)
        ensures
            final(self)@ == merge_run(old(self)@, bytes@, Self::apply_fn()).0,
            r == match merge_run(old(self)@, bytes@, Self::apply_fn()).1 {
                None => Ok::<(), WireError>(()),
                Some(e) => Err::<(), WireError>(e),
            },
    {
        let ghost total = merge_run(self@, bytes@, Self::apply_fn());
        let mut cur = Self::default();
        std::mem::swap(&mut cur, self);
        let mut pos: usize = 0;
        assert(bytes@.skip(0) =~= bytes@);
        while pos < bytes.len()
            invariant
                pos <= bytes@.len(),
                total == merge_run(old(self)@, bytes@, Self::apply_fn()),
                merge_run(cur@, bytes@.skip(pos as int), Self::apply_fn()) == total,
            decreases bytes@.len() - pos,
        {
            let ghost s = bytes@.skip(pos as int);
            proof {
                lemma_merge_run_step(cur@, s, Self::apply_fn());
                lemma_parse_field_len(s);
            }
            match read_field(bytes, pos) {
                Ok((f, end)) => {
                    assert(bytes@.skip(end as int) =~= s.skip((end - pos) as int));
                    match cur.applied(&f) {
                        Ok(m) => {
                            cur = m;
                        },
                        Err((m, e)) => {
                            *self = m;
                            return Err(e);
                        },
                    }
                    pos = end;
                },
                Err(e) => {
                    *self = cur;
                    return Err(e);
                },
            }
        }
        assert(bytes@.skip(pos as int) =~= Seq::<u8>::empty());
        proof {
            lemma_merge_run_empty(cur@, Self::apply_fn());
        }
        *self = cur;
        Ok(())
    }

    /// Decodes a message from its encoding.
    pub fn decode(bytes: &[u8]) -> (r: Result<Self, WireError>)
        ensures
            match Self::spec_decode(bytes@) {
                Ok(v) => r matches Ok(m) && m@ == v,
                Err(e) => r matches Err(x) && x == e,
            },
    {
        proof {
            reveal(ControllerConfigUsage::spec_decode);
        }
        let mut m = Self::default();
        match m.merge(bytes) {
            Ok(()) => Ok(m),
            Err(e) => Err(e),
        }
    }

    /// The encoding of this message.
    pub fn encode_to_vec(&self) -> (r: Vec<u8>)
        ensures
            r@ == Self::spec_encode(self@),
    {
        let ghost v = self@;
        let mut out: Vec<u8> = Vec::new();
        let ghost p0 = Seq::<SpecField>::empty();
        put_opt_varint(&mut out, 1, self.publishedfileid);
        let ghost p1 = p0 + opt_u64(1, v.publishedfileid);
        proof {
            lemma_fields_bytes_concat(p0, opt_u64(1, v.publishedfileid));
        }
        put_opt_fixed32(&mut out, 2, self.seconds_active);
        let ghost p2 = p1 + opt_fixed32(2, v.seconds_active);
        proof {
            lemma_fields_bytes_concat(p1, opt_fixed32(2, v.seconds_active));
        }
        proof {
            reveal(ControllerConfigUsage::spec_encode);
        }
        assert(p2 == Self::spec_fields(v));
        out
    }

    /// Appends the encoding of this message to `out`.
    pub fn encode_raw(&self, out: &mut Vec<u8>)
        ensures
            final(out)@ == old(out)@ + Self::spec_encode(self@),
    {
        let mut b = self.encode_to_vec();
        out.append(&mut b);
    }

    /// The first `k` fields of `v`, the others as a fresh message has them.
    #[verifier::opaque]
    pub open spec fn spec_prefix(v: SpecControllerConfigUsage, k: int) -> SpecControllerConfigUsage {
        SpecControllerConfigUsage {
            publishedfileid: if 1 <= k { v.publishedfileid } else { None },
            seconds_active: if 2 <= k { v.seconds_active } else { None },
        }
    }

    /// Reading field 1 back, after the fields before it.
    proof fn lemma_field_publishedfileid(v: SpecControllerConfigUsage)
        ensures
            fold_fields(Self::spec_prefix(v, 0), opt_u64(1, v.publishedfileid), Self::apply_fn())
                == Ok::<SpecControllerConfigUsage, WireError>(Self::spec_prefix(v, 1)),
    {
        reveal(ControllerConfigUsage::spec_prefix);
        reveal(opt_u64);
        let apply = Self::apply_fn();
        let s = Self::spec_prefix(v, 0);
        lemma_fold_opt(s, 1, match v.publishedfileid { Some(x) => Some(enc_u64(x)), None => None }, apply);
        if let Some(x) = v.publishedfileid {
            lemma_u64_roundtrip(x);
        }
        assert(SpecControllerConfigUsage { publishedfileid: v.publishedfileid, ..s } == Self::spec_prefix(v, 1));
    }

    /// Reading field 2 back, after the fields before it.
    proof fn lemma_field_seconds_active(v: SpecControllerConfigUsage)
        ensures
            fold_fields(Self::spec_prefix(v, 1), opt_fixed32(2, v.seconds_active), Self::apply_fn())
                == Ok::<SpecControllerConfigUsage, WireError>(Self::spec_prefix(v, 2)),
    {
        reveal(ControllerConfigUsage::spec_prefix);
        reveal(opt_fixed32);
        let apply = Self::apply_fn();
        let s = Self::spec_prefix(v, 1);
        lemma_fold_opt(s, 2, match v.seconds_active { Some(x) => Some(enc_fixed32(x)), None => None }, apply);
        assert(SpecControllerConfigUsage { seconds_active: v.seconds_active, ..s } == Self::spec_prefix(v, 2));
    }

    /// Whether this message declares field number `n`.
    pub open spec fn declares(n: u32) -> bool {
        n == 1 || n == 2
    }

    /// A record with a number this message does not declare is passed over: well-formed
    /// bytes decode to the same message with such a record after them as without it.
    pub proof fn lemma_unknown_field(bytes: Seq<u8>, f: SpecField)
        requires
            parse_fields(bytes) is Ok,
            field_wf(f),
            !Self::declares(f.number),
        ensures
            Self::spec_decode(bytes + field_bytes(f)) == Self::spec_decode(bytes),
    {
        reveal(ControllerConfigUsage::spec_decode);
        lemma_parse_fields_append(bytes, f);
        let fs = parse_fields(bytes).unwrap();
        let apply = Self::apply_fn();
        lemma_fold_concat(Self::spec_default(), fs, seq![f], apply);
        assert(fs.push(f) =~= fs + seq![f]);
        if let Ok(w) = fold_fields(Self::spec_default(), fs, apply) {
            lemma_fold_single(w, f, apply);
        }
        lemma_merge_run_fold(Self::spec_default(), bytes, apply);
        lemma_merge_run_fold(Self::spec_default(), bytes + field_bytes(f), apply);
    }

    /// Decoding the encoding of a message gives the message back.
    pub proof fn lemma_decode_encode(v: SpecControllerConfigUsage)
        requires
            Self::spec_encode(v).len() <= u64::MAX,
        ensures
            Self::spec_decode(Self::spec_encode(v)) == Ok::<SpecControllerConfigUsage, WireError>(v),
    {
        let apply = Self::apply_fn();
        let d = Self::spec_default();
        let p0 = Seq::<SpecField>::empty();
        let l1 = opt_u64(1, v.publishedfileid);
        let p1 = p0 + l1;
        let l2 = opt_fixed32(2, v.seconds_active);
        let p2 = p1 + l2;
        assert(parse_fields(Self::spec_encode(v)) == Ok::<Seq<SpecField>, WireError>(p2)) by {
            reveal(ControllerConfigUsage::spec_encode);
            assert(numbers_ok(p0) && fields_wf(p0)) by {
                reveal(numbers_ok);
                reveal(fields_wf);
            }
            lemma_opt_u64_numbered(1, v.publishedfileid);
            lemma_fields_wf_concat(p0, l1);
            lemma_opt_fixed32_numbered(2, v.seconds_active);
            lemma_fields_wf_concat(p1, l2);
            assert(p2 == Self::spec_fields(v));
            lemma_fields_wf_from_len(p2);
            lemma_fields_roundtrip(p2);
        }
        assert(Self::spec_prefix(v, 0) == d) by {
            reveal(ControllerConfigUsage::spec_prefix);
        }
        lemma_fold_empty(d, apply);
        lemma_fold_concat(d, p0, l1, apply);
        Self::lemma_field_publishedfileid(v);
        lemma_fold_concat(d, p1, l2, apply);
        Self::lemma_field_seconds_active(v);
        assert(Self::spec_prefix(v, 2) == v) by {
            reveal(ControllerConfigUsage::spec_prefix);
        }
        lemma_merge_run_fold(d, Self::spec_encode(v), apply);
        assert(Self::spec_decode(Self::spec_encode(v)) == Ok::<SpecControllerConfigUsage, WireError>(v)) by {
            reveal(ControllerConfigUsage::spec_decode);
        }
    }
}

} // verus!
