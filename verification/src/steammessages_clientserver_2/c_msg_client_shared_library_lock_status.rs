//! Types nested inside `c_msg_client_shared_library_lock_status`.


use vstd::prelude::*;

use crate::codec::{
    bytes_seq_view, dec_u32, enc_u32, fold_fields, lemma_fold_concat, lemma_fold_empty,
    lemma_fold_opt, lemma_fold_single, lemma_merge_run_empty, lemma_merge_run_fold,
    lemma_merge_run_step, lemma_opt_u32_numbered, lemma_u32_roundtrip, merge_run,
    opt_bytes_view, opt_u32, put_opt_u32, read_u32,
};

use crate::wire::fields::{
    field_bytes, field_wf, fields_bytes, fields_wf, lemma_fields_bytes_concat,
    lemma_fields_roundtrip, lemma_fields_wf_concat, lemma_fields_wf_from_len,
    lemma_parse_field_len, lemma_parse_fields_append, numbers_ok, parse_fields, read_field,
    Field, SpecField,
};
use crate::wire::varint::WireError;

verus! {

/// `LockedLibrary`, as Valve's schema declares it.
#[derive(Debug, Clone, PartialEq)]
pub struct LockedLibrary {
    /// Field 1.
    pub owner_id: Option<u32>,
    /// Field 2.
    pub locked_by: Option<u32>,
}

/// What a `LockedLibrary` holds, as mathematical values.
#[verifier::ext_equal]
pub struct SpecLockedLibrary {
    pub owner_id: Option<u32>,
    pub locked_by: Option<u32>,
}

impl View for LockedLibrary {
    type V = SpecLockedLibrary;

    open spec fn view(&self) -> SpecLockedLibrary {
        SpecLockedLibrary {
            owner_id: self.owner_id,
            locked_by: self.locked_by,
        }
    }
}

impl Default for LockedLibrary {
    fn default() -> (r: Self)
        ensures
            r@ == LockedLibrary::spec_default(),
    {
        LockedLibrary {
            owner_id: None,
            locked_by: None,
        }
    }
}

impl LockedLibrary {
    pub open spec fn spec_default() -> SpecLockedLibrary {
        SpecLockedLibrary {
            owner_id: None,
            locked_by: None,
        }
    }

    /// The records a `LockedLibrary` is written as, in field order.
    pub open spec fn spec_fields(v: SpecLockedLibrary) -> Seq<SpecField> {
        Seq::<SpecField>::empty()
            + opt_u32(1, v.owner_id)
            + opt_u32(2, v.locked_by)
    }

    #[verifier::opaque]
    pub open spec fn spec_encode(v: SpecLockedLibrary) -> Seq<u8> {
        fields_bytes(Self::spec_fields(v))
    }

    /// What one record does to the message: a declared number sets or extends its
    /// field, any other number is left alone.
    pub open spec fn spec_apply(v: SpecLockedLibrary, f: SpecField) -> Result<SpecLockedLibrary, WireError> {
        match f.number {
            1 => match dec_u32(f.value) {
                Ok(x) => Ok(SpecLockedLibrary { owner_id: Some(x), ..v }),
                Err(e) => Err(e),
            },
            2 => match dec_u32(f.value) {
                Ok(x) => Ok(SpecLockedLibrary { locked_by: Some(x), ..v }),
                Err(e) => Err(e),
            },
            _ => Ok(v),
        }
    }

    pub open spec fn apply_fn() -> spec_fn(SpecLockedLibrary, SpecField) -> Result<SpecLockedLibrary, WireError> {
        |v: SpecLockedLibrary, f: SpecField| Self::spec_apply(v, f)
    }

    /// The message `bytes` makes of `v`: its records applied in order, or the error
    /// that stops the reading.
    pub open spec fn spec_merge(v: SpecLockedLibrary, bytes: Seq<u8>) -> Result<SpecLockedLibrary, WireError> {
        let (w, stop) = merge_run(v, bytes, Self::apply_fn());
        match stop {
            None => Ok(w),
            Some(e) => Err(e),
        }
    }

    #[verifier::opaque]
    pub open spec fn spec_decode(bytes: Seq<u8>) -> Result<SpecLockedLibrary, WireError> {
        Self::spec_merge(Self::spec_default(), bytes)
    }

    pub open spec fn view_all(xs: Seq<LockedLibrary>) -> Seq<SpecLockedLibrary> {
        xs.map_values(|m: LockedLibrary| m@)
    }

    pub open spec fn view_opt(o: Option<LockedLibrary>) -> Option<SpecLockedLibrary> {
        match o {
            Some(m) => Some(m@),
            None => None,
        }
    }

    pub open spec fn spec_encode_all(xs: Seq<SpecLockedLibrary>) -> Seq<Seq<u8>> {
        xs.map_values(|m: SpecLockedLibrary| Self::spec_encode(m))
    }

    pub open spec fn spec_encode_opt(o: Option<SpecLockedLibrary>) -> Option<Seq<u8>> {
        match o {
            Some(m) => Some(Self::spec_encode(m)),
            None => None,
        }
    }

    /// The encoding of each element.
    pub fn encode_all(xs: &Vec<LockedLibrary>) -> (r: Vec<Vec<u8>>)
        ensures
            bytes_seq_view(r@) == Self::spec_encode_all(Self::view_all(xs@)),
    {
        let mut out: Vec<Vec<u8>> = Vec::new();
        let mut i: usize = 0;
        while i < xs.len()
            invariant
                i <= xs@.len(),
                out@.len() == i,
                forall|j: int| 0 <= j < i ==> #[trigger] out@[j]@ == Self::spec_encode(xs@[j]@),
            decreases xs@.len() - i,
        {
            let e = xs[i].encode_to_vec();
            out.push(e);
            i = i + 1;
        }
        assert(bytes_seq_view(out@) =~= Self::spec_encode_all(Self::view_all(xs@)));
        out
    }

    /// The encoding of the element, when there is one.
    pub fn encode_opt(o: &Option<LockedLibrary>) -> (r: Option<Vec<u8>>)
        ensures
            opt_bytes_view(r) == Self::spec_encode_opt(Self::view_opt(*o)),
    {
        match o {
            Some(m) => Some(m.encode_to_vec()),
            None => None,
        }
    }

    /// This message with one record applied to it, or, when the record is refused,
    /// the message unchanged and the reason.
    fn applied(self, f: &Field) -> (r: Result<Self, (Self, WireError)>)
        ensures
            match Self::spec_apply(self@, f@) {
                Ok(v) => r matches Ok(m) && m@ == v,
                Err(e) => r matches Err((m, x)) && x == e && m@ == self@,
            },
    {
        match f.number {
            1 => match read_u32(&f.value) {
                Ok(x) => Ok(Self { owner_id: Some(x), ..self }),
                Err(e) => Err((self, e)),
            },
            2 => match read_u32(&f.value) {
                Ok(x) => Ok(Self { locked_by: Some(x), ..self }),
                Err(e) => Err((self, e)),
            },
            _ => Ok(self),
        }
    }

    /// Reads the records `bytes` holds into this message, in order. When a record does
    /// not parse or is refused, the reading stops there: the message keeps what the
    /// records before it gave, and the error is returned.
    pub fn merge(&mut self, bytes: &[u8]) -> (r: Result<(), WireError>)
        ensures
            final(self)@ == merge_run(old(self)@, bytes@, Self::apply_fn()).0,
            r == match merge_run(old(self)@, bytes@, Self::apply_fn()).1 {
                None => Ok::<(), WireError>(()),
                Some(e) => Err::<(), WireError>(e),
            },
    {
        let ghost total = merge_run(self@, bytes@, Self::apply_fn());
        let mut cur = Self::default();
        std::mem::swap(&mut cur, self);
        let mut pos: usize = 0;
        assert(bytes@.skip(0) =~= bytes@);
        while pos < bytes.len()
            invariant
                pos <= bytes@.len(),
                total == merge_run(old(self)@, bytes@, Self::apply_fn()),
                merge_run(cur@, bytes@.skip(pos as int), Self::apply_fn()) == total,
            decreases bytes@.len() - pos,
        {
            let ghost s = bytes@.skip(pos as int);
            proof {
                lemma_merge_run_step(cur@, s, Self::apply_fn());
                lemma_parse_field_len(s);
            }
            match read_field(bytes, pos) {
                Ok((f, end)) => {
                    assert(bytes@.skip(end as int) =~= s.skip((end - pos) as int));
                    match cur.applied(&f) {
                        Ok(m) => {
                            cur = m;
                        },
                        Err((m, e)) => {
                            *self = m;
                            return Err(e);
                        },
                    }
                    pos = end;
                },
                Err(e) => {
                    *self = cur;
                    return Err(e);
                },
            }
        }
        assert(bytes@.skip(pos as int) =~= Seq::<u8>::empty());
        proof {
            lemma_merge_run_empty(cur@, Self::apply_fn());
        }
        *self = cur;
        Ok(())
    }

    /// Decodes a message from its encoding.
    pub fn decode(bytes: &[u8]) -> (r: Result<Self, WireError>)
        ensures
            match Self::spec_decode(bytes@) {
                Ok(v) => r matches Ok(m) && m@ == v,
                Err(e) => r matches Err(x) && x == e,
            },
    {
        proof {
            reveal(LockedLibrary::spec_decode);
        }
        let mut m = Self::default();
        match m.merge(bytes) {
            Ok(()) => Ok(m),
            Err(e) => Err(e),
        }
    }

    /// The encoding of this message.
    pub fn encode_to_vec(&self) -> (r: Vec<u8>)
        ensures
            r@ == Self::spec_encode(self@),
    {
        let ghost v = self@;
        let mut out: Vec<u8> = Vec::new();
        let ghost p0 = Seq::<SpecField>::empty();
        put_opt_u32(&mut out, 1, self.owner_id);
        let ghost p1 = p0 + opt_u32(1, v.owner_id);
        proof {
            lemma_fields_bytes_concat(p0, opt_u32(1, v.owner_id));
        }
        put_opt_u32(&mut out, 2, self.locked_by);
        let ghost p2 = p1 + opt_u32(2, v.locked_by);
        proof {
            lemma_fields_bytes_concat(p1, opt_u32(2, v.locked_by));
        }
        proof {
            reveal(LockedLibrary::spec_encode);
        }
        assert(p2 == Self::spec_fields(v));
        out
    }

    /// Appends the encoding of this message to `out`.
    pub fn encode_raw(&self, out: &mut Vec<u8>)
        ensures
            final(out)@ == old(out)@ + Self::spec_encode(self@),
    {
        let mut b = self.encode_to_vec();
        out.append(&mut b);
    }

    /// The first `k` fields of `v`, the others as a fresh message has them.
    #[verifier::opaque]
    pub open spec fn spec_prefix(v: SpecLockedLibrary, k: int) -> SpecLockedLibrary {
        SpecLockedLibrary {
            owner_id: if 1 <= k { v.owner_id } else { None },
            locked_by: if 2 <= k { v.locked_by } else { None },
        }
    }

    /// Reading field 1 back, after the fields before it.
    proof fn lemma_field_owner_id(v: SpecLockedLibrary)
        ensures
            fold_fields(Self::spec_prefix(v, 0), opt_u32(1, v.owner_id), Self::apply_fn())
                == Ok::<SpecLockedLibrary, WireError>(Self::spec_prefix(v, 1)),
    {
        reveal(LockedLibrary::spec_prefix);
        reveal(opt_u32);
        let apply = Self::apply_fn();
        let s = Self::spec_prefix(v, 0);
        lemma_fold_opt(s, 1, match v.owner_id { Some(x) => Some(enc_u32(x)), None => None }, apply);
        if let Some(x) = v.owner_id {
            lemma_u32_roundtrip(x);
        }
        assert(SpecLockedLibrary { owner_id: v.owner_id, ..s } == Self::spec_prefix(v, 1));
    }

    /// Reading field 2 back, after the fields before it.
    proof fn lemma_field_locked_by(v: SpecLockedLibrary)
        ensures
            fold_fields(Self::spec_prefix(v, 1), opt_u32(2, v.locked_by), Self::apply_fn())
                == Ok::<SpecLockedLibrary, WireError>(Self::spec_prefix(v, 2)),
    {
        reveal(LockedLibrary::spec_prefix);
        reveal(opt_u32);
        let apply = Self::apply_fn();
        let s = Self::spec_prefix(v, 1);
        lemma_fold_opt(s, 2, match v.locked_by { Some(x) => Some(enc_u32(x)), None => None }, apply);
        if let Some(x) = v.locked_by {
            lemma_u32_roundtrip(x);
        }
        assert(SpecLockedLibrary { locked_by: v.locked_by, ..s } == Self::spec_prefix(v, 2));
    }

    /// Whether this message declares field number `n`.
    pub open spec fn declares(n: u32) -> bool {
        n == 1 || n == 2
    }

    /// A record with a number this message does not declare is passed over: well-formed
    /// bytes decode to the same message with such a record after them as without it.
    pub proof fn lemma_unknown_field(bytes: Seq<u8>, f: SpecField)
        requires
            parse_fields(bytes) is Ok,
            field_wf(f),
            !Self::declares(f.number),
        ensures
            Self::spec_decode(bytes + field_bytes(f)) == Self::spec_decode(bytes),
    {
        reveal(LockedLibrary::spec_decode);
        lemma_parse_fields_append(bytes, f);
        let fs = parse_fields(bytes).unwrap();
        let apply = Self::apply_fn();
        lemma_fold_concat(Self::spec_default(), fs, seq![f], apply);
        assert(fs.push(f) =~= fs + seq![f]);
        if let Ok(w) = fold_fields(Self::spec_default(), fs, apply) {
            lemma_fold_single(w, f, apply);
        }
        lemma_merge_run_fold(Self::spec_default(), bytes, apply);
        lemma_merge_run_fold(Self::spec_default(), bytes + field_bytes(f), apply);
    }

    /// Decoding the encoding of a message gives the message back.
    pub proof fn lemma_decode_encode(v: SpecLockedLibrary)
        requires
            Self::spec_encode(v).len() <= u64::MAX,
        ensures
            Self::spec_decode(Self::spec_encode(v)) == Ok::<SpecLockedLibrary, WireError>(v),
    {
        let apply = Self::apply_fn();
        let d = Self::spec_default();
        let p0 = Seq::<SpecField>::empty();
        let l1 = opt_u32(1, v.owner_id);
        let p1 = p0 + l1;
        let l2 = opt_u32(2, v.locked_by);
        let p2 = p1 + l2;
        assert(parse_fields(Self::spec_encode(v)) == Ok::<Seq<SpecField>, WireError>(p2)) by {
            reveal(LockedLibrary::spec_encode);
            assert(numbers_ok(p0) && fields_wf(p0)) by {
                reveal(numbers_ok);
                reveal(fields_wf);
            }
            lemma_opt_u32_numbered(1, v.owner_id);
            lemma_fields_wf_concat(p0, l1);
            lemma_opt_u32_numbered(2, v.locked_by);
            lemma_fields_wf_concat(p1, l2);
            assert(p2 == Self::spec_fields(v));
            lemma_fields_wf_from_len(p2);
            lemma_fields_roundtrip(p2);
        }
        assert(Self::spec_prefix(v, 0) == d) by {
            reveal(LockedLibrary::spec_prefix);
        }
        lemma_fold_empty(d, apply);
        lemma_fold_concat(d, p0, l1, apply);
        Self::lemma_field_owner_id(v);
        lemma_fold_concat(d, p1, l2, apply);
        Self::lemma_field_locked_by(v);
        assert(Self::spec_prefix(v, 2) == v) by {
            reveal(LockedLibrary::spec_prefix);
        }
        lemma_merge_run_fold(d, Self::spec_encode(v), apply);
        assert(Self::spec_decode(Self::spec_encode(v)) == Ok::<SpecLockedLibrary, WireError>(v)) by {
            reveal(LockedLibrary::spec_decode);
        }
    }
}

} // verus!
