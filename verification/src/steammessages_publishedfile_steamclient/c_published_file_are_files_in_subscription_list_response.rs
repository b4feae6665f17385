//! Types nested inside `c_published_file_are_files_in_subscription_list_response`.


use vstd::prelude::*;

use crate::codec::{
    bytes_seq_view, dec_bool, dec_fixed64, enc_bool, enc_fixed64, fold_fields,
    lemma_fold_concat, lemma_fold_empty, lemma_fold_opt, lemma_fold_single,
    lemma_merge_run_empty, lemma_merge_run_fold, lemma_merge_run_step, lemma_opt_bool_numbered,
    lemma_opt_fixed64_numbered, lemma_u64_roundtrip, merge_run, opt_bool, opt_bytes_view,
    opt_fixed64, put_opt_bool, put_opt_fixed64, read_bool, read_fixed64,
};

use crate::wire::fields::{
    field_bytes, field_wf, fields_bytes, fields_wf, lemma_fields_bytes_concat,
    lemma_fields_roundtrip, lemma_fields_wf_concat, lemma_fields_wf_from_len,
    lemma_parse_field_len, lemma_parse_fields_append, numbers_ok, parse_fields, read_field,
    Field, SpecField,
};
use crate::wire::varint::WireError;

verus! {

/// `InList`, as Valve's schema declares it.
#[derive(Debug, Clone, PartialEq)]
pub struct InList {
    /// Field 1.
    pub publishedfileid: Option<u64>,
    /// Field 2.
    pub inlist: Option<bool>,
}

/// What a `InList` holds, as mathematical values.
#[verifier::ext_equal]
pub struct SpecInList {
    pub publishedfileid: Option<u64>,
    pub inlist: Option<bool>,
}

impl View for InList {
    type V = SpecInList;

    open spec fn view(&self) -> SpecInList {
        SpecInList {
            publishedfileid: self.publishedfileid,
            inlist: self.inlist,
        }
    }
}

impl Default for InList {
    fn default() -> (r: Self)
        ensures
            r@ == InList::spec_default(),
    {
        InList {
            publishedfileid: None,
            inlist: None,
        }
    }
}

impl InList {
    pub open spec fn spec_default() -> SpecInList {
        SpecInList {
            publishedfileid: None,
            inlist: None,
        }
    }

    /// The records a `InList` is written as, in field order.
    pub open spec fn spec_fields(v: SpecInList) -> Seq<SpecField> {
        Seq::<SpecField>::empty()
            + opt_fixed64(1, v.publishedfileid)
            + opt_bool(2, v.inlist)
    }

    #[verifier::opaque]
    pub open spec fn spec_encode(v: SpecInList) -> Seq<u8> {
        fields_bytes(Self::spec_fields(v))
    }

    /// What one record does to the message: a declared number sets or extends its
    /// field, any other number is left alone.
    pub open spec fn spec_apply(v: SpecInList, f: SpecField) -> Result<SpecInList, WireError> {
        match f.number {
            1 => match dec_fixed64(f.value) {
                Ok(x) => Ok(SpecInList { publishedfileid: Some(x), ..v }),
                Err(e) => Err(e),
            },
            2 => match dec_bool(f.value) {
                Ok(x) => Ok(SpecInList { inlist: Some(x), ..v }),
                Err(e) => Err(e),
            },
            _ => Ok(v),
        }
    }

    pub open spec fn apply_fn() -> spec_fn(SpecInList, SpecField) -> Result<SpecInList, WireError> {
        |v: SpecInList, f: SpecField| Self::spec_apply(v, f)
    }

    /// The message `bytes` makes of `v`: its records applied in order, or the error
    /// that stops the reading.
    pub open spec fn spec_merge(v: SpecInList, bytes: Seq<u8>) -> Result<SpecInList, WireError> {
        let (w, stop) = merge_run(v, bytes, Self::apply_fn());
        match stop {
            None => Ok(w),
            Some(e) => Err(e),
        }
    }

    #[verifier::opaque]
    pub open spec fn spec_decode(bytes: Seq<u8>) -> Result<SpecInList, WireError> {
        Self::spec_merge(Self::spec_default(), bytes)
    }

    pub open spec fn view_all(xs: Seq<InList>) -> Seq<SpecInList> {
        xs.map_values(|m: InList| m@)
    }

    pub open spec fn view_opt(o: Option<InList>) -> Option<SpecInList> {
        match o {
            Some(m) => Some(m@),
            None => None,
        }
    }

    pub open spec fn spec_encode_all(xs: Seq<SpecInList>) -> Seq<Seq<u8>> {
        xs.map_values(|m: SpecInList| Self::spec_encode(m))
    }

    pub open spec fn spec_encode_opt(o: Option<SpecInList>) -> Option<Seq<u8>> {
        match o {
            Some(m) => Some(Self::spec_encode(m)),
            None => None,
        }
    }

    /// The encoding of each element.
    pub fn encode_all(xs: &Vec<InList>) -> (r: Vec<Vec<u8>>)
        ensures
            bytes_seq_view(r@) == Self::spec_encode_all(Self::view_all(xs@)),
    {
        let mut out: Vec<Vec<u8>> = Vec::new();
        let mut i: usize = 0;
        while i < xs.len()
            invariant
                i <= xs@.len(),
                out@.len() == i,
                forall|j: int| 0 <= j < i ==> #[trigger] out@[j]@ == Self::spec_encode(xs@[j]@),
            decreases xs@.len() - i,
        {
            let e = xs[i].encode_to_vec();
            out.push(e);
            i = i + 1;
        }
        assert(bytes_seq_view(out@) =~= Self::spec_encode_all(Self::view_all(xs@)));
        out
    }

    /// The encoding of the element, when there is one.
    pub fn encode_opt(o: &Option<InList>) -> (r: Option<Vec<u8>>)
        ensures
            opt_bytes_view(r) == Self::spec_encode_opt(Self::view_opt(*o)),
    {
        match o {
            Some(m) => Some(m.encode_to_vec()),
            None => None,
        }
    }

    /// This message with one record applied to it, or, when the record is refused,
    /// the message unchanged and the reason.
    fn applied(self, f: &Field) -> (r: Result<Self, (Self, WireError)>)
        ensures
            match Self::spec_apply(self@, f@) {
                Ok(v) => r matches Ok(m) && m@ == v,
                Err(e) => r matches Err((m, x)) && x == e && m@ == self@,
            },
    {
        match f.number {
            1 => match read_fixed64(&f.value) {
                Ok(x) => Ok(Self { publishedfileid: Some(x), ..self }),
                Err(e) => Err((self, e)),
            },
            2 => match read_bool(&f.value) {
                Ok(x) => Ok(Self { inlist: Some(x), ..self }),
                Err(e) => Err((self, e)),
            },
            _ => Ok(self),
        }
    }

    /// Reads the records `bytes` holds into this message, in order. When a record does
    /// not parse or is refused, the reading stops there: the message keeps what the
    /// records before it gave, and the error is returned.
    pub fn merge(&mut self, bytes: &[u8]) -> (r: Result<(), WireError>)
        ensures
            final(self)@ == merge_run(old(self)@, bytes@, Self::apply_fn()).0,
            r == match merge_run(old(self)@, bytes@, Self::apply_fn()).1 {
                None => Ok::<(), WireError>(()),
                Some(e) => Err::<(), WireError>(e),
            },
    {
        let ghost total = merge_run(self@, bytes@, Self::apply_fn());
        let mut cur = Self::default();
        std::mem::swap(&mut cur, self);
        let mut pos: usize = 0;
        assert(bytes@.skip(0) =~= bytes@);
        while pos < bytes.len()
            invariant
                pos <= bytes@.len(),
                total == merge_run(old(self)@, bytes@, Self::apply_fn()),
                merge_run(cur@, bytes@.skip(pos as int), Self::apply_fn()) == total,
            decreases bytes@.len() - pos,
        {
            let ghost s = bytes@.skip(pos as int);
            proof {
                lemma_merge_run_step(cur@, s, Self::apply_fn());
                lemma_parse_field_len(s);
            }
            match read_field(bytes, pos) {
                Ok((f, end)) => {
                    assert(bytes@.skip(end as int) =~= s.skip((end - pos) as int));
                    match cur.applied(&f) {
                        Ok(m) => {
                            cur = m;
                        },
                        Err((m, e)) => {
                            *self = m;
                            return Err(e);
                        },
                    }
                    pos = end;
                },
                Err(e) => {
                    *self = cur;
                    return Err(e);
                },
            }
        }
        assert(bytes@.skip(pos as int) =~= Seq::<u8>::empty());
        proof {
            lemma_merge_run_empty(cur@, Self::apply_fn());
        }
        *self = cur;
        Ok(())
    }

    /// Decodes a message from its encoding.
    pub fn decode(bytes: &[u8]) -> (r: Result<Self, WireError>)
        ensures
            match Self::spec_decode(bytes@) {
                Ok(v) => r matches Ok(m) && m@ == v,
                Err(e) => r matches Err(x) && x == e,
            },
    {
        proof {
            reveal(InList::spec_decode);
        }
        let mut m = Self::default();
        match m.merge(bytes) {
            Ok(()) => Ok(m),
            Err(e) => Err(e),
        }
    }

    /// The encoding of this message.
    pub fn encode_to_vec(&self) -> (r: Vec<u8>)
        ensures
            r@ == Self::spec_encode(self@),
    {
        let ghost v = self@;
        let mut out: Vec<u8> = Vec::new();
        let ghost p0 = Seq::<SpecField>::empty();
        put_opt_fixed64(&mut out, 1, self.publishedfileid);
        let ghost p1 = p0 + opt_fixed64(1, v.publishedfileid);
        proof {
            lemma_fields_bytes_concat(p0, opt_fixed64(1, v.publishedfileid));
        }
        put_opt_bool(&mut out, 2, self.inlist);
        let ghost p2 = p1 + opt_bool(2, v.inlist);
        proof {
            lemma_fields_bytes_concat(p1, opt_bool(2, v.inlist));
        }
        proof {
            reveal(InList::spec_encode);
        }
        assert(p2 == Self::spec_fields(v));
        out
    }

    /// Appends the encoding of this message to `out`.
    pub fn encode_raw(&self, out: &mut Vec<u8>)
        ensures
            final(out)@ == old(out)@ + Self::spec_encode(self@),
    {
        let mut b = self.encode_to_vec();
        out.append(&mut b);
    }

    /// The first `k` fields of `v`, the others as a fresh message has them.
    #[verifier::opaque]
    pub open spec fn spec_prefix(v: SpecInList, k: int) -> SpecInList {
        SpecInList {
            publishedfileid: if 1 <= k { v.publishedfileid } else { None },
            inlist: if 2 <= k { v.inlist } else { None },
        }
    }

    /// Reading field 1 back, after the fields before it.
    proof fn lemma_field_publishedfileid(v: SpecInList)
        ensures
            fold_fields(Self::spec_prefix(v, 0), opt_fixed64(1, v.publishedfileid), Self::apply_fn())
                == Ok::<SpecInList, WireError>(Self::spec_prefix(v, 1)),
    {
        reveal(InList::spec_prefix);
        reveal(opt_fixed64);
        let apply = Self::apply_fn();
        let s = Self::spec_prefix(v, 0);
        lemma_fold_opt(s, 1, match v.publishedfileid { Some(x) => Some(enc_fixed64(x)), None => None }, apply);
        if let Some(x) = v.publishedfileid {
            lemma_u64_roundtrip(x);
        }
        assert(SpecInList { publishedfileid: v.publishedfileid, ..s } == Self::spec_prefix(v, 1));
    }

    /// Reading field 2 back, after the fields before it.
    proof fn lemma_field_inlist(v: SpecInList)
        ensures
            fold_fields(Self::spec_prefix(v, 1), opt_bool(2, v.inlist), Self::apply_fn())
                == Ok::<SpecInList, WireError>(Self::spec_prefix(v, 2)),
    {
        reveal(InList::spec_prefix);
        reveal(opt_bool);
        let apply = Self::apply_fn();
        let s = Self::spec_prefix(v, 1);
        lemma_fold_opt(s, 2, match v.inlist { Some(x) => Some(enc_bool(x)), None => None }, apply);
        assert(SpecInList { inlist: v.inlist, ..s } == Self::spec_prefix(v, 2));
    }

    /// Whether this message declares field number `n`.
    pub open spec fn declares(n: u32) -> bool {
        n == 1 || n == 2
    }

    /// A record with a number this message does not declare is passed over: well-formed
    /// bytes decode to the same message with such a record after them as without it.
    pub proof fn lemma_unknown_field(bytes: Seq<u8>, f: SpecField)
        requires
            parse_fields(bytes) is Ok,
            field_wf(f),
            !Self::declares(f.number),
        ensures
            Self::spec_decode(bytes + field_bytes(f)) == Self::spec_decode(bytes),
    {
        reveal(InList::spec_decode);
        lemma_parse_fields_append(bytes, f);
        let fs = parse_fields(bytes).unwrap();
        let apply = Self::apply_fn();
        lemma_fold_concat(Self::spec_default(), fs, seq![f], apply);
        assert(fs.push(f) =~= fs + seq![f]);
        if let Ok(w) = fold_fields(Self::spec_default(), fs, apply) {
            lemma_fold_single(w, f, apply);
        }
        lemma_merge_run_fold(Self::spec_default(), bytes, apply);
        lemma_merge_run_fold(Self::spec_default(), bytes + field_bytes(f), apply);
    }

    /// Decoding the encoding of a message gives the message back.
    pub proof fn lemma_decode_encode(v: SpecInList)
        requires
            Self::spec_encode(v).len() <= u64::MAX,
        ensures
            Self::spec_decode(Self::spec_encode(v)) == Ok::<SpecInList, WireError>(v),
    {
        let apply = Self::apply_fn();
        let d = Self::spec_default();
        let p0 = Seq::<SpecField>::empty();
        let l1 = opt_fixed64(1, v.publishedfileid);
        let p1 = p0 + l1;
        let l2 = opt_bool(2, v.inlist);
        let p2 = p1 + l2;
        assert(parse_fields(Self::spec_encode(v)) == Ok::<Seq<SpecField>, WireError>(p2)) by {
            reveal(InList::spec_encode);
            assert(numbers_ok(p0) && fields_wf(p0)) by {
                reveal(numbers_ok);
                reveal(fields_wf);
            }
            lemma_opt_fixed64_numbered(1, v.publishedfileid);
            lemma_fields_wf_concat(p0, l1);
            lemma_opt_bool_numbered(2, v.inlist);
            lemma_fields_wf_concat(p1, l2);
            assert(p2 == Self::spec_fields(v));
            lemma_fields_wf_from_len(p2);
            lemma_fields_roundtrip(p2);
        }
        assert(Self::spec_prefix(v, 0) == d) by {
            reveal(InList::spec_prefix);
        }
        lemma_fold_empty(d, apply);
        lemma_fold_concat(d, p0, l1, apply);
        Self::lemma_field_publishedfileid(v);
        lemma_fold_concat(d, p1, l2, apply);
        Self::lemma_field_inlist(v);
        assert(Self::spec_prefix(v, 2) == v) by {
            reveal(InList::spec_prefix);
        }
        lemma_merge_run_fold(d, Self::spec_encode(v), apply);
        assert(Self::spec_decode(Self::spec_encode(v)) == Ok::<SpecInList, WireError>(v)) by {
            reveal(InList::spec_decode);
        }
    }
}

} // verus!
