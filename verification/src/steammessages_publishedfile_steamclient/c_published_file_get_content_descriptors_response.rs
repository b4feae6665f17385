//! Types nested inside `c_published_file_get_content_descriptors_response`.


use vstd::prelude::*;

use crate::codec::{
    bytes_seq_view, dec_bool, dec_i32, dec_u32, enc_bool, enc_i32, enc_u32, fold_fields,
    lemma_fold_concat, lemma_fold_empty, lemma_fold_opt, lemma_fold_single, lemma_i32_roundtrip,
    lemma_merge_run_empty, lemma_merge_run_fold, lemma_merge_run_step, lemma_opt_bool_numbered,
    lemma_opt_i32_numbered, lemma_opt_u32_numbered, lemma_u32_roundtrip, merge_run, opt_bool,
    opt_bytes_view, opt_i32, opt_u32, put_opt_bool, put_opt_i32, put_opt_u32, read_bool,
    read_i32, read_u32,
};

use crate::wire::fields::{
    field_bytes, field_wf, fields_bytes, fields_wf, lemma_fields_bytes_concat,
    lemma_fields_roundtrip, lemma_fields_wf_concat, lemma_fields_wf_from_len,
    lemma_parse_field_len, lemma_parse_fields_append, numbers_ok, parse_fields, read_field,
    Field, SpecField,
};
use crate::wire::varint::WireError;

verus! {

/// `ContentDescriptor`, as Valve's schema declares it.
#[derive(Debug, Clone, PartialEq)]
pub struct ContentDescriptor {
    /// Field 1.
    pub descriptorid: Option<crate::enums_productinfo::EContentDescriptorID>,
    /// Field 2.
    pub accountid: Option<u32>,
    /// Field 3.
    pub timestamp: Option<u32>,
    /// Field 4.
    pub moderator_set: Option<bool>,
}

/// What a `ContentDescriptor` holds, as mathematical values.
#[verifier::ext_equal]
pub struct SpecContentDescriptor {
    pub descriptorid: Option<i32>,
    pub accountid: Option<u32>,
    pub timestamp: Option<u32>,
    pub moderator_set: Option<bool>,
}

impl View for ContentDescriptor {
    type V = SpecContentDescriptor;

    open spec fn view(&self) -> SpecContentDescriptor {
        SpecContentDescriptor {
            descriptorid: match self.descriptorid { Some(e) => Some(e.0), None => None },
            accountid: self.accountid,
            timestamp: self.timestamp,
            moderator_set: self.moderator_set,
        }
    }
}

impl Default for ContentDescriptor {
    fn default() -> (r: Self)
        ensures
            r@ == ContentDescriptor::spec_default(),
    {
        ContentDescriptor {
            descriptorid: None,
            accountid: None,
            timestamp: None,
            moderator_set: None,
        }
    }
}

impl ContentDescriptor {
    /// Field 1, or its schema default when absent.
    pub fn descriptorid_or_default(&self) -> (r: crate::enums_productinfo::EContentDescriptorID)
        ensures
            r == match self.descriptorid {
                Some(e) => e,
                None => crate::enums_productinfo::EContentDescriptorID(1),
            },
    {
        match self.descriptorid {
            Some(e) => e,
            None => crate::enums_productinfo::EContentDescriptorID::k_EContentDescriptor_NudityOrSexualContent(),
        }
    }

    pub open spec fn spec_default() -> SpecContentDescriptor {
        SpecContentDescriptor {
            descriptorid: None,
            accountid: None,
            timestamp: None,
            moderator_set: None,
        }
    }

    /// The records a `ContentDescriptor` is written as, in field order.
    pub open spec fn spec_fields(v: SpecContentDescriptor) -> Seq<SpecField> {
        Seq::<SpecField>::empty()
            + opt_i32(1, v.descriptorid)
            + opt_u32(2, v.accountid)
            + opt_u32(3, v.timestamp)
            + opt_bool(4, v.moderator_set)
    }

    #[verifier::opaque]
    pub open spec fn spec_encode(v: SpecContentDescriptor) -> Seq<u8> {
        fields_bytes(Self::spec_fields(v))
    }

    /// What one record does to the message: a declared number sets or extends its
    /// field, any other number is left alone.
    pub open spec fn spec_apply(v: SpecContentDescriptor, f: SpecField) -> Result<SpecContentDescriptor, WireError> {
        match f.number {
            1 => match dec_i32(f.value) {
                Ok(x) => Ok(SpecContentDescriptor { descriptorid: Some(x), ..v }),
                Err(e) => Err(e),
            },
            2 => match dec_u32(f.value) {
                Ok(x) => Ok(SpecContentDescriptor { accountid: Some(x), ..v }),
                Err(e) => Err(e),
            },
            3 => match dec_u32(f.value) {
                Ok(x) => Ok(SpecContentDescriptor { timestamp: Some(x), ..v }),
                Err(e) => Err(e),
            },
            4 => match dec_bool(f.value) {
                Ok(x) => Ok(SpecContentDescriptor { moderator_set: Some(x), ..v }),
                Err(e) => Err(e),
            },
            _ => Ok(v),
        }
    }

    pub open spec fn apply_fn() -> spec_fn(SpecContentDescriptor, SpecField) -> Result<SpecContentDescriptor, WireError> {
        |v: SpecContentDescriptor, f: SpecField| Self::spec_apply(v, f)
    }

    /// The message `bytes` makes of `v`: its records applied in order, or the error
    /// that stops the reading.
    pub open spec fn spec_merge(v: SpecContentDescriptor, bytes: Seq<u8>) -> Result<SpecContentDescriptor, WireError> {
        let (w, stop) = merge_run(v, bytes, Self::apply_fn());
        match stop {
            None => Ok(w),
            Some(e) => Err(e),
        }
    }

    #[verifier::opaque]
    pub open spec fn spec_decode(bytes: Seq<u8>) -> Result<SpecContentDescriptor, WireError> {
        Self::spec_merge(Self::spec_default(), bytes)
    }

    pub open spec fn view_all(xs: Seq<ContentDescriptor>) -> Seq<SpecContentDescriptor> {
        xs.map_values(|m: ContentDescriptor| m@)
    }

    pub open spec fn view_opt(o: Option<ContentDescriptor>) -> Option<SpecContentDescriptor> {
        match o {
            Some(m) => Some(m@),
            None => None,
        }
    }

    pub open spec fn spec_encode_all(xs: Seq<SpecContentDescriptor>) -> Seq<Seq<u8>> {
        xs.map_values(|m: SpecContentDescriptor| Self::spec_encode(m))
    }

    pub open spec fn spec_encode_opt(o: Option<SpecContentDescriptor>) -> Option<Seq<u8>> {
        match o {
            Some(m) => Some(Self::spec_encode(m)),
            None => None,
        }
    }

    /// The encoding of each element.
    pub fn encode_all(xs: &Vec<ContentDescriptor>) -> (r: Vec<Vec<u8>>)
        ensures
            bytes_seq_view(r@) == Self::spec_encode_all(Self::view_all(xs@)),
    {
        let mut out: Vec<Vec<u8>> = Vec::new();
        let mut i: usize = 0;
        while i < xs.len()
            invariant
                i <= xs@.len(),
                out@.len() == i,
                forall|j: int| 0 <= j < i ==> #[trigger] out@[j]@ == Self::spec_encode(xs@[j]@),
            decreases xs@.len() - i,
        {
            let e = xs[i].encode_to_vec();
            out.push(e);
            i = i + 1;
        }
        assert(bytes_seq_view(out@) =~= Self::spec_encode_all(Self::view_all(xs@)));
        out
    }

    /// The encoding of the element, when there is one.
    pub fn encode_opt(o: &Option<ContentDescriptor>) -> (r: Option<Vec<u8>>)
        ensures
            opt_bytes_view(r) == Self::spec_encode_opt(Self::view_opt(*o)),
    {
        match o {
            Some(m) => Some(m.encode_to_vec()),
            None => None,
        }
    }

    /// This message with one record applied to it, or, when the record is refused,
    /// the message unchanged and the reason.
    fn applied(self, f: &Field) -> (r: Result<Self, (Self, WireError)>)
        ensures
            match Self::spec_apply(self@, f@) {
                Ok(v) => r matches Ok(m) && m@ == v,
                Err(e) => r matches Err((m, x)) && x == e && m@ == self@,
            },
    {
        match f.number {
            1 => match read_i32(&f.value) {
                Ok(x) => Ok(Self { descriptorid: Some(crate::enums_productinfo::EContentDescriptorID(x)), ..self }),
                Err(e) => Err((self, e)),
            },
            2 => match read_u32(&f.value) {
                Ok(x) => Ok(Self { accountid: Some(x), ..self }),
                Err(e) => Err((self, e)),
            },
            3 => match read_u32(&f.value) {
                Ok(x) => Ok(Self { timestamp: Some(x), ..self }),
                Err(e) => Err((self, e)),
            },
            4 => match read_bool(&f.value) {
                Ok(x) => Ok(Self { moderator_set: Some(x), ..self }),
                Err(e) => Err((self, e)),
            },
            _ => Ok(self),
        }
    }

    /// Reads the records `bytes` holds into this message, in order. When a record does
    /// not parse or is refused, the reading stops there: the message keeps what the
    /// records before it gave, and the error is returned.
    pub fn merge(&mut self, bytes: &[u8]) -> (r: Result<(), WireError>)
        ensures
            final(self)@ == merge_run(old(self)@, bytes@, Self::apply_fn()).0,
            r == match merge_run(old(self)@, bytes@, Self::apply_fn()).1 {
                None => Ok::<(), WireError>(()),
                Some(e) => Err::<(), WireError>(e),
            },
    {
        let ghost total = merge_run(self@, bytes@, Self::apply_fn());
        let mut cur = Self::default();
        std::mem::swap(&mut cur, self);
        let mut pos: usize = 0;
        assert(bytes@.skip(0) =~= bytes@);
        while pos < bytes.len()
            invariant
                pos <= bytes@.len(),
                total == merge_run(old(self)@, bytes@, Self::apply_fn()),
                merge_run(cur@, bytes@.skip(pos as int), Self::apply_fn()) == total,
            decreases bytes@.len() - pos,
        {
            let ghost s = bytes@.skip(pos as int);
            proof {
                lemma_merge_run_step(cur@, s, Self::apply_fn());
                lemma_parse_field_len(s);
            }
            match read_field(bytes, pos) {
                Ok((f, end)) => {
                    assert(bytes@.skip(end as int) =~= s.skip((end - pos) as int));
                    match cur.applied(&f) {
                        Ok(m) => {
                            cur = m;
                        },
                        Err((m, e)) => {
                            *self = m;
                            return Err(e);
                        },
                    }
                    pos = end;
                },
                Err(e) => {
                    *self = cur;
                    return Err(e);
                },
            }
        }
        assert(bytes@.skip(pos as int) =~= Seq::<u8>::empty());
        proof {
            lemma_merge_run_empty(cur@, Self::apply_fn());
        }
        *self = cur;
        Ok(())
    }

    /// Decodes a message from its encoding.
    pub fn decode(bytes: &[u8]) -> (r: Result<Self, WireError>)
        ensures
            match Self::spec_decode(bytes@) {
                Ok(v) => r matches Ok(m) && m@ == v,
                Err(e) => r matches Err(x) && x == e,
            },
    {
        proof {
            reveal(ContentDescriptor::spec_decode);
        }
        let mut m = Self::default();
        match m.merge(bytes) {
            Ok(()) => Ok(m),
            Err(e) => Err(e),
        }
    }

    /// The encoding of this message.
    pub fn encode_to_vec(&self) -> (r: Vec<u8>)
        ensures
            r@ == Self::spec_encode(self@),
    {
        let ghost v = self@;
        let mut out: Vec<u8> = Vec::new();
        let ghost p0 = Seq::<SpecField>::empty();
        put_opt_i32(&mut out, 1, match self.descriptorid { Some(e) => Some(e.0), None => None });
        let ghost p1 = p0 + opt_i32(1, v.descriptorid);
        proof {
            lemma_fields_bytes_concat(p0, opt_i32(1, v.descriptorid));
        }
        put_opt_u32(&mut out, 2, self.accountid);
        let ghost p2 = p1 + opt_u32(2, v.accountid);
        proof {
            lemma_fields_bytes_concat(p1, opt_u32(2, v.accountid));
        }
        put_opt_u32(&mut out, 3, self.timestamp);
        let ghost p3 = p2 + opt_u32(3, v.timestamp);
        proof {
            lemma_fields_bytes_concat(p2, opt_u32(3, v.timestamp));
        }
        put_opt_bool(&mut out, 4, self.moderator_set);
        let ghost p4 = p3 + opt_bool(4, v.moderator_set);
        proof {
            lemma_fields_bytes_concat(p3, opt_bool(4, v.moderator_set));
        }
        proof {
            reveal(ContentDescriptor::spec_encode);
        }
        assert(p4 == Self::spec_fields(v));
        out
    }

    /// Appends the encoding of this message to `out`.
    pub fn encode_raw(&self, out: &mut Vec<u8>)
        ensures
            final(out)@ == old(out)@ + Self::spec_encode(self@),
    {
        let mut b = self.encode_to_vec();
        out.append(&mut b);
    }

    /// The first `k` fields of `v`, the others as a fresh message has them.
    #[verifier::opaque]
    pub open spec fn spec_prefix(v: SpecContentDescriptor, k: int) -> SpecContentDescriptor {
        SpecContentDescriptor {
            descriptorid: if 1 <= k { v.descriptorid } else { None },
            accountid: if 2 <= k { v.accountid } else { None },
            timestamp: if 3 <= k { v.timestamp } else { None },
            moderator_set: if 4 <= k { v.moderator_set } else { None },
        }
    }

    /// Reading field 1 back, after the fields before it.
    proof fn lemma_field_descriptorid(v: SpecContentDescriptor)
        ensures
            fold_fields(Self::spec_prefix(v, 0), opt_i32(1, v.descriptorid), Self::apply_fn())
                == Ok::<SpecContentDescriptor, WireError>(Self::spec_prefix(v, 1)),
    {
        reveal(ContentDescriptor::spec_prefix);
        reveal(opt_i32);
        let apply = Self::apply_fn();
        let s = Self::spec_prefix(v, 0);
        lemma_fold_opt(s, 1, match v.descriptorid { Some(x) => Some(enc_i32(x)), None => None }, apply);
        if let Some(x) = v.descriptorid {
            lemma_i32_roundtrip(x);
        }
        assert(SpecContentDescriptor { descriptorid: v.descriptorid, ..s } == Self::spec_prefix(v, 1));
    }

    /// Reading field 2 back, after the fields before it.
    proof fn lemma_field_accountid(v: SpecContentDescriptor)
        ensures
            fold_fields(Self::spec_prefix(v, 1), opt_u32(2, v.accountid), Self::apply_fn())
                == Ok::<SpecContentDescriptor, WireError>(Self::spec_prefix(v, 2)),
    {
        reveal(ContentDescriptor::spec_prefix);
        reveal(opt_u32);
        let apply = Self::apply_fn();
        let s = Self::spec_prefix(v, 1);
        lemma_fold_opt(s, 2, match v.accountid { Some(x) => Some(enc_u32(x)), None => None }, apply);
        if let Some(x) = v.accountid {
            lemma_u32_roundtrip(x);
        }
        assert(SpecContentDescriptor { accountid: v.accountid, ..s } == Self::spec_prefix(v, 2));
    }

    /// Reading field 3 back, after the fields before it.
    proof fn lemma_field_timestamp(v: SpecContentDescriptor)
        ensures
            fold_fields(Self::spec_prefix(v, 2), opt_u32(3, v.timestamp), Self::apply_fn())
                == Ok::<SpecContentDescriptor, WireError>(Self::spec_prefix(v, 3)),
    {
        reveal(ContentDescriptor::spec_prefix);
        reveal(opt_u32);
        let apply = Self::apply_fn();
        let s = Self::spec_prefix(v, 2);
        lemma_fold_opt(s, 3, match v.timestamp { Some(x) => Some(enc_u32(x)), None => None }, apply);
        if let Some(x) = v.timestamp {
            lemma_u32_roundtrip(x);
        }
        assert(SpecContentDescriptor { timestamp: v.timestamp, ..s } == Self::spec_prefix(v, 3));
    }

    /// Reading field 4 back, after the fields before it.
    proof fn lemma_field_moderator_set(v: SpecContentDescriptor)
        ensures
            fold_fields(Self::spec_prefix(v, 3), opt_bool(4, v.moderator_set), Self::apply_fn())
                == Ok::<SpecContentDescriptor, WireError>(Self::spec_prefix(v, 4)),
    {
        reveal(ContentDescriptor::spec_prefix);
        reveal(opt_bool);
        let apply = Self::apply_fn();
        let s = Self::spec_prefix(v, 3);
        lemma_fold_opt(s, 4, match v.moderator_set { Some(x) => Some(enc_bool(x)), None => None }, apply);
        assert(SpecContentDescriptor { moderator_set: v.moderator_set, ..s } == Self::spec_prefix(v, 4));
    }

    /// Whether this message declares field number `n`.
    pub open spec fn declares(n: u32) -> bool {
        n == 1 || n == 2 || n == 3 || n == 4
    }

    /// A record with a number this message does not declare is passed over: well-formed
    /// bytes decode to the same message with such a record after them as without it.
    pub proof fn lemma_unknown_field(bytes: Seq<u8>, f: SpecField)
        requires
            parse_fields(bytes) is Ok,
            field_wf(f),
            !Self::declares(f.number),
        ensures
            Self::spec_decode(bytes + field_bytes(f)) == Self::spec_decode(bytes),
    {
        reveal(ContentDescriptor::spec_decode);
        lemma_parse_fields_append(bytes, f);
        let fs = parse_fields(bytes).unwrap();
        let apply = Self::apply_fn();
        lemma_fold_concat(Self::spec_default(), fs, seq![f], apply);
        assert(fs.push(f) =~= fs + seq![f]);
        if let Ok(w) = fold_fields(Self::spec_default(), fs, apply) {
            lemma_fold_single(w, f, apply);
        }
        lemma_merge_run_fold(Self::spec_default(), bytes, apply);
        lemma_merge_run_fold(Self::spec_default(), bytes + field_bytes(f), apply);
    }

    /// Decoding the encoding of a message gives the message back.
    pub proof fn lemma_decode_encode(v: SpecContentDescriptor)
        requires
            Self::spec_encode(v).len() <= u64::MAX,
        ensures
            Self::spec_decode(Self::spec_encode(v)) == Ok::<SpecContentDescriptor, WireError>(v),
    {
        let apply = Self::apply_fn();
        let d = Self::spec_default();
        let p0 = Seq::<SpecField>::empty();
        let l1 = opt_i32(1, v.descriptorid);
        let p1 = p0 + l1;
        let l2 = opt_u32(2, v.accountid);
        let p2 = p1 + l2;
        let l3 = opt_u32(3, v.timestamp);
        let p3 = p2 + l3;
        let l4 = opt_bool(4, v.moderator_set);
        let p4 = p3 + l4;
        assert(parse_fields(Self::spec_encode(v)) == Ok::<Seq<SpecField>, WireError>(p4)) by {
            reveal(ContentDescriptor::spec_encode);
            assert(numbers_ok(p0) && fields_wf(p0)) by {
                reveal(numbers_ok);
                reveal(fields_wf);
            }
            lemma_opt_i32_numbered(1, v.descriptorid);
            lemma_fields_wf_concat(p0, l1);
            lemma_opt_u32_numbered(2, v.accountid);
            lemma_fields_wf_concat(p1, l2);
            lemma_opt_u32_numbered(3, v.timestamp);
            lemma_fields_wf_concat(p2, l3);
            lemma_opt_bool_numbered(4, v.moderator_set);
            lemma_fields_wf_concat(p3, l4);
            assert(p4 == Self::spec_fields(v));
            lemma_fields_wf_from_len(p4);
            lemma_fields_roundtrip(p4);
        }
        assert(Self::spec_prefix(v, 0) == d) by {
            reveal(ContentDescriptor::spec_prefix);
        }
        lemma_fold_empty(d, apply);
        lemma_fold_concat(d, p0, l1, apply);
        Self::lemma_field_descriptorid(v);
        lemma_fold_concat(d, p1, l2, apply);
        Self::lemma_field_accountid(v);
        lemma_fold_concat(d, p2, l3, apply);
        Self::lemma_field_timestamp(v);
        lemma_fold_concat(d, p3, l4, apply);
        Self::lemma_field_moderator_set(v);
        assert(Self::spec_prefix(v, 4) == v) by {
            reveal(ContentDescriptor::spec_prefix);
        }
        lemma_merge_run_fold(d, Self::spec_encode(v), apply);
        assert(Self::spec_decode(Self::spec_encode(v)) == Ok::<SpecContentDescriptor, WireError>(v)) by {
            reveal(ContentDescriptor::spec_decode);
        }
    }
}

} // verus!
