//! Types nested inside `c_msg_cre_item_vote_summary_response`.


use vstd::prelude::*;

use crate::codec::{
    bytes_seq_view, dec_fixed32, dec_fixed64, dec_i32, enc_fixed32, enc_fixed64, enc_i32,
    fold_fields, lemma_fold_concat, lemma_fold_empty, lemma_fold_opt, lemma_fold_single,
    lemma_i32_roundtrip, lemma_merge_run_empty, lemma_merge_run_fold, lemma_merge_run_step,
    lemma_opt_fixed32_numbered, lemma_opt_fixed64_numbered, lemma_opt_i32_numbered,
    lemma_u64_roundtrip, merge_run, opt_bytes_view, opt_fixed32, opt_fixed64, opt_i32,
    put_opt_fixed32, put_opt_fixed64, put_opt_i32, read_fixed32, read_fixed64, read_i32,
};

use crate::wire::fields::{
    field_bytes, field_wf, fields_bytes, fields_wf, lemma_fields_bytes_concat,
    lemma_fields_roundtrip, lemma_fields_wf_concat, lemma_fields_wf_from_len,
    lemma_parse_field_len, lemma_parse_fields_append, numbers_ok, parse_fields, read_field,
    Field, SpecField,
};
use crate::wire::varint::WireError;

verus! {

/// `ItemVoteSummary`, as Valve's schema declares it.
#[derive(Debug, Clone, PartialEq)]
pub struct ItemVoteSummary {
    /// Field 1.
    pub published_file_id: Option<u64>,
    /// Field 2.
    pub votes_for: Option<i32>,
    /// Field 3.
    pub votes_against: Option<i32>,
    /// Field 4.
    pub reports: Option<i32>,
    /// Field 5, a `float` carried as its IEEE 754 bit pattern.
    pub score: Option<u32>,
}

/// What a `ItemVoteSummary` holds, as mathematical values.
#[verifier::ext_equal]
pub struct SpecItemVoteSummary {
    pub published_file_id: Option<u64>,
    pub votes_for: Option<i32>,
    pub votes_against: Option<i32>,
    pub reports: Option<i32>,
    pub score: Option<u32>,
}

impl View for ItemVoteSummary {
    type V = SpecItemVoteSummary;

    open spec fn view(&self) -> SpecItemVoteSummary {
        SpecItemVoteSummary {
            published_file_id: self.published_file_id,
            votes_for: self.votes_for,
            votes_against: self.votes_against,
            reports: self.reports,
            score: self.score,
        }
    }
}

impl Default for ItemVoteSummary {
    fn default() -> (r: Self)
        ensures
            r@ == ItemVoteSummary::spec_default(),
    {
        ItemVoteSummary {
            published_file_id: None,
            votes_for: None,
            votes_against: None,
            reports: None,
            score: None,
        }
    }
}

impl ItemVoteSummary {
    pub open spec fn spec_default() -> SpecItemVoteSummary {
        SpecItemVoteSummary {
            published_file_id: None,
            votes_for: None,
            votes_against: None,
            reports: None,
            score: None,
        }
    }

    /// The records a `ItemVoteSummary` is written as, in field order.
    pub open spec fn spec_fields(v: SpecItemVoteSummary) -> Seq<SpecField> {
        Seq::<SpecField>::empty()
            + opt_fixed64(1, v.published_file_id)
            + opt_i32(2, v.votes_for)
            + opt_i32(3, v.votes_against)
            + opt_i32(4, v.reports)
            + opt_fixed32(5, v.score)
    }

    #[verifier::opaque]
    pub open spec fn spec_encode(v: SpecItemVoteSummary) -> Seq<u8> {
        fields_bytes(Self::spec_fields(v))
    }

    /// What one record does to the message: a declared number sets or extends its
    /// field, any other number is left alone.
    pub open spec fn spec_apply(v: SpecItemVoteSummary, f: SpecField) -> Result<SpecItemVoteSummary, WireError> {
        match f.number {
            1 => match dec_fixed64(f.value) {
                Ok(x) => Ok(SpecItemVoteSummary { published_file_id: Some(x), ..v }),
                Err(e) => Err(e),
            },
            2 => match dec_i32(f.value) {
                Ok(x) => Ok(SpecItemVoteSummary { votes_for: Some(x), ..v }),
                Err(e) => Err(e),
            },
            3 => match dec_i32(f.value) {
                Ok(x) => Ok(SpecItemVoteSummary { votes_against: Some(x), ..v }),
                Err(e) => Err(e),
            },
            4 => match dec_i32(f.value) {
                Ok(x) => Ok(SpecItemVoteSummary { reports: Some(x), ..v }),
                Err(e) => Err(e),
            },
            5 => match dec_fixed32(f.value) {
                Ok(x) => Ok(SpecItemVoteSummary { score: Some(x), ..v }),
                Err(e) => Err(e),
            },
            _ => Ok(v),
        }
    }

    pub open spec fn apply_fn() -> spec_fn(SpecItemVoteSummary, SpecField) -> Result<SpecItemVoteSummary, WireError> {
        |v: SpecItemVoteSummary, f: SpecField| Self::spec_apply(v, f)
    }

    /// The message `bytes` makes of `v`: its records applied in order, or the error
    /// that stops the reading.
    pub open spec fn spec_merge(v: SpecItemVoteSummary, bytes: Seq<u8>) -> Result<SpecItemVoteSummary, WireError> {
        let (w, stop) = merge_run(v, bytes, Self::apply_fn());
        match stop {
            None => Ok(w),
            Some(e) => Err(e),
        }
    }

    #[verifier::opaque]
    pub open spec fn spec_decode(bytes: Seq<u8>) -> Result<SpecItemVoteSummary, WireError> {
        Self::spec_merge(Self::spec_default(), bytes)
    }

    pub open spec fn view_all(xs: Seq<ItemVoteSummary>) -> Seq<SpecItemVoteSummary> {
        xs.map_values(|m: ItemVoteSummary| m@)
    }

    pub open spec fn view_opt(o: Option<ItemVoteSummary>) -> Option<SpecItemVoteSummary> {
        match o {
            Some(m) => Some(m@),
            None => None,
        }
    }

    pub open spec fn spec_encode_all(xs: Seq<SpecItemVoteSummary>) -> Seq<Seq<u8>> {
        xs.map_values(|m: SpecItemVoteSummary| Self::spec_encode(m))
    }

    pub open spec fn spec_encode_opt(o: Option<SpecItemVoteSummary>) -> Option<Seq<u8>> {
        match o {
            Some(m) => Some(Self::spec_encode(m)),
            None => None,
        }
    }

    /// The encoding of each element.
    pub fn encode_all(xs: &Vec<ItemVoteSummary>) -> (r: Vec<Vec<u8>>)
        ensures
            bytes_seq_view(r@) == Self::spec_encode_all(Self::view_all(xs@)),
    {
        let mut out: Vec<Vec<u8>> = Vec::new();
        let mut i: usize = 0;
        while i < xs.len()
            invariant
                i <= xs@.len(),
                out@.len() == i,
                forall|j: int| 0 <= j < i ==> #[trigger] out@[j]@ == Self::spec_encode(xs@[j]@),
            decreases xs@.len() - i,
        {
            let e = xs[i].encode_to_vec();
            out.push(e);
            i = i + 1;
        }
        assert(bytes_seq_view(out@) =~= Self::spec_encode_all(Self::view_all(xs@)));
        out
    }

    /// The encoding of the element, when there is one.
    pub fn encode_opt(o: &Option<ItemVoteSummary>) -> (r: Option<Vec<u8>>)
        ensures
            opt_bytes_view(r) == Self::spec_encode_opt(Self::view_opt(*o)),
    {
        match o {
            Some(m) => Some(m.encode_to_vec()),
            None => None,
        }
    }

    /// This message with one record applied to it, or, when the record is refused,
    /// the message unchanged and the reason.
    fn applied(self, f: &Field) -> (r: Result<Self, (Self, WireError)>)
        ensures
            match Self::spec_apply(self@, f@) {
                Ok(v) => r matches Ok(m) && m@ == v,
                Err(e) => r matches Err((m, x)) && x == e && m@ == self@,
            },
    {
        match f.number {
            1 => match read_fixed64(&f.value) {
                Ok(x) => Ok(Self { published_file_id: Some(x), ..self }),
                Err(e) => Err((self, e)),
            },
            2 => match read_i32(&f.value) {
                Ok(x) => Ok(Self { votes_for: Some(x), ..self }),
                Err(e) => Err((self, e)),
            },
            3 => match read_i32(&f.value) {
                Ok(x) => Ok(Self { votes_against: Some(x), ..self }),
                Err(e) => Err((self, e)),
            },
            4 => match read_i32(&f.value) {
                Ok(x) => Ok(Self { reports: Some(x), ..self }),
                Err(e) => Err((self, e)),
            },
            5 => match read_fixed32(&f.value) {
                Ok(x) => Ok(Self { score: Some(x), ..self }),
                Err(e) => Err((self, e)),
            },
            _ => Ok(self),
        }
    }

    /// Reads the records `bytes` holds into this message, in order. When a record does
    /// not parse or is refused, the reading stops there: the message keeps what the
    /// records before it gave, and the error is returned.
    pub fn merge(&mut self, bytes: &[u8]) -> (r: Result<(), WireError>)
        ensures
            final(self)@ == merge_run(old(self)@, bytes@, Self::apply_fn()).0,
            r == match merge_run(old(self)@, bytes@, Self::apply_fn()).1 {
                None => Ok::<(), WireError>(()),
                Some(e) => Err::<(), WireError>(e),
            },
    {
        let ghost total = merge_run(self@, bytes@, Self::apply_fn());
        let mut cur = Self::default();
        std::mem::swap(&mut cur, self);
        let mut pos: usize = 0;
        assert(bytes@.skip(0) =~= bytes@);
        while pos < bytes.len()
            invariant
                pos <= bytes@.len(),
                total == merge_run(old(self)@, bytes@, Self::apply_fn()),
                merge_run(cur@, bytes@.skip(pos as int), Self::apply_fn()) == total,
            decreases bytes@.len() - pos,
        {
            let ghost s = bytes@.skip(pos as int);
            proof {
                lemma_merge_run_step(cur@, s, Self::apply_fn());
                lemma_parse_field_len(s);
            }
            match read_field(bytes, pos) {
                Ok((f, end)) => {
                    assert(bytes@.skip(end as int) =~= s.skip((end - pos) as int));
                    match cur.applied(&f) {
                        Ok(m) => {
                            cur = m;
                        },
                        Err((m, e)) => {
                            *self = m;
                            return Err(e);
                        },
                    }
                    pos = end;
                },
                Err(e) => {
                    *self = cur;
                    return Err(e);
                },
            }
        }
        assert(bytes@.skip(pos as int) =~= Seq::<u8>::empty());
        proof {
            lemma_merge_run_empty(cur@, Self::apply_fn());
        }
        *self = cur;
        Ok(())
    }

    /// Decodes a message from its encoding.
    pub fn decode(bytes: &[u8]) -> (r: Result<Self, WireError>)
        ensures
            match Self::spec_decode(bytes@) {
                Ok(v) => r matches Ok(m) && m@ == v,
                Err(e) => r matches Err(x) && x == e,
            },
    {
        proof {
            reveal(ItemVoteSummary::spec_decode);
        }
        let mut m = Self::default();
        match m.merge(bytes) {
            Ok(()) => Ok(m),
            Err(e) => Err(e),
        }
    }

    /// The encoding of this message.
    pub fn encode_to_vec(&self) -> (r: Vec<u8>)
        ensures
            r@ == Self::spec_encode(self@),
    {
        let ghost v = self@;
        let mut out: Vec<u8> = Vec::new();
        let ghost p0 = Seq::<SpecField>::empty();
        put_opt_fixed64(&mut out, 1, self.published_file_id);
        let ghost p1 = p0 + opt_fixed64(1, v.published_file_id);
        proof {
            lemma_fields_bytes_concat(p0, opt_fixed64(1, v.published_file_id));
        }
        put_opt_i32(&mut out, 2, self.votes_for);
        let ghost p2 = p1 + opt_i32(2, v.votes_for);
        proof {
            lemma_fields_bytes_concat(p1, opt_i32(2, v.votes_for));
        }
        put_opt_i32(&mut out, 3, self.votes_against);
        let ghost p3 = p2 + opt_i32(3, v.votes_against);
        proof {
            lemma_fields_bytes_concat(p2, opt_i32(3, v.votes_against));
        }
        put_opt_i32(&mut out, 4, self.reports);
        let ghost p4 = p3 + opt_i32(4, v.reports);
        proof {
            lemma_fields_bytes_concat(p3, opt_i32(4, v.reports));
        }
        put_opt_fixed32(&mut out, 5, self.score);
        let ghost p5 = p4 + opt_fixed32(5, v.score);
        proof {
            lemma_fields_bytes_concat(p4, opt_fixed32(5, v.score));
        }
        proof {
            reveal(ItemVoteSummary::spec_encode);
        }
        assert(p5 == Self::spec_fields(v));
        out
    }

    /// Appends the encoding of this message to `out`.
    pub fn encode_raw(&self, out: &mut Vec<u8>)
        ensures
            final(out)@ == old(out)@ + Self::spec_encode(self@),
    {
        let mut b = self.encode_to_vec();
        out.append(&mut b);
    }

    /// The first `k` fields of `v`, the others as a fresh message has them.
    #[verifier::opaque]
    pub open spec fn spec_prefix(v: SpecItemVoteSummary, k: int) -> SpecItemVoteSummary {
        SpecItemVoteSummary {
            published_file_id: if 1 <= k { v.published_file_id } else { None },
            votes_for: if 2 <= k { v.votes_for } else { None },
            votes_against: if 3 <= k { v.votes_against } else { None },
            reports: if 4 <= k { v.reports } else { None },
            score: if 5 <= k { v.score } else { None },
        }
    }

    /// Reading field 1 back, after the fields before it.
    proof fn lemma_field_published_file_id(v: SpecItemVoteSummary)
        ensures
            fold_fields(Self::spec_prefix(v, 0), opt_fixed64(1, v.published_file_id), Self::apply_fn())
                == Ok::<SpecItemVoteSummary, WireError>(Self::spec_prefix(v, 1)),
    {
        reveal(ItemVoteSummary::spec_prefix);
        reveal(opt_fixed64);
        let apply = Self::apply_fn();
        let s = Self::spec_prefix(v, 0);
        lemma_fold_opt(s, 1, match v.published_file_id { Some(x) => Some(enc_fixed64(x)), None => None }, apply);
        if let Some(x) = v.published_file_id {
            lemma_u64_roundtrip(x);
        }
        assert(SpecItemVoteSummary { published_file_id: v.published_file_id, ..s } == Self::spec_prefix(v, 1));
    }

    /// Reading field 2 back, after the fields before it.
    proof fn lemma_field_votes_for(v: SpecItemVoteSummary)
        ensures
            fold_fields(Self::spec_prefix(v, 1), opt_i32(2, v.votes_for), Self::apply_fn())
                == Ok::<SpecItemVoteSummary, WireError>(Self::spec_prefix(v, 2)),
    {
        reveal(ItemVoteSummary::spec_prefix);
        reveal(opt_i32);
        let apply = Self::apply_fn();
        let s = Self::spec_prefix(v, 1);
        lemma_fold_opt(s, 2, match v.votes_for { Some(x) => Some(enc_i32(x)), None => None }, apply);
        if let Some(x) = v.votes_for {
            lemma_i32_roundtrip(x);
        }
        assert(SpecItemVoteSummary { votes_for: v.votes_for, ..s } == Self::spec_prefix(v, 2));
    }

    /// Reading field 3 back, after the fields before it.
    proof fn lemma_field_votes_against(v: SpecItemVoteSummary)
        ensures
            fold_fields(Self::spec_prefix(v, 2), opt_i32(3, v.votes_against), Self::apply_fn())
                == Ok::<SpecItemVoteSummary, WireError>(Self::spec_prefix(v, 3)),
    {
        reveal(ItemVoteSummary::spec_prefix);
        reveal(opt_i32);
        let apply = Self::apply_fn();
        let s = Self::spec_prefix(v, 2);
        lemma_fold_opt(s, 3, match v.votes_against { Some(x) => Some(enc_i32(x)), None => None }, apply);
        if let Some(x) = v.votes_against {
            lemma_i32_roundtrip(x);
        }
        assert(SpecItemVoteSummary { votes_against: v.votes_against, ..s } == Self::spec_prefix(v, 3));
    }

    /// Reading field 4 back, after the fields before it.
    proof fn lemma_field_reports(v: SpecItemVoteSummary)
        ensures
            fold_fields(Self::spec_prefix(v, 3), opt_i32(4, v.reports), Self::apply_fn())
                == Ok::<SpecItemVoteSummary, WireError>(Self::spec_prefix(v, 4)),
    {
        reveal(ItemVoteSummary::spec_prefix);
        reveal(opt_i32);
        let apply = Self::apply_fn();
        let s = Self::spec_prefix(v, 3);
        lemma_fold_opt(s, 4, match v.reports { Some(x) => Some(enc_i32(x)), None => None }, apply);
        if let Some(x) = v.reports {
            lemma_i32_roundtrip(x);
        }
        assert(SpecItemVoteSummary { reports: v.reports, ..s } == Self::spec_prefix(v, 4));
    }

    /// Reading field 5 back, after the fields before it.
    proof fn lemma_field_score(v: SpecItemVoteSummary)
        ensures
            fold_fields(Self::spec_prefix(v, 4), opt_fixed32(5, v.score), Self::apply_fn())
                == Ok::<SpecItemVoteSummary, WireError>(Self::spec_prefix(v, 5)),
    {
        reveal(ItemVoteSummary::spec_prefix);
        reveal(opt_fixed32);
        let apply = Self::apply_fn();
        let s = Self::spec_prefix(v, 4);
        lemma_fold_opt(s, 5, match v.score { Some(x) => Some(enc_fixed32(x)), None => None }, apply);
        assert(SpecItemVoteSummary { score: v.score, ..s } == Self::spec_prefix(v, 5));
    }

    /// Whether this message declares field number `n`.
    pub open spec fn declares(n: u32) -> bool {
        n == 1 || n == 2 || n == 3 || n == 4 || n == 5
    }

    /// A record with a number this message does not declare is passed over: well-formed
    /// bytes decode to the same message with such a record after them as without it.
    pub proof fn lemma_unknown_field(bytes: Seq<u8>, f: SpecField)
        requires
            parse_fields(bytes) is Ok,
            field_wf(f),
            !Self::declares(f.number),
        ensures
            Self::spec_decode(bytes + field_bytes(f)) == Self::spec_decode(bytes),
    {
        reveal(ItemVoteSummary::spec_decode);
        lemma_parse_fields_append(bytes, f);
        let fs = parse_fields(bytes).unwrap();
        let apply = Self::apply_fn();
        lemma_fold_concat(Self::spec_default(), fs, seq![f], apply);
        assert(fs.push(f) =~= fs + seq![f]);
        if let Ok(w) = fold_fields(Self::spec_default(), fs, apply) {
            lemma_fold_single(w, f, apply);
        }
        lemma_merge_run_fold(Self::spec_default(), bytes, apply);
        lemma_merge_run_fold(Self::spec_default(), bytes + field_bytes(f), apply);
    }

    /// Decoding the encoding of a message gives the message back.
    pub proof fn lemma_decode_encode(v: SpecItemVoteSummary)
        requires
            Self::spec_encode(v).len() <= u64::MAX,
        ensures
            Self::spec_decode(Self::spec_encode(v)) == Ok::<SpecItemVoteSummary, WireError>(v),
    {
        let apply = Self::apply_fn();
        let d = Self::spec_default();
        let p0 = Seq::<SpecField>::empty();
        let l1 = opt_fixed64(1, v.published_file_id);
        let p1 = p0 + l1;
        let l2 = opt_i32(2, v.votes_for);
        let p2 = p1 + l2;
        let l3 = opt_i32(3, v.votes_against);
        let p3 = p2 + l3;
        let l4 = opt_i32(4, v.reports);
        let p4 = p3 + l4;
        let l5 = opt_fixed32(5, v.score);
        let p5 = p4 + l5;
        assert(parse_fields(Self::spec_encode(v)) == Ok::<Seq<SpecField>, WireError>(p5)) by {
            reveal(ItemVoteSummary::spec_encode);
            assert(numbers_ok(p0) && fields_wf(p0)) by {
                reveal(numbers_ok);
                reveal(fields_wf);
            }
            lemma_opt_fixed64_numbered(1, v.published_file_id);
            lemma_fields_wf_concat(p0, l1);
            lemma_opt_i32_numbered(2, v.votes_for);
            lemma_fields_wf_concat(p1, l2);
            lemma_opt_i32_numbered(3, v.votes_against);
            lemma_fields_wf_concat(p2, l3);
            lemma_opt_i32_numbered(4, v.reports);
            lemma_fields_wf_concat(p3, l4);
            lemma_opt_fixed32_numbered(5, v.score);
            lemma_fields_wf_concat(p4, l5);
            assert(p5 == Self::spec_fields(v));
            lemma_fields_wf_from_len(p5);
            lemma_fields_roundtrip(p5);
        }
        assert(Self::spec_prefix(v, 0) == d) by {
            reveal(ItemVoteSummary::spec_prefix);
        }
        lemma_fold_empty(d, apply);
        lemma_fold_concat(d, p0, l1, apply);
        Self::lemma_field_published_file_id(v);
        lemma_fold_concat(d, p1, l2, apply);
        Self::lemma_field_votes_for(v);
        lemma_fold_concat(d, p2, l3, apply);
        Self::lemma_field_votes_against(v);
        lemma_fold_concat(d, p3, l4, apply);
        Self::lemma_field_reports(v);
        lemma_fold_concat(d, p4, l5, apply);
        Self::lemma_field_score(v);
        assert(Self::spec_prefix(v, 5) == v) by {
            reveal(ItemVoteSummary::spec_prefix);
        }
        lemma_merge_run_fold(d, Self::spec_encode(v), apply);
        assert(Self::spec_decode(Self::spec_encode(v)) == Ok::<SpecItemVoteSummary, WireError>(v)) by {
            reveal(ItemVoteSummary::spec_decode);
        }
    }
}

} // verus!
