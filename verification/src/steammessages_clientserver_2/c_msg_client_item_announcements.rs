//! Types nested inside `c_msg_client_item_announcements`.


use vstd::prelude::*;

use crate::codec::{
    bytes_seq_view, dec_fixed32, dec_u32, dec_u64, enc_fixed32, enc_u32, enc_u64, fold_fields,
    lemma_fold_concat, lemma_fold_empty, lemma_fold_opt, lemma_fold_single,
    lemma_merge_run_empty, lemma_merge_run_fold, lemma_merge_run_step,
    lemma_opt_fixed32_numbered, lemma_opt_u32_numbered, lemma_opt_u64_numbered,
    lemma_u32_roundtrip, lemma_u64_roundtrip, merge_run, opt_bytes_view, opt_fixed32, opt_u32,
    opt_u64, put_opt_fixed32, put_opt_u32, put_opt_varint, read_fixed32, read_u32, read_u64,
};

use crate::wire::fields::{
    field_bytes, field_wf, fields_bytes, fields_wf, lemma_fields_bytes_concat,
    lemma_fields_roundtrip, lemma_fields_wf_concat, lemma_fields_wf_from_len,
    lemma_parse_field_len, lemma_parse_fields_append, numbers_ok, parse_fields, read_field,
    Field, SpecField,
};
use crate::wire::varint::WireError;

verus! {

/// `UnseenItem`, as Valve's schema declares it.
#[derive(Debug, Clone, PartialEq)]
pub struct UnseenItem {
    /// Field 1.
    pub appid: Option<u32>,
    /// Field 2.
    pub context_id: Option<u64>,
    /// Field 3.
    pub asset_id: Option<u64>,
    /// Field 4.
    pub amount: Option<u64>,
    /// Field 5.
    pub rtime32_gained: Option<u32>,
    /// Field 6.
    pub source_appid: Option<u32>,
}

/// What a `UnseenItem` holds, as mathematical values.
#[verifier::ext_equal]
pub struct SpecUnseenItem {
    pub appid: Option<u32>,
    pub context_id: Option<u64>,
    pub asset_id: Option<u64>,
    pub amount: Option<u64>,
    pub rtime32_gained: Option<u32>,
    pub source_appid: Option<u32>,
}

impl View for UnseenItem {
    type V = SpecUnseenItem;

    open spec fn view(&self) -> SpecUnseenItem {
        SpecUnseenItem {
            appid: self.appid,
            context_id: self.context_id,
            asset_id: self.asset_id,
            amount: self.amount,
            rtime32_gained: self.rtime32_gained,
            source_appid: self.source_appid,
        }
    }
}

impl Default for UnseenItem {
    fn default() -> (r: Self)
        ensures
            r@ == UnseenItem::spec_default(),
    {
        UnseenItem {
            appid: None,
            context_id: None,
            asset_id: None,
            amount: None,
            rtime32_gained: None,
            source_appid: None,
        }
    }
}

impl UnseenItem {
    pub open spec fn spec_default() -> SpecUnseenItem {
        SpecUnseenItem {
            appid: None,
            context_id: None,
            asset_id: None,
            amount: None,
            rtime32_gained: None,
            source_appid: None,
        }
    }

    /// The records a `UnseenItem` is written as, in field order.
    pub open spec fn spec_fields(v: SpecUnseenItem) -> Seq<SpecField> {
        Seq::<SpecField>::empty()
            + opt_u32(1, v.appid)
            + opt_u64(2, v.context_id)
            + opt_u64(3, v.asset_id)
            + opt_u64(4, v.amount)
            + opt_fixed32(5, v.rtime32_gained)
            + opt_u32(6, v.source_appid)
    }

    #[verifier::opaque]
    pub open spec fn spec_encode(v: SpecUnseenItem) -> Seq<u8> {
        fields_bytes(Self::spec_fields(v))
    }

    /// What one record does to the message: a declared number sets or extends its
    /// field, any other number is left alone.
    pub open spec fn spec_apply(v: SpecUnseenItem, f: SpecField) -> Result<SpecUnseenItem, WireError> {
        match f.number {
            1 => match dec_u32(f.value) {
                Ok(x) => Ok(SpecUnseenItem { appid: Some(x), ..v }),
                Err(e) => Err(e),
            },
            2 => match dec_u64(f.value) {
                Ok(x) => Ok(SpecUnseenItem { context_id: Some(x), ..v }),
                Err(e) => Err(e),
            },
            3 => match dec_u64(f.value) {
                Ok(x) => Ok(SpecUnseenItem { asset_id: Some(x), ..v }),
                Err(e) => Err(e),
            },
            4 => match dec_u64(f.value) {
                Ok(x) => Ok(SpecUnseenItem { amount: Some(x), ..v }),
                Err(e) => Err(e),
            },
            5 => match dec_fixed32(f.value) {
                Ok(x) => Ok(SpecUnseenItem { rtime32_gained: Some(x), ..v }),
                Err(e) => Err(e),
            },
            6 => match dec_u32(f.value) {
                Ok(x) => Ok(SpecUnseenItem { source_appid: Some(x), ..v }),
                Err(e) => Err(e),
            },
            _ => Ok(v),
        }
    }

    pub open spec fn apply_fn() -> spec_fn(SpecUnseenItem, SpecField) -> Result<SpecUnseenItem, WireError> {
        |v: SpecUnseenItem, f: SpecField| Self::spec_apply(v, f)
    }

    /// The message `bytes` makes of `v`: its records applied in order, or the error
    /// that stops the reading.
    pub open spec fn spec_merge(v: SpecUnseenItem, bytes: Seq<u8>) -> Result<SpecUnseenItem, WireError> {
        let (w, stop) = merge_run(v, bytes, Self::apply_fn());
        match stop {
            None => Ok(w),
            Some(e) => Err(e),
        }
    }

    #[verifier::opaque]
    pub open spec fn spec_decode(bytes: Seq<u8>) -> Result<SpecUnseenItem, WireError> {
        Self::spec_merge(Self::spec_default(), bytes)
    }

    pub open spec fn view_all(xs: Seq<UnseenItem>) -> Seq<SpecUnseenItem> {
        xs.map_values(|m: UnseenItem| m@)
    }

    pub open spec fn view_opt(o: Option<UnseenItem>) -> Option<SpecUnseenItem> {
        match o {
            Some(m) => Some(m@),
            None => None,
        }
    }

    pub open spec fn spec_encode_all(xs: Seq<SpecUnseenItem>) -> Seq<Seq<u8>> {
        xs.map_values(|m: SpecUnseenItem| Self::spec_encode(m))
    }

    pub open spec fn spec_encode_opt(o: Option<SpecUnseenItem>) -> Option<Seq<u8>> {
        match o {
            Some(m) => Some(Self::spec_encode(m)),
            None => None,
        }
    }

    /// The encoding of each element.
    pub fn encode_all(xs: &Vec<UnseenItem>) -> (r: Vec<Vec<u8>>)
        ensures
            bytes_seq_view(r@) == Self::spec_encode_all(Self::view_all(xs@)),
    {
        let mut out: Vec<Vec<u8>> = Vec::new();
        let mut i: usize = 0;
        while i < xs.len()
            invariant
                i <= xs@.len(),
                out@.len() == i,
                forall|j: int| 0 <= j < i ==> #[trigger] out@[j]@ == Self::spec_encode(xs@[j]@),
            decreases xs@.len() - i,
        {
            let e = xs[i].encode_to_vec();
            out.push(e);
            i = i + 1;
        }
        assert(bytes_seq_view(out@) =~= Self::spec_encode_all(Self::view_all(xs@)));
        out
    }

    /// The encoding of the element, when there is one.
    pub fn encode_opt(o: &Option<UnseenItem>) -> (r: Option<Vec<u8>>)
        ensures
            opt_bytes_view(r) == Self::spec_encode_opt(Self::view_opt(*o)),
    {
        match o {
            Some(m) => Some(m.encode_to_vec()),
            None => None,
        }
    }

    /// This message with one record applied to it, or, when the record is refused,
    /// the message unchanged and the reason.
    fn applied(self, f: &Field) -> (r: Result<Self, (Self, WireError)>)
        ensures
            match Self::spec_apply(self@, f@) {
                Ok(v) => r matches Ok(m) && m@ == v,
                Err(e) => r matches Err((m, x)) && x == e && m@ == self@,
            },
    {
        match f.number {
            1 => match read_u32(&f.value) {
                Ok(x) => Ok(Self { appid: Some(x), ..self }),
                Err(e) => Err((self, e)),
            },
            2 => match read_u64(&f.value) {
                Ok(x) => Ok(Self { context_id: Some(x), ..self }),
                Err(e) => Err((self, e)),
            },
            3 => match read_u64(&f.value) {
                Ok(x) => Ok(Self { asset_id: Some(x), ..self }),
                Err(e) => Err((self, e)),
            },
            4 => match read_u64(&f.value) {
                Ok(x) => Ok(Self { amount: Some(x), ..self }),
                Err(e) => Err((self, e)),
            },
            5 => match read_fixed32(&f.value) {
                Ok(x) => Ok(Self { rtime32_gained: Some(x), ..self }),
                Err(e) => Err((self, e)),
            },
            6 => match read_u32(&f.value) {
                Ok(x) => Ok(Self { source_appid: Some(x), ..self }),
                Err(e) => Err((self, e)),
            },
            _ => Ok(self),
        }
    }

    /// Reads the records `bytes` holds into this message, in order. When a record does
    /// not parse or is refused, the reading stops there: the message keeps what the
    /// records before it gave, and the error is returned.
    pub fn merge(&mut self, bytes: &[u8]) -> (r: Result<(), WireError>)
        ensures
            final(self)@ == merge_run(old(self)@, bytes@, Self::apply_fn()).0,
            r == match merge_run(old(self)@, bytes@, Self::apply_fn()).1 {
                None => Ok::<(), WireError>(()),
                Some(e) => Err::<(), WireError>(e),
            },
    {
        let ghost total = merge_run(self@, bytes@, Self::apply_fn());
        let mut cur = Self::default();
        std::mem::swap(&mut cur, self);
        let mut pos: usize = 0;
        assert(bytes@.skip(0) =~= bytes@);
        while pos < bytes.len()
            invariant
                pos <= bytes@.len(),
                total == merge_run(old(self)@, bytes@, Self::apply_fn()),
                merge_run(cur@, bytes@.skip(pos as int), Self::apply_fn()) == total,
            decreases bytes@.len() - pos,
        {
            let ghost s = bytes@.skip(pos as int);
            proof {
                lemma_merge_run_step(cur@, s, Self::apply_fn());
                lemma_parse_field_len(s);
            }
            match read_field(bytes, pos) {
                Ok((f, end)) => {
                    assert(bytes@.skip(end as int) =~= s.skip((end - pos) as int));
                    match cur.applied(&f) {
                        Ok(m) => {
                            cur = m;
                        },
                        Err((m, e)) => {
                            *self = m;
                            return Err(e);
                        },
                    }
                    pos = end;
                },
                Err(e) => {
                    *self = cur;
                    return Err(e);
                },
            }
        }
        assert(bytes@.skip(pos as int) =~= Seq::<u8>::empty());
        proof {
            lemma_merge_run_empty(cur@, Self::apply_fn());
        }
        *self = cur;
        Ok(())
    }

    /// Decodes a message from its encoding.
    pub fn decode(bytes: &[u8]) -> (r: Result<Self, WireError>)
        ensures
            match Self::spec_decode(bytes@) {
                Ok(v) => r matches Ok(m) && m@ == v,
                Err(e) => r matches Err(x) && x == e,
            },
    {
        proof {
            reveal(UnseenItem::spec_decode);
        }
        let mut m = Self::default();
        match m.merge(bytes) {
            Ok(()) => Ok(m),
            Err(e) => Err(e),
        }
    }

    /// The encoding of this message.
    pub fn encode_to_vec(&self) -> (r: Vec<u8>)
        ensures
            r@ == Self::spec_encode(self@),
    {
        let ghost v = self@;
        let mut out: Vec<u8> = Vec::new();
        let ghost p0 = Seq::<SpecField>::empty();
        put_opt_u32(&mut out, 1, self.appid);
        let ghost p1 = p0 + opt_u32(1, v.appid);
        proof {
            lemma_fields_bytes_concat(p0, opt_u32(1, v.appid));
        }
        put_opt_varint(&mut out, 2, self.context_id);
        let ghost p2 = p1 + opt_u64(2, v.context_id);
        proof {
            lemma_fields_bytes_concat(p1, opt_u64(2, v.context_id));
        }
        put_opt_varint(&mut out, 3, self.asset_id);
        let ghost p3 = p2 + opt_u64(3, v.asset_id);
        proof {
            lemma_fields_bytes_concat(p2, opt_u64(3, v.asset_id));
        }
        put_opt_varint(&mut out, 4, self.amount);
        let ghost p4 = p3 + opt_u64(4, v.amount);
        proof {
            lemma_fields_bytes_concat(p3, opt_u64(4, v.amount));
        }
        put_opt_fixed32(&mut out, 5, self.rtime32_gained);
        let ghost p5 = p4 + opt_fixed32(5, v.rtime32_gained);
        proof {
            lemma_fields_bytes_concat(p4, opt_fixed32(5, v.rtime32_gained));
        }
        put_opt_u32(&mut out, 6, self.source_appid);
        let ghost p6 = p5 + opt_u32(6, v.source_appid);
        proof {
            lemma_fields_bytes_concat(p5, opt_u32(6, v.source_appid));
        }
        proof {
            reveal(UnseenItem::spec_encode);
        }
        assert(p6 == Self::spec_fields(v));
        out
    }

    /// Appends the encoding of this message to `out`.
    pub fn encode_raw(&self, out: &mut Vec<u8>)
        ensures
            final(out)@ == old(out)@ + Self::spec_encode(self@),
    {
        let mut b = self.encode_to_vec();
        out.append(&mut b);
    }

    /// The first `k` fields of `v`, the others as a fresh message has them.
    #[verifier::opaque]
    pub open spec fn spec_prefix(v: SpecUnseenItem, k: int) -> SpecUnseenItem {
        SpecUnseenItem {
            appid: if 1 <= k { v.appid } else { None },
            context_id: if 2 <= k { v.context_id } else { None },
            asset_id: if 3 <= k { v.asset_id } else { None },
            amount: if 4 <= k { v.amount } else { None },
            rtime32_gained: if 5 <= k { v.rtime32_gained } else { None },
            source_appid: if 6 <= k { v.source_appid } else { None },
        }
    }

    /// Reading field 1 back, after the fields before it.
    proof fn lemma_field_appid(v: SpecUnseenItem)
        ensures
            fold_fields(Self::spec_prefix(v, 0), opt_u32(1, v.appid), Self::apply_fn())
                == Ok::<SpecUnseenItem, WireError>(Self::spec_prefix(v, 1)),
    {
        reveal(UnseenItem::spec_prefix);
        reveal(opt_u32);
        let apply = Self::apply_fn();
        let s = Self::spec_prefix(v, 0);
        lemma_fold_opt(s, 1, match v.appid { Some(x) => Some(enc_u32(x)), None => None }, apply);
        if let Some(x) = v.appid {
            lemma_u32_roundtrip(x);
        }
        assert(SpecUnseenItem { appid: v.appid, ..s } == Self::spec_prefix(v, 1));
    }

    /// Reading field 2 back, after the fields before it.
    proof fn lemma_field_context_id(v: SpecUnseenItem)
        ensures
            fold_fields(Self::spec_prefix(v, 1), opt_u64(2, v.context_id), Self::apply_fn())
                == Ok::<SpecUnseenItem, WireError>(Self::spec_prefix(v, 2)),
    {
        reveal(UnseenItem::spec_prefix);
        reveal(opt_u64);
        let apply = Self::apply_fn();
        let s = Self::spec_prefix(v, 1);
        lemma_fold_opt(s, 2, match v.context_id { Some(x) => Some(enc_u64(x)), None => None }, apply);
        if let Some(x) = v.context_id {
            lemma_u64_roundtrip(x);
        }
        assert(SpecUnseenItem { context_id: v.context_id, ..s } == Self::spec_prefix(v, 2));
    }

    /// Reading field 3 back, after the fields before it.
    proof fn lemma_field_asset_id(v: SpecUnseenItem)
        ensures
            fold_fields(Self::spec_prefix(v, 2), opt_u64(3, v.asset_id), Self::apply_fn())
                == Ok::<SpecUnseenItem, WireError>(Self::spec_prefix(v, 3)),
    {
        reveal(UnseenItem::spec_prefix);
        reveal(opt_u64);
        let apply = Self::apply_fn();
        let s = Self::spec_prefix(v, 2);
        lemma_fold_opt(s, 3, match v.asset_id { Some(x) => Some(enc_u64(x)), None => None }, apply);
        if let Some(x) = v.asset_id {
            lemma_u64_roundtrip(x);
        }
        assert(SpecUnseenItem { asset_id: v.asset_id, ..s } == Self::spec_prefix(v, 3));
    }

    /// Reading field 4 back, after the fields before it.
    proof fn lemma_field_amount(v: SpecUnseenItem)
        ensures
            fold_fields(Self::spec_prefix(v, 3), opt_u64(4, v.amount), Self::apply_fn())
                == Ok::<SpecUnseenItem, WireError>(Self::spec_prefix(v, 4)),
    {
        reveal(UnseenItem::spec_prefix);
        reveal(opt_u64);
        let apply = Self::apply_fn();
        let s = Self::spec_prefix(v, 3);
        lemma_fold_opt(s, 4, match v.amount { Some(x) => Some(enc_u64(x)), None => None }, apply);
        if let Some(x) = v.amount {
            lemma_u64_roundtrip(x);
        }
        assert(SpecUnseenItem { amount: v.amount, ..s } == Self::spec_prefix(v, 4));
    }

    /// Reading field 5 back, after the fields before it.
    proof fn lemma_field_rtime32_gained(v: SpecUnseenItem)
        ensures
            fold_fields(Self::spec_prefix(v, 4), opt_fixed32(5, v.rtime32_gained), Self::apply_fn())
                == Ok::<SpecUnseenItem, WireError>(Self::spec_prefix(v, 5)),
    {
        reveal(UnseenItem::spec_prefix);
        reveal(opt_fixed32);
        let apply = Self::apply_fn();
        let s = Self::spec_prefix(v, 4);
        lemma_fold_opt(s, 5, match v.rtime32_gained { Some(x) => Some(enc_fixed32(x)), None => None }, apply);
        assert(SpecUnseenItem { rtime32_gained: v.rtime32_gained, ..s } == Self::spec_prefix(v, 5));
    }

    /// Reading field 6 back, after the fields before it.
    proof fn lemma_field_source_appid(v: SpecUnseenItem)
        ensures
            fold_fields(Self::spec_prefix(v, 5), opt_u32(6, v.source_appid), Self::apply_fn())
                == Ok::<SpecUnseenItem, WireError>(Self::spec_prefix(v, 6)),
    {
        reveal(UnseenItem::spec_prefix);
        reveal(opt_u32);
        let apply = Self::apply_fn();
        let s = Self::spec_prefix(v, 5);
        lemma_fold_opt(s, 6, match v.source_appid { Some(x) => Some(enc_u32(x)), None => None }, apply);
        if let Some(x) = v.source_appid {
            lemma_u32_roundtrip(x);
        }
        assert(SpecUnseenItem { source_appid: v.source_appid, ..s } == Self::spec_prefix(v, 6));
    }

    /// Whether this message declares field number `n`.
    pub open spec fn declares(n: u32) -> bool {
        n == 1 || n == 2 || n == 3 || n == 4 || n == 5 || n == 6
    }

    /// A record with a number this message does not declare is passed over: well-formed
    /// bytes decode to the same message with such a record after them as without it.
    pub proof fn lemma_unknown_field(bytes: Seq<u8>, f: SpecField)
        requires
            parse_fields(bytes) is Ok,
            field_wf(f),
            !Self::declares(f.number),
        ensures
            Self::spec_decode(bytes + field_bytes(f)) == Self::spec_decode(bytes),
    {
        reveal(UnseenItem::spec_decode);
        lemma_parse_fields_append(bytes, f);
        let fs = parse_fields(bytes).unwrap();
        let apply = Self::apply_fn();
        lemma_fold_concat(Self::spec_default(), fs, seq![f], apply);
        assert(fs.push(f) =~= fs + seq![f]);
        if let Ok(w) = fold_fields(Self::spec_default(), fs, apply) {
            lemma_fold_single(w, f, apply);
        }
        lemma_merge_run_fold(Self::spec_default(), bytes, apply);
        lemma_merge_run_fold(Self::spec_default(), bytes + field_bytes(f), apply);
    }

    /// Decoding the encoding of a message gives the message back.
    pub proof fn lemma_decode_encode(v: SpecUnseenItem)
        requires
            Self::spec_encode(v).len() <= u64::MAX,
        ensures
            Self::spec_decode(Self::spec_encode(v)) == Ok::<SpecUnseenItem, WireError>(v),
    {
        let apply = Self::apply_fn();
        let d = Self::spec_default();
        let p0 = Seq::<SpecField>::empty();
        let l1 = opt_u32(1, v.appid);
        let p1 = p0 + l1;
        let l2 = opt_u64(2, v.context_id);
        let p2 = p1 + l2;
        let l3 = opt_u64(3, v.asset_id);
        let p3 = p2 + l3;
        let l4 = opt_u64(4, v.amount);
        let p4 = p3 + l4;
        let l5 = opt_fixed32(5, v.rtime32_gained);
        let p5 = p4 + l5;
        let l6 = opt_u32(6, v.source_appid);
        let p6 = p5 + l6;
        assert(parse_fields(Self::spec_encode(v)) == Ok::<Seq<SpecField>, WireError>(p6)) by {
            reveal(UnseenItem::spec_encode);
            assert(numbers_ok(p0) && fields_wf(p0)) by {
                reveal(numbers_ok);
                reveal(fields_wf);
            }
            lemma_opt_u32_numbered(1, v.appid);
            lemma_fields_wf_concat(p0, l1);
            lemma_opt_u64_numbered(2, v.context_id);
            lemma_fields_wf_concat(p1, l2);
            lemma_opt_u64_numbered(3, v.asset_id);
            lemma_fields_wf_concat(p2, l3);
            lemma_opt_u64_numbered(4, v.amount);
            lemma_fields_wf_concat(p3, l4);
            lemma_opt_fixed32_numbered(5, v.rtime32_gained);
            lemma_fields_wf_concat(p4, l5);
            lemma_opt_u32_numbered(6, v.source_appid);
            lemma_fields_wf_concat(p5, l6);
            assert(p6 == Self::spec_fields(v));
            lemma_fields_wf_from_len(p6);
            lemma_fields_roundtrip(p6);
        }
        assert(Self::spec_prefix(v, 0) == d) by {
            reveal(UnseenItem::spec_prefix);
        }
        lemma_fold_empty(d, apply);
        lemma_fold_concat(d, p0, l1, apply);
        Self::lemma_field_appid(v);
        lemma_fold_concat(d, p1, l2, apply);
        Self::lemma_field_context_id(v);
        lemma_fold_concat(d, p2, l3, apply);
        Self::lemma_field_asset_id(v);
        lemma_fold_concat(d, p3, l4, apply);
        Self::lemma_field_amount(v);
        lemma_fold_concat(d, p4, l5, apply);
        Self::lemma_field_rtime32_gained(v);
        lemma_fold_concat(d, p5, l6, apply);
        Self::lemma_field_source_appid(v);
        assert(Self::spec_prefix(v, 6) == v) by {
            reveal(UnseenItem::spec_prefix);
        }
        lemma_merge_run_fold(d, Self::spec_encode(v), apply);
        assert(Self::spec_decode(Self::spec_encode(v)) == Ok::<SpecUnseenItem, WireError>(v)) by {
            reveal(UnseenItem::spec_decode);
        }
    }
}

} // verus!
