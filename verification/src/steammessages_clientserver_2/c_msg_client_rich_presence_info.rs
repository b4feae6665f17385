//! Types nested inside `c_msg_client_rich_presence_info`.


use vstd::prelude::*;

use crate::codec::{
    bytes_seq_view, dec_bytes, dec_fixed64, dec_string, enc_fixed64, enc_string, fold_fields,
    lemma_fold_chain, lemma_fold_concat, lemma_fold_empty, lemma_fold_opt, lemma_fold_single,
    lemma_merge_run_empty, lemma_merge_run_fold, lemma_merge_run_step,
    lemma_opt_fixed64_numbered, lemma_opt_string_numbered, lemma_rep_bytes_numbered,
    lemma_string_roundtrip, lemma_u64_roundtrip, merge_run, opt_bytes_view, opt_fixed64,
    opt_string, opt_string_view, put_opt_fixed64, put_opt_string, put_rep_bytes, read_fixed64,
    read_payload, read_string, rep_bytes,
};

use crate::wire::fields::{
    field_bytes, field_wf, fields_bytes, fields_wf, lemma_fields_bytes_concat,
    lemma_fields_roundtrip, lemma_fields_wf_concat, lemma_fields_wf_from_len,
    lemma_parse_field_len, lemma_parse_fields_append, numbers_ok, parse_fields, read_field,
    Field, SpecField,
};
use crate::wire::varint::WireError;

verus! {

/// `KV`, as Valve's schema declares it.
#[derive(Debug, Clone, PartialEq)]
pub struct KV {
    /// Field 1.
    pub key: Option<String>,
    /// Field 2.
    pub value: Option<String>,
}

/// What a `KV` holds, as mathematical values.
#[verifier::ext_equal]
pub struct SpecKV {
    pub key: Option<Seq<char>>,
    pub value: Option<Seq<char>>,
}

impl View for KV {
    type V = SpecKV;

    open spec fn view(&self) -> SpecKV {
        SpecKV {
            key: opt_string_view(self.key),
            value: opt_string_view(self.value),
        }
    }
}

impl Default for KV {
    fn default() -> (r: Self)
        ensures
            r@ == KV::spec_default(),
    {
        KV {
            key: None,
            value: None,
        }
    }
}

impl KV {
    pub open spec fn spec_default() -> SpecKV {
        SpecKV {
            key: None,
            value: None,
        }
    }

    /// The records a `KV` is written as, in field order.
    pub open spec fn spec_fields(v: SpecKV) -> Seq<SpecField> {
        Seq::<SpecField>::empty()
            + opt_string(1, v.key)
            + opt_string(2, v.value)
    }

    #[verifier::opaque]
    pub open spec fn spec_encode(v: SpecKV) -> Seq<u8> {
        fields_bytes(Self::spec_fields(v))
    }

    /// What one record does to the message: a declared number sets or extends its
    /// field, any other number is left alone.
    pub open spec fn spec_apply(v: SpecKV, f: SpecField) -> Result<SpecKV, WireError> {
        match f.number {
            1 => match dec_string(f.value) {
                Ok(x) => Ok(SpecKV { key: Some(x), ..v }),
                Err(e) => Err(e),
            },
            2 => match dec_string(f.value) {
                Ok(x) => Ok(SpecKV { value: Some(x), ..v }),
                Err(e) => Err(e),
            },
            _ => Ok(v),
        }
    }

    pub open spec fn apply_fn() -> spec_fn(SpecKV, SpecField) -> Result<SpecKV, WireError> {
        |v: SpecKV, f: SpecField| Self::spec_apply(v, f)
    }

    /// The message `bytes` makes of `v`: its records applied in order, or the error
    /// that stops the reading.
    pub open spec fn spec_merge(v: SpecKV, bytes: Seq<u8>) -> Result<SpecKV, WireError> {
        let (w, stop) = merge_run(v, bytes, Self::apply_fn());
        match stop {
            None => Ok(w),
            Some(e) => Err(e),
        }
    }

    #[verifier::opaque]
    pub open spec fn spec_decode(bytes: Seq<u8>) -> Result<SpecKV, WireError> {
        Self::spec_merge(Self::spec_default(), bytes)
    }

    pub open spec fn view_all(xs: Seq<KV>) -> Seq<SpecKV> {
        xs.map_values(|m: KV| m@)
    }

    pub open spec fn view_opt(o: Option<KV>) -> Option<SpecKV> {
        match o {
            Some(m) => Some(m@),
            None => None,
        }
    }

    pub open spec fn spec_encode_all(xs: Seq<SpecKV>) -> Seq<Seq<u8>> {
        xs.map_values(|m: SpecKV| Self::spec_encode(m))
    }

    pub open spec fn spec_encode_opt(o: Option<SpecKV>) -> Option<Seq<u8>> {
        match o {
            Some(m) => Some(Self::spec_encode(m)),
            None => None,
        }
    }

    /// The encoding of each element.
    pub fn encode_all(xs: &Vec<KV>) -> (r: Vec<Vec<u8>>)
        ensures
            bytes_seq_view(r@) == Self::spec_encode_all(Self::view_all(xs@)),
    {
        let mut out: Vec<Vec<u8>> = Vec::new();
        let mut i: usize = 0;
        while i < xs.len()
            invariant
                i <= xs@.len(),
                out@.len() == i,
                forall|j: int| 0 <= j < i ==> #[trigger] out@[j]@ == Self::spec_encode(xs@[j]@),
            decreases xs@.len() - i,
        {
            let e = xs[i].encode_to_vec();
            out.push(e);
            i = i + 1;
        }
        assert(bytes_seq_view(out@) =~= Self::spec_encode_all(Self::view_all(xs@)));
        out
    }

    /// The encoding of the element, when there is one.
    pub fn encode_opt(o: &Option<KV>) -> (r: Option<Vec<u8>>)
        ensures
            opt_bytes_view(r) == Self::spec_encode_opt(Self::view_opt(*o)),
    {
        match o {
            Some(m) => Some(m.encode_to_vec()),
            None => None,
        }
    }

    /// This message with one record applied to it, or, when the record is refused,
    /// the message unchanged and the reason.
    fn applied(self, f: &Field) -> (r: Result<Self, (Self, WireError)>)
        ensures
            match Self::spec_apply(self@, f@) {
                Ok(v) => r matches Ok(m) && m@ == v,
                Err(e) => r matches Err((m, x)) && x == e && m@ == self@,
            },
    {
        match f.number {
            1 => match read_string(&f.value) {
                Ok(x) => Ok(Self { key: Some(x), ..self }),
                Err(e) => Err((self, e)),
            },
            2 => match read_string(&f.value) {
                Ok(x) => Ok(Self { value: Some(x), ..self }),
                Err(e) => Err((self, e)),
            },
            _ => Ok(self),
        }
    }

    /// Reads the records `bytes` holds into this message, in order. When a record does
    /// not parse or is refused, the reading stops there: the message keeps what the
    /// records before it gave, and the error is returned.
    pub fn merge(&mut self, bytes: &[u8]) -> (r: Result<(), WireError>)
        ensures
            final(self)@ == merge_run(old(self)@, bytes@, Self::apply_fn()).0,
            r == match merge_run(old(self)@, bytes@, Self::apply_fn()).1 {
                None => Ok::<(), WireError>(()),
                Some(e) => Err::<(), WireError>(e),
            },
    {
        let ghost total = merge_run(self@, bytes@, Self::apply_fn());
        let mut cur = Self::default();
        std::mem::swap(&mut cur, self);
        let mut pos: usize = 0;
        assert(bytes@.skip(0) =~= bytes@);
        while pos < bytes.len()
            invariant
                pos <= bytes@.len(),
                total == merge_run(old(self)@, bytes@, Self::apply_fn()),
                merge_run(cur@, bytes@.skip(pos as int), Self::apply_fn()) == total,
            decreases bytes@.len() - pos,
        {
            let ghost s = bytes@.skip(pos as int);
            proof {
                lemma_merge_run_step(cur@, s, Self::apply_fn());
                lemma_parse_field_len(s);
            }
            match read_field(bytes, pos) {
                Ok((f, end)) => {
                    assert(bytes@.skip(end as int) =~= s.skip((end - pos) as int));
                    match cur.applied(&f) {
                        Ok(m) => {
                            cur = m;
                        },
                        Err((m, e)) => {
                            *self = m;
                            return Err(e);
                        },
                    }
                    pos = end;
                },
                Err(e) => {
                    *self = cur;
                    return Err(e);
                },
            }
        }
        assert(bytes@.skip(pos as int) =~= Seq::<u8>::empty());
        proof {
            lemma_merge_run_empty(cur@, Self::apply_fn());
        }
        *self = cur;
        Ok(())
    }

    /// Decodes a message from its encoding.
    pub fn decode(bytes: &[u8]) -> (r: Result<Self, WireError>)
        ensures
            match Self::spec_decode(bytes@) {
                Ok(v) => r matches Ok(m) && m@ == v,
                Err(e) => r matches Err(x) && x == e,
            },
    {
        proof {
            reveal(KV::spec_decode);
        }
        let mut m = Self::default();
        match m.merge(bytes) {
            Ok(()) => Ok(m),
            Err(e) => Err(e),
        }
    }

    /// The encoding of this message.
    pub fn encode_to_vec(&self) -> (r: Vec<u8>)
        ensures
            r@ == Self::spec_encode(self@),
    {
        let ghost v = self@;
        let mut out: Vec<u8> = Vec::new();
        let ghost p0 = Seq::<SpecField>::empty();
        put_opt_string(&mut out, 1, &self.key);
        let ghost p1 = p0 + opt_string(1, v.key);
        proof {
            lemma_fields_bytes_concat(p0, opt_string(1, v.key));
        }
        put_opt_string(&mut out, 2, &self.value);
        let ghost p2 = p1 + opt_string(2, v.value);
        proof {
            lemma_fields_bytes_concat(p1, opt_string(2, v.value));
        }
        proof {
            reveal(KV::spec_encode);
        }
        assert(p2 == Self::spec_fields(v));
        out
    }

    /// Appends the encoding of this message to `out`.
    pub fn encode_raw(&self, out: &mut Vec<u8>)
        ensures
            final(out)@ == old(out)@ + Self::spec_encode(self@),
    {
        let mut b = self.encode_to_vec();
        out.append(&mut b);
    }

    /// The first `k` fields of `v`, the others as a fresh message has them.
    #[verifier::opaque]
    pub open spec fn spec_prefix(v: SpecKV, k: int) -> SpecKV {
        SpecKV {
            key: if 1 <= k { v.key } else { None },
            value: if 2 <= k { v.value } else { None },
        }
    }

    /// Reading field 1 back, after the fields before it.
    proof fn lemma_field_key(v: SpecKV)
        ensures
            fold_fields(Self::spec_prefix(v, 0), opt_string(1, v.key), Self::apply_fn())
                == Ok::<SpecKV, WireError>(Self::spec_prefix(v, 1)),
    {
        reveal(KV::spec_prefix);
        reveal(opt_string);
        let apply = Self::apply_fn();
        let s = Self::spec_prefix(v, 0);
        lemma_fold_opt(s, 1, match v.key { Some(x) => Some(enc_string(x)), None => None }, apply);
        if let Some(x) = v.key {
            lemma_string_roundtrip(x);
        }
        assert(SpecKV { key: v.key, ..s } == Self::spec_prefix(v, 1));
    }

    /// Reading field 2 back, after the fields before it.
    proof fn lemma_field_value(v: SpecKV)
        ensures
            fold_fields(Self::spec_prefix(v, 1), opt_string(2, v.value), Self::apply_fn())
                == Ok::<SpecKV, WireError>(Self::spec_prefix(v, 2)),
    {
        reveal(KV::spec_prefix);
        reveal(opt_string);
        let apply = Self::apply_fn();
        let s = Self::spec_prefix(v, 1);
        lemma_fold_opt(s, 2, match v.value { Some(x) => Some(enc_string(x)), None => None }, apply);
        if let Some(x) = v.value {
            lemma_string_roundtrip(x);
        }
        assert(SpecKV { value: v.value, ..s } == Self::spec_prefix(v, 2));
    }

    /// Whether this message declares field number `n`.
    pub open spec fn declares(n: u32) -> bool {
        n == 1 || n == 2
    }

    /// A record with a number this message does not declare is passed over: well-formed
    /// bytes decode to the same message with such a record after them as without it.
    pub proof fn lemma_unknown_field(bytes: Seq<u8>, f: SpecField)
        requires
            parse_fields(bytes) is Ok,
            field_wf(f),
            !Self::declares(f.number),
        ensures
            Self::spec_decode(bytes + field_bytes(f)) == Self::spec_decode(bytes),
    {
        reveal(KV::spec_decode);
        lemma_parse_fields_append(bytes, f);
        let fs = parse_fields(bytes).unwrap();
        let apply = Self::apply_fn();
        lemma_fold_concat(Self::spec_default(), fs, seq![f], apply);
        assert(fs.push(f) =~= fs + seq![f]);
        if let Ok(w) = fold_fields(Self::spec_default(), fs, apply) {
            lemma_fold_single(w, f, apply);
        }
        lemma_merge_run_fold(Self::spec_default(), bytes, apply);
        lemma_merge_run_fold(Self::spec_default(), bytes + field_bytes(f), apply);
    }

    /// Decoding the encoding of a message gives the message back.
    pub proof fn lemma_decode_encode(v: SpecKV)
        requires
            Self::spec_encode(v).len() <= u64::MAX,
        ensures
            Self::spec_decode(Self::spec_encode(v)) == Ok::<SpecKV, WireError>(v),
    {
        let apply = Self::apply_fn();
        let d = Self::spec_default();
        let p0 = Seq::<SpecField>::empty();
        let l1 = opt_string(1, v.key);
        let p1 = p0 + l1;
        let l2 = opt_string(2, v.value);
        let p2 = p1 + l2;
        assert(parse_fields(Self::spec_encode(v)) == Ok::<Seq<SpecField>, WireError>(p2)) by {
            reveal(KV::spec_encode);
            assert(numbers_ok(p0) && fields_wf(p0)) by {
                reveal(numbers_ok);
                reveal(fields_wf);
            }
            lemma_opt_string_numbered(1, v.key);
            lemma_fields_wf_concat(p0, l1);
            lemma_opt_string_numbered(2, v.value);
            lemma_fields_wf_concat(p1, l2);
            assert(p2 == Self::spec_fields(v));
            lemma_fields_wf_from_len(p2);
            lemma_fields_roundtrip(p2);
        }
        assert(Self::spec_prefix(v, 0) == d) by {
            reveal(KV::spec_prefix);
        }
        lemma_fold_empty(d, apply);
        lemma_fold_concat(d, p0, l1, apply);
        Self::lemma_field_key(v);
        lemma_fold_concat(d, p1, l2, apply);
        Self::lemma_field_value(v);
        assert(Self::spec_prefix(v, 2) == v) by {
            reveal(KV::spec_prefix);
        }
        lemma_merge_run_fold(d, Self::spec_encode(v), apply);
        assert(Self::spec_decode(Self::spec_encode(v)) == Ok::<SpecKV, WireError>(v)) by {
            reveal(KV::spec_decode);
        }
    }
}

/// `RichPresence`, as Valve's schema declares it.
#[derive(Debug, Clone, PartialEq)]
pub struct RichPresence {
    /// Field 1.
    pub steamid_user: Option<u64>,
    /// Field 3.
    pub rich_presense: Vec<crate::steammessages_clientserver_2::c_msg_client_rich_presence_info::KV>,
}

/// What a `RichPresence` holds, as mathematical values.
#[verifier::ext_equal]
pub struct SpecRichPresence {
    pub steamid_user: Option<u64>,
    pub rich_presense: Seq<crate::steammessages_clientserver_2::c_msg_client_rich_presence_info::SpecKV>,
}

impl View for RichPresence {
    type V = SpecRichPresence;

    open spec fn view(&self) -> SpecRichPresence {
        SpecRichPresence {
            steamid_user: self.steamid_user,
            rich_presense: crate::steammessages_clientserver_2::c_msg_client_rich_presence_info::KV::view_all(self.rich_presense@),
        }
    }
}

impl Default for RichPresence {
    fn default() -> (r: Self)
        ensures
            r@ == RichPresence::spec_default(),
    {
        RichPresence {
            steamid_user: None,
            rich_presense: Vec::new(),
        }
    }
}

impl RichPresence {
    pub open spec fn spec_default() -> SpecRichPresence {
        SpecRichPresence {
            steamid_user: None,
            rich_presense: Seq::empty(),
        }
    }

    /// The records a `RichPresence` is written as, in field order.
    pub open spec fn spec_fields(v: SpecRichPresence) -> Seq<SpecField> {
        Seq::<SpecField>::empty()
            + opt_fixed64(1, v.steamid_user)
            + rep_bytes(3, crate::steammessages_clientserver_2::c_msg_client_rich_presence_info::KV::spec_encode_all(v.rich_presense))
    }

    #[verifier::opaque]
    pub open spec fn spec_encode(v: SpecRichPresence) -> Seq<u8> {
        fields_bytes(Self::spec_fields(v))
    }

    /// What one record does to the message: a declared number sets or extends its
    /// field, any other number is left alone.
    pub open spec fn spec_apply(v: SpecRichPresence, f: SpecField) -> Result<SpecRichPresence, WireError> {
        match f.number {
            1 => match dec_fixed64(f.value) {
                Ok(x) => Ok(SpecRichPresence { steamid_user: Some(x), ..v }),
                Err(e) => Err(e),
            },
            3 => match dec_bytes(f.value) {
                Ok(b) => match crate::steammessages_clientserver_2::c_msg_client_rich_presence_info::KV::spec_decode(b) {
                    Ok(m) => Ok(SpecRichPresence { rich_presense: v.rich_presense.push(m), ..v }),
                    Err(e) => Err(e),
                },
                Err(e) => Err(e),
            },
            _ => Ok(v),
        }
    }

    pub open spec fn apply_fn() -> spec_fn(SpecRichPresence, SpecField) -> Result<SpecRichPresence, WireError> {
        |v: SpecRichPresence, f: SpecField| Self::spec_apply(v, f)
    }

    /// The message `bytes` makes of `v`: its records applied in order, or the error
    /// that stops the reading.
    pub open spec fn spec_merge(v: SpecRichPresence, bytes: Seq<u8>) -> Result<SpecRichPresence, WireError> {
        let (w, stop) = merge_run(v, bytes, Self::apply_fn());
        match stop {
            None => Ok(w),
            Some(e) => Err(e),
        }
    }

    #[verifier::opaque]
    pub open spec fn spec_decode(bytes: Seq<u8>) -> Result<SpecRichPresence, WireError> {
        Self::spec_merge(Self::spec_default(), bytes)
    }

    pub open spec fn view_all(xs: Seq<RichPresence>) -> Seq<SpecRichPresence> {
        xs.map_values(|m: RichPresence| m@)
    }

    pub open spec fn view_opt(o: Option<RichPresence>) -> Option<SpecRichPresence> {
        match o {
            Some(m) => Some(m@),
            None => None,
        }
    }

    pub open spec fn spec_encode_all(xs: Seq<SpecRichPresence>) -> Seq<Seq<u8>> {
        xs.map_values(|m: SpecRichPresence| Self::spec_encode(m))
    }

    pub open spec fn spec_encode_opt(o: Option<SpecRichPresence>) -> Option<Seq<u8>> {
        match o {
            Some(m) => Some(Self::spec_encode(m)),
            None => None,
        }
    }

    /// The encoding of each element.
    pub fn encode_all(xs: &Vec<RichPresence>) -> (r: Vec<Vec<u8>>)
        ensures
            bytes_seq_view(r@) == Self::spec_encode_all(Self::view_all(xs@)),
    {
        let mut out: Vec<Vec<u8>> = Vec::new();
        let mut i: usize = 0;
        while i < xs.len()
            invariant
                i <= xs@.len(),
                out@.len() == i,
                forall|j: int| 0 <= j < i ==> #[trigger] out@[j]@ == Self::spec_encode(xs@[j]@),
            decreases xs@.len() - i,
        {
            let e = xs[i].encode_to_vec();
            out.push(e);
            i = i + 1;
        }
        assert(bytes_seq_view(out@) =~= Self::spec_encode_all(Self::view_all(xs@)));
        out
    }

    /// The encoding of the element, when there is one.
    pub fn encode_opt(o: &Option<RichPresence>) -> (r: Option<Vec<u8>>)
        ensures
            opt_bytes_view(r) == Self::spec_encode_opt(Self::view_opt(*o)),
    {
        match o {
            Some(m) => Some(m.encode_to_vec()),
            None => None,
        }
    }

    /// This message with one record applied to it, or, when the record is refused,
    /// the message unchanged and the reason.
    fn applied(self, f: &Field) -> (r: Result<Self, (Self, WireError)>)
        ensures
            match Self::spec_apply(self@, f@) {
                Ok(v) => r matches Ok(m) && m@ == v,
                Err(e) => r matches Err((m, x)) && x == e && m@ == self@,
            },
    {
        match f.number {
            1 => match read_fixed64(&f.value) {
                Ok(x) => Ok(Self { steamid_user: Some(x), ..self }),
                Err(e) => Err((self, e)),
            },
            3 => match read_payload(&f.value) {
                Ok(b) => match crate::steammessages_clientserver_2::c_msg_client_rich_presence_info::KV::decode(b) {
                    Ok(x) => {
                        let mut m = self;
                        let ghost before = m.rich_presense@;
                        m.rich_presense.push(x);
                        assert(crate::steammessages_clientserver_2::c_msg_client_rich_presence_info::KV::view_all(m.rich_presense@) =~= crate::steammessages_clientserver_2::c_msg_client_rich_presence_info::KV::view_all(before).push(x@));
                        Ok(m)
                    },
                    Err(e) => Err((self, e)),
                },
                Err(e) => Err((self, e)),
            },
            _ => Ok(self),
        }
    }

    /// Reads the records `bytes` holds into this message, in order. When a record does
    /// not parse or is refused, the reading stops there: the message keeps what the
    /// records before it gave, and the error is returned.
    pub fn merge(&mut self, bytes: &[u8]) -> (r: Result<(), WireError>)
        ensures
            final(self)@ == merge_run(old(self)@, bytes@, Self::apply_fn()).0,
            r == match merge_run(old(self)@, bytes@, Self::apply_fn()).1 {
                None => Ok::<(), WireError>(()),
                Some(e) => Err::<(), WireError>(e),
            },
    {
        let ghost total = merge_run(self@, bytes@, Self::apply_fn());
        let mut cur = Self::default();
        std::mem::swap(&mut cur, self);
        let mut pos: usize = 0;
        assert(bytes@.skip(0) =~= bytes@);
        while pos < bytes.len()
            invariant
                pos <= bytes@.len(),
                total == merge_run(old(self)@, bytes@, Self::apply_fn()),
                merge_run(cur@, bytes@.skip(pos as int), Self::apply_fn()) == total,
            decreases bytes@.len() - pos,
        {
            let ghost s = bytes@.skip(pos as int);
            proof {
                lemma_merge_run_step(cur@, s, Self::apply_fn());
                lemma_parse_field_len(s);
            }
            match read_field(bytes, pos) {
                Ok((f, end)) => {
                    assert(bytes@.skip(end as int) =~= s.skip((end - pos) as int));
                    match cur.applied(&f) {
                        Ok(m) => {
                            cur = m;
                        },
                        Err((m, e)) => {
                            *self = m;
                            return Err(e);
                        },
                    }
                    pos = end;
                },
                Err(e) => {
                    *self = cur;
                    return Err(e);
                },
            }
        }
        assert(bytes@.skip(pos as int) =~= Seq::<u8>::empty());
        proof {
            lemma_merge_run_empty(cur@, Self::apply_fn());
        }
        *self = cur;
        Ok(())
    }

    /// Decodes a message from its encoding.
    pub fn decode(bytes: &[u8]) -> (r: Result<Self, WireError>)
        ensures
            match Self::spec_decode(bytes@) {
                Ok(v) => r matches Ok(m) && m@ == v,
                Err(e) => r matches Err(x) && x == e,
            },
    {
        proof {
            reveal(RichPresence::spec_decode);
        }
        let mut m = Self::default();
        match m.merge(bytes) {
            Ok(()) => Ok(m),
            Err(e) => Err(e),
        }
    }

    /// The encoding of this message.
    pub fn encode_to_vec(&self) -> (r: Vec<u8>)
        ensures
            r@ == Self::spec_encode(self@),
    {
        let enc_rich_presense = crate::steammessages_clientserver_2::c_msg_client_rich_presence_info::KV::encode_all(&self.rich_presense);
        let ghost v = self@;
        let mut out: Vec<u8> = Vec::new();
        let ghost p0 = Seq::<SpecField>::empty();
        put_opt_fixed64(&mut out, 1, self.steamid_user);
        let ghost p1 = p0 + opt_fixed64(1, v.steamid_user);
        proof {
            lemma_fields_bytes_concat(p0, opt_fixed64(1, v.steamid_user));
        }
        put_rep_bytes(&mut out, 3, &enc_rich_presense);
        let ghost p2 = p1 + rep_bytes(3, crate::steammessages_clientserver_2::c_msg_client_rich_presence_info::KV::spec_encode_all(v.rich_presense));
        proof {
            lemma_fields_bytes_concat(p1, rep_bytes(3, crate::steammessages_clientserver_2::c_msg_client_rich_presence_info::KV::spec_encode_all(v.rich_presense)));
        }
        proof {
            reveal(RichPresence::spec_encode);
        }
        assert(p2 == Self::spec_fields(v));
        out
    }

    /// Appends the encoding of this message to `out`.
    pub fn encode_raw(&self, out: &mut Vec<u8>)
        ensures
            final(out)@ == old(out)@ + Self::spec_encode(self@),
    {
        let mut b = self.encode_to_vec();
        out.append(&mut b);
    }

    /// The first `k` fields of `v`, the others as a fresh message has them.
    #[verifier::opaque]
    pub open spec fn spec_prefix(v: SpecRichPresence, k: int) -> SpecRichPresence {
        SpecRichPresence {
            steamid_user: if 1 <= k { v.steamid_user } else { None },
            rich_presense: if 2 <= k { v.rich_presense } else { Seq::empty() },
        }
    }

    /// Reading field 1 back, after the fields before it.
    proof fn lemma_field_steamid_user(v: SpecRichPresence)
        ensures
            fold_fields(Self::spec_prefix(v, 0), opt_fixed64(1, v.steamid_user), Self::apply_fn())
                == Ok::<SpecRichPresence, WireError>(Self::spec_prefix(v, 1)),
    {
        reveal(RichPresence::spec_prefix);
        reveal(opt_fixed64);
        let apply = Self::apply_fn();
        let s = Self::spec_prefix(v, 0);
        lemma_fold_opt(s, 1, match v.steamid_user { Some(x) => Some(enc_fixed64(x)), None => None }, apply);
        if let Some(x) = v.steamid_user {
            lemma_u64_roundtrip(x);
        }
        assert(SpecRichPresence { steamid_user: v.steamid_user, ..s } == Self::spec_prefix(v, 1));
    }

    /// Reading field 3 back, after the fields before it.
    proof fn lemma_field_rich_presense(v: SpecRichPresence)
        requires
            fields_wf(rep_bytes(3, crate::steammessages_clientserver_2::c_msg_client_rich_presence_info::KV::spec_encode_all(v.rich_presense))),
        ensures
            fold_fields(Self::spec_prefix(v, 1), rep_bytes(3, crate::steammessages_clientserver_2::c_msg_client_rich_presence_info::KV::spec_encode_all(v.rich_presense)), Self::apply_fn())
                == Ok::<SpecRichPresence, WireError>(Self::spec_prefix(v, 2)),
    {
        reveal(RichPresence::spec_prefix);
        reveal(rep_bytes);
        reveal(fields_wf);
        let apply = Self::apply_fn();
        let s = Self::spec_prefix(v, 1);
        let l = rep_bytes(3, crate::steammessages_clientserver_2::c_msg_client_rich_presence_info::KV::spec_encode_all(v.rich_presense));
        let xs = v.rich_presense;
        let st = Seq::new((xs.len() + 1) as nat, |j: int| SpecRichPresence { rich_presense: xs.take(j), ..s });
        assert forall|j: int| 0 <= j < l.len() implies #[trigger] apply(st[j], l[j]) == Ok::<SpecRichPresence, WireError>(st[j + 1]) by {
            assert(field_wf(l[j]));
            crate::steammessages_clientserver_2::c_msg_client_rich_presence_info::KV::lemma_decode_encode(xs[j]);
            assert(xs.take(j).push(xs[j]) =~= xs.take(j + 1));
        }
        lemma_fold_chain(l, st, apply);
        assert(xs.take(0) =~= Seq::<crate::steammessages_clientserver_2::c_msg_client_rich_presence_info::SpecKV>::empty());
        assert(xs.take(xs.len() as int) =~= xs);
        assert(st[0] == s);
        assert(st[xs.len() as int] == Self::spec_prefix(v, 2));
    }

    /// Whether this message declares field number `n`.
    pub open spec fn declares(n: u32) -> bool {
        n == 1 || n == 3
    }

    /// A record with a number this message does not declare is passed over: well-formed
    /// bytes decode to the same message with such a record after them as without it.
    pub proof fn lemma_unknown_field(bytes: Seq<u8>, f: SpecField)
        requires
            parse_fields(bytes) is Ok,
            field_wf(f),
            !Self::declares(f.number),
        ensures
            Self::spec_decode(bytes + field_bytes(f)) == Self::spec_decode(bytes),
    {
        reveal(RichPresence::spec_decode);
        lemma_parse_fields_append(bytes, f);
        let fs = parse_fields(bytes).unwrap();
        let apply = Self::apply_fn();
        lemma_fold_concat(Self::spec_default(), fs, seq![f], apply);
        assert(fs.push(f) =~= fs + seq![f]);
        if let Ok(w) = fold_fields(Self::spec_default(), fs, apply) {
            lemma_fold_single(w, f, apply);
        }
        lemma_merge_run_fold(Self::spec_default(), bytes, apply);
        lemma_merge_run_fold(Self::spec_default(), bytes + field_bytes(f), apply);
    }

    /// Decoding the encoding of a message gives the message back.
    pub proof fn lemma_decode_encode(v: SpecRichPresence)
        requires
            Self::spec_encode(v).len() <= u64::MAX,
        ensures
            Self::spec_decode(Self::spec_encode(v)) == Ok::<SpecRichPresence, WireError>(v),
    {
        let apply = Self::apply_fn();
        let d = Self::spec_default();
        let p0 = Seq::<SpecField>::empty();
        let l1 = opt_fixed64(1, v.steamid_user);
        let p1 = p0 + l1;
        let l2 = rep_bytes(3, crate::steammessages_clientserver_2::c_msg_client_rich_presence_info::KV::spec_encode_all(v.rich_presense));
        let p2 = p1 + l2;
        assert(parse_fields(Self::spec_encode(v)) == Ok::<Seq<SpecField>, WireError>(p2) && fields_wf(l2)) by {
            reveal(RichPresence::spec_encode);
            assert(numbers_ok(p0) && fields_wf(p0)) by {
                reveal(numbers_ok);
                reveal(fields_wf);
            }
            lemma_opt_fixed64_numbered(1, v.steamid_user);
            lemma_fields_wf_concat(p0, l1);
            lemma_rep_bytes_numbered(3, crate::steammessages_clientserver_2::c_msg_client_rich_presence_info::KV::spec_encode_all(v.rich_presense));
            lemma_fields_wf_concat(p1, l2);
            assert(p2 == Self::spec_fields(v));
            lemma_fields_wf_from_len(p2);
            lemma_fields_roundtrip(p2);
        }
        assert(Self::spec_prefix(v, 0) == d) by {
            reveal(RichPresence::spec_prefix);
        }
        lemma_fold_empty(d, apply);
        lemma_fold_concat(d, p0, l1, apply);
        Self::lemma_field_steamid_user(v);
        lemma_fold_concat(d, p1, l2, apply);
        Self::lemma_field_rich_presense(v);
        assert(Self::spec_prefix(v, 2) == v) by {
            reveal(RichPresence::spec_prefix);
        }
        lemma_merge_run_fold(d, Self::spec_encode(v), apply);
        assert(Self::spec_decode(Self::spec_encode(v)) == Ok::<SpecRichPresence, WireError>(v)) by {
            reveal(RichPresence::spec_decode);
        }
    }
}

} // verus!
