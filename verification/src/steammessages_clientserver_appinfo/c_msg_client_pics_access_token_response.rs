//! Types nested inside `c_msg_client_pics_access_token_response`.


use vstd::prelude::*;

use crate::codec::{
    bytes_seq_view, dec_u32, dec_u64, enc_u32, enc_u64, fold_fields, lemma_fold_concat,
    lemma_fold_empty, lemma_fold_opt, lemma_fold_single, lemma_merge_run_empty,
    lemma_merge_run_fold, lemma_merge_run_step, lemma_opt_u32_numbered, lemma_opt_u64_numbered,
    lemma_u32_roundtrip, lemma_u64_roundtrip, merge_run, opt_bytes_view, opt_u32, opt_u64,
    put_opt_u32, put_opt_varint, read_u32, read_u64,
};

use crate::wire::fields::{
    field_bytes, field_wf, fields_bytes, fields_wf, lemma_fields_bytes_concat,
    lemma_fields_roundtrip, lemma_fields_wf_concat, lemma_fields_wf_from_len,
    lemma_parse_field_len, lemma_parse_fields_append, numbers_ok, parse_fields, read_field,
    Field, SpecField,
};
use crate::wire::varint::WireError;

verus! {

/// `PackageToken`, as Valve's schema declares it.
#[derive(Debug, Clone, PartialEq)]
pub struct PackageToken {
    /// Field 1.
    pub packageid: Option<u32>,
    /// Field 2.
    pub access_token: Option<u64>,
}

/// What a `PackageToken` holds, as mathematical values.
#[verifier::ext_equal]
pub struct SpecPackageToken {
    pub packageid: Option<u32>,
    pub access_token: Option<u64>,
}

impl View for PackageToken {
    type V = SpecPackageToken;

    open spec fn view(&self) -> SpecPackageToken {
        SpecPackageToken {
            packageid: self.packageid,
            access_token: self.access_token,
        }
    }
}

impl Default for PackageToken {
    fn default() -> (r: Self)
        ensures
            r@ == PackageToken::spec_default(),
    {
        PackageToken {
            packageid: None,
            access_token: None,
        }
    }
}

impl PackageToken {
    pub open spec fn spec_default() -> SpecPackageToken {
        SpecPackageToken {
            packageid: None,
            access_token: None,
        }
    }

    /// The records a `PackageToken` is written as, in field order.
    pub open spec fn spec_fields(v: SpecPackageToken) -> Seq<SpecField> {
        Seq::<SpecField>::empty()
            + opt_u32(1, v.packageid)
            + opt_u64(2, v.access_token)
    }

    #[verifier::opaque]
    pub open spec fn spec_encode(v: SpecPackageToken) -> Seq<u8> {
        fields_bytes(Self::spec_fields(v))
    }

    /// What one record does to the message: a declared number sets or extends its
    /// field, any other number is left alone.
    pub open spec fn spec_apply(v: SpecPackageToken, f: SpecField) -> Result<SpecPackageToken, WireError> {
        match f.number {
            1 => match dec_u32(f.value) {
                Ok(x) => Ok(SpecPackageToken { packageid: Some(x), ..v }),
                Err(e) => Err(e),
            },
            2 => match dec_u64(f.value) {
                Ok(x) => Ok(SpecPackageToken { access_token: Some(x), ..v }),
                Err(e) => Err(e),
            },
            _ => Ok(v),
        }
    }

    pub open spec fn apply_fn() -> spec_fn(SpecPackageToken, SpecField) -> Result<SpecPackageToken, WireError> {
        |v: SpecPackageToken, f: SpecField| Self::spec_apply(v, f)
    }

    /// The message `bytes` makes of `v`: its records applied in order, or the error
    /// that stops the reading.
    pub open spec fn spec_merge(v: SpecPackageToken, bytes: Seq<u8>) -> Result<SpecPackageToken, WireError> {
        let (w, stop) = merge_run(v, bytes, Self::apply_fn());
        match stop {
            None => Ok(w),
            Some(e) => Err(e),
        }
    }

    #[verifier::opaque]
    pub open spec fn spec_decode(bytes: Seq<u8>) -> Result<SpecPackageToken, WireError> {
        Self::spec_merge(Self::spec_default(), bytes)
    }

    pub open spec fn view_all(xs: Seq<PackageToken>) -> Seq<SpecPackageToken> {
        xs.map_values(|m: PackageToken| m@)
    }

    pub open spec fn view_opt(o: Option<PackageToken>) -> Option<SpecPackageToken> {
        match o {
            Some(m) => Some(m@),
            None => None,
        }
    }

    pub open spec fn spec_encode_all(xs: Seq<SpecPackageToken>) -> Seq<Seq<u8>> {
        xs.map_values(|m: SpecPackageToken| Self::spec_encode(m))
    }

    pub open spec fn spec_encode_opt(o: Option<SpecPackageToken>) -> Option<Seq<u8>> {
        match o {
            Some(m) => Some(Self::spec_encode(m)),
            None => None,
        }
    }

    /// The encoding of each element.
    pub fn encode_all(xs: &Vec<PackageToken>) -> (r: Vec<Vec<u8>>)
        ensures
            bytes_seq_view(r@) == Self::spec_encode_all(Self::view_all(xs@)),
    {
        let mut out: Vec<Vec<u8>> = Vec::new();
        let mut i: usize = 0;
        while i < xs.len()
            invariant
                i <= xs@.len(),
                out@.len() == i,
                forall|j: int| 0 <= j < i ==> #[trigger] out@[j]@ == Self::spec_encode(xs@[j]@),
            decreases xs@.len() - i,
        {
            let e = xs[i].encode_to_vec();
            out.push(e);
            i = i + 1;
        }
        assert(bytes_seq_view(out@) =~= Self::spec_encode_all(Self::view_all(xs@)));
        out
    }

    /// The encoding of the element, when there is one.
    pub fn encode_opt(o: &Option<PackageToken>) -> (r: Option<Vec<u8>>)
        ensures
            opt_bytes_view(r) == Self::spec_encode_opt(Self::view_opt(*o)),
    {
        match o {
            Some(m) => Some(m.encode_to_vec()),
            None => None,
        }
    }

    /// This message with one record applied to it, or, when the record is refused,
    /// the message unchanged and the reason.
    fn applied(self, f: &Field) -> (r: Result<Self, (Self, WireError)>)
        ensures
            match Self::spec_apply(self@, f@) {
                Ok(v) => r matches Ok(m) && m@ == v,
                Err(e) => r matches Err((m, x)) && x == e && m@ == self@,
            },
    {
        match f.number {
            1 => match read_u32(&f.value) {
                Ok(x) => Ok(Self { packageid: Some(x), ..self }),
                Err(e) => Err((self, e)),
            },
            2 => match read_u64(&f.value) {
                Ok(x) => Ok(Self { access_token: Some(x), ..self }),
                Err(e) => Err((self, e)),
            },
            _ => Ok(self),
        }
    }

    /// Reads the records `bytes` holds into this message, in order. When a record does
    /// not parse or is refused, the reading stops there: the message keeps what the
    /// records before it gave, and the error is returned.
    pub fn merge(&mut self, bytes: &[u8]) -> (r: Result<(), WireError>)
        ensures
            final(self)@ == merge_run(old(self)@, bytes@, Self::apply_fn()).0,
            r == match merge_run(old(self)@, bytes@, Self::apply_fn()).1 {
                None => Ok::<(), WireError>(()),
                Some(e) => Err::<(), WireError>(e),
            },
    {
        let ghost total = merge_run(self@, bytes@, Self::apply_fn());
        let mut cur = Self::default();
        std::mem::swap(&mut cur, self);
        let mut pos: usize = 0;
        assert(bytes@.skip(0) =~= bytes@);
        while pos < bytes.len()
            invariant
                pos <= bytes@.len(),
                total == merge_run(old(self)@, bytes@, Self::apply_fn()),
                merge_run(cur@, bytes@.skip(pos as int), Self::apply_fn()) == total,
            decreases bytes@.len() - pos,
        {
            let ghost s = bytes@.skip(pos as int);
            proof {
                lemma_merge_run_step(cur@, s, Self::apply_fn());
                lemma_parse_field_len(s);
            }
            match read_field(bytes, pos) {
                Ok((f, end)) => {
                    assert(bytes@.skip(end as int) =~= s.skip((end - pos) as int));
                    match cur.applied(&f) {
                        Ok(m) => {
                            cur = m;
                        },
                        Err((m, e)) => {
                            *self = m;
                            return Err(e);
                        },
                    }
                    pos = end;
                },
                Err(e) => {
                    *self = cur;
                    return Err(e);
                },
            }
        }
        assert(bytes@.skip(pos as int) =~= Seq::<u8>::empty());
        proof {
            lemma_merge_run_empty(cur@, Self::apply_fn());
        }
        *self = cur;
        Ok(())
    }

    /// Decodes a message from its encoding.
    pub fn decode(bytes: &[u8]) -> (r: Result<Self, WireError>)
        ensures
            match Self::spec_decode(bytes@) {
                Ok(v) => r matches Ok(m) && m@ == v,
                Err(e) => r matches Err(x) && x == e,
            },
    {
        proof {
            reveal(PackageToken::spec_decode);
        }
        let mut m = Self::default();
        match m.merge(bytes) {
            Ok(()) => Ok(m),
            Err(e) => Err(e),
        }
    }

    /// The encoding of this message.
    pub fn encode_to_vec(&self) -> (r: Vec<u8>)
        ensures
            r@ == Self::spec_encode(self@),
    {
        let ghost v = self@;
        let mut out: Vec<u8> = Vec::new();
        let ghost p0 = Seq::<SpecField>::empty();
        put_opt_u32(&mut out, 1, self.packageid);
        let ghost p1 = p0 + opt_u32(1, v.packageid);
        proof {
            lemma_fields_bytes_concat(p0, opt_u32(1, v.packageid));
        }
        put_opt_varint(&mut out, 2, self.access_token);
        let ghost p2 = p1 + opt_u64(2, v.access_token);
        proof {
            lemma_fields_bytes_concat(p1, opt_u64(2, v.access_token));
        }
        proof {
            reveal(PackageToken::spec_encode);
        }
        assert(p2 == Self::spec_fields(v));
        out
    }

    /// Appends the encoding of this message to `out`.
    pub fn encode_raw(&self, out: &mut Vec<u8>)
        ensures
            final(out)@ == old(out)@ + Self::spec_encode(self@),
    {
        let mut b = self.encode_to_vec();
        out.append(&mut b);
    }

    /// The first `k` fields of `v`, the others as a fresh message has them.
    #[verifier::opaque]
    pub open spec fn spec_prefix(v: SpecPackageToken, k: int) -> SpecPackageToken {
        SpecPackageToken {
            packageid: if 1 <= k { v.packageid } else { None },
            access_token: if 2 <= k { v.access_token } else { None },
        }
    }

    /// Reading field 1 back, after the fields before it.
    proof fn lemma_field_packageid(v: SpecPackageToken)
        ensures
            fold_fields(Self::spec_prefix(v, 0), opt_u32(1, v.packageid), Self::apply_fn())
                == Ok::<SpecPackageToken, WireError>(Self::spec_prefix(v, 1)),
    {
        reveal(PackageToken::spec_prefix);
        reveal(opt_u32);
        let apply = Self::apply_fn();
        let s = Self::spec_prefix(v, 0);
        lemma_fold_opt(s, 1, match v.packageid { Some(x) => Some(enc_u32(x)), None => None }, apply);
        if let Some(x) = v.packageid {
            lemma_u32_roundtrip(x);
        }
        assert(SpecPackageToken { packageid: v.packageid, ..s } == Self::spec_prefix(v, 1));
    }

    /// Reading field 2 back, after the fields before it.
    proof fn lemma_field_access_token(v: SpecPackageToken)
        ensures
            fold_fields(Self::spec_prefix(v, 1), opt_u64(2, v.access_token), Self::apply_fn())
                == Ok::<SpecPackageToken, WireError>(Self::spec_prefix(v, 2)),
    {
        reveal(PackageToken::spec_prefix);
        reveal(opt_u64);
        let apply = Self::apply_fn();
        let s = Self::spec_prefix(v, 1);
        lemma_fold_opt(s, 2, match v.access_token { Some(x) => Some(enc_u64(x)), None => None }, apply);
        if let Some(x) = v.access_token {
            lemma_u64_roundtrip(x);
        }
        assert(SpecPackageToken { access_token: v.access_token, ..s } == Self::spec_prefix(v, 2));
    }

    /// Whether this message declares field number `n`.
    pub open spec fn declares(n: u32) -> bool {
        n == 1 || n == 2
    }

    /// A record with a number this message does not declare is passed over: well-formed
    /// bytes decode to the same message with such a record after them as without it.
    pub proof fn lemma_unknown_field(bytes: Seq<u8>, f: SpecField)
        requires
            parse_fields(bytes) is Ok,
            field_wf(f),
            !Self::declares(f.number),
        ensures
            Self::spec_decode(bytes + field_bytes(f)) == Self::spec_decode(bytes),
    {
        reveal(PackageToken::spec_decode);
        lemma_parse_fields_append(bytes, f);
        let fs = parse_fields(bytes).unwrap();
        let apply = Self::apply_fn();
        lemma_fold_concat(Self::spec_default(), fs, seq![f], apply);
        assert(fs.push(f) =~= fs + seq![f]);
        if let Ok(w) = fold_fields(Self::spec_default(), fs, apply) {
            lemma_fold_single(w, f, apply);
        }
        lemma_merge_run_fold(Self::spec_default(), bytes, apply);
        lemma_merge_run_fold(Self::spec_default(), bytes + field_bytes(f), apply);
    }

    /// Decoding the encoding of a message gives the message back.
    pub proof fn lemma_decode_encode(v: SpecPackageToken)
        requires
            Self::spec_encode(v).len() <= u64::MAX,
        ensures
            Self::spec_decode(Self::spec_encode(v)) == Ok::<SpecPackageToken, WireError>(v),
    {
        let apply = Self::apply_fn();
        let d = Self::spec_default();
        let p0 = Seq::<SpecField>::empty();
        let l1 = opt_u32(1, v.packageid);
        let p1 = p0 + l1;
        let l2 = opt_u64(2, v.access_token);
        let p2 = p1 + l2;
        assert(parse_fields(Self::spec_encode(v)) == Ok::<Seq<SpecField>, WireError>(p2)) by {
            reveal(PackageToken::spec_encode);
            assert(numbers_ok(p0) && fields_wf(p0)) by {
                reveal(numbers_ok);
                reveal(fields_wf);
            }
            lemma_opt_u32_numbered(1, v.packageid);
            lemma_fields_wf_concat(p0, l1);
            lemma_opt_u64_numbered(2, v.access_token);
            lemma_fields_wf_concat(p1, l2);
            assert(p2 == Self::spec_fields(v));
            lemma_fields_wf_from_len(p2);
            lemma_fields_roundtrip(p2);
        }
        assert(Self::spec_prefix(v, 0) == d) by {
            reveal(PackageToken::spec_prefix);
        }
        lemma_fold_empty(d, apply);
        lemma_fold_concat(d, p0, l1, apply);
        Self::lemma_field_packageid(v);
        lemma_fold_concat(d, p1, l2, apply);
        Self::lemma_field_access_token(v);
        assert(Self::spec_prefix(v, 2) == v) by {
            reveal(PackageToken::spec_prefix);
        }
        lemma_merge_run_fold(d, Self::spec_encode(v), apply);
        assert(Self::spec_decode(Self::spec_encode(v)) == Ok::<SpecPackageToken, WireError>(v)) by {
            reveal(PackageToken::spec_decode);
        }
    }
}

/// `AppToken`, as Valve's schema declares it.
#[derive(Debug, Clone, PartialEq)]
pub struct AppToken {
    /// Field 1.
    pub appid: Option<u32>,
    /// Field 2.
    pub access_token: Option<u64>,
}

/// What a `AppToken` holds, as mathematical values.
#[verifier::ext_equal]
pub struct SpecAppToken {
    pub appid: Option<u32>,
    pub access_token: Option<u64>,
}

impl View for AppToken {
    type V = SpecAppToken;

    open spec fn view(&self) -> SpecAppToken {
        SpecAppToken {
            appid: self.appid,
            access_token: self.access_token,
        }
    }
}

impl Default for AppToken {
    fn default() -> (r: Self)
        ensures
            r@ == AppToken::spec_default(),
    {
        AppToken {
            appid: None,
            access_token: None,
        }
    }
}

impl AppToken {
    pub open spec fn spec_default() -> SpecAppToken {
        SpecAppToken {
            appid: None,
            access_token: None,
        }
    }

    /// The records a `AppToken` is written as, in field order.
    pub open spec fn spec_fields(v: SpecAppToken) -> Seq<SpecField> {
        Seq::<SpecField>::empty()
            + opt_u32(1, v.appid)
            + opt_u64(2, v.access_token)
    }

    #[verifier::opaque]
    pub open spec fn spec_encode(v: SpecAppToken) -> Seq<u8> {
        fields_bytes(Self::spec_fields(v))
    }

    /// What one record does to the message: a declared number sets or extends its
    /// field, any other number is left alone.
    pub open spec fn spec_apply(v: SpecAppToken, f: SpecField) -> Result<SpecAppToken, WireError> {
        match f.number {
            1 => match dec_u32(f.value) {
                Ok(x) => Ok(SpecAppToken { appid: Some(x), ..v }),
                Err(e) => Err(e),
            },
            2 => match dec_u64(f.value) {
                Ok(x) => Ok(SpecAppToken { access_token: Some(x), ..v }),
                Err(e) => Err(e),
            },
            _ => Ok(v),
        }
    }

    pub open spec fn apply_fn() -> spec_fn(SpecAppToken, SpecField) -> Result<SpecAppToken, WireError> {
        |v: SpecAppToken, f: SpecField| Self::spec_apply(v, f)
    }

    /// The message `bytes` makes of `v`: its records applied in order, or the error
    /// that stops the reading.
    pub open spec fn spec_merge(v: SpecAppToken, bytes: Seq<u8>) -> Result<SpecAppToken, WireError> {
        let (w, stop) = merge_run(v, bytes, Self::apply_fn());
        match stop {
            None => Ok(w),
            Some(e) => Err(e),
        }
    }

    #[verifier::opaque]
    pub open spec fn spec_decode(bytes: Seq<u8>) -> Result<SpecAppToken, WireError> {
        Self::spec_merge(Self::spec_default(), bytes)
    }

    pub open spec fn view_all(xs: Seq<AppToken>) -> Seq<SpecAppToken> {
        xs.map_values(|m: AppToken| m@)
    }

    pub open spec fn view_opt(o: Option<AppToken>) -> Option<SpecAppToken> {
        match o {
            Some(m) => Some(m@),
            None => None,
        }
    }

    pub open spec fn spec_encode_all(xs: Seq<SpecAppToken>) -> Seq<Seq<u8>> {
        xs.map_values(|m: SpecAppToken| Self::spec_encode(m))
    }

    pub open spec fn spec_encode_opt(o: Option<SpecAppToken>) -> Option<Seq<u8>> {
        match o {
            Some(m) => Some(Self::spec_encode(m)),
            None => None,
        }
    }

    /// The encoding of each element.
    pub fn encode_all(xs: &Vec<AppToken>) -> (r: Vec<Vec<u8>>)
        ensures
            bytes_seq_view(r@) == Self::spec_encode_all(Self::view_all(xs@)),
    {
        let mut out: Vec<Vec<u8>> = Vec::new();
        let mut i: usize = 0;
        while i < xs.len()
            invariant
                i <= xs@.len(),
                out@.len() == i,
                forall|j: int| 0 <= j < i ==> #[trigger] out@[j]@ == Self::spec_encode(xs@[j]@),
            decreases xs@.len() - i,
        {
            let e = xs[i].encode_to_vec();
            out.push(e);
            i = i + 1;
        }
        assert(bytes_seq_view(out@) =~= Self::spec_encode_all(Self::view_all(xs@)));
        out
    }

    /// The encoding of the element, when there is one.
    pub fn encode_opt(o: &Option<AppToken>) -> (r: Option<Vec<u8>>)
        ensures
            opt_bytes_view(r) == Self::spec_encode_opt(Self::view_opt(*o)),
    {
        match o {
            Some(m) => Some(m.encode_to_vec()),
            None => None,
        }
    }

    /// This message with one record applied to it, or, when the record is refused,
    /// the message unchanged and the reason.
    fn applied(self, f: &Field) -> (r: Result<Self, (Self, WireError)>)
        ensures
            match Self::spec_apply(self@, f@) {
                Ok(v) => r matches Ok(m) && m@ == v,
                Err(e) => r matches Err((m, x)) && x == e && m@ == self@,
            },
    {
        match f.number {
            1 => match read_u32(&f.value) {
                Ok(x) => Ok(Self { appid: Some(x), ..self }),
                Err(e) => Err((self, e)),
            },
            2 => match read_u64(&f.value) {
                Ok(x) => Ok(Self { access_token: Some(x), ..self }),
                Err(e) => Err((self, e)),
            },
            _ => Ok(self),
        }
    }

    /// Reads the records `bytes` holds into this message, in order. When a record does
    /// not parse or is refused, the reading stops there: the message keeps what the
    /// records before it gave, and the error is returned.
    pub fn merge(&mut self, bytes: &[u8]) -> (r: Result<(), WireError>)
        ensures
            final(self)@ == merge_run(old(self)@, bytes@, Self::apply_fn()).0,
            r == match merge_run(old(self)@, bytes@, Self::apply_fn()).1 {
                None => Ok::<(), WireError>(()),
                Some(e) => Err::<(), WireError>(e),
            },
    {
        let ghost total = merge_run(self@, bytes@, Self::apply_fn());
        let mut cur = Self::default();
        std::mem::swap(&mut cur, self);
        let mut pos: usize = 0;
        assert(bytes@.skip(0) =~= bytes@);
        while pos < bytes.len()
            invariant
                pos <= bytes@.len(),
                total == merge_run(old(self)@, bytes@, Self::apply_fn()),
                merge_run(cur@, bytes@.skip(pos as int), Self::apply_fn()) == total,
            decreases bytes@.len() - pos,
        {
            let ghost s = bytes@.skip(pos as int);
            proof {
                lemma_merge_run_step(cur@, s, Self::apply_fn());
                lemma_parse_field_len(s);
            }
            match read_field(bytes, pos) {
                Ok((f, end)) => {
                    assert(bytes@.skip(end as int) =~= s.skip((end - pos) as int));
                    match cur.applied(&f) {
                        Ok(m) => {
                            cur = m;
                        },
                        Err((m, e)) => {
                            *self = m;
                            return Err(e);
                        },
                    }
                    pos = end;
                },
                Err(e) => {
                    *self = cur;
                    return Err(e);
                },
            }
        }
        assert(bytes@.skip(pos as int) =~= Seq::<u8>::empty());
        proof {
            lemma_merge_run_empty(cur@, Self::apply_fn());
        }
        *self = cur;
        Ok(())
    }

    /// Decodes a message from its encoding.
    pub fn decode(bytes: &[u8]) -> (r: Result<Self, WireError>)
        ensures
            match Self::spec_decode(bytes@) {
                Ok(v) => r matches Ok(m) && m@ == v,
                Err(e) => r matches Err(x) && x == e,
            },
    {
        proof {
            reveal(AppToken::spec_decode);
        }
        let mut m = Self::default();
        match m.merge(bytes) {
            Ok(()) => Ok(m),
            Err(e) => Err(e),
        }
    }

    /// The encoding of this message.
    pub fn encode_to_vec(&self) -> (r: Vec<u8>)
        ensures
            r@ == Self::spec_encode(self@),
    {
        let ghost v = self@;
        let mut out: Vec<u8> = Vec::new();
        let ghost p0 = Seq::<SpecField>::empty();
        put_opt_u32(&mut out, 1, self.appid);
        let ghost p1 = p0 + opt_u32(1, v.appid);
        proof {
            lemma_fields_bytes_concat(p0, opt_u32(1, v.appid));
        }
        put_opt_varint(&mut out, 2, self.access_token);
        let ghost p2 = p1 + opt_u64(2, v.access_token);
        proof {
            lemma_fields_bytes_concat(p1, opt_u64(2, v.access_token));
        }
        proof {
            reveal(AppToken::spec_encode);
        }
        assert(p2 == Self::spec_fields(v));
        out
    }

    /// Appends the encoding of this message to `out`.
    pub fn encode_raw(&self, out: &mut Vec<u8>)
        ensures
            final(out)@ == old(out)@ + Self::spec_encode(self@),
    {
        let mut b = self.encode_to_vec();
        out.append(&mut b);
    }

    /// The first `k` fields of `v`, the others as a fresh message has them.
    #[verifier::opaque]
    pub open spec fn spec_prefix(v: SpecAppToken, k: int) -> SpecAppToken {
        SpecAppToken {
            appid: if 1 <= k { v.appid } else { None },
            access_token: if 2 <= k { v.access_token } else { None },
        }
    }

    /// Reading field 1 back, after the fields before it.
    proof fn lemma_field_appid(v: SpecAppToken)
        ensures
            fold_fields(Self::spec_prefix(v, 0), opt_u32(1, v.appid), Self::apply_fn())
                == Ok::<SpecAppToken, WireError>(Self::spec_prefix(v, 1)),
    {
        reveal(AppToken::spec_prefix);
        reveal(opt_u32);
        let apply = Self::apply_fn();
        let s = Self::spec_prefix(v, 0);
        lemma_fold_opt(s, 1, match v.appid { Some(x) => Some(enc_u32(x)), None => None }, apply);
        if let Some(x) = v.appid {
            lemma_u32_roundtrip(x);
        }
        assert(SpecAppToken { appid: v.appid, ..s } == Self::spec_prefix(v, 1));
    }

    /// Reading field 2 back, after the fields before it.
    proof fn lemma_field_access_token(v: SpecAppToken)
        ensures
            fold_fields(Self::spec_prefix(v, 1), opt_u64(2, v.access_token), Self::apply_fn())
                == Ok::<SpecAppToken, WireError>(Self::spec_prefix(v, 2)),
    {
        reveal(AppToken::spec_prefix);
        reveal(opt_u64);
        let apply = Self::apply_fn();
        let s = Self::spec_prefix(v, 1);
        lemma_fold_opt(s, 2, match v.access_token { Some(x) => Some(enc_u64(x)), None => None }, apply);
        if let Some(x) = v.access_token {
            lemma_u64_roundtrip(x);
        }
        assert(SpecAppToken { access_token: v.access_token, ..s } == Self::spec_prefix(v, 2));
    }

    /// Whether this message declares field number `n`.
    pub open spec fn declares(n: u32) -> bool {
        n == 1 || n == 2
    }

    /// A record with a number this message does not declare is passed over: well-formed
    /// bytes decode to the same message with such a record after them as without it.
    pub proof fn lemma_unknown_field(bytes: Seq<u8>, f: SpecField)
        requires
            parse_fields(bytes) is Ok,
            field_wf(f),
            !Self::declares(f.number),
        ensures
            Self::spec_decode(bytes + field_bytes(f)) == Self::spec_decode(bytes),
    {
        reveal(AppToken::spec_decode);
        lemma_parse_fields_append(bytes, f);
        let fs = parse_fields(bytes).unwrap();
        let apply = Self::apply_fn();
        lemma_fold_concat(Self::spec_default(), fs, seq![f], apply);
        assert(fs.push(f) =~= fs + seq![f]);
        if let Ok(w) = fold_fields(Self::spec_default(), fs, apply) {
            lemma_fold_single(w, f, apply);
        }
        lemma_merge_run_fold(Self::spec_default(), bytes, apply);
        lemma_merge_run_fold(Self::spec_default(), bytes + field_bytes(f), apply);
    }

    /// Decoding the encoding of a message gives the message back.
    pub proof fn lemma_decode_encode(v: SpecAppToken)
        requires
            Self::spec_encode(v).len() <= u64::MAX,
        ensures
            Self::spec_decode(Self::spec_encode(v)) == Ok::<SpecAppToken, WireError>(v),
    {
        let apply = Self::apply_fn();
        let d = Self::spec_default();
        let p0 = Seq::<SpecField>::empty();
        let l1 = opt_u32(1, v.appid);
        let p1 = p0 + l1;
        let l2 = opt_u64(2, v.access_token);
        let p2 = p1 + l2;
        assert(parse_fields(Self::spec_encode(v)) == Ok::<Seq<SpecField>, WireError>(p2)) by {
            reveal(AppToken::spec_encode);
            assert(numbers_ok(p0) && fields_wf(p0)) by {
                reveal(numbers_ok);
                reveal(fields_wf);
            }
            lemma_opt_u32_numbered(1, v.appid);
            lemma_fields_wf_concat(p0, l1);
            lemma_opt_u64_numbered(2, v.access_token);
            lemma_fields_wf_concat(p1, l2);
            assert(p2 == Self::spec_fields(v));
            lemma_fields_wf_from_len(p2);
            lemma_fields_roundtrip(p2);
        }
        assert(Self::spec_prefix(v, 0) == d) by {
            reveal(AppToken::spec_prefix);
        }
        lemma_fold_empty(d, apply);
        lemma_fold_concat(d, p0, l1, apply);
        Self::lemma_field_appid(v);
        lemma_fold_concat(d, p1, l2, apply);
        Self::lemma_field_access_token(v);
        assert(Self::spec_prefix(v, 2) == v) by {
            reveal(AppToken::spec_prefix);
        }
        lemma_merge_run_fold(d, Self::spec_encode(v), apply);
        assert(Self::spec_decode(Self::spec_encode(v)) == Ok::<SpecAppToken, WireError>(v)) by {
            reveal(AppToken::spec_decode);
        }
    }
}

} // verus!
