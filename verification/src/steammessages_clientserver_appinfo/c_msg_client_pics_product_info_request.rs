//! Types nested inside `c_msg_client_pics_product_info_request`.


use vstd::prelude::*;

use crate::codec::{
    bytes_seq_view, dec_bool, dec_u32, dec_u64, enc_bool, enc_u32, enc_u64, fold_fields,
    lemma_fold_concat, lemma_fold_empty, lemma_fold_opt, lemma_fold_single,
    lemma_merge_run_empty, lemma_merge_run_fold, lemma_merge_run_step, lemma_opt_bool_numbered,
    lemma_opt_u32_numbered, lemma_opt_u64_numbered, lemma_u32_roundtrip, lemma_u64_roundtrip,
    merge_run, opt_bool, opt_bytes_view, opt_u32, opt_u64, put_opt_bool, put_opt_u32,
    put_opt_varint, read_bool, read_u32, read_u64,
};

use crate::wire::fields::{
    field_bytes, field_wf, fields_bytes, fields_wf, lemma_fields_bytes_concat,
    lemma_fields_roundtrip, lemma_fields_wf_concat, lemma_fields_wf_from_len,
    lemma_parse_field_len, lemma_parse_fields_append, numbers_ok, parse_fields, read_field,
    Field, SpecField,
};
use crate::wire::varint::WireError;

verus! {

/// `AppInfo`, as Valve's schema declares it.
#[derive(Debug, Clone, PartialEq)]
pub struct AppInfo {
    /// Field 1.
    pub appid: Option<u32>,
    /// Field 2.
    pub access_token: Option<u64>,
    /// Field 3.
    pub only_public_obsolete: Option<bool>,
}

/// What a `AppInfo` holds, as mathematical values.
#[verifier::ext_equal]
pub struct SpecAppInfo {
    pub appid: Option<u32>,
    pub access_token: Option<u64>,
    pub only_public_obsolete: Option<bool>,
}

impl View for AppInfo {
    type V = SpecAppInfo;

    open spec fn view(&self) -> SpecAppInfo {
        SpecAppInfo {
            appid: self.appid,
            access_token: self.access_token,
            only_public_obsolete: self.only_public_obsolete,
        }
    }
}

impl Default for AppInfo {
    fn default() -> (r: Self)
        ensures
            r@ == AppInfo::spec_default(),
    {
        AppInfo {
            appid: None,
            access_token: None,
            only_public_obsolete: None,
        }
    }
}

impl AppInfo {
    pub open spec fn spec_default() -> SpecAppInfo {
        SpecAppInfo {
            appid: None,
            access_token: None,
            only_public_obsolete: None,
        }
    }

    /// The records a `AppInfo` is written as, in field order.
    pub open spec fn spec_fields(v: SpecAppInfo) -> Seq<SpecField> {
        Seq::<SpecField>::empty()
            + opt_u32(1, v.appid)
            + opt_u64(2, v.access_token)
            + opt_bool(3, v.only_public_obsolete)
    }

    #[verifier::opaque]
    pub open spec fn spec_encode(v: SpecAppInfo) -> Seq<u8> {
        fields_bytes(Self::spec_fields(v))
    }

    /// What one record does to the message: a declared number sets or extends its
    /// field, any other number is left alone.
    pub open spec fn spec_apply(v: SpecAppInfo, f: SpecField) -> Result<SpecAppInfo, WireError> {
        match f.number {
            1 => match dec_u32(f.value) {
                Ok(x) => Ok(SpecAppInfo { appid: Some(x), ..v }),
                Err(e) => Err(e),
            },
            2 => match dec_u64(f.value) {
                Ok(x) => Ok(SpecAppInfo { access_token: Some(x), ..v }),
                Err(e) => Err(e),
            },
            3 => match dec_bool(f.value) {
                Ok(x) => Ok(SpecAppInfo { only_public_obsolete: Some(x), ..v }),
                Err(e) => Err(e),
            },
            _ => Ok(v),
        }
    }

    pub open spec fn apply_fn() -> spec_fn(SpecAppInfo, SpecField) -> Result<SpecAppInfo, WireError> {
        |v: SpecAppInfo, f: SpecField| Self::spec_apply(v, f)
    }

    /// The message `bytes` makes of `v`: its records applied in order, or the error
    /// that stops the reading.
    pub open spec fn spec_merge(v: SpecAppInfo, bytes: Seq<u8>) -> Result<SpecAppInfo, WireError> {
        let (w, stop) = merge_run(v, bytes, Self::apply_fn());
        match stop {
            None => Ok(w),
            Some(e) => Err(e),
        }
    }

    #[verifier::opaque]
    pub open spec fn spec_decode(bytes: Seq<u8>) -> Result<SpecAppInfo, WireError> {
        Self::spec_merge(Self::spec_default(), bytes)
    }

    pub open spec fn view_all(xs: Seq<AppInfo>) -> Seq<SpecAppInfo> {
        xs.map_values(|m: AppInfo| m@)
    }

    pub open spec fn view_opt(o: Option<AppInfo>) -> Option<SpecAppInfo> {
        match o {
            Some(m) => Some(m@),
            None => None,
        }
    }

    pub open spec fn spec_encode_all(xs: Seq<SpecAppInfo>) -> Seq<Seq<u8>> {
        xs.map_values(|m: SpecAppInfo| Self::spec_encode(m))
    }

    pub open spec fn spec_encode_opt(o: Option<SpecAppInfo>) -> Option<Seq<u8>> {
        match o {
            Some(m) => Some(Self::spec_encode(m)),
            None => None,
        }
    }

    /// The encoding of each element.
    pub fn encode_all(xs: &Vec<AppInfo>) -> (r: Vec<Vec<u8>>)
        ensures
            bytes_seq_view(r@) == Self::spec_encode_all(Self::view_all(xs@)),
    {
        let mut out: Vec<Vec<u8>> = Vec::new();
        let mut i: usize = 0;
        while i < xs.len()
            invariant
                i <= xs@.len(),
                out@.len() == i,
                forall|j: int| 0 <= j < i ==> #[trigger] out@[j]@ == Self::spec_encode(xs@[j]@),
            decreases xs@.len() - i,
        {
            let e = xs[i].encode_to_vec();
            out.push(e);
            i = i + 1;
        }
        assert(bytes_seq_view(out@) =~= Self::spec_encode_all(Self::view_all(xs@)));
        out
    }

    /// The encoding of the element, when there is one.
    pub fn encode_opt(o: &Option<AppInfo>) -> (r: Option<Vec<u8>>)
        ensures
            opt_bytes_view(r) == Self::spec_encode_opt(Self::view_opt(*o)),
    {
        match o {
            Some(m) => Some(m.encode_to_vec()),
            None => None,
        }
    }

    /// This message with one record applied to it, or, when the record is refused,
    /// the message unchanged and the reason.
    fn applied(self, f: &Field) -> (r: Result<Self, (Self, WireError)>)
        ensures
            match Self::spec_apply(self@, f@) {
                Ok(v) => r matches Ok(m) && m@ == v,
                Err(e) => r matches Err((m, x)) && x == e && m@ == self@,
            },
    {
        match f.number {
            1 => match read_u32(&f.value) {
                Ok(x) => Ok(Self { appid: Some(x), ..self }),
                Err(e) => Err((self, e)),
            },
            2 => match read_u64(&f.value) {
                Ok(x) => Ok(Self { access_token: Some(x), ..self }),
                Err(e) => Err((self, e)),
            },
            3 => match read_bool(&f.value) {
                Ok(x) => Ok(Self { only_public_obsolete: Some(x), ..self }),
                Err(e) => Err((self, e)),
            },
            _ => Ok(self),
        }
    }

    /// Reads the records `bytes` holds into this message, in order. When a record does
    /// not parse or is refused, the reading stops there: the message keeps what the
    /// records before it gave, and the error is returned.
    pub fn merge(&mut self, bytes: &[u8]) -> (r: Result<(), WireError>)
        ensures
            final(self)@ == merge_run(old(self)@, bytes@, Self::apply_fn()).0,
            r == match merge_run(old(self)@, bytes@, Self::apply_fn()).1 {
                None => Ok::<(), WireError>(()),
                Some(e) => Err::<(), WireError>(e),
            },
    {
        let ghost total = merge_run(self@, bytes@, Self::apply_fn());
        let mut cur = Self::default();
        std::mem::swap(&mut cur, self);
        let mut pos: usize = 0;
        assert(bytes@.skip(0) =~= bytes@);
        while pos < bytes.len()
            invariant
                pos <= bytes@.len(),
                total == merge_run(old(self)@, bytes@, Self::apply_fn()),
                merge_run(cur@, bytes@.skip(pos as int), Self::apply_fn()) == total,
            decreases bytes@.len() - pos,
        {
            let ghost s = bytes@.skip(pos as int);
            proof {
                lemma_merge_run_step(cur@, s, Self::apply_fn());
                lemma_parse_field_len(s);
            }
            match read_field(bytes, pos) {
                Ok((f, end)) => {
                    assert(bytes@.skip(end as int) =~= s.skip((end - pos) as int));
                    match cur.applied(&f) {
                        Ok(m) => {
                            cur = m;
                        },
                        Err((m, e)) => {
                            *self = m;
                            return Err(e);
                        },
                    }
                    pos = end;
                },
                Err(e) => {
                    *self = cur;
                    return Err(e);
                },
            }
        }
        assert(bytes@.skip(pos as int) =~= Seq::<u8>::empty());
        proof {
            lemma_merge_run_empty(cur@, Self::apply_fn());
        }
        *self = cur;
        Ok(())
    }

    /// Decodes a message from its encoding.
    pub fn decode(bytes: &[u8]) -> (r: Result<Self, WireError>)
        ensures
            match Self::spec_decode(bytes@) {
                Ok(v) => r matches Ok(m) && m@ == v,
                Err(e) => r matches Err(x) && x == e,
            },
    {
        proof {
            reveal(AppInfo::spec_decode);
        }
        let mut m = Self::default();
        match m.merge(bytes) {
            Ok(()) => Ok(m),
            Err(e) => Err(e),
        }
    }

    /// The encoding of this message.
    pub fn encode_to_vec(&self) -> (r: Vec<u8>)
        ensures
            r@ == Self::spec_encode(self@),
    {
        let ghost v = self@;
        let mut out: Vec<u8> = Vec::new();
        let ghost p0 = Seq::<SpecField>::empty();
        put_opt_u32(&mut out, 1, self.appid);
        let ghost p1 = p0 + opt_u32(1, v.appid);
        proof {
            lemma_fields_bytes_concat(p0, opt_u32(1, v.appid));
        }
        put_opt_varint(&mut out, 2, self.access_token);
        let ghost p2 = p1 + opt_u64(2, v.access_token);
        proof {
            lemma_fields_bytes_concat(p1, opt_u64(2, v.access_token));
        }
        put_opt_bool(&mut out, 3, self.only_public_obsolete);
        let ghost p3 = p2 + opt_bool(3, v.only_public_obsolete);
        proof {
            lemma_fields_bytes_concat(p2, opt_bool(3, v.only_public_obsolete));
        }
        proof {
            reveal(AppInfo::spec_encode);
        }
        assert(p3 == Self::spec_fields(v));
        out
    }

    /// Appends the encoding of this message to `out`.
    pub fn encode_raw(&self, out: &mut Vec<u8>)
        ensures
            final(out)@ == old(out)@ + Self::spec_encode(self@),
    {
        let mut b = self.encode_to_vec();
        out.append(&mut b);
    }

    /// The first `k` fields of `v`, the others as a fresh message has them.
    #[verifier::opaque]
    pub open spec fn spec_prefix(v: SpecAppInfo, k: int) -> SpecAppInfo {
        SpecAppInfo {
            appid: if 1 <= k { v.appid } else { None },
            access_token: if 2 <= k { v.access_token } else { None },
            only_public_obsolete: if 3 <= k { v.only_public_obsolete } else { None },
        }
    }

    /// Reading field 1 back, after the fields before it.
    proof fn lemma_field_appid(v: SpecAppInfo)
        ensures
            fold_fields(Self::spec_prefix(v, 0), opt_u32(1, v.appid), Self::apply_fn())
                == Ok::<SpecAppInfo, WireError>(Self::spec_prefix(v, 1)),
    {
        reveal(AppInfo::spec_prefix);
        reveal(opt_u32);
        let apply = Self::apply_fn();
        let s = Self::spec_prefix(v, 0);
        lemma_fold_opt(s, 1, match v.appid { Some(x) => Some(enc_u32(x)), None => None }, apply);
        if let Some(x) = v.appid {
            lemma_u32_roundtrip(x);
        }
        assert(SpecAppInfo { appid: v.appid, ..s } == Self::spec_prefix(v, 1));
    }

    /// Reading field 2 back, after the fields before it.
    proof fn lemma_field_access_token(v: SpecAppInfo)
        ensures
            fold_fields(Self::spec_prefix(v, 1), opt_u64(2, v.access_token), Self::apply_fn())
                == Ok::<SpecAppInfo, WireError>(Self::spec_prefix(v, 2)),
    {
        reveal(AppInfo::spec_prefix);
        reveal(opt_u64);
        let apply = Self::apply_fn();
        let s = Self::spec_prefix(v, 1);
        lemma_fold_opt(s, 2, match v.access_token { Some(x) => Some(enc_u64(x)), None => None }, apply);
        if let Some(x) = v.access_token {
            lemma_u64_roundtrip(x);
        }
        assert(SpecAppInfo { access_token: v.access_token, ..s } == Self::spec_prefix(v, 2));
    }

    /// Reading field 3 back, after the fields before it.
    proof fn lemma_field_only_public_obsolete(v: SpecAppInfo)
        ensures
            fold_fields(Self::spec_prefix(v, 2), opt_bool(3, v.only_public_obsolete), Self::apply_fn())
                == Ok::<SpecAppInfo, WireError>(Self::spec_prefix(v, 3)),
    {
        reveal(AppInfo::spec_prefix);
        reveal(opt_bool);
        let apply = Self::apply_fn();
        let s = Self::spec_prefix(v, 2);
        lemma_fold_opt(s, 3, match v.only_public_obsolete { Some(x) => Some(enc_bool(x)), None => None }, apply);
        assert(SpecAppInfo { only_public_obsolete: v.only_public_obsolete, ..s } == Self::spec_prefix(v, 3));
    }

    /// Whether this message declares field number `n`.
    pub open spec fn declares(n: u32) -> bool {
        n == 1 || n == 2 || n == 3
    }

    /// A record with a number this message does not declare is passed over: well-formed
    /// bytes decode to the same message with such a record after them as without it.
    pub proof fn lemma_unknown_field(bytes: Seq<u8>, f: SpecField)
        requires
            parse_fields(bytes) is Ok,
            field_wf(f),
            !Self::declares(f.number),
        ensures
            Self::spec_decode(bytes + field_bytes(f)) == Self::spec_decode(bytes),
    {
        reveal(AppInfo::spec_decode);
        lemma_parse_fields_append(bytes, f);
        let fs = parse_fields(bytes).unwrap();
        let apply = Self::apply_fn();
        lemma_fold_concat(Self::spec_default(), fs, seq![f], apply);
        assert(fs.push(f) =~= fs + seq![f]);
        if let Ok(w) = fold_fields(Self::spec_default(), fs, apply) {
            lemma_fold_single(w, f, apply);
        }
        lemma_merge_run_fold(Self::spec_default(), bytes, apply);
        lemma_merge_run_fold(Self::spec_default(), bytes + field_bytes(f), apply);
    }

    /// Decoding the encoding of a message gives the message back.
    pub proof fn lemma_decode_encode(v: SpecAppInfo)
        requires
            Self::spec_encode(v).len() <= u64::MAX,
        ensures
            Self::spec_decode(Self::spec_encode(v)) == Ok::<SpecAppInfo, WireError>(v),
    {
        let apply = Self::apply_fn();
        let d = Self::spec_default();
        let p0 = Seq::<SpecField>::empty();
        let l1 = opt_u32(1, v.appid);
        let p1 = p0 + l1;
        let l2 = opt_u64(2, v.access_token);
        let p2 = p1 + l2;
        let l3 = opt_bool(3, v.only_public_obsolete);
        let p3 = p2 + l3;
        assert(parse_fields(Self::spec_encode(v)) == Ok::<Seq<SpecField>, WireError>(p3)) by {
            reveal(AppInfo::spec_encode);
            assert(numbers_ok(p0) && fields_wf(p0)) by {
                reveal(numbers_ok);
                reveal(fields_wf);
            }
            lemma_opt_u32_numbered(1, v.appid);
            lemma_fields_wf_concat(p0, l1);
            lemma_opt_u64_numbered(2, v.access_token);
            lemma_fields_wf_concat(p1, l2);
            lemma_opt_bool_numbered(3, v.only_public_obsolete);
            lemma_fields_wf_concat(p2, l3);
            assert(p3 == Self::spec_fields(v));
            lemma_fields_wf_from_len(p3);
            lemma_fields_roundtrip(p3);
        }
        assert(Self::spec_prefix(v, 0) == d) by {
            reveal(AppInfo::spec_prefix);
        }
        lemma_fold_empty(d, apply);
        lemma_fold_concat(d, p0, l1, apply);
        Self::lemma_field_appid(v);
        lemma_fold_concat(d, p1, l2, apply);
        Self::lemma_field_access_token(v);
        lemma_fold_concat(d, p2, l3, apply);
        Self::lemma_field_only_public_obsolete(v);
        assert(Self::spec_prefix(v, 3) == v) by {
            reveal(AppInfo::spec_prefix);
        }
        lemma_merge_run_fold(d, Self::spec_encode(v), apply);
        assert(Self::spec_decode(Self::spec_encode(v)) == Ok::<SpecAppInfo, WireError>(v)) by {
            reveal(AppInfo::spec_decode);
        }
    }
}

/// `PackageInfo`, as Valve's schema declares it.
#[derive(Debug, Clone, PartialEq)]
pub struct PackageInfo {
    /// Field 1.
    pub packageid: Option<u32>,
    /// Field 2.
    pub access_token: Option<u64>,
}

/// What a `PackageInfo` holds, as mathematical values.
#[verifier::ext_equal]
pub struct SpecPackageInfo {
    pub packageid: Option<u32>,
    pub access_token: Option<u64>,
}

impl View for PackageInfo {
    type V = SpecPackageInfo;

    open spec fn view(&self) -> SpecPackageInfo {
        SpecPackageInfo {
            packageid: self.packageid,
            access_token: self.access_token,
        }
    }
}

impl Default for PackageInfo {
    fn default() -> (r: Self)
        ensures
            r@ == PackageInfo::spec_default(),
    {
        PackageInfo {
            packageid: None,
            access_token: None,
        }
    }
}

impl PackageInfo {
    pub open spec fn spec_default() -> SpecPackageInfo {
        SpecPackageInfo {
            packageid: None,
            access_token: None,
        }
    }

    /// The records a `PackageInfo` is written as, in field order.
    pub open spec fn spec_fields(v: SpecPackageInfo) -> Seq<SpecField> {
        Seq::<SpecField>::empty()
            + opt_u32(1, v.packageid)
            + opt_u64(2, v.access_token)
    }

    #[verifier::opaque]
    pub open spec fn spec_encode(v: SpecPackageInfo) -> Seq<u8> {
        fields_bytes(Self::spec_fields(v))
    }

    /// What one record does to the message: a declared number sets or extends its
    /// field, any other number is left alone.
    pub open spec fn spec_apply(v: SpecPackageInfo, f: SpecField) -> Result<SpecPackageInfo, WireError> {
        match f.number {
            1 => match dec_u32(f.value) {
                Ok(x) => Ok(SpecPackageInfo { packageid: Some(x), ..v }),
                Err(e) => Err(e),
            },
            2 => match dec_u64(f.value) {
                Ok(x) => Ok(SpecPackageInfo { access_token: Some(x), ..v }),
                Err(e) => Err(e),
            },
            _ => Ok(v),
        }
    }

    pub open spec fn apply_fn() -> spec_fn(SpecPackageInfo, SpecField) -> Result<SpecPackageInfo, WireError> {
        |v: SpecPackageInfo, f: SpecField| Self::spec_apply(v, f)
    }

    /// The message `bytes` makes of `v`: its records applied in order, or the error
    /// that stops the reading.
    pub open spec fn spec_merge(v: SpecPackageInfo, bytes: Seq<u8>) -> Result<SpecPackageInfo, WireError> {
        let (w, stop) = merge_run(v, bytes, Self::apply_fn());
        match stop {
            None => Ok(w),
            Some(e) => Err(e),
        }
    }

    #[verifier::opaque]
    pub open spec fn spec_decode(bytes: Seq<u8>) -> Result<SpecPackageInfo, WireError> {
        Self::spec_merge(Self::spec_default(), bytes)
    }

    pub open spec fn view_all(xs: Seq<PackageInfo>) -> Seq<SpecPackageInfo> {
        xs.map_values(|m: PackageInfo| m@)
    }

    pub open spec fn view_opt(o: Option<PackageInfo>) -> Option<SpecPackageInfo> {
        match o {
            Some(m) => Some(m@),
            None => None,
        }
    }

    pub open spec fn spec_encode_all(xs: Seq<SpecPackageInfo>) -> Seq<Seq<u8>> {
        xs.map_values(|m: SpecPackageInfo| Self::spec_encode(m))
    }

    pub open spec fn spec_encode_opt(o: Option<SpecPackageInfo>) -> Option<Seq<u8>> {
        match o {
            Some(m) => Some(Self::spec_encode(m)),
            None => None,
        }
    }

    /// The encoding of each element.
    pub fn encode_all(xs: &Vec<PackageInfo>) -> (r: Vec<Vec<u8>>)
        ensures
            bytes_seq_view(r@) == Self::spec_encode_all(Self::view_all(xs@)),
    {
        let mut out: Vec<Vec<u8>> = Vec::new();
        let mut i: usize = 0;
        while i < xs.len()
            invariant
                i <= xs@.len(),
                out@.len() == i,
                forall|j: int| 0 <= j < i ==> #[trigger] out@[j]@ == Self::spec_encode(xs@[j]@),
            decreases xs@.len() - i,
        {
            let e = xs[i].encode_to_vec();
            out.push(e);
            i = i + 1;
        }
        assert(bytes_seq_view(out@) =~= Self::spec_encode_all(Self::view_all(xs@)));
        out
    }

    /// The encoding of the element, when there is one.
    pub fn encode_opt(o: &Option<PackageInfo>) -> (r: Option<Vec<u8>>)
        ensures
            opt_bytes_view(r) == Self::spec_encode_opt(Self::view_opt(*o)),
    {
        match o {
            Some(m) => Some(m.encode_to_vec()),
            None => None,
        }
    }

    /// This message with one record applied to it, or, when the record is refused,
    /// the message unchanged and the reason.
    fn applied(self, f: &Field) -> (r: Result<Self, (Self, WireError)>)
        ensures
            match Self::spec_apply(self@, f@) {
                Ok(v) => r matches Ok(m) && m@ == v,
                Err(e) => r matches Err((m, x)) && x == e && m@ == self@,
            },
    {
        match f.number {
            1 => match read_u32(&f.value) {
                Ok(x) => Ok(Self { packageid: Some(x), ..self }),
                Err(e) => Err((self, e)),
            },
            2 => match read_u64(&f.value) {
                Ok(x) => Ok(Self { access_token: Some(x), ..self }),
                Err(e) => Err((self, e)),
            },
            _ => Ok(self),
        }
    }

    /// Reads the records `bytes` holds into this message, in order. When a record does
    /// not parse or is refused, the reading stops there: the message keeps what the
    /// records before it gave, and the error is returned.
    pub fn merge(&mut self, bytes: &[u8]) -> (r: Result<(), WireError>)
        ensures
            final(self)@ == merge_run(old(self)@, bytes@, Self::apply_fn()).0,
            r == match merge_run(old(self)@, bytes@, Self::apply_fn()).1 {
                None => Ok::<(), WireError>(()),
                Some(e) => Err::<(), WireError>(e),
            },
    {
        let ghost total = merge_run(self@, bytes@, Self::apply_fn());
        let mut cur = Self::default();
        std::mem::swap(&mut cur, self);
        let mut pos: usize = 0;
        assert(bytes@.skip(0) =~= bytes@);
        while pos < bytes.len()
            invariant
                pos <= bytes@.len(),
                total == merge_run(old(self)@, bytes@, Self::apply_fn()),
                merge_run(cur@, bytes@.skip(pos as int), Self::apply_fn()) == total,
            decreases bytes@.len() - pos,
        {
            let ghost s = bytes@.skip(pos as int);
            proof {
                lemma_merge_run_step(cur@, s, Self::apply_fn());
                lemma_parse_field_len(s);
            }
            match read_field(bytes, pos) {
                Ok((f, end)) => {
                    assert(bytes@.skip(end as int) =~= s.skip((end - pos) as int));
                    match cur.applied(&f) {
                        Ok(m) => {
                            cur = m;
                        },
                        Err((m, e)) => {
                            *self = m;
                            return Err(e);
                        },
                    }
                    pos = end;
                },
                Err(e) => {
                    *self = cur;
                    return Err(e);
                },
            }
        }
        assert(bytes@.skip(pos as int) =~= Seq::<u8>::empty());
        proof {
            lemma_merge_run_empty(cur@, Self::apply_fn());
        }
        *self = cur;
        Ok(())
    }

    /// Decodes a message from its encoding.
    pub fn decode(bytes: &[u8]) -> (r: Result<Self, WireError>)
        ensures
            match Self::spec_decode(bytes@) {
                Ok(v) => r matches Ok(m) && m@ == v,
                Err(e) => r matches Err(x) && x == e,
            },
    {
        proof {
            reveal(PackageInfo::spec_decode);
        }
        let mut m = Self::default();
        match m.merge(bytes) {
            Ok(()) => Ok(m),
            Err(e) => Err(e),
        }
    }

    /// The encoding of this message.
    pub fn encode_to_vec(&self) -> (r: Vec<u8>)
        ensures
            r@ == Self::spec_encode(self@),
    {
        let ghost v = self@;
        let mut out: Vec<u8> = Vec::new();
        let ghost p0 = Seq::<SpecField>::empty();
        put_opt_u32(&mut out, 1, self.packageid);
        let ghost p1 = p0 + opt_u32(1, v.packageid);
        proof {
            lemma_fields_bytes_concat(p0, opt_u32(1, v.packageid));
        }
        put_opt_varint(&mut out, 2, self.access_token);
        let ghost p2 = p1 + opt_u64(2, v.access_token);
        proof {
            lemma_fields_bytes_concat(p1, opt_u64(2, v.access_token));
        }
        proof {
            reveal(PackageInfo::spec_encode);
        }
        assert(p2 == Self::spec_fields(v));
        out
    }

    /// Appends the encoding of this message to `out`.
    pub fn encode_raw(&self, out: &mut Vec<u8>)
        ensures
            final(out)@ == old(out)@ + Self::spec_encode(self@),
    {
        let mut b = self.encode_to_vec();
        out.append(&mut b);
    }

    /// The first `k` fields of `v`, the others as a fresh message has them.
    #[verifier::opaque]
    pub open spec fn spec_prefix(v: SpecPackageInfo, k: int) -> SpecPackageInfo {
        SpecPackageInfo {
            packageid: if 1 <= k { v.packageid } else { None },
            access_token: if 2 <= k { v.access_token } else { None },
        }
    }

    /// Reading field 1 back, after the fields before it.
    proof fn lemma_field_packageid(v: SpecPackageInfo)
        ensures
            fold_fields(Self::spec_prefix(v, 0), opt_u32(1, v.packageid), Self::apply_fn())
                == Ok::<SpecPackageInfo, WireError>(Self::spec_prefix(v, 1)),
    {
        reveal(PackageInfo::spec_prefix);
        reveal(opt_u32);
        let apply = Self::apply_fn();
        let s = Self::spec_prefix(v, 0);
        lemma_fold_opt(s, 1, match v.packageid { Some(x) => Some(enc_u32(x)), None => None }, apply);
        if let Some(x) = v.packageid {
            lemma_u32_roundtrip(x);
        }
        assert(SpecPackageInfo { packageid: v.packageid, ..s } == Self::spec_prefix(v, 1));
    }

    /// Reading field 2 back, after the fields before it.
    proof fn lemma_field_access_token(v: SpecPackageInfo)
        ensures
            fold_fields(Self::spec_prefix(v, 1), opt_u64(2, v.access_token), Self::apply_fn())
                == Ok::<SpecPackageInfo, WireError>(Self::spec_prefix(v, 2)),
    {
        reveal(PackageInfo::spec_prefix);
        reveal(opt_u64);
        let apply = Self::apply_fn();
        let s = Self::spec_prefix(v, 1);
        lemma_fold_opt(s, 2, match v.access_token { Some(x) => Some(enc_u64(x)), None => None }, apply);
        if let Some(x) = v.access_token {
            lemma_u64_roundtrip(x);
        }
        assert(SpecPackageInfo { access_token: v.access_token, ..s } == Self::spec_prefix(v, 2));
    }

    /// Whether this message declares field number `n`.
    pub open spec fn declares(n: u32) -> bool {
        n == 1 || n == 2
    }

    /// A record with a number this message does not declare is passed over: well-formed
    /// bytes decode to the same message with such a record after them as without it.
    pub proof fn lemma_unknown_field(bytes: Seq<u8>, f: SpecField)
        requires
            parse_fields(bytes) is Ok,
            field_wf(f),
            !Self::declares(f.number),
        ensures
            Self::spec_decode(bytes + field_bytes(f)) == Self::spec_decode(bytes),
    {
        reveal(PackageInfo::spec_decode);
        lemma_parse_fields_append(bytes, f);
        let fs = parse_fields(bytes).unwrap();
        let apply = Self::apply_fn();
        lemma_fold_concat(Self::spec_default(), fs, seq![f], apply);
        assert(fs.push(f) =~= fs + seq![f]);
        if let Ok(w) = fold_fields(Self::spec_default(), fs, apply) {
            lemma_fold_single(w, f, apply);
        }
        lemma_merge_run_fold(Self::spec_default(), bytes, apply);
        lemma_merge_run_fold(Self::spec_default(), bytes + field_bytes(f), apply);
    }

    /// Decoding the encoding of a message gives the message back.
    pub proof fn lemma_decode_encode(v: SpecPackageInfo)
        requires
            Self::spec_encode(v).len() <= u64::MAX,
        ensures
            Self::spec_decode(Self::spec_encode(v)) == Ok::<SpecPackageInfo, WireError>(v),
    {
        let apply = Self::apply_fn();
        let d = Self::spec_default();
        let p0 = Seq::<SpecField>::empty();
        let l1 = opt_u32(1, v.packageid);
        let p1 = p0 + l1;
        let l2 = opt_u64(2, v.access_token);
        let p2 = p1 + l2;
        assert(parse_fields(Self::spec_encode(v)) == Ok::<Seq<SpecField>, WireError>(p2)) by {
            reveal(PackageInfo::spec_encode);
            assert(numbers_ok(p0) && fields_wf(p0)) by {
                reveal(numbers_ok);
                reveal(fields_wf);
            }
            lemma_opt_u32_numbered(1, v.packageid);
            lemma_fields_wf_concat(p0, l1);
            lemma_opt_u64_numbered(2, v.access_token);
            lemma_fields_wf_concat(p1, l2);
            assert(p2 == Self::spec_fields(v));
            lemma_fields_wf_from_len(p2);
            lemma_fields_roundtrip(p2);
        }
        assert(Self::spec_prefix(v, 0) == d) by {
            reveal(PackageInfo::spec_prefix);
        }
        lemma_fold_empty(d, apply);
        lemma_fold_concat(d, p0, l1, apply);
        Self::lemma_field_packageid(v);
        lemma_fold_concat(d, p1, l2, apply);
        Self::lemma_field_access_token(v);
        assert(Self::spec_prefix(v, 2) == v) by {
            reveal(PackageInfo::spec_prefix);
        }
        lemma_merge_run_fold(d, Self::spec_encode(v), apply);
        assert(Self::spec_decode(Self::spec_encode(v)) == Ok::<SpecPackageInfo, WireError>(v)) by {
            reveal(PackageInfo::spec_decode);
        }
    }
}

} // verus!
