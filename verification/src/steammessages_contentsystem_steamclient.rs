//! Messages and enums of `steammessages_contentsystem.steamclient.proto`.

#![allow(non_camel_case_types, non_snake_case, non_upper_case_globals)]

use std::cmp::Ordering;
use vstd::prelude::*;
use vstd::std_specs::cmp::PartialOrdSpecImpl;
use vstd::std_specs::convert::FromSpecImpl;

use crate::codec::{
    bytes_seq_view, dec_bool, dec_bytes, dec_fixed32, dec_i32, dec_packed_u32, dec_string,
    dec_u32, dec_u64, enc_bool, enc_fixed32, enc_i32, enc_string, enc_u32, enc_u64, fold_fields,
    lemma_fold_chain, lemma_fold_concat, lemma_fold_empty, lemma_fold_opt, lemma_fold_single,
    lemma_i32_roundtrip, lemma_merge_run_empty, lemma_merge_run_fold, lemma_merge_run_step,
    lemma_opt_bool_numbered, lemma_opt_fixed32_numbered, lemma_opt_i32_numbered,
    lemma_opt_string_numbered, lemma_opt_u32_numbered, lemma_opt_u64_numbered,
    lemma_rep_bytes_numbered, lemma_rep_string_numbered, lemma_rep_u32_numbered,
    lemma_string_roundtrip, lemma_u32_roundtrip, lemma_u64_roundtrip, merge_run, opt_bool,
    opt_bytes_view, opt_fixed32, opt_i32, opt_string, opt_string_view, opt_u32, opt_u64,
    put_opt_bool, put_opt_fixed32, put_opt_i32, put_opt_string, put_opt_u32, put_opt_varint,
    put_rep_bytes, put_rep_string, put_rep_u32, read_bool, read_fixed32, read_i32,
    read_packed_u32, read_payload, read_string, read_u32, read_u64, rep_bytes, rep_string,
    rep_u32, strings_view,
};
use crate::rpc::Rpc;
use crate::wire::fields::{
    field_bytes, field_wf, fields_bytes, fields_wf, lemma_fields_bytes_concat,
    lemma_fields_roundtrip, lemma_fields_wf_concat, lemma_fields_wf_from_len,
    lemma_parse_field_len, lemma_parse_fields_append, numbers_ok, parse_fields, read_field,
    Field, SpecField,
};
use crate::wire::varint::WireError;

verus! {

/// `EAppContentDetectionType`, as a newtype so an unrecognised value round-trips instead of
/// being rejected. Valve adds values without warning.
#[derive(Debug, Clone, Copy, PartialEq, Eq, Ord, Hash, Structural)]
pub struct EAppContentDetectionType(pub i32);

impl EAppContentDetectionType {
    /// `k_EAppContentDetectionType_None` = `0`
    #[allow(non_snake_case)]
    pub fn k_EAppContentDetectionType_None() -> (r: Self)
        ensures
            r.0 == 0,
    {
        Self(0)
    }

    /// `k_EAppContentDetectionType_AntiCheat` = `1`
    #[allow(non_snake_case)]
    pub fn k_EAppContentDetectionType_AntiCheat() -> (r: Self)
        ensures
            r.0 == 1,
    {
        Self(1)
    }

    /// `k_EAppContentDetectionType_GameEngine` = `2`
    #[allow(non_snake_case)]
    pub fn k_EAppContentDetectionType_GameEngine() -> (r: Self)
        ensures
            r.0 == 2,
    {
        Self(2)
    }

    /// The underlying value, as it appears on the wire.
    pub fn value(self) -> (r: i32)
        ensures
            r == self.0,
    {
        self.0
    }
}

impl From<i32> for EAppContentDetectionType {
    fn from(value: i32) -> Self {
        Self(value)
    }
}

impl FromSpecImpl<i32> for EAppContentDetectionType {
    open spec fn obeys_from_spec() -> bool {
        true
    }

    open spec fn from_spec(v: i32) -> Self {
        EAppContentDetectionType(v)
    }
}

/// A fresh value is `0`, the value the schema lists first.
impl Default for EAppContentDetectionType {
    fn default() -> (r: Self)
        ensures
            r.0 == 0,
    {
        Self(0)
    }
}

/// Values are ordered by their wire value.
impl PartialOrd for EAppContentDetectionType {
    fn partial_cmp(&self, other: &Self) -> (r: Option<Ordering>) {
        if self.0 < other.0 {
            Some(Ordering::Less)
        } else if self.0 == other.0 {
            Some(Ordering::Equal)
        } else {
            Some(Ordering::Greater)
        }
    }
}

impl PartialOrdSpecImpl for EAppContentDetectionType {
    open spec fn obeys_partial_cmp_spec() -> bool {
        true
    }

    open spec fn partial_cmp_spec(&self, other: &Self) -> Option<Ordering> {
        if self.0 < other.0 {
            Some(Ordering::Less)
        } else if self.0 == other.0 {
            Some(Ordering::Equal)
        } else {
            Some(Ordering::Greater)
        }
    }
}

/// `CContentServerDirectory_ConnectedSteamPipeServerInfo`, as Valve's schema declares it.
#[derive(Debug, Clone, PartialEq)]
pub struct CContentServerDirectory_ConnectedSteamPipeServerInfo {
    /// Field 1.
    pub type_: Option<String>,
    /// Field 2.
    pub source_id: Option<i32>,
    /// Field 3.
    pub hostname: Option<String>,
}

/// What a `CContentServerDirectory_ConnectedSteamPipeServerInfo` holds, as mathematical values.
#[verifier::ext_equal]
pub struct SpecCContentServerDirectory_ConnectedSteamPipeServerInfo {
    pub type_: Option<Seq<char>>,
    pub source_id: Option<i32>,
    pub hostname: Option<Seq<char>>,
}

impl View for CContentServerDirectory_ConnectedSteamPipeServerInfo {
    type V = SpecCContentServerDirectory_ConnectedSteamPipeServerInfo;

    open spec fn view(&self) -> SpecCContentServerDirectory_ConnectedSteamPipeServerInfo {
        SpecCContentServerDirectory_ConnectedSteamPipeServerInfo {
            type_: opt_string_view(self.type_),
            source_id: self.source_id,
            hostname: opt_string_view(self.hostname),
        }
    }
}

impl Default for CContentServerDirectory_ConnectedSteamPipeServerInfo {
    fn default() -> (r: Self)
        ensures
            r@ == CContentServerDirectory_ConnectedSteamPipeServerInfo::spec_default(),
    {
        CContentServerDirectory_ConnectedSteamPipeServerInfo {
            type_: None,
            source_id: None,
            hostname: None,
        }
    }
}

impl CContentServerDirectory_ConnectedSteamPipeServerInfo {
    pub open spec fn spec_default() -> SpecCContentServerDirectory_ConnectedSteamPipeServerInfo {
        SpecCContentServerDirectory_ConnectedSteamPipeServerInfo {
            type_: None,
            source_id: None,
            hostname: None,
        }
    }

    /// The records a `CContentServerDirectory_ConnectedSteamPipeServerInfo` is written as, in field order.
    pub open spec fn spec_fields(v: SpecCContentServerDirectory_ConnectedSteamPipeServerInfo) -> Seq<SpecField> {
        Seq::<SpecField>::empty()
            + opt_string(1, v.type_)
            + opt_i32(2, v.source_id)
            + opt_string(3, v.hostname)
    }

    #[verifier::opaque]
    pub open spec fn spec_encode(v: SpecCContentServerDirectory_ConnectedSteamPipeServerInfo) -> Seq<u8> {
        fields_bytes(Self::spec_fields(v))
    }

    /// What one record does to the message: a declared number sets or extends its
    /// field, any other number is left alone.
    pub open spec fn spec_apply(v: SpecCContentServerDirectory_ConnectedSteamPipeServerInfo, f: SpecField) -> Result<SpecCContentServerDirectory_ConnectedSteamPipeServerInfo, WireError> {
        match f.number {
            1 => match dec_string(f.value) {
                Ok(x) => Ok(SpecCContentServerDirectory_ConnectedSteamPipeServerInfo { type_: Some(x), ..v }),
                Err(e) => Err(e),
            },
            2 => match dec_i32(f.value) {
                Ok(x) => Ok(SpecCContentServerDirectory_ConnectedSteamPipeServerInfo { source_id: Some(x), ..v }),
                Err(e) => Err(e),
            },
            3 => match dec_string(f.value) {
                Ok(x) => Ok(SpecCContentServerDirectory_ConnectedSteamPipeServerInfo { hostname: Some(x), ..v }),
                Err(e) => Err(e),
            },
            _ => Ok(v),
        }
    }

    pub open spec fn apply_fn() -> spec_fn(SpecCContentServerDirectory_ConnectedSteamPipeServerInfo, SpecField) -> Result<SpecCContentServerDirectory_ConnectedSteamPipeServerInfo, WireError> {
        |v: SpecCContentServerDirectory_ConnectedSteamPipeServerInfo, f: SpecField| Self::spec_apply(v, f)
    }

    /// The message `bytes` makes of `v`: its records applied in order, or the error
    /// that stops the reading.
    pub open spec fn spec_merge(v: SpecCContentServerDirectory_ConnectedSteamPipeServerInfo, bytes: Seq<u8>) -> Result<SpecCContentServerDirectory_ConnectedSteamPipeServerInfo, WireError> {
        let (w, stop) = merge_run(v, bytes, Self::apply_fn());
        match stop {
            None => Ok(w),
            Some(e) => Err(e),
        }
    }

    #[verifier::opaque]
    pub open spec fn spec_decode(bytes: Seq<u8>) -> Result<SpecCContentServerDirectory_ConnectedSteamPipeServerInfo, WireError> {
        Self::spec_merge(Self::spec_default(), bytes)
    }

    pub open spec fn view_all(xs: Seq<CContentServerDirectory_ConnectedSteamPipeServerInfo>) -> Seq<SpecCContentServerDirectory_ConnectedSteamPipeServerInfo> {
        xs.map_values(|m: CContentServerDirectory_ConnectedSteamPipeServerInfo| m@)
    }

    pub open spec fn view_opt(o: Option<CContentServerDirectory_ConnectedSteamPipeServerInfo>) -> Option<SpecCContentServerDirectory_ConnectedSteamPipeServerInfo> {
        match o {
            Some(m) => Some(m@),
            None => None,
        }
    }

    pub open spec fn spec_encode_all(xs: Seq<SpecCContentServerDirectory_ConnectedSteamPipeServerInfo>) -> Seq<Seq<u8>> {
        xs.map_values(|m: SpecCContentServerDirectory_ConnectedSteamPipeServerInfo| Self::spec_encode(m))
    }

    pub open spec fn spec_encode_opt(o: Option<SpecCContentServerDirectory_ConnectedSteamPipeServerInfo>) -> Option<Seq<u8>> {
        match o {
            Some(m) => Some(Self::spec_encode(m)),
            None => None,
        }
    }

    /// The encoding of each element.
    pub fn encode_all(xs: &Vec<CContentServerDirectory_ConnectedSteamPipeServerInfo>) -> (r: Vec<Vec<u8>>)
        ensures
            bytes_seq_view(r@) == Self::spec_encode_all(Self::view_all(xs@)),
    {
        let mut out: Vec<Vec<u8>> = Vec::new();
        let mut i: usize = 0;
        while i < xs.len()
            invariant
                i <= xs@.len(),
                out@.len() == i,
                forall|j: int| 0 <= j < i ==> #[trigger] out@[j]@ == Self::spec_encode(xs@[j]@),
            decreases xs@.len() - i,
        {
            let e = xs[i].encode_to_vec();
            out.push(e);
            i = i + 1;
        }
        assert(bytes_seq_view(out@) =~= Self::spec_encode_all(Self::view_all(xs@)));
        out
    }

    /// The encoding of the element, when there is one.
    pub fn encode_opt(o: &Option<CContentServerDirectory_ConnectedSteamPipeServerInfo>) -> (r: Option<Vec<u8>>)
        ensures
            opt_bytes_view(r) == Self::spec_encode_opt(Self::view_opt(*o)),
    {
        match o {
            Some(m) => Some(m.encode_to_vec()),
            None => None,
        }
    }

    /// This message with one record applied to it, or, when the record is refused,
    /// the message unchanged and the reason.
    fn applied(self, f: &Field) -> (r: Result<Self, (Self, WireError)>)
        ensures
            match Self::spec_apply(self@, f@) {
                Ok(v) => r matches Ok(m) && m@ == v,
                Err(e) => r matches Err((m, x)) && x == e && m@ == self@,
            },
    {
        match f.number {
            1 => match read_string(&f.value) {
                Ok(x) => Ok(Self { type_: Some(x), ..self }),
                Err(e) => Err((self, e)),
            },
            2 => match read_i32(&f.value) {
                Ok(x) => Ok(Self { source_id: Some(x), ..self }),
                Err(e) => Err((self, e)),
            },
            3 => match read_string(&f.value) {
                Ok(x) => Ok(Self { hostname: Some(x), ..self }),
                Err(e) => Err((self, e)),
            },
            _ => Ok(self),
        }
    }

    /// Reads the records `bytes` holds into this message, in order. When a record does
    /// not parse or is refused, the reading stops there: the message keeps what the
    /// records before it gave, and the error is returned.
    pub fn merge(&mut self, bytes: &[u8]) -> (r: Result<(), WireError>)
        ensures
            final(self)@ == merge_run(old(self)@, bytes@, Self::apply_fn()).0,
            r == match merge_run(old(self)@, bytes@, Self::apply_fn()).1 {
                None => Ok::<(), WireError>(()),
                Some(e) => Err::<(), WireError>(e),
            },
    {
        let ghost total = merge_run(self@, bytes@, Self::apply_fn());
        let mut cur = Self::default();
        std::mem::swap(&mut cur, self);
        let mut pos: usize = 0;
        assert(bytes@.skip(0) =~= bytes@);
        while pos < bytes.len()
            invariant
                pos <= bytes@.len(),
                total == merge_run(old(self)@, bytes@, Self::apply_fn()),
                merge_run(cur@, bytes@.skip(pos as int), Self::apply_fn()) == total,
            decreases bytes@.len() - pos,
        {
            let ghost s = bytes@.skip(pos as int);
            proof {
                lemma_merge_run_step(cur@, s, Self::apply_fn());
                lemma_parse_field_len(s);
            }
            match read_field(bytes, pos) {
                Ok((f, end)) => {
                    assert(bytes@.skip(end as int) =~= s.skip((end - pos) as int));
                    match cur.applied(&f) {
                        Ok(m) => {
                            cur = m;
                        },
                        Err((m, e)) => {
                            *self = m;
                            return Err(e);
                        },
                    }
                    pos = end;
                },
                Err(e) => {
                    *self = cur;
                    return Err(e);
                },
            }
        }
        assert(bytes@.skip(pos as int) =~= Seq::<u8>::empty());
        proof {
            lemma_merge_run_empty(cur@, Self::apply_fn());
        }
        *self = cur;
        Ok(())
    }

    /// Decodes a message from its encoding.
    pub fn decode(bytes: &[u8]) -> (r: Result<Self, WireError>)
        ensures
            match Self::spec_decode(bytes@) {
                Ok(v) => r matches Ok(m) && m@ == v,
                Err(e) => r matches Err(x) && x == e,
            },
    {
        proof {
            reveal(CContentServerDirectory_ConnectedSteamPipeServerInfo::spec_decode);
        }
        let mut m = Self::default();
        match m.merge(bytes) {
            Ok(()) => Ok(m),
            Err(e) => Err(e),
        }
    }

    /// The encoding of this message.
    pub fn encode_to_vec(&self) -> (r: Vec<u8>)
        ensures
            r@ == Self::spec_encode(self@),
    {
        let ghost v = self@;
        let mut out: Vec<u8> = Vec::new();
        let ghost p0 = Seq::<SpecField>::empty();
        put_opt_string(&mut out, 1, &self.type_);
        let ghost p1 = p0 + opt_string(1, v.type_);
        proof {
            lemma_fields_bytes_concat(p0, opt_string(1, v.type_));
        }
        put_opt_i32(&mut out, 2, self.source_id);
        let ghost p2 = p1 + opt_i32(2, v.source_id);
        proof {
            lemma_fields_bytes_concat(p1, opt_i32(2, v.source_id));
        }
        put_opt_string(&mut out, 3, &self.hostname);
        let ghost p3 = p2 + opt_string(3, v.hostname);
        proof {
            lemma_fields_bytes_concat(p2, opt_string(3, v.hostname));
        }
        proof {
            reveal(CContentServerDirectory_ConnectedSteamPipeServerInfo::spec_encode);
        }
        assert(p3 == Self::spec_fields(v));
        out
    }

    /// Appends the encoding of this message to `out`.
    pub fn encode_raw(&self, out: &mut Vec<u8>)
        ensures
            final(out)@ == old(out)@ + Self::spec_encode(self@),
    {
        let mut b = self.encode_to_vec();
        out.append(&mut b);
    }

    /// The first `k` fields of `v`, the others as a fresh message has them.
    #[verifier::opaque]
    pub open spec fn spec_prefix(v: SpecCContentServerDirectory_ConnectedSteamPipeServerInfo, k: int) -> SpecCContentServerDirectory_ConnectedSteamPipeServerInfo {
        SpecCContentServerDirectory_ConnectedSteamPipeServerInfo {
            type_: if 1 <= k { v.type_ } else { None },
            source_id: if 2 <= k { v.source_id } else { None },
            hostname: if 3 <= k { v.hostname } else { None },
        }
    }

    /// Reading field 1 back, after the fields before it.
    proof fn lemma_field_type(v: SpecCContentServerDirectory_ConnectedSteamPipeServerInfo)
        ensures
            fold_fields(Self::spec_prefix(v, 0), opt_string(1, v.type_), Self::apply_fn())
                == Ok::<SpecCContentServerDirectory_ConnectedSteamPipeServerInfo, WireError>(Self::spec_prefix(v, 1)),
    {
        reveal(CContentServerDirectory_ConnectedSteamPipeServerInfo::spec_prefix);
        reveal(opt_string);
        let apply = Self::apply_fn();
        let s = Self::spec_prefix(v, 0);
        lemma_fold_opt(s, 1, match v.type_ { Some(x) => Some(enc_string(x)), None => None }, apply);
        if let Some(x) = v.type_ {
            lemma_string_roundtrip(x);
        }
        assert(SpecCContentServerDirectory_ConnectedSteamPipeServerInfo { type_: v.type_, ..s } == Self::spec_prefix(v, 1));
    }

    /// Reading field 2 back, after the fields before it.
    proof fn lemma_field_source_id(v: SpecCContentServerDirectory_ConnectedSteamPipeServerInfo)
        ensures
            fold_fields(Self::spec_prefix(v, 1), opt_i32(2, v.source_id), Self::apply_fn())
                == Ok::<SpecCContentServerDirectory_ConnectedSteamPipeServerInfo, WireError>(Self::spec_prefix(v, 2)),
    {
        reveal(CContentServerDirectory_ConnectedSteamPipeServerInfo::spec_prefix);
        reveal(opt_i32);
        let apply = Self::apply_fn();
        let s = Self::spec_prefix(v, 1);
        lemma_fold_opt(s, 2, match v.source_id { Some(x) => Some(enc_i32(x)), None => None }, apply);
        if let Some(x) = v.source_id {
            lemma_i32_roundtrip(x);
        }
        assert(SpecCContentServerDirectory_ConnectedSteamPipeServerInfo { source_id: v.source_id, ..s } == Self::spec_prefix(v, 2));
    }

    /// Reading field 3 back, after the fields before it.
    proof fn lemma_field_hostname(v: SpecCContentServerDirectory_ConnectedSteamPipeServerInfo)
        ensures
            fold_fields(Self::spec_prefix(v, 2), opt_string(3, v.hostname), Self::apply_fn())
                == Ok::<SpecCContentServerDirectory_ConnectedSteamPipeServerInfo, WireError>(Self::spec_prefix(v, 3)),
    {
        reveal(CContentServerDirectory_ConnectedSteamPipeServerInfo::spec_prefix);
        reveal(opt_string);
        let apply = Self::apply_fn();
        let s = Self::spec_prefix(v, 2);
        lemma_fold_opt(s, 3, match v.hostname { Some(x) => Some(enc_string(x)), None => None }, apply);
        if let Some(x) = v.hostname {
            lemma_string_roundtrip(x);
        }
        assert(SpecCContentServerDirectory_ConnectedSteamPipeServerInfo { hostname: v.hostname, ..s } == Self::spec_prefix(v, 3));
    }

    /// Whether this message declares field number `n`.
    pub open spec fn declares(n: u32) -> bool {
        n == 1 || n == 2 || n == 3
    }

    /// A record with a number this message does not declare is passed over: well-formed
    /// bytes decode to the same message with such a record after them as without it.
    pub proof fn lemma_unknown_field(bytes: Seq<u8>, f: SpecField)
        requires
            parse_fields(bytes) is Ok,
            field_wf(f),
            !Self::declares(f.number),
        ensures
            Self::spec_decode(bytes + field_bytes(f)) == Self::spec_decode(bytes),
    {
        reveal(CContentServerDirectory_ConnectedSteamPipeServerInfo::spec_decode);
        lemma_parse_fields_append(bytes, f);
        let fs = parse_fields(bytes).unwrap();
        let apply = Self::apply_fn();
        lemma_fold_concat(Self::spec_default(), fs, seq![f], apply);
        assert(fs.push(f) =~= fs + seq![f]);
        if let Ok(w) = fold_fields(Self::spec_default(), fs, apply) {
            lemma_fold_single(w, f, apply);
        }
        lemma_merge_run_fold(Self::spec_default(), bytes, apply);
        lemma_merge_run_fold(Self::spec_default(), bytes + field_bytes(f), apply);
    }

    /// Decoding the encoding of a message gives the message back.
    pub proof fn lemma_decode_encode(v: SpecCContentServerDirectory_ConnectedSteamPipeServerInfo)
        requires
            Self::spec_encode(v).len() <= u64::MAX,
        ensures
            Self::spec_decode(Self::spec_encode(v)) == Ok::<SpecCContentServerDirectory_ConnectedSteamPipeServerInfo, WireError>(v),
    {
        let apply = Self::apply_fn();
        let d = Self::spec_default();
        let p0 = Seq::<SpecField>::empty();
        let l1 = opt_string(1, v.type_);
        let p1 = p0 + l1;
        let l2 = opt_i32(2, v.source_id);
        let p2 = p1 + l2;
        let l3 = opt_string(3, v.hostname);
        let p3 = p2 + l3;
        assert(parse_fields(Self::spec_encode(v)) == Ok::<Seq<SpecField>, WireError>(p3)) by {
            reveal(CContentServerDirectory_ConnectedSteamPipeServerInfo::spec_encode);
            assert(numbers_ok(p0) && fields_wf(p0)) by {
                reveal(numbers_ok);
                reveal(fields_wf);
            }
            lemma_opt_string_numbered(1, v.type_);
            lemma_fields_wf_concat(p0, l1);
            lemma_opt_i32_numbered(2, v.source_id);
            lemma_fields_wf_concat(p1, l2);
            lemma_opt_string_numbered(3, v.hostname);
            lemma_fields_wf_concat(p2, l3);
            assert(p3 == Self::spec_fields(v));
            lemma_fields_wf_from_len(p3);
            lemma_fields_roundtrip(p3);
        }
        assert(Self::spec_prefix(v, 0) == d) by {
            reveal(CContentServerDirectory_ConnectedSteamPipeServerInfo::spec_prefix);
        }
        lemma_fold_empty(d, apply);
        lemma_fold_concat(d, p0, l1, apply);
        Self::lemma_field_type(v);
        lemma_fold_concat(d, p1, l2, apply);
        Self::lemma_field_source_id(v);
        lemma_fold_concat(d, p2, l3, apply);
        Self::lemma_field_hostname(v);
        assert(Self::spec_prefix(v, 3) == v) by {
            reveal(CContentServerDirectory_ConnectedSteamPipeServerInfo::spec_prefix);
        }
        lemma_merge_run_fold(d, Self::spec_encode(v), apply);
        assert(Self::spec_decode(Self::spec_encode(v)) == Ok::<SpecCContentServerDirectory_ConnectedSteamPipeServerInfo, WireError>(v)) by {
            reveal(CContentServerDirectory_ConnectedSteamPipeServerInfo::spec_decode);
        }
    }
}

/// `CContentServerDirectory_GetServersForSteamPipe_Request`, as Valve's schema declares it.
#[derive(Debug, Clone, PartialEq)]
pub struct CContentServerDirectory_GetServersForSteamPipe_Request {
    /// Field 1.
    pub cell_id: Option<u32>,
    /// Field 2.
    pub max_servers: Option<u32>,
    /// Field 3.
    pub ip_override: Option<String>,
    /// Field 4.
    pub launcher_type: Option<i32>,
    /// Field 5.
    pub ipv6_public: Option<String>,
    /// Field 6.
    pub current_connections: Vec<crate::steammessages_contentsystem_steamclient::CContentServerDirectory_ConnectedSteamPipeServerInfo>,
}

/// What a `CContentServerDirectory_GetServersForSteamPipe_Request` holds, as mathematical values.
#[verifier::ext_equal]
pub struct SpecCContentServerDirectory_GetServersForSteamPipe_Request {
    pub cell_id: Option<u32>,
    pub max_servers: Option<u32>,
    pub ip_override: Option<Seq<char>>,
    pub launcher_type: Option<i32>,
    pub ipv6_public: Option<Seq<char>>,
    pub current_connections: Seq<crate::steammessages_contentsystem_steamclient::SpecCContentServerDirectory_ConnectedSteamPipeServerInfo>,
}

impl View for CContentServerDirectory_GetServersForSteamPipe_Request {
    type V = SpecCContentServerDirectory_GetServersForSteamPipe_Request;

    open spec fn view(&self) -> SpecCContentServerDirectory_GetServersForSteamPipe_Request {
        SpecCContentServerDirectory_GetServersForSteamPipe_Request {
            cell_id: self.cell_id,
            max_servers: self.max_servers,
            ip_override: opt_string_view(self.ip_override),
            launcher_type: self.launcher_type,
            ipv6_public: opt_string_view(self.ipv6_public),
            current_connections: crate::steammessages_contentsystem_steamclient::CContentServerDirectory_ConnectedSteamPipeServerInfo::view_all(self.current_connections@),
        }
    }
}

impl Default for CContentServerDirectory_GetServersForSteamPipe_Request {
    fn default() -> (r: Self)
        ensures
            r@ == CContentServerDirectory_GetServersForSteamPipe_Request::spec_default(),
    {
        CContentServerDirectory_GetServersForSteamPipe_Request {
            cell_id: None,
            max_servers: None,
            ip_override: None,
            launcher_type: None,
            ipv6_public: None,
            current_connections: Vec::new(),
        }
    }
}

impl CContentServerDirectory_GetServersForSteamPipe_Request {
    /// Field 2, or its schema default when absent.
    pub fn max_servers_or_default(&self) -> (r: u32)
        ensures
            r == match self.max_servers {
                Some(x) => x,
                None => 20u32,
            },
    {
        self.max_servers.unwrap_or(20u32)
    }

    /// Field 4, or its schema default when absent.
    pub fn launcher_type_or_default(&self) -> (r: i32)
        ensures
            r == match self.launcher_type {
                Some(x) => x,
                None => 0i32,
            },
    {
        self.launcher_type.unwrap_or(0i32)
    }

    pub open spec fn spec_default() -> SpecCContentServerDirectory_GetServersForSteamPipe_Request {
        SpecCContentServerDirectory_GetServersForSteamPipe_Request {
            cell_id: None,
            max_servers: None,
            ip_override: None,
            launcher_type: None,
            ipv6_public: None,
            current_connections: Seq::empty(),
        }
    }

    /// The records a `CContentServerDirectory_GetServersForSteamPipe_Request` is written as, in field order.
    pub open spec fn spec_fields(v: SpecCContentServerDirectory_GetServersForSteamPipe_Request) -> Seq<SpecField> {
        Seq::<SpecField>::empty()
            + opt_u32(1, v.cell_id)
            + opt_u32(2, v.max_servers)
            + opt_string(3, v.ip_override)
            + opt_i32(4, v.launcher_type)
            + opt_string(5, v.ipv6_public)
            + rep_bytes(6, crate::steammessages_contentsystem_steamclient::CContentServerDirectory_ConnectedSteamPipeServerInfo::spec_encode_all(v.current_connections))
    }

    #[verifier::opaque]
    pub open spec fn spec_encode(v: SpecCContentServerDirectory_GetServersForSteamPipe_Request) -> Seq<u8> {
        fields_bytes(Self::spec_fields(v))
    }

    /// What one record does to the message: a declared number sets or extends its
    /// field, any other number is left alone.
    pub open spec fn spec_apply(v: SpecCContentServerDirectory_GetServersForSteamPipe_Request, f: SpecField) -> Result<SpecCContentServerDirectory_GetServersForSteamPipe_Request, WireError> {
        match f.number {
            1 => match dec_u32(f.value) {
                Ok(x) => Ok(SpecCContentServerDirectory_GetServersForSteamPipe_Request { cell_id: Some(x), ..v }),
                Err(e) => Err(e),
            },
            2 => match dec_u32(f.value) {
                Ok(x) => Ok(SpecCContentServerDirectory_GetServersForSteamPipe_Request { max_servers: Some(x), ..v }),
                Err(e) => Err(e),
            },
            3 => match dec_string(f.value) {
                Ok(x) => Ok(SpecCContentServerDirectory_GetServersForSteamPipe_Request { ip_override: Some(x), ..v }),
                Err(e) => Err(e),
            },
            4 => match dec_i32(f.value) {
                Ok(x) => Ok(SpecCContentServerDirectory_GetServersForSteamPipe_Request { launcher_type: Some(x), ..v }),
                Err(e) => Err(e),
            },
            5 => match dec_string(f.value) {
                Ok(x) => Ok(SpecCContentServerDirectory_GetServersForSteamPipe_Request { ipv6_public: Some(x), ..v }),
                Err(e) => Err(e),
            },
            6 => match dec_bytes(f.value) {
                Ok(b) => match crate::steammessages_contentsystem_steamclient::CContentServerDirectory_ConnectedSteamPipeServerInfo::spec_decode(b) {
                    Ok(m) => Ok(SpecCContentServerDirectory_GetServersForSteamPipe_Request { current_connections: v.current_connections.push(m), ..v }),
                    Err(e) => Err(e),
                },
                Err(e) => Err(e),
            },
            _ => Ok(v),
        }
    }

    pub open spec fn apply_fn() -> spec_fn(SpecCContentServerDirectory_GetServersForSteamPipe_Request, SpecField) -> Result<SpecCContentServerDirectory_GetServersForSteamPipe_Request, WireError> {
        |v: SpecCContentServerDirectory_GetServersForSteamPipe_Request, f: SpecField| Self::spec_apply(v, f)
    }

    /// The message `bytes` makes of `v`: its records applied in order, or the error
    /// that stops the reading.
    pub open spec fn spec_merge(v: SpecCContentServerDirectory_GetServersForSteamPipe_Request, bytes: Seq<u8>) -> Result<SpecCContentServerDirectory_GetServersForSteamPipe_Request, WireError> {
        let (w, stop) = merge_run(v, bytes, Self::apply_fn());
        match stop {
            None => Ok(w),
            Some(e) => Err(e),
        }
    }

    #[verifier::opaque]
    pub open spec fn spec_decode(bytes: Seq<u8>) -> Result<SpecCContentServerDirectory_GetServersForSteamPipe_Request, WireError> {
        Self::spec_merge(Self::spec_default(), bytes)
    }

    /// This message with one record applied to it, or, when the record is refused,
    /// the message unchanged and the reason.
    fn applied(self, f: &Field) -> (r: Result<Self, (Self, WireError)>)
        ensures
            match Self::spec_apply(self@, f@) {
                Ok(v) => r matches Ok(m) && m@ == v,
                Err(e) => r matches Err((m, x)) && x == e && m@ == self@,
            },
    {
        match f.number {
            1 => match read_u32(&f.value) {
                Ok(x) => Ok(Self { cell_id: Some(x), ..self }),
                Err(e) => Err((self, e)),
            },
            2 => match read_u32(&f.value) {
                Ok(x) => Ok(Self { max_servers: Some(x), ..self }),
                Err(e) => Err((self, e)),
            },
            3 => match read_string(&f.value) {
                Ok(x) => Ok(Self { ip_override: Some(x), ..self }),
                Err(e) => Err((self, e)),
            },
            4 => match read_i32(&f.value) {
                Ok(x) => Ok(Self { launcher_type: Some(x), ..self }),
                Err(e) => Err((self, e)),
            },
            5 => match read_string(&f.value) {
                Ok(x) => Ok(Self { ipv6_public: Some(x), ..self }),
                Err(e) => Err((self, e)),
            },
            6 => match read_payload(&f.value) {
                Ok(b) => match crate::steammessages_contentsystem_steamclient::CContentServerDirectory_ConnectedSteamPipeServerInfo::decode(b) {
                    Ok(x) => {
                        let mut m = self;
                        let ghost before = m.current_connections@;
                        m.current_connections.push(x);
                        assert(crate::steammessages_contentsystem_steamclient::CContentServerDirectory_ConnectedSteamPipeServerInfo::view_all(m.current_connections@) =~= crate::steammessages_contentsystem_steamclient::CContentServerDirectory_ConnectedSteamPipeServerInfo::view_all(before).push(x@));
                        Ok(m)
                    },
                    Err(e) => Err((self, e)),
                },
                Err(e) => Err((self, e)),
            },
            _ => Ok(self),
        }
    }

    /// Reads the records `bytes` holds into this message, in order. When a record does
    /// not parse or is refused, the reading stops there: the message keeps what the
    /// records before it gave, and the error is returned.
    pub fn merge(&mut self, bytes: &[u8]) -> (r: Result<(), WireError>)
        ensures
            final(self)@ == merge_run(old(self)@, bytes@, Self::apply_fn()).0,
            r == match merge_run(old(self)@, bytes@, Self::apply_fn()).1 {
                None => Ok::<(), WireError>(()),
                Some(e) => Err::<(), WireError>(e),
            },
    {
        let ghost total = merge_run(self@, bytes@, Self::apply_fn());
        let mut cur = Self::default();
        std::mem::swap(&mut cur, self);
        let mut pos: usize = 0;
        assert(bytes@.skip(0) =~= bytes@);
        while pos < bytes.len()
            invariant
                pos <= bytes@.len(),
                total == merge_run(old(self)@, bytes@, Self::apply_fn()),
                merge_run(cur@, bytes@.skip(pos as int), Self::apply_fn()) == total,
            decreases bytes@.len() - pos,
        {
            let ghost s = bytes@.skip(pos as int);
            proof {
                lemma_merge_run_step(cur@, s, Self::apply_fn());
                lemma_parse_field_len(s);
            }
            match read_field(bytes, pos) {
                Ok((f, end)) => {
                    assert(bytes@.skip(end as int) =~= s.skip((end - pos) as int));
                    match cur.applied(&f) {
                        Ok(m) => {
                            cur = m;
                        },
                        Err((m, e)) => {
                            *self = m;
                            return Err(e);
                        },
                    }
                    pos = end;
                },
                Err(e) => {
                    *self = cur;
                    return Err(e);
                },
            }
        }
        assert(bytes@.skip(pos as int) =~= Seq::<u8>::empty());
        proof {
            lemma_merge_run_empty(cur@, Self::apply_fn());
        }
        *self = cur;
        Ok(())
    }

    /// Decodes a message from its encoding.
    pub fn decode(bytes: &[u8]) -> (r: Result<Self, WireError>)
        ensures
            match Self::spec_decode(bytes@) {
                Ok(v) => r matches Ok(m) && m@ == v,
                Err(e) => r matches Err(x) && x == e,
            },
    {
        proof {
            reveal(CContentServerDirectory_GetServersForSteamPipe_Request::spec_decode);
        }
        let mut m = Self::default();
        match m.merge(bytes) {
            Ok(()) => Ok(m),
            Err(e) => Err(e),
        }
    }

    /// The encoding of this message.
    pub fn encode_to_vec(&self) -> (r: Vec<u8>)
        ensures
            r@ == Self::spec_encode(self@),
    {
        let enc_current_connections = crate::steammessages_contentsystem_steamclient::CContentServerDirectory_ConnectedSteamPipeServerInfo::encode_all(&self.current_connections);
        let ghost v = self@;
        let mut out: Vec<u8> = Vec::new();
        let ghost p0 = Seq::<SpecField>::empty();
        put_opt_u32(&mut out, 1, self.cell_id);
        let ghost p1 = p0 + opt_u32(1, v.cell_id);
        proof {
            lemma_fields_bytes_concat(p0, opt_u32(1, v.cell_id));
        }
        put_opt_u32(&mut out, 2, self.max_servers);
        let ghost p2 = p1 + opt_u32(2, v.max_servers);
        proof {
            lemma_fields_bytes_concat(p1, opt_u32(2, v.max_servers));
        }
        put_opt_string(&mut out, 3, &self.ip_override);
        let ghost p3 = p2 + opt_string(3, v.ip_override);
        proof {
            lemma_fields_bytes_concat(p2, opt_string(3, v.ip_override));
        }
        put_opt_i32(&mut out, 4, self.launcher_type);
        let ghost p4 = p3 + opt_i32(4, v.launcher_type);
        proof {
            lemma_fields_bytes_concat(p3, opt_i32(4, v.launcher_type));
        }
        put_opt_string(&mut out, 5, &self.ipv6_public);
        let ghost p5 = p4 + opt_string(5, v.ipv6_public);
        proof {
            lemma_fields_bytes_concat(p4, opt_string(5, v.ipv6_public));
        }
        put_rep_bytes(&mut out, 6, &enc_current_connections);
        let ghost p6 = p5 + rep_bytes(6, crate::steammessages_contentsystem_steamclient::CContentServerDirectory_ConnectedSteamPipeServerInfo::spec_encode_all(v.current_connections));
        proof {
            lemma_fields_bytes_concat(p5, rep_bytes(6, crate::steammessages_contentsystem_steamclient::CContentServerDirectory_ConnectedSteamPipeServerInfo::spec_encode_all(v.current_connections)));
        }
        proof {
            reveal(CContentServerDirectory_GetServersForSteamPipe_Request::spec_encode);
        }
        assert(p6 == Self::spec_fields(v));
        out
    }

    /// Appends the encoding of this message to `out`.
    pub fn encode_raw(&self, out: &mut Vec<u8>)
        ensures
            final(out)@ == old(out)@ + Self::spec_encode(self@),
    {
        let mut b = self.encode_to_vec();
        out.append(&mut b);
    }

    /// The first `k` fields of `v`, the others as a fresh message has them.
    #[verifier::opaque]
    pub open spec fn spec_prefix(v: SpecCContentServerDirectory_GetServersForSteamPipe_Request, k: int) -> SpecCContentServerDirectory_GetServersForSteamPipe_Request {
        SpecCContentServerDirectory_GetServersForSteamPipe_Request {
            cell_id: if 1 <= k { v.cell_id } else { None },
            max_servers: if 2 <= k { v.max_servers } else { None },
            ip_override: if 3 <= k { v.ip_override } else { None },
            launcher_type: if 4 <= k { v.launcher_type } else { None },
            ipv6_public: if 5 <= k { v.ipv6_public } else { None },
            current_connections: if 6 <= k { v.current_connections } else { Seq::empty() },
        }
    }

    /// Reading field 1 back, after the fields before it.
    proof fn lemma_field_cell_id(v: SpecCContentServerDirectory_GetServersForSteamPipe_Request)
        ensures
            fold_fields(Self::spec_prefix(v, 0), opt_u32(1, v.cell_id), Self::apply_fn())
                == Ok::<SpecCContentServerDirectory_GetServersForSteamPipe_Request, WireError>(Self::spec_prefix(v, 1)),
    {
        reveal(CContentServerDirectory_GetServersForSteamPipe_Request::spec_prefix);
        reveal(opt_u32);
        let apply = Self::apply_fn();
        let s = Self::spec_prefix(v, 0);
        lemma_fold_opt(s, 1, match v.cell_id { Some(x) => Some(enc_u32(x)), None => None }, apply);
        if let Some(x) = v.cell_id {
            lemma_u32_roundtrip(x);
        }
        assert(SpecCContentServerDirectory_GetServersForSteamPipe_Request { cell_id: v.cell_id, ..s } == Self::spec_prefix(v, 1));
    }

    /// Reading field 2 back, after the fields before it.
    proof fn lemma_field_max_servers(v: SpecCContentServerDirectory_GetServersForSteamPipe_Request)
        ensures
            fold_fields(Self::spec_prefix(v, 1), opt_u32(2, v.max_servers), Self::apply_fn())
                == Ok::<SpecCContentServerDirectory_GetServersForSteamPipe_Request, WireError>(Self::spec_prefix(v, 2)),
    {
        reveal(CContentServerDirectory_GetServersForSteamPipe_Request::spec_prefix);
        reveal(opt_u32);
        let apply = Self::apply_fn();
        let s = Self::spec_prefix(v, 1);
        lemma_fold_opt(s, 2, match v.max_servers { Some(x) => Some(enc_u32(x)), None => None }, apply);
        if let Some(x) = v.max_servers {
            lemma_u32_roundtrip(x);
        }
        assert(SpecCContentServerDirectory_GetServersForSteamPipe_Request { max_servers: v.max_servers, ..s } == Self::spec_prefix(v, 2));
    }

    /// Reading field 3 back, after the fields before it.
    proof fn lemma_field_ip_override(v: SpecCContentServerDirectory_GetServersForSteamPipe_Request)
        ensures
            fold_fields(Self::spec_prefix(v, 2), opt_string(3, v.ip_override), Self::apply_fn())
                == Ok::<SpecCContentServerDirectory_GetServersForSteamPipe_Request, WireError>(Self::spec_prefix(v, 3)),
    {
        reveal(CContentServerDirectory_GetServersForSteamPipe_Request::spec_prefix);
        reveal(opt_string);
        let apply = Self::apply_fn();
        let s = Self::spec_prefix(v, 2);
        lemma_fold_opt(s, 3, match v.ip_override { Some(x) => Some(enc_string(x)), None => None }, apply);
        if let Some(x) = v.ip_override {
            lemma_string_roundtrip(x);
        }
        assert(SpecCContentServerDirectory_GetServersForSteamPipe_Request { ip_override: v.ip_override, ..s } == Self::spec_prefix(v, 3));
    }

    /// Reading field 4 back, after the fields before it.
    proof fn lemma_field_launcher_type(v: SpecCContentServerDirectory_GetServersForSteamPipe_Request)
        ensures
            fold_fields(Self::spec_prefix(v, 3), opt_i32(4, v.launcher_type), Self::apply_fn())
                == Ok::<SpecCContentServerDirectory_GetServersForSteamPipe_Request, WireError>(Self::spec_prefix(v, 4)),
    {
        reveal(CContentServerDirectory_GetServersForSteamPipe_Request::spec_prefix);
        reveal(opt_i32);
        let apply = Self::apply_fn();
        let s = Self::spec_prefix(v, 3);
        lemma_fold_opt(s, 4, match v.launcher_type { Some(x) => Some(enc_i32(x)), None => None }, apply);
        if let Some(x) = v.launcher_type {
            lemma_i32_roundtrip(x);
        }
        assert(SpecCContentServerDirectory_GetServersForSteamPipe_Request { launcher_type: v.launcher_type, ..s } == Self::spec_prefix(v, 4));
    }

    /// Reading field 5 back, after the fields before it.
    proof fn lemma_field_ipv6_public(v: SpecCContentServerDirectory_GetServersForSteamPipe_Request)
        ensures
            fold_fields(Self::spec_prefix(v, 4), opt_string(5, v.ipv6_public), Self::apply_fn())
                == Ok::<SpecCContentServerDirectory_GetServersForSteamPipe_Request, WireError>(Self::spec_prefix(v, 5)),
    {
        reveal(CContentServerDirectory_GetServersForSteamPipe_Request::spec_prefix);
        reveal(opt_string);
        let apply = Self::apply_fn();
        let s = Self::spec_prefix(v, 4);
        lemma_fold_opt(s, 5, match v.ipv6_public { Some(x) => Some(enc_string(x)), None => None }, apply);
        if let Some(x) = v.ipv6_public {
            lemma_string_roundtrip(x);
        }
        assert(SpecCContentServerDirectory_GetServersForSteamPipe_Request { ipv6_public: v.ipv6_public, ..s } == Self::spec_prefix(v, 5));
    }

    /// Reading field 6 back, after the fields before it.
    proof fn lemma_field_current_connections(v: SpecCContentServerDirectory_GetServersForSteamPipe_Request)
        requires
            fields_wf(rep_bytes(6, crate::steammessages_contentsystem_steamclient::CContentServerDirectory_ConnectedSteamPipeServerInfo::spec_encode_all(v.current_connections))),
        ensures
            fold_fields(Self::spec_prefix(v, 5), rep_bytes(6, crate::steammessages_contentsystem_steamclient::CContentServerDirectory_ConnectedSteamPipeServerInfo::spec_encode_all(v.current_connections)), Self::apply_fn())
                == Ok::<SpecCContentServerDirectory_GetServersForSteamPipe_Request, WireError>(Self::spec_prefix(v, 6)),
    {
        reveal(CContentServerDirectory_GetServersForSteamPipe_Request::spec_prefix);
        reveal(rep_bytes);
        reveal(fields_wf);
        let apply = Self::apply_fn();
        let s = Self::spec_prefix(v, 5);
        let l = rep_bytes(6, crate::steammessages_contentsystem_steamclient::CContentServerDirectory_ConnectedSteamPipeServerInfo::spec_encode_all(v.current_connections));
        let xs = v.current_connections;
        let st = Seq::new((xs.len() + 1) as nat, |j: int| SpecCContentServerDirectory_GetServersForSteamPipe_Request { current_connections: xs.take(j), ..s });
        assert forall|j: int| 0 <= j < l.len() implies #[trigger] apply(st[j], l[j]) == Ok::<SpecCContentServerDirectory_GetServersForSteamPipe_Request, WireError>(st[j + 1]) by {
            assert(field_wf(l[j]));
            crate::steammessages_contentsystem_steamclient::CContentServerDirectory_ConnectedSteamPipeServerInfo::lemma_decode_encode(xs[j]);
            assert(xs.take(j).push(xs[j]) =~= xs.take(j + 1));
        }
        lemma_fold_chain(l, st, apply);
        assert(xs.take(0) =~= Seq::<crate::steammessages_contentsystem_steamclient::SpecCContentServerDirectory_ConnectedSteamPipeServerInfo>::empty());
        assert(xs.take(xs.len() as int) =~= xs);
        assert(st[0] == s);
        assert(st[xs.len() as int] == Self::spec_prefix(v, 6));
    }

    /// Whether this message declares field number `n`.
    pub open spec fn declares(n: u32) -> bool {
        n == 1 || n == 2 || n == 3 || n == 4 || n == 5 || n == 6
    }

    /// A record with a number this message does not declare is passed over: well-formed
    /// bytes decode to the same message with such a record after them as without it.
    pub proof fn lemma_unknown_field(bytes: Seq<u8>, f: SpecField)
        requires
            parse_fields(bytes) is Ok,
            field_wf(f),
            !Self::declares(f.number),
        ensures
            Self::spec_decode(bytes + field_bytes(f)) == Self::spec_decode(bytes),
    {
        reveal(CContentServerDirectory_GetServersForSteamPipe_Request::spec_decode);
        lemma_parse_fields_append(bytes, f);
        let fs = parse_fields(bytes).unwrap();
        let apply = Self::apply_fn();
        lemma_fold_concat(Self::spec_default(), fs, seq![f], apply);
        assert(fs.push(f) =~= fs + seq![f]);
        if let Ok(w) = fold_fields(Self::spec_default(), fs, apply) {
            lemma_fold_single(w, f, apply);
        }
        lemma_merge_run_fold(Self::spec_default(), bytes, apply);
        lemma_merge_run_fold(Self::spec_default(), bytes + field_bytes(f), apply);
    }

    /// Decoding the encoding of a message gives the message back.
    pub proof fn lemma_decode_encode(v: SpecCContentServerDirectory_GetServersForSteamPipe_Request)
        requires
            Self::spec_encode(v).len() <= u64::MAX,
        ensures
            Self::spec_decode(Self::spec_encode(v)) == Ok::<SpecCContentServerDirectory_GetServersForSteamPipe_Request, WireError>(v),
    {
        let apply = Self::apply_fn();
        let d = Self::spec_default();
        let p0 = Seq::<SpecField>::empty();
        let l1 = opt_u32(1, v.cell_id);
        let p1 = p0 + l1;
        let l2 = opt_u32(2, v.max_servers);
        let p2 = p1 + l2;
        let l3 = opt_string(3, v.ip_override);
        let p3 = p2 + l3;
        let l4 = opt_i32(4, v.launcher_type);
        let p4 = p3 + l4;
        let l5 = opt_string(5, v.ipv6_public);
        let p5 = p4 + l5;
        let l6 = rep_bytes(6, crate::steammessages_contentsystem_steamclient::CContentServerDirectory_ConnectedSteamPipeServerInfo::spec_encode_all(v.current_connections));
        let p6 = p5 + l6;
        assert(parse_fields(Self::spec_encode(v)) == Ok::<Seq<SpecField>, WireError>(p6) && fields_wf(l6)) by {
            reveal(CContentServerDirectory_GetServersForSteamPipe_Request::spec_encode);
            assert(numbers_ok(p0) && fields_wf(p0)) by {
                reveal(numbers_ok);
                reveal(fields_wf);
            }
            lemma_opt_u32_numbered(1, v.cell_id);
            lemma_fields_wf_concat(p0, l1);
            lemma_opt_u32_numbered(2, v.max_servers);
            lemma_fields_wf_concat(p1, l2);
            lemma_opt_string_numbered(3, v.ip_override);
            lemma_fields_wf_concat(p2, l3);
            lemma_opt_i32_numbered(4, v.launcher_type);
            lemma_fields_wf_concat(p3, l4);
            lemma_opt_string_numbered(5, v.ipv6_public);
            lemma_fields_wf_concat(p4, l5);
            lemma_rep_bytes_numbered(6, crate::steammessages_contentsystem_steamclient::CContentServerDirectory_ConnectedSteamPipeServerInfo::spec_encode_all(v.current_connections));
            lemma_fields_wf_concat(p5, l6);
            assert(p6 == Self::spec_fields(v));
            lemma_fields_wf_from_len(p6);
            lemma_fields_roundtrip(p6);
        }
        assert(Self::spec_prefix(v, 0) == d) by {
            reveal(CContentServerDirectory_GetServersForSteamPipe_Request::spec_prefix);
        }
        lemma_fold_empty(d, apply);
        lemma_fold_concat(d, p0, l1, apply);
        Self::lemma_field_cell_id(v);
        lemma_fold_concat(d, p1, l2, apply);
        Self::lemma_field_max_servers(v);
        lemma_fold_concat(d, p2, l3, apply);
        Self::lemma_field_ip_override(v);
        lemma_fold_concat(d, p3, l4, apply);
        Self::lemma_field_launcher_type(v);
        lemma_fold_concat(d, p4, l5, apply);
        Self::lemma_field_ipv6_public(v);
        lemma_fold_concat(d, p5, l6, apply);
        Self::lemma_field_current_connections(v);
        assert(Self::spec_prefix(v, 6) == v) by {
            reveal(CContentServerDirectory_GetServersForSteamPipe_Request::spec_prefix);
        }
        lemma_merge_run_fold(d, Self::spec_encode(v), apply);
        assert(Self::spec_decode(Self::spec_encode(v)) == Ok::<SpecCContentServerDirectory_GetServersForSteamPipe_Request, WireError>(v)) by {
            reveal(CContentServerDirectory_GetServersForSteamPipe_Request::spec_decode);
        }
    }
}

/// `CContentServerDirectory_ServerInfo`, as Valve's schema declares it.
#[derive(Debug, Clone, PartialEq)]
pub struct CContentServerDirectory_ServerInfo {
    /// Field 1.
    pub type_: Option<String>,
    /// Field 2.
    pub source_id: Option<i32>,
    /// Field 3.
    pub cell_id: Option<i32>,
    /// Field 4.
    pub load: Option<i32>,
    /// Field 5, a `float` carried as its IEEE 754 bit pattern.
    pub weighted_load: Option<u32>,
    /// Field 6.
    pub num_entries_in_client_list: Option<i32>,
    /// Field 7.
    pub steam_china_only: Option<bool>,
    /// Field 8.
    pub host: Option<String>,
    /// Field 9.
    pub vhost: Option<String>,
    /// Field 10.
    pub use_as_proxy: Option<bool>,
    /// Field 11.
    pub proxy_request_path_template: Option<String>,
    /// Field 12.
    pub https_support: Option<String>,
    /// Field 13.
    pub allowed_app_ids: Vec<u32>,
    /// Field 15.
    pub priority_class: Option<u32>,
    /// Field 16.
    pub bypass_proxies_of_type: Vec<String>,
    /// Field 17.
    pub group: Option<String>,
}

/// What a `CContentServerDirectory_ServerInfo` holds, as mathematical values.
#[verifier::ext_equal]
pub struct SpecCContentServerDirectory_ServerInfo {
    pub type_: Option<Seq<char>>,
    pub source_id: Option<i32>,
    pub cell_id: Option<i32>,
    pub load: Option<i32>,
    pub weighted_load: Option<u32>,
    pub num_entries_in_client_list: Option<i32>,
    pub steam_china_only: Option<bool>,
    pub host: Option<Seq<char>>,
    pub vhost: Option<Seq<char>>,
    pub use_as_proxy: Option<bool>,
    pub proxy_request_path_template: Option<Seq<char>>,
    pub https_support: Option<Seq<char>>,
    pub allowed_app_ids: Seq<u32>,
    pub priority_class: Option<u32>,
    pub bypass_proxies_of_type: Seq<Seq<char>>,
    pub group: Option<Seq<char>>,
}

impl View for CContentServerDirectory_ServerInfo {
    type V = SpecCContentServerDirectory_ServerInfo;

    open spec fn view(&self) -> SpecCContentServerDirectory_ServerInfo {
        SpecCContentServerDirectory_ServerInfo {
            type_: opt_string_view(self.type_),
            source_id: self.source_id,
            cell_id: self.cell_id,
            load: self.load,
            weighted_load: self.weighted_load,
            num_entries_in_client_list: self.num_entries_in_client_list,
            steam_china_only: self.steam_china_only,
            host: opt_string_view(self.host),
            vhost: opt_string_view(self.vhost),
            use_as_proxy: self.use_as_proxy,
            proxy_request_path_template: opt_string_view(self.proxy_request_path_template),
            https_support: opt_string_view(self.https_support),
            allowed_app_ids: self.allowed_app_ids@,
            priority_class: self.priority_class,
            bypass_proxies_of_type: strings_view(self.bypass_proxies_of_type@),
            group: opt_string_view(self.group),
        }
    }
}

impl Default for CContentServerDirectory_ServerInfo {
    fn default() -> (r: Self)
        ensures
            r@ == CContentServerDirectory_ServerInfo::spec_default(),
    {
        CContentServerDirectory_ServerInfo {
            type_: None,
            source_id: None,
            cell_id: None,
            load: None,
            weighted_load: None,
            num_entries_in_client_list: None,
            steam_china_only: None,
            host: None,
            vhost: None,
            use_as_proxy: None,
            proxy_request_path_template: None,
            https_support: None,
            allowed_app_ids: Vec::new(),
            priority_class: None,
            bypass_proxies_of_type: Vec::new(),
            group: None,
        }
    }
}

impl CContentServerDirectory_ServerInfo {
    pub open spec fn spec_default() -> SpecCContentServerDirectory_ServerInfo {
        SpecCContentServerDirectory_ServerInfo {
            type_: None,
            source_id: None,
            cell_id: None,
            load: None,
            weighted_load: None,
            num_entries_in_client_list: None,
            steam_china_only: None,
            host: None,
            vhost: None,
            use_as_proxy: None,
            proxy_request_path_template: None,
            https_support: None,
            allowed_app_ids: Seq::empty(),
            priority_class: None,
            bypass_proxies_of_type: Seq::empty(),
            group: None,
        }
    }

    /// The records a `CContentServerDirectory_ServerInfo` is written as, in field order.
    pub open spec fn spec_fields(v: SpecCContentServerDirectory_ServerInfo) -> Seq<SpecField> {
        Seq::<SpecField>::empty()
            + opt_string(1, v.type_)
            + opt_i32(2, v.source_id)
            + opt_i32(3, v.cell_id)
            + opt_i32(4, v.load)
            + opt_fixed32(5, v.weighted_load)
            + opt_i32(6, v.num_entries_in_client_list)
            + opt_bool(7, v.steam_china_only)
            + opt_string(8, v.host)
            + opt_string(9, v.vhost)
            + opt_bool(10, v.use_as_proxy)
            + opt_string(11, v.proxy_request_path_template)
            + opt_string(12, v.https_support)
            + rep_u32(13, v.allowed_app_ids)
            + opt_u32(15, v.priority_class)
            + rep_string(16, v.bypass_proxies_of_type)
            + opt_string(17, v.group)
    }

    #[verifier::opaque]
    pub open spec fn spec_encode(v: SpecCContentServerDirectory_ServerInfo) -> Seq<u8> {
        fields_bytes(Self::spec_fields(v))
    }

    /// What one record does to the message: a declared number sets or extends its
    /// field, any other number is left alone.
    pub open spec fn spec_apply(v: SpecCContentServerDirectory_ServerInfo, f: SpecField) -> Result<SpecCContentServerDirectory_ServerInfo, WireError> {
        match f.number {
            1 => match dec_string(f.value) {
                Ok(x) => Ok(SpecCContentServerDirectory_ServerInfo { type_: Some(x), ..v }),
                Err(e) => Err(e),
            },
            2 => match dec_i32(f.value) {
                Ok(x) => Ok(SpecCContentServerDirectory_ServerInfo { source_id: Some(x), ..v }),
                Err(e) => Err(e),
            },
            3 => match dec_i32(f.value) {
                Ok(x) => Ok(SpecCContentServerDirectory_ServerInfo { cell_id: Some(x), ..v }),
                Err(e) => Err(e),
            },
            4 => match dec_i32(f.value) {
                Ok(x) => Ok(SpecCContentServerDirectory_ServerInfo { load: Some(x), ..v }),
                Err(e) => Err(e),
            },
            5 => match dec_fixed32(f.value) {
                Ok(x) => Ok(SpecCContentServerDirectory_ServerInfo { weighted_load: Some(x), ..v }),
                Err(e) => Err(e),
            },
            6 => match dec_i32(f.value) {
                Ok(x) => Ok(SpecCContentServerDirectory_ServerInfo { num_entries_in_client_list: Some(x), ..v }),
                Err(e) => Err(e),
            },
            7 => match dec_bool(f.value) {
                Ok(x) => Ok(SpecCContentServerDirectory_ServerInfo { steam_china_only: Some(x), ..v }),
                Err(e) => Err(e),
            },
            8 => match dec_string(f.value) {
                Ok(x) => Ok(SpecCContentServerDirectory_ServerInfo { host: Some(x), ..v }),
                Err(e) => Err(e),
            },
            9 => match dec_string(f.value) {
                Ok(x) => Ok(SpecCContentServerDirectory_ServerInfo { vhost: Some(x), ..v }),
                Err(e) => Err(e),
            },
            10 => match dec_bool(f.value) {
                Ok(x) => Ok(SpecCContentServerDirectory_ServerInfo { use_as_proxy: Some(x), ..v }),
                Err(e) => Err(e),
            },
            11 => match dec_string(f.value) {
                Ok(x) => Ok(SpecCContentServerDirectory_ServerInfo { proxy_request_path_template: Some(x), ..v }),
                Err(e) => Err(e),
            },
            12 => match dec_string(f.value) {
                Ok(x) => Ok(SpecCContentServerDirectory_ServerInfo { https_support: Some(x), ..v }),
                Err(e) => Err(e),
            },
            13 => match dec_packed_u32(f.value) {
                Ok(xs) => Ok(SpecCContentServerDirectory_ServerInfo { allowed_app_ids: v.allowed_app_ids + xs, ..v }),
                Err(e) => Err(e),
            },
            15 => match dec_u32(f.value) {
                Ok(x) => Ok(SpecCContentServerDirectory_ServerInfo { priority_class: Some(x), ..v }),
                Err(e) => Err(e),
            },
            16 => match dec_string(f.value) {
                Ok(x) => Ok(SpecCContentServerDirectory_ServerInfo { bypass_proxies_of_type: v.bypass_proxies_of_type.push(x), ..v }),
                Err(e) => Err(e),
            },
            17 => match dec_string(f.value) {
                Ok(x) => Ok(SpecCContentServerDirectory_ServerInfo { group: Some(x), ..v }),
                Err(e) => Err(e),
            },
            _ => Ok(v),
        }
    }

    pub open spec fn apply_fn() -> spec_fn(SpecCContentServerDirectory_ServerInfo, SpecField) -> Result<SpecCContentServerDirectory_ServerInfo, WireError> {
        |v: SpecCContentServerDirectory_ServerInfo, f: SpecField| Self::spec_apply(v, f)
    }

    /// The message `bytes` makes of `v`: its records applied in order, or the error
    /// that stops the reading.
    pub open spec fn spec_merge(v: SpecCContentServerDirectory_ServerInfo, bytes: Seq<u8>) -> Result<SpecCContentServerDirectory_ServerInfo, WireError> {
        let (w, stop) = merge_run(v, bytes, Self::apply_fn());
        match stop {
            None => Ok(w),
            Some(e) => Err(e),
        }
    }

    #[verifier::opaque]
    pub open spec fn spec_decode(bytes: Seq<u8>) -> Result<SpecCContentServerDirectory_ServerInfo, WireError> {
        Self::spec_merge(Self::spec_default(), bytes)
    }

    pub open spec fn view_all(xs: Seq<CContentServerDirectory_ServerInfo>) -> Seq<SpecCContentServerDirectory_ServerInfo> {
        xs.map_values(|m: CContentServerDirectory_ServerInfo| m@)
    }

    pub open spec fn view_opt(o: Option<CContentServerDirectory_ServerInfo>) -> Option<SpecCContentServerDirectory_ServerInfo> {
        match o {
            Some(m) => Some(m@),
            None => None,
        }
    }

    pub open spec fn spec_encode_all(xs: Seq<SpecCContentServerDirectory_ServerInfo>) -> Seq<Seq<u8>> {
        xs.map_values(|m: SpecCContentServerDirectory_ServerInfo| Self::spec_encode(m))
    }

    pub open spec fn spec_encode_opt(o: Option<SpecCContentServerDirectory_ServerInfo>) -> Option<Seq<u8>> {
        match o {
            Some(m) => Some(Self::spec_encode(m)),
            None => None,
        }
    }

    /// The encoding of each element.
    pub fn encode_all(xs: &Vec<CContentServerDirectory_ServerInfo>) -> (r: Vec<Vec<u8>>)
        ensures
            bytes_seq_view(r@) == Self::spec_encode_all(Self::view_all(xs@)),
    {
        let mut out: Vec<Vec<u8>> = Vec::new();
        let mut i: usize = 0;
        while i < xs.len()
            invariant
                i <= xs@.len(),
                out@.len() == i,
                forall|j: int| 0 <= j < i ==> #[trigger] out@[j]@ == Self::spec_encode(xs@[j]@),
            decreases xs@.len() - i,
        {
            let e = xs[i].encode_to_vec();
            out.push(e);
            i = i + 1;
        }
        assert(bytes_seq_view(out@) =~= Self::spec_encode_all(Self::view_all(xs@)));
        out
    }

    /// The encoding of the element, when there is one.
    pub fn encode_opt(o: &Option<CContentServerDirectory_ServerInfo>) -> (r: Option<Vec<u8>>)
        ensures
            opt_bytes_view(r) == Self::spec_encode_opt(Self::view_opt(*o)),
    {
        match o {
            Some(m) => Some(m.encode_to_vec()),
            None => None,
        }
    }

    /// This message with one record applied to it, or, when the record is refused,
    /// the message unchanged and the reason.
    fn applied(self, f: &Field) -> (r: Result<Self, (Self, WireError)>)
        ensures
            match Self::spec_apply(self@, f@) {
                Ok(v) => r matches Ok(m) && m@ == v,
                Err(e) => r matches Err((m, x)) && x == e && m@ == self@,
            },
    {
        if f.number <= 6 {
            self.applied_0(f)
        } else if f.number <= 12 {
            self.applied_1(f)
        } else {
            self.applied_2(f)
        }
    }

    /// `applied`, for the records numbered up to 6.
    fn applied_0(self, f: &Field) -> (r: Result<Self, (Self, WireError)>)
        requires
            f.number <= 6,
        ensures
            match Self::spec_apply(self@, f@) {
                Ok(v) => r matches Ok(m) && m@ == v,
                Err(e) => r matches Err((m, x)) && x == e && m@ == self@,
            },
    {
        match f.number {
            1 => match read_string(&f.value) {
                Ok(x) => Ok(Self { type_: Some(x), ..self }),
                Err(e) => Err((self, e)),
            },
            2 => match read_i32(&f.value) {
                Ok(x) => Ok(Self { source_id: Some(x), ..self }),
                Err(e) => Err((self, e)),
            },
            3 => match read_i32(&f.value) {
                Ok(x) => Ok(Self { cell_id: Some(x), ..self }),
                Err(e) => Err((self, e)),
            },
            4 => match read_i32(&f.value) {
                Ok(x) => Ok(Self { load: Some(x), ..self }),
                Err(e) => Err((self, e)),
            },
            5 => match read_fixed32(&f.value) {
                Ok(x) => Ok(Self { weighted_load: Some(x), ..self }),
                Err(e) => Err((self, e)),
            },
            6 => match read_i32(&f.value) {
                Ok(x) => Ok(Self { num_entries_in_client_list: Some(x), ..self }),
                Err(e) => Err((self, e)),
            },
            _ => Ok(self),
        }
    }

    /// `applied`, for the records numbered from 7 to 12.
    fn applied_1(self, f: &Field) -> (r: Result<Self, (Self, WireError)>)
        requires
            6 < f.number,
            f.number <= 12,
        ensures
            match Self::spec_apply(self@, f@) {
                Ok(v) => r matches Ok(m) && m@ == v,
                Err(e) => r matches Err((m, x)) && x == e && m@ == self@,
            },
    {
        match f.number {
            7 => match read_bool(&f.value) {
                Ok(x) => Ok(Self { steam_china_only: Some(x), ..self }),
                Err(e) => Err((self, e)),
            },
            8 => match read_string(&f.value) {
                Ok(x) => Ok(Self { host: Some(x), ..self }),
                Err(e) => Err((self, e)),
            },
            9 => match read_string(&f.value) {
                Ok(x) => Ok(Self { vhost: Some(x), ..self }),
                Err(e) => Err((self, e)),
            },
            10 => match read_bool(&f.value) {
                Ok(x) => Ok(Self { use_as_proxy: Some(x), ..self }),
                Err(e) => Err((self, e)),
            },
            11 => match read_string(&f.value) {
                Ok(x) => Ok(Self { proxy_request_path_template: Some(x), ..self }),
                Err(e) => Err((self, e)),
            },
            12 => match read_string(&f.value) {
                Ok(x) => Ok(Self { https_support: Some(x), ..self }),
                Err(e) => Err((self, e)),
            },
            _ => Ok(self),
        }
    }

    /// `applied`, for the records numbered above 12.
    fn applied_2(self, f: &Field) -> (r: Result<Self, (Self, WireError)>)
        requires
            12 < f.number,
        ensures
            match Self::spec_apply(self@, f@) {
                Ok(v) => r matches Ok(m) && m@ == v,
                Err(e) => r matches Err((m, x)) && x == e && m@ == self@,
            },
    {
        match f.number {
            13 => match read_packed_u32(&f.value) {
                Ok(xs) => {
                    let mut m = self;
                    let mut xs = xs;
                    m.allowed_app_ids.append(&mut xs);
                    Ok(m)
                },
                Err(e) => Err((self, e)),
            },
            15 => match read_u32(&f.value) {
                Ok(x) => Ok(Self { priority_class: Some(x), ..self }),
                Err(e) => Err((self, e)),
            },
            16 => match read_string(&f.value) {
                Ok(x) => {
                    let mut m = self;
                    let ghost before = m.bypass_proxies_of_type@;
                    m.bypass_proxies_of_type.push(x);
                    assert(strings_view(m.bypass_proxies_of_type@) =~= strings_view(before).push(x@));
                    Ok(m)
                },
                Err(e) => Err((self, e)),
            },
            17 => match read_string(&f.value) {
                Ok(x) => Ok(Self { group: Some(x), ..self }),
                Err(e) => Err((self, e)),
            },
            _ => Ok(self),
        }
    }

    /// Reads the records `bytes` holds into this message, in order. When a record does
    /// not parse or is refused, the reading stops there: the message keeps what the
    /// records before it gave, and the error is returned.
    pub fn merge(&mut self, bytes: &[u8]) -> (r: Result<(), WireError>)
        ensures
            final(self)@ == merge_run(old(self)@, bytes@, Self::apply_fn()).0,
            r == match merge_run(old(self)@, bytes@, Self::apply_fn()).1 {
                None => Ok::<(), WireError>(()),
                Some(e) => Err::<(), WireError>(e),
            },
    {
        let ghost total = merge_run(self@, bytes@, Self::apply_fn());
        let mut cur = Self::default();
        std::mem::swap(&mut cur, self);
        let mut pos: usize = 0;
        assert(bytes@.skip(0) =~= bytes@);
        while pos < bytes.len()
            invariant
                pos <= bytes@.len(),
                total == merge_run(old(self)@, bytes@, Self::apply_fn()),
                merge_run(cur@, bytes@.skip(pos as int), Self::apply_fn()) == total,
            decreases bytes@.len() - pos,
        {
            let ghost s = bytes@.skip(pos as int);
            proof {
                lemma_merge_run_step(cur@, s, Self::apply_fn());
                lemma_parse_field_len(s);
            }
            match read_field(bytes, pos) {
                Ok((f, end)) => {
                    assert(bytes@.skip(end as int) =~= s.skip((end - pos) as int));
                    match cur.applied(&f) {
                        Ok(m) => {
                            cur = m;
                        },
                        Err((m, e)) => {
                            *self = m;
                            return Err(e);
                        },
                    }
                    pos = end;
                },
                Err(e) => {
                    *self = cur;
                    return Err(e);
                },
            }
        }
        assert(bytes@.skip(pos as int) =~= Seq::<u8>::empty());
        proof {
            lemma_merge_run_empty(cur@, Self::apply_fn());
        }
        *self = cur;
        Ok(())
    }

    /// Decodes a message from its encoding.
    pub fn decode(bytes: &[u8]) -> (r: Result<Self, WireError>)
        ensures
            match Self::spec_decode(bytes@) {
                Ok(v) => r matches Ok(m) && m@ == v,
                Err(e) => r matches Err(x) && x == e,
            },
    {
        proof {
            reveal(CContentServerDirectory_ServerInfo::spec_decode);
        }
        let mut m = Self::default();
        match m.merge(bytes) {
            Ok(()) => Ok(m),
            Err(e) => Err(e),
        }
    }

    /// The encoding of this message.
    pub fn encode_to_vec(&self) -> (r: Vec<u8>)
        ensures
            r@ == Self::spec_encode(self@),
    {
        let ghost v = self@;
        let mut out: Vec<u8> = Vec::new();
        let ghost p0 = Seq::<SpecField>::empty();
        put_opt_string(&mut out, 1, &self.type_);
        let ghost p1 = p0 + opt_string(1, v.type_);
        proof {
            lemma_fields_bytes_concat(p0, opt_string(1, v.type_));
        }
        put_opt_i32(&mut out, 2, self.source_id);
        let ghost p2 = p1 + opt_i32(2, v.source_id);
        proof {
            lemma_fields_bytes_concat(p1, opt_i32(2, v.source_id));
        }
        put_opt_i32(&mut out, 3, self.cell_id);
        let ghost p3 = p2 + opt_i32(3, v.cell_id);
        proof {
            lemma_fields_bytes_concat(p2, opt_i32(3, v.cell_id));
        }
        put_opt_i32(&mut out, 4, self.load);
        let ghost p4 = p3 + opt_i32(4, v.load);
        proof {
            lemma_fields_bytes_concat(p3, opt_i32(4, v.load));
        }
        put_opt_fixed32(&mut out, 5, self.weighted_load);
        let ghost p5 = p4 + opt_fixed32(5, v.weighted_load);
        proof {
            lemma_fields_bytes_concat(p4, opt_fixed32(5, v.weighted_load));
        }
        put_opt_i32(&mut out, 6, self.num_entries_in_client_list);
        let ghost p6 = p5 + opt_i32(6, v.num_entries_in_client_list);
        proof {
            lemma_fields_bytes_concat(p5, opt_i32(6, v.num_entries_in_client_list));
        }
        put_opt_bool(&mut out, 7, self.steam_china_only);
        let ghost p7 = p6 + opt_bool(7, v.steam_china_only);
        proof {
            lemma_fields_bytes_concat(p6, opt_bool(7, v.steam_china_only));
        }
        put_opt_string(&mut out, 8, &self.host);
        let ghost p8 = p7 + opt_string(8, v.host);
        proof {
            lemma_fields_bytes_concat(p7, opt_string(8, v.host));
        }
        put_opt_string(&mut out, 9, &self.vhost);
        let ghost p9 = p8 + opt_string(9, v.vhost);
        proof {
            lemma_fields_bytes_concat(p8, opt_string(9, v.vhost));
        }
        put_opt_bool(&mut out, 10, self.use_as_proxy);
        let ghost p10 = p9 + opt_bool(10, v.use_as_proxy);
        proof {
            lemma_fields_bytes_concat(p9, opt_bool(10, v.use_as_proxy));
        }
        put_opt_string(&mut out, 11, &self.proxy_request_path_template);
        let ghost p11 = p10 + opt_string(11, v.proxy_request_path_template);
        proof {
            lemma_fields_bytes_concat(p10, opt_string(11, v.proxy_request_path_template));
        }
        put_opt_string(&mut out, 12, &self.https_support);
        let ghost p12 = p11 + opt_string(12, v.https_support);
        proof {
            lemma_fields_bytes_concat(p11, opt_string(12, v.https_support));
        }
        put_rep_u32(&mut out, 13, &self.allowed_app_ids);
        let ghost p13 = p12 + rep_u32(13, v.allowed_app_ids);
        proof {
            lemma_fields_bytes_concat(p12, rep_u32(13, v.allowed_app_ids));
        }
        put_opt_u32(&mut out, 15, self.priority_class);
        let ghost p14 = p13 + opt_u32(15, v.priority_class);
        proof {
            lemma_fields_bytes_concat(p13, opt_u32(15, v.priority_class));
        }
        put_rep_string(&mut out, 16, &self.bypass_proxies_of_type);
        let ghost p15 = p14 + rep_string(16, v.bypass_proxies_of_type);
        proof {
            lemma_fields_bytes_concat(p14, rep_string(16, v.bypass_proxies_of_type));
        }
        put_opt_string(&mut out, 17, &self.group);
        let ghost p16 = p15 + opt_string(17, v.group);
        proof {
            lemma_fields_bytes_concat(p15, opt_string(17, v.group));
        }
        proof {
            reveal(CContentServerDirectory_ServerInfo::spec_encode);
        }
        assert(p16 == Self::spec_fields(v));
        out
    }

    /// Appends the encoding of this message to `out`.
    pub fn encode_raw(&self, out: &mut Vec<u8>)
        ensures
            final(out)@ == old(out)@ + Self::spec_encode(self@),
    {
        let mut b = self.encode_to_vec();
        out.append(&mut b);
    }

    /// The first `k` fields of `v`, the others as a fresh message has them.
    #[verifier::opaque]
    pub open spec fn spec_prefix(v: SpecCContentServerDirectory_ServerInfo, k: int) -> SpecCContentServerDirectory_ServerInfo {
        SpecCContentServerDirectory_ServerInfo {
            type_: if 1 <= k { v.type_ } else { None },
            source_id: if 2 <= k { v.source_id } else { None },
            cell_id: if 3 <= k { v.cell_id } else { None },
            load: if 4 <= k { v.load } else { None },
            weighted_load: if 5 <= k { v.weighted_load } else { None },
            num_entries_in_client_list: if 6 <= k { v.num_entries_in_client_list } else { None },
            steam_china_only: if 7 <= k { v.steam_china_only } else { None },
            host: if 8 <= k { v.host } else { None },
            vhost: if 9 <= k { v.vhost } else { None },
            use_as_proxy: if 10 <= k { v.use_as_proxy } else { None },
            proxy_request_path_template: if 11 <= k { v.proxy_request_path_template } else { None },
            https_support: if 12 <= k { v.https_support } else { None },
            allowed_app_ids: if 13 <= k { v.allowed_app_ids } else { Seq::empty() },
            priority_class: if 14 <= k { v.priority_class } else { None },
            bypass_proxies_of_type: if 15 <= k { v.bypass_proxies_of_type } else { Seq::empty() },
            group: if 16 <= k { v.group } else { None },
        }
    }

    /// Reading field 1 back, after the fields before it.
    proof fn lemma_field_type(v: SpecCContentServerDirectory_ServerInfo)
        ensures
            fold_fields(Self::spec_prefix(v, 0), opt_string(1, v.type_), Self::apply_fn())
                == Ok::<SpecCContentServerDirectory_ServerInfo, WireError>(Self::spec_prefix(v, 1)),
    {
        reveal(CContentServerDirectory_ServerInfo::spec_prefix);
        reveal(opt_string);
        let apply = Self::apply_fn();
        let s = Self::spec_prefix(v, 0);
        lemma_fold_opt(s, 1, match v.type_ { Some(x) => Some(enc_string(x)), None => None }, apply);
        if let Some(x) = v.type_ {
            lemma_string_roundtrip(x);
        }
        assert(SpecCContentServerDirectory_ServerInfo { type_: v.type_, ..s } == Self::spec_prefix(v, 1));
    }

    /// Reading field 2 back, after the fields before it.
    proof fn lemma_field_source_id(v: SpecCContentServerDirectory_ServerInfo)
        ensures
            fold_fields(Self::spec_prefix(v, 1), opt_i32(2, v.source_id), Self::apply_fn())
                == Ok::<SpecCContentServerDirectory_ServerInfo, WireError>(Self::spec_prefix(v, 2)),
    {
        reveal(CContentServerDirectory_ServerInfo::spec_prefix);
        reveal(opt_i32);
        let apply = Self::apply_fn();
        let s = Self::spec_prefix(v, 1);
        lemma_fold_opt(s, 2, match v.source_id { Some(x) => Some(enc_i32(x)), None => None }, apply);
        if let Some(x) = v.source_id {
            lemma_i32_roundtrip(x);
        }
        assert(SpecCContentServerDirectory_ServerInfo { source_id: v.source_id, ..s } == Self::spec_prefix(v, 2));
    }

    /// Reading field 3 back, after the fields before it.
    proof fn lemma_field_cell_id(v: SpecCContentServerDirectory_ServerInfo)
        ensures
            fold_fields(Self::spec_prefix(v, 2), opt_i32(3, v.cell_id), Self::apply_fn())
                == Ok::<SpecCContentServerDirectory_ServerInfo, WireError>(Self::spec_prefix(v, 3)),
    {
        reveal(CContentServerDirectory_ServerInfo::spec_prefix);
        reveal(opt_i32);
        let apply = Self::apply_fn();
        let s = Self::spec_prefix(v, 2);
        lemma_fold_opt(s, 3, match v.cell_id { Some(x) => Some(enc_i32(x)), None => None }, apply);
        if let Some(x) = v.cell_id {
            lemma_i32_roundtrip(x);
        }
        assert(SpecCContentServerDirectory_ServerInfo { cell_id: v.cell_id, ..s } == Self::spec_prefix(v, 3));
    }

    /// Reading field 4 back, after the fields before it.
    proof fn lemma_field_load(v: SpecCContentServerDirectory_ServerInfo)
        ensures
            fold_fields(Self::spec_prefix(v, 3), opt_i32(4, v.load), Self::apply_fn())
                == Ok::<SpecCContentServerDirectory_ServerInfo, WireError>(Self::spec_prefix(v, 4)),
    {
        reveal(CContentServerDirectory_ServerInfo::spec_prefix);
        reveal(opt_i32);
        let apply = Self::apply_fn();
        let s = Self::spec_prefix(v, 3);
        lemma_fold_opt(s, 4, match v.load { Some(x) => Some(enc_i32(x)), None => None }, apply);
        if let Some(x) = v.load {
            lemma_i32_roundtrip(x);
        }
        assert(SpecCContentServerDirectory_ServerInfo { load: v.load, ..s } == Self::spec_prefix(v, 4));
    }

    /// Reading field 5 back, after the fields before it.
    proof fn lemma_field_weighted_load(v: SpecCContentServerDirectory_ServerInfo)
        ensures
            fold_fields(Self::spec_prefix(v, 4), opt_fixed32(5, v.weighted_load), Self::apply_fn())
                == Ok::<SpecCContentServerDirectory_ServerInfo, WireError>(Self::spec_prefix(v, 5)),
    {
        reveal(CContentServerDirectory_ServerInfo::spec_prefix);
        reveal(opt_fixed32);
        let apply = Self::apply_fn();
        let s = Self::spec_prefix(v, 4);
        lemma_fold_opt(s, 5, match v.weighted_load { Some(x) => Some(enc_fixed32(x)), None => None }, apply);
        assert(SpecCContentServerDirectory_ServerInfo { weighted_load: v.weighted_load, ..s } == Self::spec_prefix(v, 5));
    }

    /// Reading field 6 back, after the fields before it.
    proof fn lemma_field_num_entries_in_client_list(v: SpecCContentServerDirectory_ServerInfo)
        ensures
            fold_fields(Self::spec_prefix(v, 5), opt_i32(6, v.num_entries_in_client_list), Self::apply_fn())
                == Ok::<SpecCContentServerDirectory_ServerInfo, WireError>(Self::spec_prefix(v, 6)),
    {
        reveal(CContentServerDirectory_ServerInfo::spec_prefix);
        reveal(opt_i32);
        let apply = Self::apply_fn();
        let s = Self::spec_prefix(v, 5);
        lemma_fold_opt(s, 6, match v.num_entries_in_client_list { Some(x) => Some(enc_i32(x)), None => None }, apply);
        if let Some(x) = v.num_entries_in_client_list {
            lemma_i32_roundtrip(x);
        }
        assert(SpecCContentServerDirectory_ServerInfo { num_entries_in_client_list: v.num_entries_in_client_list, ..s } == Self::spec_prefix(v, 6));
    }

    /// Reading field 7 back, after the fields before it.
    proof fn lemma_field_steam_china_only(v: SpecCContentServerDirectory_ServerInfo)
        ensures
            fold_fields(Self::spec_prefix(v, 6), opt_bool(7, v.steam_china_only), Self::apply_fn())
                == Ok::<SpecCContentServerDirectory_ServerInfo, WireError>(Self::spec_prefix(v, 7)),
    {
        reveal(CContentServerDirectory_ServerInfo::spec_prefix);
        reveal(opt_bool);
        let apply = Self::apply_fn();
        let s = Self::spec_prefix(v, 6);
        lemma_fold_opt(s, 7, match v.steam_china_only { Some(x) => Some(enc_bool(x)), None => None }, apply);
        assert(SpecCContentServerDirectory_ServerInfo { steam_china_only: v.steam_china_only, ..s } == Self::spec_prefix(v, 7));
    }

    /// Reading field 8 back, after the fields before it.
    proof fn lemma_field_host(v: SpecCContentServerDirectory_ServerInfo)
        ensures
            fold_fields(Self::spec_prefix(v, 7), opt_string(8, v.host), Self::apply_fn())
                == Ok::<SpecCContentServerDirectory_ServerInfo, WireError>(Self::spec_prefix(v, 8)),
    {
        reveal(CContentServerDirectory_ServerInfo::spec_prefix);
        reveal(opt_string);
        let apply = Self::apply_fn();
        let s = Self::spec_prefix(v, 7);
        lemma_fold_opt(s, 8, match v.host { Some(x) => Some(enc_string(x)), None => None }, apply);
        if let Some(x) = v.host {
            lemma_string_roundtrip(x);
        }
        assert(SpecCContentServerDirectory_ServerInfo { host: v.host, ..s } == Self::spec_prefix(v, 8));
    }

    /// Reading field 9 back, after the fields before it.
    proof fn lemma_field_vhost(v: SpecCContentServerDirectory_ServerInfo)
        ensures
            fold_fields(Self::spec_prefix(v, 8), opt_string(9, v.vhost), Self::apply_fn())
                == Ok::<SpecCContentServerDirectory_ServerInfo, WireError>(Self::spec_prefix(v, 9)),
    {
        reveal(CContentServerDirectory_ServerInfo::spec_prefix);
        reveal(opt_string);
        let apply = Self::apply_fn();
        let s = Self::spec_prefix(v, 8);
        lemma_fold_opt(s, 9, match v.vhost { Some(x) => Some(enc_string(x)), None => None }, apply);
        if let Some(x) = v.vhost {
            lemma_string_roundtrip(x);
        }
        assert(SpecCContentServerDirectory_ServerInfo { vhost: v.vhost, ..s } == Self::spec_prefix(v, 9));
    }

    /// Reading field 10 back, after the fields before it.
    proof fn lemma_field_use_as_proxy(v: SpecCContentServerDirectory_ServerInfo)
        ensures
            fold_fields(Self::spec_prefix(v, 9), opt_bool(10, v.use_as_proxy), Self::apply_fn())
                == Ok::<SpecCContentServerDirectory_ServerInfo, WireError>(Self::spec_prefix(v, 10)),
    {
        reveal(CContentServerDirectory_ServerInfo::spec_prefix);
        reveal(opt_bool);
        let apply = Self::apply_fn();
        let s = Self::spec_prefix(v, 9);
        lemma_fold_opt(s, 10, match v.use_as_proxy { Some(x) => Some(enc_bool(x)), None => None }, apply);
        assert(SpecCContentServerDirectory_ServerInfo { use_as_proxy: v.use_as_proxy, ..s } == Self::spec_prefix(v, 10));
    }

    /// Reading field 11 back, after the fields before it.
    proof fn lemma_field_proxy_request_path_template(v: SpecCContentServerDirectory_ServerInfo)
        ensures
            fold_fields(Self::spec_prefix(v, 10), opt_string(11, v.proxy_request_path_template), Self::apply_fn())
                == Ok::<SpecCContentServerDirectory_ServerInfo, WireError>(Self::spec_prefix(v, 11)),
    {
        reveal(CContentServerDirectory_ServerInfo::spec_prefix);
        reveal(opt_string);
        let apply = Self::apply_fn();
        let s = Self::spec_prefix(v, 10);
        lemma_fold_opt(s, 11, match v.proxy_request_path_template { Some(x) => Some(enc_string(x)), None => None }, apply);
        if let Some(x) = v.proxy_request_path_template {
            lemma_string_roundtrip(x);
        }
        assert(SpecCContentServerDirectory_ServerInfo { proxy_request_path_template: v.proxy_request_path_template, ..s } == Self::spec_prefix(v, 11));
    }

    /// Reading field 12 back, after the fields before it.
    proof fn lemma_field_https_support(v: SpecCContentServerDirectory_ServerInfo)
        ensures
            fold_fields(Self::spec_prefix(v, 11), opt_string(12, v.https_support), Self::apply_fn())
                == Ok::<SpecCContentServerDirectory_ServerInfo, WireError>(Self::spec_prefix(v, 12)),
    {
        reveal(CContentServerDirectory_ServerInfo::spec_prefix);
        reveal(opt_string);
        let apply = Self::apply_fn();
        let s = Self::spec_prefix(v, 11);
        lemma_fold_opt(s, 12, match v.https_support { Some(x) => Some(enc_string(x)), None => None }, apply);
        if let Some(x) = v.https_support {
            lemma_string_roundtrip(x);
        }
        assert(SpecCContentServerDirectory_ServerInfo { https_support: v.https_support, ..s } == Self::spec_prefix(v, 12));
    }

    /// Reading field 13 back, after the fields before it.
    proof fn lemma_field_allowed_app_ids(v: SpecCContentServerDirectory_ServerInfo)
        ensures
            fold_fields(Self::spec_prefix(v, 12), rep_u32(13, v.allowed_app_ids), Self::apply_fn())
                == Ok::<SpecCContentServerDirectory_ServerInfo, WireError>(Self::spec_prefix(v, 13)),
    {
        reveal(CContentServerDirectory_ServerInfo::spec_prefix);
        reveal(rep_u32);
        let apply = Self::apply_fn();
        let s = Self::spec_prefix(v, 12);
        let l = rep_u32(13, v.allowed_app_ids);
        let xs = v.allowed_app_ids;
        let st = Seq::new((xs.len() + 1) as nat, |j: int| SpecCContentServerDirectory_ServerInfo { allowed_app_ids: xs.take(j), ..s });
        assert forall|j: int| 0 <= j < l.len() implies #[trigger] apply(st[j], l[j]) == Ok::<SpecCContentServerDirectory_ServerInfo, WireError>(st[j + 1]) by {
            lemma_u32_roundtrip(xs[j]);
            assert(xs.take(j) + seq![xs[j]] =~= xs.take(j + 1));
        }
        lemma_fold_chain(l, st, apply);
        assert(xs.take(0) =~= Seq::<u32>::empty());
        assert(xs.take(xs.len() as int) =~= xs);
        assert(st[0] == s);
        assert(st[xs.len() as int] == Self::spec_prefix(v, 13));
    }

    /// Reading field 15 back, after the fields before it.
    proof fn lemma_field_priority_class(v: SpecCContentServerDirectory_ServerInfo)
        ensures
            fold_fields(Self::spec_prefix(v, 13), opt_u32(15, v.priority_class), Self::apply_fn())
                == Ok::<SpecCContentServerDirectory_ServerInfo, WireError>(Self::spec_prefix(v, 14)),
    {
        reveal(CContentServerDirectory_ServerInfo::spec_prefix);
        reveal(opt_u32);
        let apply = Self::apply_fn();
        let s = Self::spec_prefix(v, 13);
        lemma_fold_opt(s, 15, match v.priority_class { Some(x) => Some(enc_u32(x)), None => None }, apply);
        if let Some(x) = v.priority_class {
            lemma_u32_roundtrip(x);
        }
        assert(SpecCContentServerDirectory_ServerInfo { priority_class: v.priority_class, ..s } == Self::spec_prefix(v, 14));
    }

    /// Reading field 16 back, after the fields before it.
    proof fn lemma_field_bypass_proxies_of_type(v: SpecCContentServerDirectory_ServerInfo)
        ensures
            fold_fields(Self::spec_prefix(v, 14), rep_string(16, v.bypass_proxies_of_type), Self::apply_fn())
                == Ok::<SpecCContentServerDirectory_ServerInfo, WireError>(Self::spec_prefix(v, 15)),
    {
        reveal(CContentServerDirectory_ServerInfo::spec_prefix);
        reveal(rep_string);
        let apply = Self::apply_fn();
        let s = Self::spec_prefix(v, 14);
        let l = rep_string(16, v.bypass_proxies_of_type);
        let xs = v.bypass_proxies_of_type;
        let st = Seq::new((xs.len() + 1) as nat, |j: int| SpecCContentServerDirectory_ServerInfo { bypass_proxies_of_type: xs.take(j), ..s });
        assert forall|j: int| 0 <= j < l.len() implies #[trigger] apply(st[j], l[j]) == Ok::<SpecCContentServerDirectory_ServerInfo, WireError>(st[j + 1]) by {
            lemma_string_roundtrip(xs[j]);
            assert(xs.take(j).push(xs[j]) =~= xs.take(j + 1));
        }
        lemma_fold_chain(l, st, apply);
        assert(xs.take(0) =~= Seq::<Seq<char>>::empty());
        assert(xs.take(xs.len() as int) =~= xs);
        assert(st[0] == s);
        assert(st[xs.len() as int] == Self::spec_prefix(v, 15));
    }

    /// Reading field 17 back, after the fields before it.
    proof fn lemma_field_group(v: SpecCContentServerDirectory_ServerInfo)
        ensures
            fold_fields(Self::spec_prefix(v, 15), opt_string(17, v.group), Self::apply_fn())
                == Ok::<SpecCContentServerDirectory_ServerInfo, WireError>(Self::spec_prefix(v, 16)),
    {
        reveal(CContentServerDirectory_ServerInfo::spec_prefix);
        reveal(opt_string);
        let apply = Self::apply_fn();
        let s = Self::spec_prefix(v, 15);
        lemma_fold_opt(s, 17, match v.group { Some(x) => Some(enc_string(x)), None => None }, apply);
        if let Some(x) = v.group {
            lemma_string_roundtrip(x);
        }
        assert(SpecCContentServerDirectory_ServerInfo { group: v.group, ..s } == Self::spec_prefix(v, 16));
    }

    /// Whether this message declares field number `n`.
    pub open spec fn declares(n: u32) -> bool {
        n == 1 || n == 2 || n == 3 || n == 4 || n == 5 || n == 6 || n == 7 || n == 8 || n == 9 || n == 10 || n == 11 || n == 12 || n == 13 || n == 15 || n == 16 || n == 17
    }

    /// A record with a number this message does not declare is passed over: well-formed
    /// bytes decode to the same message with such a record after them as without it.
    pub proof fn lemma_unknown_field(bytes: Seq<u8>, f: SpecField)
        requires
            parse_fields(bytes) is Ok,
            field_wf(f),
            !Self::declares(f.number),
        ensures
            Self::spec_decode(bytes + field_bytes(f)) == Self::spec_decode(bytes),
    {
        reveal(CContentServerDirectory_ServerInfo::spec_decode);
        lemma_parse_fields_append(bytes, f);
        let fs = parse_fields(bytes).unwrap();
        let apply = Self::apply_fn();
        lemma_fold_concat(Self::spec_default(), fs, seq![f], apply);
        assert(fs.push(f) =~= fs + seq![f]);
        if let Ok(w) = fold_fields(Self::spec_default(), fs, apply) {
            lemma_fold_single(w, f, apply);
        }
        lemma_merge_run_fold(Self::spec_default(), bytes, apply);
        lemma_merge_run_fold(Self::spec_default(), bytes + field_bytes(f), apply);
    }

    /// Decoding the encoding of a message gives the message back.
    pub proof fn lemma_decode_encode(v: SpecCContentServerDirectory_ServerInfo)
        requires
            Self::spec_encode(v).len() <= u64::MAX,
        ensures
            Self::spec_decode(Self::spec_encode(v)) == Ok::<SpecCContentServerDirectory_ServerInfo, WireError>(v),
    {
        let apply = Self::apply_fn();
        let d = Self::spec_default();
        let p0 = Seq::<SpecField>::empty();
        let l1 = opt_string(1, v.type_);
        let p1 = p0 + l1;
        let l2 = opt_i32(2, v.source_id);
        let p2 = p1 + l2;
        let l3 = opt_i32(3, v.cell_id);
        let p3 = p2 + l3;
        let l4 = opt_i32(4, v.load);
        let p4 = p3 + l4;
        let l5 = opt_fixed32(5, v.weighted_load);
        let p5 = p4 + l5;
        let l6 = opt_i32(6, v.num_entries_in_client_list);
        let p6 = p5 + l6;
        let l7 = opt_bool(7, v.steam_china_only);
        let p7 = p6 + l7;
        let l8 = opt_string(8, v.host);
        let p8 = p7 + l8;
        let l9 = opt_string(9, v.vhost);
        let p9 = p8 + l9;
        let l10 = opt_bool(10, v.use_as_proxy);
        let p10 = p9 + l10;
        let l11 = opt_string(11, v.proxy_request_path_template);
        let p11 = p10 + l11;
        let l12 = opt_string(12, v.https_support);
        let p12 = p11 + l12;
        let l13 = rep_u32(13, v.allowed_app_ids);
        let p13 = p12 + l13;
        let l14 = opt_u32(15, v.priority_class);
        let p14 = p13 + l14;
        let l15 = rep_string(16, v.bypass_proxies_of_type);
        let p15 = p14 + l15;
        let l16 = opt_string(17, v.group);
        let p16 = p15 + l16;
        assert(parse_fields(Self::spec_encode(v)) == Ok::<Seq<SpecField>, WireError>(p16)) by {
            reveal(CContentServerDirectory_ServerInfo::spec_encode);
            assert(numbers_ok(p0) && fields_wf(p0)) by {
                reveal(numbers_ok);
                reveal(fields_wf);
            }
            lemma_opt_string_numbered(1, v.type_);
            lemma_fields_wf_concat(p0, l1);
            lemma_opt_i32_numbered(2, v.source_id);
            lemma_fields_wf_concat(p1, l2);
            lemma_opt_i32_numbered(3, v.cell_id);
            lemma_fields_wf_concat(p2, l3);
            lemma_opt_i32_numbered(4, v.load);
            lemma_fields_wf_concat(p3, l4);
            lemma_opt_fixed32_numbered(5, v.weighted_load);
            lemma_fields_wf_concat(p4, l5);
            lemma_opt_i32_numbered(6, v.num_entries_in_client_list);
            lemma_fields_wf_concat(p5, l6);
            lemma_opt_bool_numbered(7, v.steam_china_only);
            lemma_fields_wf_concat(p6, l7);
            lemma_opt_string_numbered(8, v.host);
            lemma_fields_wf_concat(p7, l8);
            lemma_opt_string_numbered(9, v.vhost);
            lemma_fields_wf_concat(p8, l9);
            lemma_opt_bool_numbered(10, v.use_as_proxy);
            lemma_fields_wf_concat(p9, l10);
            lemma_opt_string_numbered(11, v.proxy_request_path_template);
            lemma_fields_wf_concat(p10, l11);
            lemma_opt_string_numbered(12, v.https_support);
            lemma_fields_wf_concat(p11, l12);
            lemma_rep_u32_numbered(13, v.allowed_app_ids);
            lemma_fields_wf_concat(p12, l13);
            lemma_opt_u32_numbered(15, v.priority_class);
            lemma_fields_wf_concat(p13, l14);
            lemma_rep_string_numbered(16, v.bypass_proxies_of_type);
            lemma_fields_wf_concat(p14, l15);
            lemma_opt_string_numbered(17, v.group);
            lemma_fields_wf_concat(p15, l16);
            assert(p16 == Self::spec_fields(v));
            lemma_fields_wf_from_len(p16);
            lemma_fields_roundtrip(p16);
        }
        assert(Self::spec_prefix(v, 0) == d) by {
            reveal(CContentServerDirectory_ServerInfo::spec_prefix);
        }
        lemma_fold_empty(d, apply);
        lemma_fold_concat(d, p0, l1, apply);
        Self::lemma_field_type(v);
        lemma_fold_concat(d, p1, l2, apply);
        Self::lemma_field_source_id(v);
        lemma_fold_concat(d, p2, l3, apply);
        Self::lemma_field_cell_id(v);
        lemma_fold_concat(d, p3, l4, apply);
        Self::lemma_field_load(v);
        lemma_fold_concat(d, p4, l5, apply);
        Self::lemma_field_weighted_load(v);
        lemma_fold_concat(d, p5, l6, apply);
        Self::lemma_field_num_entries_in_client_list(v);
        lemma_fold_concat(d, p6, l7, apply);
        Self::lemma_field_steam_china_only(v);
        lemma_fold_concat(d, p7, l8, apply);
        Self::lemma_field_host(v);
        lemma_fold_concat(d, p8, l9, apply);
        Self::lemma_field_vhost(v);
        lemma_fold_concat(d, p9, l10, apply);
        Self::lemma_field_use_as_proxy(v);
        lemma_fold_concat(d, p10, l11, apply);
        Self::lemma_field_proxy_request_path_template(v);
        lemma_fold_concat(d, p11, l12, apply);
        Self::lemma_field_https_support(v);
        lemma_fold_concat(d, p12, l13, apply);
        Self::lemma_field_allowed_app_ids(v);
        lemma_fold_concat(d, p13, l14, apply);
        Self::lemma_field_priority_class(v);
        lemma_fold_concat(d, p14, l15, apply);
        Self::lemma_field_bypass_proxies_of_type(v);
        lemma_fold_concat(d, p15, l16, apply);
        Self::lemma_field_group(v);
        assert(Self::spec_prefix(v, 16) == v) by {
            reveal(CContentServerDirectory_ServerInfo::spec_prefix);
        }
        lemma_merge_run_fold(d, Self::spec_encode(v), apply);
        assert(Self::spec_decode(Self::spec_encode(v)) == Ok::<SpecCContentServerDirectory_ServerInfo, WireError>(v)) by {
            reveal(CContentServerDirectory_ServerInfo::spec_decode);
        }
    }
}

/// `CContentServerDirectory_GetServersForSteamPipe_Response`, as Valve's schema declares it.
#[derive(Debug, Clone, PartialEq)]
pub struct CContentServerDirectory_GetServersForSteamPipe_Response {
    /// Field 1.
    pub servers: Vec<crate::steammessages_contentsystem_steamclient::CContentServerDirectory_ServerInfo>,
    /// Field 2.
    pub no_change: Option<bool>,
}

/// What a `CContentServerDirectory_GetServersForSteamPipe_Response` holds, as mathematical values.
#[verifier::ext_equal]
pub struct SpecCContentServerDirectory_GetServersForSteamPipe_Response {
    pub servers: Seq<crate::steammessages_contentsystem_steamclient::SpecCContentServerDirectory_ServerInfo>,
    pub no_change: Option<bool>,
}

impl View for CContentServerDirectory_GetServersForSteamPipe_Response {
    type V = SpecCContentServerDirectory_GetServersForSteamPipe_Response;

    open spec fn view(&self) -> SpecCContentServerDirectory_GetServersForSteamPipe_Response {
        SpecCContentServerDirectory_GetServersForSteamPipe_Response {
            servers: crate::steammessages_contentsystem_steamclient::CContentServerDirectory_ServerInfo::view_all(self.servers@),
            no_change: self.no_change,
        }
    }
}

impl Default for CContentServerDirectory_GetServersForSteamPipe_Response {
    fn default() -> (r: Self)
        ensures
            r@ == CContentServerDirectory_GetServersForSteamPipe_Response::spec_default(),
    {
        CContentServerDirectory_GetServersForSteamPipe_Response {
            servers: Vec::new(),
            no_change: None,
        }
    }
}

impl CContentServerDirectory_GetServersForSteamPipe_Response {
    pub open spec fn spec_default() -> SpecCContentServerDirectory_GetServersForSteamPipe_Response {
        SpecCContentServerDirectory_GetServersForSteamPipe_Response {
            servers: Seq::empty(),
            no_change: None,
        }
    }

    /// The records a `CContentServerDirectory_GetServersForSteamPipe_Response` is written as, in field order.
    pub open spec fn spec_fields(v: SpecCContentServerDirectory_GetServersForSteamPipe_Response) -> Seq<SpecField> {
        Seq::<SpecField>::empty()
            + rep_bytes(1, crate::steammessages_contentsystem_steamclient::CContentServerDirectory_ServerInfo::spec_encode_all(v.servers))
            + opt_bool(2, v.no_change)
    }

    #[verifier::opaque]
    pub open spec fn spec_encode(v: SpecCContentServerDirectory_GetServersForSteamPipe_Response) -> Seq<u8> {
        fields_bytes(Self::spec_fields(v))
    }

    /// What one record does to the message: a declared number sets or extends its
    /// field, any other number is left alone.
    pub open spec fn spec_apply(v: SpecCContentServerDirectory_GetServersForSteamPipe_Response, f: SpecField) -> Result<SpecCContentServerDirectory_GetServersForSteamPipe_Response, WireError> {
        match f.number {
            1 => match dec_bytes(f.value) {
                Ok(b) => match crate::steammessages_contentsystem_steamclient::CContentServerDirectory_ServerInfo::spec_decode(b) {
                    Ok(m) => Ok(SpecCContentServerDirectory_GetServersForSteamPipe_Response { servers: v.servers.push(m), ..v }),
                    Err(e) => Err(e),
                },
                Err(e) => Err(e),
            },
            2 => match dec_bool(f.value) {
                Ok(x) => Ok(SpecCContentServerDirectory_GetServersForSteamPipe_Response { no_change: Some(x), ..v }),
                Err(e) => Err(e),
            },
            _ => Ok(v),
        }
    }

    pub open spec fn apply_fn() -> spec_fn(SpecCContentServerDirectory_GetServersForSteamPipe_Response, SpecField) -> Result<SpecCContentServerDirectory_GetServersForSteamPipe_Response, WireError> {
        |v: SpecCContentServerDirectory_GetServersForSteamPipe_Response, f: SpecField| Self::spec_apply(v, f)
    }

    /// The message `bytes` makes of `v`: its records applied in order, or the error
    /// that stops the reading.
    pub open spec fn spec_merge(v: SpecCContentServerDirectory_GetServersForSteamPipe_Response, bytes: Seq<u8>) -> Result<SpecCContentServerDirectory_GetServersForSteamPipe_Response, WireError> {
        let (w, stop) = merge_run(v, bytes, Self::apply_fn());
        match stop {
            None => Ok(w),
            Some(e) => Err(e),
        }
    }

    #[verifier::opaque]
    pub open spec fn spec_decode(bytes: Seq<u8>) -> Result<SpecCContentServerDirectory_GetServersForSteamPipe_Response, WireError> {
        Self::spec_merge(Self::spec_default(), bytes)
    }

    /// This message with one record applied to it, or, when the record is refused,
    /// the message unchanged and the reason.
    fn applied(self, f: &Field) -> (r: Result<Self, (Self, WireError)>)
        ensures
            match Self::spec_apply(self@, f@) {
                Ok(v) => r matches Ok(m) && m@ == v,
                Err(e) => r matches Err((m, x)) && x == e && m@ == self@,
            },
    {
        match f.number {
            1 => match read_payload(&f.value) {
                Ok(b) => match crate::steammessages_contentsystem_steamclient::CContentServerDirectory_ServerInfo::decode(b) {
                    Ok(x) => {
                        let mut m = self;
                        let ghost before = m.servers@;
                        m.servers.push(x);
                        assert(crate::steammessages_contentsystem_steamclient::CContentServerDirectory_ServerInfo::view_all(m.servers@) =~= crate::steammessages_contentsystem_steamclient::CContentServerDirectory_ServerInfo::view_all(before).push(x@));
                        Ok(m)
                    },
                    Err(e) => Err((self, e)),
                },
                Err(e) => Err((self, e)),
            },
            2 => match read_bool(&f.value) {
                Ok(x) => Ok(Self { no_change: Some(x), ..self }),
                Err(e) => Err((self, e)),
            },
            _ => Ok(self),
        }
    }

    /// Reads the records `bytes` holds into this message, in order. When a record does
    /// not parse or is refused, the reading stops there: the message keeps what the
    /// records before it gave, and the error is returned.
    pub fn merge(&mut self, bytes: &[u8]) -> (r: Result<(), WireError>)
        ensures
            final(self)@ == merge_run(old(self)@, bytes@, Self::apply_fn()).0,
            r == match merge_run(old(self)@, bytes@, Self::apply_fn()).1 {
                None => Ok::<(), WireError>(()),
                Some(e) => Err::<(), WireError>(e),
            },
    {
        let ghost total = merge_run(self@, bytes@, Self::apply_fn());
        let mut cur = Self::default();
        std::mem::swap(&mut cur, self);
        let mut pos: usize = 0;
        assert(bytes@.skip(0) =~= bytes@);
        while pos < bytes.len()
            invariant
                pos <= bytes@.len(),
                total == merge_run(old(self)@, bytes@, Self::apply_fn()),
                merge_run(cur@, bytes@.skip(pos as int), Self::apply_fn()) == total,
            decreases bytes@.len() - pos,
        {
            let ghost s = bytes@.skip(pos as int);
            proof {
                lemma_merge_run_step(cur@, s, Self::apply_fn());
                lemma_parse_field_len(s);
            }
            match read_field(bytes, pos) {
                Ok((f, end)) => {
                    assert(bytes@.skip(end as int) =~= s.skip((end - pos) as int));
                    match cur.applied(&f) {
                        Ok(m) => {
                            cur = m;
                        },
                        Err((m, e)) => {
                            *self = m;
                            return Err(e);
                        },
                    }
                    pos = end;
                },
                Err(e) => {
                    *self = cur;
                    return Err(e);
                },
            }
        }
        assert(bytes@.skip(pos as int) =~= Seq::<u8>::empty());
        proof {
            lemma_merge_run_empty(cur@, Self::apply_fn());
        }
        *self = cur;
        Ok(())
    }

    /// Decodes a message from its encoding.
    pub fn decode(bytes: &[u8]) -> (r: Result<Self, WireError>)
        ensures
            match Self::spec_decode(bytes@) {
                Ok(v) => r matches Ok(m) && m@ == v,
                Err(e) => r matches Err(x) && x == e,
            },
    {
        proof {
            reveal(CContentServerDirectory_GetServersForSteamPipe_Response::spec_decode);
        }
        let mut m = Self::default();
        match m.merge(bytes) {
            Ok(()) => Ok(m),
            Err(e) => Err(e),
        }
    }

    /// The encoding of this message.
    pub fn encode_to_vec(&self) -> (r: Vec<u8>)
        ensures
            r@ == Self::spec_encode(self@),
    {
        let enc_servers = crate::steammessages_contentsystem_steamclient::CContentServerDirectory_ServerInfo::encode_all(&self.servers);
        let ghost v = self@;
        let mut out: Vec<u8> = Vec::new();
        let ghost p0 = Seq::<SpecField>::empty();
        put_rep_bytes(&mut out, 1, &enc_servers);
        let ghost p1 = p0 + rep_bytes(1, crate::steammessages_contentsystem_steamclient::CContentServerDirectory_ServerInfo::spec_encode_all(v.servers));
        proof {
            lemma_fields_bytes_concat(p0, rep_bytes(1, crate::steammessages_contentsystem_steamclient::CContentServerDirectory_ServerInfo::spec_encode_all(v.servers)));
        }
        put_opt_bool(&mut out, 2, self.no_change);
        let ghost p2 = p1 + opt_bool(2, v.no_change);
        proof {
            lemma_fields_bytes_concat(p1, opt_bool(2, v.no_change));
        }
        proof {
            reveal(CContentServerDirectory_GetServersForSteamPipe_Response::spec_encode);
        }
        assert(p2 == Self::spec_fields(v));
        out
    }

    /// Appends the encoding of this message to `out`.
    pub fn encode_raw(&self, out: &mut Vec<u8>)
        ensures
            final(out)@ == old(out)@ + Self::spec_encode(self@),
    {
        let mut b = self.encode_to_vec();
        out.append(&mut b);
    }

    /// The first `k` fields of `v`, the others as a fresh message has them.
    #[verifier::opaque]
    pub open spec fn spec_prefix(v: SpecCContentServerDirectory_GetServersForSteamPipe_Response, k: int) -> SpecCContentServerDirectory_GetServersForSteamPipe_Response {
        SpecCContentServerDirectory_GetServersForSteamPipe_Response {
            servers: if 1 <= k { v.servers } else { Seq::empty() },
            no_change: if 2 <= k { v.no_change } else { None },
        }
    }

    /// Reading field 1 back, after the fields before it.
    proof fn lemma_field_servers(v: SpecCContentServerDirectory_GetServersForSteamPipe_Response)
        requires
            fields_wf(rep_bytes(1, crate::steammessages_contentsystem_steamclient::CContentServerDirectory_ServerInfo::spec_encode_all(v.servers))),
        ensures
            fold_fields(Self::spec_prefix(v, 0), rep_bytes(1, crate::steammessages_contentsystem_steamclient::CContentServerDirectory_ServerInfo::spec_encode_all(v.servers)), Self::apply_fn())
                == Ok::<SpecCContentServerDirectory_GetServersForSteamPipe_Response, WireError>(Self::spec_prefix(v, 1)),
    {
        reveal(CContentServerDirectory_GetServersForSteamPipe_Response::spec_prefix);
        reveal(rep_bytes);
        reveal(fields_wf);
        let apply = Self::apply_fn();
        let s = Self::spec_prefix(v, 0);
        let l = rep_bytes(1, crate::steammessages_contentsystem_steamclient::CContentServerDirectory_ServerInfo::spec_encode_all(v.servers));
        let xs = v.servers;
        let st = Seq::new((xs.len() + 1) as nat, |j: int| SpecCContentServerDirectory_GetServersForSteamPipe_Response { servers: xs.take(j), ..s });
        assert forall|j: int| 0 <= j < l.len() implies #[trigger] apply(st[j], l[j]) == Ok::<SpecCContentServerDirectory_GetServersForSteamPipe_Response, WireError>(st[j + 1]) by {
            assert(field_wf(l[j]));
            crate::steammessages_contentsystem_steamclient::CContentServerDirectory_ServerInfo::lemma_decode_encode(xs[j]);
            assert(xs.take(j).push(xs[j]) =~= xs.take(j + 1));
        }
        lemma_fold_chain(l, st, apply);
        assert(xs.take(0) =~= Seq::<crate::steammessages_contentsystem_steamclient::SpecCContentServerDirectory_ServerInfo>::empty());
        assert(xs.take(xs.len() as int) =~= xs);
        assert(st[0] == s);
        assert(st[xs.len() as int] == Self::spec_prefix(v, 1));
    }

    /// Reading field 2 back, after the fields before it.
    proof fn lemma_field_no_change(v: SpecCContentServerDirectory_GetServersForSteamPipe_Response)
        ensures
            fold_fields(Self::spec_prefix(v, 1), opt_bool(2, v.no_change), Self::apply_fn())
                == Ok::<SpecCContentServerDirectory_GetServersForSteamPipe_Response, WireError>(Self::spec_prefix(v, 2)),
    {
        reveal(CContentServerDirectory_GetServersForSteamPipe_Response::spec_prefix);
        reveal(opt_bool);
        let apply = Self::apply_fn();
        let s = Self::spec_prefix(v, 1);
        lemma_fold_opt(s, 2, match v.no_change { Some(x) => Some(enc_bool(x)), None => None }, apply);
        assert(SpecCContentServerDirectory_GetServersForSteamPipe_Response { no_change: v.no_change, ..s } == Self::spec_prefix(v, 2));
    }

    /// Whether this message declares field number `n`.
    pub open spec fn declares(n: u32) -> bool {
        n == 1 || n == 2
    }

    /// A record with a number this message does not declare is passed over: well-formed
    /// bytes decode to the same message with such a record after them as without it.
    pub proof fn lemma_unknown_field(bytes: Seq<u8>, f: SpecField)
        requires
            parse_fields(bytes) is Ok,
            field_wf(f),
            !Self::declares(f.number),
        ensures
            Self::spec_decode(bytes + field_bytes(f)) == Self::spec_decode(bytes),
    {
        reveal(CContentServerDirectory_GetServersForSteamPipe_Response::spec_decode);
        lemma_parse_fields_append(bytes, f);
        let fs = parse_fields(bytes).unwrap();
        let apply = Self::apply_fn();
        lemma_fold_concat(Self::spec_default(), fs, seq![f], apply);
        assert(fs.push(f) =~= fs + seq![f]);
        if let Ok(w) = fold_fields(Self::spec_default(), fs, apply) {
            lemma_fold_single(w, f, apply);
        }
        lemma_merge_run_fold(Self::spec_default(), bytes, apply);
        lemma_merge_run_fold(Self::spec_default(), bytes + field_bytes(f), apply);
    }

    /// Decoding the encoding of a message gives the message back.
    pub proof fn lemma_decode_encode(v: SpecCContentServerDirectory_GetServersForSteamPipe_Response)
        requires
            Self::spec_encode(v).len() <= u64::MAX,
        ensures
            Self::spec_decode(Self::spec_encode(v)) == Ok::<SpecCContentServerDirectory_GetServersForSteamPipe_Response, WireError>(v),
    {
        let apply = Self::apply_fn();
        let d = Self::spec_default();
        let p0 = Seq::<SpecField>::empty();
        let l1 = rep_bytes(1, crate::steammessages_contentsystem_steamclient::CContentServerDirectory_ServerInfo::spec_encode_all(v.servers));
        let p1 = p0 + l1;
        let l2 = opt_bool(2, v.no_change);
        let p2 = p1 + l2;
        assert(parse_fields(Self::spec_encode(v)) == Ok::<Seq<SpecField>, WireError>(p2) && fields_wf(l1)) by {
            reveal(CContentServerDirectory_GetServersForSteamPipe_Response::spec_encode);
            assert(numbers_ok(p0) && fields_wf(p0)) by {
                reveal(numbers_ok);
                reveal(fields_wf);
            }
            lemma_rep_bytes_numbered(1, crate::steammessages_contentsystem_steamclient::CContentServerDirectory_ServerInfo::spec_encode_all(v.servers));
            lemma_fields_wf_concat(p0, l1);
            lemma_opt_bool_numbered(2, v.no_change);
            lemma_fields_wf_concat(p1, l2);
            assert(p2 == Self::spec_fields(v));
            lemma_fields_wf_from_len(p2);
            lemma_fields_roundtrip(p2);
        }
        assert(Self::spec_prefix(v, 0) == d) by {
            reveal(CContentServerDirectory_GetServersForSteamPipe_Response::spec_prefix);
        }
        lemma_fold_empty(d, apply);
        lemma_fold_concat(d, p0, l1, apply);
        Self::lemma_field_servers(v);
        lemma_fold_concat(d, p1, l2, apply);
        Self::lemma_field_no_change(v);
        assert(Self::spec_prefix(v, 2) == v) by {
            reveal(CContentServerDirectory_GetServersForSteamPipe_Response::spec_prefix);
        }
        lemma_merge_run_fold(d, Self::spec_encode(v), apply);
        assert(Self::spec_decode(Self::spec_encode(v)) == Ok::<SpecCContentServerDirectory_GetServersForSteamPipe_Response, WireError>(v)) by {
            reveal(CContentServerDirectory_GetServersForSteamPipe_Response::spec_decode);
        }
    }
}

/// `CContentServerDirectory_GetDepotPatchInfo_Request`, as Valve's schema declares it.
#[derive(Debug, Clone, PartialEq)]
pub struct CContentServerDirectory_GetDepotPatchInfo_Request {
    /// Field 1.
    pub appid: Option<u32>,
    /// Field 2.
    pub depotid: Option<u32>,
    /// Field 3.
    pub source_manifestid: Option<u64>,
    /// Field 4.
    pub target_manifestid: Option<u64>,
}

/// What a `CContentServerDirectory_GetDepotPatchInfo_Request` holds, as mathematical values.
#[verifier::ext_equal]
pub struct SpecCContentServerDirectory_GetDepotPatchInfo_Request {
    pub appid: Option<u32>,
    pub depotid: Option<u32>,
    pub source_manifestid: Option<u64>,
    pub target_manifestid: Option<u64>,
}

impl View for CContentServerDirectory_GetDepotPatchInfo_Request {
    type V = SpecCContentServerDirectory_GetDepotPatchInfo_Request;

    open spec fn view(&self) -> SpecCContentServerDirectory_GetDepotPatchInfo_Request {
        SpecCContentServerDirectory_GetDepotPatchInfo_Request {
            appid: self.appid,
            depotid: self.depotid,
            source_manifestid: self.source_manifestid,
            target_manifestid: self.target_manifestid,
        }
    }
}

impl Default for CContentServerDirectory_GetDepotPatchInfo_Request {
    fn default() -> (r: Self)
        ensures
            r@ == CContentServerDirectory_GetDepotPatchInfo_Request::spec_default(),
    {
        CContentServerDirectory_GetDepotPatchInfo_Request {
            appid: None,
            depotid: None,
            source_manifestid: None,
            target_manifestid: None,
        }
    }
}

impl CContentServerDirectory_GetDepotPatchInfo_Request {
    pub open spec fn spec_default() -> SpecCContentServerDirectory_GetDepotPatchInfo_Request {
        SpecCContentServerDirectory_GetDepotPatchInfo_Request {
            appid: None,
            depotid: None,
            source_manifestid: None,
            target_manifestid: None,
        }
    }

    /// The records a `CContentServerDirectory_GetDepotPatchInfo_Request` is written as, in field order.
    pub open spec fn spec_fields(v: SpecCContentServerDirectory_GetDepotPatchInfo_Request) -> Seq<SpecField> {
        Seq::<SpecField>::empty()
            + opt_u32(1, v.appid)
            + opt_u32(2, v.depotid)
            + opt_u64(3, v.source_manifestid)
            + opt_u64(4, v.target_manifestid)
    }

    #[verifier::opaque]
    pub open spec fn spec_encode(v: SpecCContentServerDirectory_GetDepotPatchInfo_Request) -> Seq<u8> {
        fields_bytes(Self::spec_fields(v))
    }

    /// What one record does to the message: a declared number sets or extends its
    /// field, any other number is left alone.
    pub open spec fn spec_apply(v: SpecCContentServerDirectory_GetDepotPatchInfo_Request, f: SpecField) -> Result<SpecCContentServerDirectory_GetDepotPatchInfo_Request, WireError> {
        match f.number {
            1 => match dec_u32(f.value) {
                Ok(x) => Ok(SpecCContentServerDirectory_GetDepotPatchInfo_Request { appid: Some(x), ..v }),
                Err(e) => Err(e),
            },
            2 => match dec_u32(f.value) {
                Ok(x) => Ok(SpecCContentServerDirectory_GetDepotPatchInfo_Request { depotid: Some(x), ..v }),
                Err(e) => Err(e),
            },
            3 => match dec_u64(f.value) {
                Ok(x) => Ok(SpecCContentServerDirectory_GetDepotPatchInfo_Request { source_manifestid: Some(x), ..v }),
                Err(e) => Err(e),
            },
            4 => match dec_u64(f.value) {
                Ok(x) => Ok(SpecCContentServerDirectory_GetDepotPatchInfo_Request { target_manifestid: Some(x), ..v }),
                Err(e) => Err(e),
            },
            _ => Ok(v),
        }
    }

    pub open spec fn apply_fn() -> spec_fn(SpecCContentServerDirectory_GetDepotPatchInfo_Request, SpecField) -> Result<SpecCContentServerDirectory_GetDepotPatchInfo_Request, WireError> {
        |v: SpecCContentServerDirectory_GetDepotPatchInfo_Request, f: SpecField| Self::spec_apply(v, f)
    }

    /// The message `bytes` makes of `v`: its records applied in order, or the error
    /// that stops the reading.
    pub open spec fn spec_merge(v: SpecCContentServerDirectory_GetDepotPatchInfo_Request, bytes: Seq<u8>) -> Result<SpecCContentServerDirectory_GetDepotPatchInfo_Request, WireError> {
        let (w, stop) = merge_run(v, bytes, Self::apply_fn());
        match stop {
            None => Ok(w),
            Some(e) => Err(e),
        }
    }

    #[verifier::opaque]
    pub open spec fn spec_decode(bytes: Seq<u8>) -> Result<SpecCContentServerDirectory_GetDepotPatchInfo_Request, WireError> {
        Self::spec_merge(Self::spec_default(), bytes)
    }

    /// This message with one record applied to it, or, when the record is refused,
    /// the message unchanged and the reason.
    fn applied(self, f: &Field) -> (r: Result<Self, (Self, WireError)>)
        ensures
            match Self::spec_apply(self@, f@) {
                Ok(v) => r matches Ok(m) && m@ == v,
                Err(e) => r matches Err((m, x)) && x == e && m@ == self@,
            },
    {
        match f.number {
            1 => match read_u32(&f.value) {
                Ok(x) => Ok(Self { appid: Some(x), ..self }),
                Err(e) => Err((self, e)),
            },
            2 => match read_u32(&f.value) {
                Ok(x) => Ok(Self { depotid: Some(x), ..self }),
                Err(e) => Err((self, e)),
            },
            3 => match read_u64(&f.value) {
                Ok(x) => Ok(Self { source_manifestid: Some(x), ..self }),
                Err(e) => Err((self, e)),
            },
            4 => match read_u64(&f.value) {
                Ok(x) => Ok(Self { target_manifestid: Some(x), ..self }),
                Err(e) => Err((self, e)),
            },
            _ => Ok(self),
        }
    }

    /// Reads the records `bytes` holds into this message, in order. When a record does
    /// not parse or is refused, the reading stops there: the message keeps what the
    /// records before it gave, and the error is returned.
    pub fn merge(&mut self, bytes: &[u8]) -> (r: Result<(), WireError>)
        ensures
            final(self)@ == merge_run(old(self)@, bytes@, Self::apply_fn()).0,
            r == match merge_run(old(self)@, bytes@, Self::apply_fn()).1 {
                None => Ok::<(), WireError>(()),
                Some(e) => Err::<(), WireError>(e),
            },
    {
        let ghost total = merge_run(self@, bytes@, Self::apply_fn());
        let mut cur = Self::default();
        std::mem::swap(&mut cur, self);
        let mut pos: usize = 0;
        assert(bytes@.skip(0) =~= bytes@);
        while pos < bytes.len()
            invariant
                pos <= bytes@.len(),
                total == merge_run(old(self)@, bytes@, Self::apply_fn()),
                merge_run(cur@, bytes@.skip(pos as int), Self::apply_fn()) == total,
            decreases bytes@.len() - pos,
        {
            let ghost s = bytes@.skip(pos as int);
            proof {
                lemma_merge_run_step(cur@, s, Self::apply_fn());
                lemma_parse_field_len(s);
            }
            match read_field(bytes, pos) {
                Ok((f, end)) => {
                    assert(bytes@.skip(end as int) =~= s.skip((end - pos) as int));
                    match cur.applied(&f) {
                        Ok(m) => {
                            cur = m;
                        },
                        Err((m, e)) => {
                            *self = m;
                            return Err(e);
                        },
                    }
                    pos = end;
                },
                Err(e) => {
                    *self = cur;
                    return Err(e);
                },
            }
        }
        assert(bytes@.skip(pos as int) =~= Seq::<u8>::empty());
        proof {
            lemma_merge_run_empty(cur@, Self::apply_fn());
        }
        *self = cur;
        Ok(())
    }

    /// Decodes a message from its encoding.
    pub fn decode(bytes: &[u8]) -> (r: Result<Self, WireError>)
        ensures
            match Self::spec_decode(bytes@) {
                Ok(v) => r matches Ok(m) && m@ == v,
                Err(e) => r matches Err(x) && x == e,
            },
    {
        proof {
            reveal(CContentServerDirectory_GetDepotPatchInfo_Request::spec_decode);
        }
        let mut m = Self::default();
        match m.merge(bytes) {
            Ok(()) => Ok(m),
            Err(e) => Err(e),
        }
    }

    /// The encoding of this message.
    pub fn encode_to_vec(&self) -> (r: Vec<u8>)
        ensures
            r@ == Self::spec_encode(self@),
    {
        let ghost v = self@;
        let mut out: Vec<u8> = Vec::new();
        let ghost p0 = Seq::<SpecField>::empty();
        put_opt_u32(&mut out, 1, self.appid);
        let ghost p1 = p0 + opt_u32(1, v.appid);
        proof {
            lemma_fields_bytes_concat(p0, opt_u32(1, v.appid));
        }
        put_opt_u32(&mut out, 2, self.depotid);
        let ghost p2 = p1 + opt_u32(2, v.depotid);
        proof {
            lemma_fields_bytes_concat(p1, opt_u32(2, v.depotid));
        }
        put_opt_varint(&mut out, 3, self.source_manifestid);
        let ghost p3 = p2 + opt_u64(3, v.source_manifestid);
        proof {
            lemma_fields_bytes_concat(p2, opt_u64(3, v.source_manifestid));
        }
        put_opt_varint(&mut out, 4, self.target_manifestid);
        let ghost p4 = p3 + opt_u64(4, v.target_manifestid);
        proof {
            lemma_fields_bytes_concat(p3, opt_u64(4, v.target_manifestid));
        }
        proof {
            reveal(CContentServerDirectory_GetDepotPatchInfo_Request::spec_encode);
        }
        assert(p4 == Self::spec_fields(v));
        out
    }

    /// Appends the encoding of this message to `out`.
    pub fn encode_raw(&self, out: &mut Vec<u8>)
        ensures
            final(out)@ == old(out)@ + Self::spec_encode(self@),
    {
        let mut b = self.encode_to_vec();
        out.append(&mut b);
    }

    /// The first `k` fields of `v`, the others as a fresh message has them.
    #[verifier::opaque]
    pub open spec fn spec_prefix(v: SpecCContentServerDirectory_GetDepotPatchInfo_Request, k: int) -> SpecCContentServerDirectory_GetDepotPatchInfo_Request {
        SpecCContentServerDirectory_GetDepotPatchInfo_Request {
            appid: if 1 <= k { v.appid } else { None },
            depotid: if 2 <= k { v.depotid } else { None },
            source_manifestid: if 3 <= k { v.source_manifestid } else { None },
            target_manifestid: if 4 <= k { v.target_manifestid } else { None },
        }
    }

    /// Reading field 1 back, after the fields before it.
    proof fn lemma_field_appid(v: SpecCContentServerDirectory_GetDepotPatchInfo_Request)
        ensures
            fold_fields(Self::spec_prefix(v, 0), opt_u32(1, v.appid), Self::apply_fn())
                == Ok::<SpecCContentServerDirectory_GetDepotPatchInfo_Request, WireError>(Self::spec_prefix(v, 1)),
    {
        reveal(CContentServerDirectory_GetDepotPatchInfo_Request::spec_prefix);
        reveal(opt_u32);
        let apply = Self::apply_fn();
        let s = Self::spec_prefix(v, 0);
        lemma_fold_opt(s, 1, match v.appid { Some(x) => Some(enc_u32(x)), None => None }, apply);
        if let Some(x) = v.appid {
            lemma_u32_roundtrip(x);
        }
        assert(SpecCContentServerDirectory_GetDepotPatchInfo_Request { appid: v.appid, ..s } == Self::spec_prefix(v, 1));
    }

    /// Reading field 2 back, after the fields before it.
    proof fn lemma_field_depotid(v: SpecCContentServerDirectory_GetDepotPatchInfo_Request)
        ensures
            fold_fields(Self::spec_prefix(v, 1), opt_u32(2, v.depotid), Self::apply_fn())
                == Ok::<SpecCContentServerDirectory_GetDepotPatchInfo_Request, WireError>(Self::spec_prefix(v, 2)),
    {
        reveal(CContentServerDirectory_GetDepotPatchInfo_Request::spec_prefix);
        reveal(opt_u32);
        let apply = Self::apply_fn();
        let s = Self::spec_prefix(v, 1);
        lemma_fold_opt(s, 2, match v.depotid { Some(x) => Some(enc_u32(x)), None => None }, apply);
        if let Some(x) = v.depotid {
            lemma_u32_roundtrip(x);
        }
        assert(SpecCContentServerDirectory_GetDepotPatchInfo_Request { depotid: v.depotid, ..s } == Self::spec_prefix(v, 2));
    }

    /// Reading field 3 back, after the fields before it.
    proof fn lemma_field_source_manifestid(v: SpecCContentServerDirectory_GetDepotPatchInfo_Request)
        ensures
            fold_fields(Self::spec_prefix(v, 2), opt_u64(3, v.source_manifestid), Self::apply_fn())
                == Ok::<SpecCContentServerDirectory_GetDepotPatchInfo_Request, WireError>(Self::spec_prefix(v, 3)),
    {
        reveal(CContentServerDirectory_GetDepotPatchInfo_Request::spec_prefix);
        reveal(opt_u64);
        let apply = Self::apply_fn();
        let s = Self::spec_prefix(v, 2);
        lemma_fold_opt(s, 3, match v.source_manifestid { Some(x) => Some(enc_u64(x)), None => None }, apply);
        if let Some(x) = v.source_manifestid {
            lemma_u64_roundtrip(x);
        }
        assert(SpecCContentServerDirectory_GetDepotPatchInfo_Request { source_manifestid: v.source_manifestid, ..s } == Self::spec_prefix(v, 3));
    }

    /// Reading field 4 back, after the fields before it.
    proof fn lemma_field_target_manifestid(v: SpecCContentServerDirectory_GetDepotPatchInfo_Request)
        ensures
            fold_fields(Self::spec_prefix(v, 3), opt_u64(4, v.target_manifestid), Self::apply_fn())
                == Ok::<SpecCContentServerDirectory_GetDepotPatchInfo_Request, WireError>(Self::spec_prefix(v, 4)),
    {
        reveal(CContentServerDirectory_GetDepotPatchInfo_Request::spec_prefix);
        reveal(opt_u64);
        let apply = Self::apply_fn();
        let s = Self::spec_prefix(v, 3);
        lemma_fold_opt(s, 4, match v.target_manifestid { Some(x) => Some(enc_u64(x)), None => None }, apply);
        if let Some(x) = v.target_manifestid {
            lemma_u64_roundtrip(x);
        }
        assert(SpecCContentServerDirectory_GetDepotPatchInfo_Request { target_manifestid: v.target_manifestid, ..s } == Self::spec_prefix(v, 4));
    }

    /// Whether this message declares field number `n`.
    pub open spec fn declares(n: u32) -> bool {
        n == 1 || n == 2 || n == 3 || n == 4
    }

    /// A record with a number this message does not declare is passed over: well-formed
    /// bytes decode to the same message with such a record after them as without it.
    pub proof fn lemma_unknown_field(bytes: Seq<u8>, f: SpecField)
        requires
            parse_fields(bytes) is Ok,
            field_wf(f),
            !Self::declares(f.number),
        ensures
            Self::spec_decode(bytes + field_bytes(f)) == Self::spec_decode(bytes),
    {
        reveal(CContentServerDirectory_GetDepotPatchInfo_Request::spec_decode);
        lemma_parse_fields_append(bytes, f);
        let fs = parse_fields(bytes).unwrap();
        let apply = Self::apply_fn();
        lemma_fold_concat(Self::spec_default(), fs, seq![f], apply);
        assert(fs.push(f) =~= fs + seq![f]);
        if let Ok(w) = fold_fields(Self::spec_default(), fs, apply) {
            lemma_fold_single(w, f, apply);
        }
        lemma_merge_run_fold(Self::spec_default(), bytes, apply);
        lemma_merge_run_fold(Self::spec_default(), bytes + field_bytes(f), apply);
    }

    /// Decoding the encoding of a message gives the message back.
    pub proof fn lemma_decode_encode(v: SpecCContentServerDirectory_GetDepotPatchInfo_Request)
        requires
            Self::spec_encode(v).len() <= u64::MAX,
        ensures
            Self::spec_decode(Self::spec_encode(v)) == Ok::<SpecCContentServerDirectory_GetDepotPatchInfo_Request, WireError>(v),
    {
        let apply = Self::apply_fn();
        let d = Self::spec_default();
        let p0 = Seq::<SpecField>::empty();
        let l1 = opt_u32(1, v.appid);
        let p1 = p0 + l1;
        let l2 = opt_u32(2, v.depotid);
        let p2 = p1 + l2;
        let l3 = opt_u64(3, v.source_manifestid);
        let p3 = p2 + l3;
        let l4 = opt_u64(4, v.target_manifestid);
        let p4 = p3 + l4;
        assert(parse_fields(Self::spec_encode(v)) == Ok::<Seq<SpecField>, WireError>(p4)) by {
            reveal(CContentServerDirectory_GetDepotPatchInfo_Request::spec_encode);
            assert(numbers_ok(p0) && fields_wf(p0)) by {
                reveal(numbers_ok);
                reveal(fields_wf);
            }
            lemma_opt_u32_numbered(1, v.appid);
            lemma_fields_wf_concat(p0, l1);
            lemma_opt_u32_numbered(2, v.depotid);
            lemma_fields_wf_concat(p1, l2);
            lemma_opt_u64_numbered(3, v.source_manifestid);
            lemma_fields_wf_concat(p2, l3);
            lemma_opt_u64_numbered(4, v.target_manifestid);
            lemma_fields_wf_concat(p3, l4);
            assert(p4 == Self::spec_fields(v));
            lemma_fields_wf_from_len(p4);
            lemma_fields_roundtrip(p4);
        }
        assert(Self::spec_prefix(v, 0) == d) by {
            reveal(CContentServerDirectory_GetDepotPatchInfo_Request::spec_prefix);
        }
        lemma_fold_empty(d, apply);
        lemma_fold_concat(d, p0, l1, apply);
        Self::lemma_field_appid(v);
        lemma_fold_concat(d, p1, l2, apply);
        Self::lemma_field_depotid(v);
        lemma_fold_concat(d, p2, l3, apply);
        Self::lemma_field_source_manifestid(v);
        lemma_fold_concat(d, p3, l4, apply);
        Self::lemma_field_target_manifestid(v);
        assert(Self::spec_prefix(v, 4) == v) by {
            reveal(CContentServerDirectory_GetDepotPatchInfo_Request::spec_prefix);
        }
        lemma_merge_run_fold(d, Self::spec_encode(v), apply);
        assert(Self::spec_decode(Self::spec_encode(v)) == Ok::<SpecCContentServerDirectory_GetDepotPatchInfo_Request, WireError>(v)) by {
            reveal(CContentServerDirectory_GetDepotPatchInfo_Request::spec_decode);
        }
    }
}

/// `CContentServerDirectory_GetDepotPatchInfo_Response`, as Valve's schema declares it.
#[derive(Debug, Clone, PartialEq)]
pub struct CContentServerDirectory_GetDepotPatchInfo_Response {
    /// Field 1.
    pub is_available: Option<bool>,
    /// Field 2.
    pub patch_size: Option<u64>,
    /// Field 3.
    pub patched_chunks_size: Option<u64>,
}

/// What a `CContentServerDirectory_GetDepotPatchInfo_Response` holds, as mathematical values.
#[verifier::ext_equal]
pub struct SpecCContentServerDirectory_GetDepotPatchInfo_Response {
    pub is_available: Option<bool>,
    pub patch_size: Option<u64>,
    pub patched_chunks_size: Option<u64>,
}

impl View for CContentServerDirectory_GetDepotPatchInfo_Response {
    type V = SpecCContentServerDirectory_GetDepotPatchInfo_Response;

    open spec fn view(&self) -> SpecCContentServerDirectory_GetDepotPatchInfo_Response {
        SpecCContentServerDirectory_GetDepotPatchInfo_Response {
            is_available: self.is_available,
            patch_size: self.patch_size,
            patched_chunks_size: self.patched_chunks_size,
        }
    }
}

impl Default for CContentServerDirectory_GetDepotPatchInfo_Response {
    fn default() -> (r: Self)
        ensures
            r@ == CContentServerDirectory_GetDepotPatchInfo_Response::spec_default(),
    {
        CContentServerDirectory_GetDepotPatchInfo_Response {
            is_available: None,
            patch_size: None,
            patched_chunks_size: None,
        }
    }
}

impl CContentServerDirectory_GetDepotPatchInfo_Response {
    pub open spec fn spec_default() -> SpecCContentServerDirectory_GetDepotPatchInfo_Response {
        SpecCContentServerDirectory_GetDepotPatchInfo_Response {
            is_available: None,
            patch_size: None,
            patched_chunks_size: None,
        }
    }

    /// The records a `CContentServerDirectory_GetDepotPatchInfo_Response` is written as, in field order.
    pub open spec fn spec_fields(v: SpecCContentServerDirectory_GetDepotPatchInfo_Response) -> Seq<SpecField> {
        Seq::<SpecField>::empty()
            + opt_bool(1, v.is_available)
            + opt_u64(2, v.patch_size)
            + opt_u64(3, v.patched_chunks_size)
    }

    #[verifier::opaque]
    pub open spec fn spec_encode(v: SpecCContentServerDirectory_GetDepotPatchInfo_Response) -> Seq<u8> {
        fields_bytes(Self::spec_fields(v))
    }

    /// What one record does to the message: a declared number sets or extends its
    /// field, any other number is left alone.
    pub open spec fn spec_apply(v: SpecCContentServerDirectory_GetDepotPatchInfo_Response, f: SpecField) -> Result<SpecCContentServerDirectory_GetDepotPatchInfo_Response, WireError> {
        match f.number {
            1 => match dec_bool(f.value) {
                Ok(x) => Ok(SpecCContentServerDirectory_GetDepotPatchInfo_Response { is_available: Some(x), ..v }),
                Err(e) => Err(e),
            },
            2 => match dec_u64(f.value) {
                Ok(x) => Ok(SpecCContentServerDirectory_GetDepotPatchInfo_Response { patch_size: Some(x), ..v }),
                Err(e) => Err(e),
            },
            3 => match dec_u64(f.value) {
                Ok(x) => Ok(SpecCContentServerDirectory_GetDepotPatchInfo_Response { patched_chunks_size: Some(x), ..v }),
                Err(e) => Err(e),
            },
            _ => Ok(v),
        }
    }

    pub open spec fn apply_fn() -> spec_fn(SpecCContentServerDirectory_GetDepotPatchInfo_Response, SpecField) -> Result<SpecCContentServerDirectory_GetDepotPatchInfo_Response, WireError> {
        |v: SpecCContentServerDirectory_GetDepotPatchInfo_Response, f: SpecField| Self::spec_apply(v, f)
    }

    /// The message `bytes` makes of `v`: its records applied in order, or the error
    /// that stops the reading.
    pub open spec fn spec_merge(v: SpecCContentServerDirectory_GetDepotPatchInfo_Response, bytes: Seq<u8>) -> Result<SpecCContentServerDirectory_GetDepotPatchInfo_Response, WireError> {
        let (w, stop) = merge_run(v, bytes, Self::apply_fn());
        match stop {
            None => Ok(w),
            Some(e) => Err(e),
        }
    }

    #[verifier::opaque]
    pub open spec fn spec_decode(bytes: Seq<u8>) -> Result<SpecCContentServerDirectory_GetDepotPatchInfo_Response, WireError> {
        Self::spec_merge(Self::spec_default(), bytes)
    }

    /// This message with one record applied to it, or, when the record is refused,
    /// the message unchanged and the reason.
    fn applied(self, f: &Field) -> (r: Result<Self, (Self, WireError)>)
        ensures
            match Self::spec_apply(self@, f@) {
                Ok(v) => r matches Ok(m) && m@ == v,
                Err(e) => r matches Err((m, x)) && x == e && m@ == self@,
            },
    {
        match f.number {
            1 => match read_bool(&f.value) {
                Ok(x) => Ok(Self { is_available: Some(x), ..self }),
                Err(e) => Err((self, e)),
            },
            2 => match read_u64(&f.value) {
                Ok(x) => Ok(Self { patch_size: Some(x), ..self }),
                Err(e) => Err((self, e)),
            },
            3 => match read_u64(&f.value) {
                Ok(x) => Ok(Self { patched_chunks_size: Some(x), ..self }),
                Err(e) => Err((self, e)),
            },
            _ => Ok(self),
        }
    }

    /// Reads the records `bytes` holds into this message, in order. When a record does
    /// not parse or is refused, the reading stops there: the message keeps what the
    /// records before it gave, and the error is returned.
    pub fn merge(&mut self, bytes: &[u8]) -> (r: Result<(), WireError>)
        ensures
            final(self)@ == merge_run(old(self)@, bytes@, Self::apply_fn()).0,
            r == match merge_run(old(self)@, bytes@, Self::apply_fn()).1 {
                None => Ok::<(), WireError>(()),
                Some(e) => Err::<(), WireError>(e),
            },
    {
        let ghost total = merge_run(self@, bytes@, Self::apply_fn());
        let mut cur = Self::default();
        std::mem::swap(&mut cur, self);
        let mut pos: usize = 0;
        assert(bytes@.skip(0) =~= bytes@);
        while pos < bytes.len()
            invariant
                pos <= bytes@.len(),
                total == merge_run(old(self)@, bytes@, Self::apply_fn()),
                merge_run(cur@, bytes@.skip(pos as int), Self::apply_fn()) == total,
            decreases bytes@.len() - pos,
        {
            let ghost s = bytes@.skip(pos as int);
            proof {
                lemma_merge_run_step(cur@, s, Self::apply_fn());
                lemma_parse_field_len(s);
            }
            match read_field(bytes, pos) {
                Ok((f, end)) => {
                    assert(bytes@.skip(end as int) =~= s.skip((end - pos) as int));
                    match cur.applied(&f) {
                        Ok(m) => {
                            cur = m;
                        },
                        Err((m, e)) => {
                            *self = m;
                            return Err(e);
                        },
                    }
                    pos = end;
                },
                Err(e) => {
                    *self = cur;
                    return Err(e);
                },
            }
        }
        assert(bytes@.skip(pos as int) =~= Seq::<u8>::empty());
        proof {
            lemma_merge_run_empty(cur@, Self::apply_fn());
        }
        *self = cur;
        Ok(())
    }

    /// Decodes a message from its encoding.
    pub fn decode(bytes: &[u8]) -> (r: Result<Self, WireError>)
        ensures
            match Self::spec_decode(bytes@) {
                Ok(v) => r matches Ok(m) && m@ == v,
                Err(e) => r matches Err(x) && x == e,
            },
    {
        proof {
            reveal(CContentServerDirectory_GetDepotPatchInfo_Response::spec_decode);
        }
        let mut m = Self::default();
        match m.merge(bytes) {
            Ok(()) => Ok(m),
            Err(e) => Err(e),
        }
    }

    /// The encoding of this message.
    pub fn encode_to_vec(&self) -> (r: Vec<u8>)
        ensures
            r@ == Self::spec_encode(self@),
    {
        let ghost v = self@;
        let mut out: Vec<u8> = Vec::new();
        let ghost p0 = Seq::<SpecField>::empty();
        put_opt_bool(&mut out, 1, self.is_available);
        let ghost p1 = p0 + opt_bool(1, v.is_available);
        proof {
            lemma_fields_bytes_concat(p0, opt_bool(1, v.is_available));
        }
        put_opt_varint(&mut out, 2, self.patch_size);
        let ghost p2 = p1 + opt_u64(2, v.patch_size);
        proof {
            lemma_fields_bytes_concat(p1, opt_u64(2, v.patch_size));
        }
        put_opt_varint(&mut out, 3, self.patched_chunks_size);
        let ghost p3 = p2 + opt_u64(3, v.patched_chunks_size);
        proof {
            lemma_fields_bytes_concat(p2, opt_u64(3, v.patched_chunks_size));
        }
        proof {
            reveal(CContentServerDirectory_GetDepotPatchInfo_Response::spec_encode);
        }
        assert(p3 == Self::spec_fields(v));
        out
    }

    /// Appends the encoding of this message to `out`.
    pub fn encode_raw(&self, out: &mut Vec<u8>)
        ensures
            final(out)@ == old(out)@ + Self::spec_encode(self@),
    {
        let mut b = self.encode_to_vec();
        out.append(&mut b);
    }

    /// The first `k` fields of `v`, the others as a fresh message has them.
    #[verifier::opaque]
    pub open spec fn spec_prefix(v: SpecCContentServerDirectory_GetDepotPatchInfo_Response, k: int) -> SpecCContentServerDirectory_GetDepotPatchInfo_Response {
        SpecCContentServerDirectory_GetDepotPatchInfo_Response {
            is_available: if 1 <= k { v.is_available } else { None },
            patch_size: if 2 <= k { v.patch_size } else { None },
            patched_chunks_size: if 3 <= k { v.patched_chunks_size } else { None },
        }
    }

    /// Reading field 1 back, after the fields before it.
    proof fn lemma_field_is_available(v: SpecCContentServerDirectory_GetDepotPatchInfo_Response)
        ensures
            fold_fields(Self::spec_prefix(v, 0), opt_bool(1, v.is_available), Self::apply_fn())
                == Ok::<SpecCContentServerDirectory_GetDepotPatchInfo_Response, WireError>(Self::spec_prefix(v, 1)),
    {
        reveal(CContentServerDirectory_GetDepotPatchInfo_Response::spec_prefix);
        reveal(opt_bool);
        let apply = Self::apply_fn();
        let s = Self::spec_prefix(v, 0);
        lemma_fold_opt(s, 1, match v.is_available { Some(x) => Some(enc_bool(x)), None => None }, apply);
        assert(SpecCContentServerDirectory_GetDepotPatchInfo_Response { is_available: v.is_available, ..s } == Self::spec_prefix(v, 1));
    }

    /// Reading field 2 back, after the fields before it.
    proof fn lemma_field_patch_size(v: SpecCContentServerDirectory_GetDepotPatchInfo_Response)
        ensures
            fold_fields(Self::spec_prefix(v, 1), opt_u64(2, v.patch_size), Self::apply_fn())
                == Ok::<SpecCContentServerDirectory_GetDepotPatchInfo_Response, WireError>(Self::spec_prefix(v, 2)),
    {
        reveal(CContentServerDirectory_GetDepotPatchInfo_Response::spec_prefix);
        reveal(opt_u64);
        let apply = Self::apply_fn();
        let s = Self::spec_prefix(v, 1);
        lemma_fold_opt(s, 2, match v.patch_size { Some(x) => Some(enc_u64(x)), None => None }, apply);
        if let Some(x) = v.patch_size {
            lemma_u64_roundtrip(x);
        }
        assert(SpecCContentServerDirectory_GetDepotPatchInfo_Response { patch_size: v.patch_size, ..s } == Self::spec_prefix(v, 2));
    }

    /// Reading field 3 back, after the fields before it.
    proof fn lemma_field_patched_chunks_size(v: SpecCContentServerDirectory_GetDepotPatchInfo_Response)
        ensures
            fold_fields(Self::spec_prefix(v, 2), opt_u64(3, v.patched_chunks_size), Self::apply_fn())
                == Ok::<SpecCContentServerDirectory_GetDepotPatchInfo_Response, WireError>(Self::spec_prefix(v, 3)),
    {
        reveal(CContentServerDirectory_GetDepotPatchInfo_Response::spec_prefix);
        reveal(opt_u64);
        let apply = Self::apply_fn();
        let s = Self::spec_prefix(v, 2);
        lemma_fold_opt(s, 3, match v.patched_chunks_size { Some(x) => Some(enc_u64(x)), None => None }, apply);
        if let Some(x) = v.patched_chunks_size {
            lemma_u64_roundtrip(x);
        }
        assert(SpecCContentServerDirectory_GetDepotPatchInfo_Response { patched_chunks_size: v.patched_chunks_size, ..s } == Self::spec_prefix(v, 3));
    }

    /// Whether this message declares field number `n`.
    pub open spec fn declares(n: u32) -> bool {
        n == 1 || n == 2 || n == 3
    }

    /// A record with a number this message does not declare is passed over: well-formed
    /// bytes decode to the same message with such a record after them as without it.
    pub proof fn lemma_unknown_field(bytes: Seq<u8>, f: SpecField)
        requires
            parse_fields(bytes) is Ok,
            field_wf(f),
            !Self::declares(f.number),
        ensures
            Self::spec_decode(bytes + field_bytes(f)) == Self::spec_decode(bytes),
    {
        reveal(CContentServerDirectory_GetDepotPatchInfo_Response::spec_decode);
        lemma_parse_fields_append(bytes, f);
        let fs = parse_fields(bytes).unwrap();
        let apply = Self::apply_fn();
        lemma_fold_concat(Self::spec_default(), fs, seq![f], apply);
        assert(fs.push(f) =~= fs + seq![f]);
        if let Ok(w) = fold_fields(Self::spec_default(), fs, apply) {
            lemma_fold_single(w, f, apply);
        }
        lemma_merge_run_fold(Self::spec_default(), bytes, apply);
        lemma_merge_run_fold(Self::spec_default(), bytes + field_bytes(f), apply);
    }

    /// Decoding the encoding of a message gives the message back.
    pub proof fn lemma_decode_encode(v: SpecCContentServerDirectory_GetDepotPatchInfo_Response)
        requires
            Self::spec_encode(v).len() <= u64::MAX,
        ensures
            Self::spec_decode(Self::spec_encode(v)) == Ok::<SpecCContentServerDirectory_GetDepotPatchInfo_Response, WireError>(v),
    {
        let apply = Self::apply_fn();
        let d = Self::spec_default();
        let p0 = Seq::<SpecField>::empty();
        let l1 = opt_bool(1, v.is_available);
        let p1 = p0 + l1;
        let l2 = opt_u64(2, v.patch_size);
        let p2 = p1 + l2;
        let l3 = opt_u64(3, v.patched_chunks_size);
        let p3 = p2 + l3;
        assert(parse_fields(Self::spec_encode(v)) == Ok::<Seq<SpecField>, WireError>(p3)) by {
            reveal(CContentServerDirectory_GetDepotPatchInfo_Response::spec_encode);
            assert(numbers_ok(p0) && fields_wf(p0)) by {
                reveal(numbers_ok);
                reveal(fields_wf);
            }
            lemma_opt_bool_numbered(1, v.is_available);
            lemma_fields_wf_concat(p0, l1);
            lemma_opt_u64_numbered(2, v.patch_size);
            lemma_fields_wf_concat(p1, l2);
            lemma_opt_u64_numbered(3, v.patched_chunks_size);
            lemma_fields_wf_concat(p2, l3);
            assert(p3 == Self::spec_fields(v));
            lemma_fields_wf_from_len(p3);
            lemma_fields_roundtrip(p3);
        }
        assert(Self::spec_prefix(v, 0) == d) by {
            reveal(CContentServerDirectory_GetDepotPatchInfo_Response::spec_prefix);
        }
        lemma_fold_empty(d, apply);
        lemma_fold_concat(d, p0, l1, apply);
        Self::lemma_field_is_available(v);
        lemma_fold_concat(d, p1, l2, apply);
        Self::lemma_field_patch_size(v);
        lemma_fold_concat(d, p2, l3, apply);
        Self::lemma_field_patched_chunks_size(v);
        assert(Self::spec_prefix(v, 3) == v) by {
            reveal(CContentServerDirectory_GetDepotPatchInfo_Response::spec_prefix);
        }
        lemma_merge_run_fold(d, Self::spec_encode(v), apply);
        assert(Self::spec_decode(Self::spec_encode(v)) == Ok::<SpecCContentServerDirectory_GetDepotPatchInfo_Response, WireError>(v)) by {
            reveal(CContentServerDirectory_GetDepotPatchInfo_Response::spec_decode);
        }
    }
}

/// `CContentServerDirectory_GetClientUpdateHosts_Request`, as Valve's schema declares it.
#[derive(Debug, Clone, PartialEq)]
pub struct CContentServerDirectory_GetClientUpdateHosts_Request {
    /// Field 1.
    pub cached_signature: Option<String>,
}

/// What a `CContentServerDirectory_GetClientUpdateHosts_Request` holds, as mathematical values.
#[verifier::ext_equal]
pub struct SpecCContentServerDirectory_GetClientUpdateHosts_Request {
    pub cached_signature: Option<Seq<char>>,
}

impl View for CContentServerDirectory_GetClientUpdateHosts_Request {
    type V = SpecCContentServerDirectory_GetClientUpdateHosts_Request;

    open spec fn view(&self) -> SpecCContentServerDirectory_GetClientUpdateHosts_Request {
        SpecCContentServerDirectory_GetClientUpdateHosts_Request {
            cached_signature: opt_string_view(self.cached_signature),
        }
    }
}

impl Default for CContentServerDirectory_GetClientUpdateHosts_Request {
    fn default() -> (r: Self)
        ensures
            r@ == CContentServerDirectory_GetClientUpdateHosts_Request::spec_default(),
    {
        CContentServerDirectory_GetClientUpdateHosts_Request {
            cached_signature: None,
        }
    }
}

impl CContentServerDirectory_GetClientUpdateHosts_Request {
    pub open spec fn spec_default() -> SpecCContentServerDirectory_GetClientUpdateHosts_Request {
        SpecCContentServerDirectory_GetClientUpdateHosts_Request {
            cached_signature: None,
        }
    }

    /// The records a `CContentServerDirectory_GetClientUpdateHosts_Request` is written as, in field order.
    pub open spec fn spec_fields(v: SpecCContentServerDirectory_GetClientUpdateHosts_Request) -> Seq<SpecField> {
        Seq::<SpecField>::empty()
            + opt_string(1, v.cached_signature)
    }

    #[verifier::opaque]
    pub open spec fn spec_encode(v: SpecCContentServerDirectory_GetClientUpdateHosts_Request) -> Seq<u8> {
        fields_bytes(Self::spec_fields(v))
    }

    /// What one record does to the message: a declared number sets or extends its
    /// field, any other number is left alone.
    pub open spec fn spec_apply(v: SpecCContentServerDirectory_GetClientUpdateHosts_Request, f: SpecField) -> Result<SpecCContentServerDirectory_GetClientUpdateHosts_Request, WireError> {
        match f.number {
            1 => match dec_string(f.value) {
                Ok(x) => Ok(SpecCContentServerDirectory_GetClientUpdateHosts_Request { cached_signature: Some(x), ..v }),
                Err(e) => Err(e),
            },
            _ => Ok(v),
        }
    }

    pub open spec fn apply_fn() -> spec_fn(SpecCContentServerDirectory_GetClientUpdateHosts_Request, SpecField) -> Result<SpecCContentServerDirectory_GetClientUpdateHosts_Request, WireError> {
        |v: SpecCContentServerDirectory_GetClientUpdateHosts_Request, f: SpecField| Self::spec_apply(v, f)
    }

    /// The message `bytes` makes of `v`: its records applied in order, or the error
    /// that stops the reading.
    pub open spec fn spec_merge(v: SpecCContentServerDirectory_GetClientUpdateHosts_Request, bytes: Seq<u8>) -> Result<SpecCContentServerDirectory_GetClientUpdateHosts_Request, WireError> {
        let (w, stop) = merge_run(v, bytes, Self::apply_fn());
        match stop {
            None => Ok(w),
            Some(e) => Err(e),
        }
    }

    #[verifier::opaque]
    pub open spec fn spec_decode(bytes: Seq<u8>) -> Result<SpecCContentServerDirectory_GetClientUpdateHosts_Request, WireError> {
        Self::spec_merge(Self::spec_default(), bytes)
    }

    /// This message with one record applied to it, or, when the record is refused,
    /// the message unchanged and the reason.
    fn applied(self, f: &Field) -> (r: Result<Self, (Self, WireError)>)
        ensures
            match Self::spec_apply(self@, f@) {
                Ok(v) => r matches Ok(m) && m@ == v,
                Err(e) => r matches Err((m, x)) && x == e && m@ == self@,
            },
    {
        match f.number {
            1 => match read_string(&f.value) {
                Ok(x) => Ok(Self { cached_signature: Some(x), ..self }),
                Err(e) => Err((self, e)),
            },
            _ => Ok(self),
        }
    }

    /// Reads the records `bytes` holds into this message, in order. When a record does
    /// not parse or is refused, the reading stops there: the message keeps what the
    /// records before it gave, and the error is returned.
    pub fn merge(&mut self, bytes: &[u8]) -> (r: Result<(), WireError>)
        ensures
            final(self)@ == merge_run(old(self)@, bytes@, Self::apply_fn()).0,
            r == match merge_run(old(self)@, bytes@, Self::apply_fn()).1 {
                None => Ok::<(), WireError>(()),
                Some(e) => Err::<(), WireError>(e),
            },
    {
        let ghost total = merge_run(self@, bytes@, Self::apply_fn());
        let mut cur = Self::default();
        std::mem::swap(&mut cur, self);
        let mut pos: usize = 0;
        assert(bytes@.skip(0) =~= bytes@);
        while pos < bytes.len()
            invariant
                pos <= bytes@.len(),
                total == merge_run(old(self)@, bytes@, Self::apply_fn()),
                merge_run(cur@, bytes@.skip(pos as int), Self::apply_fn()) == total,
            decreases bytes@.len() - pos,
        {
            let ghost s = bytes@.skip(pos as int);
            proof {
                lemma_merge_run_step(cur@, s, Self::apply_fn());
                lemma_parse_field_len(s);
            }
            match read_field(bytes, pos) {
                Ok((f, end)) => {
                    assert(bytes@.skip(end as int) =~= s.skip((end - pos) as int));
                    match cur.applied(&f) {
                        Ok(m) => {
                            cur = m;
                        },
                        Err((m, e)) => {
                            *self = m;
                            return Err(e);
                        },
                    }
                    pos = end;
                },
                Err(e) => {
                    *self = cur;
                    return Err(e);
                },
            }
        }
        assert(bytes@.skip(pos as int) =~= Seq::<u8>::empty());
        proof {
            lemma_merge_run_empty(cur@, Self::apply_fn());
        }
        *self = cur;
        Ok(())
    }

    /// Decodes a message from its encoding.
    pub fn decode(bytes: &[u8]) -> (r: Result<Self, WireError>)
        ensures
            match Self::spec_decode(bytes@) {
                Ok(v) => r matches Ok(m) && m@ == v,
                Err(e) => r matches Err(x) && x == e,
            },
    {
        proof {
            reveal(CContentServerDirectory_GetClientUpdateHosts_Request::spec_decode);
        }
        let mut m = Self::default();
        match m.merge(bytes) {
            Ok(()) => Ok(m),
            Err(e) => Err(e),
        }
    }

    /// The encoding of this message.
    pub fn encode_to_vec(&self) -> (r: Vec<u8>)
        ensures
            r@ == Self::spec_encode(self@),
    {
        let ghost v = self@;
        let mut out: Vec<u8> = Vec::new();
        let ghost p0 = Seq::<SpecField>::empty();
        put_opt_string(&mut out, 1, &self.cached_signature);
        let ghost p1 = p0 + opt_string(1, v.cached_signature);
        proof {
            lemma_fields_bytes_concat(p0, opt_string(1, v.cached_signature));
        }
        proof {
            reveal(CContentServerDirectory_GetClientUpdateHosts_Request::spec_encode);
        }
        assert(p1 == Self::spec_fields(v));
        out
    }

    /// Appends the encoding of this message to `out`.
    pub fn encode_raw(&self, out: &mut Vec<u8>)
        ensures
            final(out)@ == old(out)@ + Self::spec_encode(self@),
    {
        let mut b = self.encode_to_vec();
        out.append(&mut b);
    }

    /// The first `k` fields of `v`, the others as a fresh message has them.
    #[verifier::opaque]
    pub open spec fn spec_prefix(v: SpecCContentServerDirectory_GetClientUpdateHosts_Request, k: int) -> SpecCContentServerDirectory_GetClientUpdateHosts_Request {
        SpecCContentServerDirectory_GetClientUpdateHosts_Request {
            cached_signature: if 1 <= k { v.cached_signature } else { None },
        }
    }

    /// Reading field 1 back, after the fields before it.
    proof fn lemma_field_cached_signature(v: SpecCContentServerDirectory_GetClientUpdateHosts_Request)
        ensures
            fold_fields(Self::spec_prefix(v, 0), opt_string(1, v.cached_signature), Self::apply_fn())
                == Ok::<SpecCContentServerDirectory_GetClientUpdateHosts_Request, WireError>(Self::spec_prefix(v, 1)),
    {
        reveal(CContentServerDirectory_GetClientUpdateHosts_Request::spec_prefix);
        reveal(opt_string);
        let apply = Self::apply_fn();
        let s = Self::spec_prefix(v, 0);
        lemma_fold_opt(s, 1, match v.cached_signature { Some(x) => Some(enc_string(x)), None => None }, apply);
        if let Some(x) = v.cached_signature {
            lemma_string_roundtrip(x);
        }
        assert(SpecCContentServerDirectory_GetClientUpdateHosts_Request { cached_signature: v.cached_signature, ..s } == Self::spec_prefix(v, 1));
    }

    /// Whether this message declares field number `n`.
    pub open spec fn declares(n: u32) -> bool {
        n == 1
    }

    /// A record with a number this message does not declare is passed over: well-formed
    /// bytes decode to the same message with such a record after them as without it.
    pub proof fn lemma_unknown_field(bytes: Seq<u8>, f: SpecField)
        requires
            parse_fields(bytes) is Ok,
            field_wf(f),
            !Self::declares(f.number),
        ensures
            Self::spec_decode(bytes + field_bytes(f)) == Self::spec_decode(bytes),
    {
        reveal(CContentServerDirectory_GetClientUpdateHosts_Request::spec_decode);
        lemma_parse_fields_append(bytes, f);
        let fs = parse_fields(bytes).unwrap();
        let apply = Self::apply_fn();
        lemma_fold_concat(Self::spec_default(), fs, seq![f], apply);
        assert(fs.push(f) =~= fs + seq![f]);
        if let Ok(w) = fold_fields(Self::spec_default(), fs, apply) {
            lemma_fold_single(w, f, apply);
        }
        lemma_merge_run_fold(Self::spec_default(), bytes, apply);
        lemma_merge_run_fold(Self::spec_default(), bytes + field_bytes(f), apply);
    }

    /// Decoding the encoding of a message gives the message back.
    pub proof fn lemma_decode_encode(v: SpecCContentServerDirectory_GetClientUpdateHosts_Request)
        requires
            Self::spec_encode(v).len() <= u64::MAX,
        ensures
            Self::spec_decode(Self::spec_encode(v)) == Ok::<SpecCContentServerDirectory_GetClientUpdateHosts_Request, WireError>(v),
    {
        let apply = Self::apply_fn();
        let d = Self::spec_default();
        let p0 = Seq::<SpecField>::empty();
        let l1 = opt_string(1, v.cached_signature);
        let p1 = p0 + l1;
        assert(parse_fields(Self::spec_encode(v)) == Ok::<Seq<SpecField>, WireError>(p1)) by {
            reveal(CContentServerDirectory_GetClientUpdateHosts_Request::spec_encode);
            assert(numbers_ok(p0) && fields_wf(p0)) by {
                reveal(numbers_ok);
                reveal(fields_wf);
            }
            lemma_opt_string_numbered(1, v.cached_signature);
            lemma_fields_wf_concat(p0, l1);
            assert(p1 == Self::spec_fields(v));
            lemma_fields_wf_from_len(p1);
            lemma_fields_roundtrip(p1);
        }
        assert(Self::spec_prefix(v, 0) == d) by {
            reveal(CContentServerDirectory_GetClientUpdateHosts_Request::spec_prefix);
        }
        lemma_fold_empty(d, apply);
        lemma_fold_concat(d, p0, l1, apply);
        Self::lemma_field_cached_signature(v);
        assert(Self::spec_prefix(v, 1) == v) by {
            reveal(CContentServerDirectory_GetClientUpdateHosts_Request::spec_prefix);
        }
        lemma_merge_run_fold(d, Self::spec_encode(v), apply);
        assert(Self::spec_decode(Self::spec_encode(v)) == Ok::<SpecCContentServerDirectory_GetClientUpdateHosts_Request, WireError>(v)) by {
            reveal(CContentServerDirectory_GetClientUpdateHosts_Request::spec_decode);
        }
    }
}

/// `CContentServerDirectory_GetClientUpdateHosts_Response`, as Valve's schema declares it.
#[derive(Debug, Clone, PartialEq)]
pub struct CContentServerDirectory_GetClientUpdateHosts_Response {
    /// Field 1.
    pub hosts_kv: Option<String>,
    /// Field 2.
    pub valid_until_time: Option<u64>,
    /// Field 3.
    pub ip_country: Option<String>,
}

/// What a `CContentServerDirectory_GetClientUpdateHosts_Response` holds, as mathematical values.
#[verifier::ext_equal]
pub struct SpecCContentServerDirectory_GetClientUpdateHosts_Response {
    pub hosts_kv: Option<Seq<char>>,
    pub valid_until_time: Option<u64>,
    pub ip_country: Option<Seq<char>>,
}

impl View for CContentServerDirectory_GetClientUpdateHosts_Response {
    type V = SpecCContentServerDirectory_GetClientUpdateHosts_Response;

    open spec fn view(&self) -> SpecCContentServerDirectory_GetClientUpdateHosts_Response {
        SpecCContentServerDirectory_GetClientUpdateHosts_Response {
            hosts_kv: opt_string_view(self.hosts_kv),
            valid_until_time: self.valid_until_time,
            ip_country: opt_string_view(self.ip_country),
        }
    }
}

impl Default for CContentServerDirectory_GetClientUpdateHosts_Response {
    fn default() -> (r: Self)
        ensures
            r@ == CContentServerDirectory_GetClientUpdateHosts_Response::spec_default(),
    {
        CContentServerDirectory_GetClientUpdateHosts_Response {
            hosts_kv: None,
            valid_until_time: None,
            ip_country: None,
        }
    }
}

impl CContentServerDirectory_GetClientUpdateHosts_Response {
    pub open spec fn spec_default() -> SpecCContentServerDirectory_GetClientUpdateHosts_Response {
        SpecCContentServerDirectory_GetClientUpdateHosts_Response {
            hosts_kv: None,
            valid_until_time: None,
            ip_country: None,
        }
    }

    /// The records a `CContentServerDirectory_GetClientUpdateHosts_Response` is written as, in field order.
    pub open spec fn spec_fields(v: SpecCContentServerDirectory_GetClientUpdateHosts_Response) -> Seq<SpecField> {
        Seq::<SpecField>::empty()
            + opt_string(1, v.hosts_kv)
            + opt_u64(2, v.valid_until_time)
            + opt_string(3, v.ip_country)
    }

    #[verifier::opaque]
    pub open spec fn spec_encode(v: SpecCContentServerDirectory_GetClientUpdateHosts_Response) -> Seq<u8> {
        fields_bytes(Self::spec_fields(v))
    }

    /// What one record does to the message: a declared number sets or extends its
    /// field, any other number is left alone.
    pub open spec fn spec_apply(v: SpecCContentServerDirectory_GetClientUpdateHosts_Response, f: SpecField) -> Result<SpecCContentServerDirectory_GetClientUpdateHosts_Response, WireError> {
        match f.number {
            1 => match dec_string(f.value) {
                Ok(x) => Ok(SpecCContentServerDirectory_GetClientUpdateHosts_Response { hosts_kv: Some(x), ..v }),
                Err(e) => Err(e),
            },
            2 => match dec_u64(f.value) {
                Ok(x) => Ok(SpecCContentServerDirectory_GetClientUpdateHosts_Response { valid_until_time: Some(x), ..v }),
                Err(e) => Err(e),
            },
            3 => match dec_string(f.value) {
                Ok(x) => Ok(SpecCContentServerDirectory_GetClientUpdateHosts_Response { ip_country: Some(x), ..v }),
                Err(e) => Err(e),
            },
            _ => Ok(v),
        }
    }

    pub open spec fn apply_fn() -> spec_fn(SpecCContentServerDirectory_GetClientUpdateHosts_Response, SpecField) -> Result<SpecCContentServerDirectory_GetClientUpdateHosts_Response, WireError> {
        |v: SpecCContentServerDirectory_GetClientUpdateHosts_Response, f: SpecField| Self::spec_apply(v, f)
    }

    /// The message `bytes` makes of `v`: its records applied in order, or the error
    /// that stops the reading.
    pub open spec fn spec_merge(v: SpecCContentServerDirectory_GetClientUpdateHosts_Response, bytes: Seq<u8>) -> Result<SpecCContentServerDirectory_GetClientUpdateHosts_Response, WireError> {
        let (w, stop) = merge_run(v, bytes, Self::apply_fn());
        match stop {
            None => Ok(w),
            Some(e) => Err(e),
        }
    }

    #[verifier::opaque]
    pub open spec fn spec_decode(bytes: Seq<u8>) -> Result<SpecCContentServerDirectory_GetClientUpdateHosts_Response, WireError> {
        Self::spec_merge(Self::spec_default(), bytes)
    }

    /// This message with one record applied to it, or, when the record is refused,
    /// the message unchanged and the reason.
    fn applied(self, f: &Field) -> (r: Result<Self, (Self, WireError)>)
        ensures
            match Self::spec_apply(self@, f@) {
                Ok(v) => r matches Ok(m) && m@ == v,
                Err(e) => r matches Err((m, x)) && x == e && m@ == self@,
            },
    {
        match f.number {
            1 => match read_string(&f.value) {
                Ok(x) => Ok(Self { hosts_kv: Some(x), ..self }),
                Err(e) => Err((self, e)),
            },
            2 => match read_u64(&f.value) {
                Ok(x) => Ok(Self { valid_until_time: Some(x), ..self }),
                Err(e) => Err((self, e)),
            },
            3 => match read_string(&f.value) {
                Ok(x) => Ok(Self { ip_country: Some(x), ..self }),
                Err(e) => Err((self, e)),
            },
            _ => Ok(self),
        }
    }

    /// Reads the records `bytes` holds into this message, in order. When a record does
    /// not parse or is refused, the reading stops there: the message keeps what the
    /// records before it gave, and the error is returned.
    pub fn merge(&mut self, bytes: &[u8]) -> (r: Result<(), WireError>)
        ensures
            final(self)@ == merge_run(old(self)@, bytes@, Self::apply_fn()).0,
            r == match merge_run(old(self)@, bytes@, Self::apply_fn()).1 {
                None => Ok::<(), WireError>(()),
                Some(e) => Err::<(), WireError>(e),
            },
    {
        let ghost total = merge_run(self@, bytes@, Self::apply_fn());
        let mut cur = Self::default();
        std::mem::swap(&mut cur, self);
        let mut pos: usize = 0;
        assert(bytes@.skip(0) =~= bytes@);
        while pos < bytes.len()
            invariant
                pos <= bytes@.len(),
                total == merge_run(old(self)@, bytes@, Self::apply_fn()),
                merge_run(cur@, bytes@.skip(pos as int), Self::apply_fn()) == total,
            decreases bytes@.len() - pos,
        {
            let ghost s = bytes@.skip(pos as int);
            proof {
                lemma_merge_run_step(cur@, s, Self::apply_fn());
                lemma_parse_field_len(s);
            }
            match read_field(bytes, pos) {
                Ok((f, end)) => {
                    assert(bytes@.skip(end as int) =~= s.skip((end - pos) as int));
                    match cur.applied(&f) {
                        Ok(m) => {
                            cur = m;
                        },
                        Err((m, e)) => {
                            *self = m;
                            return Err(e);
                        },
                    }
                    pos = end;
                },
                Err(e) => {
                    *self = cur;
                    return Err(e);
                },
            }
        }
        assert(bytes@.skip(pos as int) =~= Seq::<u8>::empty());
        proof {
            lemma_merge_run_empty(cur@, Self::apply_fn());
        }
        *self = cur;
        Ok(())
    }

    /// Decodes a message from its encoding.
    pub fn decode(bytes: &[u8]) -> (r: Result<Self, WireError>)
        ensures
            match Self::spec_decode(bytes@) {
                Ok(v) => r matches Ok(m) && m@ == v,
                Err(e) => r matches Err(x) && x == e,
            },
    {
        proof {
            reveal(CContentServerDirectory_GetClientUpdateHosts_Response::spec_decode);
        }
        let mut m = Self::default();
        match m.merge(bytes) {
            Ok(()) => Ok(m),
            Err(e) => Err(e),
        }
    }

    /// The encoding of this message.
    pub fn encode_to_vec(&self) -> (r: Vec<u8>)
        ensures
            r@ == Self::spec_encode(self@),
    {
        let ghost v = self@;
        let mut out: Vec<u8> = Vec::new();
        let ghost p0 = Seq::<SpecField>::empty();
        put_opt_string(&mut out, 1, &self.hosts_kv);
        let ghost p1 = p0 + opt_string(1, v.hosts_kv);
        proof {
            lemma_fields_bytes_concat(p0, opt_string(1, v.hosts_kv));
        }
        put_opt_varint(&mut out, 2, self.valid_until_time);
        let ghost p2 = p1 + opt_u64(2, v.valid_until_time);
        proof {
            lemma_fields_bytes_concat(p1, opt_u64(2, v.valid_until_time));
        }
        put_opt_string(&mut out, 3, &self.ip_country);
        let ghost p3 = p2 + opt_string(3, v.ip_country);
        proof {
            lemma_fields_bytes_concat(p2, opt_string(3, v.ip_country));
        }
        proof {
            reveal(CContentServerDirectory_GetClientUpdateHosts_Response::spec_encode);
        }
        assert(p3 == Self::spec_fields(v));
        out
    }

    /// Appends the encoding of this message to `out`.
    pub fn encode_raw(&self, out: &mut Vec<u8>)
        ensures
            final(out)@ == old(out)@ + Self::spec_encode(self@),
    {
        let mut b = self.encode_to_vec();
        out.append(&mut b);
    }

    /// The first `k` fields of `v`, the others as a fresh message has them.
    #[verifier::opaque]
    pub open spec fn spec_prefix(v: SpecCContentServerDirectory_GetClientUpdateHosts_Response, k: int) -> SpecCContentServerDirectory_GetClientUpdateHosts_Response {
        SpecCContentServerDirectory_GetClientUpdateHosts_Response {
            hosts_kv: if 1 <= k { v.hosts_kv } else { None },
            valid_until_time: if 2 <= k { v.valid_until_time } else { None },
            ip_country: if 3 <= k { v.ip_country } else { None },
        }
    }

    /// Reading field 1 back, after the fields before it.
    proof fn lemma_field_hosts_kv(v: SpecCContentServerDirectory_GetClientUpdateHosts_Response)
        ensures
            fold_fields(Self::spec_prefix(v, 0), opt_string(1, v.hosts_kv), Self::apply_fn())
                == Ok::<SpecCContentServerDirectory_GetClientUpdateHosts_Response, WireError>(Self::spec_prefix(v, 1)),
    {
        reveal(CContentServerDirectory_GetClientUpdateHosts_Response::spec_prefix);
        reveal(opt_string);
        let apply = Self::apply_fn();
        let s = Self::spec_prefix(v, 0);
        lemma_fold_opt(s, 1, match v.hosts_kv { Some(x) => Some(enc_string(x)), None => None }, apply);
        if let Some(x) = v.hosts_kv {
            lemma_string_roundtrip(x);
        }
        assert(SpecCContentServerDirectory_GetClientUpdateHosts_Response { hosts_kv: v.hosts_kv, ..s } == Self::spec_prefix(v, 1));
    }

    /// Reading field 2 back, after the fields before it.
    proof fn lemma_field_valid_until_time(v: SpecCContentServerDirectory_GetClientUpdateHosts_Response)
        ensures
            fold_fields(Self::spec_prefix(v, 1), opt_u64(2, v.valid_until_time), Self::apply_fn())
                == Ok::<SpecCContentServerDirectory_GetClientUpdateHosts_Response, WireError>(Self::spec_prefix(v, 2)),
    {
        reveal(CContentServerDirectory_GetClientUpdateHosts_Response::spec_prefix);
        reveal(opt_u64);
        let apply = Self::apply_fn();
        let s = Self::spec_prefix(v, 1);
        lemma_fold_opt(s, 2, match v.valid_until_time { Some(x) => Some(enc_u64(x)), None => None }, apply);
        if let Some(x) = v.valid_until_time {
            lemma_u64_roundtrip(x);
        }
        assert(SpecCContentServerDirectory_GetClientUpdateHosts_Response { valid_until_time: v.valid_until_time, ..s } == Self::spec_prefix(v, 2));
    }

    /// Reading field 3 back, after the fields before it.
    proof fn lemma_field_ip_country(v: SpecCContentServerDirectory_GetClientUpdateHosts_Response)
        ensures
            fold_fields(Self::spec_prefix(v, 2), opt_string(3, v.ip_country), Self::apply_fn())
                == Ok::<SpecCContentServerDirectory_GetClientUpdateHosts_Response, WireError>(Self::spec_prefix(v, 3)),
    {
        reveal(CContentServerDirectory_GetClientUpdateHosts_Response::spec_prefix);
        reveal(opt_string);
        let apply = Self::apply_fn();
        let s = Self::spec_prefix(v, 2);
        lemma_fold_opt(s, 3, match v.ip_country { Some(x) => Some(enc_string(x)), None => None }, apply);
        if let Some(x) = v.ip_country {
            lemma_string_roundtrip(x);
        }
        assert(SpecCContentServerDirectory_GetClientUpdateHosts_Response { ip_country: v.ip_country, ..s } == Self::spec_prefix(v, 3));
    }

    /// Whether this message declares field number `n`.
    pub open spec fn declares(n: u32) -> bool {
        n == 1 || n == 2 || n == 3
    }

    /// A record with a number this message does not declare is passed over: well-formed
    /// bytes decode to the same message with such a record after them as without it.
    pub proof fn lemma_unknown_field(bytes: Seq<u8>, f: SpecField)
        requires
            parse_fields(bytes) is Ok,
            field_wf(f),
            !Self::declares(f.number),
        ensures
            Self::spec_decode(bytes + field_bytes(f)) == Self::spec_decode(bytes),
    {
        reveal(CContentServerDirectory_GetClientUpdateHosts_Response::spec_decode);
        lemma_parse_fields_append(bytes, f);
        let fs = parse_fields(bytes).unwrap();
        let apply = Self::apply_fn();
        lemma_fold_concat(Self::spec_default(), fs, seq![f], apply);
        assert(fs.push(f) =~= fs + seq![f]);
        if let Ok(w) = fold_fields(Self::spec_default(), fs, apply) {
            lemma_fold_single(w, f, apply);
        }
        lemma_merge_run_fold(Self::spec_default(), bytes, apply);
        lemma_merge_run_fold(Self::spec_default(), bytes + field_bytes(f), apply);
    }

    /// Decoding the encoding of a message gives the message back.
    pub proof fn lemma_decode_encode(v: SpecCContentServerDirectory_GetClientUpdateHosts_Response)
        requires
            Self::spec_encode(v).len() <= u64::MAX,
        ensures
            Self::spec_decode(Self::spec_encode(v)) == Ok::<SpecCContentServerDirectory_GetClientUpdateHosts_Response, WireError>(v),
    {
        let apply = Self::apply_fn();
        let d = Self::spec_default();
        let p0 = Seq::<SpecField>::empty();
        let l1 = opt_string(1, v.hosts_kv);
        let p1 = p0 + l1;
        let l2 = opt_u64(2, v.valid_until_time);
        let p2 = p1 + l2;
        let l3 = opt_string(3, v.ip_country);
        let p3 = p2 + l3;
        assert(parse_fields(Self::spec_encode(v)) == Ok::<Seq<SpecField>, WireError>(p3)) by {
            reveal(CContentServerDirectory_GetClientUpdateHosts_Response::spec_encode);
            assert(numbers_ok(p0) && fields_wf(p0)) by {
                reveal(numbers_ok);
                reveal(fields_wf);
            }
            lemma_opt_string_numbered(1, v.hosts_kv);
            lemma_fields_wf_concat(p0, l1);
            lemma_opt_u64_numbered(2, v.valid_until_time);
            lemma_fields_wf_concat(p1, l2);
            lemma_opt_string_numbered(3, v.ip_country);
            lemma_fields_wf_concat(p2, l3);
            assert(p3 == Self::spec_fields(v));
            lemma_fields_wf_from_len(p3);
            lemma_fields_roundtrip(p3);
        }
        assert(Self::spec_prefix(v, 0) == d) by {
            reveal(CContentServerDirectory_GetClientUpdateHosts_Response::spec_prefix);
        }
        lemma_fold_empty(d, apply);
        lemma_fold_concat(d, p0, l1, apply);
        Self::lemma_field_hosts_kv(v);
        lemma_fold_concat(d, p1, l2, apply);
        Self::lemma_field_valid_until_time(v);
        lemma_fold_concat(d, p2, l3, apply);
        Self::lemma_field_ip_country(v);
        assert(Self::spec_prefix(v, 3) == v) by {
            reveal(CContentServerDirectory_GetClientUpdateHosts_Response::spec_prefix);
        }
        lemma_merge_run_fold(d, Self::spec_encode(v), apply);
        assert(Self::spec_decode(Self::spec_encode(v)) == Ok::<SpecCContentServerDirectory_GetClientUpdateHosts_Response, WireError>(v)) by {
            reveal(CContentServerDirectory_GetClientUpdateHosts_Response::spec_decode);
        }
    }
}

/// `CContentServerDirectory_GetManifestRequestCode_Request`, as Valve's schema declares it.
#[derive(Debug, Clone, PartialEq)]
pub struct CContentServerDirectory_GetManifestRequestCode_Request {
    /// Field 1.
    pub app_id: Option<u32>,
    /// Field 2.
    pub depot_id: Option<u32>,
    /// Field 3.
    pub manifest_id: Option<u64>,
    /// Field 4.
    pub app_branch: Option<String>,
    /// Field 5.
    pub branch_password_hash: Option<String>,
}

/// What a `CContentServerDirectory_GetManifestRequestCode_Request` holds, as mathematical values.
#[verifier::ext_equal]
pub struct SpecCContentServerDirectory_GetManifestRequestCode_Request {
    pub app_id: Option<u32>,
    pub depot_id: Option<u32>,
    pub manifest_id: Option<u64>,
    pub app_branch: Option<Seq<char>>,
    pub branch_password_hash: Option<Seq<char>>,
}

impl View for CContentServerDirectory_GetManifestRequestCode_Request {
    type V = SpecCContentServerDirectory_GetManifestRequestCode_Request;

    open spec fn view(&self) -> SpecCContentServerDirectory_GetManifestRequestCode_Request {
        SpecCContentServerDirectory_GetManifestRequestCode_Request {
            app_id: self.app_id,
            depot_id: self.depot_id,
            manifest_id: self.manifest_id,
            app_branch: opt_string_view(self.app_branch),
            branch_password_hash: opt_string_view(self.branch_password_hash),
        }
    }
}

impl Default for CContentServerDirectory_GetManifestRequestCode_Request {
    fn default() -> (r: Self)
        ensures
            r@ == CContentServerDirectory_GetManifestRequestCode_Request::spec_default(),
    {
        CContentServerDirectory_GetManifestRequestCode_Request {
            app_id: None,
            depot_id: None,
            manifest_id: None,
            app_branch: None,
            branch_password_hash: None,
        }
    }
}

impl CContentServerDirectory_GetManifestRequestCode_Request {
    pub open spec fn spec_default() -> SpecCContentServerDirectory_GetManifestRequestCode_Request {
        SpecCContentServerDirectory_GetManifestRequestCode_Request {
            app_id: None,
            depot_id: None,
            manifest_id: None,
            app_branch: None,
            branch_password_hash: None,
        }
    }

    /// The records a `CContentServerDirectory_GetManifestRequestCode_Request` is written as, in field order.
    pub open spec fn spec_fields(v: SpecCContentServerDirectory_GetManifestRequestCode_Request) -> Seq<SpecField> {
        Seq::<SpecField>::empty()
            + opt_u32(1, v.app_id)
            + opt_u32(2, v.depot_id)
            + opt_u64(3, v.manifest_id)
            + opt_string(4, v.app_branch)
            + opt_string(5, v.branch_password_hash)
    }

    #[verifier::opaque]
    pub open spec fn spec_encode(v: SpecCContentServerDirectory_GetManifestRequestCode_Request) -> Seq<u8> {
        fields_bytes(Self::spec_fields(v))
    }

    /// What one record does to the message: a declared number sets or extends its
    /// field, any other number is left alone.
    pub open spec fn spec_apply(v: SpecCContentServerDirectory_GetManifestRequestCode_Request, f: SpecField) -> Result<SpecCContentServerDirectory_GetManifestRequestCode_Request, WireError> {
        match f.number {
            1 => match dec_u32(f.value) {
                Ok(x) => Ok(SpecCContentServerDirectory_GetManifestRequestCode_Request { app_id: Some(x), ..v }),
                Err(e) => Err(e),
            },
            2 => match dec_u32(f.value) {
                Ok(x) => Ok(SpecCContentServerDirectory_GetManifestRequestCode_Request { depot_id: Some(x), ..v }),
                Err(e) => Err(e),
            },
            3 => match dec_u64(f.value) {
                Ok(x) => Ok(SpecCContentServerDirectory_GetManifestRequestCode_Request { manifest_id: Some(x), ..v }),
                Err(e) => Err(e),
            },
            4 => match dec_string(f.value) {
                Ok(x) => Ok(SpecCContentServerDirectory_GetManifestRequestCode_Request { app_branch: Some(x), ..v }),
                Err(e) => Err(e),
            },
            5 => match dec_string(f.value) {
                Ok(x) => Ok(SpecCContentServerDirectory_GetManifestRequestCode_Request { branch_password_hash: Some(x), ..v }),
                Err(e) => Err(e),
            },
            _ => Ok(v),
        }
    }

    pub open spec fn apply_fn() -> spec_fn(SpecCContentServerDirectory_GetManifestRequestCode_Request, SpecField) -> Result<SpecCContentServerDirectory_GetManifestRequestCode_Request, WireError> {
        |v: SpecCContentServerDirectory_GetManifestRequestCode_Request, f: SpecField| Self::spec_apply(v, f)
    }

    /// The message `bytes` makes of `v`: its records applied in order, or the error
    /// that stops the reading.
    pub open spec fn spec_merge(v: SpecCContentServerDirectory_GetManifestRequestCode_Request, bytes: Seq<u8>) -> Result<SpecCContentServerDirectory_GetManifestRequestCode_Request, WireError> {
        let (w, stop) = merge_run(v, bytes, Self::apply_fn());
        match stop {
            None => Ok(w),
            Some(e) => Err(e),
        }
    }

    #[verifier::opaque]
    pub open spec fn spec_decode(bytes: Seq<u8>) -> Result<SpecCContentServerDirectory_GetManifestRequestCode_Request, WireError> {
        Self::spec_merge(Self::spec_default(), bytes)
    }

    /// This message with one record applied to it, or, when the record is refused,
    /// the message unchanged and the reason.
    fn applied(self, f: &Field) -> (r: Result<Self, (Self, WireError)>)
        ensures
            match Self::spec_apply(self@, f@) {
                Ok(v) => r matches Ok(m) && m@ == v,
                Err(e) => r matches Err((m, x)) && x == e && m@ == self@,
            },
    {
        match f.number {
            1 => match read_u32(&f.value) {
                Ok(x) => Ok(Self { app_id: Some(x), ..self }),
                Err(e) => Err((self, e)),
            },
            2 => match read_u32(&f.value) {
                Ok(x) => Ok(Self { depot_id: Some(x), ..self }),
                Err(e) => Err((self, e)),
            },
            3 => match read_u64(&f.value) {
                Ok(x) => Ok(Self { manifest_id: Some(x), ..self }),
                Err(e) => Err((self, e)),
            },
            4 => match read_string(&f.value) {
                Ok(x) => Ok(Self { app_branch: Some(x), ..self }),
                Err(e) => Err((self, e)),
            },
            5 => match read_string(&f.value) {
                Ok(x) => Ok(Self { branch_password_hash: Some(x), ..self }),
                Err(e) => Err((self, e)),
            },
            _ => Ok(self),
        }
    }

    /// Reads the records `bytes` holds into this message, in order. When a record does
    /// not parse or is refused, the reading stops there: the message keeps what the
    /// records before it gave, and the error is returned.
    pub fn merge(&mut self, bytes: &[u8]) -> (r: Result<(), WireError>)
        ensures
            final(self)@ == merge_run(old(self)@, bytes@, Self::apply_fn()).0,
            r == match merge_run(old(self)@, bytes@, Self::apply_fn()).1 {
                None => Ok::<(), WireError>(()),
                Some(e) => Err::<(), WireError>(e),
            },
    {
        let ghost total = merge_run(self@, bytes@, Self::apply_fn());
        let mut cur = Self::default();
        std::mem::swap(&mut cur, self);
        let mut pos: usize = 0;
        assert(bytes@.skip(0) =~= bytes@);
        while pos < bytes.len()
            invariant
                pos <= bytes@.len(),
                total == merge_run(old(self)@, bytes@, Self::apply_fn()),
                merge_run(cur@, bytes@.skip(pos as int), Self::apply_fn()) == total,
            decreases bytes@.len() - pos,
        {
            let ghost s = bytes@.skip(pos as int);
            proof {
                lemma_merge_run_step(cur@, s, Self::apply_fn());
                lemma_parse_field_len(s);
            }
            match read_field(bytes, pos) {
                Ok((f, end)) => {
                    assert(bytes@.skip(end as int) =~= s.skip((end - pos) as int));
                    match cur.applied(&f) {
                        Ok(m) => {
                            cur = m;
                        },
                        Err((m, e)) => {
                            *self = m;
                            return Err(e);
                        },
                    }
                    pos = end;
                },
                Err(e) => {
                    *self = cur;
                    return Err(e);
                },
            }
        }
        assert(bytes@.skip(pos as int) =~= Seq::<u8>::empty());
        proof {
            lemma_merge_run_empty(cur@, Self::apply_fn());
        }
        *self = cur;
        Ok(())
    }

    /// Decodes a message from its encoding.
    pub fn decode(bytes: &[u8]) -> (r: Result<Self, WireError>)
        ensures
            match Self::spec_decode(bytes@) {
                Ok(v) => r matches Ok(m) && m@ == v,
                Err(e) => r matches Err(x) && x == e,
            },
    {
        proof {
            reveal(CContentServerDirectory_GetManifestRequestCode_Request::spec_decode);
        }
        let mut m = Self::default();
        match m.merge(bytes) {
            Ok(()) => Ok(m),
            Err(e) => Err(e),
        }
    }

    /// The encoding of this message.
    pub fn encode_to_vec(&self) -> (r: Vec<u8>)
        ensures
            r@ == Self::spec_encode(self@),
    {
        let ghost v = self@;
        let mut out: Vec<u8> = Vec::new();
        let ghost p0 = Seq::<SpecField>::empty();
        put_opt_u32(&mut out, 1, self.app_id);
        let ghost p1 = p0 + opt_u32(1, v.app_id);
        proof {
            lemma_fields_bytes_concat(p0, opt_u32(1, v.app_id));
        }
        put_opt_u32(&mut out, 2, self.depot_id);
        let ghost p2 = p1 + opt_u32(2, v.depot_id);
        proof {
            lemma_fields_bytes_concat(p1, opt_u32(2, v.depot_id));
        }
        put_opt_varint(&mut out, 3, self.manifest_id);
        let ghost p3 = p2 + opt_u64(3, v.manifest_id);
        proof {
            lemma_fields_bytes_concat(p2, opt_u64(3, v.manifest_id));
        }
        put_opt_string(&mut out, 4, &self.app_branch);
        let ghost p4 = p3 + opt_string(4, v.app_branch);
        proof {
            lemma_fields_bytes_concat(p3, opt_string(4, v.app_branch));
        }
        put_opt_string(&mut out, 5, &self.branch_password_hash);
        let ghost p5 = p4 + opt_string(5, v.branch_password_hash);
        proof {
            lemma_fields_bytes_concat(p4, opt_string(5, v.branch_password_hash));
        }
        proof {
            reveal(CContentServerDirectory_GetManifestRequestCode_Request::spec_encode);
        }
        assert(p5 == Self::spec_fields(v));
        out
    }

    /// Appends the encoding of this message to `out`.
    pub fn encode_raw(&self, out: &mut Vec<u8>)
        ensures
            final(out)@ == old(out)@ + Self::spec_encode(self@),
    {
        let mut b = self.encode_to_vec();
        out.append(&mut b);
    }

    /// The first `k` fields of `v`, the others as a fresh message has them.
    #[verifier::opaque]
    pub open spec fn spec_prefix(v: SpecCContentServerDirectory_GetManifestRequestCode_Request, k: int) -> SpecCContentServerDirectory_GetManifestRequestCode_Request {
        SpecCContentServerDirectory_GetManifestRequestCode_Request {
            app_id: if 1 <= k { v.app_id } else { None },
            depot_id: if 2 <= k { v.depot_id } else { None },
            manifest_id: if 3 <= k { v.manifest_id } else { None },
            app_branch: if 4 <= k { v.app_branch } else { None },
            branch_password_hash: if 5 <= k { v.branch_password_hash } else { None },
        }
    }

    /// Reading field 1 back, after the fields before it.
    proof fn lemma_field_app_id(v: SpecCContentServerDirectory_GetManifestRequestCode_Request)
        ensures
            fold_fields(Self::spec_prefix(v, 0), opt_u32(1, v.app_id), Self::apply_fn())
                == Ok::<SpecCContentServerDirectory_GetManifestRequestCode_Request, WireError>(Self::spec_prefix(v, 1)),
    {
        reveal(CContentServerDirectory_GetManifestRequestCode_Request::spec_prefix);
        reveal(opt_u32);
        let apply = Self::apply_fn();
        let s = Self::spec_prefix(v, 0);
        lemma_fold_opt(s, 1, match v.app_id { Some(x) => Some(enc_u32(x)), None => None }, apply);
        if let Some(x) = v.app_id {
            lemma_u32_roundtrip(x);
        }
        assert(SpecCContentServerDirectory_GetManifestRequestCode_Request { app_id: v.app_id, ..s } == Self::spec_prefix(v, 1));
    }

    /// Reading field 2 back, after the fields before it.
    proof fn lemma_field_depot_id(v: SpecCContentServerDirectory_GetManifestRequestCode_Request)
        ensures
            fold_fields(Self::spec_prefix(v, 1), opt_u32(2, v.depot_id), Self::apply_fn())
                == Ok::<SpecCContentServerDirectory_GetManifestRequestCode_Request, WireError>(Self::spec_prefix(v, 2)),
    {
        reveal(CContentServerDirectory_GetManifestRequestCode_Request::spec_prefix);
        reveal(opt_u32);
        let apply = Self::apply_fn();
        let s = Self::spec_prefix(v, 1);
        lemma_fold_opt(s, 2, match v.depot_id { Some(x) => Some(enc_u32(x)), None => None }, apply);
        if let Some(x) = v.depot_id {
            lemma_u32_roundtrip(x);
        }
        assert(SpecCContentServerDirectory_GetManifestRequestCode_Request { depot_id: v.depot_id, ..s } == Self::spec_prefix(v, 2));
    }

    /// Reading field 3 back, after the fields before it.
    proof fn lemma_field_manifest_id(v: SpecCContentServerDirectory_GetManifestRequestCode_Request)
        ensures
            fold_fields(Self::spec_prefix(v, 2), opt_u64(3, v.manifest_id), Self::apply_fn())
                == Ok::<SpecCContentServerDirectory_GetManifestRequestCode_Request, WireError>(Self::spec_prefix(v, 3)),
    {
        reveal(CContentServerDirectory_GetManifestRequestCode_Request::spec_prefix);
        reveal(opt_u64);
        let apply = Self::apply_fn();
        let s = Self::spec_prefix(v, 2);
        lemma_fold_opt(s, 3, match v.manifest_id { Some(x) => Some(enc_u64(x)), None => None }, apply);
        if let Some(x) = v.manifest_id {
            lemma_u64_roundtrip(x);
        }
        assert(SpecCContentServerDirectory_GetManifestRequestCode_Request { manifest_id: v.manifest_id, ..s } == Self::spec_prefix(v, 3));
    }

    /// Reading field 4 back, after the fields before it.
    proof fn lemma_field_app_branch(v: SpecCContentServerDirectory_GetManifestRequestCode_Request)
        ensures
            fold_fields(Self::spec_prefix(v, 3), opt_string(4, v.app_branch), Self::apply_fn())
                == Ok::<SpecCContentServerDirectory_GetManifestRequestCode_Request, WireError>(Self::spec_prefix(v, 4)),
    {
        reveal(CContentServerDirectory_GetManifestRequestCode_Request::spec_prefix);
        reveal(opt_string);
        let apply = Self::apply_fn();
        let s = Self::spec_prefix(v, 3);
        lemma_fold_opt(s, 4, match v.app_branch { Some(x) => Some(enc_string(x)), None => None }, apply);
        if let Some(x) = v.app_branch {
            lemma_string_roundtrip(x);
        }
        assert(SpecCContentServerDirectory_GetManifestRequestCode_Request { app_branch: v.app_branch, ..s } == Self::spec_prefix(v, 4));
    }

    /// Reading field 5 back, after the fields before it.
    proof fn lemma_field_branch_password_hash(v: SpecCContentServerDirectory_GetManifestRequestCode_Request)
        ensures
            fold_fields(Self::spec_prefix(v, 4), opt_string(5, v.branch_password_hash), Self::apply_fn())
                == Ok::<SpecCContentServerDirectory_GetManifestRequestCode_Request, WireError>(Self::spec_prefix(v, 5)),
    {
        reveal(CContentServerDirectory_GetManifestRequestCode_Request::spec_prefix);
        reveal(opt_string);
        let apply = Self::apply_fn();
        let s = Self::spec_prefix(v, 4);
        lemma_fold_opt(s, 5, match v.branch_password_hash { Some(x) => Some(enc_string(x)), None => None }, apply);
        if let Some(x) = v.branch_password_hash {
            lemma_string_roundtrip(x);
        }
        assert(SpecCContentServerDirectory_GetManifestRequestCode_Request { branch_password_hash: v.branch_password_hash, ..s } == Self::spec_prefix(v, 5));
    }

    /// Whether this message declares field number `n`.
    pub open spec fn declares(n: u32) -> bool {
        n == 1 || n == 2 || n == 3 || n == 4 || n == 5
    }

    /// A record with a number this message does not declare is passed over: well-formed
    /// bytes decode to the same message with such a record after them as without it.
    pub proof fn lemma_unknown_field(bytes: Seq<u8>, f: SpecField)
        requires
            parse_fields(bytes) is Ok,
            field_wf(f),
            !Self::declares(f.number),
        ensures
            Self::spec_decode(bytes + field_bytes(f)) == Self::spec_decode(bytes),
    {
        reveal(CContentServerDirectory_GetManifestRequestCode_Request::spec_decode);
        lemma_parse_fields_append(bytes, f);
        let fs = parse_fields(bytes).unwrap();
        let apply = Self::apply_fn();
        lemma_fold_concat(Self::spec_default(), fs, seq![f], apply);
        assert(fs.push(f) =~= fs + seq![f]);
        if let Ok(w) = fold_fields(Self::spec_default(), fs, apply) {
            lemma_fold_single(w, f, apply);
        }
        lemma_merge_run_fold(Self::spec_default(), bytes, apply);
        lemma_merge_run_fold(Self::spec_default(), bytes + field_bytes(f), apply);
    }

    /// Decoding the encoding of a message gives the message back.
    pub proof fn lemma_decode_encode(v: SpecCContentServerDirectory_GetManifestRequestCode_Request)
        requires
            Self::spec_encode(v).len() <= u64::MAX,
        ensures
            Self::spec_decode(Self::spec_encode(v)) == Ok::<SpecCContentServerDirectory_GetManifestRequestCode_Request, WireError>(v),
    {
        let apply = Self::apply_fn();
        let d = Self::spec_default();
        let p0 = Seq::<SpecField>::empty();
        let l1 = opt_u32(1, v.app_id);
        let p1 = p0 + l1;
        let l2 = opt_u32(2, v.depot_id);
        let p2 = p1 + l2;
        let l3 = opt_u64(3, v.manifest_id);
        let p3 = p2 + l3;
        let l4 = opt_string(4, v.app_branch);
        let p4 = p3 + l4;
        let l5 = opt_string(5, v.branch_password_hash);
        let p5 = p4 + l5;
        assert(parse_fields(Self::spec_encode(v)) == Ok::<Seq<SpecField>, WireError>(p5)) by {
            reveal(CContentServerDirectory_GetManifestRequestCode_Request::spec_encode);
            assert(numbers_ok(p0) && fields_wf(p0)) by {
                reveal(numbers_ok);
                reveal(fields_wf);
            }
            lemma_opt_u32_numbered(1, v.app_id);
            lemma_fields_wf_concat(p0, l1);
            lemma_opt_u32_numbered(2, v.depot_id);
            lemma_fields_wf_concat(p1, l2);
            lemma_opt_u64_numbered(3, v.manifest_id);
            lemma_fields_wf_concat(p2, l3);
            lemma_opt_string_numbered(4, v.app_branch);
            lemma_fields_wf_concat(p3, l4);
            lemma_opt_string_numbered(5, v.branch_password_hash);
            lemma_fields_wf_concat(p4, l5);
            assert(p5 == Self::spec_fields(v));
            lemma_fields_wf_from_len(p5);
            lemma_fields_roundtrip(p5);
        }
        assert(Self::spec_prefix(v, 0) == d) by {
            reveal(CContentServerDirectory_GetManifestRequestCode_Request::spec_prefix);
        }
        lemma_fold_empty(d, apply);
        lemma_fold_concat(d, p0, l1, apply);
        Self::lemma_field_app_id(v);
        lemma_fold_concat(d, p1, l2, apply);
        Self::lemma_field_depot_id(v);
        lemma_fold_concat(d, p2, l3, apply);
        Self::lemma_field_manifest_id(v);
        lemma_fold_concat(d, p3, l4, apply);
        Self::lemma_field_app_branch(v);
        lemma_fold_concat(d, p4, l5, apply);
        Self::lemma_field_branch_password_hash(v);
        assert(Self::spec_prefix(v, 5) == v) by {
            reveal(CContentServerDirectory_GetManifestRequestCode_Request::spec_prefix);
        }
        lemma_merge_run_fold(d, Self::spec_encode(v), apply);
        assert(Self::spec_decode(Self::spec_encode(v)) == Ok::<SpecCContentServerDirectory_GetManifestRequestCode_Request, WireError>(v)) by {
            reveal(CContentServerDirectory_GetManifestRequestCode_Request::spec_decode);
        }
    }
}

/// `CContentServerDirectory_GetManifestRequestCode_Response`, as Valve's schema declares it.
#[derive(Debug, Clone, PartialEq)]
pub struct CContentServerDirectory_GetManifestRequestCode_Response {
    /// Field 1.
    pub manifest_request_code: Option<u64>,
}

/// What a `CContentServerDirectory_GetManifestRequestCode_Response` holds, as mathematical values.
#[verifier::ext_equal]
pub struct SpecCContentServerDirectory_GetManifestRequestCode_Response {
    pub manifest_request_code: Option<u64>,
}

impl View for CContentServerDirectory_GetManifestRequestCode_Response {
    type V = SpecCContentServerDirectory_GetManifestRequestCode_Response;

    open spec fn view(&self) -> SpecCContentServerDirectory_GetManifestRequestCode_Response {
        SpecCContentServerDirectory_GetManifestRequestCode_Response {
            manifest_request_code: self.manifest_request_code,
        }
    }
}

impl Default for CContentServerDirectory_GetManifestRequestCode_Response {
    fn default() -> (r: Self)
        ensures
            r@ == CContentServerDirectory_GetManifestRequestCode_Response::spec_default(),
    {
        CContentServerDirectory_GetManifestRequestCode_Response {
            manifest_request_code: None,
        }
    }
}

impl CContentServerDirectory_GetManifestRequestCode_Response {
    pub open spec fn spec_default() -> SpecCContentServerDirectory_GetManifestRequestCode_Response {
        SpecCContentServerDirectory_GetManifestRequestCode_Response {
            manifest_request_code: None,
        }
    }

    /// The records a `CContentServerDirectory_GetManifestRequestCode_Response` is written as, in field order.
    pub open spec fn spec_fields(v: SpecCContentServerDirectory_GetManifestRequestCode_Response) -> Seq<SpecField> {
        Seq::<SpecField>::empty()
            + opt_u64(1, v.manifest_request_code)
    }

    #[verifier::opaque]
    pub open spec fn spec_encode(v: SpecCContentServerDirectory_GetManifestRequestCode_Response) -> Seq<u8> {
        fields_bytes(Self::spec_fields(v))
    }

    /// What one record does to the message: a declared number sets or extends its
    /// field, any other number is left alone.
    pub open spec fn spec_apply(v: SpecCContentServerDirectory_GetManifestRequestCode_Response, f: SpecField) -> Result<SpecCContentServerDirectory_GetManifestRequestCode_Response, WireError> {
        match f.number {
            1 => match dec_u64(f.value) {
                Ok(x) => Ok(SpecCContentServerDirectory_GetManifestRequestCode_Response { manifest_request_code: Some(x), ..v }),
                Err(e) => Err(e),
            },
            _ => Ok(v),
        }
    }

    pub open spec fn apply_fn() -> spec_fn(SpecCContentServerDirectory_GetManifestRequestCode_Response, SpecField) -> Result<SpecCContentServerDirectory_GetManifestRequestCode_Response, WireError> {
        |v: SpecCContentServerDirectory_GetManifestRequestCode_Response, f: SpecField| Self::spec_apply(v, f)
    }

    /// The message `bytes` makes of `v`: its records applied in order, or the error
    /// that stops the reading.
    pub open spec fn spec_merge(v: SpecCContentServerDirectory_GetManifestRequestCode_Response, bytes: Seq<u8>) -> Result<SpecCContentServerDirectory_GetManifestRequestCode_Response, WireError> {
        let (w, stop) = merge_run(v, bytes, Self::apply_fn());
        match stop {
            None => Ok(w),
            Some(e) => Err(e),
        }
    }

    #[verifier::opaque]
    pub open spec fn spec_decode(bytes: Seq<u8>) -> Result<SpecCContentServerDirectory_GetManifestRequestCode_Response, WireError> {
        Self::spec_merge(Self::spec_default(), bytes)
    }

    /// This message with one record applied to it, or, when the record is refused,
    /// the message unchanged and the reason.
    fn applied(self, f: &Field) -> (r: Result<Self, (Self, WireError)>)
        ensures
            match Self::spec_apply(self@, f@) {
                Ok(v) => r matches Ok(m) && m@ == v,
                Err(e) => r matches Err((m, x)) && x == e && m@ == self@,
            },
    {
        match f.number {
            1 => match read_u64(&f.value) {
                Ok(x) => Ok(Self { manifest_request_code: Some(x), ..self }),
                Err(e) => Err((self, e)),
            },
            _ => Ok(self),
        }
    }

    /// Reads the records `bytes` holds into this message, in order. When a record does
    /// not parse or is refused, the reading stops there: the message keeps what the
    /// records before it gave, and the error is returned.
    pub fn merge(&mut self, bytes: &[u8]) -> (r: Result<(), WireError>)
        ensures
            final(self)@ == merge_run(old(self)@, bytes@, Self::apply_fn()).0,
            r == match merge_run(old(self)@, bytes@, Self::apply_fn()).1 {
                None => Ok::<(), WireError>(()),
                Some(e) => Err::<(), WireError>(e),
            },
    {
        let ghost total = merge_run(self@, bytes@, Self::apply_fn());
        let mut cur = Self::default();
        std::mem::swap(&mut cur, self);
        let mut pos: usize = 0;
        assert(bytes@.skip(0) =~= bytes@);
        while pos < bytes.len()
            invariant
                pos <= bytes@.len(),
                total == merge_run(old(self)@, bytes@, Self::apply_fn()),
                merge_run(cur@, bytes@.skip(pos as int), Self::apply_fn()) == total,
            decreases bytes@.len() - pos,
        {
            let ghost s = bytes@.skip(pos as int);
            proof {
                lemma_merge_run_step(cur@, s, Self::apply_fn());
                lemma_parse_field_len(s);
            }
            match read_field(bytes, pos) {
                Ok((f, end)) => {
                    assert(bytes@.skip(end as int) =~= s.skip((end - pos) as int));
                    match cur.applied(&f) {
                        Ok(m) => {
                            cur = m;
                        },
                        Err((m, e)) => {
                            *self = m;
                            return Err(e);
                        },
                    }
                    pos = end;
                },
                Err(e) => {
                    *self = cur;
                    return Err(e);
                },
            }
        }
        assert(bytes@.skip(pos as int) =~= Seq::<u8>::empty());
        proof {
            lemma_merge_run_empty(cur@, Self::apply_fn());
        }
        *self = cur;
        Ok(())
    }

    /// Decodes a message from its encoding.
    pub fn decode(bytes: &[u8]) -> (r: Result<Self, WireError>)
        ensures
            match Self::spec_decode(bytes@) {
                Ok(v) => r matches Ok(m) && m@ == v,
                Err(e) => r matches Err(x) && x == e,
            },
    {
        proof {
            reveal(CContentServerDirectory_GetManifestRequestCode_Response::spec_decode);
        }
        let mut m = Self::default();
        match m.merge(bytes) {
            Ok(()) => Ok(m),
            Err(e) => Err(e),
        }
    }

    /// The encoding of this message.
    pub fn encode_to_vec(&self) -> (r: Vec<u8>)
        ensures
            r@ == Self::spec_encode(self@),
    {
        let ghost v = self@;
        let mut out: Vec<u8> = Vec::new();
        let ghost p0 = Seq::<SpecField>::empty();
        put_opt_varint(&mut out, 1, self.manifest_request_code);
        let ghost p1 = p0 + opt_u64(1, v.manifest_request_code);
        proof {
            lemma_fields_bytes_concat(p0, opt_u64(1, v.manifest_request_code));
        }
        proof {
            reveal(CContentServerDirectory_GetManifestRequestCode_Response::spec_encode);
        }
        assert(p1 == Self::spec_fields(v));
        out
    }

    /// Appends the encoding of this message to `out`.
    pub fn encode_raw(&self, out: &mut Vec<u8>)
        ensures
            final(out)@ == old(out)@ + Self::spec_encode(self@),
    {
        let mut b = self.encode_to_vec();
        out.append(&mut b);
    }

    /// The first `k` fields of `v`, the others as a fresh message has them.
    #[verifier::opaque]
    pub open spec fn spec_prefix(v: SpecCContentServerDirectory_GetManifestRequestCode_Response, k: int) -> SpecCContentServerDirectory_GetManifestRequestCode_Response {
        SpecCContentServerDirectory_GetManifestRequestCode_Response {
            manifest_request_code: if 1 <= k { v.manifest_request_code } else { None },
        }
    }

    /// Reading field 1 back, after the fields before it.
    proof fn lemma_field_manifest_request_code(v: SpecCContentServerDirectory_GetManifestRequestCode_Response)
        ensures
            fold_fields(Self::spec_prefix(v, 0), opt_u64(1, v.manifest_request_code), Self::apply_fn())
                == Ok::<SpecCContentServerDirectory_GetManifestRequestCode_Response, WireError>(Self::spec_prefix(v, 1)),
    {
        reveal(CContentServerDirectory_GetManifestRequestCode_Response::spec_prefix);
        reveal(opt_u64);
        let apply = Self::apply_fn();
        let s = Self::spec_prefix(v, 0);
        lemma_fold_opt(s, 1, match v.manifest_request_code { Some(x) => Some(enc_u64(x)), None => None }, apply);
        if let Some(x) = v.manifest_request_code {
            lemma_u64_roundtrip(x);
        }
        assert(SpecCContentServerDirectory_GetManifestRequestCode_Response { manifest_request_code: v.manifest_request_code, ..s } == Self::spec_prefix(v, 1));
    }

    /// Whether this message declares field number `n`.
    pub open spec fn declares(n: u32) -> bool {
        n == 1
    }

    /// A record with a number this message does not declare is passed over: well-formed
    /// bytes decode to the same message with such a record after them as without it.
    pub proof fn lemma_unknown_field(bytes: Seq<u8>, f: SpecField)
        requires
            parse_fields(bytes) is Ok,
            field_wf(f),
            !Self::declares(f.number),
        ensures
            Self::spec_decode(bytes + field_bytes(f)) == Self::spec_decode(bytes),
    {
        reveal(CContentServerDirectory_GetManifestRequestCode_Response::spec_decode);
        lemma_parse_fields_append(bytes, f);
        let fs = parse_fields(bytes).unwrap();
        let apply = Self::apply_fn();
        lemma_fold_concat(Self::spec_default(), fs, seq![f], apply);
        assert(fs.push(f) =~= fs + seq![f]);
        if let Ok(w) = fold_fields(Self::spec_default(), fs, apply) {
            lemma_fold_single(w, f, apply);
        }
        lemma_merge_run_fold(Self::spec_default(), bytes, apply);
        lemma_merge_run_fold(Self::spec_default(), bytes + field_bytes(f), apply);
    }

    /// Decoding the encoding of a message gives the message back.
    pub proof fn lemma_decode_encode(v: SpecCContentServerDirectory_GetManifestRequestCode_Response)
        requires
            Self::spec_encode(v).len() <= u64::MAX,
        ensures
            Self::spec_decode(Self::spec_encode(v)) == Ok::<SpecCContentServerDirectory_GetManifestRequestCode_Response, WireError>(v),
    {
        let apply = Self::apply_fn();
        let d = Self::spec_default();
        let p0 = Seq::<SpecField>::empty();
        let l1 = opt_u64(1, v.manifest_request_code);
        let p1 = p0 + l1;
        assert(parse_fields(Self::spec_encode(v)) == Ok::<Seq<SpecField>, WireError>(p1)) by {
            reveal(CContentServerDirectory_GetManifestRequestCode_Response::spec_encode);
            assert(numbers_ok(p0) && fields_wf(p0)) by {
                reveal(numbers_ok);
                reveal(fields_wf);
            }
            lemma_opt_u64_numbered(1, v.manifest_request_code);
            lemma_fields_wf_concat(p0, l1);
            assert(p1 == Self::spec_fields(v));
            lemma_fields_wf_from_len(p1);
            lemma_fields_roundtrip(p1);
        }
        assert(Self::spec_prefix(v, 0) == d) by {
            reveal(CContentServerDirectory_GetManifestRequestCode_Response::spec_prefix);
        }
        lemma_fold_empty(d, apply);
        lemma_fold_concat(d, p0, l1, apply);
        Self::lemma_field_manifest_request_code(v);
        assert(Self::spec_prefix(v, 1) == v) by {
            reveal(CContentServerDirectory_GetManifestRequestCode_Response::spec_prefix);
        }
        lemma_merge_run_fold(d, Self::spec_encode(v), apply);
        assert(Self::spec_decode(Self::spec_encode(v)) == Ok::<SpecCContentServerDirectory_GetManifestRequestCode_Response, WireError>(v)) by {
            reveal(CContentServerDirectory_GetManifestRequestCode_Response::spec_decode);
        }
    }
}

/// `CContentServerDirectory_GetCDNAuthToken_Request`, as Valve's schema declares it.
#[derive(Debug, Clone, PartialEq)]
pub struct CContentServerDirectory_GetCDNAuthToken_Request {
    /// Field 1.
    pub depot_id: Option<u32>,
    /// Field 2.
    pub host_name: Option<String>,
    /// Field 3.
    pub app_id: Option<u32>,
}

/// What a `CContentServerDirectory_GetCDNAuthToken_Request` holds, as mathematical values.
#[verifier::ext_equal]
pub struct SpecCContentServerDirectory_GetCDNAuthToken_Request {
    pub depot_id: Option<u32>,
    pub host_name: Option<Seq<char>>,
    pub app_id: Option<u32>,
}

impl View for CContentServerDirectory_GetCDNAuthToken_Request {
    type V = SpecCContentServerDirectory_GetCDNAuthToken_Request;

    open spec fn view(&self) -> SpecCContentServerDirectory_GetCDNAuthToken_Request {
        SpecCContentServerDirectory_GetCDNAuthToken_Request {
            depot_id: self.depot_id,
            host_name: opt_string_view(self.host_name),
            app_id: self.app_id,
        }
    }
}

impl Default for CContentServerDirectory_GetCDNAuthToken_Request {
    fn default() -> (r: Self)
        ensures
            r@ == CContentServerDirectory_GetCDNAuthToken_Request::spec_default(),
    {
        CContentServerDirectory_GetCDNAuthToken_Request {
            depot_id: None,
            host_name: None,
            app_id: None,
        }
    }
}

impl CContentServerDirectory_GetCDNAuthToken_Request {
    pub open spec fn spec_default() -> SpecCContentServerDirectory_GetCDNAuthToken_Request {
        SpecCContentServerDirectory_GetCDNAuthToken_Request {
            depot_id: None,
            host_name: None,
            app_id: None,
        }
    }

    /// The records a `CContentServerDirectory_GetCDNAuthToken_Request` is written as, in field order.
    pub open spec fn spec_fields(v: SpecCContentServerDirectory_GetCDNAuthToken_Request) -> Seq<SpecField> {
        Seq::<SpecField>::empty()
            + opt_u32(1, v.depot_id)
            + opt_string(2, v.host_name)
            + opt_u32(3, v.app_id)
    }

    #[verifier::opaque]
    pub open spec fn spec_encode(v: SpecCContentServerDirectory_GetCDNAuthToken_Request) -> Seq<u8> {
        fields_bytes(Self::spec_fields(v))
    }

    /// What one record does to the message: a declared number sets or extends its
    /// field, any other number is left alone.
    pub open spec fn spec_apply(v: SpecCContentServerDirectory_GetCDNAuthToken_Request, f: SpecField) -> Result<SpecCContentServerDirectory_GetCDNAuthToken_Request, WireError> {
        match f.number {
            1 => match dec_u32(f.value) {
                Ok(x) => Ok(SpecCContentServerDirectory_GetCDNAuthToken_Request { depot_id: Some(x), ..v }),
                Err(e) => Err(e),
            },
            2 => match dec_string(f.value) {
                Ok(x) => Ok(SpecCContentServerDirectory_GetCDNAuthToken_Request { host_name: Some(x), ..v }),
                Err(e) => Err(e),
            },
            3 => match dec_u32(f.value) {
                Ok(x) => Ok(SpecCContentServerDirectory_GetCDNAuthToken_Request { app_id: Some(x), ..v }),
                Err(e) => Err(e),
            },
            _ => Ok(v),
        }
    }

    pub open spec fn apply_fn() -> spec_fn(SpecCContentServerDirectory_GetCDNAuthToken_Request, SpecField) -> Result<SpecCContentServerDirectory_GetCDNAuthToken_Request, WireError> {
        |v: SpecCContentServerDirectory_GetCDNAuthToken_Request, f: SpecField| Self::spec_apply(v, f)
    }

    /// The message `bytes` makes of `v`: its records applied in order, or the error
    /// that stops the reading.
    pub open spec fn spec_merge(v: SpecCContentServerDirectory_GetCDNAuthToken_Request, bytes: Seq<u8>) -> Result<SpecCContentServerDirectory_GetCDNAuthToken_Request, WireError> {
        let (w, stop) = merge_run(v, bytes, Self::apply_fn());
        match stop {
            None => Ok(w),
            Some(e) => Err(e),
        }
    }

    #[verifier::opaque]
    pub open spec fn spec_decode(bytes: Seq<u8>) -> Result<SpecCContentServerDirectory_GetCDNAuthToken_Request, WireError> {
        Self::spec_merge(Self::spec_default(), bytes)
    }

    /// This message with one record applied to it, or, when the record is refused,
    /// the message unchanged and the reason.
    fn applied(self, f: &Field) -> (r: Result<Self, (Self, WireError)>)
        ensures
            match Self::spec_apply(self@, f@) {
                Ok(v) => r matches Ok(m) && m@ == v,
                Err(e) => r matches Err((m, x)) && x == e && m@ == self@,
            },
    {
        match f.number {
            1 => match read_u32(&f.value) {
                Ok(x) => Ok(Self { depot_id: Some(x), ..self }),
                Err(e) => Err((self, e)),
            },
            2 => match read_string(&f.value) {
                Ok(x) => Ok(Self { host_name: Some(x), ..self }),
                Err(e) => Err((self, e)),
            },
            3 => match read_u32(&f.value) {
                Ok(x) => Ok(Self { app_id: Some(x), ..self }),
                Err(e) => Err((self, e)),
            },
            _ => Ok(self),
        }
    }

    /// Reads the records `bytes` holds into this message, in order. When a record does
    /// not parse or is refused, the reading stops there: the message keeps what the
    /// records before it gave, and the error is returned.
    pub fn merge(&mut self, bytes: &[u8]) -> (r: Result<(), WireError>)
        ensures
            final(self)@ == merge_run(old(self)@, bytes@, Self::apply_fn()).0,
            r == match merge_run(old(self)@, bytes@, Self::apply_fn()).1 {
                None => Ok::<(), WireError>(()),
                Some(e) => Err::<(), WireError>(e),
            },
    {
        let ghost total = merge_run(self@, bytes@, Self::apply_fn());
        let mut cur = Self::default();
        std::mem::swap(&mut cur, self);
        let mut pos: usize = 0;
        assert(bytes@.skip(0) =~= bytes@);
        while pos < bytes.len()
            invariant
                pos <= bytes@.len(),
                total == merge_run(old(self)@, bytes@, Self::apply_fn()),
                merge_run(cur@, bytes@.skip(pos as int), Self::apply_fn()) == total,
            decreases bytes@.len() - pos,
        {
            let ghost s = bytes@.skip(pos as int);
            proof {
                lemma_merge_run_step(cur@, s, Self::apply_fn());
                lemma_parse_field_len(s);
            }
            match read_field(bytes, pos) {
                Ok((f, end)) => {
                    assert(bytes@.skip(end as int) =~= s.skip((end - pos) as int));
                    match cur.applied(&f) {
                        Ok(m) => {
                            cur = m;
                        },
                        Err((m, e)) => {
                            *self = m;
                            return Err(e);
                        },
                    }
                    pos = end;
                },
                Err(e) => {
                    *self = cur;
                    return Err(e);
                },
            }
        }
        assert(bytes@.skip(pos as int) =~= Seq::<u8>::empty());
        proof {
            lemma_merge_run_empty(cur@, Self::apply_fn());
        }
        *self = cur;
        Ok(())
    }

    /// Decodes a message from its encoding.
    pub fn decode(bytes: &[u8]) -> (r: Result<Self, WireError>)
        ensures
            match Self::spec_decode(bytes@) {
                Ok(v) => r matches Ok(m) && m@ == v,
                Err(e) => r matches Err(x) && x == e,
            },
    {
        proof {
            reveal(CContentServerDirectory_GetCDNAuthToken_Request::spec_decode);
        }
        let mut m = Self::default();
        match m.merge(bytes) {
            Ok(()) => Ok(m),
            Err(e) => Err(e),
        }
    }

    /// The encoding of this message.
    pub fn encode_to_vec(&self) -> (r: Vec<u8>)
        ensures
            r@ == Self::spec_encode(self@),
    {
        let ghost v = self@;
        let mut out: Vec<u8> = Vec::new();
        let ghost p0 = Seq::<SpecField>::empty();
        put_opt_u32(&mut out, 1, self.depot_id);
        let ghost p1 = p0 + opt_u32(1, v.depot_id);
        proof {
            lemma_fields_bytes_concat(p0, opt_u32(1, v.depot_id));
        }
        put_opt_string(&mut out, 2, &self.host_name);
        let ghost p2 = p1 + opt_string(2, v.host_name);
        proof {
            lemma_fields_bytes_concat(p1, opt_string(2, v.host_name));
        }
        put_opt_u32(&mut out, 3, self.app_id);
        let ghost p3 = p2 + opt_u32(3, v.app_id);
        proof {
            lemma_fields_bytes_concat(p2, opt_u32(3, v.app_id));
        }
        proof {
            reveal(CContentServerDirectory_GetCDNAuthToken_Request::spec_encode);
        }
        assert(p3 == Self::spec_fields(v));
        out
    }

    /// Appends the encoding of this message to `out`.
    pub fn encode_raw(&self, out: &mut Vec<u8>)
        ensures
            final(out)@ == old(out)@ + Self::spec_encode(self@),
    {
        let mut b = self.encode_to_vec();
        out.append(&mut b);
    }

    /// The first `k` fields of `v`, the others as a fresh message has them.
    #[verifier::opaque]
    pub open spec fn spec_prefix(v: SpecCContentServerDirectory_GetCDNAuthToken_Request, k: int) -> SpecCContentServerDirectory_GetCDNAuthToken_Request {
        SpecCContentServerDirectory_GetCDNAuthToken_Request {
            depot_id: if 1 <= k { v.depot_id } else { None },
            host_name: if 2 <= k { v.host_name } else { None },
            app_id: if 3 <= k { v.app_id } else { None },
        }
    }

    /// Reading field 1 back, after the fields before it.
    proof fn lemma_field_depot_id(v: SpecCContentServerDirectory_GetCDNAuthToken_Request)
        ensures
            fold_fields(Self::spec_prefix(v, 0), opt_u32(1, v.depot_id), Self::apply_fn())
                == Ok::<SpecCContentServerDirectory_GetCDNAuthToken_Request, WireError>(Self::spec_prefix(v, 1)),
    {
        reveal(CContentServerDirectory_GetCDNAuthToken_Request::spec_prefix);
        reveal(opt_u32);
        let apply = Self::apply_fn();
        let s = Self::spec_prefix(v, 0);
        lemma_fold_opt(s, 1, match v.depot_id { Some(x) => Some(enc_u32(x)), None => None }, apply);
        if let Some(x) = v.depot_id {
            lemma_u32_roundtrip(x);
        }
        assert(SpecCContentServerDirectory_GetCDNAuthToken_Request { depot_id: v.depot_id, ..s } == Self::spec_prefix(v, 1));
    }

    /// Reading field 2 back, after the fields before it.
    proof fn lemma_field_host_name(v: SpecCContentServerDirectory_GetCDNAuthToken_Request)
        ensures
            fold_fields(Self::spec_prefix(v, 1), opt_string(2, v.host_name), Self::apply_fn())
                == Ok::<SpecCContentServerDirectory_GetCDNAuthToken_Request, WireError>(Self::spec_prefix(v, 2)),
    {
        reveal(CContentServerDirectory_GetCDNAuthToken_Request::spec_prefix);
        reveal(opt_string);
        let apply = Self::apply_fn();
        let s = Self::spec_prefix(v, 1);
        lemma_fold_opt(s, 2, match v.host_name { Some(x) => Some(enc_string(x)), None => None }, apply);
        if let Some(x) = v.host_name {
            lemma_string_roundtrip(x);
        }
        assert(SpecCContentServerDirectory_GetCDNAuthToken_Request { host_name: v.host_name, ..s } == Self::spec_prefix(v, 2));
    }

    /// Reading field 3 back, after the fields before it.
    proof fn lemma_field_app_id(v: SpecCContentServerDirectory_GetCDNAuthToken_Request)
        ensures
            fold_fields(Self::spec_prefix(v, 2), opt_u32(3, v.app_id), Self::apply_fn())
                == Ok::<SpecCContentServerDirectory_GetCDNAuthToken_Request, WireError>(Self::spec_prefix(v, 3)),
    {
        reveal(CContentServerDirectory_GetCDNAuthToken_Request::spec_prefix);
        reveal(opt_u32);
        let apply = Self::apply_fn();
        let s = Self::spec_prefix(v, 2);
        lemma_fold_opt(s, 3, match v.app_id { Some(x) => Some(enc_u32(x)), None => None }, apply);
        if let Some(x) = v.app_id {
            lemma_u32_roundtrip(x);
        }
        assert(SpecCContentServerDirectory_GetCDNAuthToken_Request { app_id: v.app_id, ..s } == Self::spec_prefix(v, 3));
    }

    /// Whether this message declares field number `n`.
    pub open spec fn declares(n: u32) -> bool {
        n == 1 || n == 2 || n == 3
    }

    /// A record with a number this message does not declare is passed over: well-formed
    /// bytes decode to the same message with such a record after them as without it.
    pub proof fn lemma_unknown_field(bytes: Seq<u8>, f: SpecField)
        requires
            parse_fields(bytes) is Ok,
            field_wf(f),
            !Self::declares(f.number),
        ensures
            Self::spec_decode(bytes + field_bytes(f)) == Self::spec_decode(bytes),
    {
        reveal(CContentServerDirectory_GetCDNAuthToken_Request::spec_decode);
        lemma_parse_fields_append(bytes, f);
        let fs = parse_fields(bytes).unwrap();
        let apply = Self::apply_fn();
        lemma_fold_concat(Self::spec_default(), fs, seq![f], apply);
        assert(fs.push(f) =~= fs + seq![f]);
        if let Ok(w) = fold_fields(Self::spec_default(), fs, apply) {
            lemma_fold_single(w, f, apply);
        }
        lemma_merge_run_fold(Self::spec_default(), bytes, apply);
        lemma_merge_run_fold(Self::spec_default(), bytes + field_bytes(f), apply);
    }

    /// Decoding the encoding of a message gives the message back.
    pub proof fn lemma_decode_encode(v: SpecCContentServerDirectory_GetCDNAuthToken_Request)
        requires
            Self::spec_encode(v).len() <= u64::MAX,
        ensures
            Self::spec_decode(Self::spec_encode(v)) == Ok::<SpecCContentServerDirectory_GetCDNAuthToken_Request, WireError>(v),
    {
        let apply = Self::apply_fn();
        let d = Self::spec_default();
        let p0 = Seq::<SpecField>::empty();
        let l1 = opt_u32(1, v.depot_id);
        let p1 = p0 + l1;
        let l2 = opt_string(2, v.host_name);
        let p2 = p1 + l2;
        let l3 = opt_u32(3, v.app_id);
        let p3 = p2 + l3;
        assert(parse_fields(Self::spec_encode(v)) == Ok::<Seq<SpecField>, WireError>(p3)) by {
            reveal(CContentServerDirectory_GetCDNAuthToken_Request::spec_encode);
            assert(numbers_ok(p0) && fields_wf(p0)) by {
                reveal(numbers_ok);
                reveal(fields_wf);
            }
            lemma_opt_u32_numbered(1, v.depot_id);
            lemma_fields_wf_concat(p0, l1);
            lemma_opt_string_numbered(2, v.host_name);
            lemma_fields_wf_concat(p1, l2);
            lemma_opt_u32_numbered(3, v.app_id);
            lemma_fields_wf_concat(p2, l3);
            assert(p3 == Self::spec_fields(v));
            lemma_fields_wf_from_len(p3);
            lemma_fields_roundtrip(p3);
        }
        assert(Self::spec_prefix(v, 0) == d) by {
            reveal(CContentServerDirectory_GetCDNAuthToken_Request::spec_prefix);
        }
        lemma_fold_empty(d, apply);
        lemma_fold_concat(d, p0, l1, apply);
        Self::lemma_field_depot_id(v);
        lemma_fold_concat(d, p1, l2, apply);
        Self::lemma_field_host_name(v);
        lemma_fold_concat(d, p2, l3, apply);
        Self::lemma_field_app_id(v);
        assert(Self::spec_prefix(v, 3) == v) by {
            reveal(CContentServerDirectory_GetCDNAuthToken_Request::spec_prefix);
        }
        lemma_merge_run_fold(d, Self::spec_encode(v), apply);
        assert(Self::spec_decode(Self::spec_encode(v)) == Ok::<SpecCContentServerDirectory_GetCDNAuthToken_Request, WireError>(v)) by {
            reveal(CContentServerDirectory_GetCDNAuthToken_Request::spec_decode);
        }
    }
}

/// `CContentServerDirectory_GetCDNAuthToken_Response`, as Valve's schema declares it.
#[derive(Debug, Clone, PartialEq)]
pub struct CContentServerDirectory_GetCDNAuthToken_Response {
    /// Field 1.
    pub token: Option<String>,
    /// Field 2.
    pub expiration_time: Option<u32>,
}

/// What a `CContentServerDirectory_GetCDNAuthToken_Response` holds, as mathematical values.
#[verifier::ext_equal]
pub struct SpecCContentServerDirectory_GetCDNAuthToken_Response {
    pub token: Option<Seq<char>>,
    pub expiration_time: Option<u32>,
}

impl View for CContentServerDirectory_GetCDNAuthToken_Response {
    type V = SpecCContentServerDirectory_GetCDNAuthToken_Response;

    open spec fn view(&self) -> SpecCContentServerDirectory_GetCDNAuthToken_Response {
        SpecCContentServerDirectory_GetCDNAuthToken_Response {
            token: opt_string_view(self.token),
            expiration_time: self.expiration_time,
        }
    }
}

impl Default for CContentServerDirectory_GetCDNAuthToken_Response {
    fn default() -> (r: Self)
        ensures
            r@ == CContentServerDirectory_GetCDNAuthToken_Response::spec_default(),
    {
        CContentServerDirectory_GetCDNAuthToken_Response {
            token: None,
            expiration_time: None,
        }
    }
}

impl CContentServerDirectory_GetCDNAuthToken_Response {
    pub open spec fn spec_default() -> SpecCContentServerDirectory_GetCDNAuthToken_Response {
        SpecCContentServerDirectory_GetCDNAuthToken_Response {
            token: None,
            expiration_time: None,
        }
    }

    /// The records a `CContentServerDirectory_GetCDNAuthToken_Response` is written as, in field order.
    pub open spec fn spec_fields(v: SpecCContentServerDirectory_GetCDNAuthToken_Response) -> Seq<SpecField> {
        Seq::<SpecField>::empty()
            + opt_string(1, v.token)
            + opt_u32(2, v.expiration_time)
    }

    #[verifier::opaque]
    pub open spec fn spec_encode(v: SpecCContentServerDirectory_GetCDNAuthToken_Response) -> Seq<u8> {
        fields_bytes(Self::spec_fields(v))
    }

    /// What one record does to the message: a declared number sets or extends its
    /// field, any other number is left alone.
    pub open spec fn spec_apply(v: SpecCContentServerDirectory_GetCDNAuthToken_Response, f: SpecField) -> Result<SpecCContentServerDirectory_GetCDNAuthToken_Response, WireError> {
        match f.number {
            1 => match dec_string(f.value) {
                Ok(x) => Ok(SpecCContentServerDirectory_GetCDNAuthToken_Response { token: Some(x), ..v }),
                Err(e) => Err(e),
            },
            2 => match dec_u32(f.value) {
                Ok(x) => Ok(SpecCContentServerDirectory_GetCDNAuthToken_Response { expiration_time: Some(x), ..v }),
                Err(e) => Err(e),
            },
            _ => Ok(v),
        }
    }

    pub open spec fn apply_fn() -> spec_fn(SpecCContentServerDirectory_GetCDNAuthToken_Response, SpecField) -> Result<SpecCContentServerDirectory_GetCDNAuthToken_Response, WireError> {
        |v: SpecCContentServerDirectory_GetCDNAuthToken_Response, f: SpecField| Self::spec_apply(v, f)
    }

    /// The message `bytes` makes of `v`: its records applied in order, or the error
    /// that stops the reading.
    pub open spec fn spec_merge(v: SpecCContentServerDirectory_GetCDNAuthToken_Response, bytes: Seq<u8>) -> Result<SpecCContentServerDirectory_GetCDNAuthToken_Response, WireError> {
        let (w, stop) = merge_run(v, bytes, Self::apply_fn());
        match stop {
            None => Ok(w),
            Some(e) => Err(e),
        }
    }

    #[verifier::opaque]
    pub open spec fn spec_decode(bytes: Seq<u8>) -> Result<SpecCContentServerDirectory_GetCDNAuthToken_Response, WireError> {
        Self::spec_merge(Self::spec_default(), bytes)
    }

    /// This message with one record applied to it, or, when the record is refused,
    /// the message unchanged and the reason.
    fn applied(self, f: &Field) -> (r: Result<Self, (Self, WireError)>)
        ensures
            match Self::spec_apply(self@, f@) {
                Ok(v) => r matches Ok(m) && m@ == v,
                Err(e) => r matches Err((m, x)) && x == e && m@ == self@,
            },
    {
        match f.number {
            1 => match read_string(&f.value) {
                Ok(x) => Ok(Self { token: Some(x), ..self }),
                Err(e) => Err((self, e)),
            },
            2 => match read_u32(&f.value) {
                Ok(x) => Ok(Self { expiration_time: Some(x), ..self }),
                Err(e) => Err((self, e)),
            },
            _ => Ok(self),
        }
    }

    /// Reads the records `bytes` holds into this message, in order. When a record does
    /// not parse or is refused, the reading stops there: the message keeps what the
    /// records before it gave, and the error is returned.
    pub fn merge(&mut self, bytes: &[u8]) -> (r: Result<(), WireError>)
        ensures
            final(self)@ == merge_run(old(self)@, bytes@, Self::apply_fn()).0,
            r == match merge_run(old(self)@, bytes@, Self::apply_fn()).1 {
                None => Ok::<(), WireError>(()),
                Some(e) => Err::<(), WireError>(e),
            },
    {
        let ghost total = merge_run(self@, bytes@, Self::apply_fn());
        let mut cur = Self::default();
        std::mem::swap(&mut cur, self);
        let mut pos: usize = 0;
        assert(bytes@.skip(0) =~= bytes@);
        while pos < bytes.len()
            invariant
                pos <= bytes@.len(),
                total == merge_run(old(self)@, bytes@, Self::apply_fn()),
                merge_run(cur@, bytes@.skip(pos as int), Self::apply_fn()) == total,
            decreases bytes@.len() - pos,
        {
            let ghost s = bytes@.skip(pos as int);
            proof {
                lemma_merge_run_step(cur@, s, Self::apply_fn());
                lemma_parse_field_len(s);
            }
            match read_field(bytes, pos) {
                Ok((f, end)) => {
                    assert(bytes@.skip(end as int) =~= s.skip((end - pos) as int));
                    match cur.applied(&f) {
                        Ok(m) => {
                            cur = m;
                        },
                        Err((m, e)) => {
                            *self = m;
                            return Err(e);
                        },
                    }
                    pos = end;
                },
                Err(e) => {
                    *self = cur;
                    return Err(e);
                },
            }
        }
        assert(bytes@.skip(pos as int) =~= Seq::<u8>::empty());
        proof {
            lemma_merge_run_empty(cur@, Self::apply_fn());
        }
        *self = cur;
        Ok(())
    }

    /// Decodes a message from its encoding.
    pub fn decode(bytes: &[u8]) -> (r: Result<Self, WireError>)
        ensures
            match Self::spec_decode(bytes@) {
                Ok(v) => r matches Ok(m) && m@ == v,
                Err(e) => r matches Err(x) && x == e,
            },
    {
        proof {
            reveal(CContentServerDirectory_GetCDNAuthToken_Response::spec_decode);
        }
        let mut m = Self::default();
        match m.merge(bytes) {
            Ok(()) => Ok(m),
            Err(e) => Err(e),
        }
    }

    /// The encoding of this message.
    pub fn encode_to_vec(&self) -> (r: Vec<u8>)
        ensures
            r@ == Self::spec_encode(self@),
    {
        let ghost v = self@;
        let mut out: Vec<u8> = Vec::new();
        let ghost p0 = Seq::<SpecField>::empty();
        put_opt_string(&mut out, 1, &self.token);
        let ghost p1 = p0 + opt_string(1, v.token);
        proof {
            lemma_fields_bytes_concat(p0, opt_string(1, v.token));
        }
        put_opt_u32(&mut out, 2, self.expiration_time);
        let ghost p2 = p1 + opt_u32(2, v.expiration_time);
        proof {
            lemma_fields_bytes_concat(p1, opt_u32(2, v.expiration_time));
        }
        proof {
            reveal(CContentServerDirectory_GetCDNAuthToken_Response::spec_encode);
        }
        assert(p2 == Self::spec_fields(v));
        out
    }

    /// Appends the encoding of this message to `out`.
    pub fn encode_raw(&self, out: &mut Vec<u8>)
        ensures
            final(out)@ == old(out)@ + Self::spec_encode(self@),
    {
        let mut b = self.encode_to_vec();
        out.append(&mut b);
    }

    /// The first `k` fields of `v`, the others as a fresh message has them.
    #[verifier::opaque]
    pub open spec fn spec_prefix(v: SpecCContentServerDirectory_GetCDNAuthToken_Response, k: int) -> SpecCContentServerDirectory_GetCDNAuthToken_Response {
        SpecCContentServerDirectory_GetCDNAuthToken_Response {
            token: if 1 <= k { v.token } else { None },
            expiration_time: if 2 <= k { v.expiration_time } else { None },
        }
    }

    /// Reading field 1 back, after the fields before it.
    proof fn lemma_field_token(v: SpecCContentServerDirectory_GetCDNAuthToken_Response)
        ensures
            fold_fields(Self::spec_prefix(v, 0), opt_string(1, v.token), Self::apply_fn())
                == Ok::<SpecCContentServerDirectory_GetCDNAuthToken_Response, WireError>(Self::spec_prefix(v, 1)),
    {
        reveal(CContentServerDirectory_GetCDNAuthToken_Response::spec_prefix);
        reveal(opt_string);
        let apply = Self::apply_fn();
        let s = Self::spec_prefix(v, 0);
        lemma_fold_opt(s, 1, match v.token { Some(x) => Some(enc_string(x)), None => None }, apply);
        if let Some(x) = v.token {
            lemma_string_roundtrip(x);
        }
        assert(SpecCContentServerDirectory_GetCDNAuthToken_Response { token: v.token, ..s } == Self::spec_prefix(v, 1));
    }

    /// Reading field 2 back, after the fields before it.
    proof fn lemma_field_expiration_time(v: SpecCContentServerDirectory_GetCDNAuthToken_Response)
        ensures
            fold_fields(Self::spec_prefix(v, 1), opt_u32(2, v.expiration_time), Self::apply_fn())
                == Ok::<SpecCContentServerDirectory_GetCDNAuthToken_Response, WireError>(Self::spec_prefix(v, 2)),
    {
        reveal(CContentServerDirectory_GetCDNAuthToken_Response::spec_prefix);
        reveal(opt_u32);
        let apply = Self::apply_fn();
        let s = Self::spec_prefix(v, 1);
        lemma_fold_opt(s, 2, match v.expiration_time { Some(x) => Some(enc_u32(x)), None => None }, apply);
        if let Some(x) = v.expiration_time {
            lemma_u32_roundtrip(x);
        }
        assert(SpecCContentServerDirectory_GetCDNAuthToken_Response { expiration_time: v.expiration_time, ..s } == Self::spec_prefix(v, 2));
    }

    /// Whether this message declares field number `n`.
    pub open spec fn declares(n: u32) -> bool {
        n == 1 || n == 2
    }

    /// A record with a number this message does not declare is passed over: well-formed
    /// bytes decode to the same message with such a record after them as without it.
    pub proof fn lemma_unknown_field(bytes: Seq<u8>, f: SpecField)
        requires
            parse_fields(bytes) is Ok,
            field_wf(f),
            !Self::declares(f.number),
        ensures
            Self::spec_decode(bytes + field_bytes(f)) == Self::spec_decode(bytes),
    {
        reveal(CContentServerDirectory_GetCDNAuthToken_Response::spec_decode);
        lemma_parse_fields_append(bytes, f);
        let fs = parse_fields(bytes).unwrap();
        let apply = Self::apply_fn();
        lemma_fold_concat(Self::spec_default(), fs, seq![f], apply);
        assert(fs.push(f) =~= fs + seq![f]);
        if let Ok(w) = fold_fields(Self::spec_default(), fs, apply) {
            lemma_fold_single(w, f, apply);
        }
        lemma_merge_run_fold(Self::spec_default(), bytes, apply);
        lemma_merge_run_fold(Self::spec_default(), bytes + field_bytes(f), apply);
    }

    /// Decoding the encoding of a message gives the message back.
    pub proof fn lemma_decode_encode(v: SpecCContentServerDirectory_GetCDNAuthToken_Response)
        requires
            Self::spec_encode(v).len() <= u64::MAX,
        ensures
            Self::spec_decode(Self::spec_encode(v)) == Ok::<SpecCContentServerDirectory_GetCDNAuthToken_Response, WireError>(v),
    {
        let apply = Self::apply_fn();
        let d = Self::spec_default();
        let p0 = Seq::<SpecField>::empty();
        let l1 = opt_string(1, v.token);
        let p1 = p0 + l1;
        let l2 = opt_u32(2, v.expiration_time);
        let p2 = p1 + l2;
        assert(parse_fields(Self::spec_encode(v)) == Ok::<Seq<SpecField>, WireError>(p2)) by {
            reveal(CContentServerDirectory_GetCDNAuthToken_Response::spec_encode);
            assert(numbers_ok(p0) && fields_wf(p0)) by {
                reveal(numbers_ok);
                reveal(fields_wf);
            }
            lemma_opt_string_numbered(1, v.token);
            lemma_fields_wf_concat(p0, l1);
            lemma_opt_u32_numbered(2, v.expiration_time);
            lemma_fields_wf_concat(p1, l2);
            assert(p2 == Self::spec_fields(v));
            lemma_fields_wf_from_len(p2);
            lemma_fields_roundtrip(p2);
        }
        assert(Self::spec_prefix(v, 0) == d) by {
            reveal(CContentServerDirectory_GetCDNAuthToken_Response::spec_prefix);
        }
        lemma_fold_empty(d, apply);
        lemma_fold_concat(d, p0, l1, apply);
        Self::lemma_field_token(v);
        lemma_fold_concat(d, p1, l2, apply);
        Self::lemma_field_expiration_time(v);
        assert(Self::spec_prefix(v, 2) == v) by {
            reveal(CContentServerDirectory_GetCDNAuthToken_Response::spec_prefix);
        }
        lemma_merge_run_fold(d, Self::spec_encode(v), apply);
        assert(Self::spec_decode(Self::spec_encode(v)) == Ok::<SpecCContentServerDirectory_GetCDNAuthToken_Response, WireError>(v)) by {
            reveal(CContentServerDirectory_GetCDNAuthToken_Response::spec_decode);
        }
    }
}

/// `CContentServerDirectory_RequestPeerContentServer_Request`, as Valve's schema declares it.
#[derive(Debug, Clone, PartialEq)]
pub struct CContentServerDirectory_RequestPeerContentServer_Request {
    /// Field 1.
    pub remote_client_id: Option<u64>,
    /// Field 2.
    pub steamid: Option<u64>,
    /// Field 3.
    pub server_remote_client_id: Option<u64>,
    /// Field 4.
    pub app_id: Option<u32>,
    /// Field 5.
    pub current_build_id: Option<u32>,
}

/// What a `CContentServerDirectory_RequestPeerContentServer_Request` holds, as mathematical values.
#[verifier::ext_equal]
pub struct SpecCContentServerDirectory_RequestPeerContentServer_Request {
    pub remote_client_id: Option<u64>,
    pub steamid: Option<u64>,
    pub server_remote_client_id: Option<u64>,
    pub app_id: Option<u32>,
    pub current_build_id: Option<u32>,
}

impl View for CContentServerDirectory_RequestPeerContentServer_Request {
    type V = SpecCContentServerDirectory_RequestPeerContentServer_Request;

    open spec fn view(&self) -> SpecCContentServerDirectory_RequestPeerContentServer_Request {
        SpecCContentServerDirectory_RequestPeerContentServer_Request {
            remote_client_id: self.remote_client_id,
            steamid: self.steamid,
            server_remote_client_id: self.server_remote_client_id,
            app_id: self.app_id,
            current_build_id: self.current_build_id,
        }
    }
}

impl Default for CContentServerDirectory_RequestPeerContentServer_Request {
    fn default() -> (r: Self)
        ensures
            r@ == CContentServerDirectory_RequestPeerContentServer_Request::spec_default(),
    {
        CContentServerDirectory_RequestPeerContentServer_Request {
            remote_client_id: None,
            steamid: None,
            server_remote_client_id: None,
            app_id: None,
            current_build_id: None,
        }
    }
}

impl CContentServerDirectory_RequestPeerContentServer_Request {
    pub open spec fn spec_default() -> SpecCContentServerDirectory_RequestPeerContentServer_Request {
        SpecCContentServerDirectory_RequestPeerContentServer_Request {
            remote_client_id: None,
            steamid: None,
            server_remote_client_id: None,
            app_id: None,
            current_build_id: None,
        }
    }

    /// The records a `CContentServerDirectory_RequestPeerContentServer_Request` is written as, in field order.
    pub open spec fn spec_fields(v: SpecCContentServerDirectory_RequestPeerContentServer_Request) -> Seq<SpecField> {
        Seq::<SpecField>::empty()
            + opt_u64(1, v.remote_client_id)
            + opt_u64(2, v.steamid)
            + opt_u64(3, v.server_remote_client_id)
            + opt_u32(4, v.app_id)
            + opt_u32(5, v.current_build_id)
    }

    #[verifier::opaque]
    pub open spec fn spec_encode(v: SpecCContentServerDirectory_RequestPeerContentServer_Request) -> Seq<u8> {
        fields_bytes(Self::spec_fields(v))
    }

    /// What one record does to the message: a declared number sets or extends its
    /// field, any other number is left alone.
    pub open spec fn spec_apply(v: SpecCContentServerDirectory_RequestPeerContentServer_Request, f: SpecField) -> Result<SpecCContentServerDirectory_RequestPeerContentServer_Request, WireError> {
        match f.number {
            1 => match dec_u64(f.value) {
                Ok(x) => Ok(SpecCContentServerDirectory_RequestPeerContentServer_Request { remote_client_id: Some(x), ..v }),
                Err(e) => Err(e),
            },
            2 => match dec_u64(f.value) {
                Ok(x) => Ok(SpecCContentServerDirectory_RequestPeerContentServer_Request { steamid: Some(x), ..v }),
                Err(e) => Err(e),
            },
            3 => match dec_u64(f.value) {
                Ok(x) => Ok(SpecCContentServerDirectory_RequestPeerContentServer_Request { server_remote_client_id: Some(x), ..v }),
                Err(e) => Err(e),
            },
            4 => match dec_u32(f.value) {
                Ok(x) => Ok(SpecCContentServerDirectory_RequestPeerContentServer_Request { app_id: Some(x), ..v }),
                Err(e) => Err(e),
            },
            5 => match dec_u32(f.value) {
                Ok(x) => Ok(SpecCContentServerDirectory_RequestPeerContentServer_Request { current_build_id: Some(x), ..v }),
                Err(e) => Err(e),
            },
            _ => Ok(v),
        }
    }

    pub open spec fn apply_fn() -> spec_fn(SpecCContentServerDirectory_RequestPeerContentServer_Request, SpecField) -> Result<SpecCContentServerDirectory_RequestPeerContentServer_Request, WireError> {
        |v: SpecCContentServerDirectory_RequestPeerContentServer_Request, f: SpecField| Self::spec_apply(v, f)
    }

    /// The message `bytes` makes of `v`: its records applied in order, or the error
    /// that stops the reading.
    pub open spec fn spec_merge(v: SpecCContentServerDirectory_RequestPeerContentServer_Request, bytes: Seq<u8>) -> Result<SpecCContentServerDirectory_RequestPeerContentServer_Request, WireError> {
        let (w, stop) = merge_run(v, bytes, Self::apply_fn());
        match stop {
            None => Ok(w),
            Some(e) => Err(e),
        }
    }

    #[verifier::opaque]
    pub open spec fn spec_decode(bytes: Seq<u8>) -> Result<SpecCContentServerDirectory_RequestPeerContentServer_Request, WireError> {
        Self::spec_merge(Self::spec_default(), bytes)
    }

    /// This message with one record applied to it, or, when the record is refused,
    /// the message unchanged and the reason.
    fn applied(self, f: &Field) -> (r: Result<Self, (Self, WireError)>)
        ensures
            match Self::spec_apply(self@, f@) {
                Ok(v) => r matches Ok(m) && m@ == v,
                Err(e) => r matches Err((m, x)) && x == e && m@ == self@,
            },
    {
        match f.number {
            1 => match read_u64(&f.value) {
                Ok(x) => Ok(Self { remote_client_id: Some(x), ..self }),
                Err(e) => Err((self, e)),
            },
            2 => match read_u64(&f.value) {
                Ok(x) => Ok(Self { steamid: Some(x), ..self }),
                Err(e) => Err((self, e)),
            },
            3 => match read_u64(&f.value) {
                Ok(x) => Ok(Self { server_remote_client_id: Some(x), ..self }),
                Err(e) => Err((self, e)),
            },
            4 => match read_u32(&f.value) {
                Ok(x) => Ok(Self { app_id: Some(x), ..self }),
                Err(e) => Err((self, e)),
            },
            5 => match read_u32(&f.value) {
                Ok(x) => Ok(Self { current_build_id: Some(x), ..self }),
                Err(e) => Err((self, e)),
            },
            _ => Ok(self),
        }
    }

    /// Reads the records `bytes` holds into this message, in order. When a record does
    /// not parse or is refused, the reading stops there: the message keeps what the
    /// records before it gave, and the error is returned.
    pub fn merge(&mut self, bytes: &[u8]) -> (r: Result<(), WireError>)
        ensures
            final(self)@ == merge_run(old(self)@, bytes@, Self::apply_fn()).0,
            r == match merge_run(old(self)@, bytes@, Self::apply_fn()).1 {
                None => Ok::<(), WireError>(()),
                Some(e) => Err::<(), WireError>(e),
            },
    {
        let ghost total = merge_run(self@, bytes@, Self::apply_fn());
        let mut cur = Self::default();
        std::mem::swap(&mut cur, self);
        let mut pos: usize = 0;
        assert(bytes@.skip(0) =~= bytes@);
        while pos < bytes.len()
            invariant
                pos <= bytes@.len(),
                total == merge_run(old(self)@, bytes@, Self::apply_fn()),
                merge_run(cur@, bytes@.skip(pos as int), Self::apply_fn()) == total,
            decreases bytes@.len() - pos,
        {
            let ghost s = bytes@.skip(pos as int);
            proof {
                lemma_merge_run_step(cur@, s, Self::apply_fn());
                lemma_parse_field_len(s);
            }
            match read_field(bytes, pos) {
                Ok((f, end)) => {
                    assert(bytes@.skip(end as int) =~= s.skip((end - pos) as int));
                    match cur.applied(&f) {
                        Ok(m) => {
                            cur = m;
                        },
                        Err((m, e)) => {
                            *self = m;
                            return Err(e);
                        },
                    }
                    pos = end;
                },
                Err(e) => {
                    *self = cur;
                    return Err(e);
                },
            }
        }
        assert(bytes@.skip(pos as int) =~= Seq::<u8>::empty());
        proof {
            lemma_merge_run_empty(cur@, Self::apply_fn());
        }
        *self = cur;
        Ok(())
    }

    /// Decodes a message from its encoding.
    pub fn decode(bytes: &[u8]) -> (r: Result<Self, WireError>)
        ensures
            match Self::spec_decode(bytes@) {
                Ok(v) => r matches Ok(m) && m@ == v,
                Err(e) => r matches Err(x) && x == e,
            },
    {
        proof {
            reveal(CContentServerDirectory_RequestPeerContentServer_Request::spec_decode);
        }
        let mut m = Self::default();
        match m.merge(bytes) {
            Ok(()) => Ok(m),
            Err(e) => Err(e),
        }
    }

    /// The encoding of this message.
    pub fn encode_to_vec(&self) -> (r: Vec<u8>)
        ensures
            r@ == Self::spec_encode(self@),
    {
        let ghost v = self@;
        let mut out: Vec<u8> = Vec::new();
        let ghost p0 = Seq::<SpecField>::empty();
        put_opt_varint(&mut out, 1, self.remote_client_id);
        let ghost p1 = p0 + opt_u64(1, v.remote_client_id);
        proof {
            lemma_fields_bytes_concat(p0, opt_u64(1, v.remote_client_id));
        }
        put_opt_varint(&mut out, 2, self.steamid);
        let ghost p2 = p1 + opt_u64(2, v.steamid);
        proof {
            lemma_fields_bytes_concat(p1, opt_u64(2, v.steamid));
        }
        put_opt_varint(&mut out, 3, self.server_remote_client_id);
        let ghost p3 = p2 + opt_u64(3, v.server_remote_client_id);
        proof {
            lemma_fields_bytes_concat(p2, opt_u64(3, v.server_remote_client_id));
        }
        put_opt_u32(&mut out, 4, self.app_id);
        let ghost p4 = p3 + opt_u32(4, v.app_id);
        proof {
            lemma_fields_bytes_concat(p3, opt_u32(4, v.app_id));
        }
        put_opt_u32(&mut out, 5, self.current_build_id);
        let ghost p5 = p4 + opt_u32(5, v.current_build_id);
        proof {
            lemma_fields_bytes_concat(p4, opt_u32(5, v.current_build_id));
        }
        proof {
            reveal(CContentServerDirectory_RequestPeerContentServer_Request::spec_encode);
        }
        assert(p5 == Self::spec_fields(v));
        out
    }

    /// Appends the encoding of this message to `out`.
    pub fn encode_raw(&self, out: &mut Vec<u8>)
        ensures
            final(out)@ == old(out)@ + Self::spec_encode(self@),
    {
        let mut b = self.encode_to_vec();
        out.append(&mut b);
    }

    /// The first `k` fields of `v`, the others as a fresh message has them.
    #[verifier::opaque]
    pub open spec fn spec_prefix(v: SpecCContentServerDirectory_RequestPeerContentServer_Request, k: int) -> SpecCContentServerDirectory_RequestPeerContentServer_Request {
        SpecCContentServerDirectory_RequestPeerContentServer_Request {
            remote_client_id: if 1 <= k { v.remote_client_id } else { None },
            steamid: if 2 <= k { v.steamid } else { None },
            server_remote_client_id: if 3 <= k { v.server_remote_client_id } else { None },
            app_id: if 4 <= k { v.app_id } else { None },
            current_build_id: if 5 <= k { v.current_build_id } else { None },
        }
    }

    /// Reading field 1 back, after the fields before it.
    proof fn lemma_field_remote_client_id(v: SpecCContentServerDirectory_RequestPeerContentServer_Request)
        ensures
            fold_fields(Self::spec_prefix(v, 0), opt_u64(1, v.remote_client_id), Self::apply_fn())
                == Ok::<SpecCContentServerDirectory_RequestPeerContentServer_Request, WireError>(Self::spec_prefix(v, 1)),
    {
        reveal(CContentServerDirectory_RequestPeerContentServer_Request::spec_prefix);
        reveal(opt_u64);
        let apply = Self::apply_fn();
        let s = Self::spec_prefix(v, 0);
        lemma_fold_opt(s, 1, match v.remote_client_id { Some(x) => Some(enc_u64(x)), None => None }, apply);
        if let Some(x) = v.remote_client_id {
            lemma_u64_roundtrip(x);
        }
        assert(SpecCContentServerDirectory_RequestPeerContentServer_Request { remote_client_id: v.remote_client_id, ..s } == Self::spec_prefix(v, 1));
    }

    /// Reading field 2 back, after the fields before it.
    proof fn lemma_field_steamid(v: SpecCContentServerDirectory_RequestPeerContentServer_Request)
        ensures
            fold_fields(Self::spec_prefix(v, 1), opt_u64(2, v.steamid), Self::apply_fn())
                == Ok::<SpecCContentServerDirectory_RequestPeerContentServer_Request, WireError>(Self::spec_prefix(v, 2)),
    {
        reveal(CContentServerDirectory_RequestPeerContentServer_Request::spec_prefix);
        reveal(opt_u64);
        let apply = Self::apply_fn();
        let s = Self::spec_prefix(v, 1);
        lemma_fold_opt(s, 2, match v.steamid { Some(x) => Some(enc_u64(x)), None => None }, apply);
        if let Some(x) = v.steamid {
            lemma_u64_roundtrip(x);
        }
        assert(SpecCContentServerDirectory_RequestPeerContentServer_Request { steamid: v.steamid, ..s } == Self::spec_prefix(v, 2));
    }

    /// Reading field 3 back, after the fields before it.
    proof fn lemma_field_server_remote_client_id(v: SpecCContentServerDirectory_RequestPeerContentServer_Request)
        ensures
            fold_fields(Self::spec_prefix(v, 2), opt_u64(3, v.server_remote_client_id), Self::apply_fn())
                == Ok::<SpecCContentServerDirectory_RequestPeerContentServer_Request, WireError>(Self::spec_prefix(v, 3)),
    {
        reveal(CContentServerDirectory_RequestPeerContentServer_Request::spec_prefix);
        reveal(opt_u64);
        let apply = Self::apply_fn();
        let s = Self::spec_prefix(v, 2);
        lemma_fold_opt(s, 3, match v.server_remote_client_id { Some(x) => Some(enc_u64(x)), None => None }, apply);
        if let Some(x) = v.server_remote_client_id {
            lemma_u64_roundtrip(x);
        }
        assert(SpecCContentServerDirectory_RequestPeerContentServer_Request { server_remote_client_id: v.server_remote_client_id, ..s } == Self::spec_prefix(v, 3));
    }

    /// Reading field 4 back, after the fields before it.
    proof fn lemma_field_app_id(v: SpecCContentServerDirectory_RequestPeerContentServer_Request)
        ensures
            fold_fields(Self::spec_prefix(v, 3), opt_u32(4, v.app_id), Self::apply_fn())
                == Ok::<SpecCContentServerDirectory_RequestPeerContentServer_Request, WireError>(Self::spec_prefix(v, 4)),
    {
        reveal(CContentServerDirectory_RequestPeerContentServer_Request::spec_prefix);
        reveal(opt_u32);
        let apply = Self::apply_fn();
        let s = Self::spec_prefix(v, 3);
        lemma_fold_opt(s, 4, match v.app_id { Some(x) => Some(enc_u32(x)), None => None }, apply);
        if let Some(x) = v.app_id {
            lemma_u32_roundtrip(x);
        }
        assert(SpecCContentServerDirectory_RequestPeerContentServer_Request { app_id: v.app_id, ..s } == Self::spec_prefix(v, 4));
    }

    /// Reading field 5 back, after the fields before it.
    proof fn lemma_field_current_build_id(v: SpecCContentServerDirectory_RequestPeerContentServer_Request)
        ensures
            fold_fields(Self::spec_prefix(v, 4), opt_u32(5, v.current_build_id), Self::apply_fn())
                == Ok::<SpecCContentServerDirectory_RequestPeerContentServer_Request, WireError>(Self::spec_prefix(v, 5)),
    {
        reveal(CContentServerDirectory_RequestPeerContentServer_Request::spec_prefix);
        reveal(opt_u32);
        let apply = Self::apply_fn();
        let s = Self::spec_prefix(v, 4);
        lemma_fold_opt(s, 5, match v.current_build_id { Some(x) => Some(enc_u32(x)), None => None }, apply);
        if let Some(x) = v.current_build_id {
            lemma_u32_roundtrip(x);
        }
        assert(SpecCContentServerDirectory_RequestPeerContentServer_Request { current_build_id: v.current_build_id, ..s } == Self::spec_prefix(v, 5));
    }

    /// Whether this message declares field number `n`.
    pub open spec fn declares(n: u32) -> bool {
        n == 1 || n == 2 || n == 3 || n == 4 || n == 5
    }

    /// A record with a number this message does not declare is passed over: well-formed
    /// bytes decode to the same message with such a record after them as without it.
    pub proof fn lemma_unknown_field(bytes: Seq<u8>, f: SpecField)
        requires
            parse_fields(bytes) is Ok,
            field_wf(f),
            !Self::declares(f.number),
        ensures
            Self::spec_decode(bytes + field_bytes(f)) == Self::spec_decode(bytes),
    {
        reveal(CContentServerDirectory_RequestPeerContentServer_Request::spec_decode);
        lemma_parse_fields_append(bytes, f);
        let fs = parse_fields(bytes).unwrap();
        let apply = Self::apply_fn();
        lemma_fold_concat(Self::spec_default(), fs, seq![f], apply);
        assert(fs.push(f) =~= fs + seq![f]);
        if let Ok(w) = fold_fields(Self::spec_default(), fs, apply) {
            lemma_fold_single(w, f, apply);
        }
        lemma_merge_run_fold(Self::spec_default(), bytes, apply);
        lemma_merge_run_fold(Self::spec_default(), bytes + field_bytes(f), apply);
    }

    /// Decoding the encoding of a message gives the message back.
    pub proof fn lemma_decode_encode(v: SpecCContentServerDirectory_RequestPeerContentServer_Request)
        requires
            Self::spec_encode(v).len() <= u64::MAX,
        ensures
            Self::spec_decode(Self::spec_encode(v)) == Ok::<SpecCContentServerDirectory_RequestPeerContentServer_Request, WireError>(v),
    {
        let apply = Self::apply_fn();
        let d = Self::spec_default();
        let p0 = Seq::<SpecField>::empty();
        let l1 = opt_u64(1, v.remote_client_id);
        let p1 = p0 + l1;
        let l2 = opt_u64(2, v.steamid);
        let p2 = p1 + l2;
        let l3 = opt_u64(3, v.server_remote_client_id);
        let p3 = p2 + l3;
        let l4 = opt_u32(4, v.app_id);
        let p4 = p3 + l4;
        let l5 = opt_u32(5, v.current_build_id);
        let p5 = p4 + l5;
        assert(parse_fields(Self::spec_encode(v)) == Ok::<Seq<SpecField>, WireError>(p5)) by {
            reveal(CContentServerDirectory_RequestPeerContentServer_Request::spec_encode);
            assert(numbers_ok(p0) && fields_wf(p0)) by {
                reveal(numbers_ok);
                reveal(fields_wf);
            }
            lemma_opt_u64_numbered(1, v.remote_client_id);
            lemma_fields_wf_concat(p0, l1);
            lemma_opt_u64_numbered(2, v.steamid);
            lemma_fields_wf_concat(p1, l2);
            lemma_opt_u64_numbered(3, v.server_remote_client_id);
            lemma_fields_wf_concat(p2, l3);
            lemma_opt_u32_numbered(4, v.app_id);
            lemma_fields_wf_concat(p3, l4);
            lemma_opt_u32_numbered(5, v.current_build_id);
            lemma_fields_wf_concat(p4, l5);
            assert(p5 == Self::spec_fields(v));
            lemma_fields_wf_from_len(p5);
            lemma_fields_roundtrip(p5);
        }
        assert(Self::spec_prefix(v, 0) == d) by {
            reveal(CContentServerDirectory_RequestPeerContentServer_Request::spec_prefix);
        }
        lemma_fold_empty(d, apply);
        lemma_fold_concat(d, p0, l1, apply);
        Self::lemma_field_remote_client_id(v);
        lemma_fold_concat(d, p1, l2, apply);
        Self::lemma_field_steamid(v);
        lemma_fold_concat(d, p2, l3, apply);
        Self::lemma_field_server_remote_client_id(v);
        lemma_fold_concat(d, p3, l4, apply);
        Self::lemma_field_app_id(v);
        lemma_fold_concat(d, p4, l5, apply);
        Self::lemma_field_current_build_id(v);
        assert(Self::spec_prefix(v, 5) == v) by {
            reveal(CContentServerDirectory_RequestPeerContentServer_Request::spec_prefix);
        }
        lemma_merge_run_fold(d, Self::spec_encode(v), apply);
        assert(Self::spec_decode(Self::spec_encode(v)) == Ok::<SpecCContentServerDirectory_RequestPeerContentServer_Request, WireError>(v)) by {
            reveal(CContentServerDirectory_RequestPeerContentServer_Request::spec_decode);
        }
    }
}

/// `CContentServerDirectory_RequestPeerContentServer_Response`, as Valve's schema declares it.
#[derive(Debug, Clone, PartialEq)]
pub struct CContentServerDirectory_RequestPeerContentServer_Response {
    /// Field 1.
    pub server_port: Option<u32>,
    /// Field 2.
    pub installed_depots: Vec<u32>,
    /// Field 3.
    pub access_token: Option<u64>,
}

/// What a `CContentServerDirectory_RequestPeerContentServer_Response` holds, as mathematical values.
#[verifier::ext_equal]
pub struct SpecCContentServerDirectory_RequestPeerContentServer_Response {
    pub server_port: Option<u32>,
    pub installed_depots: Seq<u32>,
    pub access_token: Option<u64>,
}

impl View for CContentServerDirectory_RequestPeerContentServer_Response {
    type V = SpecCContentServerDirectory_RequestPeerContentServer_Response;

    open spec fn view(&self) -> SpecCContentServerDirectory_RequestPeerContentServer_Response {
        SpecCContentServerDirectory_RequestPeerContentServer_Response {
            server_port: self.server_port,
            installed_depots: self.installed_depots@,
            access_token: self.access_token,
        }
    }
}

impl Default for CContentServerDirectory_RequestPeerContentServer_Response {
    fn default() -> (r: Self)
        ensures
            r@ == CContentServerDirectory_RequestPeerContentServer_Response::spec_default(),
    {
        CContentServerDirectory_RequestPeerContentServer_Response {
            server_port: None,
            installed_depots: Vec::new(),
            access_token: None,
        }
    }
}

impl CContentServerDirectory_RequestPeerContentServer_Response {
    pub open spec fn spec_default() -> SpecCContentServerDirectory_RequestPeerContentServer_Response {
        SpecCContentServerDirectory_RequestPeerContentServer_Response {
            server_port: None,
            installed_depots: Seq::empty(),
            access_token: None,
        }
    }

    /// The records a `CContentServerDirectory_RequestPeerContentServer_Response` is written as, in field order.
    pub open spec fn spec_fields(v: SpecCContentServerDirectory_RequestPeerContentServer_Response) -> Seq<SpecField> {
        Seq::<SpecField>::empty()
            + opt_u32(1, v.server_port)
            + rep_u32(2, v.installed_depots)
            + opt_u64(3, v.access_token)
    }

    #[verifier::opaque]
    pub open spec fn spec_encode(v: SpecCContentServerDirectory_RequestPeerContentServer_Response) -> Seq<u8> {
        fields_bytes(Self::spec_fields(v))
    }

    /// What one record does to the message: a declared number sets or extends its
    /// field, any other number is left alone.
    pub open spec fn spec_apply(v: SpecCContentServerDirectory_RequestPeerContentServer_Response, f: SpecField) -> Result<SpecCContentServerDirectory_RequestPeerContentServer_Response, WireError> {
        match f.number {
            1 => match dec_u32(f.value) {
                Ok(x) => Ok(SpecCContentServerDirectory_RequestPeerContentServer_Response { server_port: Some(x), ..v }),
                Err(e) => Err(e),
            },
            2 => match dec_packed_u32(f.value) {
                Ok(xs) => Ok(SpecCContentServerDirectory_RequestPeerContentServer_Response { installed_depots: v.installed_depots + xs, ..v }),
                Err(e) => Err(e),
            },
            3 => match dec_u64(f.value) {
                Ok(x) => Ok(SpecCContentServerDirectory_RequestPeerContentServer_Response { access_token: Some(x), ..v }),
                Err(e) => Err(e),
            },
            _ => Ok(v),
        }
    }

    pub open spec fn apply_fn() -> spec_fn(SpecCContentServerDirectory_RequestPeerContentServer_Response, SpecField) -> Result<SpecCContentServerDirectory_RequestPeerContentServer_Response, WireError> {
        |v: SpecCContentServerDirectory_RequestPeerContentServer_Response, f: SpecField| Self::spec_apply(v, f)
    }

    /// The message `bytes` makes of `v`: its records applied in order, or the error
    /// that stops the reading.
    pub open spec fn spec_merge(v: SpecCContentServerDirectory_RequestPeerContentServer_Response, bytes: Seq<u8>) -> Result<SpecCContentServerDirectory_RequestPeerContentServer_Response, WireError> {
        let (w, stop) = merge_run(v, bytes, Self::apply_fn());
        match stop {
            None => Ok(w),
            Some(e) => Err(e),
        }
    }

    #[verifier::opaque]
    pub open spec fn spec_decode(bytes: Seq<u8>) -> Result<SpecCContentServerDirectory_RequestPeerContentServer_Response, WireError> {
        Self::spec_merge(Self::spec_default(), bytes)
    }

    /// This message with one record applied to it, or, when the record is refused,
    /// the message unchanged and the reason.
    fn applied(self, f: &Field) -> (r: Result<Self, (Self, WireError)>)
        ensures
            match Self::spec_apply(self@, f@) {
                Ok(v) => r matches Ok(m) && m@ == v,
                Err(e) => r matches Err((m, x)) && x == e && m@ == self@,
            },
    {
        match f.number {
            1 => match read_u32(&f.value) {
                Ok(x) => Ok(Self { server_port: Some(x), ..self }),
                Err(e) => Err((self, e)),
            },
            2 => match read_packed_u32(&f.value) {
                Ok(xs) => {
                    let mut m = self;
                    let mut xs = xs;
                    m.installed_depots.append(&mut xs);
                    Ok(m)
                },
                Err(e) => Err((self, e)),
            },
            3 => match read_u64(&f.value) {
                Ok(x) => Ok(Self { access_token: Some(x), ..self }),
                Err(e) => Err((self, e)),
            },
            _ => Ok(self),
        }
    }

    /// Reads the records `bytes` holds into this message, in order. When a record does
    /// not parse or is refused, the reading stops there: the message keeps what the
    /// records before it gave, and the error is returned.
    pub fn merge(&mut self, bytes: &[u8]) -> (r: Result<(), WireError>)
        ensures
            final(self)@ == merge_run(old(self)@, bytes@, Self::apply_fn()).0,
            r == match merge_run(old(self)@, bytes@, Self::apply_fn()).1 {
                None => Ok::<(), WireError>(()),
                Some(e) => Err::<(), WireError>(e),
            },
    {
        let ghost total = merge_run(self@, bytes@, Self::apply_fn());
        let mut cur = Self::default();
        std::mem::swap(&mut cur, self);
        let mut pos: usize = 0;
        assert(bytes@.skip(0) =~= bytes@);
        while pos < bytes.len()
            invariant
                pos <= bytes@.len(),
                total == merge_run(old(self)@, bytes@, Self::apply_fn()),
                merge_run(cur@, bytes@.skip(pos as int), Self::apply_fn()) == total,
            decreases bytes@.len() - pos,
        {
            let ghost s = bytes@.skip(pos as int);
            proof {
                lemma_merge_run_step(cur@, s, Self::apply_fn());
                lemma_parse_field_len(s);
            }
            match read_field(bytes, pos) {
                Ok((f, end)) => {
                    assert(bytes@.skip(end as int) =~= s.skip((end - pos) as int));
                    match cur.applied(&f) {
                        Ok(m) => {
                            cur = m;
                        },
                        Err((m, e)) => {
                            *self = m;
                            return Err(e);
                        },
                    }
                    pos = end;
                },
                Err(e) => {
                    *self = cur;
                    return Err(e);
                },
            }
        }
        assert(bytes@.skip(pos as int) =~= Seq::<u8>::empty());
        proof {
            lemma_merge_run_empty(cur@, Self::apply_fn());
        }
        *self = cur;
        Ok(())
    }

    /// Decodes a message from its encoding.
    pub fn decode(bytes: &[u8]) -> (r: Result<Self, WireError>)
        ensures
            match Self::spec_decode(bytes@) {
                Ok(v) => r matches Ok(m) && m@ == v,
                Err(e) => r matches Err(x) && x == e,
            },
    {
        proof {
            reveal(CContentServerDirectory_RequestPeerContentServer_Response::spec_decode);
        }
        let mut m = Self::default();
        match m.merge(bytes) {
            Ok(()) => Ok(m),
            Err(e) => Err(e),
        }
    }

    /// The encoding of this message.
    pub fn encode_to_vec(&self) -> (r: Vec<u8>)
        ensures
            r@ == Self::spec_encode(self@),
    {
        let ghost v = self@;
        let mut out: Vec<u8> = Vec::new();
        let ghost p0 = Seq::<SpecField>::empty();
        put_opt_u32(&mut out, 1, self.server_port);
        let ghost p1 = p0 + opt_u32(1, v.server_port);
        proof {
            lemma_fields_bytes_concat(p0, opt_u32(1, v.server_port));
        }
        put_rep_u32(&mut out, 2, &self.installed_depots);
        let ghost p2 = p1 + rep_u32(2, v.installed_depots);
        proof {
            lemma_fields_bytes_concat(p1, rep_u32(2, v.installed_depots));
        }
        put_opt_varint(&mut out, 3, self.access_token);
        let ghost p3 = p2 + opt_u64(3, v.access_token);
        proof {
            lemma_fields_bytes_concat(p2, opt_u64(3, v.access_token));
        }
        proof {
            reveal(CContentServerDirectory_RequestPeerContentServer_Response::spec_encode);
        }
        assert(p3 == Self::spec_fields(v));
        out
    }

    /// Appends the encoding of this message to `out`.
    pub fn encode_raw(&self, out: &mut Vec<u8>)
        ensures
            final(out)@ == old(out)@ + Self::spec_encode(self@),
    {
        let mut b = self.encode_to_vec();
        out.append(&mut b);
    }

    /// The first `k` fields of `v`, the others as a fresh message has them.
    #[verifier::opaque]
    pub open spec fn spec_prefix(v: SpecCContentServerDirectory_RequestPeerContentServer_Response, k: int) -> SpecCContentServerDirectory_RequestPeerContentServer_Response {
        SpecCContentServerDirectory_RequestPeerContentServer_Response {
            server_port: if 1 <= k { v.server_port } else { None },
            installed_depots: if 2 <= k { v.installed_depots } else { Seq::empty() },
            access_token: if 3 <= k { v.access_token } else { None },
        }
    }

    /// Reading field 1 back, after the fields before it.
    proof fn lemma_field_server_port(v: SpecCContentServerDirectory_RequestPeerContentServer_Response)
        ensures
            fold_fields(Self::spec_prefix(v, 0), opt_u32(1, v.server_port), Self::apply_fn())
                == Ok::<SpecCContentServerDirectory_RequestPeerContentServer_Response, WireError>(Self::spec_prefix(v, 1)),
    {
        reveal(CContentServerDirectory_RequestPeerContentServer_Response::spec_prefix);
        reveal(opt_u32);
        let apply = Self::apply_fn();
        let s = Self::spec_prefix(v, 0);
        lemma_fold_opt(s, 1, match v.server_port { Some(x) => Some(enc_u32(x)), None => None }, apply);
        if let Some(x) = v.server_port {
            lemma_u32_roundtrip(x);
        }
        assert(SpecCContentServerDirectory_RequestPeerContentServer_Response { server_port: v.server_port, ..s } == Self::spec_prefix(v, 1));
    }

    /// Reading field 2 back, after the fields before it.
    proof fn lemma_field_installed_depots(v: SpecCContentServerDirectory_RequestPeerContentServer_Response)
        ensures
            fold_fields(Self::spec_prefix(v, 1), rep_u32(2, v.installed_depots), Self::apply_fn())
                == Ok::<SpecCContentServerDirectory_RequestPeerContentServer_Response, WireError>(Self::spec_prefix(v, 2)),
    {
        reveal(CContentServerDirectory_RequestPeerContentServer_Response::spec_prefix);
        reveal(rep_u32);
        let apply = Self::apply_fn();
        let s = Self::spec_prefix(v, 1);
        let l = rep_u32(2, v.installed_depots);
        let xs = v.installed_depots;
        let st = Seq::new((xs.len() + 1) as nat, |j: int| SpecCContentServerDirectory_RequestPeerContentServer_Response { installed_depots: xs.take(j), ..s });
        assert forall|j: int| 0 <= j < l.len() implies #[trigger] apply(st[j], l[j]) == Ok::<SpecCContentServerDirectory_RequestPeerContentServer_Response, WireError>(st[j + 1]) by {
            lemma_u32_roundtrip(xs[j]);
            assert(xs.take(j) + seq![xs[j]] =~= xs.take(j + 1));
        }
        lemma_fold_chain(l, st, apply);
        assert(xs.take(0) =~= Seq::<u32>::empty());
        assert(xs.take(xs.len() as int) =~= xs);
        assert(st[0] == s);
        assert(st[xs.len() as int] == Self::spec_prefix(v, 2));
    }

    /// Reading field 3 back, after the fields before it.
    proof fn lemma_field_access_token(v: SpecCContentServerDirectory_RequestPeerContentServer_Response)
        ensures
            fold_fields(Self::spec_prefix(v, 2), opt_u64(3, v.access_token), Self::apply_fn())
                == Ok::<SpecCContentServerDirectory_RequestPeerContentServer_Response, WireError>(Self::spec_prefix(v, 3)),
    {
        reveal(CContentServerDirectory_RequestPeerContentServer_Response::spec_prefix);
        reveal(opt_u64);
        let apply = Self::apply_fn();
        let s = Self::spec_prefix(v, 2);
        lemma_fold_opt(s, 3, match v.access_token { Some(x) => Some(enc_u64(x)), None => None }, apply);
        if let Some(x) = v.access_token {
            lemma_u64_roundtrip(x);
        }
        assert(SpecCContentServerDirectory_RequestPeerContentServer_Response { access_token: v.access_token, ..s } == Self::spec_prefix(v, 3));
    }

    /// Whether this message declares field number `n`.
    pub open spec fn declares(n: u32) -> bool {
        n == 1 || n == 2 || n == 3
    }

    /// A record with a number this message does not declare is passed over: well-formed
    /// bytes decode to the same message with such a record after them as without it.
    pub proof fn lemma_unknown_field(bytes: Seq<u8>, f: SpecField)
        requires
            parse_fields(bytes) is Ok,
            field_wf(f),
            !Self::declares(f.number),
        ensures
            Self::spec_decode(bytes + field_bytes(f)) == Self::spec_decode(bytes),
    {
        reveal(CContentServerDirectory_RequestPeerContentServer_Response::spec_decode);
        lemma_parse_fields_append(bytes, f);
        let fs = parse_fields(bytes).unwrap();
        let apply = Self::apply_fn();
        lemma_fold_concat(Self::spec_default(), fs, seq![f], apply);
        assert(fs.push(f) =~= fs + seq![f]);
        if let Ok(w) = fold_fields(Self::spec_default(), fs, apply) {
            lemma_fold_single(w, f, apply);
        }
        lemma_merge_run_fold(Self::spec_default(), bytes, apply);
        lemma_merge_run_fold(Self::spec_default(), bytes + field_bytes(f), apply);
    }

    /// Decoding the encoding of a message gives the message back.
    pub proof fn lemma_decode_encode(v: SpecCContentServerDirectory_RequestPeerContentServer_Response)
        requires
            Self::spec_encode(v).len() <= u64::MAX,
        ensures
            Self::spec_decode(Self::spec_encode(v)) == Ok::<SpecCContentServerDirectory_RequestPeerContentServer_Response, WireError>(v),
    {
        let apply = Self::apply_fn();
        let d = Self::spec_default();
        let p0 = Seq::<SpecField>::empty();
        let l1 = opt_u32(1, v.server_port);
        let p1 = p0 + l1;
        let l2 = rep_u32(2, v.installed_depots);
        let p2 = p1 + l2;
        let l3 = opt_u64(3, v.access_token);
        let p3 = p2 + l3;
        assert(parse_fields(Self::spec_encode(v)) == Ok::<Seq<SpecField>, WireError>(p3)) by {
            reveal(CContentServerDirectory_RequestPeerContentServer_Response::spec_encode);
            assert(numbers_ok(p0) && fields_wf(p0)) by {
                reveal(numbers_ok);
                reveal(fields_wf);
            }
            lemma_opt_u32_numbered(1, v.server_port);
            lemma_fields_wf_concat(p0, l1);
            lemma_rep_u32_numbered(2, v.installed_depots);
            lemma_fields_wf_concat(p1, l2);
            lemma_opt_u64_numbered(3, v.access_token);
            lemma_fields_wf_concat(p2, l3);
            assert(p3 == Self::spec_fields(v));
            lemma_fields_wf_from_len(p3);
            lemma_fields_roundtrip(p3);
        }
        assert(Self::spec_prefix(v, 0) == d) by {
            reveal(CContentServerDirectory_RequestPeerContentServer_Response::spec_prefix);
        }
        lemma_fold_empty(d, apply);
        lemma_fold_concat(d, p0, l1, apply);
        Self::lemma_field_server_port(v);
        lemma_fold_concat(d, p1, l2, apply);
        Self::lemma_field_installed_depots(v);
        lemma_fold_concat(d, p2, l3, apply);
        Self::lemma_field_access_token(v);
        assert(Self::spec_prefix(v, 3) == v) by {
            reveal(CContentServerDirectory_RequestPeerContentServer_Response::spec_prefix);
        }
        lemma_merge_run_fold(d, Self::spec_encode(v), apply);
        assert(Self::spec_decode(Self::spec_encode(v)) == Ok::<SpecCContentServerDirectory_RequestPeerContentServer_Response, WireError>(v)) by {
            reveal(CContentServerDirectory_RequestPeerContentServer_Response::spec_decode);
        }
    }
}

/// `CContentServerDirectory_GetPeerContentInfo_Request`, as Valve's schema declares it.
#[derive(Debug, Clone, PartialEq)]
pub struct CContentServerDirectory_GetPeerContentInfo_Request {
    /// Field 1.
    pub remote_client_id: Option<u64>,
    /// Field 2.
    pub steamid: Option<u64>,
    /// Field 3.
    pub server_remote_client_id: Option<u64>,
}

/// What a `CContentServerDirectory_GetPeerContentInfo_Request` holds, as mathematical values.
#[verifier::ext_equal]
pub struct SpecCContentServerDirectory_GetPeerContentInfo_Request {
    pub remote_client_id: Option<u64>,
    pub steamid: Option<u64>,
    pub server_remote_client_id: Option<u64>,
}

impl View for CContentServerDirectory_GetPeerContentInfo_Request {
    type V = SpecCContentServerDirectory_GetPeerContentInfo_Request;

    open spec fn view(&self) -> SpecCContentServerDirectory_GetPeerContentInfo_Request {
        SpecCContentServerDirectory_GetPeerContentInfo_Request {
            remote_client_id: self.remote_client_id,
            steamid: self.steamid,
            server_remote_client_id: self.server_remote_client_id,
        }
    }
}

impl Default for CContentServerDirectory_GetPeerContentInfo_Request {
    fn default() -> (r: Self)
        ensures
            r@ == CContentServerDirectory_GetPeerContentInfo_Request::spec_default(),
    {
        CContentServerDirectory_GetPeerContentInfo_Request {
            remote_client_id: None,
            steamid: None,
            server_remote_client_id: None,
        }
    }
}

impl CContentServerDirectory_GetPeerContentInfo_Request {
    pub open spec fn spec_default() -> SpecCContentServerDirectory_GetPeerContentInfo_Request {
        SpecCContentServerDirectory_GetPeerContentInfo_Request {
            remote_client_id: None,
            steamid: None,
            server_remote_client_id: None,
        }
    }

    /// The records a `CContentServerDirectory_GetPeerContentInfo_Request` is written as, in field order.
    pub open spec fn spec_fields(v: SpecCContentServerDirectory_GetPeerContentInfo_Request) -> Seq<SpecField> {
        Seq::<SpecField>::empty()
            + opt_u64(1, v.remote_client_id)
            + opt_u64(2, v.steamid)
            + opt_u64(3, v.server_remote_client_id)
    }

    #[verifier::opaque]
    pub open spec fn spec_encode(v: SpecCContentServerDirectory_GetPeerContentInfo_Request) -> Seq<u8> {
        fields_bytes(Self::spec_fields(v))
    }

    /// What one record does to the message: a declared number sets or extends its
    /// field, any other number is left alone.
    pub open spec fn spec_apply(v: SpecCContentServerDirectory_GetPeerContentInfo_Request, f: SpecField) -> Result<SpecCContentServerDirectory_GetPeerContentInfo_Request, WireError> {
        match f.number {
            1 => match dec_u64(f.value) {
                Ok(x) => Ok(SpecCContentServerDirectory_GetPeerContentInfo_Request { remote_client_id: Some(x), ..v }),
                Err(e) => Err(e),
            },
            2 => match dec_u64(f.value) {
                Ok(x) => Ok(SpecCContentServerDirectory_GetPeerContentInfo_Request { steamid: Some(x), ..v }),
                Err(e) => Err(e),
            },
            3 => match dec_u64(f.value) {
                Ok(x) => Ok(SpecCContentServerDirectory_GetPeerContentInfo_Request { server_remote_client_id: Some(x), ..v }),
                Err(e) => Err(e),
            },
            _ => Ok(v),
        }
    }

    pub open spec fn apply_fn() -> spec_fn(SpecCContentServerDirectory_GetPeerContentInfo_Request, SpecField) -> Result<SpecCContentServerDirectory_GetPeerContentInfo_Request, WireError> {
        |v: SpecCContentServerDirectory_GetPeerContentInfo_Request, f: SpecField| Self::spec_apply(v, f)
    }

    /// The message `bytes` makes of `v`: its records applied in order, or the error
    /// that stops the reading.
    pub open spec fn spec_merge(v: SpecCContentServerDirectory_GetPeerContentInfo_Request, bytes: Seq<u8>) -> Result<SpecCContentServerDirectory_GetPeerContentInfo_Request, WireError> {
        let (w, stop) = merge_run(v, bytes, Self::apply_fn());
        match stop {
            None => Ok(w),
            Some(e) => Err(e),
        }
    }

    #[verifier::opaque]
    pub open spec fn spec_decode(bytes: Seq<u8>) -> Result<SpecCContentServerDirectory_GetPeerContentInfo_Request, WireError> {
        Self::spec_merge(Self::spec_default(), bytes)
    }

    /// This message with one record applied to it, or, when the record is refused,
    /// the message unchanged and the reason.
    fn applied(self, f: &Field) -> (r: Result<Self, (Self, WireError)>)
        ensures
            match Self::spec_apply(self@, f@) {
                Ok(v) => r matches Ok(m) && m@ == v,
                Err(e) => r matches Err((m, x)) && x == e && m@ == self@,
            },
    {
        match f.number {
            1 => match read_u64(&f.value) {
                Ok(x) => Ok(Self { remote_client_id: Some(x), ..self }),
                Err(e) => Err((self, e)),
            },
            2 => match read_u64(&f.value) {
                Ok(x) => Ok(Self { steamid: Some(x), ..self }),
                Err(e) => Err((self, e)),
            },
            3 => match read_u64(&f.value) {
                Ok(x) => Ok(Self { server_remote_client_id: Some(x), ..self }),
                Err(e) => Err((self, e)),
            },
            _ => Ok(self),
        }
    }

    /// Reads the records `bytes` holds into this message, in order. When a record does
    /// not parse or is refused, the reading stops there: the message keeps what the
    /// records before it gave, and the error is returned.
    pub fn merge(&mut self, bytes: &[u8]) -> (r: Result<(), WireError>)
        ensures
            final(self)@ == merge_run(old(self)@, bytes@, Self::apply_fn()).0,
            r == match merge_run(old(self)@, bytes@, Self::apply_fn()).1 {
                None => Ok::<(), WireError>(()),
                Some(e) => Err::<(), WireError>(e),
            },
    {
        let ghost total = merge_run(self@, bytes@, Self::apply_fn());
        let mut cur = Self::default();
        std::mem::swap(&mut cur, self);
        let mut pos: usize = 0;
        assert(bytes@.skip(0) =~= bytes@);
        while pos < bytes.len()
            invariant
                pos <= bytes@.len(),
                total == merge_run(old(self)@, bytes@, Self::apply_fn()),
                merge_run(cur@, bytes@.skip(pos as int), Self::apply_fn()) == total,
            decreases bytes@.len() - pos,
        {
            let ghost s = bytes@.skip(pos as int);
            proof {
                lemma_merge_run_step(cur@, s, Self::apply_fn());
                lemma_parse_field_len(s);
            }
            match read_field(bytes, pos) {
                Ok((f, end)) => {
                    assert(bytes@.skip(end as int) =~= s.skip((end - pos) as int));
                    match cur.applied(&f) {
                        Ok(m) => {
                            cur = m;
                        },
                        Err((m, e)) => {
                            *self = m;
                            return Err(e);
                        },
                    }
                    pos = end;
                },
                Err(e) => {
                    *self = cur;
                    return Err(e);
                },
            }
        }
        assert(bytes@.skip(pos as int) =~= Seq::<u8>::empty());
        proof {
            lemma_merge_run_empty(cur@, Self::apply_fn());
        }
        *self = cur;
        Ok(())
    }

    /// Decodes a message from its encoding.
    pub fn decode(bytes: &[u8]) -> (r: Result<Self, WireError>)
        ensures
            match Self::spec_decode(bytes@) {
                Ok(v) => r matches Ok(m) && m@ == v,
                Err(e) => r matches Err(x) && x == e,
            },
    {
        proof {
            reveal(CContentServerDirectory_GetPeerContentInfo_Request::spec_decode);
        }
        let mut m = Self::default();
        match m.merge(bytes) {
            Ok(()) => Ok(m),
            Err(e) => Err(e),
        }
    }

    /// The encoding of this message.
    pub fn encode_to_vec(&self) -> (r: Vec<u8>)
        ensures
            r@ == Self::spec_encode(self@),
    {
        let ghost v = self@;
        let mut out: Vec<u8> = Vec::new();
        let ghost p0 = Seq::<SpecField>::empty();
        put_opt_varint(&mut out, 1, self.remote_client_id);
        let ghost p1 = p0 + opt_u64(1, v.remote_client_id);
        proof {
            lemma_fields_bytes_concat(p0, opt_u64(1, v.remote_client_id));
        }
        put_opt_varint(&mut out, 2, self.steamid);
        let ghost p2 = p1 + opt_u64(2, v.steamid);
        proof {
            lemma_fields_bytes_concat(p1, opt_u64(2, v.steamid));
        }
        put_opt_varint(&mut out, 3, self.server_remote_client_id);
        let ghost p3 = p2 + opt_u64(3, v.server_remote_client_id);
        proof {
            lemma_fields_bytes_concat(p2, opt_u64(3, v.server_remote_client_id));
        }
        proof {
            reveal(CContentServerDirectory_GetPeerContentInfo_Request::spec_encode);
        }
        assert(p3 == Self::spec_fields(v));
        out
    }

    /// Appends the encoding of this message to `out`.
    pub fn encode_raw(&self, out: &mut Vec<u8>)
        ensures
            final(out)@ == old(out)@ + Self::spec_encode(self@),
    {
        let mut b = self.encode_to_vec();
        out.append(&mut b);
    }

    /// The first `k` fields of `v`, the others as a fresh message has them.
    #[verifier::opaque]
    pub open spec fn spec_prefix(v: SpecCContentServerDirectory_GetPeerContentInfo_Request, k: int) -> SpecCContentServerDirectory_GetPeerContentInfo_Request {
        SpecCContentServerDirectory_GetPeerContentInfo_Request {
            remote_client_id: if 1 <= k { v.remote_client_id } else { None },
            steamid: if 2 <= k { v.steamid } else { None },
            server_remote_client_id: if 3 <= k { v.server_remote_client_id } else { None },
        }
    }

    /// Reading field 1 back, after the fields before it.
    proof fn lemma_field_remote_client_id(v: SpecCContentServerDirectory_GetPeerContentInfo_Request)
        ensures
            fold_fields(Self::spec_prefix(v, 0), opt_u64(1, v.remote_client_id), Self::apply_fn())
                == Ok::<SpecCContentServerDirectory_GetPeerContentInfo_Request, WireError>(Self::spec_prefix(v, 1)),
    {
        reveal(CContentServerDirectory_GetPeerContentInfo_Request::spec_prefix);
        reveal(opt_u64);
        let apply = Self::apply_fn();
        let s = Self::spec_prefix(v, 0);
        lemma_fold_opt(s, 1, match v.remote_client_id { Some(x) => Some(enc_u64(x)), None => None }, apply);
        if let Some(x) = v.remote_client_id {
            lemma_u64_roundtrip(x);
        }
        assert(SpecCContentServerDirectory_GetPeerContentInfo_Request { remote_client_id: v.remote_client_id, ..s } == Self::spec_prefix(v, 1));
    }

    /// Reading field 2 back, after the fields before it.
    proof fn lemma_field_steamid(v: SpecCContentServerDirectory_GetPeerContentInfo_Request)
        ensures
            fold_fields(Self::spec_prefix(v, 1), opt_u64(2, v.steamid), Self::apply_fn())
                == Ok::<SpecCContentServerDirectory_GetPeerContentInfo_Request, WireError>(Self::spec_prefix(v, 2)),
    {
        reveal(CContentServerDirectory_GetPeerContentInfo_Request::spec_prefix);
        reveal(opt_u64);
        let apply = Self::apply_fn();
        let s = Self::spec_prefix(v, 1);
        lemma_fold_opt(s, 2, match v.steamid { Some(x) => Some(enc_u64(x)), None => None }, apply);
        if let Some(x) = v.steamid {
            lemma_u64_roundtrip(x);
        }
        assert(SpecCContentServerDirectory_GetPeerContentInfo_Request { steamid: v.steamid, ..s } == Self::spec_prefix(v, 2));
    }

    /// Reading field 3 back, after the fields before it.
    proof fn lemma_field_server_remote_client_id(v: SpecCContentServerDirectory_GetPeerContentInfo_Request)
        ensures
            fold_fields(Self::spec_prefix(v, 2), opt_u64(3, v.server_remote_client_id), Self::apply_fn())
                == Ok::<SpecCContentServerDirectory_GetPeerContentInfo_Request, WireError>(Self::spec_prefix(v, 3)),
    {
        reveal(CContentServerDirectory_GetPeerContentInfo_Request::spec_prefix);
        reveal(opt_u64);
        let apply = Self::apply_fn();
        let s = Self::spec_prefix(v, 2);
        lemma_fold_opt(s, 3, match v.server_remote_client_id { Some(x) => Some(enc_u64(x)), None => None }, apply);
        if let Some(x) = v.server_remote_client_id {
            lemma_u64_roundtrip(x);
        }
        assert(SpecCContentServerDirectory_GetPeerContentInfo_Request { server_remote_client_id: v.server_remote_client_id, ..s } == Self::spec_prefix(v, 3));
    }

    /// Whether this message declares field number `n`.
    pub open spec fn declares(n: u32) -> bool {
        n == 1 || n == 2 || n == 3
    }

    /// A record with a number this message does not declare is passed over: well-formed
    /// bytes decode to the same message with such a record after them as without it.
    pub proof fn lemma_unknown_field(bytes: Seq<u8>, f: SpecField)
        requires
            parse_fields(bytes) is Ok,
            field_wf(f),
            !Self::declares(f.number),
        ensures
            Self::spec_decode(bytes + field_bytes(f)) == Self::spec_decode(bytes),
    {
        reveal(CContentServerDirectory_GetPeerContentInfo_Request::spec_decode);
        lemma_parse_fields_append(bytes, f);
        let fs = parse_fields(bytes).unwrap();
        let apply = Self::apply_fn();
        lemma_fold_concat(Self::spec_default(), fs, seq![f], apply);
        assert(fs.push(f) =~= fs + seq![f]);
        if let Ok(w) = fold_fields(Self::spec_default(), fs, apply) {
            lemma_fold_single(w, f, apply);
        }
        lemma_merge_run_fold(Self::spec_default(), bytes, apply);
        lemma_merge_run_fold(Self::spec_default(), bytes + field_bytes(f), apply);
    }

    /// Decoding the encoding of a message gives the message back.
    pub proof fn lemma_decode_encode(v: SpecCContentServerDirectory_GetPeerContentInfo_Request)
        requires
            Self::spec_encode(v).len() <= u64::MAX,
        ensures
            Self::spec_decode(Self::spec_encode(v)) == Ok::<SpecCContentServerDirectory_GetPeerContentInfo_Request, WireError>(v),
    {
        let apply = Self::apply_fn();
        let d = Self::spec_default();
        let p0 = Seq::<SpecField>::empty();
        let l1 = opt_u64(1, v.remote_client_id);
        let p1 = p0 + l1;
        let l2 = opt_u64(2, v.steamid);
        let p2 = p1 + l2;
        let l3 = opt_u64(3, v.server_remote_client_id);
        let p3 = p2 + l3;
        assert(parse_fields(Self::spec_encode(v)) == Ok::<Seq<SpecField>, WireError>(p3)) by {
            reveal(CContentServerDirectory_GetPeerContentInfo_Request::spec_encode);
            assert(numbers_ok(p0) && fields_wf(p0)) by {
                reveal(numbers_ok);
                reveal(fields_wf);
            }
            lemma_opt_u64_numbered(1, v.remote_client_id);
            lemma_fields_wf_concat(p0, l1);
            lemma_opt_u64_numbered(2, v.steamid);
            lemma_fields_wf_concat(p1, l2);
            lemma_opt_u64_numbered(3, v.server_remote_client_id);
            lemma_fields_wf_concat(p2, l3);
            assert(p3 == Self::spec_fields(v));
            lemma_fields_wf_from_len(p3);
            lemma_fields_roundtrip(p3);
        }
        assert(Self::spec_prefix(v, 0) == d) by {
            reveal(CContentServerDirectory_GetPeerContentInfo_Request::spec_prefix);
        }
        lemma_fold_empty(d, apply);
        lemma_fold_concat(d, p0, l1, apply);
        Self::lemma_field_remote_client_id(v);
        lemma_fold_concat(d, p1, l2, apply);
        Self::lemma_field_steamid(v);
        lemma_fold_concat(d, p2, l3, apply);
        Self::lemma_field_server_remote_client_id(v);
        assert(Self::spec_prefix(v, 3) == v) by {
            reveal(CContentServerDirectory_GetPeerContentInfo_Request::spec_prefix);
        }
        lemma_merge_run_fold(d, Self::spec_encode(v), apply);
        assert(Self::spec_decode(Self::spec_encode(v)) == Ok::<SpecCContentServerDirectory_GetPeerContentInfo_Request, WireError>(v)) by {
            reveal(CContentServerDirectory_GetPeerContentInfo_Request::spec_decode);
        }
    }
}

/// `CContentServerDirectory_GetPeerContentInfo_Response`, as Valve's schema declares it.
#[derive(Debug, Clone, PartialEq)]
pub struct CContentServerDirectory_GetPeerContentInfo_Response {
    /// Field 1.
    pub appids: Vec<u32>,
    /// Field 2.
    pub ip_public: Option<String>,
}

/// What a `CContentServerDirectory_GetPeerContentInfo_Response` holds, as mathematical values.
#[verifier::ext_equal]
pub struct SpecCContentServerDirectory_GetPeerContentInfo_Response {
    pub appids: Seq<u32>,
    pub ip_public: Option<Seq<char>>,
}

impl View for CContentServerDirectory_GetPeerContentInfo_Response {
    type V = SpecCContentServerDirectory_GetPeerContentInfo_Response;

    open spec fn view(&self) -> SpecCContentServerDirectory_GetPeerContentInfo_Response {
        SpecCContentServerDirectory_GetPeerContentInfo_Response {
            appids: self.appids@,
            ip_public: opt_string_view(self.ip_public),
        }
    }
}

impl Default for CContentServerDirectory_GetPeerContentInfo_Response {
    fn default() -> (r: Self)
        ensures
            r@ == CContentServerDirectory_GetPeerContentInfo_Response::spec_default(),
    {
        CContentServerDirectory_GetPeerContentInfo_Response {
            appids: Vec::new(),
            ip_public: None,
        }
    }
}

impl CContentServerDirectory_GetPeerContentInfo_Response {
    pub open spec fn spec_default() -> SpecCContentServerDirectory_GetPeerContentInfo_Response {
        SpecCContentServerDirectory_GetPeerContentInfo_Response {
            appids: Seq::empty(),
            ip_public: None,
        }
    }

    /// The records a `CContentServerDirectory_GetPeerContentInfo_Response` is written as, in field order.
    pub open spec fn spec_fields(v: SpecCContentServerDirectory_GetPeerContentInfo_Response) -> Seq<SpecField> {
        Seq::<SpecField>::empty()
            + rep_u32(1, v.appids)
            + opt_string(2, v.ip_public)
    }

    #[verifier::opaque]
    pub open spec fn spec_encode(v: SpecCContentServerDirectory_GetPeerContentInfo_Response) -> Seq<u8> {
        fields_bytes(Self::spec_fields(v))
    }

    /// What one record does to the message: a declared number sets or extends its
    /// field, any other number is left alone.
    pub open spec fn spec_apply(v: SpecCContentServerDirectory_GetPeerContentInfo_Response, f: SpecField) -> Result<SpecCContentServerDirectory_GetPeerContentInfo_Response, WireError> {
        match f.number {
            1 => match dec_packed_u32(f.value) {
                Ok(xs) => Ok(SpecCContentServerDirectory_GetPeerContentInfo_Response { appids: v.appids + xs, ..v }),
                Err(e) => Err(e),
            },
            2 => match dec_string(f.value) {
                Ok(x) => Ok(SpecCContentServerDirectory_GetPeerContentInfo_Response { ip_public: Some(x), ..v }),
                Err(e) => Err(e),
            },
            _ => Ok(v),
        }
    }

    pub open spec fn apply_fn() -> spec_fn(SpecCContentServerDirectory_GetPeerContentInfo_Response, SpecField) -> Result<SpecCContentServerDirectory_GetPeerContentInfo_Response, WireError> {
        |v: SpecCContentServerDirectory_GetPeerContentInfo_Response, f: SpecField| Self::spec_apply(v, f)
    }

    /// The message `bytes` makes of `v`: its records applied in order, or the error
    /// that stops the reading.
    pub open spec fn spec_merge(v: SpecCContentServerDirectory_GetPeerContentInfo_Response, bytes: Seq<u8>) -> Result<SpecCContentServerDirectory_GetPeerContentInfo_Response, WireError> {
        let (w, stop) = merge_run(v, bytes, Self::apply_fn());
        match stop {
            None => Ok(w),
            Some(e) => Err(e),
        }
    }

    #[verifier::opaque]
    pub open spec fn spec_decode(bytes: Seq<u8>) -> Result<SpecCContentServerDirectory_GetPeerContentInfo_Response, WireError> {
        Self::spec_merge(Self::spec_default(), bytes)
    }

    /// This message with one record applied to it, or, when the record is refused,
    /// the message unchanged and the reason.
    fn applied(self, f: &Field) -> (r: Result<Self, (Self, WireError)>)
        ensures
            match Self::spec_apply(self@, f@) {
                Ok(v) => r matches Ok(m) && m@ == v,
                Err(e) => r matches Err((m, x)) && x == e && m@ == self@,
            },
    {
        match f.number {
            1 => match read_packed_u32(&f.value) {
                Ok(xs) => {
                    let mut m = self;
                    let mut xs = xs;
                    m.appids.append(&mut xs);
                    Ok(m)
                },
                Err(e) => Err((self, e)),
            },
            2 => match read_string(&f.value) {
                Ok(x) => Ok(Self { ip_public: Some(x), ..self }),
                Err(e) => Err((self, e)),
            },
            _ => Ok(self),
        }
    }

    /// Reads the records `bytes` holds into this message, in order. When a record does
    /// not parse or is refused, the reading stops there: the message keeps what the
    /// records before it gave, and the error is returned.
    pub fn merge(&mut self, bytes: &[u8]) -> (r: Result<(), WireError>)
        ensures
            final(self)@ == merge_run(old(self)@, bytes@, Self::apply_fn()).0,
            r == match merge_run(old(self)@, bytes@, Self::apply_fn()).1 {
                None => Ok::<(), WireError>(()),
                Some(e) => Err::<(), WireError>(e),
            },
    {
        let ghost total = merge_run(self@, bytes@, Self::apply_fn());
        let mut cur = Self::default();
        std::mem::swap(&mut cur, self);
        let mut pos: usize = 0;
        assert(bytes@.skip(0) =~= bytes@);
        while pos < bytes.len()
            invariant
                pos <= bytes@.len(),
                total == merge_run(old(self)@, bytes@, Self::apply_fn()),
                merge_run(cur@, bytes@.skip(pos as int), Self::apply_fn()) == total,
            decreases bytes@.len() - pos,
        {
            let ghost s = bytes@.skip(pos as int);
            proof {
                lemma_merge_run_step(cur@, s, Self::apply_fn());
                lemma_parse_field_len(s);
            }
            match read_field(bytes, pos) {
                Ok((f, end)) => {
                    assert(bytes@.skip(end as int) =~= s.skip((end - pos) as int));
                    match cur.applied(&f) {
                        Ok(m) => {
                            cur = m;
                        },
                        Err((m, e)) => {
                            *self = m;
                            return Err(e);
                        },
                    }
                    pos = end;
                },
                Err(e) => {
                    *self = cur;
                    return Err(e);
                },
            }
        }
        assert(bytes@.skip(pos as int) =~= Seq::<u8>::empty());
        proof {
            lemma_merge_run_empty(cur@, Self::apply_fn());
        }
        *self = cur;
        Ok(())
    }

    /// Decodes a message from its encoding.
    pub fn decode(bytes: &[u8]) -> (r: Result<Self, WireError>)
        ensures
            match Self::spec_decode(bytes@) {
                Ok(v) => r matches Ok(m) && m@ == v,
                Err(e) => r matches Err(x) && x == e,
            },
    {
        proof {
            reveal(CContentServerDirectory_GetPeerContentInfo_Response::spec_decode);
        }
        let mut m = Self::default();
        match m.merge(bytes) {
            Ok(()) => Ok(m),
            Err(e) => Err(e),
        }
    }

    /// The encoding of this message.
    pub fn encode_to_vec(&self) -> (r: Vec<u8>)
        ensures
            r@ == Self::spec_encode(self@),
    {
        let ghost v = self@;
        let mut out: Vec<u8> = Vec::new();
        let ghost p0 = Seq::<SpecField>::empty();
        put_rep_u32(&mut out, 1, &self.appids);
        let ghost p1 = p0 + rep_u32(1, v.appids);
        proof {
            lemma_fields_bytes_concat(p0, rep_u32(1, v.appids));
        }
        put_opt_string(&mut out, 2, &self.ip_public);
        let ghost p2 = p1 + opt_string(2, v.ip_public);
        proof {
            lemma_fields_bytes_concat(p1, opt_string(2, v.ip_public));
        }
        proof {
            reveal(CContentServerDirectory_GetPeerContentInfo_Response::spec_encode);
        }
        assert(p2 == Self::spec_fields(v));
        out
    }

    /// Appends the encoding of this message to `out`.
    pub fn encode_raw(&self, out: &mut Vec<u8>)
        ensures
            final(out)@ == old(out)@ + Self::spec_encode(self@),
    {
        let mut b = self.encode_to_vec();
        out.append(&mut b);
    }

    /// The first `k` fields of `v`, the others as a fresh message has them.
    #[verifier::opaque]
    pub open spec fn spec_prefix(v: SpecCContentServerDirectory_GetPeerContentInfo_Response, k: int) -> SpecCContentServerDirectory_GetPeerContentInfo_Response {
        SpecCContentServerDirectory_GetPeerContentInfo_Response {
            appids: if 1 <= k { v.appids } else { Seq::empty() },
            ip_public: if 2 <= k { v.ip_public } else { None },
        }
    }

    /// Reading field 1 back, after the fields before it.
    proof fn lemma_field_appids(v: SpecCContentServerDirectory_GetPeerContentInfo_Response)
        ensures
            fold_fields(Self::spec_prefix(v, 0), rep_u32(1, v.appids), Self::apply_fn())
                == Ok::<SpecCContentServerDirectory_GetPeerContentInfo_Response, WireError>(Self::spec_prefix(v, 1)),
    {
        reveal(CContentServerDirectory_GetPeerContentInfo_Response::spec_prefix);
        reveal(rep_u32);
        let apply = Self::apply_fn();
        let s = Self::spec_prefix(v, 0);
        let l = rep_u32(1, v.appids);
        let xs = v.appids;
        let st = Seq::new((xs.len() + 1) as nat, |j: int| SpecCContentServerDirectory_GetPeerContentInfo_Response { appids: xs.take(j), ..s });
        assert forall|j: int| 0 <= j < l.len() implies #[trigger] apply(st[j], l[j]) == Ok::<SpecCContentServerDirectory_GetPeerContentInfo_Response, WireError>(st[j + 1]) by {
            lemma_u32_roundtrip(xs[j]);
            assert(xs.take(j) + seq![xs[j]] =~= xs.take(j + 1));
        }
        lemma_fold_chain(l, st, apply);
        assert(xs.take(0) =~= Seq::<u32>::empty());
        assert(xs.take(xs.len() as int) =~= xs);
        assert(st[0] == s);
        assert(st[xs.len() as int] == Self::spec_prefix(v, 1));
    }

    /// Reading field 2 back, after the fields before it.
    proof fn lemma_field_ip_public(v: SpecCContentServerDirectory_GetPeerContentInfo_Response)
        ensures
            fold_fields(Self::spec_prefix(v, 1), opt_string(2, v.ip_public), Self::apply_fn())
                == Ok::<SpecCContentServerDirectory_GetPeerContentInfo_Response, WireError>(Self::spec_prefix(v, 2)),
    {
        reveal(CContentServerDirectory_GetPeerContentInfo_Response::spec_prefix);
        reveal(opt_string);
        let apply = Self::apply_fn();
        let s = Self::spec_prefix(v, 1);
        lemma_fold_opt(s, 2, match v.ip_public { Some(x) => Some(enc_string(x)), None => None }, apply);
        if let Some(x) = v.ip_public {
            lemma_string_roundtrip(x);
        }
        assert(SpecCContentServerDirectory_GetPeerContentInfo_Response { ip_public: v.ip_public, ..s } == Self::spec_prefix(v, 2));
    }

    /// Whether this message declares field number `n`.
    pub open spec fn declares(n: u32) -> bool {
        n == 1 || n == 2
    }

    /// A record with a number this message does not declare is passed over: well-formed
    /// bytes decode to the same message with such a record after them as without it.
    pub proof fn lemma_unknown_field(bytes: Seq<u8>, f: SpecField)
        requires
            parse_fields(bytes) is Ok,
            field_wf(f),
            !Self::declares(f.number),
        ensures
            Self::spec_decode(bytes + field_bytes(f)) == Self::spec_decode(bytes),
    {
        reveal(CContentServerDirectory_GetPeerContentInfo_Response::spec_decode);
        lemma_parse_fields_append(bytes, f);
        let fs = parse_fields(bytes).unwrap();
        let apply = Self::apply_fn();
        lemma_fold_concat(Self::spec_default(), fs, seq![f], apply);
        assert(fs.push(f) =~= fs + seq![f]);
        if let Ok(w) = fold_fields(Self::spec_default(), fs, apply) {
            lemma_fold_single(w, f, apply);
        }
        lemma_merge_run_fold(Self::spec_default(), bytes, apply);
        lemma_merge_run_fold(Self::spec_default(), bytes + field_bytes(f), apply);
    }

    /// Decoding the encoding of a message gives the message back.
    pub proof fn lemma_decode_encode(v: SpecCContentServerDirectory_GetPeerContentInfo_Response)
        requires
            Self::spec_encode(v).len() <= u64::MAX,
        ensures
            Self::spec_decode(Self::spec_encode(v)) == Ok::<SpecCContentServerDirectory_GetPeerContentInfo_Response, WireError>(v),
    {
        let apply = Self::apply_fn();
        let d = Self::spec_default();
        let p0 = Seq::<SpecField>::empty();
        let l1 = rep_u32(1, v.appids);
        let p1 = p0 + l1;
        let l2 = opt_string(2, v.ip_public);
        let p2 = p1 + l2;
        assert(parse_fields(Self::spec_encode(v)) == Ok::<Seq<SpecField>, WireError>(p2)) by {
            reveal(CContentServerDirectory_GetPeerContentInfo_Response::spec_encode);
            assert(numbers_ok(p0) && fields_wf(p0)) by {
                reveal(numbers_ok);
                reveal(fields_wf);
            }
            lemma_rep_u32_numbered(1, v.appids);
            lemma_fields_wf_concat(p0, l1);
            lemma_opt_string_numbered(2, v.ip_public);
            lemma_fields_wf_concat(p1, l2);
            assert(p2 == Self::spec_fields(v));
            lemma_fields_wf_from_len(p2);
            lemma_fields_roundtrip(p2);
        }
        assert(Self::spec_prefix(v, 0) == d) by {
            reveal(CContentServerDirectory_GetPeerContentInfo_Response::spec_prefix);
        }
        lemma_fold_empty(d, apply);
        lemma_fold_concat(d, p0, l1, apply);
        Self::lemma_field_appids(v);
        lemma_fold_concat(d, p1, l2, apply);
        Self::lemma_field_ip_public(v);
        assert(Self::spec_prefix(v, 2) == v) by {
            reveal(CContentServerDirectory_GetPeerContentInfo_Response::spec_prefix);
        }
        lemma_merge_run_fold(d, Self::spec_encode(v), apply);
        assert(Self::spec_decode(Self::spec_encode(v)) == Ok::<SpecCContentServerDirectory_GetPeerContentInfo_Response, WireError>(v)) by {
            reveal(CContentServerDirectory_GetPeerContentInfo_Response::spec_decode);
        }
    }
}

/// `CDepotContentDetection_GetAllDetectedAppContent_Request`, as Valve's schema declares it.
#[derive(Debug, Clone, PartialEq)]
pub struct CDepotContentDetection_GetAllDetectedAppContent_Request {
    /// Field 1.
    pub detection_type: Option<crate::steammessages_contentsystem_steamclient::EAppContentDetectionType>,
}

/// What a `CDepotContentDetection_GetAllDetectedAppContent_Request` holds, as mathematical values.
#[verifier::ext_equal]
pub struct SpecCDepotContentDetection_GetAllDetectedAppContent_Request {
    pub detection_type: Option<i32>,
}

impl View for CDepotContentDetection_GetAllDetectedAppContent_Request {
    type V = SpecCDepotContentDetection_GetAllDetectedAppContent_Request;

    open spec fn view(&self) -> SpecCDepotContentDetection_GetAllDetectedAppContent_Request {
        SpecCDepotContentDetection_GetAllDetectedAppContent_Request {
            detection_type: match self.detection_type { Some(e) => Some(e.0), None => None },
        }
    }
}

impl Default for CDepotContentDetection_GetAllDetectedAppContent_Request {
    fn default() -> (r: Self)
        ensures
            r@ == CDepotContentDetection_GetAllDetectedAppContent_Request::spec_default(),
    {
        CDepotContentDetection_GetAllDetectedAppContent_Request {
            detection_type: None,
        }
    }
}

impl CDepotContentDetection_GetAllDetectedAppContent_Request {
    /// Field 1, or its schema default when absent.
    pub fn detection_type_or_default(&self) -> (r: crate::steammessages_contentsystem_steamclient::EAppContentDetectionType)
        ensures
            r == match self.detection_type {
                Some(e) => e,
                None => crate::steammessages_contentsystem_steamclient::EAppContentDetectionType(0),
            },
    {
        match self.detection_type {
            Some(e) => e,
            None => crate::steammessages_contentsystem_steamclient::EAppContentDetectionType::k_EAppContentDetectionType_None(),
        }
    }

    pub open spec fn spec_default() -> SpecCDepotContentDetection_GetAllDetectedAppContent_Request {
        SpecCDepotContentDetection_GetAllDetectedAppContent_Request {
            detection_type: None,
        }
    }

    /// The records a `CDepotContentDetection_GetAllDetectedAppContent_Request` is written as, in field order.
    pub open spec fn spec_fields(v: SpecCDepotContentDetection_GetAllDetectedAppContent_Request) -> Seq<SpecField> {
        Seq::<SpecField>::empty()
            + opt_i32(1, v.detection_type)
    }

    #[verifier::opaque]
    pub open spec fn spec_encode(v: SpecCDepotContentDetection_GetAllDetectedAppContent_Request) -> Seq<u8> {
        fields_bytes(Self::spec_fields(v))
    }

    /// What one record does to the message: a declared number sets or extends its
    /// field, any other number is left alone.
    pub open spec fn spec_apply(v: SpecCDepotContentDetection_GetAllDetectedAppContent_Request, f: SpecField) -> Result<SpecCDepotContentDetection_GetAllDetectedAppContent_Request, WireError> {
        match f.number {
            1 => match dec_i32(f.value) {
                Ok(x) => Ok(SpecCDepotContentDetection_GetAllDetectedAppContent_Request { detection_type: Some(x), ..v }),
                Err(e) => Err(e),
            },
            _ => Ok(v),
        }
    }

    pub open spec fn apply_fn() -> spec_fn(SpecCDepotContentDetection_GetAllDetectedAppContent_Request, SpecField) -> Result<SpecCDepotContentDetection_GetAllDetectedAppContent_Request, WireError> {
        |v: SpecCDepotContentDetection_GetAllDetectedAppContent_Request, f: SpecField| Self::spec_apply(v, f)
    }

    /// The message `bytes` makes of `v`: its records applied in order, or the error
    /// that stops the reading.
    pub open spec fn spec_merge(v: SpecCDepotContentDetection_GetAllDetectedAppContent_Request, bytes: Seq<u8>) -> Result<SpecCDepotContentDetection_GetAllDetectedAppContent_Request, WireError> {
        let (w, stop) = merge_run(v, bytes, Self::apply_fn());
        match stop {
            None => Ok(w),
            Some(e) => Err(e),
        }
    }

    #[verifier::opaque]
    pub open spec fn spec_decode(bytes: Seq<u8>) -> Result<SpecCDepotContentDetection_GetAllDetectedAppContent_Request, WireError> {
        Self::spec_merge(Self::spec_default(), bytes)
    }

    /// This message with one record applied to it, or, when the record is refused,
    /// the message unchanged and the reason.
    fn applied(self, f: &Field) -> (r: Result<Self, (Self, WireError)>)
        ensures
            match Self::spec_apply(self@, f@) {
                Ok(v) => r matches Ok(m) && m@ == v,
                Err(e) => r matches Err((m, x)) && x == e && m@ == self@,
            },
    {
        match f.number {
            1 => match read_i32(&f.value) {
                Ok(x) => Ok(Self { detection_type: Some(crate::steammessages_contentsystem_steamclient::EAppContentDetectionType(x)), ..self }),
                Err(e) => Err((self, e)),
            },
            _ => Ok(self),
        }
    }

    /// Reads the records `bytes` holds into this message, in order. When a record does
    /// not parse or is refused, the reading stops there: the message keeps what the
    /// records before it gave, and the error is returned.
    pub fn merge(&mut self, bytes: &[u8]) -> (r: Result<(), WireError>)
        ensures
            final(self)@ == merge_run(old(self)@, bytes@, Self::apply_fn()).0,
            r == match merge_run(old(self)@, bytes@, Self::apply_fn()).1 {
                None => Ok::<(), WireError>(()),
                Some(e) => Err::<(), WireError>(e),
            },
    {
        let ghost total = merge_run(self@, bytes@, Self::apply_fn());
        let mut cur = Self::default();
        std::mem::swap(&mut cur, self);
        let mut pos: usize = 0;
        assert(bytes@.skip(0) =~= bytes@);
        while pos < bytes.len()
            invariant
                pos <= bytes@.len(),
                total == merge_run(old(self)@, bytes@, Self::apply_fn()),
                merge_run(cur@, bytes@.skip(pos as int), Self::apply_fn()) == total,
            decreases bytes@.len() - pos,
        {
            let ghost s = bytes@.skip(pos as int);
            proof {
                lemma_merge_run_step(cur@, s, Self::apply_fn());
                lemma_parse_field_len(s);
            }
            match read_field(bytes, pos) {
                Ok((f, end)) => {
                    assert(bytes@.skip(end as int) =~= s.skip((end - pos) as int));
                    match cur.applied(&f) {
                        Ok(m) => {
                            cur = m;
                        },
                        Err((m, e)) => {
                            *self = m;
                            return Err(e);
                        },
                    }
                    pos = end;
                },
                Err(e) => {
                    *self = cur;
                    return Err(e);
                },
            }
        }
        assert(bytes@.skip(pos as int) =~= Seq::<u8>::empty());
        proof {
            lemma_merge_run_empty(cur@, Self::apply_fn());
        }
        *self = cur;
        Ok(())
    }

    /// Decodes a message from its encoding.
    pub fn decode(bytes: &[u8]) -> (r: Result<Self, WireError>)
        ensures
            match Self::spec_decode(bytes@) {
                Ok(v) => r matches Ok(m) && m@ == v,
                Err(e) => r matches Err(x) && x == e,
            },
    {
        proof {
            reveal(CDepotContentDetection_GetAllDetectedAppContent_Request::spec_decode);
        }
        let mut m = Self::default();
        match m.merge(bytes) {
            Ok(()) => Ok(m),
            Err(e) => Err(e),
        }
    }

    /// The encoding of this message.
    pub fn encode_to_vec(&self) -> (r: Vec<u8>)
        ensures
            r@ == Self::spec_encode(self@),
    {
        let ghost v = self@;
        let mut out: Vec<u8> = Vec::new();
        let ghost p0 = Seq::<SpecField>::empty();
        put_opt_i32(&mut out, 1, match self.detection_type { Some(e) => Some(e.0), None => None });
        let ghost p1 = p0 + opt_i32(1, v.detection_type);
        proof {
            lemma_fields_bytes_concat(p0, opt_i32(1, v.detection_type));
        }
        proof {
            reveal(CDepotContentDetection_GetAllDetectedAppContent_Request::spec_encode);
        }
        assert(p1 == Self::spec_fields(v));
        out
    }

    /// Appends the encoding of this message to `out`.
    pub fn encode_raw(&self, out: &mut Vec<u8>)
        ensures
            final(out)@ == old(out)@ + Self::spec_encode(self@),
    {
        let mut b = self.encode_to_vec();
        out.append(&mut b);
    }

    /// The first `k` fields of `v`, the others as a fresh message has them.
    #[verifier::opaque]
    pub open spec fn spec_prefix(v: SpecCDepotContentDetection_GetAllDetectedAppContent_Request, k: int) -> SpecCDepotContentDetection_GetAllDetectedAppContent_Request {
        SpecCDepotContentDetection_GetAllDetectedAppContent_Request {
            detection_type: if 1 <= k { v.detection_type } else { None },
        }
    }

    /// Reading field 1 back, after the fields before it.
    proof fn lemma_field_detection_type(v: SpecCDepotContentDetection_GetAllDetectedAppContent_Request)
        ensures
            fold_fields(Self::spec_prefix(v, 0), opt_i32(1, v.detection_type), Self::apply_fn())
                == Ok::<SpecCDepotContentDetection_GetAllDetectedAppContent_Request, WireError>(Self::spec_prefix(v, 1)),
    {
        reveal(CDepotContentDetection_GetAllDetectedAppContent_Request::spec_prefix);
        reveal(opt_i32);
        let apply = Self::apply_fn();
        let s = Self::spec_prefix(v, 0);
        lemma_fold_opt(s, 1, match v.detection_type { Some(x) => Some(enc_i32(x)), None => None }, apply);
        if let Some(x) = v.detection_type {
            lemma_i32_roundtrip(x);
        }
        assert(SpecCDepotContentDetection_GetAllDetectedAppContent_Request { detection_type: v.detection_type, ..s } == Self::spec_prefix(v, 1));
    }

    /// Whether this message declares field number `n`.
    pub open spec fn declares(n: u32) -> bool {
        n == 1
    }

    /// A record with a number this message does not declare is passed over: well-formed
    /// bytes decode to the same message with such a record after them as without it.
    pub proof fn lemma_unknown_field(bytes: Seq<u8>, f: SpecField)
        requires
            parse_fields(bytes) is Ok,
            field_wf(f),
            !Self::declares(f.number),
        ensures
            Self::spec_decode(bytes + field_bytes(f)) == Self::spec_decode(bytes),
    {
        reveal(CDepotContentDetection_GetAllDetectedAppContent_Request::spec_decode);
        lemma_parse_fields_append(bytes, f);
        let fs = parse_fields(bytes).unwrap();
        let apply = Self::apply_fn();
        lemma_fold_concat(Self::spec_default(), fs, seq![f], apply);
        assert(fs.push(f) =~= fs + seq![f]);
        if let Ok(w) = fold_fields(Self::spec_default(), fs, apply) {
            lemma_fold_single(w, f, apply);
        }
        lemma_merge_run_fold(Self::spec_default(), bytes, apply);
        lemma_merge_run_fold(Self::spec_default(), bytes + field_bytes(f), apply);
    }

    /// Decoding the encoding of a message gives the message back.
    pub proof fn lemma_decode_encode(v: SpecCDepotContentDetection_GetAllDetectedAppContent_Request)
        requires
            Self::spec_encode(v).len() <= u64::MAX,
        ensures
            Self::spec_decode(Self::spec_encode(v)) == Ok::<SpecCDepotContentDetection_GetAllDetectedAppContent_Request, WireError>(v),
    {
        let apply = Self::apply_fn();
        let d = Self::spec_default();
        let p0 = Seq::<SpecField>::empty();
        let l1 = opt_i32(1, v.detection_type);
        let p1 = p0 + l1;
        assert(parse_fields(Self::spec_encode(v)) == Ok::<Seq<SpecField>, WireError>(p1)) by {
            reveal(CDepotContentDetection_GetAllDetectedAppContent_Request::spec_encode);
            assert(numbers_ok(p0) && fields_wf(p0)) by {
                reveal(numbers_ok);
                reveal(fields_wf);
            }
            lemma_opt_i32_numbered(1, v.detection_type);
            lemma_fields_wf_concat(p0, l1);
            assert(p1 == Self::spec_fields(v));
            lemma_fields_wf_from_len(p1);
            lemma_fields_roundtrip(p1);
        }
        assert(Self::spec_prefix(v, 0) == d) by {
            reveal(CDepotContentDetection_GetAllDetectedAppContent_Request::spec_prefix);
        }
        lemma_fold_empty(d, apply);
        lemma_fold_concat(d, p0, l1, apply);
        Self::lemma_field_detection_type(v);
        assert(Self::spec_prefix(v, 1) == v) by {
            reveal(CDepotContentDetection_GetAllDetectedAppContent_Request::spec_prefix);
        }
        lemma_merge_run_fold(d, Self::spec_encode(v), apply);
        assert(Self::spec_decode(Self::spec_encode(v)) == Ok::<SpecCDepotContentDetection_GetAllDetectedAppContent_Request, WireError>(v)) by {
            reveal(CDepotContentDetection_GetAllDetectedAppContent_Request::spec_decode);
        }
    }
}

/// `DetectedAppContent`, as Valve's schema declares it.
#[derive(Debug, Clone, PartialEq)]
pub struct DetectedAppContent {
    /// Field 1.
    pub app_id: Option<u32>,
    /// Field 2.
    pub depot_id: Option<u32>,
    /// Field 3.
    pub detected_content: Option<i32>,
}

/// What a `DetectedAppContent` holds, as mathematical values.
#[verifier::ext_equal]
pub struct SpecDetectedAppContent {
    pub app_id: Option<u32>,
    pub depot_id: Option<u32>,
    pub detected_content: Option<i32>,
}

impl View for DetectedAppContent {
    type V = SpecDetectedAppContent;

    open spec fn view(&self) -> SpecDetectedAppContent {
        SpecDetectedAppContent {
            app_id: self.app_id,
            depot_id: self.depot_id,
            detected_content: self.detected_content,
        }
    }
}

impl Default for DetectedAppContent {
    fn default() -> (r: Self)
        ensures
            r@ == DetectedAppContent::spec_default(),
    {
        DetectedAppContent {
            app_id: None,
            depot_id: None,
            detected_content: None,
        }
    }
}

impl DetectedAppContent {
    pub open spec fn spec_default() -> SpecDetectedAppContent {
        SpecDetectedAppContent {
            app_id: None,
            depot_id: None,
            detected_content: None,
        }
    }

    /// The records a `DetectedAppContent` is written as, in field order.
    pub open spec fn spec_fields(v: SpecDetectedAppContent) -> Seq<SpecField> {
        Seq::<SpecField>::empty()
            + opt_u32(1, v.app_id)
            + opt_u32(2, v.depot_id)
            + opt_i32(3, v.detected_content)
    }

    #[verifier::opaque]
    pub open spec fn spec_encode(v: SpecDetectedAppContent) -> Seq<u8> {
        fields_bytes(Self::spec_fields(v))
    }

    /// What one record does to the message: a declared number sets or extends its
    /// field, any other number is left alone.
    pub open spec fn spec_apply(v: SpecDetectedAppContent, f: SpecField) -> Result<SpecDetectedAppContent, WireError> {
        match f.number {
            1 => match dec_u32(f.value) {
                Ok(x) => Ok(SpecDetectedAppContent { app_id: Some(x), ..v }),
                Err(e) => Err(e),
            },
            2 => match dec_u32(f.value) {
                Ok(x) => Ok(SpecDetectedAppContent { depot_id: Some(x), ..v }),
                Err(e) => Err(e),
            },
            3 => match dec_i32(f.value) {
                Ok(x) => Ok(SpecDetectedAppContent { detected_content: Some(x), ..v }),
                Err(e) => Err(e),
            },
            _ => Ok(v),
        }
    }

    pub open spec fn apply_fn() -> spec_fn(SpecDetectedAppContent, SpecField) -> Result<SpecDetectedAppContent, WireError> {
        |v: SpecDetectedAppContent, f: SpecField| Self::spec_apply(v, f)
    }

    /// The message `bytes` makes of `v`: its records applied in order, or the error
    /// that stops the reading.
    pub open spec fn spec_merge(v: SpecDetectedAppContent, bytes: Seq<u8>) -> Result<SpecDetectedAppContent, WireError> {
        let (w, stop) = merge_run(v, bytes, Self::apply_fn());
        match stop {
            None => Ok(w),
            Some(e) => Err(e),
        }
    }

    #[verifier::opaque]
    pub open spec fn spec_decode(bytes: Seq<u8>) -> Result<SpecDetectedAppContent, WireError> {
        Self::spec_merge(Self::spec_default(), bytes)
    }

    pub open spec fn view_all(xs: Seq<DetectedAppContent>) -> Seq<SpecDetectedAppContent> {
        xs.map_values(|m: DetectedAppContent| m@)
    }

    pub open spec fn view_opt(o: Option<DetectedAppContent>) -> Option<SpecDetectedAppContent> {
        match o {
            Some(m) => Some(m@),
            None => None,
        }
    }

    pub open spec fn spec_encode_all(xs: Seq<SpecDetectedAppContent>) -> Seq<Seq<u8>> {
        xs.map_values(|m: SpecDetectedAppContent| Self::spec_encode(m))
    }

    pub open spec fn spec_encode_opt(o: Option<SpecDetectedAppContent>) -> Option<Seq<u8>> {
        match o {
            Some(m) => Some(Self::spec_encode(m)),
            None => None,
        }
    }

    /// The encoding of each element.
    pub fn encode_all(xs: &Vec<DetectedAppContent>) -> (r: Vec<Vec<u8>>)
        ensures
            bytes_seq_view(r@) == Self::spec_encode_all(Self::view_all(xs@)),
    {
        let mut out: Vec<Vec<u8>> = Vec::new();
        let mut i: usize = 0;
        while i < xs.len()
            invariant
                i <= xs@.len(),
                out@.len() == i,
                forall|j: int| 0 <= j < i ==> #[trigger] out@[j]@ == Self::spec_encode(xs@[j]@),
            decreases xs@.len() - i,
        {
            let e = xs[i].encode_to_vec();
            out.push(e);
            i = i + 1;
        }
        assert(bytes_seq_view(out@) =~= Self::spec_encode_all(Self::view_all(xs@)));
        out
    }

    /// The encoding of the element, when there is one.
    pub fn encode_opt(o: &Option<DetectedAppContent>) -> (r: Option<Vec<u8>>)
        ensures
            opt_bytes_view(r) == Self::spec_encode_opt(Self::view_opt(*o)),
    {
        match o {
            Some(m) => Some(m.encode_to_vec()),
            None => None,
        }
    }

    /// This message with one record applied to it, or, when the record is refused,
    /// the message unchanged and the reason.
    fn applied(self, f: &Field) -> (r: Result<Self, (Self, WireError)>)
        ensures
            match Self::spec_apply(self@, f@) {
                Ok(v) => r matches Ok(m) && m@ == v,
                Err(e) => r matches Err((m, x)) && x == e && m@ == self@,
            },
    {
        match f.number {
            1 => match read_u32(&f.value) {
                Ok(x) => Ok(Self { app_id: Some(x), ..self }),
                Err(e) => Err((self, e)),
            },
            2 => match read_u32(&f.value) {
                Ok(x) => Ok(Self { depot_id: Some(x), ..self }),
                Err(e) => Err((self, e)),
            },
            3 => match read_i32(&f.value) {
                Ok(x) => Ok(Self { detected_content: Some(x), ..self }),
                Err(e) => Err((self, e)),
            },
            _ => Ok(self),
        }
    }

    /// Reads the records `bytes` holds into this message, in order. When a record does
    /// not parse or is refused, the reading stops there: the message keeps what the
    /// records before it gave, and the error is returned.
    pub fn merge(&mut self, bytes: &[u8]) -> (r: Result<(), WireError>)
        ensures
            final(self)@ == merge_run(old(self)@, bytes@, Self::apply_fn()).0,
            r == match merge_run(old(self)@, bytes@, Self::apply_fn()).1 {
                None => Ok::<(), WireError>(()),
                Some(e) => Err::<(), WireError>(e),
            },
    {
        let ghost total = merge_run(self@, bytes@, Self::apply_fn());
        let mut cur = Self::default();
        std::mem::swap(&mut cur, self);
        let mut pos: usize = 0;
        assert(bytes@.skip(0) =~= bytes@);
        while pos < bytes.len()
            invariant
                pos <= bytes@.len(),
                total == merge_run(old(self)@, bytes@, Self::apply_fn()),
                merge_run(cur@, bytes@.skip(pos as int), Self::apply_fn()) == total,
            decreases bytes@.len() - pos,
        {
            let ghost s = bytes@.skip(pos as int);
            proof {
                lemma_merge_run_step(cur@, s, Self::apply_fn());
                lemma_parse_field_len(s);
            }
            match read_field(bytes, pos) {
                Ok((f, end)) => {
                    assert(bytes@.skip(end as int) =~= s.skip((end - pos) as int));
                    match cur.applied(&f) {
                        Ok(m) => {
                            cur = m;
                        },
                        Err((m, e)) => {
                            *self = m;
                            return Err(e);
                        },
                    }
                    pos = end;
                },
                Err(e) => {
                    *self = cur;
                    return Err(e);
                },
            }
        }
        assert(bytes@.skip(pos as int) =~= Seq::<u8>::empty());
        proof {
            lemma_merge_run_empty(cur@, Self::apply_fn());
        }
        *self = cur;
        Ok(())
    }

    /// Decodes a message from its encoding.
    pub fn decode(bytes: &[u8]) -> (r: Result<Self, WireError>)
        ensures
            match Self::spec_decode(bytes@) {
                Ok(v) => r matches Ok(m) && m@ == v,
                Err(e) => r matches Err(x) && x == e,
            },
    {
        proof {
            reveal(DetectedAppContent::spec_decode);
        }
        let mut m = Self::default();
        match m.merge(bytes) {
            Ok(()) => Ok(m),
            Err(e) => Err(e),
        }
    }

    /// The encoding of this message.
    pub fn encode_to_vec(&self) -> (r: Vec<u8>)
        ensures
            r@ == Self::spec_encode(self@),
    {
        let ghost v = self@;
        let mut out: Vec<u8> = Vec::new();
        let ghost p0 = Seq::<SpecField>::empty();
        put_opt_u32(&mut out, 1, self.app_id);
        let ghost p1 = p0 + opt_u32(1, v.app_id);
        proof {
            lemma_fields_bytes_concat(p0, opt_u32(1, v.app_id));
        }
        put_opt_u32(&mut out, 2, self.depot_id);
        let ghost p2 = p1 + opt_u32(2, v.depot_id);
        proof {
            lemma_fields_bytes_concat(p1, opt_u32(2, v.depot_id));
        }
        put_opt_i32(&mut out, 3, self.detected_content);
        let ghost p3 = p2 + opt_i32(3, v.detected_content);
        proof {
            lemma_fields_bytes_concat(p2, opt_i32(3, v.detected_content));
        }
        proof {
            reveal(DetectedAppContent::spec_encode);
        }
        assert(p3 == Self::spec_fields(v));
        out
    }

    /// Appends the encoding of this message to `out`.
    pub fn encode_raw(&self, out: &mut Vec<u8>)
        ensures
            final(out)@ == old(out)@ + Self::spec_encode(self@),
    {
        let mut b = self.encode_to_vec();
        out.append(&mut b);
    }

    /// The first `k` fields of `v`, the others as a fresh message has them.
    #[verifier::opaque]
    pub open spec fn spec_prefix(v: SpecDetectedAppContent, k: int) -> SpecDetectedAppContent {
        SpecDetectedAppContent {
            app_id: if 1 <= k { v.app_id } else { None },
            depot_id: if 2 <= k { v.depot_id } else { None },
            detected_content: if 3 <= k { v.detected_content } else { None },
        }
    }

    /// Reading field 1 back, after the fields before it.
    proof fn lemma_field_app_id(v: SpecDetectedAppContent)
        ensures
            fold_fields(Self::spec_prefix(v, 0), opt_u32(1, v.app_id), Self::apply_fn())
                == Ok::<SpecDetectedAppContent, WireError>(Self::spec_prefix(v, 1)),
    {
        reveal(DetectedAppContent::spec_prefix);
        reveal(opt_u32);
        let apply = Self::apply_fn();
        let s = Self::spec_prefix(v, 0);
        lemma_fold_opt(s, 1, match v.app_id { Some(x) => Some(enc_u32(x)), None => None }, apply);
        if let Some(x) = v.app_id {
            lemma_u32_roundtrip(x);
        }
        assert(SpecDetectedAppContent { app_id: v.app_id, ..s } == Self::spec_prefix(v, 1));
    }

    /// Reading field 2 back, after the fields before it.
    proof fn lemma_field_depot_id(v: SpecDetectedAppContent)
        ensures
            fold_fields(Self::spec_prefix(v, 1), opt_u32(2, v.depot_id), Self::apply_fn())
                == Ok::<SpecDetectedAppContent, WireError>(Self::spec_prefix(v, 2)),
    {
        reveal(DetectedAppContent::spec_prefix);
        reveal(opt_u32);
        let apply = Self::apply_fn();
        let s = Self::spec_prefix(v, 1);
        lemma_fold_opt(s, 2, match v.depot_id { Some(x) => Some(enc_u32(x)), None => None }, apply);
        if let Some(x) = v.depot_id {
            lemma_u32_roundtrip(x);
        }
        assert(SpecDetectedAppContent { depot_id: v.depot_id, ..s } == Self::spec_prefix(v, 2));
    }

    /// Reading field 3 back, after the fields before it.
    proof fn lemma_field_detected_content(v: SpecDetectedAppContent)
        ensures
            fold_fields(Self::spec_prefix(v, 2), opt_i32(3, v.detected_content), Self::apply_fn())
                == Ok::<SpecDetectedAppContent, WireError>(Self::spec_prefix(v, 3)),
    {
        reveal(DetectedAppContent::spec_prefix);
        reveal(opt_i32);
        let apply = Self::apply_fn();
        let s = Self::spec_prefix(v, 2);
        lemma_fold_opt(s, 3, match v.detected_content { Some(x) => Some(enc_i32(x)), None => None }, apply);
        if let Some(x) = v.detected_content {
            lemma_i32_roundtrip(x);
        }
        assert(SpecDetectedAppContent { detected_content: v.detected_content, ..s } == Self::spec_prefix(v, 3));
    }

    /// Whether this message declares field number `n`.
    pub open spec fn declares(n: u32) -> bool {
        n == 1 || n == 2 || n == 3
    }

    /// A record with a number this message does not declare is passed over: well-formed
    /// bytes decode to the same message with such a record after them as without it.
    pub proof fn lemma_unknown_field(bytes: Seq<u8>, f: SpecField)
        requires
            parse_fields(bytes) is Ok,
            field_wf(f),
            !Self::declares(f.number),
        ensures
            Self::spec_decode(bytes + field_bytes(f)) == Self::spec_decode(bytes),
    {
        reveal(DetectedAppContent::spec_decode);
        lemma_parse_fields_append(bytes, f);
        let fs = parse_fields(bytes).unwrap();
        let apply = Self::apply_fn();
        lemma_fold_concat(Self::spec_default(), fs, seq![f], apply);
        assert(fs.push(f) =~= fs + seq![f]);
        if let Ok(w) = fold_fields(Self::spec_default(), fs, apply) {
            lemma_fold_single(w, f, apply);
        }
        lemma_merge_run_fold(Self::spec_default(), bytes, apply);
        lemma_merge_run_fold(Self::spec_default(), bytes + field_bytes(f), apply);
    }

    /// Decoding the encoding of a message gives the message back.
    pub proof fn lemma_decode_encode(v: SpecDetectedAppContent)
        requires
            Self::spec_encode(v).len() <= u64::MAX,
        ensures
            Self::spec_decode(Self::spec_encode(v)) == Ok::<SpecDetectedAppContent, WireError>(v),
    {
        let apply = Self::apply_fn();
        let d = Self::spec_default();
        let p0 = Seq::<SpecField>::empty();
        let l1 = opt_u32(1, v.app_id);
        let p1 = p0 + l1;
        let l2 = opt_u32(2, v.depot_id);
        let p2 = p1 + l2;
        let l3 = opt_i32(3, v.detected_content);
        let p3 = p2 + l3;
        assert(parse_fields(Self::spec_encode(v)) == Ok::<Seq<SpecField>, WireError>(p3)) by {
            reveal(DetectedAppContent::spec_encode);
            assert(numbers_ok(p0) && fields_wf(p0)) by {
                reveal(numbers_ok);
                reveal(fields_wf);
            }
            lemma_opt_u32_numbered(1, v.app_id);
            lemma_fields_wf_concat(p0, l1);
            lemma_opt_u32_numbered(2, v.depot_id);
            lemma_fields_wf_concat(p1, l2);
            lemma_opt_i32_numbered(3, v.detected_content);
            lemma_fields_wf_concat(p2, l3);
            assert(p3 == Self::spec_fields(v));
            lemma_fields_wf_from_len(p3);
            lemma_fields_roundtrip(p3);
        }
        assert(Self::spec_prefix(v, 0) == d) by {
            reveal(DetectedAppContent::spec_prefix);
        }
        lemma_fold_empty(d, apply);
        lemma_fold_concat(d, p0, l1, apply);
        Self::lemma_field_app_id(v);
        lemma_fold_concat(d, p1, l2, apply);
        Self::lemma_field_depot_id(v);
        lemma_fold_concat(d, p2, l3, apply);
        Self::lemma_field_detected_content(v);
        assert(Self::spec_prefix(v, 3) == v) by {
            reveal(DetectedAppContent::spec_prefix);
        }
        lemma_merge_run_fold(d, Self::spec_encode(v), apply);
        assert(Self::spec_decode(Self::spec_encode(v)) == Ok::<SpecDetectedAppContent, WireError>(v)) by {
            reveal(DetectedAppContent::spec_decode);
        }
    }
}

/// `CDepotContentDetection_GetAllDetectedAppContent_Response`, as Valve's schema declares it.
#[derive(Debug, Clone, PartialEq)]
pub struct CDepotContentDetection_GetAllDetectedAppContent_Response {
    /// Field 1.
    pub detected_app_content: Vec<crate::steammessages_contentsystem_steamclient::DetectedAppContent>,
}

/// What a `CDepotContentDetection_GetAllDetectedAppContent_Response` holds, as mathematical values.
#[verifier::ext_equal]
pub struct SpecCDepotContentDetection_GetAllDetectedAppContent_Response {
    pub detected_app_content: Seq<crate::steammessages_contentsystem_steamclient::SpecDetectedAppContent>,
}

impl View for CDepotContentDetection_GetAllDetectedAppContent_Response {
    type V = SpecCDepotContentDetection_GetAllDetectedAppContent_Response;

    open spec fn view(&self) -> SpecCDepotContentDetection_GetAllDetectedAppContent_Response {
        SpecCDepotContentDetection_GetAllDetectedAppContent_Response {
            detected_app_content: crate::steammessages_contentsystem_steamclient::DetectedAppContent::view_all(self.detected_app_content@),
        }
    }
}

impl Default for CDepotContentDetection_GetAllDetectedAppContent_Response {
    fn default() -> (r: Self)
        ensures
            r@ == CDepotContentDetection_GetAllDetectedAppContent_Response::spec_default(),
    {
        CDepotContentDetection_GetAllDetectedAppContent_Response {
            detected_app_content: Vec::new(),
        }
    }
}

impl CDepotContentDetection_GetAllDetectedAppContent_Response {
    pub open spec fn spec_default() -> SpecCDepotContentDetection_GetAllDetectedAppContent_Response {
        SpecCDepotContentDetection_GetAllDetectedAppContent_Response {
            detected_app_content: Seq::empty(),
        }
    }

    /// The records a `CDepotContentDetection_GetAllDetectedAppContent_Response` is written as, in field order.
    pub open spec fn spec_fields(v: SpecCDepotContentDetection_GetAllDetectedAppContent_Response) -> Seq<SpecField> {
        Seq::<SpecField>::empty()
            + rep_bytes(1, crate::steammessages_contentsystem_steamclient::DetectedAppContent::spec_encode_all(v.detected_app_content))
    }

    #[verifier::opaque]
    pub open spec fn spec_encode(v: SpecCDepotContentDetection_GetAllDetectedAppContent_Response) -> Seq<u8> {
        fields_bytes(Self::spec_fields(v))
    }

    /// What one record does to the message: a declared number sets or extends its
    /// field, any other number is left alone.
    pub open spec fn spec_apply(v: SpecCDepotContentDetection_GetAllDetectedAppContent_Response, f: SpecField) -> Result<SpecCDepotContentDetection_GetAllDetectedAppContent_Response, WireError> {
        match f.number {
            1 => match dec_bytes(f.value) {
                Ok(b) => match crate::steammessages_contentsystem_steamclient::DetectedAppContent::spec_decode(b) {
                    Ok(m) => Ok(SpecCDepotContentDetection_GetAllDetectedAppContent_Response { detected_app_content: v.detected_app_content.push(m), ..v }),
                    Err(e) => Err(e),
                },
                Err(e) => Err(e),
            },
            _ => Ok(v),
        }
    }

    pub open spec fn apply_fn() -> spec_fn(SpecCDepotContentDetection_GetAllDetectedAppContent_Response, SpecField) -> Result<SpecCDepotContentDetection_GetAllDetectedAppContent_Response, WireError> {
        |v: SpecCDepotContentDetection_GetAllDetectedAppContent_Response, f: SpecField| Self::spec_apply(v, f)
    }

    /// The message `bytes` makes of `v`: its records applied in order, or the error
    /// that stops the reading.
    pub open spec fn spec_merge(v: SpecCDepotContentDetection_GetAllDetectedAppContent_Response, bytes: Seq<u8>) -> Result<SpecCDepotContentDetection_GetAllDetectedAppContent_Response, WireError> {
        let (w, stop) = merge_run(v, bytes, Self::apply_fn());
        match stop {
            None => Ok(w),
            Some(e) => Err(e),
        }
    }

    #[verifier::opaque]
    pub open spec fn spec_decode(bytes: Seq<u8>) -> Result<SpecCDepotContentDetection_GetAllDetectedAppContent_Response, WireError> {
        Self::spec_merge(Self::spec_default(), bytes)
    }

    /// This message with one record applied to it, or, when the record is refused,
    /// the message unchanged and the reason.
    fn applied(self, f: &Field) -> (r: Result<Self, (Self, WireError)>)
        ensures
            match Self::spec_apply(self@, f@) {
                Ok(v) => r matches Ok(m) && m@ == v,
                Err(e) => r matches Err((m, x)) && x == e && m@ == self@,
            },
    {
        match f.number {
            1 => match read_payload(&f.value) {
                Ok(b) => match crate::steammessages_contentsystem_steamclient::DetectedAppContent::decode(b) {
                    Ok(x) => {
                        let mut m = self;
                        let ghost before = m.detected_app_content@;
                        m.detected_app_content.push(x);
                        assert(crate::steammessages_contentsystem_steamclient::DetectedAppContent::view_all(m.detected_app_content@) =~= crate::steammessages_contentsystem_steamclient::DetectedAppContent::view_all(before).push(x@));
                        Ok(m)
                    },
                    Err(e) => Err((self, e)),
                },
                Err(e) => Err((self, e)),
            },
            _ => Ok(self),
        }
    }

    /// Reads the records `bytes` holds into this message, in order. When a record does
    /// not parse or is refused, the reading stops there: the message keeps what the
    /// records before it gave, and the error is returned.
    pub fn merge(&mut self, bytes: &[u8]) -> (r: Result<(), WireError>)
        ensures
            final(self)@ == merge_run(old(self)@, bytes@, Self::apply_fn()).0,
            r == match merge_run(old(self)@, bytes@, Self::apply_fn()).1 {
                None => Ok::<(), WireError>(()),
                Some(e) => Err::<(), WireError>(e),
            },
    {
        let ghost total = merge_run(self@, bytes@, Self::apply_fn());
        let mut cur = Self::default();
        std::mem::swap(&mut cur, self);
        let mut pos: usize = 0;
        assert(bytes@.skip(0) =~= bytes@);
        while pos < bytes.len()
            invariant
                pos <= bytes@.len(),
                total == merge_run(old(self)@, bytes@, Self::apply_fn()),
                merge_run(cur@, bytes@.skip(pos as int), Self::apply_fn()) == total,
            decreases bytes@.len() - pos,
        {
            let ghost s = bytes@.skip(pos as int);
            proof {
                lemma_merge_run_step(cur@, s, Self::apply_fn());
                lemma_parse_field_len(s);
            }
            match read_field(bytes, pos) {
                Ok((f, end)) => {
                    assert(bytes@.skip(end as int) =~= s.skip((end - pos) as int));
                    match cur.applied(&f) {
                        Ok(m) => {
                            cur = m;
                        },
                        Err((m, e)) => {
                            *self = m;
                            return Err(e);
                        },
                    }
                    pos = end;
                },
                Err(e) => {
                    *self = cur;
                    return Err(e);
                },
            }
        }
        assert(bytes@.skip(pos as int) =~= Seq::<u8>::empty());
        proof {
            lemma_merge_run_empty(cur@, Self::apply_fn());
        }
        *self = cur;
        Ok(())
    }

    /// Decodes a message from its encoding.
    pub fn decode(bytes: &[u8]) -> (r: Result<Self, WireError>)
        ensures
            match Self::spec_decode(bytes@) {
                Ok(v) => r matches Ok(m) && m@ == v,
                Err(e) => r matches Err(x) && x == e,
            },
    {
        proof {
            reveal(CDepotContentDetection_GetAllDetectedAppContent_Response::spec_decode);
        }
        let mut m = Self::default();
        match m.merge(bytes) {
            Ok(()) => Ok(m),
            Err(e) => Err(e),
        }
    }

    /// The encoding of this message.
    pub fn encode_to_vec(&self) -> (r: Vec<u8>)
        ensures
            r@ == Self::spec_encode(self@),
    {
        let enc_detected_app_content = crate::steammessages_contentsystem_steamclient::DetectedAppContent::encode_all(&self.detected_app_content);
        let ghost v = self@;
        let mut out: Vec<u8> = Vec::new();
        let ghost p0 = Seq::<SpecField>::empty();
        put_rep_bytes(&mut out, 1, &enc_detected_app_content);
        let ghost p1 = p0 + rep_bytes(1, crate::steammessages_contentsystem_steamclient::DetectedAppContent::spec_encode_all(v.detected_app_content));
        proof {
            lemma_fields_bytes_concat(p0, rep_bytes(1, crate::steammessages_contentsystem_steamclient::DetectedAppContent::spec_encode_all(v.detected_app_content)));
        }
        proof {
            reveal(CDepotContentDetection_GetAllDetectedAppContent_Response::spec_encode);
        }
        assert(p1 == Self::spec_fields(v));
        out
    }

    /// Appends the encoding of this message to `out`.
    pub fn encode_raw(&self, out: &mut Vec<u8>)
        ensures
            final(out)@ == old(out)@ + Self::spec_encode(self@),
    {
        let mut b = self.encode_to_vec();
        out.append(&mut b);
    }

    /// The first `k` fields of `v`, the others as a fresh message has them.
    #[verifier::opaque]
    pub open spec fn spec_prefix(v: SpecCDepotContentDetection_GetAllDetectedAppContent_Response, k: int) -> SpecCDepotContentDetection_GetAllDetectedAppContent_Response {
        SpecCDepotContentDetection_GetAllDetectedAppContent_Response {
            detected_app_content: if 1 <= k { v.detected_app_content } else { Seq::empty() },
        }
    }

    /// Reading field 1 back, after the fields before it.
    proof fn lemma_field_detected_app_content(v: SpecCDepotContentDetection_GetAllDetectedAppContent_Response)
        requires
            fields_wf(rep_bytes(1, crate::steammessages_contentsystem_steamclient::DetectedAppContent::spec_encode_all(v.detected_app_content))),
        ensures
            fold_fields(Self::spec_prefix(v, 0), rep_bytes(1, crate::steammessages_contentsystem_steamclient::DetectedAppContent::spec_encode_all(v.detected_app_content)), Self::apply_fn())
                == Ok::<SpecCDepotContentDetection_GetAllDetectedAppContent_Response, WireError>(Self::spec_prefix(v, 1)),
    {
        reveal(CDepotContentDetection_GetAllDetectedAppContent_Response::spec_prefix);
        reveal(rep_bytes);
        reveal(fields_wf);
        let apply = Self::apply_fn();
        let s = Self::spec_prefix(v, 0);
        let l = rep_bytes(1, crate::steammessages_contentsystem_steamclient::DetectedAppContent::spec_encode_all(v.detected_app_content));
        let xs = v.detected_app_content;
        let st = Seq::new((xs.len() + 1) as nat, |j: int| SpecCDepotContentDetection_GetAllDetectedAppContent_Response { detected_app_content: xs.take(j), ..s });
        assert forall|j: int| 0 <= j < l.len() implies #[trigger] apply(st[j], l[j]) == Ok::<SpecCDepotContentDetection_GetAllDetectedAppContent_Response, WireError>(st[j + 1]) by {
            assert(field_wf(l[j]));
            crate::steammessages_contentsystem_steamclient::DetectedAppContent::lemma_decode_encode(xs[j]);
            assert(xs.take(j).push(xs[j]) =~= xs.take(j + 1));
        }
        lemma_fold_chain(l, st, apply);
        assert(xs.take(0) =~= Seq::<crate::steammessages_contentsystem_steamclient::SpecDetectedAppContent>::empty());
        assert(xs.take(xs.len() as int) =~= xs);
        assert(st[0] == s);
        assert(st[xs.len() as int] == Self::spec_prefix(v, 1));
    }

    /// Whether this message declares field number `n`.
    pub open spec fn declares(n: u32) -> bool {
        n == 1
    }

    /// A record with a number this message does not declare is passed over: well-formed
    /// bytes decode to the same message with such a record after them as without it.
    pub proof fn lemma_unknown_field(bytes: Seq<u8>, f: SpecField)
        requires
            parse_fields(bytes) is Ok,
            field_wf(f),
            !Self::declares(f.number),
        ensures
            Self::spec_decode(bytes + field_bytes(f)) == Self::spec_decode(bytes),
    {
        reveal(CDepotContentDetection_GetAllDetectedAppContent_Response::spec_decode);
        lemma_parse_fields_append(bytes, f);
        let fs = parse_fields(bytes).unwrap();
        let apply = Self::apply_fn();
        lemma_fold_concat(Self::spec_default(), fs, seq![f], apply);
        assert(fs.push(f) =~= fs + seq![f]);
        if let Ok(w) = fold_fields(Self::spec_default(), fs, apply) {
            lemma_fold_single(w, f, apply);
        }
        lemma_merge_run_fold(Self::spec_default(), bytes, apply);
        lemma_merge_run_fold(Self::spec_default(), bytes + field_bytes(f), apply);
    }

    /// Decoding the encoding of a message gives the message back.
    pub proof fn lemma_decode_encode(v: SpecCDepotContentDetection_GetAllDetectedAppContent_Response)
        requires
            Self::spec_encode(v).len() <= u64::MAX,
        ensures
            Self::spec_decode(Self::spec_encode(v)) == Ok::<SpecCDepotContentDetection_GetAllDetectedAppContent_Response, WireError>(v),
    {
        let apply = Self::apply_fn();
        let d = Self::spec_default();
        let p0 = Seq::<SpecField>::empty();
        let l1 = rep_bytes(1, crate::steammessages_contentsystem_steamclient::DetectedAppContent::spec_encode_all(v.detected_app_content));
        let p1 = p0 + l1;
        assert(parse_fields(Self::spec_encode(v)) == Ok::<Seq<SpecField>, WireError>(p1) && fields_wf(l1)) by {
            reveal(CDepotContentDetection_GetAllDetectedAppContent_Response::spec_encode);
            assert(numbers_ok(p0) && fields_wf(p0)) by {
                reveal(numbers_ok);
                reveal(fields_wf);
            }
            lemma_rep_bytes_numbered(1, crate::steammessages_contentsystem_steamclient::DetectedAppContent::spec_encode_all(v.detected_app_content));
            lemma_fields_wf_concat(p0, l1);
            assert(p1 == Self::spec_fields(v));
            lemma_fields_wf_from_len(p1);
            lemma_fields_roundtrip(p1);
        }
        assert(Self::spec_prefix(v, 0) == d) by {
            reveal(CDepotContentDetection_GetAllDetectedAppContent_Response::spec_prefix);
        }
        lemma_fold_empty(d, apply);
        lemma_fold_concat(d, p0, l1, apply);
        Self::lemma_field_detected_app_content(v);
        assert(Self::spec_prefix(v, 1) == v) by {
            reveal(CDepotContentDetection_GetAllDetectedAppContent_Response::spec_prefix);
        }
        lemma_merge_run_fold(d, Self::spec_encode(v), apply);
        assert(Self::spec_decode(Self::spec_encode(v)) == Ok::<SpecCDepotContentDetection_GetAllDetectedAppContent_Response, WireError>(v)) by {
            reveal(CDepotContentDetection_GetAllDetectedAppContent_Response::spec_decode);
        }
    }
}

impl Rpc for crate::steammessages_contentsystem_steamclient::CContentServerDirectory_GetServersForSteamPipe_Request {
    type Response = crate::steammessages_contentsystem_steamclient::CContentServerDirectory_GetServersForSteamPipe_Response;

    const TARGET: &'static str = "ContentServerDirectory.GetServersForSteamPipe";
}

impl Rpc for crate::steammessages_contentsystem_steamclient::CContentServerDirectory_GetDepotPatchInfo_Request {
    type Response = crate::steammessages_contentsystem_steamclient::CContentServerDirectory_GetDepotPatchInfo_Response;

    const TARGET: &'static str = "ContentServerDirectory.GetDepotPatchInfo";
}

impl Rpc for crate::steammessages_contentsystem_steamclient::CContentServerDirectory_GetClientUpdateHosts_Request {
    type Response = crate::steammessages_contentsystem_steamclient::CContentServerDirectory_GetClientUpdateHosts_Response;

    const TARGET: &'static str = "ContentServerDirectory.GetClientUpdateHosts";
}

impl Rpc for crate::steammessages_contentsystem_steamclient::CContentServerDirectory_GetManifestRequestCode_Request {
    type Response = crate::steammessages_contentsystem_steamclient::CContentServerDirectory_GetManifestRequestCode_Response;

    const TARGET: &'static str = "ContentServerDirectory.GetManifestRequestCode";
}

impl Rpc for crate::steammessages_contentsystem_steamclient::CContentServerDirectory_GetCDNAuthToken_Request {
    type Response = crate::steammessages_contentsystem_steamclient::CContentServerDirectory_GetCDNAuthToken_Response;

    const TARGET: &'static str = "ContentServerDirectory.GetCDNAuthToken";
}

impl Rpc for crate::steammessages_contentsystem_steamclient::CContentServerDirectory_RequestPeerContentServer_Request {
    type Response = crate::steammessages_contentsystem_steamclient::CContentServerDirectory_RequestPeerContentServer_Response;

    const TARGET: &'static str = "ContentServerDirectory.RequestPeerContentServer";
}

impl Rpc for crate::steammessages_contentsystem_steamclient::CContentServerDirectory_GetPeerContentInfo_Request {
    type Response = crate::steammessages_contentsystem_steamclient::CContentServerDirectory_GetPeerContentInfo_Response;

    const TARGET: &'static str = "ContentServerDirectory.GetPeerContentInfo";
}

impl Rpc for crate::steammessages_contentsystem_steamclient::CDepotContentDetection_GetAllDetectedAppContent_Request {
    type Response = crate::steammessages_contentsystem_steamclient::CDepotContentDetection_GetAllDetectedAppContent_Response;

    const TARGET: &'static str = "DepotContentDetection.GetAllDetectedAppContent";
}

} // verus!
