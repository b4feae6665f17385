//! Messages and enums of `steammessages_unified_base.steamclient.proto`.

#![allow(non_camel_case_types, non_snake_case, non_upper_case_globals)]

use std::cmp::Ordering;
use vstd::prelude::*;
use vstd::std_specs::cmp::PartialOrdSpecImpl;
use vstd::std_specs::convert::FromSpecImpl;

use crate::codec::{
    fold_fields, lemma_fold_concat, lemma_fold_empty, lemma_fold_single, lemma_merge_run_empty,
    lemma_merge_run_fold, lemma_merge_run_step, merge_run,
};

use crate::wire::fields::{
    field_bytes, field_wf, fields_bytes, fields_wf, lemma_fields_roundtrip,
    lemma_fields_wf_from_len, lemma_parse_field_len, lemma_parse_fields_append, numbers_ok,
    parse_fields, read_field, Field, SpecField,
};
use crate::wire::varint::WireError;

verus! {

/// `EProtoExecutionSite`, as a newtype so an unrecognised value round-trips instead of
/// being rejected. Valve adds values without warning.
#[derive(Debug, Clone, Copy, PartialEq, Eq, Ord, Hash, Structural)]
pub struct EProtoExecutionSite(pub i32);

impl EProtoExecutionSite {
    /// `k_EProtoExecutionSiteUnknown` = `0`
    #[allow(non_snake_case)]
    pub fn k_EProtoExecutionSiteUnknown() -> (r: Self)
        ensures
            r.0 == 0,
    {
        Self(0)
    }

    /// `k_EProtoExecutionSiteSteamClient` = `2`
    #[allow(non_snake_case)]
    pub fn k_EProtoExecutionSiteSteamClient() -> (r: Self)
        ensures
            r.0 == 2,
    {
        Self(2)
    }

    /// The underlying value, as it appears on the wire.
    pub fn value(self) -> (r: i32)
        ensures
            r == self.0,
    {
        self.0
    }
}

impl From<i32> for EProtoExecutionSite {
    fn from(value: i32) -> Self {
        Self(value)
    }
}

impl FromSpecImpl<i32> for EProtoExecutionSite {
    open spec fn obeys_from_spec() -> bool {
        true
    }

    open spec fn from_spec(v: i32) -> Self {
        EProtoExecutionSite(v)
    }
}

/// A fresh value is `0`, the value the schema lists first.
impl Default for EProtoExecutionSite {
    fn default() -> (r: Self)
        ensures
            r.0 == 0,
    {
        Self(0)
    }
}

/// Values are ordered by their wire value.
impl PartialOrd for EProtoExecutionSite {
    fn partial_cmp(&self, other: &Self) -> (r: Option<Ordering>) {
        if self.0 < other.0 {
            Some(Ordering::Less)
        } else if self.0 == other.0 {
            Some(Ordering::Equal)
        } else {
            Some(Ordering::Greater)
        }
    }
}

impl PartialOrdSpecImpl for EProtoExecutionSite {
    open spec fn obeys_partial_cmp_spec() -> bool {
        true
    }

    open spec fn partial_cmp_spec(&self, other: &Self) -> Option<Ordering> {
        if self.0 < other.0 {
            Some(Ordering::Less)
        } else if self.0 == other.0 {
            Some(Ordering::Equal)
        } else {
            Some(Ordering::Greater)
        }
    }
}

/// `EProtoServiceType`, as a newtype so an unrecognised value round-trips instead of
/// being rejected. Valve adds values without warning.
#[derive(Debug, Clone, Copy, PartialEq, Eq, Ord, Hash, Structural)]
pub struct EProtoServiceType(pub i32);

impl EProtoServiceType {
    /// `k_EProtoServiceTypeSteamMessages` = `0`
    #[allow(non_snake_case)]
    pub fn k_EProtoServiceTypeSteamMessages() -> (r: Self)
        ensures
            r.0 == 0,
    {
        Self(0)
    }

    /// `k_EProtoServiceTypeVRGamepadUIMessages` = `1`
    #[allow(non_snake_case)]
    pub fn k_EProtoServiceTypeVRGamepadUIMessages() -> (r: Self)
        ensures
            r.0 == 1,
    {
        Self(1)
    }

    /// The underlying value, as it appears on the wire.
    pub fn value(self) -> (r: i32)
        ensures
            r == self.0,
    {
        self.0
    }
}

impl From<i32> for EProtoServiceType {
    fn from(value: i32) -> Self {
        Self(value)
    }
}

impl FromSpecImpl<i32> for EProtoServiceType {
    open spec fn obeys_from_spec() -> bool {
        true
    }

    open spec fn from_spec(v: i32) -> Self {
        EProtoServiceType(v)
    }
}

/// A fresh value is `0`, the value the schema lists first.
impl Default for EProtoServiceType {
    fn default() -> (r: Self)
        ensures
            r.0 == 0,
    {
        Self(0)
    }
}

/// Values are ordered by their wire value.
impl PartialOrd for EProtoServiceType {
    fn partial_cmp(&self, other: &Self) -> (r: Option<Ordering>) {
        if self.0 < other.0 {
            Some(Ordering::Less)
        } else if self.0 == other.0 {
            Some(Ordering::Equal)
        } else {
            Some(Ordering::Greater)
        }
    }
}

impl PartialOrdSpecImpl for EProtoServiceType {
    open spec fn obeys_partial_cmp_spec() -> bool {
        true
    }

    open spec fn partial_cmp_spec(&self, other: &Self) -> Option<Ordering> {
        if self.0 < other.0 {
            Some(Ordering::Less)
        } else if self.0 == other.0 {
            Some(Ordering::Equal)
        } else {
            Some(Ordering::Greater)
        }
    }
}

/// `NoResponse`, as Valve's schema declares it.
#[derive(Debug, Clone, PartialEq)]
pub struct NoResponse {}

/// What a `NoResponse` holds, as mathematical values.
#[verifier::ext_equal]
pub struct SpecNoResponse {}

impl View for NoResponse {
    type V = SpecNoResponse;

    open spec fn view(&self) -> SpecNoResponse {
        SpecNoResponse {}
    }
}

impl Default for NoResponse {
    fn default() -> (r: Self)
        ensures
            r@ == NoResponse::spec_default(),
    {
        NoResponse {}
    }
}

impl NoResponse {
    pub open spec fn spec_default() -> SpecNoResponse {
        SpecNoResponse {}
    }

    /// The records a `NoResponse` is written as, in field order.
    pub open spec fn spec_fields(v: SpecNoResponse) -> Seq<SpecField> {
        Seq::<SpecField>::empty()
    }

    #[verifier::opaque]
    pub open spec fn spec_encode(v: SpecNoResponse) -> Seq<u8> {
        fields_bytes(Self::spec_fields(v))
    }

    /// What one record does to the message: a declared number sets or extends its
    /// field, any other number is left alone.
    pub open spec fn spec_apply(v: SpecNoResponse, f: SpecField) -> Result<SpecNoResponse, WireError> {
        match f.number {
            _ => Ok(v),
        }
    }

    pub open spec fn apply_fn() -> spec_fn(SpecNoResponse, SpecField) -> Result<SpecNoResponse, WireError> {
        |v: SpecNoResponse, f: SpecField| Self::spec_apply(v, f)
    }

    /// The message `bytes` makes of `v`: its records applied in order, or the error
    /// that stops the reading.
    pub open spec fn spec_merge(v: SpecNoResponse, bytes: Seq<u8>) -> Result<SpecNoResponse, WireError> {
        let (w, stop) = merge_run(v, bytes, Self::apply_fn());
        match stop {
            None => Ok(w),
            Some(e) => Err(e),
        }
    }

    #[verifier::opaque]
    pub open spec fn spec_decode(bytes: Seq<u8>) -> Result<SpecNoResponse, WireError> {
        Self::spec_merge(Self::spec_default(), bytes)
    }

    /// This message with one record applied to it, or, when the record is refused,
    /// the message unchanged and the reason.
    fn applied(self, f: &Field) -> (r: Result<Self, (Self, WireError)>)
        ensures
            match Self::spec_apply(self@, f@) {
                Ok(v) => r matches Ok(m) && m@ == v,
                Err(e) => r matches Err((m, x)) && x == e && m@ == self@,
            },
    {
        match f.number {
            _ => Ok(self),
        }
    }

    /// Reads the records `bytes` holds into this message, in order. When a record does
    /// not parse or is refused, the reading stops there: the message keeps what the
    /// records before it gave, and the error is returned.
    pub fn merge(&mut self, bytes: &[u8]) -> (r: Result<(), WireError>)
        ensures
            final(self)@ == merge_run(old(self)@, bytes@, Self::apply_fn()).0,
            r == match merge_run(old(self)@, bytes@, Self::apply_fn()).1 {
                None => Ok::<(), WireError>(()),
                Some(e) => Err::<(), WireError>(e),
            },
    {
        let ghost total = merge_run(self@, bytes@, Self::apply_fn());
        let mut cur = Self::default();
        std::mem::swap(&mut cur, self);
        let mut pos: usize = 0;
        assert(bytes@.skip(0) =~= bytes@);
        while pos < bytes.len()
            invariant
                pos <= bytes@.len(),
                total == merge_run(old(self)@, bytes@, Self::apply_fn()),
                merge_run(cur@, bytes@.skip(pos as int), Self::apply_fn()) == total,
            decreases bytes@.len() - pos,
        {
            let ghost s = bytes@.skip(pos as int);
            proof {
                lemma_merge_run_step(cur@, s, Self::apply_fn());
                lemma_parse_field_len(s);
            }
            match read_field(bytes, pos) {
                Ok((f, end)) => {
                    assert(bytes@.skip(end as int) =~= s.skip((end - pos) as int));
                    match cur.applied(&f) {
                        Ok(m) => {
                            cur = m;
                        },
                        Err((m, e)) => {
                            *self = m;
                            return Err(e);
                        },
                    }
                    pos = end;
                },
                Err(e) => {
                    *self = cur;
                    return Err(e);
                },
            }
        }
        assert(bytes@.skip(pos as int) =~= Seq::<u8>::empty());
        proof {
            lemma_merge_run_empty(cur@, Self::apply_fn());
        }
        *self = cur;
        Ok(())
    }

    /// Decodes a message from its encoding.
    pub fn decode(bytes: &[u8]) -> (r: Result<Self, WireError>)
        ensures
            match Self::spec_decode(bytes@) {
                Ok(v) => r matches Ok(m) && m@ == v,
                Err(e) => r matches Err(x) && x == e,
            },
    {
        proof {
            reveal(NoResponse::spec_decode);
        }
        let mut m = Self::default();
        match m.merge(bytes) {
            Ok(()) => Ok(m),
            Err(e) => Err(e),
        }
    }

    /// The encoding of this message.
    pub fn encode_to_vec(&self) -> (r: Vec<u8>)
        ensures
            r@ == Self::spec_encode(self@),
    {
        let ghost v = self@;
        let mut out: Vec<u8> = Vec::new();
        let ghost p0 = Seq::<SpecField>::empty();
        proof {
            reveal(NoResponse::spec_encode);
        }
        assert(p0 == Self::spec_fields(v));
        assert(out@ =~= fields_bytes(p0));
        out
    }

    /// Appends the encoding of this message to `out`.
    pub fn encode_raw(&self, out: &mut Vec<u8>)
        ensures
            final(out)@ == old(out)@ + Self::spec_encode(self@),
    {
        let mut b = self.encode_to_vec();
        out.append(&mut b);
    }

    /// The first `k` fields of `v`, the others as a fresh message has them.
    #[verifier::opaque]
    pub open spec fn spec_prefix(v: SpecNoResponse, k: int) -> SpecNoResponse {
        SpecNoResponse {}
    }

    /// Whether this message declares field number `n`.
    pub open spec fn declares(n: u32) -> bool {
        false
    }

    /// A record with a number this message does not declare is passed over: well-formed
    /// bytes decode to the same message with such a record after them as without it.
    pub proof fn lemma_unknown_field(bytes: Seq<u8>, f: SpecField)
        requires
            parse_fields(bytes) is Ok,
            field_wf(f),
            !Self::declares(f.number),
        ensures
            Self::spec_decode(bytes + field_bytes(f)) == Self::spec_decode(bytes),
    {
        reveal(NoResponse::spec_decode);
        lemma_parse_fields_append(bytes, f);
        let fs = parse_fields(bytes).unwrap();
        let apply = Self::apply_fn();
        lemma_fold_concat(Self::spec_default(), fs, seq![f], apply);
        assert(fs.push(f) =~= fs + seq![f]);
        if let Ok(w) = fold_fields(Self::spec_default(), fs, apply) {
            lemma_fold_single(w, f, apply);
        }
        lemma_merge_run_fold(Self::spec_default(), bytes, apply);
        lemma_merge_run_fold(Self::spec_default(), bytes + field_bytes(f), apply);
    }

    /// Decoding the encoding of a message gives the message back.
    pub proof fn lemma_decode_encode(v: SpecNoResponse)
        requires
            Self::spec_encode(v).len() <= u64::MAX,
        ensures
            Self::spec_decode(Self::spec_encode(v)) == Ok::<SpecNoResponse, WireError>(v),
    {
        let apply = Self::apply_fn();
        let d = Self::spec_default();
        let p0 = Seq::<SpecField>::empty();
        assert(parse_fields(Self::spec_encode(v)) == Ok::<Seq<SpecField>, WireError>(p0)) by {
            reveal(NoResponse::spec_encode);
            assert(numbers_ok(p0) && fields_wf(p0)) by {
                reveal(numbers_ok);
                reveal(fields_wf);
            }
            assert(p0 == Self::spec_fields(v));
            lemma_fields_wf_from_len(p0);
            lemma_fields_roundtrip(p0);
        }
        assert(Self::spec_prefix(v, 0) == d) by {
            reveal(NoResponse::spec_prefix);
        }
        lemma_fold_empty(d, apply);
        assert(Self::spec_prefix(v, 0) == v) by {
            reveal(NoResponse::spec_prefix);
        }
        lemma_merge_run_fold(d, Self::spec_encode(v), apply);
        assert(Self::spec_decode(Self::spec_encode(v)) == Ok::<SpecNoResponse, WireError>(v)) by {
            reveal(NoResponse::spec_decode);
        }
    }
}

} // verus!
