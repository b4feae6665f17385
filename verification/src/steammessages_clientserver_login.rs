//! Messages and enums of `steammessages_clientserver_login.proto`.

#![allow(non_camel_case_types, non_snake_case, non_upper_case_globals)]


use vstd::prelude::*;

use crate::codec::{
    bytes_seq_view, dec_bool, dec_bytes, dec_fixed32, dec_fixed64, dec_i32, dec_string, dec_u32,
    dec_u64, enc_bool, enc_bytes, enc_fixed32, enc_fixed64, enc_i32, enc_string, enc_u32,
    enc_u64, fold_fields, lemma_fold_concat, lemma_fold_empty, lemma_fold_opt,
    lemma_fold_single, lemma_i32_roundtrip, lemma_merge_run_empty, lemma_merge_run_fold,
    lemma_merge_run_step, lemma_opt_bool_numbered, lemma_opt_bytes_numbered,
    lemma_opt_fixed32_numbered, lemma_opt_fixed64_numbered, lemma_opt_i32_numbered,
    lemma_opt_string_numbered, lemma_opt_u32_numbered, lemma_opt_u64_numbered,
    lemma_string_roundtrip, lemma_u32_roundtrip, lemma_u64_roundtrip, merge_run, opt_bool,
    opt_bytes, opt_bytes_view, opt_fixed32, opt_fixed64, opt_i32, opt_string, opt_string_view,
    opt_u32, opt_u64, put_opt_bool, put_opt_bytes, put_opt_fixed32, put_opt_fixed64,
    put_opt_i32, put_opt_string, put_opt_u32, put_opt_varint, read_bool, read_bytes,
    read_fixed32, read_fixed64, read_i32, read_payload, read_string, read_u32, read_u64,
};

use crate::wire::fields::{
    field_bytes, field_wf, fields_bytes, fields_wf, lemma_fields_bytes_concat,
    lemma_fields_roundtrip, lemma_fields_wf_concat, lemma_fields_wf_from_len,
    lemma_parse_field_len, lemma_parse_fields_append, numbers_ok, parse_fields, read_field,
    Field, SpecField,
};
use crate::wire::varint::WireError;

verus! {

/// `CMsgClientHeartBeat`, as Valve's schema declares it.
#[derive(Debug, Clone, PartialEq)]
pub struct CMsgClientHeartBeat {
    /// Field 1.
    pub send_reply: Option<bool>,
}

/// What a `CMsgClientHeartBeat` holds, as mathematical values.
#[verifier::ext_equal]
pub struct SpecCMsgClientHeartBeat {
    pub send_reply: Option<bool>,
}

impl View for CMsgClientHeartBeat {
    type V = SpecCMsgClientHeartBeat;

    open spec fn view(&self) -> SpecCMsgClientHeartBeat {
        SpecCMsgClientHeartBeat {
            send_reply: self.send_reply,
        }
    }
}

impl Default for CMsgClientHeartBeat {
    fn default() -> (r: Self)
        ensures
            r@ == CMsgClientHeartBeat::spec_default(),
    {
        CMsgClientHeartBeat {
            send_reply: None,
        }
    }
}

impl CMsgClientHeartBeat {
    pub open spec fn spec_default() -> SpecCMsgClientHeartBeat {
        SpecCMsgClientHeartBeat {
            send_reply: None,
        }
    }

    /// The records a `CMsgClientHeartBeat` is written as, in field order.
    pub open spec fn spec_fields(v: SpecCMsgClientHeartBeat) -> Seq<SpecField> {
        Seq::<SpecField>::empty()
            + opt_bool(1, v.send_reply)
    }

    #[verifier::opaque]
    pub open spec fn spec_encode(v: SpecCMsgClientHeartBeat) -> Seq<u8> {
        fields_bytes(Self::spec_fields(v))
    }

    /// What one record does to the message: a declared number sets or extends its
    /// field, any other number is left alone.
    pub open spec fn spec_apply(v: SpecCMsgClientHeartBeat, f: SpecField) -> Result<SpecCMsgClientHeartBeat, WireError> {
        match f.number {
            1 => match dec_bool(f.value) {
                Ok(x) => Ok(SpecCMsgClientHeartBeat { send_reply: Some(x), ..v }),
                Err(e) => Err(e),
            },
            _ => Ok(v),
        }
    }

    pub open spec fn apply_fn() -> spec_fn(SpecCMsgClientHeartBeat, SpecField) -> Result<SpecCMsgClientHeartBeat, WireError> {
        |v: SpecCMsgClientHeartBeat, f: SpecField| Self::spec_apply(v, f)
    }

    /// The message `bytes` makes of `v`: its records applied in order, or the error
    /// that stops the reading.
    pub open spec fn spec_merge(v: SpecCMsgClientHeartBeat, bytes: Seq<u8>) -> Result<SpecCMsgClientHeartBeat, WireError> {
        let (w, stop) = merge_run(v, bytes, Self::apply_fn());
        match stop {
            None => Ok(w),
            Some(e) => Err(e),
        }
    }

    #[verifier::opaque]
    pub open spec fn spec_decode(bytes: Seq<u8>) -> Result<SpecCMsgClientHeartBeat, WireError> {
        Self::spec_merge(Self::spec_default(), bytes)
    }

    /// This message with one record applied to it, or, when the record is refused,
    /// the message unchanged and the reason.
    fn applied(self, f: &Field) -> (r: Result<Self, (Self, WireError)>)
        ensures
            match Self::spec_apply(self@, f@) {
                Ok(v) => r matches Ok(m) && m@ == v,
                Err(e) => r matches Err((m, x)) && x == e && m@ == self@,
            },
    {
        match f.number {
            1 => match read_bool(&f.value) {
                Ok(x) => Ok(Self { send_reply: Some(x), ..self }),
                Err(e) => Err((self, e)),
            },
            _ => Ok(self),
        }
    }

    /// Reads the records `bytes` holds into this message, in order. When a record does
    /// not parse or is refused, the reading stops there: the message keeps what the
    /// records before it gave, and the error is returned.
    pub fn merge(&mut self, bytes: &[u8]) -> (r: Result<(), WireError>)
        ensures
            final(self)@ == merge_run(old(self)@, bytes@, Self::apply_fn()).0,
            r == match merge_run(old(self)@, bytes@, Self::apply_fn()).1 {
                None => Ok::<(), WireError>(()),
                Some(e) => Err::<(), WireError>(e),
            },
    {
        let ghost total = merge_run(self@, bytes@, Self::apply_fn());
        let mut cur = Self::default();
        std::mem::swap(&mut cur, self);
        let mut pos: usize = 0;
        assert(bytes@.skip(0) =~= bytes@);
        while pos < bytes.len()
            invariant
                pos <= bytes@.len(),
                total == merge_run(old(self)@, bytes@, Self::apply_fn()),
                merge_run(cur@, bytes@.skip(pos as int), Self::apply_fn()) == total,
            decreases bytes@.len() - pos,
        {
            let ghost s = bytes@.skip(pos as int);
            proof {
                lemma_merge_run_step(cur@, s, Self::apply_fn());
                lemma_parse_field_len(s);
            }
            match read_field(bytes, pos) {
                Ok((f, end)) => {
                    assert(bytes@.skip(end as int) =~= s.skip((end - pos) as int));
                    match cur.applied(&f) {
                        Ok(m) => {
                            cur = m;
                        },
                        Err((m, e)) => {
                            *self = m;
                            return Err(e);
                        },
                    }
                    pos = end;
                },
                Err(e) => {
                    *self = cur;
                    return Err(e);
                },
            }
        }
        assert(bytes@.skip(pos as int) =~= Seq::<u8>::empty());
        proof {
            lemma_merge_run_empty(cur@, Self::apply_fn());
        }
        *self = cur;
        Ok(())
    }

    /// Decodes a message from its encoding.
    pub fn decode(bytes: &[u8]) -> (r: Result<Self, WireError>)
        ensures
            match Self::spec_decode(bytes@) {
                Ok(v) => r matches Ok(m) && m@ == v,
                Err(e) => r matches Err(x) && x == e,
            },
    {
        proof {
            reveal(CMsgClientHeartBeat::spec_decode);
        }
        let mut m = Self::default();
        match m.merge(bytes) {
            Ok(()) => Ok(m),
            Err(e) => Err(e),
        }
    }

    /// The encoding of this message.
    pub fn encode_to_vec(&self) -> (r: Vec<u8>)
        ensures
            r@ == Self::spec_encode(self@),
    {
        let ghost v = self@;
        let mut out: Vec<u8> = Vec::new();
        let ghost p0 = Seq::<SpecField>::empty();
        put_opt_bool(&mut out, 1, self.send_reply);
        let ghost p1 = p0 + opt_bool(1, v.send_reply);
        proof {
            lemma_fields_bytes_concat(p0, opt_bool(1, v.send_reply));
        }
        proof {
            reveal(CMsgClientHeartBeat::spec_encode);
        }
        assert(p1 == Self::spec_fields(v));
        out
    }

    /// Appends the encoding of this message to `out`.
    pub fn encode_raw(&self, out: &mut Vec<u8>)
        ensures
            final(out)@ == old(out)@ + Self::spec_encode(self@),
    {
        let mut b = self.encode_to_vec();
        out.append(&mut b);
    }

    /// The first `k` fields of `v`, the others as a fresh message has them.
    #[verifier::opaque]
    pub open spec fn spec_prefix(v: SpecCMsgClientHeartBeat, k: int) -> SpecCMsgClientHeartBeat {
        SpecCMsgClientHeartBeat {
            send_reply: if 1 <= k { v.send_reply } else { None },
        }
    }

    /// Reading field 1 back, after the fields before it.
    proof fn lemma_field_send_reply(v: SpecCMsgClientHeartBeat)
        ensures
            fold_fields(Self::spec_prefix(v, 0), opt_bool(1, v.send_reply), Self::apply_fn())
                == Ok::<SpecCMsgClientHeartBeat, WireError>(Self::spec_prefix(v, 1)),
    {
        reveal(CMsgClientHeartBeat::spec_prefix);
        reveal(opt_bool);
        let apply = Self::apply_fn();
        let s = Self::spec_prefix(v, 0);
        lemma_fold_opt(s, 1, match v.send_reply { Some(x) => Some(enc_bool(x)), None => None }, apply);
        assert(SpecCMsgClientHeartBeat { send_reply: v.send_reply, ..s } == Self::spec_prefix(v, 1));
    }

    /// Whether this message declares field number `n`.
    pub open spec fn declares(n: u32) -> bool {
        n == 1
    }

    /// A record with a number this message does not declare is passed over: well-formed
    /// bytes decode to the same message with such a record after them as without it.
    pub proof fn lemma_unknown_field(bytes: Seq<u8>, f: SpecField)
        requires
            parse_fields(bytes) is Ok,
            field_wf(f),
            !Self::declares(f.number),
        ensures
            Self::spec_decode(bytes + field_bytes(f)) == Self::spec_decode(bytes),
    {
        reveal(CMsgClientHeartBeat::spec_decode);
        lemma_parse_fields_append(bytes, f);
        let fs = parse_fields(bytes).unwrap();
        let apply = Self::apply_fn();
        lemma_fold_concat(Self::spec_default(), fs, seq![f], apply);
        assert(fs.push(f) =~= fs + seq![f]);
        if let Ok(w) = fold_fields(Self::spec_default(), fs, apply) {
            lemma_fold_single(w, f, apply);
        }
        lemma_merge_run_fold(Self::spec_default(), bytes, apply);
        lemma_merge_run_fold(Self::spec_default(), bytes + field_bytes(f), apply);
    }

    /// Decoding the encoding of a message gives the message back.
    pub proof fn lemma_decode_encode(v: SpecCMsgClientHeartBeat)
        requires
            Self::spec_encode(v).len() <= u64::MAX,
        ensures
            Self::spec_decode(Self::spec_encode(v)) == Ok::<SpecCMsgClientHeartBeat, WireError>(v),
    {
        let apply = Self::apply_fn();
        let d = Self::spec_default();
        let p0 = Seq::<SpecField>::empty();
        let l1 = opt_bool(1, v.send_reply);
        let p1 = p0 + l1;
        assert(parse_fields(Self::spec_encode(v)) == Ok::<Seq<SpecField>, WireError>(p1)) by {
            reveal(CMsgClientHeartBeat::spec_encode);
            assert(numbers_ok(p0) && fields_wf(p0)) by {
                reveal(numbers_ok);
                reveal(fields_wf);
            }
            lemma_opt_bool_numbered(1, v.send_reply);
            lemma_fields_wf_concat(p0, l1);
            assert(p1 == Self::spec_fields(v));
            lemma_fields_wf_from_len(p1);
            lemma_fields_roundtrip(p1);
        }
        assert(Self::spec_prefix(v, 0) == d) by {
            reveal(CMsgClientHeartBeat::spec_prefix);
        }
        lemma_fold_empty(d, apply);
        lemma_fold_concat(d, p0, l1, apply);
        Self::lemma_field_send_reply(v);
        assert(Self::spec_prefix(v, 1) == v) by {
            reveal(CMsgClientHeartBeat::spec_prefix);
        }
        lemma_merge_run_fold(d, Self::spec_encode(v), apply);
        assert(Self::spec_decode(Self::spec_encode(v)) == Ok::<SpecCMsgClientHeartBeat, WireError>(v)) by {
            reveal(CMsgClientHeartBeat::spec_decode);
        }
    }
}

/// `CMsgClientServerTimestampRequest`, as Valve's schema declares it.
#[derive(Debug, Clone, PartialEq)]
pub struct CMsgClientServerTimestampRequest {
    /// Field 1.
    pub client_request_timestamp: Option<u64>,
}

/// What a `CMsgClientServerTimestampRequest` holds, as mathematical values.
#[verifier::ext_equal]
pub struct SpecCMsgClientServerTimestampRequest {
    pub client_request_timestamp: Option<u64>,
}

impl View for CMsgClientServerTimestampRequest {
    type V = SpecCMsgClientServerTimestampRequest;

    open spec fn view(&self) -> SpecCMsgClientServerTimestampRequest {
        SpecCMsgClientServerTimestampRequest {
            client_request_timestamp: self.client_request_timestamp,
        }
    }
}

impl Default for CMsgClientServerTimestampRequest {
    fn default() -> (r: Self)
        ensures
            r@ == CMsgClientServerTimestampRequest::spec_default(),
    {
        CMsgClientServerTimestampRequest {
            client_request_timestamp: None,
        }
    }
}

impl CMsgClientServerTimestampRequest {
    pub open spec fn spec_default() -> SpecCMsgClientServerTimestampRequest {
        SpecCMsgClientServerTimestampRequest {
            client_request_timestamp: None,
        }
    }

    /// The records a `CMsgClientServerTimestampRequest` is written as, in field order.
    pub open spec fn spec_fields(v: SpecCMsgClientServerTimestampRequest) -> Seq<SpecField> {
        Seq::<SpecField>::empty()
            + opt_u64(1, v.client_request_timestamp)
    }

    #[verifier::opaque]
    pub open spec fn spec_encode(v: SpecCMsgClientServerTimestampRequest) -> Seq<u8> {
        fields_bytes(Self::spec_fields(v))
    }

    /// What one record does to the message: a declared number sets or extends its
    /// field, any other number is left alone.
    pub open spec fn spec_apply(v: SpecCMsgClientServerTimestampRequest, f: SpecField) -> Result<SpecCMsgClientServerTimestampRequest, WireError> {
        match f.number {
            1 => match dec_u64(f.value) {
                Ok(x) => Ok(SpecCMsgClientServerTimestampRequest { client_request_timestamp: Some(x), ..v }),
                Err(e) => Err(e),
            },
            _ => Ok(v),
        }
    }

    pub open spec fn apply_fn() -> spec_fn(SpecCMsgClientServerTimestampRequest, SpecField) -> Result<SpecCMsgClientServerTimestampRequest, WireError> {
        |v: SpecCMsgClientServerTimestampRequest, f: SpecField| Self::spec_apply(v, f)
    }

    /// The message `bytes` makes of `v`: its records applied in order, or the error
    /// that stops the reading.
    pub open spec fn spec_merge(v: SpecCMsgClientServerTimestampRequest, bytes: Seq<u8>) -> Result<SpecCMsgClientServerTimestampRequest, WireError> {
        let (w, stop) = merge_run(v, bytes, Self::apply_fn());
        match stop {
            None => Ok(w),
            Some(e) => Err(e),
        }
    }

    #[verifier::opaque]
    pub open spec fn spec_decode(bytes: Seq<u8>) -> Result<SpecCMsgClientServerTimestampRequest, WireError> {
        Self::spec_merge(Self::spec_default(), bytes)
    }

    /// This message with one record applied to it, or, when the record is refused,
    /// the message unchanged and the reason.
    fn applied(self, f: &Field) -> (r: Result<Self, (Self, WireError)>)
        ensures
            match Self::spec_apply(self@, f@) {
                Ok(v) => r matches Ok(m) && m@ == v,
                Err(e) => r matches Err((m, x)) && x == e && m@ == self@,
            },
    {
        match f.number {
            1 => match read_u64(&f.value) {
                Ok(x) => Ok(Self { client_request_timestamp: Some(x), ..self }),
                Err(e) => Err((self, e)),
            },
            _ => Ok(self),
        }
    }

    /// Reads the records `bytes` holds into this message, in order. When a record does
    /// not parse or is refused, the reading stops there: the message keeps what the
    /// records before it gave, and the error is returned.
    pub fn merge(&mut self, bytes: &[u8]) -> (r: Result<(), WireError>)
        ensures
            final(self)@ == merge_run(old(self)@, bytes@, Self::apply_fn()).0,
            r == match merge_run(old(self)@, bytes@, Self::apply_fn()).1 {
                None => Ok::<(), WireError>(()),
                Some(e) => Err::<(), WireError>(e),
            },
    {
        let ghost total = merge_run(self@, bytes@, Self::apply_fn());
        let mut cur = Self::default();
        std::mem::swap(&mut cur, self);
        let mut pos: usize = 0;
        assert(bytes@.skip(0) =~= bytes@);
        while pos < bytes.len()
            invariant
                pos <= bytes@.len(),
                total == merge_run(old(self)@, bytes@, Self::apply_fn()),
                merge_run(cur@, bytes@.skip(pos as int), Self::apply_fn()) == total,
            decreases bytes@.len() - pos,
        {
            let ghost s = bytes@.skip(pos as int);
            proof {
                lemma_merge_run_step(cur@, s, Self::apply_fn());
                lemma_parse_field_len(s);
            }
            match read_field(bytes, pos) {
                Ok((f, end)) => {
                    assert(bytes@.skip(end as int) =~= s.skip((end - pos) as int));
                    match cur.applied(&f) {
                        Ok(m) => {
                            cur = m;
                        },
                        Err((m, e)) => {
                            *self = m;
                            return Err(e);
                        },
                    }
                    pos = end;
                },
                Err(e) => {
                    *self = cur;
                    return Err(e);
                },
            }
        }
        assert(bytes@.skip(pos as int) =~= Seq::<u8>::empty());
        proof {
            lemma_merge_run_empty(cur@, Self::apply_fn());
        }
        *self = cur;
        Ok(())
    }

    /// Decodes a message from its encoding.
    pub fn decode(bytes: &[u8]) -> (r: Result<Self, WireError>)
        ensures
            match Self::spec_decode(bytes@) {
                Ok(v) => r matches Ok(m) && m@ == v,
                Err(e) => r matches Err(x) && x == e,
            },
    {
        proof {
            reveal(CMsgClientServerTimestampRequest::spec_decode);
        }
        let mut m = Self::default();
        match m.merge(bytes) {
            Ok(()) => Ok(m),
            Err(e) => Err(e),
        }
    }

    /// The encoding of this message.
    pub fn encode_to_vec(&self) -> (r: Vec<u8>)
        ensures
            r@ == Self::spec_encode(self@),
    {
        let ghost v = self@;
        let mut out: Vec<u8> = Vec::new();
        let ghost p0 = Seq::<SpecField>::empty();
        put_opt_varint(&mut out, 1, self.client_request_timestamp);
        let ghost p1 = p0 + opt_u64(1, v.client_request_timestamp);
        proof {
            lemma_fields_bytes_concat(p0, opt_u64(1, v.client_request_timestamp));
        }
        proof {
            reveal(CMsgClientServerTimestampRequest::spec_encode);
        }
        assert(p1 == Self::spec_fields(v));
        out
    }

    /// Appends the encoding of this message to `out`.
    pub fn encode_raw(&self, out: &mut Vec<u8>)
        ensures
            final(out)@ == old(out)@ + Self::spec_encode(self@),
    {
        let mut b = self.encode_to_vec();
        out.append(&mut b);
    }

    /// The first `k` fields of `v`, the others as a fresh message has them.
    #[verifier::opaque]
    pub open spec fn spec_prefix(v: SpecCMsgClientServerTimestampRequest, k: int) -> SpecCMsgClientServerTimestampRequest {
        SpecCMsgClientServerTimestampRequest {
            client_request_timestamp: if 1 <= k { v.client_request_timestamp } else { None },
        }
    }

    /// Reading field 1 back, after the fields before it.
    proof fn lemma_field_client_request_timestamp(v: SpecCMsgClientServerTimestampRequest)
        ensures
            fold_fields(Self::spec_prefix(v, 0), opt_u64(1, v.client_request_timestamp), Self::apply_fn())
                == Ok::<SpecCMsgClientServerTimestampRequest, WireError>(Self::spec_prefix(v, 1)),
    {
        reveal(CMsgClientServerTimestampRequest::spec_prefix);
        reveal(opt_u64);
        let apply = Self::apply_fn();
        let s = Self::spec_prefix(v, 0);
        lemma_fold_opt(s, 1, match v.client_request_timestamp { Some(x) => Some(enc_u64(x)), None => None }, apply);
        if let Some(x) = v.client_request_timestamp {
            lemma_u64_roundtrip(x);
        }
        assert(SpecCMsgClientServerTimestampRequest { client_request_timestamp: v.client_request_timestamp, ..s } == Self::spec_prefix(v, 1));
    }

    /// Whether this message declares field number `n`.
    pub open spec fn declares(n: u32) -> bool {
        n == 1
    }

    /// A record with a number this message does not declare is passed over: well-formed
    /// bytes decode to the same message with such a record after them as without it.
    pub proof fn lemma_unknown_field(bytes: Seq<u8>, f: SpecField)
        requires
            parse_fields(bytes) is Ok,
            field_wf(f),
            !Self::declares(f.number),
        ensures
            Self::spec_decode(bytes + field_bytes(f)) == Self::spec_decode(bytes),
    {
        reveal(CMsgClientServerTimestampRequest::spec_decode);
        lemma_parse_fields_append(bytes, f);
        let fs = parse_fields(bytes).unwrap();
        let apply = Self::apply_fn();
        lemma_fold_concat(Self::spec_default(), fs, seq![f], apply);
        assert(fs.push(f) =~= fs + seq![f]);
        if let Ok(w) = fold_fields(Self::spec_default(), fs, apply) {
            lemma_fold_single(w, f, apply);
        }
        lemma_merge_run_fold(Self::spec_default(), bytes, apply);
        lemma_merge_run_fold(Self::spec_default(), bytes + field_bytes(f), apply);
    }

    /// Decoding the encoding of a message gives the message back.
    pub proof fn lemma_decode_encode(v: SpecCMsgClientServerTimestampRequest)
        requires
            Self::spec_encode(v).len() <= u64::MAX,
        ensures
            Self::spec_decode(Self::spec_encode(v)) == Ok::<SpecCMsgClientServerTimestampRequest, WireError>(v),
    {
        let apply = Self::apply_fn();
        let d = Self::spec_default();
        let p0 = Seq::<SpecField>::empty();
        let l1 = opt_u64(1, v.client_request_timestamp);
        let p1 = p0 + l1;
        assert(parse_fields(Self::spec_encode(v)) == Ok::<Seq<SpecField>, WireError>(p1)) by {
            reveal(CMsgClientServerTimestampRequest::spec_encode);
            assert(numbers_ok(p0) && fields_wf(p0)) by {
                reveal(numbers_ok);
                reveal(fields_wf);
            }
            lemma_opt_u64_numbered(1, v.client_request_timestamp);
            lemma_fields_wf_concat(p0, l1);
            assert(p1 == Self::spec_fields(v));
            lemma_fields_wf_from_len(p1);
            lemma_fields_roundtrip(p1);
        }
        assert(Self::spec_prefix(v, 0) == d) by {
            reveal(CMsgClientServerTimestampRequest::spec_prefix);
        }
        lemma_fold_empty(d, apply);
        lemma_fold_concat(d, p0, l1, apply);
        Self::lemma_field_client_request_timestamp(v);
        assert(Self::spec_prefix(v, 1) == v) by {
            reveal(CMsgClientServerTimestampRequest::spec_prefix);
        }
        lemma_merge_run_fold(d, Self::spec_encode(v), apply);
        assert(Self::spec_decode(Self::spec_encode(v)) == Ok::<SpecCMsgClientServerTimestampRequest, WireError>(v)) by {
            reveal(CMsgClientServerTimestampRequest::spec_decode);
        }
    }
}

/// `CMsgClientServerTimestampResponse`, as Valve's schema declares it.
#[derive(Debug, Clone, PartialEq)]
pub struct CMsgClientServerTimestampResponse {
    /// Field 1.
    pub client_request_timestamp: Option<u64>,
    /// Field 2.
    pub server_timestamp_ms: Option<u64>,
}

/// What a `CMsgClientServerTimestampResponse` holds, as mathematical values.
#[verifier::ext_equal]
pub struct SpecCMsgClientServerTimestampResponse {
    pub client_request_timestamp: Option<u64>,
    pub server_timestamp_ms: Option<u64>,
}

impl View for CMsgClientServerTimestampResponse {
    type V = SpecCMsgClientServerTimestampResponse;

    open spec fn view(&self) -> SpecCMsgClientServerTimestampResponse {
        SpecCMsgClientServerTimestampResponse {
            client_request_timestamp: self.client_request_timestamp,
            server_timestamp_ms: self.server_timestamp_ms,
        }
    }
}

impl Default for CMsgClientServerTimestampResponse {
    fn default() -> (r: Self)
        ensures
            r@ == CMsgClientServerTimestampResponse::spec_default(),
    {
        CMsgClientServerTimestampResponse {
            client_request_timestamp: None,
            server_timestamp_ms: None,
        }
    }
}

impl CMsgClientServerTimestampResponse {
    pub open spec fn spec_default() -> SpecCMsgClientServerTimestampResponse {
        SpecCMsgClientServerTimestampResponse {
            client_request_timestamp: None,
            server_timestamp_ms: None,
        }
    }

    /// The records a `CMsgClientServerTimestampResponse` is written as, in field order.
    pub open spec fn spec_fields(v: SpecCMsgClientServerTimestampResponse) -> Seq<SpecField> {
        Seq::<SpecField>::empty()
            + opt_u64(1, v.client_request_timestamp)
            + opt_u64(2, v.server_timestamp_ms)
    }

    #[verifier::opaque]
    pub open spec fn spec_encode(v: SpecCMsgClientServerTimestampResponse) -> Seq<u8> {
        fields_bytes(Self::spec_fields(v))
    }

    /// What one record does to the message: a declared number sets or extends its
    /// field, any other number is left alone.
    pub open spec fn spec_apply(v: SpecCMsgClientServerTimestampResponse, f: SpecField) -> Result<SpecCMsgClientServerTimestampResponse, WireError> {
        match f.number {
            1 => match dec_u64(f.value) {
                Ok(x) => Ok(SpecCMsgClientServerTimestampResponse { client_request_timestamp: Some(x), ..v }),
                Err(e) => Err(e),
            },
            2 => match dec_u64(f.value) {
                Ok(x) => Ok(SpecCMsgClientServerTimestampResponse { server_timestamp_ms: Some(x), ..v }),
                Err(e) => Err(e),
            },
            _ => Ok(v),
        }
    }

    pub open spec fn apply_fn() -> spec_fn(SpecCMsgClientServerTimestampResponse, SpecField) -> Result<SpecCMsgClientServerTimestampResponse, WireError> {
        |v: SpecCMsgClientServerTimestampResponse, f: SpecField| Self::spec_apply(v, f)
    }

    /// The message `bytes` makes of `v`: its records applied in order, or the error
    /// that stops the reading.
    pub open spec fn spec_merge(v: SpecCMsgClientServerTimestampResponse, bytes: Seq<u8>) -> Result<SpecCMsgClientServerTimestampResponse, WireError> {
        let (w, stop) = merge_run(v, bytes, Self::apply_fn());
        match stop {
            None => Ok(w),
            Some(e) => Err(e),
        }
    }

    #[verifier::opaque]
    pub open spec fn spec_decode(bytes: Seq<u8>) -> Result<SpecCMsgClientServerTimestampResponse, WireError> {
        Self::spec_merge(Self::spec_default(), bytes)
    }

    /// This message with one record applied to it, or, when the record is refused,
    /// the message unchanged and the reason.
    fn applied(self, f: &Field) -> (r: Result<Self, (Self, WireError)>)
        ensures
            match Self::spec_apply(self@, f@) {
                Ok(v) => r matches Ok(m) && m@ == v,
                Err(e) => r matches Err((m, x)) && x == e && m@ == self@,
            },
    {
        match f.number {
            1 => match read_u64(&f.value) {
                Ok(x) => Ok(Self { client_request_timestamp: Some(x), ..self }),
                Err(e) => Err((self, e)),
            },
            2 => match read_u64(&f.value) {
                Ok(x) => Ok(Self { server_timestamp_ms: Some(x), ..self }),
                Err(e) => Err((self, e)),
            },
            _ => Ok(self),
        }
    }

    /// Reads the records `bytes` holds into this message, in order. When a record does
    /// not parse or is refused, the reading stops there: the message keeps what the
    /// records before it gave, and the error is returned.
    pub fn merge(&mut self, bytes: &[u8]) -> (r: Result<(), WireError>)
        ensures
            final(self)@ == merge_run(old(self)@, bytes@, Self::apply_fn()).0,
            r == match merge_run(old(self)@, bytes@, Self::apply_fn()).1 {
                None => Ok::<(), WireError>(()),
                Some(e) => Err::<(), WireError>(e),
            },
    {
        let ghost total = merge_run(self@, bytes@, Self::apply_fn());
        let mut cur = Self::default();
        std::mem::swap(&mut cur, self);
        let mut pos: usize = 0;
        assert(bytes@.skip(0) =~= bytes@);
        while pos < bytes.len()
            invariant
                pos <= bytes@.len(),
                total == merge_run(old(self)@, bytes@, Self::apply_fn()),
                merge_run(cur@, bytes@.skip(pos as int), Self::apply_fn()) == total,
            decreases bytes@.len() - pos,
        {
            let ghost s = bytes@.skip(pos as int);
            proof {
                lemma_merge_run_step(cur@, s, Self::apply_fn());
                lemma_parse_field_len(s);
            }
            match read_field(bytes, pos) {
                Ok((f, end)) => {
                    assert(bytes@.skip(end as int) =~= s.skip((end - pos) as int));
                    match cur.applied(&f) {
                        Ok(m) => {
                            cur = m;
                        },
                        Err((m, e)) => {
                            *self = m;
                            return Err(e);
                        },
                    }
                    pos = end;
                },
                Err(e) => {
                    *self = cur;
                    return Err(e);
                },
            }
        }
        assert(bytes@.skip(pos as int) =~= Seq::<u8>::empty());
        proof {
            lemma_merge_run_empty(cur@, Self::apply_fn());
        }
        *self = cur;
        Ok(())
    }

    /// Decodes a message from its encoding.
    pub fn decode(bytes: &[u8]) -> (r: Result<Self, WireError>)
        ensures
            match Self::spec_decode(bytes@) {
                Ok(v) => r matches Ok(m) && m@ == v,
                Err(e) => r matches Err(x) && x == e,
            },
    {
        proof {
            reveal(CMsgClientServerTimestampResponse::spec_decode);
        }
        let mut m = Self::default();
        match m.merge(bytes) {
            Ok(()) => Ok(m),
            Err(e) => Err(e),
        }
    }

    /// The encoding of this message.
    pub fn encode_to_vec(&self) -> (r: Vec<u8>)
        ensures
            r@ == Self::spec_encode(self@),
    {
        let ghost v = self@;
        let mut out: Vec<u8> = Vec::new();
        let ghost p0 = Seq::<SpecField>::empty();
        put_opt_varint(&mut out, 1, self.client_request_timestamp);
        let ghost p1 = p0 + opt_u64(1, v.client_request_timestamp);
        proof {
            lemma_fields_bytes_concat(p0, opt_u64(1, v.client_request_timestamp));
        }
        put_opt_varint(&mut out, 2, self.server_timestamp_ms);
        let ghost p2 = p1 + opt_u64(2, v.server_timestamp_ms);
        proof {
            lemma_fields_bytes_concat(p1, opt_u64(2, v.server_timestamp_ms));
        }
        proof {
            reveal(CMsgClientServerTimestampResponse::spec_encode);
        }
        assert(p2 == Self::spec_fields(v));
        out
    }

    /// Appends the encoding of this message to `out`.
    pub fn encode_raw(&self, out: &mut Vec<u8>)
        ensures
            final(out)@ == old(out)@ + Self::spec_encode(self@),
    {
        let mut b = self.encode_to_vec();
        out.append(&mut b);
    }

    /// The first `k` fields of `v`, the others as a fresh message has them.
    #[verifier::opaque]
    pub open spec fn spec_prefix(v: SpecCMsgClientServerTimestampResponse, k: int) -> SpecCMsgClientServerTimestampResponse {
        SpecCMsgClientServerTimestampResponse {
            client_request_timestamp: if 1 <= k { v.client_request_timestamp } else { None },
            server_timestamp_ms: if 2 <= k { v.server_timestamp_ms } else { None },
        }
    }

    /// Reading field 1 back, after the fields before it.
    proof fn lemma_field_client_request_timestamp(v: SpecCMsgClientServerTimestampResponse)
        ensures
            fold_fields(Self::spec_prefix(v, 0), opt_u64(1, v.client_request_timestamp), Self::apply_fn())
                == Ok::<SpecCMsgClientServerTimestampResponse, WireError>(Self::spec_prefix(v, 1)),
    {
        reveal(CMsgClientServerTimestampResponse::spec_prefix);
        reveal(opt_u64);
        let apply = Self::apply_fn();
        let s = Self::spec_prefix(v, 0);
        lemma_fold_opt(s, 1, match v.client_request_timestamp { Some(x) => Some(enc_u64(x)), None => None }, apply);
        if let Some(x) = v.client_request_timestamp {
            lemma_u64_roundtrip(x);
        }
        assert(SpecCMsgClientServerTimestampResponse { client_request_timestamp: v.client_request_timestamp, ..s } == Self::spec_prefix(v, 1));
    }

    /// Reading field 2 back, after the fields before it.
    proof fn lemma_field_server_timestamp_ms(v: SpecCMsgClientServerTimestampResponse)
        ensures
            fold_fields(Self::spec_prefix(v, 1), opt_u64(2, v.server_timestamp_ms), Self::apply_fn())
                == Ok::<SpecCMsgClientServerTimestampResponse, WireError>(Self::spec_prefix(v, 2)),
    {
        reveal(CMsgClientServerTimestampResponse::spec_prefix);
        reveal(opt_u64);
        let apply = Self::apply_fn();
        let s = Self::spec_prefix(v, 1);
        lemma_fold_opt(s, 2, match v.server_timestamp_ms { Some(x) => Some(enc_u64(x)), None => None }, apply);
        if let Some(x) = v.server_timestamp_ms {
            lemma_u64_roundtrip(x);
        }
        assert(SpecCMsgClientServerTimestampResponse { server_timestamp_ms: v.server_timestamp_ms, ..s } == Self::spec_prefix(v, 2));
    }

    /// Whether this message declares field number `n`.
    pub open spec fn declares(n: u32) -> bool {
        n == 1 || n == 2
    }

    /// A record with a number this message does not declare is passed over: well-formed
    /// bytes decode to the same message with such a record after them as without it.
    pub proof fn lemma_unknown_field(bytes: Seq<u8>, f: SpecField)
        requires
            parse_fields(bytes) is Ok,
            field_wf(f),
            !Self::declares(f.number),
        ensures
            Self::spec_decode(bytes + field_bytes(f)) == Self::spec_decode(bytes),
    {
        reveal(CMsgClientServerTimestampResponse::spec_decode);
        lemma_parse_fields_append(bytes, f);
        let fs = parse_fields(bytes).unwrap();
        let apply = Self::apply_fn();
        lemma_fold_concat(Self::spec_default(), fs, seq![f], apply);
        assert(fs.push(f) =~= fs + seq![f]);
        if let Ok(w) = fold_fields(Self::spec_default(), fs, apply) {
            lemma_fold_single(w, f, apply);
        }
        lemma_merge_run_fold(Self::spec_default(), bytes, apply);
        lemma_merge_run_fold(Self::spec_default(), bytes + field_bytes(f), apply);
    }

    /// Decoding the encoding of a message gives the message back.
    pub proof fn lemma_decode_encode(v: SpecCMsgClientServerTimestampResponse)
        requires
            Self::spec_encode(v).len() <= u64::MAX,
        ensures
            Self::spec_decode(Self::spec_encode(v)) == Ok::<SpecCMsgClientServerTimestampResponse, WireError>(v),
    {
        let apply = Self::apply_fn();
        let d = Self::spec_default();
        let p0 = Seq::<SpecField>::empty();
        let l1 = opt_u64(1, v.client_request_timestamp);
        let p1 = p0 + l1;
        let l2 = opt_u64(2, v.server_timestamp_ms);
        let p2 = p1 + l2;
        assert(parse_fields(Self::spec_encode(v)) == Ok::<Seq<SpecField>, WireError>(p2)) by {
            reveal(CMsgClientServerTimestampResponse::spec_encode);
            assert(numbers_ok(p0) && fields_wf(p0)) by {
                reveal(numbers_ok);
                reveal(fields_wf);
            }
            lemma_opt_u64_numbered(1, v.client_request_timestamp);
            lemma_fields_wf_concat(p0, l1);
            lemma_opt_u64_numbered(2, v.server_timestamp_ms);
            lemma_fields_wf_concat(p1, l2);
            assert(p2 == Self::spec_fields(v));
            lemma_fields_wf_from_len(p2);
            lemma_fields_roundtrip(p2);
        }
        assert(Self::spec_prefix(v, 0) == d) by {
            reveal(CMsgClientServerTimestampResponse::spec_prefix);
        }
        lemma_fold_empty(d, apply);
        lemma_fold_concat(d, p0, l1, apply);
        Self::lemma_field_client_request_timestamp(v);
        lemma_fold_concat(d, p1, l2, apply);
        Self::lemma_field_server_timestamp_ms(v);
        assert(Self::spec_prefix(v, 2) == v) by {
            reveal(CMsgClientServerTimestampResponse::spec_prefix);
        }
        lemma_merge_run_fold(d, Self::spec_encode(v), apply);
        assert(Self::spec_decode(Self::spec_encode(v)) == Ok::<SpecCMsgClientServerTimestampResponse, WireError>(v)) by {
            reveal(CMsgClientServerTimestampResponse::spec_decode);
        }
    }
}

/// `CMsgClientSecret`, as Valve's schema declares it.
#[derive(Debug, Clone, PartialEq)]
pub struct CMsgClientSecret {
    /// Field 1.
    pub version: Option<u32>,
    /// Field 2.
    pub appid: Option<u32>,
    /// Field 3.
    pub deviceid: Option<u32>,
    /// Field 4.
    pub nonce: Option<u64>,
    /// Field 5.
    pub hmac: Option<Vec<u8>>,
}

/// What a `CMsgClientSecret` holds, as mathematical values.
#[verifier::ext_equal]
pub struct SpecCMsgClientSecret {
    pub version: Option<u32>,
    pub appid: Option<u32>,
    pub deviceid: Option<u32>,
    pub nonce: Option<u64>,
    pub hmac: Option<Seq<u8>>,
}

impl View for CMsgClientSecret {
    type V = SpecCMsgClientSecret;

    open spec fn view(&self) -> SpecCMsgClientSecret {
        SpecCMsgClientSecret {
            version: self.version,
            appid: self.appid,
            deviceid: self.deviceid,
            nonce: self.nonce,
            hmac: opt_bytes_view(self.hmac),
        }
    }
}

impl Default for CMsgClientSecret {
    fn default() -> (r: Self)
        ensures
            r@ == CMsgClientSecret::spec_default(),
    {
        CMsgClientSecret {
            version: None,
            appid: None,
            deviceid: None,
            nonce: None,
            hmac: None,
        }
    }
}

impl CMsgClientSecret {
    pub open spec fn spec_default() -> SpecCMsgClientSecret {
        SpecCMsgClientSecret {
            version: None,
            appid: None,
            deviceid: None,
            nonce: None,
            hmac: None,
        }
    }

    /// The records a `CMsgClientSecret` is written as, in field order.
    pub open spec fn spec_fields(v: SpecCMsgClientSecret) -> Seq<SpecField> {
        Seq::<SpecField>::empty()
            + opt_u32(1, v.version)
            + opt_u32(2, v.appid)
            + opt_u32(3, v.deviceid)
            + opt_fixed64(4, v.nonce)
            + opt_bytes(5, v.hmac)
    }

    #[verifier::opaque]
    pub open spec fn spec_encode(v: SpecCMsgClientSecret) -> Seq<u8> {
        fields_bytes(Self::spec_fields(v))
    }

    /// What one record does to the message: a declared number sets or extends its
    /// field, any other number is left alone.
    pub open spec fn spec_apply(v: SpecCMsgClientSecret, f: SpecField) -> Result<SpecCMsgClientSecret, WireError> {
        match f.number {
            1 => match dec_u32(f.value) {
                Ok(x) => Ok(SpecCMsgClientSecret { version: Some(x), ..v }),
                Err(e) => Err(e),
            },
            2 => match dec_u32(f.value) {
                Ok(x) => Ok(SpecCMsgClientSecret { appid: Some(x), ..v }),
                Err(e) => Err(e),
            },
            3 => match dec_u32(f.value) {
                Ok(x) => Ok(SpecCMsgClientSecret { deviceid: Some(x), ..v }),
                Err(e) => Err(e),
            },
            4 => match dec_fixed64(f.value) {
                Ok(x) => Ok(SpecCMsgClientSecret { nonce: Some(x), ..v }),
                Err(e) => Err(e),
            },
            5 => match dec_bytes(f.value) {
                Ok(x) => Ok(SpecCMsgClientSecret { hmac: Some(x), ..v }),
                Err(e) => Err(e),
            },
            _ => Ok(v),
        }
    }

    pub open spec fn apply_fn() -> spec_fn(SpecCMsgClientSecret, SpecField) -> Result<SpecCMsgClientSecret, WireError> {
        |v: SpecCMsgClientSecret, f: SpecField| Self::spec_apply(v, f)
    }

    /// The message `bytes` makes of `v`: its records applied in order, or the error
    /// that stops the reading.
    pub open spec fn spec_merge(v: SpecCMsgClientSecret, bytes: Seq<u8>) -> Result<SpecCMsgClientSecret, WireError> {
        let (w, stop) = merge_run(v, bytes, Self::apply_fn());
        match stop {
            None => Ok(w),
            Some(e) => Err(e),
        }
    }

    #[verifier::opaque]
    pub open spec fn spec_decode(bytes: Seq<u8>) -> Result<SpecCMsgClientSecret, WireError> {
        Self::spec_merge(Self::spec_default(), bytes)
    }

    pub open spec fn view_all(xs: Seq<CMsgClientSecret>) -> Seq<SpecCMsgClientSecret> {
        xs.map_values(|m: CMsgClientSecret| m@)
    }

    pub open spec fn view_opt(o: Option<CMsgClientSecret>) -> Option<SpecCMsgClientSecret> {
        match o {
            Some(m) => Some(m@),
            None => None,
        }
    }

    pub open spec fn spec_encode_all(xs: Seq<SpecCMsgClientSecret>) -> Seq<Seq<u8>> {
        xs.map_values(|m: SpecCMsgClientSecret| Self::spec_encode(m))
    }

    pub open spec fn spec_encode_opt(o: Option<SpecCMsgClientSecret>) -> Option<Seq<u8>> {
        match o {
            Some(m) => Some(Self::spec_encode(m)),
            None => None,
        }
    }

    /// The encoding of each element.
    pub fn encode_all(xs: &Vec<CMsgClientSecret>) -> (r: Vec<Vec<u8>>)
        ensures
            bytes_seq_view(r@) == Self::spec_encode_all(Self::view_all(xs@)),
    {
        let mut out: Vec<Vec<u8>> = Vec::new();
        let mut i: usize = 0;
        while i < xs.len()
            invariant
                i <= xs@.len(),
                out@.len() == i,
                forall|j: int| 0 <= j < i ==> #[trigger] out@[j]@ == Self::spec_encode(xs@[j]@),
            decreases xs@.len() - i,
        {
            let e = xs[i].encode_to_vec();
            out.push(e);
            i = i + 1;
        }
        assert(bytes_seq_view(out@) =~= Self::spec_encode_all(Self::view_all(xs@)));
        out
    }

    /// The encoding of the element, when there is one.
    pub fn encode_opt(o: &Option<CMsgClientSecret>) -> (r: Option<Vec<u8>>)
        ensures
            opt_bytes_view(r) == Self::spec_encode_opt(Self::view_opt(*o)),
    {
        match o {
            Some(m) => Some(m.encode_to_vec()),
            None => None,
        }
    }

    /// This message with one record applied to it, or, when the record is refused,
    /// the message unchanged and the reason.
    fn applied(self, f: &Field) -> (r: Result<Self, (Self, WireError)>)
        ensures
            match Self::spec_apply(self@, f@) {
                Ok(v) => r matches Ok(m) && m@ == v,
                Err(e) => r matches Err((m, x)) && x == e && m@ == self@,
            },
    {
        match f.number {
            1 => match read_u32(&f.value) {
                Ok(x) => Ok(Self { version: Some(x), ..self }),
                Err(e) => Err((self, e)),
            },
            2 => match read_u32(&f.value) {
                Ok(x) => Ok(Self { appid: Some(x), ..self }),
                Err(e) => Err((self, e)),
            },
            3 => match read_u32(&f.value) {
                Ok(x) => Ok(Self { deviceid: Some(x), ..self }),
                Err(e) => Err((self, e)),
            },
            4 => match read_fixed64(&f.value) {
                Ok(x) => Ok(Self { nonce: Some(x), ..self }),
                Err(e) => Err((self, e)),
            },
            5 => match read_bytes(&f.value) {
                Ok(x) => Ok(Self { hmac: Some(x), ..self }),
                Err(e) => Err((self, e)),
            },
            _ => Ok(self),
        }
    }

    /// Reads the records `bytes` holds into this message, in order. When a record does
    /// not parse or is refused, the reading stops there: the message keeps what the
    /// records before it gave, and the error is returned.
    pub fn merge(&mut self, bytes: &[u8]) -> (r: Result<(), WireError>)
        ensures
            final(self)@ == merge_run(old(self)@, bytes@, Self::apply_fn()).0,
            r == match merge_run(old(self)@, bytes@, Self::apply_fn()).1 {
                None => Ok::<(), WireError>(()),
                Some(e) => Err::<(), WireError>(e),
            },
    {
        let ghost total = merge_run(self@, bytes@, Self::apply_fn());
        let mut cur = Self::default();
        std::mem::swap(&mut cur, self);
        let mut pos: usize = 0;
        assert(bytes@.skip(0) =~= bytes@);
        while pos < bytes.len()
            invariant
                pos <= bytes@.len(),
                total == merge_run(old(self)@, bytes@, Self::apply_fn()),
                merge_run(cur@, bytes@.skip(pos as int), Self::apply_fn()) == total,
            decreases bytes@.len() - pos,
        {
            let ghost s = bytes@.skip(pos as int);
            proof {
                lemma_merge_run_step(cur@, s, Self::apply_fn());
                lemma_parse_field_len(s);
            }
            match read_field(bytes, pos) {
                Ok((f, end)) => {
                    assert(bytes@.skip(end as int) =~= s.skip((end - pos) as int));
                    match cur.applied(&f) {
                        Ok(m) => {
                            cur = m;
                        },
                        Err((m, e)) => {
                            *self = m;
                            return Err(e);
                        },
                    }
                    pos = end;
                },
                Err(e) => {
                    *self = cur;
                    return Err(e);
                },
            }
        }
        assert(bytes@.skip(pos as int) =~= Seq::<u8>::empty());
        proof {
            lemma_merge_run_empty(cur@, Self::apply_fn());
        }
        *self = cur;
        Ok(())
    }

    /// Decodes a message from its encoding.
    pub fn decode(bytes: &[u8]) -> (r: Result<Self, WireError>)
        ensures
            match Self::spec_decode(bytes@) {
                Ok(v) => r matches Ok(m) && m@ == v,
                Err(e) => r matches Err(x) && x == e,
            },
    {
        proof {
            reveal(CMsgClientSecret::spec_decode);
        }
        let mut m = Self::default();
        match m.merge(bytes) {
            Ok(()) => Ok(m),
            Err(e) => Err(e),
        }
    }

    /// The encoding of this message.
    pub fn encode_to_vec(&self) -> (r: Vec<u8>)
        ensures
            r@ == Self::spec_encode(self@),
    {
        let ghost v = self@;
        let mut out: Vec<u8> = Vec::new();
        let ghost p0 = Seq::<SpecField>::empty();
        put_opt_u32(&mut out, 1, self.version);
        let ghost p1 = p0 + opt_u32(1, v.version);
        proof {
            lemma_fields_bytes_concat(p0, opt_u32(1, v.version));
        }
        put_opt_u32(&mut out, 2, self.appid);
        let ghost p2 = p1 + opt_u32(2, v.appid);
        proof {
            lemma_fields_bytes_concat(p1, opt_u32(2, v.appid));
        }
        put_opt_u32(&mut out, 3, self.deviceid);
        let ghost p3 = p2 + opt_u32(3, v.deviceid);
        proof {
            lemma_fields_bytes_concat(p2, opt_u32(3, v.deviceid));
        }
        put_opt_fixed64(&mut out, 4, self.nonce);
        let ghost p4 = p3 + opt_fixed64(4, v.nonce);
        proof {
            lemma_fields_bytes_concat(p3, opt_fixed64(4, v.nonce));
        }
        put_opt_bytes(&mut out, 5, &self.hmac);
        let ghost p5 = p4 + opt_bytes(5, v.hmac);
        proof {
            lemma_fields_bytes_concat(p4, opt_bytes(5, v.hmac));
        }
        proof {
            reveal(CMsgClientSecret::spec_encode);
        }
        assert(p5 == Self::spec_fields(v));
        out
    }

    /// Appends the encoding of this message to `out`.
    pub fn encode_raw(&self, out: &mut Vec<u8>)
        ensures
            final(out)@ == old(out)@ + Self::spec_encode(self@),
    {
        let mut b = self.encode_to_vec();
        out.append(&mut b);
    }

    /// The first `k` fields of `v`, the others as a fresh message has them.
    #[verifier::opaque]
    pub open spec fn spec_prefix(v: SpecCMsgClientSecret, k: int) -> SpecCMsgClientSecret {
        SpecCMsgClientSecret {
            version: if 1 <= k { v.version } else { None },
            appid: if 2 <= k { v.appid } else { None },
            deviceid: if 3 <= k { v.deviceid } else { None },
            nonce: if 4 <= k { v.nonce } else { None },
            hmac: if 5 <= k { v.hmac } else { None },
        }
    }

    /// Reading field 1 back, after the fields before it.
    proof fn lemma_field_version(v: SpecCMsgClientSecret)
        ensures
            fold_fields(Self::spec_prefix(v, 0), opt_u32(1, v.version), Self::apply_fn())
                == Ok::<SpecCMsgClientSecret, WireError>(Self::spec_prefix(v, 1)),
    {
        reveal(CMsgClientSecret::spec_prefix);
        reveal(opt_u32);
        let apply = Self::apply_fn();
        let s = Self::spec_prefix(v, 0);
        lemma_fold_opt(s, 1, match v.version { Some(x) => Some(enc_u32(x)), None => None }, apply);
        if let Some(x) = v.version {
            lemma_u32_roundtrip(x);
        }
        assert(SpecCMsgClientSecret { version: v.version, ..s } == Self::spec_prefix(v, 1));
    }

    /// Reading field 2 back, after the fields before it.
    proof fn lemma_field_appid(v: SpecCMsgClientSecret)
        ensures
            fold_fields(Self::spec_prefix(v, 1), opt_u32(2, v.appid), Self::apply_fn())
                == Ok::<SpecCMsgClientSecret, WireError>(Self::spec_prefix(v, 2)),
    {
        reveal(CMsgClientSecret::spec_prefix);
        reveal(opt_u32);
        let apply = Self::apply_fn();
        let s = Self::spec_prefix(v, 1);
        lemma_fold_opt(s, 2, match v.appid { Some(x) => Some(enc_u32(x)), None => None }, apply);
        if let Some(x) = v.appid {
            lemma_u32_roundtrip(x);
        }
        assert(SpecCMsgClientSecret { appid: v.appid, ..s } == Self::spec_prefix(v, 2));
    }

    /// Reading field 3 back, after the fields before it.
    proof fn lemma_field_deviceid(v: SpecCMsgClientSecret)
        ensures
            fold_fields(Self::spec_prefix(v, 2), opt_u32(3, v.deviceid), Self::apply_fn())
                == Ok::<SpecCMsgClientSecret, WireError>(Self::spec_prefix(v, 3)),
    {
        reveal(CMsgClientSecret::spec_prefix);
        reveal(opt_u32);
        let apply = Self::apply_fn();
        let s = Self::spec_prefix(v, 2);
        lemma_fold_opt(s, 3, match v.deviceid { Some(x) => Some(enc_u32(x)), None => None }, apply);
        if let Some(x) = v.deviceid {
            lemma_u32_roundtrip(x);
        }
        assert(SpecCMsgClientSecret { deviceid: v.deviceid, ..s } == Self::spec_prefix(v, 3));
    }

    /// Reading field 4 back, after the fields before it.
    proof fn lemma_field_nonce(v: SpecCMsgClientSecret)
        ensures
            fold_fields(Self::spec_prefix(v, 3), opt_fixed64(4, v.nonce), Self::apply_fn())
                == Ok::<SpecCMsgClientSecret, WireError>(Self::spec_prefix(v, 4)),
    {
        reveal(CMsgClientSecret::spec_prefix);
        reveal(opt_fixed64);
        let apply = Self::apply_fn();
        let s = Self::spec_prefix(v, 3);
        lemma_fold_opt(s, 4, match v.nonce { Some(x) => Some(enc_fixed64(x)), None => None }, apply);
        if let Some(x) = v.nonce {
            lemma_u64_roundtrip(x);
        }
        assert(SpecCMsgClientSecret { nonce: v.nonce, ..s } == Self::spec_prefix(v, 4));
    }

    /// Reading field 5 back, after the fields before it.
    proof fn lemma_field_hmac(v: SpecCMsgClientSecret)
        ensures
            fold_fields(Self::spec_prefix(v, 4), opt_bytes(5, v.hmac), Self::apply_fn())
                == Ok::<SpecCMsgClientSecret, WireError>(Self::spec_prefix(v, 5)),
    {
        reveal(CMsgClientSecret::spec_prefix);
        reveal(opt_bytes);
        let apply = Self::apply_fn();
        let s = Self::spec_prefix(v, 4);
        lemma_fold_opt(s, 5, match v.hmac { Some(x) => Some(enc_bytes(x)), None => None }, apply);
        assert(SpecCMsgClientSecret { hmac: v.hmac, ..s } == Self::spec_prefix(v, 5));
    }

    /// Whether this message declares field number `n`.
    pub open spec fn declares(n: u32) -> bool {
        n == 1 || n == 2 || n == 3 || n == 4 || n == 5
    }

    /// A record with a number this message does not declare is passed over: well-formed
    /// bytes decode to the same message with such a record after them as without it.
    pub proof fn lemma_unknown_field(bytes: Seq<u8>, f: SpecField)
        requires
            parse_fields(bytes) is Ok,
            field_wf(f),
            !Self::declares(f.number),
        ensures
            Self::spec_decode(bytes + field_bytes(f)) == Self::spec_decode(bytes),
    {
        reveal(CMsgClientSecret::spec_decode);
        lemma_parse_fields_append(bytes, f);
        let fs = parse_fields(bytes).unwrap();
        let apply = Self::apply_fn();
        lemma_fold_concat(Self::spec_default(), fs, seq![f], apply);
        assert(fs.push(f) =~= fs + seq![f]);
        if let Ok(w) = fold_fields(Self::spec_default(), fs, apply) {
            lemma_fold_single(w, f, apply);
        }
        lemma_merge_run_fold(Self::spec_default(), bytes, apply);
        lemma_merge_run_fold(Self::spec_default(), bytes + field_bytes(f), apply);
    }

    /// Decoding the encoding of a message gives the message back.
    pub proof fn lemma_decode_encode(v: SpecCMsgClientSecret)
        requires
            Self::spec_encode(v).len() <= u64::MAX,
        ensures
            Self::spec_decode(Self::spec_encode(v)) == Ok::<SpecCMsgClientSecret, WireError>(v),
    {
        let apply = Self::apply_fn();
        let d = Self::spec_default();
        let p0 = Seq::<SpecField>::empty();
        let l1 = opt_u32(1, v.version);
        let p1 = p0 + l1;
        let l2 = opt_u32(2, v.appid);
        let p2 = p1 + l2;
        let l3 = opt_u32(3, v.deviceid);
        let p3 = p2 + l3;
        let l4 = opt_fixed64(4, v.nonce);
        let p4 = p3 + l4;
        let l5 = opt_bytes(5, v.hmac);
        let p5 = p4 + l5;
        assert(parse_fields(Self::spec_encode(v)) == Ok::<Seq<SpecField>, WireError>(p5)) by {
            reveal(CMsgClientSecret::spec_encode);
            assert(numbers_ok(p0) && fields_wf(p0)) by {
                reveal(numbers_ok);
                reveal(fields_wf);
            }
            lemma_opt_u32_numbered(1, v.version);
            lemma_fields_wf_concat(p0, l1);
            lemma_opt_u32_numbered(2, v.appid);
            lemma_fields_wf_concat(p1, l2);
            lemma_opt_u32_numbered(3, v.deviceid);
            lemma_fields_wf_concat(p2, l3);
            lemma_opt_fixed64_numbered(4, v.nonce);
            lemma_fields_wf_concat(p3, l4);
            lemma_opt_bytes_numbered(5, v.hmac);
            lemma_fields_wf_concat(p4, l5);
            assert(p5 == Self::spec_fields(v));
            lemma_fields_wf_from_len(p5);
            lemma_fields_roundtrip(p5);
        }
        assert(Self::spec_prefix(v, 0) == d) by {
            reveal(CMsgClientSecret::spec_prefix);
        }
        lemma_fold_empty(d, apply);
        lemma_fold_concat(d, p0, l1, apply);
        Self::lemma_field_version(v);
        lemma_fold_concat(d, p1, l2, apply);
        Self::lemma_field_appid(v);
        lemma_fold_concat(d, p2, l3, apply);
        Self::lemma_field_deviceid(v);
        lemma_fold_concat(d, p3, l4, apply);
        Self::lemma_field_nonce(v);
        lemma_fold_concat(d, p4, l5, apply);
        Self::lemma_field_hmac(v);
        assert(Self::spec_prefix(v, 5) == v) by {
            reveal(CMsgClientSecret::spec_prefix);
        }
        lemma_merge_run_fold(d, Self::spec_encode(v), apply);
        assert(Self::spec_decode(Self::spec_encode(v)) == Ok::<SpecCMsgClientSecret, WireError>(v)) by {
            reveal(CMsgClientSecret::spec_decode);
        }
    }
}

/// `CMsgClientHello`, as Valve's schema declares it.
#[derive(Debug, Clone, PartialEq)]
pub struct CMsgClientHello {
    /// Field 1.
    pub protocol_version: Option<u32>,
}

/// What a `CMsgClientHello` holds, as mathematical values.
#[verifier::ext_equal]
pub struct SpecCMsgClientHello {
    pub protocol_version: Option<u32>,
}

impl View for CMsgClientHello {
    type V = SpecCMsgClientHello;

    open spec fn view(&self) -> SpecCMsgClientHello {
        SpecCMsgClientHello {
            protocol_version: self.protocol_version,
        }
    }
}

impl Default for CMsgClientHello {
    fn default() -> (r: Self)
        ensures
            r@ == CMsgClientHello::spec_default(),
    {
        CMsgClientHello {
            protocol_version: None,
        }
    }
}

impl CMsgClientHello {
    pub open spec fn spec_default() -> SpecCMsgClientHello {
        SpecCMsgClientHello {
            protocol_version: None,
        }
    }

    /// The records a `CMsgClientHello` is written as, in field order.
    pub open spec fn spec_fields(v: SpecCMsgClientHello) -> Seq<SpecField> {
        Seq::<SpecField>::empty()
            + opt_u32(1, v.protocol_version)
    }

    #[verifier::opaque]
    pub open spec fn spec_encode(v: SpecCMsgClientHello) -> Seq<u8> {
        fields_bytes(Self::spec_fields(v))
    }

    /// What one record does to the message: a declared number sets or extends its
    /// field, any other number is left alone.
    pub open spec fn spec_apply(v: SpecCMsgClientHello, f: SpecField) -> Result<SpecCMsgClientHello, WireError> {
        match f.number {
            1 => match dec_u32(f.value) {
                Ok(x) => Ok(SpecCMsgClientHello { protocol_version: Some(x), ..v }),
                Err(e) => Err(e),
            },
            _ => Ok(v),
        }
    }

    pub open spec fn apply_fn() -> spec_fn(SpecCMsgClientHello, SpecField) -> Result<SpecCMsgClientHello, WireError> {
        |v: SpecCMsgClientHello, f: SpecField| Self::spec_apply(v, f)
    }

    /// The message `bytes` makes of `v`: its records applied in order, or the error
    /// that stops the reading.
    pub open spec fn spec_merge(v: SpecCMsgClientHello, bytes: Seq<u8>) -> Result<SpecCMsgClientHello, WireError> {
        let (w, stop) = merge_run(v, bytes, Self::apply_fn());
        match stop {
            None => Ok(w),
            Some(e) => Err(e),
        }
    }

    #[verifier::opaque]
    pub open spec fn spec_decode(bytes: Seq<u8>) -> Result<SpecCMsgClientHello, WireError> {
        Self::spec_merge(Self::spec_default(), bytes)
    }

    /// This message with one record applied to it, or, when the record is refused,
    /// the message unchanged and the reason.
    fn applied(self, f: &Field) -> (r: Result<Self, (Self, WireError)>)
        ensures
            match Self::spec_apply(self@, f@) {
                Ok(v) => r matches Ok(m) && m@ == v,
                Err(e) => r matches Err((m, x)) && x == e && m@ == self@,
            },
    {
        match f.number {
            1 => match read_u32(&f.value) {
                Ok(x) => Ok(Self { protocol_version: Some(x), ..self }),
                Err(e) => Err((self, e)),
            },
            _ => Ok(self),
        }
    }

    /// Reads the records `bytes` holds into this message, in order. When a record does
    /// not parse or is refused, the reading stops there: the message keeps what the
    /// records before it gave, and the error is returned.
    pub fn merge(&mut self, bytes: &[u8]) -> (r: Result<(), WireError>)
        ensures
            final(self)@ == merge_run(old(self)@, bytes@, Self::apply_fn()).0,
            r == match merge_run(old(self)@, bytes@, Self::apply_fn()).1 {
                None => Ok::<(), WireError>(()),
                Some(e) => Err::<(), WireError>(e),
            },
    {
        let ghost total = merge_run(self@, bytes@, Self::apply_fn());
        let mut cur = Self::default();
        std::mem::swap(&mut cur, self);
        let mut pos: usize = 0;
        assert(bytes@.skip(0) =~= bytes@);
        while pos < bytes.len()
            invariant
                pos <= bytes@.len(),
                total == merge_run(old(self)@, bytes@, Self::apply_fn()),
                merge_run(cur@, bytes@.skip(pos as int), Self::apply_fn()) == total,
            decreases bytes@.len() - pos,
        {
            let ghost s = bytes@.skip(pos as int);
            proof {
                lemma_merge_run_step(cur@, s, Self::apply_fn());
                lemma_parse_field_len(s);
            }
            match read_field(bytes, pos) {
                Ok((f, end)) => {
                    assert(bytes@.skip(end as int) =~= s.skip((end - pos) as int));
                    match cur.applied(&f) {
                        Ok(m) => {
                            cur = m;
                        },
                        Err((m, e)) => {
                            *self = m;
                            return Err(e);
                        },
                    }
                    pos = end;
                },
                Err(e) => {
                    *self = cur;
                    return Err(e);
                },
            }
        }
        assert(bytes@.skip(pos as int) =~= Seq::<u8>::empty());
        proof {
            lemma_merge_run_empty(cur@, Self::apply_fn());
        }
        *self = cur;
        Ok(())
    }

    /// Decodes a message from its encoding.
    pub fn decode(bytes: &[u8]) -> (r: Result<Self, WireError>)
        ensures
            match Self::spec_decode(bytes@) {
                Ok(v) => r matches Ok(m) && m@ == v,
                Err(e) => r matches Err(x) && x == e,
            },
    {
        proof {
            reveal(CMsgClientHello::spec_decode);
        }
        let mut m = Self::default();
        match m.merge(bytes) {
            Ok(()) => Ok(m),
            Err(e) => Err(e),
        }
    }

    /// The encoding of this message.
    pub fn encode_to_vec(&self) -> (r: Vec<u8>)
        ensures
            r@ == Self::spec_encode(self@),
    {
        let ghost v = self@;
        let mut out: Vec<u8> = Vec::new();
        let ghost p0 = Seq::<SpecField>::empty();
        put_opt_u32(&mut out, 1, self.protocol_version);
        let ghost p1 = p0 + opt_u32(1, v.protocol_version);
        proof {
            lemma_fields_bytes_concat(p0, opt_u32(1, v.protocol_version));
        }
        proof {
            reveal(CMsgClientHello::spec_encode);
        }
        assert(p1 == Self::spec_fields(v));
        out
    }

    /// Appends the encoding of this message to `out`.
    pub fn encode_raw(&self, out: &mut Vec<u8>)
        ensures
            final(out)@ == old(out)@ + Self::spec_encode(self@),
    {
        let mut b = self.encode_to_vec();
        out.append(&mut b);
    }

    /// The first `k` fields of `v`, the others as a fresh message has them.
    #[verifier::opaque]
    pub open spec fn spec_prefix(v: SpecCMsgClientHello, k: int) -> SpecCMsgClientHello {
        SpecCMsgClientHello {
            protocol_version: if 1 <= k { v.protocol_version } else { None },
        }
    }

    /// Reading field 1 back, after the fields before it.
    proof fn lemma_field_protocol_version(v: SpecCMsgClientHello)
        ensures
            fold_fields(Self::spec_prefix(v, 0), opt_u32(1, v.protocol_version), Self::apply_fn())
                == Ok::<SpecCMsgClientHello, WireError>(Self::spec_prefix(v, 1)),
    {
        reveal(CMsgClientHello::spec_prefix);
        reveal(opt_u32);
        let apply = Self::apply_fn();
        let s = Self::spec_prefix(v, 0);
        lemma_fold_opt(s, 1, match v.protocol_version { Some(x) => Some(enc_u32(x)), None => None }, apply);
        if let Some(x) = v.protocol_version {
            lemma_u32_roundtrip(x);
        }
        assert(SpecCMsgClientHello { protocol_version: v.protocol_version, ..s } == Self::spec_prefix(v, 1));
    }

    /// Whether this message declares field number `n`.
    pub open spec fn declares(n: u32) -> bool {
        n == 1
    }

    /// A record with a number this message does not declare is passed over: well-formed
    /// bytes decode to the same message with such a record after them as without it.
    pub proof fn lemma_unknown_field(bytes: Seq<u8>, f: SpecField)
        requires
            parse_fields(bytes) is Ok,
            field_wf(f),
            !Self::declares(f.number),
        ensures
            Self::spec_decode(bytes + field_bytes(f)) == Self::spec_decode(bytes),
    {
        reveal(CMsgClientHello::spec_decode);
        lemma_parse_fields_append(bytes, f);
        let fs = parse_fields(bytes).unwrap();
        let apply = Self::apply_fn();
        lemma_fold_concat(Self::spec_default(), fs, seq![f], apply);
        assert(fs.push(f) =~= fs + seq![f]);
        if let Ok(w) = fold_fields(Self::spec_default(), fs, apply) {
            lemma_fold_single(w, f, apply);
        }
        lemma_merge_run_fold(Self::spec_default(), bytes, apply);
        lemma_merge_run_fold(Self::spec_default(), bytes + field_bytes(f), apply);
    }

    /// Decoding the encoding of a message gives the message back.
    pub proof fn lemma_decode_encode(v: SpecCMsgClientHello)
        requires
            Self::spec_encode(v).len() <= u64::MAX,
        ensures
            Self::spec_decode(Self::spec_encode(v)) == Ok::<SpecCMsgClientHello, WireError>(v),
    {
        let apply = Self::apply_fn();
        let d = Self::spec_default();
        let p0 = Seq::<SpecField>::empty();
        let l1 = opt_u32(1, v.protocol_version);
        let p1 = p0 + l1;
        assert(parse_fields(Self::spec_encode(v)) == Ok::<Seq<SpecField>, WireError>(p1)) by {
            reveal(CMsgClientHello::spec_encode);
            assert(numbers_ok(p0) && fields_wf(p0)) by {
                reveal(numbers_ok);
                reveal(fields_wf);
            }
            lemma_opt_u32_numbered(1, v.protocol_version);
            lemma_fields_wf_concat(p0, l1);
            assert(p1 == Self::spec_fields(v));
            lemma_fields_wf_from_len(p1);
            lemma_fields_roundtrip(p1);
        }
        assert(Self::spec_prefix(v, 0) == d) by {
            reveal(CMsgClientHello::spec_prefix);
        }
        lemma_fold_empty(d, apply);
        lemma_fold_concat(d, p0, l1, apply);
        Self::lemma_field_protocol_version(v);
        assert(Self::spec_prefix(v, 1) == v) by {
            reveal(CMsgClientHello::spec_prefix);
        }
        lemma_merge_run_fold(d, Self::spec_encode(v), apply);
        assert(Self::spec_decode(Self::spec_encode(v)) == Ok::<SpecCMsgClientHello, WireError>(v)) by {
            reveal(CMsgClientHello::spec_decode);
        }
    }
}

/// `CMsgClientLogon`, as Valve's schema declares it.
#[derive(Debug, Clone, PartialEq)]
pub struct CMsgClientLogon {
    /// Field 1.
    pub protocol_version: Option<u32>,
    /// Field 2.
    pub deprecated_obfustucated_private_ip: Option<u32>,
    /// Field 3.
    pub cell_id: Option<u32>,
    /// Field 4.
    pub last_session_id: Option<u32>,
    /// Field 5.
    pub client_package_version: Option<u32>,
    /// Field 6.
    pub client_language: Option<String>,
    /// Field 7.
    pub client_os_type: Option<u32>,
    /// Field 8.
    pub should_remember_password: Option<bool>,
    /// Field 9.
    pub wine_version: Option<String>,
    /// Field 10.
    pub deprecated_10: Option<u32>,
    /// Field 11.
    pub obfuscated_private_ip: Option<crate::steammessages_base::CMsgIPAddress>,
    /// Field 20.
    pub deprecated_public_ip: Option<u32>,
    /// Field 21.
    pub qos_level: Option<u32>,
    /// Field 22.
    pub client_supplied_steam_id: Option<u64>,
    /// Field 23.
    pub public_ip: Option<crate::steammessages_base::CMsgIPAddress>,
    /// Field 30.
    pub machine_id: Option<Vec<u8>>,
    /// Field 31.
    pub launcher_type: Option<u32>,
    /// Field 32.
    pub ui_mode: Option<u32>,
    /// Field 33.
    pub chat_mode: Option<u32>,
    /// Field 41.
    pub steam2_auth_ticket: Option<Vec<u8>>,
    /// Field 42.
    pub email_address: Option<String>,
    /// Field 43.
    pub rtime32_account_creation: Option<u32>,
    /// Field 50.
    pub account_name: Option<String>,
    /// Field 51.
    pub password: Option<String>,
    /// Field 52.
    pub game_server_token: Option<String>,
    /// Field 60.
    pub login_key: Option<String>,
    /// Field 70.
    pub was_converted_deprecated_msg: Option<bool>,
    /// Field 80.
    pub anon_user_target_account_name: Option<String>,
    /// Field 81.
    pub resolved_user_steam_id: Option<u64>,
    /// Field 82.
    pub eresult_sentryfile: Option<i32>,
    /// Field 83.
    pub sha_sentryfile: Option<Vec<u8>>,
    /// Field 84.
    pub auth_code: Option<String>,
    /// Field 85.
    pub otp_type: Option<i32>,
    /// Field 86.
    pub otp_value: Option<u32>,
    /// Field 87.
    pub otp_identifier: Option<String>,
    /// Field 88.
    pub steam2_ticket_request: Option<bool>,
    /// Field 90.
    pub sony_psn_ticket: Option<Vec<u8>>,
    /// Field 91.
    pub sony_psn_service_id: Option<String>,
    /// Field 92.
    pub create_new_psn_linked_account_if_needed: Option<bool>,
    /// Field 93.
    pub sony_psn_name: Option<String>,
    /// Field 94.
    pub game_server_app_id: Option<i32>,
    /// Field 95.
    pub steamguard_dont_remember_computer: Option<bool>,
    /// Field 96.
    pub machine_name: Option<String>,
    /// Field 97.
    pub machine_name_userchosen: Option<String>,
    /// Field 98.
    pub country_override: Option<String>,
    /// Field 100.
    pub client_instance_id: Option<u64>,
    /// Field 101.
    pub two_factor_code: Option<String>,
    /// Field 102.
    pub supports_rate_limit_response: Option<bool>,
    /// Field 103.
    pub web_logon_nonce: Option<String>,
    /// Field 104.
    pub priority_reason: Option<i32>,
    /// Field 105.
    pub embedded_client_secret: Option<crate::steammessages_clientserver_login::CMsgClientSecret>,
    /// Field 106.
    pub disable_partner_autogrants: Option<bool>,
    /// Field 108.
    pub access_token: Option<String>,
    /// Field 109.
    pub is_chrome_os: Option<bool>,
    /// Field 111.
    pub gaming_device_type: Option<u32>,
}

/// What a `CMsgClientLogon` holds, as mathematical values.
#[verifier::ext_equal]
pub struct SpecCMsgClientLogon {
    pub protocol_version: Option<u32>,
    pub deprecated_obfustucated_private_ip: Option<u32>,
    pub cell_id: Option<u32>,
    pub last_session_id: Option<u32>,
    pub client_package_version: Option<u32>,
    pub client_language: Option<Seq<char>>,
    pub client_os_type: Option<u32>,
    pub should_remember_password: Option<bool>,
    pub wine_version: Option<Seq<char>>,
    pub deprecated_10: Option<u32>,
    pub obfuscated_private_ip: Option<crate::steammessages_base::SpecCMsgIPAddress>,
    pub deprecated_public_ip: Option<u32>,
    pub qos_level: Option<u32>,
    pub client_supplied_steam_id: Option<u64>,
    pub public_ip: Option<crate::steammessages_base::SpecCMsgIPAddress>,
    pub machine_id: Option<Seq<u8>>,
    pub launcher_type: Option<u32>,
    pub ui_mode: Option<u32>,
    pub chat_mode: Option<u32>,
    pub steam2_auth_ticket: Option<Seq<u8>>,
    pub email_address: Option<Seq<char>>,
    pub rtime32_account_creation: Option<u32>,
    pub account_name: Option<Seq<char>>,
    pub password: Option<Seq<char>>,
    pub game_server_token: Option<Seq<char>>,
    pub login_key: Option<Seq<char>>,
    pub was_converted_deprecated_msg: Option<bool>,
    pub anon_user_target_account_name: Option<Seq<char>>,
    pub resolved_user_steam_id: Option<u64>,
    pub eresult_sentryfile: Option<i32>,
    pub sha_sentryfile: Option<Seq<u8>>,
    pub auth_code: Option<Seq<char>>,
    pub otp_type: Option<i32>,
    pub otp_value: Option<u32>,
    pub otp_identifier: Option<Seq<char>>,
    pub steam2_ticket_request: Option<bool>,
    pub sony_psn_ticket: Option<Seq<u8>>,
    pub sony_psn_service_id: Option<Seq<char>>,
    pub create_new_psn_linked_account_if_needed: Option<bool>,
    pub sony_psn_name: Option<Seq<char>>,
    pub game_server_app_id: Option<i32>,
    pub steamguard_dont_remember_computer: Option<bool>,
    pub machine_name: Option<Seq<char>>,
    pub machine_name_userchosen: Option<Seq<char>>,
    pub country_override: Option<Seq<char>>,
    pub client_instance_id: Option<u64>,
    pub two_factor_code: Option<Seq<char>>,
    pub supports_rate_limit_response: Option<bool>,
    pub web_logon_nonce: Option<Seq<char>>,
    pub priority_reason: Option<i32>,
    pub embedded_client_secret: Option<crate::steammessages_clientserver_login::SpecCMsgClientSecret>,
    pub disable_partner_autogrants: Option<bool>,
    pub access_token: Option<Seq<char>>,
    pub is_chrome_os: Option<bool>,
    pub gaming_device_type: Option<u32>,
}

impl View for CMsgClientLogon {
    type V = SpecCMsgClientLogon;

    open spec fn view(&self) -> SpecCMsgClientLogon {
        SpecCMsgClientLogon {
            protocol_version: self.protocol_version,
            deprecated_obfustucated_private_ip: self.deprecated_obfustucated_private_ip,
            cell_id: self.cell_id,
            last_session_id: self.last_session_id,
            client_package_version: self.client_package_version,
            client_language: opt_string_view(self.client_language),
            client_os_type: self.client_os_type,
            should_remember_password: self.should_remember_password,
            wine_version: opt_string_view(self.wine_version),
            deprecated_10: self.deprecated_10,
            obfuscated_private_ip: crate::steammessages_base::CMsgIPAddress::view_opt(self.obfuscated_private_ip),
            deprecated_public_ip: self.deprecated_public_ip,
            qos_level: self.qos_level,
            client_supplied_steam_id: self.client_supplied_steam_id,
            public_ip: crate::steammessages_base::CMsgIPAddress::view_opt(self.public_ip),
            machine_id: opt_bytes_view(self.machine_id),
            launcher_type: self.launcher_type,
            ui_mode: self.ui_mode,
            chat_mode: self.chat_mode,
            steam2_auth_ticket: opt_bytes_view(self.steam2_auth_ticket),
            email_address: opt_string_view(self.email_address),
            rtime32_account_creation: self.rtime32_account_creation,
            account_name: opt_string_view(self.account_name),
            password: opt_string_view(self.password),
            game_server_token: opt_string_view(self.game_server_token),
            login_key: opt_string_view(self.login_key),
            was_converted_deprecated_msg: self.was_converted_deprecated_msg,
            anon_user_target_account_name: opt_string_view(self.anon_user_target_account_name),
            resolved_user_steam_id: self.resolved_user_steam_id,
            eresult_sentryfile: self.eresult_sentryfile,
            sha_sentryfile: opt_bytes_view(self.sha_sentryfile),
            auth_code: opt_string_view(self.auth_code),
            otp_type: self.otp_type,
            otp_value: self.otp_value,
            otp_identifier: opt_string_view(self.otp_identifier),
            steam2_ticket_request: self.steam2_ticket_request,
            sony_psn_ticket: opt_bytes_view(self.sony_psn_ticket),
            sony_psn_service_id: opt_string_view(self.sony_psn_service_id),
            create_new_psn_linked_account_if_needed: self.create_new_psn_linked_account_if_needed,
            sony_psn_name: opt_string_view(self.sony_psn_name),
            game_server_app_id: self.game_server_app_id,
            steamguard_dont_remember_computer: self.steamguard_dont_remember_computer,
            machine_name: opt_string_view(self.machine_name),
            machine_name_userchosen: opt_string_view(self.machine_name_userchosen),
            country_override: opt_string_view(self.country_override),
            client_instance_id: self.client_instance_id,
            two_factor_code: opt_string_view(self.two_factor_code),
            supports_rate_limit_response: self.supports_rate_limit_response,
            web_logon_nonce: opt_string_view(self.web_logon_nonce),
            priority_reason: self.priority_reason,
            embedded_client_secret: crate::steammessages_clientserver_login::CMsgClientSecret::view_opt(self.embedded_client_secret),
            disable_partner_autogrants: self.disable_partner_autogrants,
            access_token: opt_string_view(self.access_token),
            is_chrome_os: self.is_chrome_os,
            gaming_device_type: self.gaming_device_type,
        }
    }
}

impl Default for CMsgClientLogon {
    fn default() -> (r: Self)
        ensures
            r@ == CMsgClientLogon::spec_default(),
    {
        CMsgClientLogon {
            protocol_version: None,
            deprecated_obfustucated_private_ip: None,
            cell_id: None,
            last_session_id: None,
            client_package_version: None,
            client_language: None,
            client_os_type: None,
            should_remember_password: None,
            wine_version: None,
            deprecated_10: None,
            obfuscated_private_ip: None,
            deprecated_public_ip: None,
            qos_level: None,
            client_supplied_steam_id: None,
            public_ip: None,
            machine_id: None,
            launcher_type: None,
            ui_mode: None,
            chat_mode: None,
            steam2_auth_ticket: None,
            email_address: None,
            rtime32_account_creation: None,
            account_name: None,
            password: None,
            game_server_token: None,
            login_key: None,
            was_converted_deprecated_msg: None,
            anon_user_target_account_name: None,
            resolved_user_steam_id: None,
            eresult_sentryfile: None,
            sha_sentryfile: None,
            auth_code: None,
            otp_type: None,
            otp_value: None,
            otp_identifier: None,
            steam2_ticket_request: None,
            sony_psn_ticket: None,
            sony_psn_service_id: None,
            create_new_psn_linked_account_if_needed: None,
            sony_psn_name: None,
            game_server_app_id: None,
            steamguard_dont_remember_computer: None,
            machine_name: None,
            machine_name_userchosen: None,
            country_override: None,
            client_instance_id: None,
            two_factor_code: None,
            supports_rate_limit_response: None,
            web_logon_nonce: None,
            priority_reason: None,
            embedded_client_secret: None,
            disable_partner_autogrants: None,
            access_token: None,
            is_chrome_os: None,
            gaming_device_type: None,
        }
    }
}

impl CMsgClientLogon {
    /// Field 8, or its schema default when absent.
    pub fn should_remember_password_or_default(&self) -> (r: bool)
        ensures
            r == match self.should_remember_password {
                Some(x) => x,
                None => false,
            },
    {
        self.should_remember_password.unwrap_or(false)
    }

    /// Field 31, or its schema default when absent.
    pub fn launcher_type_or_default(&self) -> (r: u32)
        ensures
            r == match self.launcher_type {
                Some(x) => x,
                None => 0u32,
            },
    {
        self.launcher_type.unwrap_or(0u32)
    }

    /// Field 32, or its schema default when absent.
    pub fn ui_mode_or_default(&self) -> (r: u32)
        ensures
            r == match self.ui_mode {
                Some(x) => x,
                None => 0u32,
            },
    {
        self.ui_mode.unwrap_or(0u32)
    }

    /// Field 33, or its schema default when absent.
    pub fn chat_mode_or_default(&self) -> (r: u32)
        ensures
            r == match self.chat_mode {
                Some(x) => x,
                None => 0u32,
            },
    {
        self.chat_mode.unwrap_or(0u32)
    }

    /// Field 70, or its schema default when absent.
    pub fn was_converted_deprecated_msg_or_default(&self) -> (r: bool)
        ensures
            r == match self.was_converted_deprecated_msg {
                Some(x) => x,
                None => false,
            },
    {
        self.was_converted_deprecated_msg.unwrap_or(false)
    }

    /// Field 92, or its schema default when absent.
    pub fn create_new_psn_linked_account_if_needed_or_default(&self) -> (r: bool)
        ensures
            r == match self.create_new_psn_linked_account_if_needed {
                Some(x) => x,
                None => false,
            },
    {
        self.create_new_psn_linked_account_if_needed.unwrap_or(false)
    }

    pub open spec fn spec_default() -> SpecCMsgClientLogon {
        SpecCMsgClientLogon {
            protocol_version: None,
            deprecated_obfustucated_private_ip: None,
            cell_id: None,
            last_session_id: None,
            client_package_version: None,
            client_language: None,
            client_os_type: None,
            should_remember_password: None,
            wine_version: None,
            deprecated_10: None,
            obfuscated_private_ip: None,
            deprecated_public_ip: None,
            qos_level: None,
            client_supplied_steam_id: None,
            public_ip: None,
            machine_id: None,
            launcher_type: None,
            ui_mode: None,
            chat_mode: None,
            steam2_auth_ticket: None,
            email_address: None,
            rtime32_account_creation: None,
            account_name: None,
            password: None,
            game_server_token: None,
            login_key: None,
            was_converted_deprecated_msg: None,
            anon_user_target_account_name: None,
            resolved_user_steam_id: None,
            eresult_sentryfile: None,
            sha_sentryfile: None,
            auth_code: None,
            otp_type: None,
            otp_value: None,
            otp_identifier: None,
            steam2_ticket_request: None,
            sony_psn_ticket: None,
            sony_psn_service_id: None,
            create_new_psn_linked_account_if_needed: None,
            sony_psn_name: None,
            game_server_app_id: None,
            steamguard_dont_remember_computer: None,
            machine_name: None,
            machine_name_userchosen: None,
            country_override: None,
            client_instance_id: None,
            two_factor_code: None,
            supports_rate_limit_response: None,
            web_logon_nonce: None,
            priority_reason: None,
            embedded_client_secret: None,
            disable_partner_autogrants: None,
            access_token: None,
            is_chrome_os: None,
            gaming_device_type: None,
        }
    }

    /// The records a `CMsgClientLogon` is written as, in field order.
    pub open spec fn spec_fields(v: SpecCMsgClientLogon) -> Seq<SpecField> {
        Seq::<SpecField>::empty()
            + opt_u32(1, v.protocol_version)
            + opt_u32(2, v.deprecated_obfustucated_private_ip)
            + opt_u32(3, v.cell_id)
            + opt_u32(4, v.last_session_id)
            + opt_u32(5, v.client_package_version)
            + opt_string(6, v.client_language)
            + opt_u32(7, v.client_os_type)
            + opt_bool(8, v.should_remember_password)
            + opt_string(9, v.wine_version)
            + opt_u32(10, v.deprecated_10)
            + opt_bytes(11, crate::steammessages_base::CMsgIPAddress::spec_encode_opt(v.obfuscated_private_ip))
            + opt_u32(20, v.deprecated_public_ip)
            + opt_u32(21, v.qos_level)
            + opt_fixed64(22, v.client_supplied_steam_id)
            + opt_bytes(23, crate::steammessages_base::CMsgIPAddress::spec_encode_opt(v.public_ip))
            + opt_bytes(30, v.machine_id)
            + opt_u32(31, v.launcher_type)
            + opt_u32(32, v.ui_mode)
            + opt_u32(33, v.chat_mode)
            + opt_bytes(41, v.steam2_auth_ticket)
            + opt_string(42, v.email_address)
            + opt_fixed32(43, v.rtime32_account_creation)
            + opt_string(50, v.account_name)
            + opt_string(51, v.password)
            + opt_string(52, v.game_server_token)
            + opt_string(60, v.login_key)
            + opt_bool(70, v.was_converted_deprecated_msg)
            + opt_string(80, v.anon_user_target_account_name)
            + opt_fixed64(81, v.resolved_user_steam_id)
            + opt_i32(82, v.eresult_sentryfile)
            + opt_bytes(83, v.sha_sentryfile)
            + opt_string(84, v.auth_code)
            + opt_i32(85, v.otp_type)
            + opt_u32(86, v.otp_value)
            + opt_string(87, v.otp_identifier)
            + opt_bool(88, v.steam2_ticket_request)
            + opt_bytes(90, v.sony_psn_ticket)
            + opt_string(91, v.sony_psn_service_id)
            + opt_bool(92, v.create_new_psn_linked_account_if_needed)
            + opt_string(93, v.sony_psn_name)
            + opt_i32(94, v.game_server_app_id)
            + opt_bool(95, v.steamguard_dont_remember_computer)
            + opt_string(96, v.machine_name)
            + opt_string(97, v.machine_name_userchosen)
            + opt_string(98, v.country_override)
            + opt_u64(100, v.client_instance_id)
            + opt_string(101, v.two_factor_code)
            + opt_bool(102, v.supports_rate_limit_response)
            + opt_string(103, v.web_logon_nonce)
            + opt_i32(104, v.priority_reason)
            + opt_bytes(105, crate::steammessages_clientserver_login::CMsgClientSecret::spec_encode_opt(v.embedded_client_secret))
            + opt_bool(106, v.disable_partner_autogrants)
            + opt_string(108, v.access_token)
            + opt_bool(109, v.is_chrome_os)
            + opt_u32(111, v.gaming_device_type)
    }

    #[verifier::opaque]
    pub open spec fn spec_encode(v: SpecCMsgClientLogon) -> Seq<u8> {
        fields_bytes(Self::spec_fields(v))
    }

    /// What one record does to the message: a declared number sets or extends its
    /// field, any other number is left alone.
    pub open spec fn spec_apply(v: SpecCMsgClientLogon, f: SpecField) -> Result<SpecCMsgClientLogon, WireError> {
        match f.number {
            1 => match dec_u32(f.value) {
                Ok(x) => Ok(SpecCMsgClientLogon { protocol_version: Some(x), ..v }),
                Err(e) => Err(e),
            },
            2 => match dec_u32(f.value) {
                Ok(x) => Ok(SpecCMsgClientLogon { deprecated_obfustucated_private_ip: Some(x), ..v }),
                Err(e) => Err(e),
            },
            3 => match dec_u32(f.value) {
                Ok(x) => Ok(SpecCMsgClientLogon { cell_id: Some(x), ..v }),
                Err(e) => Err(e),
            },
            4 => match dec_u32(f.value) {
                Ok(x) => Ok(SpecCMsgClientLogon { last_session_id: Some(x), ..v }),
                Err(e) => Err(e),
            },
            5 => match dec_u32(f.value) {
                Ok(x) => Ok(SpecCMsgClientLogon { client_package_version: Some(x), ..v }),
                Err(e) => Err(e),
            },
            6 => match dec_string(f.value) {
                Ok(x) => Ok(SpecCMsgClientLogon { client_language: Some(x), ..v }),
                Err(e) => Err(e),
            },
            7 => match dec_u32(f.value) {
                Ok(x) => Ok(SpecCMsgClientLogon { client_os_type: Some(x), ..v }),
                Err(e) => Err(e),
            },
            8 => match dec_bool(f.value) {
                Ok(x) => Ok(SpecCMsgClientLogon { should_remember_password: Some(x), ..v }),
                Err(e) => Err(e),
            },
            9 => match dec_string(f.value) {
                Ok(x) => Ok(SpecCMsgClientLogon { wine_version: Some(x), ..v }),
                Err(e) => Err(e),
            },
            10 => match dec_u32(f.value) {
                Ok(x) => Ok(SpecCMsgClientLogon { deprecated_10: Some(x), ..v }),
                Err(e) => Err(e),
            },
            11 => match dec_bytes(f.value) {
                Ok(b) => match crate::steammessages_base::CMsgIPAddress::spec_decode(b) {
                    Ok(m) => Ok(SpecCMsgClientLogon { obfuscated_private_ip: Some(m), ..v }),
                    Err(e) => Err(e),
                },
                Err(e) => Err(e),
            },
            20 => match dec_u32(f.value) {
                Ok(x) => Ok(SpecCMsgClientLogon { deprecated_public_ip: Some(x), ..v }),
                Err(e) => Err(e),
            },
            21 => match dec_u32(f.value) {
                Ok(x) => Ok(SpecCMsgClientLogon { qos_level: Some(x), ..v }),
                Err(e) => Err(e),
            },
            22 => match dec_fixed64(f.value) {
                Ok(x) => Ok(SpecCMsgClientLogon { client_supplied_steam_id: Some(x), ..v }),
                Err(e) => Err(e),
            },
            23 => match dec_bytes(f.value) {
                Ok(b) => match crate::steammessages_base::CMsgIPAddress::spec_decode(b) {
                    Ok(m) => Ok(SpecCMsgClientLogon { public_ip: Some(m), ..v }),
                    Err(e) => Err(e),
                },
                Err(e) => Err(e),
            },
            30 => match dec_bytes(f.value) {
                Ok(x) => Ok(SpecCMsgClientLogon { machine_id: Some(x), ..v }),
                Err(e) => Err(e),
            },
            31 => match dec_u32(f.value) {
                Ok(x) => Ok(SpecCMsgClientLogon { launcher_type: Some(x), ..v }),
                Err(e) => Err(e),
            },
            32 => match dec_u32(f.value) {
                Ok(x) => Ok(SpecCMsgClientLogon { ui_mode: Some(x), ..v }),
                Err(e) => Err(e),
            },
            33 => match dec_u32(f.value) {
                Ok(x) => Ok(SpecCMsgClientLogon { chat_mode: Some(x), ..v }),
                Err(e) => Err(e),
            },
            41 => match dec_bytes(f.value) {
                Ok(x) => Ok(SpecCMsgClientLogon { steam2_auth_ticket: Some(x), ..v }),
                Err(e) => Err(e),
            },
            42 => match dec_string(f.value) {
                Ok(x) => Ok(SpecCMsgClientLogon { email_address: Some(x), ..v }),
                Err(e) => Err(e),
            },
            43 => match dec_fixed32(f.value) {
                Ok(x) => Ok(SpecCMsgClientLogon { rtime32_account_creation: Some(x), ..v }),
                Err(e) => Err(e),
            },
            50 => match dec_string(f.value) {
                Ok(x) => Ok(SpecCMsgClientLogon { account_name: Some(x), ..v }),
                Err(e) => Err(e),
            },
            51 => match dec_string(f.value) {
                Ok(x) => Ok(SpecCMsgClientLogon { password: Some(x), ..v }),
                Err(e) => Err(e),
            },
            52 => match dec_string(f.value) {
                Ok(x) => Ok(SpecCMsgClientLogon { game_server_token: Some(x), ..v }),
                Err(e) => Err(e),
            },
            60 => match dec_string(f.value) {
                Ok(x) => Ok(SpecCMsgClientLogon { login_key: Some(x), ..v }),
                Err(e) => Err(e),
            },
            70 => match dec_bool(f.value) {
                Ok(x) => Ok(SpecCMsgClientLogon { was_converted_deprecated_msg: Some(x), ..v }),
                Err(e) => Err(e),
            },
            80 => match dec_string(f.value) {
                Ok(x) => Ok(SpecCMsgClientLogon { anon_user_target_account_name: Some(x), ..v }),
                Err(e) => Err(e),
            },
            81 => match dec_fixed64(f.value) {
                Ok(x) => Ok(SpecCMsgClientLogon { resolved_user_steam_id: Some(x), ..v }),
                Err(e) => Err(e),
            },
            82 => match dec_i32(f.value) {
                Ok(x) => Ok(SpecCMsgClientLogon { eresult_sentryfile: Some(x), ..v }),
                Err(e) => Err(e),
            },
            83 => match dec_bytes(f.value) {
                Ok(x) => Ok(SpecCMsgClientLogon { sha_sentryfile: Some(x), ..v }),
                Err(e) => Err(e),
            },
            84 => match dec_string(f.value) {
                Ok(x) => Ok(SpecCMsgClientLogon { auth_code: Some(x), ..v }),
                Err(e) => Err(e),
            },
            85 => match dec_i32(f.value) {
                Ok(x) => Ok(SpecCMsgClientLogon { otp_type: Some(x), ..v }),
                Err(e) => Err(e),
            },
            86 => match dec_u32(f.value) {
                Ok(x) => Ok(SpecCMsgClientLogon { otp_value: Some(x), ..v }),
                Err(e) => Err(e),
            },
            87 => match dec_string(f.value) {
                Ok(x) => Ok(SpecCMsgClientLogon { otp_identifier: Some(x), ..v }),
                Err(e) => Err(e),
            },
            88 => match dec_bool(f.value) {
                Ok(x) => Ok(SpecCMsgClientLogon { steam2_ticket_request: Some(x), ..v }),
                Err(e) => Err(e),
            },
            90 => match dec_bytes(f.value) {
                Ok(x) => Ok(SpecCMsgClientLogon { sony_psn_ticket: Some(x), ..v }),
                Err(e) => Err(e),
            },
            91 => match dec_string(f.value) {
                Ok(x) => Ok(SpecCMsgClientLogon { sony_psn_service_id: Some(x), ..v }),
                Err(e) => Err(e),
            },
            92 => match dec_bool(f.value) {
                Ok(x) => Ok(SpecCMsgClientLogon { create_new_psn_linked_account_if_needed: Some(x), ..v }),
                Err(e) => Err(e),
            },
            93 => match dec_string(f.value) {
                Ok(x) => Ok(SpecCMsgClientLogon { sony_psn_name: Some(x), ..v }),
                Err(e) => Err(e),
            },
            94 => match dec_i32(f.value) {
                Ok(x) => Ok(SpecCMsgClientLogon { game_server_app_id: Some(x), ..v }),
                Err(e) => Err(e),
            },
            95 => match dec_bool(f.value) {
                Ok(x) => Ok(SpecCMsgClientLogon { steamguard_dont_remember_computer: Some(x), ..v }),
                Err(e) => Err(e),
            },
            96 => match dec_string(f.value) {
                Ok(x) => Ok(SpecCMsgClientLogon { machine_name: Some(x), ..v }),
                Err(e) => Err(e),
            },
            97 => match dec_string(f.value) {
                Ok(x) => Ok(SpecCMsgClientLogon { machine_name_userchosen: Some(x), ..v }),
                Err(e) => Err(e),
            },
            98 => match dec_string(f.value) {
                Ok(x) => Ok(SpecCMsgClientLogon { country_override: Some(x), ..v }),
                Err(e) => Err(e),
            },
            100 => match dec_u64(f.value) {
                Ok(x) => Ok(SpecCMsgClientLogon { client_instance_id: Some(x), ..v }),
                Err(e) => Err(e),
            },
            101 => match dec_string(f.value) {
                Ok(x) => Ok(SpecCMsgClientLogon { two_factor_code: Some(x), ..v }),
                Err(e) => Err(e),
            },
            102 => match dec_bool(f.value) {
                Ok(x) => Ok(SpecCMsgClientLogon { supports_rate_limit_response: Some(x), ..v }),
                Err(e) => Err(e),
            },
            103 => match dec_string(f.value) {
                Ok(x) => Ok(SpecCMsgClientLogon { web_logon_nonce: Some(x), ..v }),
                Err(e) => Err(e),
            },
            104 => match dec_i32(f.value) {
                Ok(x) => Ok(SpecCMsgClientLogon { priority_reason: Some(x), ..v }),
                Err(e) => Err(e),
            },
            105 => match dec_bytes(f.value) {
                Ok(b) => match crate::steammessages_clientserver_login::CMsgClientSecret::spec_decode(b) {
                    Ok(m) => Ok(SpecCMsgClientLogon { embedded_client_secret: Some(m), ..v }),
                    Err(e) => Err(e),
                },
                Err(e) => Err(e),
            },
            106 => match dec_bool(f.value) {
                Ok(x) => Ok(SpecCMsgClientLogon { disable_partner_autogrants: Some(x), ..v }),
                Err(e) => Err(e),
            },
            108 => match dec_string(f.value) {
                Ok(x) => Ok(SpecCMsgClientLogon { access_token: Some(x), ..v }),
                Err(e) => Err(e),
            },
            109 => match dec_bool(f.value) {
                Ok(x) => Ok(SpecCMsgClientLogon { is_chrome_os: Some(x), ..v }),
                Err(e) => Err(e),
            },
            111 => match dec_u32(f.value) {
                Ok(x) => Ok(SpecCMsgClientLogon { gaming_device_type: Some(x), ..v }),
                Err(e) => Err(e),
            },
            _ => Ok(v),
        }
    }

    pub open spec fn apply_fn() -> spec_fn(SpecCMsgClientLogon, SpecField) -> Result<SpecCMsgClientLogon, WireError> {
        |v: SpecCMsgClientLogon, f: SpecField| Self::spec_apply(v, f)
    }

    /// The message `bytes` makes of `v`: its records applied in order, or the error
    /// that stops the reading.
    pub open spec fn spec_merge(v: SpecCMsgClientLogon, bytes: Seq<u8>) -> Result<SpecCMsgClientLogon, WireError> {
        let (w, stop) = merge_run(v, bytes, Self::apply_fn());
        match stop {
            None => Ok(w),
            Some(e) => Err(e),
        }
    }

    #[verifier::opaque]
    pub open spec fn spec_decode(bytes: Seq<u8>) -> Result<SpecCMsgClientLogon, WireError> {
        Self::spec_merge(Self::spec_default(), bytes)
    }

    /// This message with one record applied to it, or, when the record is refused,
    /// the message unchanged and the reason.
    fn applied(self, f: &Field) -> (r: Result<Self, (Self, WireError)>)
        ensures
            match Self::spec_apply(self@, f@) {
                Ok(v) => r matches Ok(m) && m@ == v,
                Err(e) => r matches Err((m, x)) && x == e && m@ == self@,
            },
    {
        if f.number <= 4 {
            self.applied_0(f)
        } else if f.number <= 8 {
            self.applied_1(f)
        } else if f.number <= 20 {
            self.applied_2(f)
        } else if f.number <= 30 {
            self.applied_3(f)
        } else if f.number <= 41 {
            self.applied_4(f)
        } else if f.number <= 51 {
            self.applied_5(f)
        } else if f.number <= 80 {
            self.applied_6(f)
        } else if f.number <= 84 {
            self.applied_7(f)
        } else if f.number <= 88 {
            self.applied_8(f)
        } else if f.number <= 93 {
            self.applied_9(f)
        } else if f.number <= 97 {
            self.applied_10(f)
        } else if f.number <= 102 {
            self.applied_11(f)
        } else if f.number <= 106 {
            self.applied_12(f)
        } else {
            self.applied_13(f)
        }
    }

    /// `applied`, for the records numbered up to 4.
    #[verifier::rlimit(40)]
    fn applied_0(self, f: &Field) -> (r: Result<Self, (Self, WireError)>)
        requires
            f.number <= 4,
        ensures
            match Self::spec_apply(self@, f@) {
                Ok(v) => r matches Ok(m) && m@ == v,
                Err(e) => r matches Err((m, x)) && x == e && m@ == self@,
            },
    {
        match f.number {
            1 => match read_u32(&f.value) {
                Ok(x) => Ok(Self { protocol_version: Some(x), ..self }),
                Err(e) => Err((self, e)),
            },
            2 => match read_u32(&f.value) {
                Ok(x) => Ok(Self { deprecated_obfustucated_private_ip: Some(x), ..self }),
                Err(e) => Err((self, e)),
            },
            3 => match read_u32(&f.value) {
                Ok(x) => Ok(Self { cell_id: Some(x), ..self }),
                Err(e) => Err((self, e)),
            },
            4 => match read_u32(&f.value) {
                Ok(x) => Ok(Self { last_session_id: Some(x), ..self }),
                Err(e) => Err((self, e)),
            },
            _ => Ok(self),
        }
    }

    /// `applied`, for the records numbered from 5 to 8.
    #[verifier::rlimit(40)]
    fn applied_1(self, f: &Field) -> (r: Result<Self, (Self, WireError)>)
        requires
            4 < f.number,
            f.number <= 8,
        ensures
            match Self::spec_apply(self@, f@) {
                Ok(v) => r matches Ok(m) && m@ == v,
                Err(e) => r matches Err((m, x)) && x == e && m@ == self@,
            },
    {
        match f.number {
            5 => match read_u32(&f.value) {
                Ok(x) => Ok(Self { client_package_version: Some(x), ..self }),
                Err(e) => Err((self, e)),
            },
            6 => match read_string(&f.value) {
                Ok(x) => Ok(Self { client_language: Some(x), ..self }),
                Err(e) => Err((self, e)),
            },
            7 => match read_u32(&f.value) {
                Ok(x) => Ok(Self { client_os_type: Some(x), ..self }),
                Err(e) => Err((self, e)),
            },
            8 => match read_bool(&f.value) {
                Ok(x) => Ok(Self { should_remember_password: Some(x), ..self }),
                Err(e) => Err((self, e)),
            },
            _ => Ok(self),
        }
    }

    /// `applied`, for the records numbered from 9 to 20.
    #[verifier::rlimit(40)]
    fn applied_2(self, f: &Field) -> (r: Result<Self, (Self, WireError)>)
        requires
            8 < f.number,
            f.number <= 20,
        ensures
            match Self::spec_apply(self@, f@) {
                Ok(v) => r matches Ok(m) && m@ == v,
                Err(e) => r matches Err((m, x)) && x == e && m@ == self@,
            },
    {
        match f.number {
            9 => match read_string(&f.value) {
                Ok(x) => Ok(Self { wine_version: Some(x), ..self }),
                Err(e) => Err((self, e)),
            },
            10 => match read_u32(&f.value) {
                Ok(x) => Ok(Self { deprecated_10: Some(x), ..self }),
                Err(e) => Err((self, e)),
            },
            11 => match read_payload(&f.value) {
                Ok(b) => match crate::steammessages_base::CMsgIPAddress::decode(b) {
                    Ok(m) => Ok(Self { obfuscated_private_ip: Some(m), ..self }),
                    Err(e) => Err((self, e)),
                },
                Err(e) => Err((self, e)),
            },
            20 => match read_u32(&f.value) {
                Ok(x) => Ok(Self { deprecated_public_ip: Some(x), ..self }),
                Err(e) => Err((self, e)),
            },
            _ => Ok(self),
        }
    }

    /// `applied`, for the records numbered from 21 to 30.
    #[verifier::rlimit(40)]
    fn applied_3(self, f: &Field) -> (r: Result<Self, (Self, WireError)>)
        requires
            20 < f.number,
            f.number <= 30,
        ensures
            match Self::spec_apply(self@, f@) {
                Ok(v) => r matches Ok(m) && m@ == v,
                Err(e) => r matches Err((m, x)) && x == e && m@ == self@,
            },
    {
        match f.number {
            21 => match read_u32(&f.value) {
                Ok(x) => Ok(Self { qos_level: Some(x), ..self }),
                Err(e) => Err((self, e)),
            },
            22 => match read_fixed64(&f.value) {
                Ok(x) => Ok(Self { client_supplied_steam_id: Some(x), ..self }),
                Err(e) => Err((self, e)),
            },
            23 => match read_payload(&f.value) {
                Ok(b) => match crate::steammessages_base::CMsgIPAddress::decode(b) {
                    Ok(m) => Ok(Self { public_ip: Some(m), ..self }),
                    Err(e) => Err((self, e)),
                },
                Err(e) => Err((self, e)),
            },
            30 => match read_bytes(&f.value) {
                Ok(x) => Ok(Self { machine_id: Some(x), ..self }),
                Err(e) => Err((self, e)),
            },
            _ => Ok(self),
        }
    }

    /// `applied`, for the records numbered from 31 to 41.
    #[verifier::rlimit(40)]
    fn applied_4(self, f: &Field) -> (r: Result<Self, (Self, WireError)>)
        requires
            30 < f.number,
            f.number <= 41,
        ensures
            match Self::spec_apply(self@, f@) {
                Ok(v) => r matches Ok(m) && m@ == v,
                Err(e) => r matches Err((m, x)) && x == e && m@ == self@,
            },
    {
        match f.number {
            31 => match read_u32(&f.value) {
                Ok(x) => Ok(Self { launcher_type: Some(x), ..self }),
                Err(e) => Err((self, e)),
            },
            32 => match read_u32(&f.value) {
                Ok(x) => Ok(Self { ui_mode: Some(x), ..self }),
                Err(e) => Err((self, e)),
            },
            33 => match read_u32(&f.value) {
                Ok(x) => Ok(Self { chat_mode: Some(x), ..self }),
                Err(e) => Err((self, e)),
            },
            41 => match read_bytes(&f.value) {
                Ok(x) => Ok(Self { steam2_auth_ticket: Some(x), ..self }),
                Err(e) => Err((self, e)),
            },
            _ => Ok(self),
        }
    }

    /// `applied`, for the records numbered from 42 to 51.
    #[verifier::rlimit(40)]
    fn applied_5(self, f: &Field) -> (r: Result<Self, (Self, WireError)>)
        requires
            41 < f.number,
            f.number <= 51,
        ensures
            match Self::spec_apply(self@, f@) {
                Ok(v) => r matches Ok(m) && m@ == v,
                Err(e) => r matches Err((m, x)) && x == e && m@ == self@,
            },
    {
        match f.number {
            42 => match read_string(&f.value) {
                Ok(x) => Ok(Self { email_address: Some(x), ..self }),
                Err(e) => Err((self, e)),
            },
            43 => match read_fixed32(&f.value) {
                Ok(x) => Ok(Self { rtime32_account_creation: Some(x), ..self }),
                Err(e) => Err((self, e)),
            },
            50 => match read_string(&f.value) {
                Ok(x) => Ok(Self { account_name: Some(x), ..self }),
                Err(e) => Err((self, e)),
            },
            51 => match read_string(&f.value) {
                Ok(x) => Ok(Self { password: Some(x), ..self }),
                Err(e) => Err((self, e)),
            },
            _ => Ok(self),
        }
    }

    /// `applied`, for the records numbered from 52 to 80.
    #[verifier::rlimit(40)]
    fn applied_6(self, f: &Field) -> (r: Result<Self, (Self, WireError)>)
        requires
            51 < f.number,
            f.number <= 80,
        ensures
            match Self::spec_apply(self@, f@) {
                Ok(v) => r matches Ok(m) && m@ == v,
                Err(e) => r matches Err((m, x)) && x == e && m@ == self@,
            },
    {
        match f.number {
            52 => match read_string(&f.value) {
                Ok(x) => Ok(Self { game_server_token: Some(x), ..self }),
                Err(e) => Err((self, e)),
            },
            60 => match read_string(&f.value) {
                Ok(x) => Ok(Self { login_key: Some(x), ..self }),
                Err(e) => Err((self, e)),
            },
            70 => match read_bool(&f.value) {
                Ok(x) => Ok(Self { was_converted_deprecated_msg: Some(x), ..self }),
                Err(e) => Err((self, e)),
            },
            80 => match read_string(&f.value) {
                Ok(x) => Ok(Self { anon_user_target_account_name: Some(x), ..self }),
                Err(e) => Err((self, e)),
            },
            _ => Ok(self),
        }
    }

    /// `applied`, for the records numbered from 81 to 84.
    #[verifier::rlimit(40)]
    fn applied_7(self, f: &Field) -> (r: Result<Self, (Self, WireError)>)
        requires
            80 < f.number,
            f.number <= 84,
        ensures
            match Self::spec_apply(self@, f@) {
                Ok(v) => r matches Ok(m) && m@ == v,
                Err(e) => r matches Err((m, x)) && x == e && m@ == self@,
            },
    {
        match f.number {
            81 => match read_fixed64(&f.value) {
                Ok(x) => Ok(Self { resolved_user_steam_id: Some(x), ..self }),
                Err(e) => Err((self, e)),
            },
            82 => match read_i32(&f.value) {
                Ok(x) => Ok(Self { eresult_sentryfile: Some(x), ..self }),
                Err(e) => Err((self, e)),
            },
            83 => match read_bytes(&f.value) {
                Ok(x) => Ok(Self { sha_sentryfile: Some(x), ..self }),
                Err(e) => Err((self, e)),
            },
            84 => match read_string(&f.value) {
                Ok(x) => Ok(Self { auth_code: Some(x), ..self }),
                Err(e) => Err((self, e)),
            },
            _ => Ok(self),
        }
    }

    /// `applied`, for the records numbered from 85 to 88.
    #[verifier::rlimit(40)]
    fn applied_8(self, f: &Field) -> (r: Result<Self, (Self, WireError)>)
        requires
            84 < f.number,
            f.number <= 88,
        ensures
            match Self::spec_apply(self@, f@) {
                Ok(v) => r matches Ok(m) && m@ == v,
                Err(e) => r matches Err((m, x)) && x == e && m@ == self@,
            },
    {
        match f.number {
            85 => match read_i32(&f.value) {
                Ok(x) => Ok(Self { otp_type: Some(x), ..self }),
                Err(e) => Err((self, e)),
            },
            86 => match read_u32(&f.value) {
                Ok(x) => Ok(Self { otp_value: Some(x), ..self }),
                Err(e) => Err((self, e)),
            },
            87 => match read_string(&f.value) {
                Ok(x) => Ok(Self { otp_identifier: Some(x), ..self }),
                Err(e) => Err((self, e)),
            },
            88 => match read_bool(&f.value) {
                Ok(x) => Ok(Self { steam2_ticket_request: Some(x), ..self }),
                Err(e) => Err((self, e)),
            },
            _ => Ok(self),
        }
    }

    /// `applied`, for the records numbered from 89 to 93.
    #[verifier::rlimit(40)]
    fn applied_9(self, f: &Field) -> (r: Result<Self, (Self, WireError)>)
        requires
            88 < f.number,
            f.number <= 93,
        ensures
            match Self::spec_apply(self@, f@) {
                Ok(v) => r matches Ok(m) && m@ == v,
                Err(e) => r matches Err((m, x)) && x == e && m@ == self@,
            },
    {
        match f.number {
            90 => match read_bytes(&f.value) {
                Ok(x) => Ok(Self { sony_psn_ticket: Some(x), ..self }),
                Err(e) => Err((self, e)),
            },
            91 => match read_string(&f.value) {
                Ok(x) => Ok(Self { sony_psn_service_id: Some(x), ..self }),
                Err(e) => Err((self, e)),
            },
            92 => match read_bool(&f.value) {
                Ok(x) => Ok(Self { create_new_psn_linked_account_if_needed: Some(x), ..self }),
                Err(e) => Err((self, e)),
            },
            93 => match read_string(&f.value) {
                Ok(x) => Ok(Self { sony_psn_name: Some(x), ..self }),
                Err(e) => Err((self, e)),
            },
            _ => Ok(self),
        }
    }

    /// `applied`, for the records numbered from 94 to 97.
    #[verifier::rlimit(40)]
    fn applied_10(self, f: &Field) -> (r: Result<Self, (Self, WireError)>)
        requires
            93 < f.number,
            f.number <= 97,
        ensures
            match Self::spec_apply(self@, f@) {
                Ok(v) => r matches Ok(m) && m@ == v,
                Err(e) => r matches Err((m, x)) && x == e && m@ == self@,
            },
    {
        match f.number {
            94 => match read_i32(&f.value) {
                Ok(x) => Ok(Self { game_server_app_id: Some(x), ..self }),
                Err(e) => Err((self, e)),
            },
            95 => match read_bool(&f.value) {
                Ok(x) => Ok(Self { steamguard_dont_remember_computer: Some(x), ..self }),
                Err(e) => Err((self, e)),
            },
            96 => match read_string(&f.value) {
                Ok(x) => Ok(Self { machine_name: Some(x), ..self }),
                Err(e) => Err((self, e)),
            },
            97 => match read_string(&f.value) {
                Ok(x) => Ok(Self { machine_name_userchosen: Some(x), ..self }),
                Err(e) => Err((self, e)),
            },
            _ => Ok(self),
        }
    }

    /// `applied`, for the records numbered from 98 to 102.
    #[verifier::rlimit(40)]
    fn applied_11(self, f: &Field) -> (r: Result<Self, (Self, WireError)>)
        requires
            97 < f.number,
            f.number <= 102,
        ensures
            match Self::spec_apply(self@, f@) {
                Ok(v) => r matches Ok(m) && m@ == v,
                Err(e) => r matches Err((m, x)) && x == e && m@ == self@,
            },
    {
        match f.number {
            98 => match read_string(&f.value) {
                Ok(x) => Ok(Self { country_override: Some(x), ..self }),
                Err(e) => Err((self, e)),
            },
            100 => match read_u64(&f.value) {
                Ok(x) => Ok(Self { client_instance_id: Some(x), ..self }),
                Err(e) => Err((self, e)),
            },
            101 => match read_string(&f.value) {
                Ok(x) => Ok(Self { two_factor_code: Some(x), ..self }),
                Err(e) => Err((self, e)),
            },
            102 => match read_bool(&f.value) {
                Ok(x) => Ok(Self { supports_rate_limit_response: Some(x), ..self }),
                Err(e) => Err((self, e)),
            },
            _ => Ok(self),
        }
    }

    /// `applied`, for the records numbered from 103 to 106.
    #[verifier::rlimit(40)]
    fn applied_12(self, f: &Field) -> (r: Result<Self, (Self, WireError)>)
        requires
            102 < f.number,
            f.number <= 106,
        ensures
            match Self::spec_apply(self@, f@) {
                Ok(v) => r matches Ok(m) && m@ == v,
                Err(e) => r matches Err((m, x)) && x == e && m@ == self@,
            },
    {
        match f.number {
            103 => match read_string(&f.value) {
                Ok(x) => Ok(Self { web_logon_nonce: Some(x), ..self }),
                Err(e) => Err((self, e)),
            },
            104 => match read_i32(&f.value) {
                Ok(x) => Ok(Self { priority_reason: Some(x), ..self }),
                Err(e) => Err((self, e)),
            },
            105 => match read_payload(&f.value) {
                Ok(b) => match crate::steammessages_clientserver_login::CMsgClientSecret::decode(b) {
                    Ok(m) => Ok(Self { embedded_client_secret: Some(m), ..self }),
                    Err(e) => Err((self, e)),
                },
                Err(e) => Err((self, e)),
            },
            106 => match read_bool(&f.value) {
                Ok(x) => Ok(Self { disable_partner_autogrants: Some(x), ..self }),
                Err(e) => Err((self, e)),
            },
            _ => Ok(self),
        }
    }

    /// `applied`, for the records numbered above 106.
    #[verifier::rlimit(40)]
    fn applied_13(self, f: &Field) -> (r: Result<Self, (Self, WireError)>)
        requires
            106 < f.number,
        ensures
            match Self::spec_apply(self@, f@) {
                Ok(v) => r matches Ok(m) && m@ == v,
                Err(e) => r matches Err((m, x)) && x == e && m@ == self@,
            },
    {
        match f.number {
            108 => match read_string(&f.value) {
                Ok(x) => Ok(Self { access_token: Some(x), ..self }),
                Err(e) => Err((self, e)),
            },
            109 => match read_bool(&f.value) {
                Ok(x) => Ok(Self { is_chrome_os: Some(x), ..self }),
                Err(e) => Err((self, e)),
            },
            111 => match read_u32(&f.value) {
                Ok(x) => Ok(Self { gaming_device_type: Some(x), ..self }),
                Err(e) => Err((self, e)),
            },
            _ => Ok(self),
        }
    }

    /// Reads the records `bytes` holds into this message, in order. When a record does
    /// not parse or is refused, the reading stops there: the message keeps what the
    /// records before it gave, and the error is returned.
    pub fn merge(&mut self, bytes: &[u8]) -> (r: Result<(), WireError>)
        ensures
            final(self)@ == merge_run(old(self)@, bytes@, Self::apply_fn()).0,
            r == match merge_run(old(self)@, bytes@, Self::apply_fn()).1 {
                None => Ok::<(), WireError>(()),
                Some(e) => Err::<(), WireError>(e),
            },
    {
        let ghost total = merge_run(self@, bytes@, Self::apply_fn());
        let mut cur = Self::default();
        std::mem::swap(&mut cur, self);
        let mut pos: usize = 0;
        assert(bytes@.skip(0) =~= bytes@);
        while pos < bytes.len()
            invariant
                pos <= bytes@.len(),
                total == merge_run(old(self)@, bytes@, Self::apply_fn()),
                merge_run(cur@, bytes@.skip(pos as int), Self::apply_fn()) == total,
            decreases bytes@.len() - pos,
        {
            let ghost s = bytes@.skip(pos as int);
            proof {
                lemma_merge_run_step(cur@, s, Self::apply_fn());
                lemma_parse_field_len(s);
            }
            match read_field(bytes, pos) {
                Ok((f, end)) => {
                    assert(bytes@.skip(end as int) =~= s.skip((end - pos) as int));
                    match cur.applied(&f) {
                        Ok(m) => {
                            cur = m;
                        },
                        Err((m, e)) => {
                            *self = m;
                            return Err(e);
                        },
                    }
                    pos = end;
                },
                Err(e) => {
                    *self = cur;
                    return Err(e);
                },
            }
        }
        assert(bytes@.skip(pos as int) =~= Seq::<u8>::empty());
        proof {
            lemma_merge_run_empty(cur@, Self::apply_fn());
        }
        *self = cur;
        Ok(())
    }

    /// Decodes a message from its encoding.
    pub fn decode(bytes: &[u8]) -> (r: Result<Self, WireError>)
        ensures
            match Self::spec_decode(bytes@) {
                Ok(v) => r matches Ok(m) && m@ == v,
                Err(e) => r matches Err(x) && x == e,
            },
    {
        proof {
            reveal(CMsgClientLogon::spec_decode);
        }
        let mut m = Self::default();
        match m.merge(bytes) {
            Ok(()) => Ok(m),
            Err(e) => Err(e),
        }
    }

    /// The encoding of this message.
    pub fn encode_to_vec(&self) -> (r: Vec<u8>)
        ensures
            r@ == Self::spec_encode(self@),
    {
        let enc_obfuscated_private_ip = crate::steammessages_base::CMsgIPAddress::encode_opt(&self.obfuscated_private_ip);
        let enc_public_ip = crate::steammessages_base::CMsgIPAddress::encode_opt(&self.public_ip);
        let enc_embedded_client_secret = crate::steammessages_clientserver_login::CMsgClientSecret::encode_opt(&self.embedded_client_secret);
        let ghost v = self@;
        let mut out: Vec<u8> = Vec::new();
        let ghost p0 = Seq::<SpecField>::empty();
        put_opt_u32(&mut out, 1, self.protocol_version);
        let ghost p1 = p0 + opt_u32(1, v.protocol_version);
        proof {
            lemma_fields_bytes_concat(p0, opt_u32(1, v.protocol_version));
        }
        put_opt_u32(&mut out, 2, self.deprecated_obfustucated_private_ip);
        let ghost p2 = p1 + opt_u32(2, v.deprecated_obfustucated_private_ip);
        proof {
            lemma_fields_bytes_concat(p1, opt_u32(2, v.deprecated_obfustucated_private_ip));
        }
        put_opt_u32(&mut out, 3, self.cell_id);
        let ghost p3 = p2 + opt_u32(3, v.cell_id);
        proof {
            lemma_fields_bytes_concat(p2, opt_u32(3, v.cell_id));
        }
        put_opt_u32(&mut out, 4, self.last_session_id);
        let ghost p4 = p3 + opt_u32(4, v.last_session_id);
        proof {
            lemma_fields_bytes_concat(p3, opt_u32(4, v.last_session_id));
        }
        put_opt_u32(&mut out, 5, self.client_package_version);
        let ghost p5 = p4 + opt_u32(5, v.client_package_version);
        proof {
            lemma_fields_bytes_concat(p4, opt_u32(5, v.client_package_version));
        }
        put_opt_string(&mut out, 6, &self.client_language);
        let ghost p6 = p5 + opt_string(6, v.client_language);
        proof {
            lemma_fields_bytes_concat(p5, opt_string(6, v.client_language));
        }
        put_opt_u32(&mut out, 7, self.client_os_type);
        let ghost p7 = p6 + opt_u32(7, v.client_os_type);
        proof {
            lemma_fields_bytes_concat(p6, opt_u32(7, v.client_os_type));
        }
        put_opt_bool(&mut out, 8, self.should_remember_password);
        let ghost p8 = p7 + opt_bool(8, v.should_remember_password);
        proof {
            lemma_fields_bytes_concat(p7, opt_bool(8, v.should_remember_password));
        }
        put_opt_string(&mut out, 9, &self.wine_version);
        let ghost p9 = p8 + opt_string(9, v.wine_version);
        proof {
            lemma_fields_bytes_concat(p8, opt_string(9, v.wine_version));
        }
        put_opt_u32(&mut out, 10, self.deprecated_10);
        let ghost p10 = p9 + opt_u32(10, v.deprecated_10);
        proof {
            lemma_fields_bytes_concat(p9, opt_u32(10, v.deprecated_10));
        }
        put_opt_bytes(&mut out, 11, &enc_obfuscated_private_ip);
        let ghost p11 = p10 + opt_bytes(11, crate::steammessages_base::CMsgIPAddress::spec_encode_opt(v.obfuscated_private_ip));
        proof {
            lemma_fields_bytes_concat(p10, opt_bytes(11, crate::steammessages_base::CMsgIPAddress::spec_encode_opt(v.obfuscated_private_ip)));
        }
        put_opt_u32(&mut out, 20, self.deprecated_public_ip);
        let ghost p12 = p11 + opt_u32(20, v.deprecated_public_ip);
        proof {
            lemma_fields_bytes_concat(p11, opt_u32(20, v.deprecated_public_ip));
        }
        put_opt_u32(&mut out, 21, self.qos_level);
        let ghost p13 = p12 + opt_u32(21, v.qos_level);
        proof {
            lemma_fields_bytes_concat(p12, opt_u32(21, v.qos_level));
        }
        put_opt_fixed64(&mut out, 22, self.client_supplied_steam_id);
        let ghost p14 = p13 + opt_fixed64(22, v.client_supplied_steam_id);
        proof {
            lemma_fields_bytes_concat(p13, opt_fixed64(22, v.client_supplied_steam_id));
        }
        put_opt_bytes(&mut out, 23, &enc_public_ip);
        let ghost p15 = p14 + opt_bytes(23, crate::steammessages_base::CMsgIPAddress::spec_encode_opt(v.public_ip));
        proof {
            lemma_fields_bytes_concat(p14, opt_bytes(23, crate::steammessages_base::CMsgIPAddress::spec_encode_opt(v.public_ip)));
        }
        put_opt_bytes(&mut out, 30, &self.machine_id);
        let ghost p16 = p15 + opt_bytes(30, v.machine_id);
        proof {
            lemma_fields_bytes_concat(p15, opt_bytes(30, v.machine_id));
        }
        put_opt_u32(&mut out, 31, self.launcher_type);
        let ghost p17 = p16 + opt_u32(31, v.launcher_type);
        proof {
            lemma_fields_bytes_concat(p16, opt_u32(31, v.launcher_type));
        }
        put_opt_u32(&mut out, 32, self.ui_mode);
        let ghost p18 = p17 + opt_u32(32, v.ui_mode);
        proof {
            lemma_fields_bytes_concat(p17, opt_u32(32, v.ui_mode));
        }
        put_opt_u32(&mut out, 33, self.chat_mode);
        let ghost p19 = p18 + opt_u32(33, v.chat_mode);
        proof {
            lemma_fields_bytes_concat(p18, opt_u32(33, v.chat_mode));
        }
        put_opt_bytes(&mut out, 41, &self.steam2_auth_ticket);
        let ghost p20 = p19 + opt_bytes(41, v.steam2_auth_ticket);
        proof {
            lemma_fields_bytes_concat(p19, opt_bytes(41, v.steam2_auth_ticket));
        }
        put_opt_string(&mut out, 42, &self.email_address);
        let ghost p21 = p20 + opt_string(42, v.email_address);
        proof {
            lemma_fields_bytes_concat(p20, opt_string(42, v.email_address));
        }
        put_opt_fixed32(&mut out, 43, self.rtime32_account_creation);
        let ghost p22 = p21 + opt_fixed32(43, v.rtime32_account_creation);
        proof {
            lemma_fields_bytes_concat(p21, opt_fixed32(43, v.rtime32_account_creation));
        }
        put_opt_string(&mut out, 50, &self.account_name);
        let ghost p23 = p22 + opt_string(50, v.account_name);
        proof {
            lemma_fields_bytes_concat(p22, opt_string(50, v.account_name));
        }
        put_opt_string(&mut out, 51, &self.password);
        let ghost p24 = p23 + opt_string(51, v.password);
        proof {
            lemma_fields_bytes_concat(p23, opt_string(51, v.password));
        }
        put_opt_string(&mut out, 52, &self.game_server_token);
        let ghost p25 = p24 + opt_string(52, v.game_server_token);
        proof {
            lemma_fields_bytes_concat(p24, opt_string(52, v.game_server_token));
        }
        put_opt_string(&mut out, 60, &self.login_key);
        let ghost p26 = p25 + opt_string(60, v.login_key);
        proof {
            lemma_fields_bytes_concat(p25, opt_string(60, v.login_key));
        }
        put_opt_bool(&mut out, 70, self.was_converted_deprecated_msg);
        let ghost p27 = p26 + opt_bool(70, v.was_converted_deprecated_msg);
        proof {
            lemma_fields_bytes_concat(p26, opt_bool(70, v.was_converted_deprecated_msg));
        }
        put_opt_string(&mut out, 80, &self.anon_user_target_account_name);
        let ghost p28 = p27 + opt_string(80, v.anon_user_target_account_name);
        proof {
            lemma_fields_bytes_concat(p27, opt_string(80, v.anon_user_target_account_name));
        }
        put_opt_fixed64(&mut out, 81, self.resolved_user_steam_id);
        let ghost p29 = p28 + opt_fixed64(81, v.resolved_user_steam_id);
        proof {
            lemma_fields_bytes_concat(p28, opt_fixed64(81, v.resolved_user_steam_id));
        }
        put_opt_i32(&mut out, 82, self.eresult_sentryfile);
        let ghost p30 = p29 + opt_i32(82, v.eresult_sentryfile);
        proof {
            lemma_fields_bytes_concat(p29, opt_i32(82, v.eresult_sentryfile));
        }
        put_opt_bytes(&mut out, 83, &self.sha_sentryfile);
        let ghost p31 = p30 + opt_bytes(83, v.sha_sentryfile);
        proof {
            lemma_fields_bytes_concat(p30, opt_bytes(83, v.sha_sentryfile));
        }
        put_opt_string(&mut out, 84, &self.auth_code);
        let ghost p32 = p31 + opt_string(84, v.auth_code);
        proof {
            lemma_fields_bytes_concat(p31, opt_string(84, v.auth_code));
        }
        put_opt_i32(&mut out, 85, self.otp_type);
        let ghost p33 = p32 + opt_i32(85, v.otp_type);
        proof {
            lemma_fields_bytes_concat(p32, opt_i32(85, v.otp_type));
        }
        put_opt_u32(&mut out, 86, self.otp_value);
        let ghost p34 = p33 + opt_u32(86, v.otp_value);
        proof {
            lemma_fields_bytes_concat(p33, opt_u32(86, v.otp_value));
        }
        put_opt_string(&mut out, 87, &self.otp_identifier);
        let ghost p35 = p34 + opt_string(87, v.otp_identifier);
        proof {
            lemma_fields_bytes_concat(p34, opt_string(87, v.otp_identifier));
        }
        put_opt_bool(&mut out, 88, self.steam2_ticket_request);
        let ghost p36 = p35 + opt_bool(88, v.steam2_ticket_request);
        proof {
            lemma_fields_bytes_concat(p35, opt_bool(88, v.steam2_ticket_request));
        }
        put_opt_bytes(&mut out, 90, &self.sony_psn_ticket);
        let ghost p37 = p36 + opt_bytes(90, v.sony_psn_ticket);
        proof {
            lemma_fields_bytes_concat(p36, opt_bytes(90, v.sony_psn_ticket));
        }
        put_opt_string(&mut out, 91, &self.sony_psn_service_id);
        let ghost p38 = p37 + opt_string(91, v.sony_psn_service_id);
        proof {
            lemma_fields_bytes_concat(p37, opt_string(91, v.sony_psn_service_id));
        }
        put_opt_bool(&mut out, 92, self.create_new_psn_linked_account_if_needed);
        let ghost p39 = p38 + opt_bool(92, v.create_new_psn_linked_account_if_needed);
        proof {
            lemma_fields_bytes_concat(p38, opt_bool(92, v.create_new_psn_linked_account_if_needed));
        }
        put_opt_string(&mut out, 93, &self.sony_psn_name);
        let ghost p40 = p39 + opt_string(93, v.sony_psn_name);
        proof {
            lemma_fields_bytes_concat(p39, opt_string(93, v.sony_psn_name));
        }
        put_opt_i32(&mut out, 94, self.game_server_app_id);
        let ghost p41 = p40 + opt_i32(94, v.game_server_app_id);
        proof {
            lemma_fields_bytes_concat(p40, opt_i32(94, v.game_server_app_id));
        }
        put_opt_bool(&mut out, 95, self.steamguard_dont_remember_computer);
        let ghost p42 = p41 + opt_bool(95, v.steamguard_dont_remember_computer);
        proof {
            lemma_fields_bytes_concat(p41, opt_bool(95, v.steamguard_dont_remember_computer));
        }
        put_opt_string(&mut out, 96, &self.machine_name);
        let ghost p43 = p42 + opt_string(96, v.machine_name);
        proof {
            lemma_fields_bytes_concat(p42, opt_string(96, v.machine_name));
        }
        put_opt_string(&mut out, 97, &self.machine_name_userchosen);
        let ghost p44 = p43 + opt_string(97, v.machine_name_userchosen);
        proof {
            lemma_fields_bytes_concat(p43, opt_string(97, v.machine_name_userchosen));
        }
        put_opt_string(&mut out, 98, &self.country_override);
        let ghost p45 = p44 + opt_string(98, v.country_override);
        proof {
            lemma_fields_bytes_concat(p44, opt_string(98, v.country_override));
        }
        put_opt_varint(&mut out, 100, self.client_instance_id);
        let ghost p46 = p45 + opt_u64(100, v.client_instance_id);
        proof {
            lemma_fields_bytes_concat(p45, opt_u64(100, v.client_instance_id));
        }
        put_opt_string(&mut out, 101, &self.two_factor_code);
        let ghost p47 = p46 + opt_string(101, v.two_factor_code);
        proof {
            lemma_fields_bytes_concat(p46, opt_string(101, v.two_factor_code));
        }
        put_opt_bool(&mut out, 102, self.supports_rate_limit_response);
        let ghost p48 = p47 + opt_bool(102, v.supports_rate_limit_response);
        proof {
            lemma_fields_bytes_concat(p47, opt_bool(102, v.supports_rate_limit_response));
        }
        put_opt_string(&mut out, 103, &self.web_logon_nonce);
        let ghost p49 = p48 + opt_string(103, v.web_logon_nonce);
        proof {
            lemma_fields_bytes_concat(p48, opt_string(103, v.web_logon_nonce));
        }
        put_opt_i32(&mut out, 104, self.priority_reason);
        let ghost p50 = p49 + opt_i32(104, v.priority_reason);
        proof {
            lemma_fields_bytes_concat(p49, opt_i32(104, v.priority_reason));
        }
        put_opt_bytes(&mut out, 105, &enc_embedded_client_secret);
        let ghost p51 = p50 + opt_bytes(105, crate::steammessages_clientserver_login::CMsgClientSecret::spec_encode_opt(v.embedded_client_secret));
        proof {
            lemma_fields_bytes_concat(p50, opt_bytes(105, crate::steammessages_clientserver_login::CMsgClientSecret::spec_encode_opt(v.embedded_client_secret)));
        }
        put_opt_bool(&mut out, 106, self.disable_partner_autogrants);
        let ghost p52 = p51 + opt_bool(106, v.disable_partner_autogrants);
        proof {
            lemma_fields_bytes_concat(p51, opt_bool(106, v.disable_partner_autogrants));
        }
        put_opt_string(&mut out, 108, &self.access_token);
        let ghost p53 = p52 + opt_string(108, v.access_token);
        proof {
            lemma_fields_bytes_concat(p52, opt_string(108, v.access_token));
        }
        put_opt_bool(&mut out, 109, self.is_chrome_os);
        let ghost p54 = p53 + opt_bool(109, v.is_chrome_os);
        proof {
            lemma_fields_bytes_concat(p53, opt_bool(109, v.is_chrome_os));
        }
        put_opt_u32(&mut out, 111, self.gaming_device_type);
        let ghost p55 = p54 + opt_u32(111, v.gaming_device_type);
        proof {
            lemma_fields_bytes_concat(p54, opt_u32(111, v.gaming_device_type));
        }
        proof {
            reveal(CMsgClientLogon::spec_encode);
        }
        assert(p55 == Self::spec_fields(v));
        out
    }

    /// Appends the encoding of this message to `out`.
    pub fn encode_raw(&self, out: &mut Vec<u8>)
        ensures
            final(out)@ == old(out)@ + Self::spec_encode(self@),
    {
        let mut b = self.encode_to_vec();
        out.append(&mut b);
    }

    /// The first `k` fields of `v`, the others as a fresh message has them.
    #[verifier::opaque]
    pub open spec fn spec_prefix(v: SpecCMsgClientLogon, k: int) -> SpecCMsgClientLogon {
        SpecCMsgClientLogon {
            protocol_version: if 1 <= k { v.protocol_version } else { None },
            deprecated_obfustucated_private_ip: if 2 <= k { v.deprecated_obfustucated_private_ip } else { None },
            cell_id: if 3 <= k { v.cell_id } else { None },
            last_session_id: if 4 <= k { v.last_session_id } else { None },
            client_package_version: if 5 <= k { v.client_package_version } else { None },
            client_language: if 6 <= k { v.client_language } else { None },
            client_os_type: if 7 <= k { v.client_os_type } else { None },
            should_remember_password: if 8 <= k { v.should_remember_password } else { None },
            wine_version: if 9 <= k { v.wine_version } else { None },
            deprecated_10: if 10 <= k { v.deprecated_10 } else { None },
            obfuscated_private_ip: if 11 <= k { v.obfuscated_private_ip } else { None },
            deprecated_public_ip: if 12 <= k { v.deprecated_public_ip } else { None },
            qos_level: if 13 <= k { v.qos_level } else { None },
            client_supplied_steam_id: if 14 <= k { v.client_supplied_steam_id } else { None },
            public_ip: if 15 <= k { v.public_ip } else { None },
            machine_id: if 16 <= k { v.machine_id } else { None },
            launcher_type: if 17 <= k { v.launcher_type } else { None },
            ui_mode: if 18 <= k { v.ui_mode } else { None },
            chat_mode: if 19 <= k { v.chat_mode } else { None },
            steam2_auth_ticket: if 20 <= k { v.steam2_auth_ticket } else { None },
            email_address: if 21 <= k { v.email_address } else { None },
            rtime32_account_creation: if 22 <= k { v.rtime32_account_creation } else { None },
            account_name: if 23 <= k { v.account_name } else { None },
            password: if 24 <= k { v.password } else { None },
            game_server_token: if 25 <= k { v.game_server_token } else { None },
            login_key: if 26 <= k { v.login_key } else { None },
            was_converted_deprecated_msg: if 27 <= k { v.was_converted_deprecated_msg } else { None },
            anon_user_target_account_name: if 28 <= k { v.anon_user_target_account_name } else { None },
            resolved_user_steam_id: if 29 <= k { v.resolved_user_steam_id } else { None },
            eresult_sentryfile: if 30 <= k { v.eresult_sentryfile } else { None },
            sha_sentryfile: if 31 <= k { v.sha_sentryfile } else { None },
            auth_code: if 32 <= k { v.auth_code } else { None },
            otp_type: if 33 <= k { v.otp_type } else { None },
            otp_value: if 34 <= k { v.otp_value } else { None },
            otp_identifier: if 35 <= k { v.otp_identifier } else { None },
            steam2_ticket_request: if 36 <= k { v.steam2_ticket_request } else { None },
            sony_psn_ticket: if 37 <= k { v.sony_psn_ticket } else { None },
            sony_psn_service_id: if 38 <= k { v.sony_psn_service_id } else { None },
            create_new_psn_linked_account_if_needed: if 39 <= k { v.create_new_psn_linked_account_if_needed } else { None },
            sony_psn_name: if 40 <= k { v.sony_psn_name } else { None },
            game_server_app_id: if 41 <= k { v.game_server_app_id } else { None },
            steamguard_dont_remember_computer: if 42 <= k { v.steamguard_dont_remember_computer } else { None },
            machine_name: if 43 <= k { v.machine_name } else { None },
            machine_name_userchosen: if 44 <= k { v.machine_name_userchosen } else { None },
            country_override: if 45 <= k { v.country_override } else { None },
            client_instance_id: if 46 <= k { v.client_instance_id } else { None },
            two_factor_code: if 47 <= k { v.two_factor_code } else { None },
            supports_rate_limit_response: if 48 <= k { v.supports_rate_limit_response } else { None },
            web_logon_nonce: if 49 <= k { v.web_logon_nonce } else { None },
            priority_reason: if 50 <= k { v.priority_reason } else { None },
            embedded_client_secret: if 51 <= k { v.embedded_client_secret } else { None },
            disable_partner_autogrants: if 52 <= k { v.disable_partner_autogrants } else { None },
            access_token: if 53 <= k { v.access_token } else { None },
            is_chrome_os: if 54 <= k { v.is_chrome_os } else { None },
            gaming_device_type: if 55 <= k { v.gaming_device_type } else { None },
        }
    }

    /// Reading field 1 back, after the fields before it.
    proof fn lemma_field_protocol_version(v: SpecCMsgClientLogon)
        ensures
            fold_fields(Self::spec_prefix(v, 0), opt_u32(1, v.protocol_version), Self::apply_fn())
                == Ok::<SpecCMsgClientLogon, WireError>(Self::spec_prefix(v, 1)),
    {
        reveal(CMsgClientLogon::spec_prefix);
        reveal(opt_u32);
        let apply = Self::apply_fn();
        let s = Self::spec_prefix(v, 0);
        lemma_fold_opt(s, 1, match v.protocol_version { Some(x) => Some(enc_u32(x)), None => None }, apply);
        if let Some(x) = v.protocol_version {
            lemma_u32_roundtrip(x);
        }
        assert(SpecCMsgClientLogon { protocol_version: v.protocol_version, ..s } == Self::spec_prefix(v, 1));
    }

    /// Reading field 2 back, after the fields before it.
    proof fn lemma_field_deprecated_obfustucated_private_ip(v: SpecCMsgClientLogon)
        ensures
            fold_fields(Self::spec_prefix(v, 1), opt_u32(2, v.deprecated_obfustucated_private_ip), Self::apply_fn())
                == Ok::<SpecCMsgClientLogon, WireError>(Self::spec_prefix(v, 2)),
    {
        reveal(CMsgClientLogon::spec_prefix);
        reveal(opt_u32);
        let apply = Self::apply_fn();
        let s = Self::spec_prefix(v, 1);
        lemma_fold_opt(s, 2, match v.deprecated_obfustucated_private_ip { Some(x) => Some(enc_u32(x)), None => None }, apply);
        if let Some(x) = v.deprecated_obfustucated_private_ip {
            lemma_u32_roundtrip(x);
        }
        assert(SpecCMsgClientLogon { deprecated_obfustucated_private_ip: v.deprecated_obfustucated_private_ip, ..s } == Self::spec_prefix(v, 2));
    }

    /// Reading field 3 back, after the fields before it.
    proof fn lemma_field_cell_id(v: SpecCMsgClientLogon)
        ensures
            fold_fields(Self::spec_prefix(v, 2), opt_u32(3, v.cell_id), Self::apply_fn())
                == Ok::<SpecCMsgClientLogon, WireError>(Self::spec_prefix(v, 3)),
    {
        reveal(CMsgClientLogon::spec_prefix);
        reveal(opt_u32);
        let apply = Self::apply_fn();
        let s = Self::spec_prefix(v, 2);
        lemma_fold_opt(s, 3, match v.cell_id { Some(x) => Some(enc_u32(x)), None => None }, apply);
        if let Some(x) = v.cell_id {
            lemma_u32_roundtrip(x);
        }
        assert(SpecCMsgClientLogon { cell_id: v.cell_id, ..s } == Self::spec_prefix(v, 3));
    }

    /// Reading field 4 back, after the fields before it.
    proof fn lemma_field_last_session_id(v: SpecCMsgClientLogon)
        ensures
            fold_fields(Self::spec_prefix(v, 3), opt_u32(4, v.last_session_id), Self::apply_fn())
                == Ok::<SpecCMsgClientLogon, WireError>(Self::spec_prefix(v, 4)),
    {
        reveal(CMsgClientLogon::spec_prefix);
        reveal(opt_u32);
        let apply = Self::apply_fn();
        let s = Self::spec_prefix(v, 3);
        lemma_fold_opt(s, 4, match v.last_session_id { Some(x) => Some(enc_u32(x)), None => None }, apply);
        if let Some(x) = v.last_session_id {
            lemma_u32_roundtrip(x);
        }
        assert(SpecCMsgClientLogon { last_session_id: v.last_session_id, ..s } == Self::spec_prefix(v, 4));
    }

    /// Reading field 5 back, after the fields before it.
    proof fn lemma_field_client_package_version(v: SpecCMsgClientLogon)
        ensures
            fold_fields(Self::spec_prefix(v, 4), opt_u32(5, v.client_package_version), Self::apply_fn())
                == Ok::<SpecCMsgClientLogon, WireError>(Self::spec_prefix(v, 5)),
    {
        reveal(CMsgClientLogon::spec_prefix);
        reveal(opt_u32);
        let apply = Self::apply_fn();
        let s = Self::spec_prefix(v, 4);
        lemma_fold_opt(s, 5, match v.client_package_version { Some(x) => Some(enc_u32(x)), None => None }, apply);
        if let Some(x) = v.client_package_version {
            lemma_u32_roundtrip(x);
        }
        assert(SpecCMsgClientLogon { client_package_version: v.client_package_version, ..s } == Self::spec_prefix(v, 5));
    }

    /// Reading field 6 back, after the fields before it.
    proof fn lemma_field_client_language(v: SpecCMsgClientLogon)
        ensures
            fold_fields(Self::spec_prefix(v, 5), opt_string(6, v.client_language), Self::apply_fn())
                == Ok::<SpecCMsgClientLogon, WireError>(Self::spec_prefix(v, 6)),
    {
        reveal(CMsgClientLogon::spec_prefix);
        reveal(opt_string);
        let apply = Self::apply_fn();
        let s = Self::spec_prefix(v, 5);
        lemma_fold_opt(s, 6, match v.client_language { Some(x) => Some(enc_string(x)), None => None }, apply);
        if let Some(x) = v.client_language {
            lemma_string_roundtrip(x);
        }
        assert(SpecCMsgClientLogon { client_language: v.client_language, ..s } == Self::spec_prefix(v, 6));
    }

    /// Reading field 7 back, after the fields before it.
    proof fn lemma_field_client_os_type(v: SpecCMsgClientLogon)
        ensures
            fold_fields(Self::spec_prefix(v, 6), opt_u32(7, v.client_os_type), Self::apply_fn())
                == Ok::<SpecCMsgClientLogon, WireError>(Self::spec_prefix(v, 7)),
    {
        reveal(CMsgClientLogon::spec_prefix);
        reveal(opt_u32);
        let apply = Self::apply_fn();
        let s = Self::spec_prefix(v, 6);
        lemma_fold_opt(s, 7, match v.client_os_type { Some(x) => Some(enc_u32(x)), None => None }, apply);
        if let Some(x) = v.client_os_type {
            lemma_u32_roundtrip(x);
        }
        assert(SpecCMsgClientLogon { client_os_type: v.client_os_type, ..s } == Self::spec_prefix(v, 7));
    }

    /// Reading field 8 back, after the fields before it.
    proof fn lemma_field_should_remember_password(v: SpecCMsgClientLogon)
        ensures
            fold_fields(Self::spec_prefix(v, 7), opt_bool(8, v.should_remember_password), Self::apply_fn())
                == Ok::<SpecCMsgClientLogon, WireError>(Self::spec_prefix(v, 8)),
    {
        reveal(CMsgClientLogon::spec_prefix);
        reveal(opt_bool);
        let apply = Self::apply_fn();
        let s = Self::spec_prefix(v, 7);
        lemma_fold_opt(s, 8, match v.should_remember_password { Some(x) => Some(enc_bool(x)), None => None }, apply);
        assert(SpecCMsgClientLogon { should_remember_password: v.should_remember_password, ..s } == Self::spec_prefix(v, 8));
    }

    /// Reading field 9 back, after the fields before it.
    proof fn lemma_field_wine_version(v: SpecCMsgClientLogon)
        ensures
            fold_fields(Self::spec_prefix(v, 8), opt_string(9, v.wine_version), Self::apply_fn())
                == Ok::<SpecCMsgClientLogon, WireError>(Self::spec_prefix(v, 9)),
    {
        reveal(CMsgClientLogon::spec_prefix);
        reveal(opt_string);
        let apply = Self::apply_fn();
        let s = Self::spec_prefix(v, 8);
        lemma_fold_opt(s, 9, match v.wine_version { Some(x) => Some(enc_string(x)), None => None }, apply);
        if let Some(x) = v.wine_version {
            lemma_string_roundtrip(x);
        }
        assert(SpecCMsgClientLogon { wine_version: v.wine_version, ..s } == Self::spec_prefix(v, 9));
    }

    /// Reading field 10 back, after the fields before it.
    proof fn lemma_field_deprecated_10(v: SpecCMsgClientLogon)
        ensures
            fold_fields(Self::spec_prefix(v, 9), opt_u32(10, v.deprecated_10), Self::apply_fn())
                == Ok::<SpecCMsgClientLogon, WireError>(Self::spec_prefix(v, 10)),
    {
        reveal(CMsgClientLogon::spec_prefix);
        reveal(opt_u32);
        let apply = Self::apply_fn();
        let s = Self::spec_prefix(v, 9);
        lemma_fold_opt(s, 10, match v.deprecated_10 { Some(x) => Some(enc_u32(x)), None => None }, apply);
        if let Some(x) = v.deprecated_10 {
            lemma_u32_roundtrip(x);
        }
        assert(SpecCMsgClientLogon { deprecated_10: v.deprecated_10, ..s } == Self::spec_prefix(v, 10));
    }

    /// Reading field 11 back, after the fields before it.
    proof fn lemma_field_obfuscated_private_ip(v: SpecCMsgClientLogon)
        requires
            fields_wf(opt_bytes(11, crate::steammessages_base::CMsgIPAddress::spec_encode_opt(v.obfuscated_private_ip))),
        ensures
            fold_fields(Self::spec_prefix(v, 10), opt_bytes(11, crate::steammessages_base::CMsgIPAddress::spec_encode_opt(v.obfuscated_private_ip)), Self::apply_fn())
                == Ok::<SpecCMsgClientLogon, WireError>(Self::spec_prefix(v, 11)),
    {
        reveal(CMsgClientLogon::spec_prefix);
        reveal(opt_bytes);
        reveal(fields_wf);
        let apply = Self::apply_fn();
        let s = Self::spec_prefix(v, 10);
        lemma_fold_opt(s, 11, match crate::steammessages_base::CMsgIPAddress::spec_encode_opt(v.obfuscated_private_ip) { Some(x) => Some(enc_bytes(x)), None => None }, apply);
        if let Some(m) = v.obfuscated_private_ip {
            assert(field_wf(opt_bytes(11, crate::steammessages_base::CMsgIPAddress::spec_encode_opt(v.obfuscated_private_ip))[0]));
            crate::steammessages_base::CMsgIPAddress::lemma_decode_encode(m);
        }
        assert(SpecCMsgClientLogon { obfuscated_private_ip: v.obfuscated_private_ip, ..s } == Self::spec_prefix(v, 11));
    }

    /// Reading field 20 back, after the fields before it.
    proof fn lemma_field_deprecated_public_ip(v: SpecCMsgClientLogon)
        ensures
            fold_fields(Self::spec_prefix(v, 11), opt_u32(20, v.deprecated_public_ip), Self::apply_fn())
                == Ok::<SpecCMsgClientLogon, WireError>(Self::spec_prefix(v, 12)),
    {
        reveal(CMsgClientLogon::spec_prefix);
        reveal(opt_u32);
        let apply = Self::apply_fn();
        let s = Self::spec_prefix(v, 11);
        lemma_fold_opt(s, 20, match v.deprecated_public_ip { Some(x) => Some(enc_u32(x)), None => None }, apply);
        if let Some(x) = v.deprecated_public_ip {
            lemma_u32_roundtrip(x);
        }
        assert(SpecCMsgClientLogon { deprecated_public_ip: v.deprecated_public_ip, ..s } == Self::spec_prefix(v, 12));
    }

    /// Reading field 21 back, after the fields before it.
    proof fn lemma_field_qos_level(v: SpecCMsgClientLogon)
        ensures
            fold_fields(Self::spec_prefix(v, 12), opt_u32(21, v.qos_level), Self::apply_fn())
                == Ok::<SpecCMsgClientLogon, WireError>(Self::spec_prefix(v, 13)),
    {
        reveal(CMsgClientLogon::spec_prefix);
        reveal(opt_u32);
        let apply = Self::apply_fn();
        let s = Self::spec_prefix(v, 12);
        lemma_fold_opt(s, 21, match v.qos_level { Some(x) => Some(enc_u32(x)), None => None }, apply);
        if let Some(x) = v.qos_level {
            lemma_u32_roundtrip(x);
        }
        assert(SpecCMsgClientLogon { qos_level: v.qos_level, ..s } == Self::spec_prefix(v, 13));
    }

    /// Reading field 22 back, after the fields before it.
    proof fn lemma_field_client_supplied_steam_id(v: SpecCMsgClientLogon)
        ensures
            fold_fields(Self::spec_prefix(v, 13), opt_fixed64(22, v.client_supplied_steam_id), Self::apply_fn())
                == Ok::<SpecCMsgClientLogon, WireError>(Self::spec_prefix(v, 14)),
    {
        reveal(CMsgClientLogon::spec_prefix);
        reveal(opt_fixed64);
        let apply = Self::apply_fn();
        let s = Self::spec_prefix(v, 13);
        lemma_fold_opt(s, 22, match v.client_supplied_steam_id { Some(x) => Some(enc_fixed64(x)), None => None }, apply);
        if let Some(x) = v.client_supplied_steam_id {
            lemma_u64_roundtrip(x);
        }
        assert(SpecCMsgClientLogon { client_supplied_steam_id: v.client_supplied_steam_id, ..s } == Self::spec_prefix(v, 14));
    }

    /// Reading field 23 back, after the fields before it.
    proof fn lemma_field_public_ip(v: SpecCMsgClientLogon)
        requires
            fields_wf(opt_bytes(23, crate::steammessages_base::CMsgIPAddress::spec_encode_opt(v.public_ip))),
        ensures
            fold_fields(Self::spec_prefix(v, 14), opt_bytes(23, crate::steammessages_base::CMsgIPAddress::spec_encode_opt(v.public_ip)), Self::apply_fn())
                == Ok::<SpecCMsgClientLogon, WireError>(Self::spec_prefix(v, 15)),
    {
        reveal(CMsgClientLogon::spec_prefix);
        reveal(opt_bytes);
        reveal(fields_wf);
        let apply = Self::apply_fn();
        let s = Self::spec_prefix(v, 14);
        lemma_fold_opt(s, 23, match crate::steammessages_base::CMsgIPAddress::spec_encode_opt(v.public_ip) { Some(x) => Some(enc_bytes(x)), None => None }, apply);
        if let Some(m) = v.public_ip {
            assert(field_wf(opt_bytes(23, crate::steammessages_base::CMsgIPAddress::spec_encode_opt(v.public_ip))[0]));
            crate::steammessages_base::CMsgIPAddress::lemma_decode_encode(m);
        }
        assert(SpecCMsgClientLogon { public_ip: v.public_ip, ..s } == Self::spec_prefix(v, 15));
    }

    /// Reading field 30 back, after the fields before it.
    proof fn lemma_field_machine_id(v: SpecCMsgClientLogon)
        ensures
            fold_fields(Self::spec_prefix(v, 15), opt_bytes(30, v.machine_id), Self::apply_fn())
                == Ok::<SpecCMsgClientLogon, WireError>(Self::spec_prefix(v, 16)),
    {
        reveal(CMsgClientLogon::spec_prefix);
        reveal(opt_bytes);
        let apply = Self::apply_fn();
        let s = Self::spec_prefix(v, 15);
        lemma_fold_opt(s, 30, match v.machine_id { Some(x) => Some(enc_bytes(x)), None => None }, apply);
        assert(SpecCMsgClientLogon { machine_id: v.machine_id, ..s } == Self::spec_prefix(v, 16));
    }

    /// Reading field 31 back, after the fields before it.
    proof fn lemma_field_launcher_type(v: SpecCMsgClientLogon)
        ensures
            fold_fields(Self::spec_prefix(v, 16), opt_u32(31, v.launcher_type), Self::apply_fn())
                == Ok::<SpecCMsgClientLogon, WireError>(Self::spec_prefix(v, 17)),
    {
        reveal(CMsgClientLogon::spec_prefix);
        reveal(opt_u32);
        let apply = Self::apply_fn();
        let s = Self::spec_prefix(v, 16);
        lemma_fold_opt(s, 31, match v.launcher_type { Some(x) => Some(enc_u32(x)), None => None }, apply);
        if let Some(x) = v.launcher_type {
            lemma_u32_roundtrip(x);
        }
        assert(SpecCMsgClientLogon { launcher_type: v.launcher_type, ..s } == Self::spec_prefix(v, 17));
    }

    /// Reading field 32 back, after the fields before it.
    proof fn lemma_field_ui_mode(v: SpecCMsgClientLogon)
        ensures
            fold_fields(Self::spec_prefix(v, 17), opt_u32(32, v.ui_mode), Self::apply_fn())
                == Ok::<SpecCMsgClientLogon, WireError>(Self::spec_prefix(v, 18)),
    {
        reveal(CMsgClientLogon::spec_prefix);
        reveal(opt_u32);
        let apply = Self::apply_fn();
        let s = Self::spec_prefix(v, 17);
        lemma_fold_opt(s, 32, match v.ui_mode { Some(x) => Some(enc_u32(x)), None => None }, apply);
        if let Some(x) = v.ui_mode {
            lemma_u32_roundtrip(x);
        }
        assert(SpecCMsgClientLogon { ui_mode: v.ui_mode, ..s } == Self::spec_prefix(v, 18));
    }

    /// Reading field 33 back, after the fields before it.
    proof fn lemma_field_chat_mode(v: SpecCMsgClientLogon)
        ensures
            fold_fields(Self::spec_prefix(v, 18), opt_u32(33, v.chat_mode), Self::apply_fn())
                == Ok::<SpecCMsgClientLogon, WireError>(Self::spec_prefix(v, 19)),
    {
        reveal(CMsgClientLogon::spec_prefix);
        reveal(opt_u32);
        let apply = Self::apply_fn();
        let s = Self::spec_prefix(v, 18);
        lemma_fold_opt(s, 33, match v.chat_mode { Some(x) => Some(enc_u32(x)), None => None }, apply);
        if let Some(x) = v.chat_mode {
            lemma_u32_roundtrip(x);
        }
        assert(SpecCMsgClientLogon { chat_mode: v.chat_mode, ..s } == Self::spec_prefix(v, 19));
    }

    /// Reading field 41 back, after the fields before it.
    proof fn lemma_field_steam2_auth_ticket(v: SpecCMsgClientLogon)
        ensures
            fold_fields(Self::spec_prefix(v, 19), opt_bytes(41, v.steam2_auth_ticket), Self::apply_fn())
                == Ok::<SpecCMsgClientLogon, WireError>(Self::spec_prefix(v, 20)),
    {
        reveal(CMsgClientLogon::spec_prefix);
        reveal(opt_bytes);
        let apply = Self::apply_fn();
        let s = Self::spec_prefix(v, 19);
        lemma_fold_opt(s, 41, match v.steam2_auth_ticket { Some(x) => Some(enc_bytes(x)), None => None }, apply);
        assert(SpecCMsgClientLogon { steam2_auth_ticket: v.steam2_auth_ticket, ..s } == Self::spec_prefix(v, 20));
    }

    /// Reading field 42 back, after the fields before it.
    proof fn lemma_field_email_address(v: SpecCMsgClientLogon)
        ensures
            fold_fields(Self::spec_prefix(v, 20), opt_string(42, v.email_address), Self::apply_fn())
                == Ok::<SpecCMsgClientLogon, WireError>(Self::spec_prefix(v, 21)),
    {
        reveal(CMsgClientLogon::spec_prefix);
        reveal(opt_string);
        let apply = Self::apply_fn();
        let s = Self::spec_prefix(v, 20);
        lemma_fold_opt(s, 42, match v.email_address { Some(x) => Some(enc_string(x)), None => None }, apply);
        if let Some(x) = v.email_address {
            lemma_string_roundtrip(x);
        }
        assert(SpecCMsgClientLogon { email_address: v.email_address, ..s } == Self::spec_prefix(v, 21));
    }

    /// Reading field 43 back, after the fields before it.
    proof fn lemma_field_rtime32_account_creation(v: SpecCMsgClientLogon)
        ensures
            fold_fields(Self::spec_prefix(v, 21), opt_fixed32(43, v.rtime32_account_creation), Self::apply_fn())
                == Ok::<SpecCMsgClientLogon, WireError>(Self::spec_prefix(v, 22)),
    {
        reveal(CMsgClientLogon::spec_prefix);
        reveal(opt_fixed32);
        let apply = Self::apply_fn();
        let s = Self::spec_prefix(v, 21);
        lemma_fold_opt(s, 43, match v.rtime32_account_creation { Some(x) => Some(enc_fixed32(x)), None => None }, apply);
        assert(SpecCMsgClientLogon { rtime32_account_creation: v.rtime32_account_creation, ..s } == Self::spec_prefix(v, 22));
    }

    /// Reading field 50 back, after the fields before it.
    proof fn lemma_field_account_name(v: SpecCMsgClientLogon)
        ensures
            fold_fields(Self::spec_prefix(v, 22), opt_string(50, v.account_name), Self::apply_fn())
                == Ok::<SpecCMsgClientLogon, WireError>(Self::spec_prefix(v, 23)),
    {
        reveal(CMsgClientLogon::spec_prefix);
        reveal(opt_string);
        let apply = Self::apply_fn();
        let s = Self::spec_prefix(v, 22);
        lemma_fold_opt(s, 50, match v.account_name { Some(x) => Some(enc_string(x)), None => None }, apply);
        if let Some(x) = v.account_name {
            lemma_string_roundtrip(x);
        }
        assert(SpecCMsgClientLogon { account_name: v.account_name, ..s } == Self::spec_prefix(v, 23));
    }

    /// Reading field 51 back, after the fields before it.
    proof fn lemma_field_password(v: SpecCMsgClientLogon)
        ensures
            fold_fields(Self::spec_prefix(v, 23), opt_string(51, v.password), Self::apply_fn())
                == Ok::<SpecCMsgClientLogon, WireError>(Self::spec_prefix(v, 24)),
    {
        reveal(CMsgClientLogon::spec_prefix);
        reveal(opt_string);
        let apply = Self::apply_fn();
        let s = Self::spec_prefix(v, 23);
        lemma_fold_opt(s, 51, match v.password { Some(x) => Some(enc_string(x)), None => None }, apply);
        if let Some(x) = v.password {
            lemma_string_roundtrip(x);
        }
        assert(SpecCMsgClientLogon { password: v.password, ..s } == Self::spec_prefix(v, 24));
    }

    /// Reading field 52 back, after the fields before it.
    proof fn lemma_field_game_server_token(v: SpecCMsgClientLogon)
        ensures
            fold_fields(Self::spec_prefix(v, 24), opt_string(52, v.game_server_token), Self::apply_fn())
                == Ok::<SpecCMsgClientLogon, WireError>(Self::spec_prefix(v, 25)),
    {
        reveal(CMsgClientLogon::spec_prefix);
        reveal(opt_string);
        let apply = Self::apply_fn();
        let s = Self::spec_prefix(v, 24);
        lemma_fold_opt(s, 52, match v.game_server_token { Some(x) => Some(enc_string(x)), None => None }, apply);
        if let Some(x) = v.game_server_token {
            lemma_string_roundtrip(x);
        }
        assert(SpecCMsgClientLogon { game_server_token: v.game_server_token, ..s } == Self::spec_prefix(v, 25));
    }

    /// Reading field 60 back, after the fields before it.
    proof fn lemma_field_login_key(v: SpecCMsgClientLogon)
        ensures
            fold_fields(Self::spec_prefix(v, 25), opt_string(60, v.login_key), Self::apply_fn())
                == Ok::<SpecCMsgClientLogon, WireError>(Self::spec_prefix(v, 26)),
    {
        reveal(CMsgClientLogon::spec_prefix);
        reveal(opt_string);
        let apply = Self::apply_fn();
        let s = Self::spec_prefix(v, 25);
        lemma_fold_opt(s, 60, match v.login_key { Some(x) => Some(enc_string(x)), None => None }, apply);
        if let Some(x) = v.login_key {
            lemma_string_roundtrip(x);
        }
        assert(SpecCMsgClientLogon { login_key: v.login_key, ..s } == Self::spec_prefix(v, 26));
    }

    /// Reading field 70 back, after the fields before it.
    proof fn lemma_field_was_converted_deprecated_msg(v: SpecCMsgClientLogon)
        ensures
            fold_fields(Self::spec_prefix(v, 26), opt_bool(70, v.was_converted_deprecated_msg), Self::apply_fn())
                == Ok::<SpecCMsgClientLogon, WireError>(Self::spec_prefix(v, 27)),
    {
        reveal(CMsgClientLogon::spec_prefix);
        reveal(opt_bool);
        let apply = Self::apply_fn();
        let s = Self::spec_prefix(v, 26);
        lemma_fold_opt(s, 70, match v.was_converted_deprecated_msg { Some(x) => Some(enc_bool(x)), None => None }, apply);
        assert(SpecCMsgClientLogon { was_converted_deprecated_msg: v.was_converted_deprecated_msg, ..s } == Self::spec_prefix(v, 27));
    }

    /// Reading field 80 back, after the fields before it.
    proof fn lemma_field_anon_user_target_account_name(v: SpecCMsgClientLogon)
        ensures
            fold_fields(Self::spec_prefix(v, 27), opt_string(80, v.anon_user_target_account_name), Self::apply_fn())
                == Ok::<SpecCMsgClientLogon, WireError>(Self::spec_prefix(v, 28)),
    {
        reveal(CMsgClientLogon::spec_prefix);
        reveal(opt_string);
        let apply = Self::apply_fn();
        let s = Self::spec_prefix(v, 27);
        lemma_fold_opt(s, 80, match v.anon_user_target_account_name { Some(x) => Some(enc_string(x)), None => None }, apply);
        if let Some(x) = v.anon_user_target_account_name {
            lemma_string_roundtrip(x);
        }
        assert(SpecCMsgClientLogon { anon_user_target_account_name: v.anon_user_target_account_name, ..s } == Self::spec_prefix(v, 28));
    }

    /// Reading field 81 back, after the fields before it.
    proof fn lemma_field_resolved_user_steam_id(v: SpecCMsgClientLogon)
        ensures
            fold_fields(Self::spec_prefix(v, 28), opt_fixed64(81, v.resolved_user_steam_id), Self::apply_fn())
                == Ok::<SpecCMsgClientLogon, WireError>(Self::spec_prefix(v, 29)),
    {
        reveal(CMsgClientLogon::spec_prefix);
        reveal(opt_fixed64);
        let apply = Self::apply_fn();
        let s = Self::spec_prefix(v, 28);
        lemma_fold_opt(s, 81, match v.resolved_user_steam_id { Some(x) => Some(enc_fixed64(x)), None => None }, apply);
        if let Some(x) = v.resolved_user_steam_id {
            lemma_u64_roundtrip(x);
        }
        assert(SpecCMsgClientLogon { resolved_user_steam_id: v.resolved_user_steam_id, ..s } == Self::spec_prefix(v, 29));
    }

    /// Reading field 82 back, after the fields before it.
    proof fn lemma_field_eresult_sentryfile(v: SpecCMsgClientLogon)
        ensures
            fold_fields(Self::spec_prefix(v, 29), opt_i32(82, v.eresult_sentryfile), Self::apply_fn())
                == Ok::<SpecCMsgClientLogon, WireError>(Self::spec_prefix(v, 30)),
    {
        reveal(CMsgClientLogon::spec_prefix);
        reveal(opt_i32);
        let apply = Self::apply_fn();
        let s = Self::spec_prefix(v, 29);
        lemma_fold_opt(s, 82, match v.eresult_sentryfile { Some(x) => Some(enc_i32(x)), None => None }, apply);
        if let Some(x) = v.eresult_sentryfile {
            lemma_i32_roundtrip(x);
        }
        assert(SpecCMsgClientLogon { eresult_sentryfile: v.eresult_sentryfile, ..s } == Self::spec_prefix(v, 30));
    }

    /// Reading field 83 back, after the fields before it.
    proof fn lemma_field_sha_sentryfile(v: SpecCMsgClientLogon)
        ensures
            fold_fields(Self::spec_prefix(v, 30), opt_bytes(83, v.sha_sentryfile), Self::apply_fn())
                == Ok::<SpecCMsgClientLogon, WireError>(Self::spec_prefix(v, 31)),
    {
        reveal(CMsgClientLogon::spec_prefix);
        reveal(opt_bytes);
        let apply = Self::apply_fn();
        let s = Self::spec_prefix(v, 30);
        lemma_fold_opt(s, 83, match v.sha_sentryfile { Some(x) => Some(enc_bytes(x)), None => None }, apply);
        assert(SpecCMsgClientLogon { sha_sentryfile: v.sha_sentryfile, ..s } == Self::spec_prefix(v, 31));
    }

    /// Reading field 84 back, after the fields before it.
    proof fn lemma_field_auth_code(v: SpecCMsgClientLogon)
        ensures
            fold_fields(Self::spec_prefix(v, 31), opt_string(84, v.auth_code), Self::apply_fn())
                == Ok::<SpecCMsgClientLogon, WireError>(Self::spec_prefix(v, 32)),
    {
        reveal(CMsgClientLogon::spec_prefix);
        reveal(opt_string);
        let apply = Self::apply_fn();
        let s = Self::spec_prefix(v, 31);
        lemma_fold_opt(s, 84, match v.auth_code { Some(x) => Some(enc_string(x)), None => None }, apply);
        if let Some(x) = v.auth_code {
            lemma_string_roundtrip(x);
        }
        assert(SpecCMsgClientLogon { auth_code: v.auth_code, ..s } == Self::spec_prefix(v, 32));
    }

    /// Reading field 85 back, after the fields before it.
    proof fn lemma_field_otp_type(v: SpecCMsgClientLogon)
        ensures
            fold_fields(Self::spec_prefix(v, 32), opt_i32(85, v.otp_type), Self::apply_fn())
                == Ok::<SpecCMsgClientLogon, WireError>(Self::spec_prefix(v, 33)),
    {
        reveal(CMsgClientLogon::spec_prefix);
        reveal(opt_i32);
        let apply = Self::apply_fn();
        let s = Self::spec_prefix(v, 32);
        lemma_fold_opt(s, 85, match v.otp_type { Some(x) => Some(enc_i32(x)), None => None }, apply);
        if let Some(x) = v.otp_type {
            lemma_i32_roundtrip(x);
        }
        assert(SpecCMsgClientLogon { otp_type: v.otp_type, ..s } == Self::spec_prefix(v, 33));
    }

    /// Reading field 86 back, after the fields before it.
    proof fn lemma_field_otp_value(v: SpecCMsgClientLogon)
        ensures
            fold_fields(Self::spec_prefix(v, 33), opt_u32(86, v.otp_value), Self::apply_fn())
                == Ok::<SpecCMsgClientLogon, WireError>(Self::spec_prefix(v, 34)),
    {
        reveal(CMsgClientLogon::spec_prefix);
        reveal(opt_u32);
        let apply = Self::apply_fn();
        let s = Self::spec_prefix(v, 33);
        lemma_fold_opt(s, 86, match v.otp_value { Some(x) => Some(enc_u32(x)), None => None }, apply);
        if let Some(x) = v.otp_value {
            lemma_u32_roundtrip(x);
        }
        assert(SpecCMsgClientLogon { otp_value: v.otp_value, ..s } == Self::spec_prefix(v, 34));
    }

    /// Reading field 87 back, after the fields before it.
    proof fn lemma_field_otp_identifier(v: SpecCMsgClientLogon)
        ensures
            fold_fields(Self::spec_prefix(v, 34), opt_string(87, v.otp_identifier), Self::apply_fn())
                == Ok::<SpecCMsgClientLogon, WireError>(Self::spec_prefix(v, 35)),
    {
        reveal(CMsgClientLogon::spec_prefix);
        reveal(opt_string);
        let apply = Self::apply_fn();
        let s = Self::spec_prefix(v, 34);
        lemma_fold_opt(s, 87, match v.otp_identifier { Some(x) => Some(enc_string(x)), None => None }, apply);
        if let Some(x) = v.otp_identifier {
            lemma_string_roundtrip(x);
        }
        assert(SpecCMsgClientLogon { otp_identifier: v.otp_identifier, ..s } == Self::spec_prefix(v, 35));
    }

    /// Reading field 88 back, after the fields before it.
    proof fn lemma_field_steam2_ticket_request(v: SpecCMsgClientLogon)
        ensures
            fold_fields(Self::spec_prefix(v, 35), opt_bool(88, v.steam2_ticket_request), Self::apply_fn())
                == Ok::<SpecCMsgClientLogon, WireError>(Self::spec_prefix(v, 36)),
    {
        reveal(CMsgClientLogon::spec_prefix);
        reveal(opt_bool);
        let apply = Self::apply_fn();
        let s = Self::spec_prefix(v, 35);
        lemma_fold_opt(s, 88, match v.steam2_ticket_request { Some(x) => Some(enc_bool(x)), None => None }, apply);
        assert(SpecCMsgClientLogon { steam2_ticket_request: v.steam2_ticket_request, ..s } == Self::spec_prefix(v, 36));
    }

    /// Reading field 90 back, after the fields before it.
    proof fn lemma_field_sony_psn_ticket(v: SpecCMsgClientLogon)
        ensures
            fold_fields(Self::spec_prefix(v, 36), opt_bytes(90, v.sony_psn_ticket), Self::apply_fn())
                == Ok::<SpecCMsgClientLogon, WireError>(Self::spec_prefix(v, 37)),
    {
        reveal(CMsgClientLogon::spec_prefix);
        reveal(opt_bytes);
        let apply = Self::apply_fn();
        let s = Self::spec_prefix(v, 36);
        lemma_fold_opt(s, 90, match v.sony_psn_ticket { Some(x) => Some(enc_bytes(x)), None => None }, apply);
        assert(SpecCMsgClientLogon { sony_psn_ticket: v.sony_psn_ticket, ..s } == Self::spec_prefix(v, 37));
    }

    /// Reading field 91 back, after the fields before it.
    proof fn lemma_field_sony_psn_service_id(v: SpecCMsgClientLogon)
        ensures
            fold_fields(Self::spec_prefix(v, 37), opt_string(91, v.sony_psn_service_id), Self::apply_fn())
                == Ok::<SpecCMsgClientLogon, WireError>(Self::spec_prefix(v, 38)),
    {
        reveal(CMsgClientLogon::spec_prefix);
        reveal(opt_string);
        let apply = Self::apply_fn();
        let s = Self::spec_prefix(v, 37);
        lemma_fold_opt(s, 91, match v.sony_psn_service_id { Some(x) => Some(enc_string(x)), None => None }, apply);
        if let Some(x) = v.sony_psn_service_id {
            lemma_string_roundtrip(x);
        }
        assert(SpecCMsgClientLogon { sony_psn_service_id: v.sony_psn_service_id, ..s } == Self::spec_prefix(v, 38));
    }

    /// Reading field 92 back, after the fields before it.
    proof fn lemma_field_create_new_psn_linked_account_if_needed(v: SpecCMsgClientLogon)
        ensures
            fold_fields(Self::spec_prefix(v, 38), opt_bool(92, v.create_new_psn_linked_account_if_needed), Self::apply_fn())
                == Ok::<SpecCMsgClientLogon, WireError>(Self::spec_prefix(v, 39)),
    {
        reveal(CMsgClientLogon::spec_prefix);
        reveal(opt_bool);
        let apply = Self::apply_fn();
        let s = Self::spec_prefix(v, 38);
        lemma_fold_opt(s, 92, match v.create_new_psn_linked_account_if_needed { Some(x) => Some(enc_bool(x)), None => None }, apply);
        assert(SpecCMsgClientLogon { create_new_psn_linked_account_if_needed: v.create_new_psn_linked_account_if_needed, ..s } == Self::spec_prefix(v, 39));
    }

    /// Reading field 93 back, after the fields before it.
    proof fn lemma_field_sony_psn_name(v: SpecCMsgClientLogon)
        ensures
            fold_fields(Self::spec_prefix(v, 39), opt_string(93, v.sony_psn_name), Self::apply_fn())
                == Ok::<SpecCMsgClientLogon, WireError>(Self::spec_prefix(v, 40)),
    {
        reveal(CMsgClientLogon::spec_prefix);
        reveal(opt_string);
        let apply = Self::apply_fn();
        let s = Self::spec_prefix(v, 39);
        lemma_fold_opt(s, 93, match v.sony_psn_name { Some(x) => Some(enc_string(x)), None => None }, apply);
        if let Some(x) = v.sony_psn_name {
            lemma_string_roundtrip(x);
        }
        assert(SpecCMsgClientLogon { sony_psn_name: v.sony_psn_name, ..s } == Self::spec_prefix(v, 40));
    }

    /// Reading field 94 back, after the fields before it.
    proof fn lemma_field_game_server_app_id(v: SpecCMsgClientLogon)
        ensures
            fold_fields(Self::spec_prefix(v, 40), opt_i32(94, v.game_server_app_id), Self::apply_fn())
                == Ok::<SpecCMsgClientLogon, WireError>(Self::spec_prefix(v, 41)),
    {
        reveal(CMsgClientLogon::spec_prefix);
        reveal(opt_i32);
        let apply = Self::apply_fn();
        let s = Self::spec_prefix(v, 40);
        lemma_fold_opt(s, 94, match v.game_server_app_id { Some(x) => Some(enc_i32(x)), None => None }, apply);
        if let Some(x) = v.game_server_app_id {
            lemma_i32_roundtrip(x);
        }
        assert(SpecCMsgClientLogon { game_server_app_id: v.game_server_app_id, ..s } == Self::spec_prefix(v, 41));
    }

    /// Reading field 95 back, after the fields before it.
    proof fn lemma_field_steamguard_dont_remember_computer(v: SpecCMsgClientLogon)
        ensures
            fold_fields(Self::spec_prefix(v, 41), opt_bool(95, v.steamguard_dont_remember_computer), Self::apply_fn())
                == Ok::<SpecCMsgClientLogon, WireError>(Self::spec_prefix(v, 42)),
    {
        reveal(CMsgClientLogon::spec_prefix);
        reveal(opt_bool);
        let apply = Self::apply_fn();
        let s = Self::spec_prefix(v, 41);
        lemma_fold_opt(s, 95, match v.steamguard_dont_remember_computer { Some(x) => Some(enc_bool(x)), None => None }, apply);
        assert(SpecCMsgClientLogon { steamguard_dont_remember_computer: v.steamguard_dont_remember_computer, ..s } == Self::spec_prefix(v, 42));
    }

    /// Reading field 96 back, after the fields before it.
    proof fn lemma_field_machine_name(v: SpecCMsgClientLogon)
        ensures
            fold_fields(Self::spec_prefix(v, 42), opt_string(96, v.machine_name), Self::apply_fn())
                == Ok::<SpecCMsgClientLogon, WireError>(Self::spec_prefix(v, 43)),
    {
        reveal(CMsgClientLogon::spec_prefix);
        reveal(opt_string);
        let apply = Self::apply_fn();
        let s = Self::spec_prefix(v, 42);
        lemma_fold_opt(s, 96, match v.machine_name { Some(x) => Some(enc_string(x)), None => None }, apply);
        if let Some(x) = v.machine_name {
            lemma_string_roundtrip(x);
        }
        assert(SpecCMsgClientLogon { machine_name: v.machine_name, ..s } == Self::spec_prefix(v, 43));
    }

    /// Reading field 97 back, after the fields before it.
    proof fn lemma_field_machine_name_userchosen(v: SpecCMsgClientLogon)
        ensures
            fold_fields(Self::spec_prefix(v, 43), opt_string(97, v.machine_name_userchosen), Self::apply_fn())
                == Ok::<SpecCMsgClientLogon, WireError>(Self::spec_prefix(v, 44)),
    {
        reveal(CMsgClientLogon::spec_prefix);
        reveal(opt_string);
        let apply = Self::apply_fn();
        let s = Self::spec_prefix(v, 43);
        lemma_fold_opt(s, 97, match v.machine_name_userchosen { Some(x) => Some(enc_string(x)), None => None }, apply);
        if let Some(x) = v.machine_name_userchosen {
            lemma_string_roundtrip(x);
        }
        assert(SpecCMsgClientLogon { machine_name_userchosen: v.machine_name_userchosen, ..s } == Self::spec_prefix(v, 44));
    }

    /// Reading field 98 back, after the fields before it.
    proof fn lemma_field_country_override(v: SpecCMsgClientLogon)
        ensures
            fold_fields(Self::spec_prefix(v, 44), opt_string(98, v.country_override), Self::apply_fn())
                == Ok::<SpecCMsgClientLogon, WireError>(Self::spec_prefix(v, 45)),
    {
        reveal(CMsgClientLogon::spec_prefix);
        reveal(opt_string);
        let apply = Self::apply_fn();
        let s = Self::spec_prefix(v, 44);
        lemma_fold_opt(s, 98, match v.country_override { Some(x) => Some(enc_string(x)), None => None }, apply);
        if let Some(x) = v.country_override {
            lemma_string_roundtrip(x);
        }
        assert(SpecCMsgClientLogon { country_override: v.country_override, ..s } == Self::spec_prefix(v, 45));
    }

    /// Reading field 100 back, after the fields before it.
    proof fn lemma_field_client_instance_id(v: SpecCMsgClientLogon)
        ensures
            fold_fields(Self::spec_prefix(v, 45), opt_u64(100, v.client_instance_id), Self::apply_fn())
                == Ok::<SpecCMsgClientLogon, WireError>(Self::spec_prefix(v, 46)),
    {
        reveal(CMsgClientLogon::spec_prefix);
        reveal(opt_u64);
        let apply = Self::apply_fn();
        let s = Self::spec_prefix(v, 45);
        lemma_fold_opt(s, 100, match v.client_instance_id { Some(x) => Some(enc_u64(x)), None => None }, apply);
        if let Some(x) = v.client_instance_id {
            lemma_u64_roundtrip(x);
        }
        assert(SpecCMsgClientLogon { client_instance_id: v.client_instance_id, ..s } == Self::spec_prefix(v, 46));
    }

    /// Reading field 101 back, after the fields before it.
    proof fn lemma_field_two_factor_code(v: SpecCMsgClientLogon)
        ensures
            fold_fields(Self::spec_prefix(v, 46), opt_string(101, v.two_factor_code), Self::apply_fn())
                == Ok::<SpecCMsgClientLogon, WireError>(Self::spec_prefix(v, 47)),
    {
        reveal(CMsgClientLogon::spec_prefix);
        reveal(opt_string);
        let apply = Self::apply_fn();
        let s = Self::spec_prefix(v, 46);
        lemma_fold_opt(s, 101, match v.two_factor_code { Some(x) => Some(enc_string(x)), None => None }, apply);
        if let Some(x) = v.two_factor_code {
            lemma_string_roundtrip(x);
        }
        assert(SpecCMsgClientLogon { two_factor_code: v.two_factor_code, ..s } == Self::spec_prefix(v, 47));
    }

    /// Reading field 102 back, after the fields before it.
    proof fn lemma_field_supports_rate_limit_response(v: SpecCMsgClientLogon)
        ensures
            fold_fields(Self::spec_prefix(v, 47), opt_bool(102, v.supports_rate_limit_response), Self::apply_fn())
                == Ok::<SpecCMsgClientLogon, WireError>(Self::spec_prefix(v, 48)),
    {
        reveal(CMsgClientLogon::spec_prefix);
        reveal(opt_bool);
        let apply = Self::apply_fn();
        let s = Self::spec_prefix(v, 47);
        lemma_fold_opt(s, 102, match v.supports_rate_limit_response { Some(x) => Some(enc_bool(x)), None => None }, apply);
        assert(SpecCMsgClientLogon { supports_rate_limit_response: v.supports_rate_limit_response, ..s } == Self::spec_prefix(v, 48));
    }

    /// Reading field 103 back, after the fields before it.
    proof fn lemma_field_web_logon_nonce(v: SpecCMsgClientLogon)
        ensures
            fold_fields(Self::spec_prefix(v, 48), opt_string(103, v.web_logon_nonce), Self::apply_fn())
                == Ok::<SpecCMsgClientLogon, WireError>(Self::spec_prefix(v, 49)),
    {
        reveal(CMsgClientLogon::spec_prefix);
        reveal(opt_string);
        let apply = Self::apply_fn();
        let s = Self::spec_prefix(v, 48);
        lemma_fold_opt(s, 103, match v.web_logon_nonce { Some(x) => Some(enc_string(x)), None => None }, apply);
        if let Some(x) = v.web_logon_nonce {
            lemma_string_roundtrip(x);
        }
        assert(SpecCMsgClientLogon { web_logon_nonce: v.web_logon_nonce, ..s } == Self::spec_prefix(v, 49));
    }

    /// Reading field 104 back, after the fields before it.
    proof fn lemma_field_priority_reason(v: SpecCMsgClientLogon)
        ensures
            fold_fields(Self::spec_prefix(v, 49), opt_i32(104, v.priority_reason), Self::apply_fn())
                == Ok::<SpecCMsgClientLogon, WireError>(Self::spec_prefix(v, 50)),
    {
        reveal(CMsgClientLogon::spec_prefix);
        reveal(opt_i32);
        let apply = Self::apply_fn();
        let s = Self::spec_prefix(v, 49);
        lemma_fold_opt(s, 104, match v.priority_reason { Some(x) => Some(enc_i32(x)), None => None }, apply);
        if let Some(x) = v.priority_reason {
            lemma_i32_roundtrip(x);
        }
        assert(SpecCMsgClientLogon { priority_reason: v.priority_reason, ..s } == Self::spec_prefix(v, 50));
    }

    /// Reading field 105 back, after the fields before it.
    proof fn lemma_field_embedded_client_secret(v: SpecCMsgClientLogon)
        requires
            fields_wf(opt_bytes(105, crate::steammessages_clientserver_login::CMsgClientSecret::spec_encode_opt(v.embedded_client_secret))),
        ensures
            fold_fields(Self::spec_prefix(v, 50), opt_bytes(105, crate::steammessages_clientserver_login::CMsgClientSecret::spec_encode_opt(v.embedded_client_secret)), Self::apply_fn())
                == Ok::<SpecCMsgClientLogon, WireError>(Self::spec_prefix(v, 51)),
    {
        reveal(CMsgClientLogon::spec_prefix);
        reveal(opt_bytes);
        reveal(fields_wf);
        let apply = Self::apply_fn();
        let s = Self::spec_prefix(v, 50);
        lemma_fold_opt(s, 105, match crate::steammessages_clientserver_login::CMsgClientSecret::spec_encode_opt(v.embedded_client_secret) { Some(x) => Some(enc_bytes(x)), None => None }, apply);
        if let Some(m) = v.embedded_client_secret {
            assert(field_wf(opt_bytes(105, crate::steammessages_clientserver_login::CMsgClientSecret::spec_encode_opt(v.embedded_client_secret))[0]));
            crate::steammessages_clientserver_login::CMsgClientSecret::lemma_decode_encode(m);
        }
        assert(SpecCMsgClientLogon { embedded_client_secret: v.embedded_client_secret, ..s } == Self::spec_prefix(v, 51));
    }

    /// Reading field 106 back, after the fields before it.
    proof fn lemma_field_disable_partner_autogrants(v: SpecCMsgClientLogon)
        ensures
            fold_fields(Self::spec_prefix(v, 51), opt_bool(106, v.disable_partner_autogrants), Self::apply_fn())
                == Ok::<SpecCMsgClientLogon, WireError>(Self::spec_prefix(v, 52)),
    {
        reveal(CMsgClientLogon::spec_prefix);
        reveal(opt_bool);
        let apply = Self::apply_fn();
        let s = Self::spec_prefix(v, 51);
        lemma_fold_opt(s, 106, match v.disable_partner_autogrants { Some(x) => Some(enc_bool(x)), None => None }, apply);
        assert(SpecCMsgClientLogon { disable_partner_autogrants: v.disable_partner_autogrants, ..s } == Self::spec_prefix(v, 52));
    }

    /// Reading field 108 back, after the fields before it.
    proof fn lemma_field_access_token(v: SpecCMsgClientLogon)
        ensures
            fold_fields(Self::spec_prefix(v, 52), opt_string(108, v.access_token), Self::apply_fn())
                == Ok::<SpecCMsgClientLogon, WireError>(Self::spec_prefix(v, 53)),
    {
        reveal(CMsgClientLogon::spec_prefix);
        reveal(opt_string);
        let apply = Self::apply_fn();
        let s = Self::spec_prefix(v, 52);
        lemma_fold_opt(s, 108, match v.access_token { Some(x) => Some(enc_string(x)), None => None }, apply);
        if let Some(x) = v.access_token {
            lemma_string_roundtrip(x);
        }
        assert(SpecCMsgClientLogon { access_token: v.access_token, ..s } == Self::spec_prefix(v, 53));
    }

    /// Reading field 109 back, after the fields before it.
    proof fn lemma_field_is_chrome_os(v: SpecCMsgClientLogon)
        ensures
            fold_fields(Self::spec_prefix(v, 53), opt_bool(109, v.is_chrome_os), Self::apply_fn())
                == Ok::<SpecCMsgClientLogon, WireError>(Self::spec_prefix(v, 54)),
    {
        reveal(CMsgClientLogon::spec_prefix);
        reveal(opt_bool);
        let apply = Self::apply_fn();
        let s = Self::spec_prefix(v, 53);
        lemma_fold_opt(s, 109, match v.is_chrome_os { Some(x) => Some(enc_bool(x)), None => None }, apply);
        assert(SpecCMsgClientLogon { is_chrome_os: v.is_chrome_os, ..s } == Self::spec_prefix(v, 54));
    }

    /// Reading field 111 back, after the fields before it.
    proof fn lemma_field_gaming_device_type(v: SpecCMsgClientLogon)
        ensures
            fold_fields(Self::spec_prefix(v, 54), opt_u32(111, v.gaming_device_type), Self::apply_fn())
                == Ok::<SpecCMsgClientLogon, WireError>(Self::spec_prefix(v, 55)),
    {
        reveal(CMsgClientLogon::spec_prefix);
        reveal(opt_u32);
        let apply = Self::apply_fn();
        let s = Self::spec_prefix(v, 54);
        lemma_fold_opt(s, 111, match v.gaming_device_type { Some(x) => Some(enc_u32(x)), None => None }, apply);
        if let Some(x) = v.gaming_device_type {
            lemma_u32_roundtrip(x);
        }
        assert(SpecCMsgClientLogon { gaming_device_type: v.gaming_device_type, ..s } == Self::spec_prefix(v, 55));
    }

    /// Whether this message declares field number `n`.
    pub open spec fn declares(n: u32) -> bool {
        n == 1 || n == 2 || n == 3 || n == 4 || n == 5 || n == 6 || n == 7 || n == 8 || n == 9 || n == 10 || n == 11 || n == 20 || n == 21 || n == 22 || n == 23 || n == 30 || n == 31 || n == 32 || n == 33 || n == 41 || n == 42 || n == 43 || n == 50 || n == 51 || n == 52 || n == 60 || n == 70 || n == 80 || n == 81 || n == 82 || n == 83 || n == 84 || n == 85 || n == 86 || n == 87 || n == 88 || n == 90 || n == 91 || n == 92 || n == 93 || n == 94 || n == 95 || n == 96 || n == 97 || n == 98 || n == 100 || n == 101 || n == 102 || n == 103 || n == 104 || n == 105 || n == 106 || n == 108 || n == 109 || n == 111
    }

    /// A record with a number this message does not declare is passed over: well-formed
    /// bytes decode to the same message with such a record after them as without it.
    pub proof fn lemma_unknown_field(bytes: Seq<u8>, f: SpecField)
        requires
            parse_fields(bytes) is Ok,
            field_wf(f),
            !Self::declares(f.number),
        ensures
            Self::spec_decode(bytes + field_bytes(f)) == Self::spec_decode(bytes),
    {
        reveal(CMsgClientLogon::spec_decode);
        lemma_parse_fields_append(bytes, f);
        let fs = parse_fields(bytes).unwrap();
        let apply = Self::apply_fn();
        lemma_fold_concat(Self::spec_default(), fs, seq![f], apply);
        assert(fs.push(f) =~= fs + seq![f]);
        if let Ok(w) = fold_fields(Self::spec_default(), fs, apply) {
            lemma_fold_single(w, f, apply);
        }
        lemma_merge_run_fold(Self::spec_default(), bytes, apply);
        lemma_merge_run_fold(Self::spec_default(), bytes + field_bytes(f), apply);
    }

    /// Decoding the encoding of a message gives the message back.
    pub proof fn lemma_decode_encode(v: SpecCMsgClientLogon)
        requires
            Self::spec_encode(v).len() <= u64::MAX,
        ensures
            Self::spec_decode(Self::spec_encode(v)) == Ok::<SpecCMsgClientLogon, WireError>(v),
    {
        let apply = Self::apply_fn();
        let d = Self::spec_default();
        let p0 = Seq::<SpecField>::empty();
        let l1 = opt_u32(1, v.protocol_version);
        let p1 = p0 + l1;
        let l2 = opt_u32(2, v.deprecated_obfustucated_private_ip);
        let p2 = p1 + l2;
        let l3 = opt_u32(3, v.cell_id);
        let p3 = p2 + l3;
        let l4 = opt_u32(4, v.last_session_id);
        let p4 = p3 + l4;
        let l5 = opt_u32(5, v.client_package_version);
        let p5 = p4 + l5;
        let l6 = opt_string(6, v.client_language);
        let p6 = p5 + l6;
        let l7 = opt_u32(7, v.client_os_type);
        let p7 = p6 + l7;
        let l8 = opt_bool(8, v.should_remember_password);
        let p8 = p7 + l8;
        let l9 = opt_string(9, v.wine_version);
        let p9 = p8 + l9;
        let l10 = opt_u32(10, v.deprecated_10);
        let p10 = p9 + l10;
        let l11 = opt_bytes(11, crate::steammessages_base::CMsgIPAddress::spec_encode_opt(v.obfuscated_private_ip));
        let p11 = p10 + l11;
        let l12 = opt_u32(20, v.deprecated_public_ip);
        let p12 = p11 + l12;
        let l13 = opt_u32(21, v.qos_level);
        let p13 = p12 + l13;
        let l14 = opt_fixed64(22, v.client_supplied_steam_id);
        let p14 = p13 + l14;
        let l15 = opt_bytes(23, crate::steammessages_base::CMsgIPAddress::spec_encode_opt(v.public_ip));
        let p15 = p14 + l15;
        let l16 = opt_bytes(30, v.machine_id);
        let p16 = p15 + l16;
        let l17 = opt_u32(31, v.launcher_type);
        let p17 = p16 + l17;
        let l18 = opt_u32(32, v.ui_mode);
        let p18 = p17 + l18;
        let l19 = opt_u32(33, v.chat_mode);
        let p19 = p18 + l19;
        let l20 = opt_bytes(41, v.steam2_auth_ticket);
        let p20 = p19 + l20;
        let l21 = opt_string(42, v.email_address);
        let p21 = p20 + l21;
        let l22 = opt_fixed32(43, v.rtime32_account_creation);
        let p22 = p21 + l22;
        let l23 = opt_string(50, v.account_name);
        let p23 = p22 + l23;
        let l24 = opt_string(51, v.password);
        let p24 = p23 + l24;
        let l25 = opt_string(52, v.game_server_token);
        let p25 = p24 + l25;
        let l26 = opt_string(60, v.login_key);
        let p26 = p25 + l26;
        let l27 = opt_bool(70, v.was_converted_deprecated_msg);
        let p27 = p26 + l27;
        let l28 = opt_string(80, v.anon_user_target_account_name);
        let p28 = p27 + l28;
        let l29 = opt_fixed64(81, v.resolved_user_steam_id);
        let p29 = p28 + l29;
        let l30 = opt_i32(82, v.eresult_sentryfile);
        let p30 = p29 + l30;
        let l31 = opt_bytes(83, v.sha_sentryfile);
        let p31 = p30 + l31;
        let l32 = opt_string(84, v.auth_code);
        let p32 = p31 + l32;
        let l33 = opt_i32(85, v.otp_type);
        let p33 = p32 + l33;
        let l34 = opt_u32(86, v.otp_value);
        let p34 = p33 + l34;
        let l35 = opt_string(87, v.otp_identifier);
        let p35 = p34 + l35;
        let l36 = opt_bool(88, v.steam2_ticket_request);
        let p36 = p35 + l36;
        let l37 = opt_bytes(90, v.sony_psn_ticket);
        let p37 = p36 + l37;
        let l38 = opt_string(91, v.sony_psn_service_id);
        let p38 = p37 + l38;
        let l39 = opt_bool(92, v.create_new_psn_linked_account_if_needed);
        let p39 = p38 + l39;
        let l40 = opt_string(93, v.sony_psn_name);
        let p40 = p39 + l40;
        let l41 = opt_i32(94, v.game_server_app_id);
        let p41 = p40 + l41;
        let l42 = opt_bool(95, v.steamguard_dont_remember_computer);
        let p42 = p41 + l42;
        let l43 = opt_string(96, v.machine_name);
        let p43 = p42 + l43;
        let l44 = opt_string(97, v.machine_name_userchosen);
        let p44 = p43 + l44;
        let l45 = opt_string(98, v.country_override);
        let p45 = p44 + l45;
        let l46 = opt_u64(100, v.client_instance_id);
        let p46 = p45 + l46;
        let l47 = opt_string(101, v.two_factor_code);
        let p47 = p46 + l47;
        let l48 = opt_bool(102, v.supports_rate_limit_response);
        let p48 = p47 + l48;
        let l49 = opt_string(103, v.web_logon_nonce);
        let p49 = p48 + l49;
        let l50 = opt_i32(104, v.priority_reason);
        let p50 = p49 + l50;
        let l51 = opt_bytes(105, crate::steammessages_clientserver_login::CMsgClientSecret::spec_encode_opt(v.embedded_client_secret));
        let p51 = p50 + l51;
        let l52 = opt_bool(106, v.disable_partner_autogrants);
        let p52 = p51 + l52;
        let l53 = opt_string(108, v.access_token);
        let p53 = p52 + l53;
        let l54 = opt_bool(109, v.is_chrome_os);
        let p54 = p53 + l54;
        let l55 = opt_u32(111, v.gaming_device_type);
        let p55 = p54 + l55;
        assert(parse_fields(Self::spec_encode(v)) == Ok::<Seq<SpecField>, WireError>(p55) && fields_wf(l11) && fields_wf(l15) && fields_wf(l51)) by {
            reveal(CMsgClientLogon::spec_encode);
            assert(numbers_ok(p0) && fields_wf(p0)) by {
                reveal(numbers_ok);
                reveal(fields_wf);
            }
            lemma_opt_u32_numbered(1, v.protocol_version);
            lemma_fields_wf_concat(p0, l1);
            lemma_opt_u32_numbered(2, v.deprecated_obfustucated_private_ip);
            lemma_fields_wf_concat(p1, l2);
            lemma_opt_u32_numbered(3, v.cell_id);
            lemma_fields_wf_concat(p2, l3);
            lemma_opt_u32_numbered(4, v.last_session_id);
            lemma_fields_wf_concat(p3, l4);
            lemma_opt_u32_numbered(5, v.client_package_version);
            lemma_fields_wf_concat(p4, l5);
            lemma_opt_string_numbered(6, v.client_language);
            lemma_fields_wf_concat(p5, l6);
            lemma_opt_u32_numbered(7, v.client_os_type);
            lemma_fields_wf_concat(p6, l7);
            lemma_opt_bool_numbered(8, v.should_remember_password);
            lemma_fields_wf_concat(p7, l8);
            lemma_opt_string_numbered(9, v.wine_version);
            lemma_fields_wf_concat(p8, l9);
            lemma_opt_u32_numbered(10, v.deprecated_10);
            lemma_fields_wf_concat(p9, l10);
            lemma_opt_bytes_numbered(11, crate::steammessages_base::CMsgIPAddress::spec_encode_opt(v.obfuscated_private_ip));
            lemma_fields_wf_concat(p10, l11);
            lemma_opt_u32_numbered(20, v.deprecated_public_ip);
            lemma_fields_wf_concat(p11, l12);
            lemma_opt_u32_numbered(21, v.qos_level);
            lemma_fields_wf_concat(p12, l13);
            lemma_opt_fixed64_numbered(22, v.client_supplied_steam_id);
            lemma_fields_wf_concat(p13, l14);
            lemma_opt_bytes_numbered(23, crate::steammessages_base::CMsgIPAddress::spec_encode_opt(v.public_ip));
            lemma_fields_wf_concat(p14, l15);
            lemma_opt_bytes_numbered(30, v.machine_id);
            lemma_fields_wf_concat(p15, l16);
            lemma_opt_u32_numbered(31, v.launcher_type);
            lemma_fields_wf_concat(p16, l17);
            lemma_opt_u32_numbered(32, v.ui_mode);
            lemma_fields_wf_concat(p17, l18);
            lemma_opt_u32_numbered(33, v.chat_mode);
            lemma_fields_wf_concat(p18, l19);
            lemma_opt_bytes_numbered(41, v.steam2_auth_ticket);
            lemma_fields_wf_concat(p19, l20);
            lemma_opt_string_numbered(42, v.email_address);
            lemma_fields_wf_concat(p20, l21);
            lemma_opt_fixed32_numbered(43, v.rtime32_account_creation);
            lemma_fields_wf_concat(p21, l22);
            lemma_opt_string_numbered(50, v.account_name);
            lemma_fields_wf_concat(p22, l23);
            lemma_opt_string_numbered(51, v.password);
            lemma_fields_wf_concat(p23, l24);
            lemma_opt_string_numbered(52, v.game_server_token);
            lemma_fields_wf_concat(p24, l25);
            lemma_opt_string_numbered(60, v.login_key);
            lemma_fields_wf_concat(p25, l26);
            lemma_opt_bool_numbered(70, v.was_converted_deprecated_msg);
            lemma_fields_wf_concat(p26, l27);
            lemma_opt_string_numbered(80, v.anon_user_target_account_name);
            lemma_fields_wf_concat(p27, l28);
            lemma_opt_fixed64_numbered(81, v.resolved_user_steam_id);
            lemma_fields_wf_concat(p28, l29);
            lemma_opt_i32_numbered(82, v.eresult_sentryfile);
            lemma_fields_wf_concat(p29, l30);
            lemma_opt_bytes_numbered(83, v.sha_sentryfile);
            lemma_fields_wf_concat(p30, l31);
            lemma_opt_string_numbered(84, v.auth_code);
            lemma_fields_wf_concat(p31, l32);
            lemma_opt_i32_numbered(85, v.otp_type);
            lemma_fields_wf_concat(p32, l33);
            lemma_opt_u32_numbered(86, v.otp_value);
            lemma_fields_wf_concat(p33, l34);
            lemma_opt_string_numbered(87, v.otp_identifier);
            lemma_fields_wf_concat(p34, l35);
            lemma_opt_bool_numbered(88, v.steam2_ticket_request);
            lemma_fields_wf_concat(p35, l36);
            lemma_opt_bytes_numbered(90, v.sony_psn_ticket);
            lemma_fields_wf_concat(p36, l37);
            lemma_opt_string_numbered(91, v.sony_psn_service_id);
            lemma_fields_wf_concat(p37, l38);
            lemma_opt_bool_numbered(92, v.create_new_psn_linked_account_if_needed);
            lemma_fields_wf_concat(p38, l39);
            lemma_opt_string_numbered(93, v.sony_psn_name);
            lemma_fields_wf_concat(p39, l40);
            lemma_opt_i32_numbered(94, v.game_server_app_id);
            lemma_fields_wf_concat(p40, l41);
            lemma_opt_bool_numbered(95, v.steamguard_dont_remember_computer);
            lemma_fields_wf_concat(p41, l42);
            lemma_opt_string_numbered(96, v.machine_name);
            lemma_fields_wf_concat(p42, l43);
            lemma_opt_string_numbered(97, v.machine_name_userchosen);
            lemma_fields_wf_concat(p43, l44);
            lemma_opt_string_numbered(98, v.country_override);
            lemma_fields_wf_concat(p44, l45);
            lemma_opt_u64_numbered(100, v.client_instance_id);
            lemma_fields_wf_concat(p45, l46);
            lemma_opt_string_numbered(101, v.two_factor_code);
            lemma_fields_wf_concat(p46, l47);
            lemma_opt_bool_numbered(102, v.supports_rate_limit_response);
            lemma_fields_wf_concat(p47, l48);
            lemma_opt_string_numbered(103, v.web_logon_nonce);
            lemma_fields_wf_concat(p48, l49);
            lemma_opt_i32_numbered(104, v.priority_reason);
            lemma_fields_wf_concat(p49, l50);
            lemma_opt_bytes_numbered(105, crate::steammessages_clientserver_login::CMsgClientSecret::spec_encode_opt(v.embedded_client_secret));
            lemma_fields_wf_concat(p50, l51);
            lemma_opt_bool_numbered(106, v.disable_partner_autogrants);
            lemma_fields_wf_concat(p51, l52);
            lemma_opt_string_numbered(108, v.access_token);
            lemma_fields_wf_concat(p52, l53);
            lemma_opt_bool_numbered(109, v.is_chrome_os);
            lemma_fields_wf_concat(p53, l54);
            lemma_opt_u32_numbered(111, v.gaming_device_type);
            lemma_fields_wf_concat(p54, l55);
            assert(p55 == Self::spec_fields(v));
            lemma_fields_wf_from_len(p55);
            lemma_fields_roundtrip(p55);
        }
        assert(Self::spec_prefix(v, 0) == d) by {
            reveal(CMsgClientLogon::spec_prefix);
        }
        lemma_fold_empty(d, apply);
        lemma_fold_concat(d, p0, l1, apply);
        Self::lemma_field_protocol_version(v);
        lemma_fold_concat(d, p1, l2, apply);
        Self::lemma_field_deprecated_obfustucated_private_ip(v);
        lemma_fold_concat(d, p2, l3, apply);
        Self::lemma_field_cell_id(v);
        lemma_fold_concat(d, p3, l4, apply);
        Self::lemma_field_last_session_id(v);
        lemma_fold_concat(d, p4, l5, apply);
        Self::lemma_field_client_package_version(v);
        lemma_fold_concat(d, p5, l6, apply);
        Self::lemma_field_client_language(v);
        lemma_fold_concat(d, p6, l7, apply);
        Self::lemma_field_client_os_type(v);
        lemma_fold_concat(d, p7, l8, apply);
        Self::lemma_field_should_remember_password(v);
        lemma_fold_concat(d, p8, l9, apply);
        Self::lemma_field_wine_version(v);
        lemma_fold_concat(d, p9, l10, apply);
        Self::lemma_field_deprecated_10(v);
        lemma_fold_concat(d, p10, l11, apply);
        Self::lemma_field_obfuscated_private_ip(v);
        lemma_fold_concat(d, p11, l12, apply);
        Self::lemma_field_deprecated_public_ip(v);
        lemma_fold_concat(d, p12, l13, apply);
        Self::lemma_field_qos_level(v);
        lemma_fold_concat(d, p13, l14, apply);
        Self::lemma_field_client_supplied_steam_id(v);
        lemma_fold_concat(d, p14, l15, apply);
        Self::lemma_field_public_ip(v);
        lemma_fold_concat(d, p15, l16, apply);
        Self::lemma_field_machine_id(v);
        lemma_fold_concat(d, p16, l17, apply);
        Self::lemma_field_launcher_type(v);
        lemma_fold_concat(d, p17, l18, apply);
        Self::lemma_field_ui_mode(v);
        lemma_fold_concat(d, p18, l19, apply);
        Self::lemma_field_chat_mode(v);
        lemma_fold_concat(d, p19, l20, apply);
        Self::lemma_field_steam2_auth_ticket(v);
        lemma_fold_concat(d, p20, l21, apply);
        Self::lemma_field_email_address(v);
        lemma_fold_concat(d, p21, l22, apply);
        Self::lemma_field_rtime32_account_creation(v);
        lemma_fold_concat(d, p22, l23, apply);
        Self::lemma_field_account_name(v);
        lemma_fold_concat(d, p23, l24, apply);
        Self::lemma_field_password(v);
        lemma_fold_concat(d, p24, l25, apply);
        Self::lemma_field_game_server_token(v);
        lemma_fold_concat(d, p25, l26, apply);
        Self::lemma_field_login_key(v);
        lemma_fold_concat(d, p26, l27, apply);
        Self::lemma_field_was_converted_deprecated_msg(v);
        lemma_fold_concat(d, p27, l28, apply);
        Self::lemma_field_anon_user_target_account_name(v);
        lemma_fold_concat(d, p28, l29, apply);
        Self::lemma_field_resolved_user_steam_id(v);
        lemma_fold_concat(d, p29, l30, apply);
        Self::lemma_field_eresult_sentryfile(v);
        lemma_fold_concat(d, p30, l31, apply);
        Self::lemma_field_sha_sentryfile(v);
        lemma_fold_concat(d, p31, l32, apply);
        Self::lemma_field_auth_code(v);
        lemma_fold_concat(d, p32, l33, apply);
        Self::lemma_field_otp_type(v);
        lemma_fold_concat(d, p33, l34, apply);
        Self::lemma_field_otp_value(v);
        lemma_fold_concat(d, p34, l35, apply);
        Self::lemma_field_otp_identifier(v);
        lemma_fold_concat(d, p35, l36, apply);
        Self::lemma_field_steam2_ticket_request(v);
        lemma_fold_concat(d, p36, l37, apply);
        Self::lemma_field_sony_psn_ticket(v);
        lemma_fold_concat(d, p37, l38, apply);
        Self::lemma_field_sony_psn_service_id(v);
        lemma_fold_concat(d, p38, l39, apply);
        Self::lemma_field_create_new_psn_linked_account_if_needed(v);
        lemma_fold_concat(d, p39, l40, apply);
        Self::lemma_field_sony_psn_name(v);
        lemma_fold_concat(d, p40, l41, apply);
        Self::lemma_field_game_server_app_id(v);
        lemma_fold_concat(d, p41, l42, apply);
        Self::lemma_field_steamguard_dont_remember_computer(v);
        lemma_fold_concat(d, p42, l43, apply);
        Self::lemma_field_machine_name(v);
        lemma_fold_concat(d, p43, l44, apply);
        Self::lemma_field_machine_name_userchosen(v);
        lemma_fold_concat(d, p44, l45, apply);
        Self::lemma_field_country_override(v);
        lemma_fold_concat(d, p45, l46, apply);
        Self::lemma_field_client_instance_id(v);
        lemma_fold_concat(d, p46, l47, apply);
        Self::lemma_field_two_factor_code(v);
        lemma_fold_concat(d, p47, l48, apply);
        Self::lemma_field_supports_rate_limit_response(v);
        lemma_fold_concat(d, p48, l49, apply);
        Self::lemma_field_web_logon_nonce(v);
        lemma_fold_concat(d, p49, l50, apply);
        Self::lemma_field_priority_reason(v);
        lemma_fold_concat(d, p50, l51, apply);
        Self::lemma_field_embedded_client_secret(v);
        lemma_fold_concat(d, p51, l52, apply);
        Self::lemma_field_disable_partner_autogrants(v);
        lemma_fold_concat(d, p52, l53, apply);
        Self::lemma_field_access_token(v);
        lemma_fold_concat(d, p53, l54, apply);
        Self::lemma_field_is_chrome_os(v);
        lemma_fold_concat(d, p54, l55, apply);
        Self::lemma_field_gaming_device_type(v);
        assert(Self::spec_prefix(v, 55) == v) by {
            reveal(CMsgClientLogon::spec_prefix);
        }
        lemma_merge_run_fold(d, Self::spec_encode(v), apply);
        assert(Self::spec_decode(Self::spec_encode(v)) == Ok::<SpecCMsgClientLogon, WireError>(v)) by {
            reveal(CMsgClientLogon::spec_decode);
        }
    }
}

/// `CMsgClientLogonResponse`, as Valve's schema declares it.
#[derive(Debug, Clone, PartialEq)]
pub struct CMsgClientLogonResponse {
    /// Field 1.
    pub eresult: Option<i32>,
    /// Field 2.
    pub legacy_out_of_game_heartbeat_seconds: Option<i32>,
    /// Field 3.
    pub heartbeat_seconds: Option<i32>,
    /// Field 4.
    pub deprecated_public_ip: Option<u32>,
    /// Field 5.
    pub rtime32_server_time: Option<u32>,
    /// Field 6.
    pub account_flags: Option<u32>,
    /// Field 7.
    pub cell_id: Option<u32>,
    /// Field 8.
    pub email_domain: Option<String>,
    /// Field 9.
    pub steam2_ticket: Option<Vec<u8>>,
    /// Field 10.
    pub eresult_extended: Option<i32>,
    /// Field 12.
    pub cell_id_ping_threshold: Option<u32>,
    /// Field 13.
    pub deprecated_use_pics: Option<bool>,
    /// Field 14.
    pub vanity_url: Option<String>,
    /// Field 15.
    pub public_ip: Option<crate::steammessages_base::CMsgIPAddress>,
    /// Field 16.
    pub user_country: Option<String>,
    /// Field 20.
    pub client_supplied_steamid: Option<u64>,
    /// Field 21.
    pub ip_country_code: Option<String>,
    /// Field 22.
    pub parental_settings: Option<Vec<u8>>,
    /// Field 23.
    pub parental_setting_signature: Option<Vec<u8>>,
    /// Field 24.
    pub count_loginfailures_to_migrate: Option<i32>,
    /// Field 25.
    pub count_disconnects_to_migrate: Option<i32>,
    /// Field 26.
    pub ogs_data_report_time_window: Option<i32>,
    /// Field 27.
    pub client_instance_id: Option<u64>,
    /// Field 28.
    pub force_client_update_check: Option<bool>,
    /// Field 29.
    pub agreement_session_url: Option<String>,
    /// Field 30.
    pub token_id: Option<u64>,
    /// Field 31.
    pub family_group_id: Option<u64>,
}

/// What a `CMsgClientLogonResponse` holds, as mathematical values.
#[verifier::ext_equal]
pub struct SpecCMsgClientLogonResponse {
    pub eresult: Option<i32>,
    pub legacy_out_of_game_heartbeat_seconds: Option<i32>,
    pub heartbeat_seconds: Option<i32>,
    pub deprecated_public_ip: Option<u32>,
    pub rtime32_server_time: Option<u32>,
    pub account_flags: Option<u32>,
    pub cell_id: Option<u32>,
    pub email_domain: Option<Seq<char>>,
    pub steam2_ticket: Option<Seq<u8>>,
    pub eresult_extended: Option<i32>,
    pub cell_id_ping_threshold: Option<u32>,
    pub deprecated_use_pics: Option<bool>,
    pub vanity_url: Option<Seq<char>>,
    pub public_ip: Option<crate::steammessages_base::SpecCMsgIPAddress>,
    pub user_country: Option<Seq<char>>,
    pub client_supplied_steamid: Option<u64>,
    pub ip_country_code: Option<Seq<char>>,
    pub parental_settings: Option<Seq<u8>>,
    pub parental_setting_signature: Option<Seq<u8>>,
    pub count_loginfailures_to_migrate: Option<i32>,
    pub count_disconnects_to_migrate: Option<i32>,
    pub ogs_data_report_time_window: Option<i32>,
    pub client_instance_id: Option<u64>,
    pub force_client_update_check: Option<bool>,
    pub agreement_session_url: Option<Seq<char>>,
    pub token_id: Option<u64>,
    pub family_group_id: Option<u64>,
}

impl View for CMsgClientLogonResponse {
    type V = SpecCMsgClientLogonResponse;

    open spec fn view(&self) -> SpecCMsgClientLogonResponse {
        SpecCMsgClientLogonResponse {
            eresult: self.eresult,
            legacy_out_of_game_heartbeat_seconds: self.legacy_out_of_game_heartbeat_seconds,
            heartbeat_seconds: self.heartbeat_seconds,
            deprecated_public_ip: self.deprecated_public_ip,
            rtime32_server_time: self.rtime32_server_time,
            account_flags: self.account_flags,
            cell_id: self.cell_id,
            email_domain: opt_string_view(self.email_domain),
            steam2_ticket: opt_bytes_view(self.steam2_ticket),
            eresult_extended: self.eresult_extended,
            cell_id_ping_threshold: self.cell_id_ping_threshold,
            deprecated_use_pics: self.deprecated_use_pics,
            vanity_url: opt_string_view(self.vanity_url),
            public_ip: crate::steammessages_base::CMsgIPAddress::view_opt(self.public_ip),
            user_country: opt_string_view(self.user_country),
            client_supplied_steamid: self.client_supplied_steamid,
            ip_country_code: opt_string_view(self.ip_country_code),
            parental_settings: opt_bytes_view(self.parental_settings),
            parental_setting_signature: opt_bytes_view(self.parental_setting_signature),
            count_loginfailures_to_migrate: self.count_loginfailures_to_migrate,
            count_disconnects_to_migrate: self.count_disconnects_to_migrate,
            ogs_data_report_time_window: self.ogs_data_report_time_window,
            client_instance_id: self.client_instance_id,
            force_client_update_check: self.force_client_update_check,
            agreement_session_url: opt_string_view(self.agreement_session_url),
            token_id: self.token_id,
            family_group_id: self.family_group_id,
        }
    }
}

impl Default for CMsgClientLogonResponse {
    fn default() -> (r: Self)
        ensures
            r@ == CMsgClientLogonResponse::spec_default(),
    {
        CMsgClientLogonResponse {
            eresult: None,
            legacy_out_of_game_heartbeat_seconds: None,
            heartbeat_seconds: None,
            deprecated_public_ip: None,
            rtime32_server_time: None,
            account_flags: None,
            cell_id: None,
            email_domain: None,
            steam2_ticket: None,
            eresult_extended: None,
            cell_id_ping_threshold: None,
            deprecated_use_pics: None,
            vanity_url: None,
            public_ip: None,
            user_country: None,
            client_supplied_steamid: None,
            ip_country_code: None,
            parental_settings: None,
            parental_setting_signature: None,
            count_loginfailures_to_migrate: None,
            count_disconnects_to_migrate: None,
            ogs_data_report_time_window: None,
            client_instance_id: None,
            force_client_update_check: None,
            agreement_session_url: None,
            token_id: None,
            family_group_id: None,
        }
    }
}

impl CMsgClientLogonResponse {
    /// Field 1, or its schema default when absent.
    pub fn eresult_or_default(&self) -> (r: i32)
        ensures
            r == match self.eresult {
                Some(x) => x,
                None => 2i32,
            },
    {
        self.eresult.unwrap_or(2i32)
    }

    pub open spec fn spec_default() -> SpecCMsgClientLogonResponse {
        SpecCMsgClientLogonResponse {
            eresult: None,
            legacy_out_of_game_heartbeat_seconds: None,
            heartbeat_seconds: None,
            deprecated_public_ip: None,
            rtime32_server_time: None,
            account_flags: None,
            cell_id: None,
            email_domain: None,
            steam2_ticket: None,
            eresult_extended: None,
            cell_id_ping_threshold: None,
            deprecated_use_pics: None,
            vanity_url: None,
            public_ip: None,
            user_country: None,
            client_supplied_steamid: None,
            ip_country_code: None,
            parental_settings: None,
            parental_setting_signature: None,
            count_loginfailures_to_migrate: None,
            count_disconnects_to_migrate: None,
            ogs_data_report_time_window: None,
            client_instance_id: None,
            force_client_update_check: None,
            agreement_session_url: None,
            token_id: None,
            family_group_id: None,
        }
    }

    /// The records a `CMsgClientLogonResponse` is written as, in field order.
    pub open spec fn spec_fields(v: SpecCMsgClientLogonResponse) -> Seq<SpecField> {
        Seq::<SpecField>::empty()
            + opt_i32(1, v.eresult)
            + opt_i32(2, v.legacy_out_of_game_heartbeat_seconds)
            + opt_i32(3, v.heartbeat_seconds)
            + opt_u32(4, v.deprecated_public_ip)
            + opt_fixed32(5, v.rtime32_server_time)
            + opt_u32(6, v.account_flags)
            + opt_u32(7, v.cell_id)
            + opt_string(8, v.email_domain)
            + opt_bytes(9, v.steam2_ticket)
            + opt_i32(10, v.eresult_extended)
            + opt_u32(12, v.cell_id_ping_threshold)
            + opt_bool(13, v.deprecated_use_pics)
            + opt_string(14, v.vanity_url)
            + opt_bytes(15, crate::steammessages_base::CMsgIPAddress::spec_encode_opt(v.public_ip))
            + opt_string(16, v.user_country)
            + opt_fixed64(20, v.client_supplied_steamid)
            + opt_string(21, v.ip_country_code)
            + opt_bytes(22, v.parental_settings)
            + opt_bytes(23, v.parental_setting_signature)
            + opt_i32(24, v.count_loginfailures_to_migrate)
            + opt_i32(25, v.count_disconnects_to_migrate)
            + opt_i32(26, v.ogs_data_report_time_window)
            + opt_u64(27, v.client_instance_id)
            + opt_bool(28, v.force_client_update_check)
            + opt_string(29, v.agreement_session_url)
            + opt_u64(30, v.token_id)
            + opt_u64(31, v.family_group_id)
    }

    #[verifier::opaque]
    pub open spec fn spec_encode(v: SpecCMsgClientLogonResponse) -> Seq<u8> {
        fields_bytes(Self::spec_fields(v))
    }

    /// What one record does to the message: a declared number sets or extends its
    /// field, any other number is left alone.
    pub open spec fn spec_apply(v: SpecCMsgClientLogonResponse, f: SpecField) -> Result<SpecCMsgClientLogonResponse, WireError> {
        match f.number {
            1 => match dec_i32(f.value) {
                Ok(x) => Ok(SpecCMsgClientLogonResponse { eresult: Some(x), ..v }),
                Err(e) => Err(e),
            },
            2 => match dec_i32(f.value) {
                Ok(x) => Ok(SpecCMsgClientLogonResponse { legacy_out_of_game_heartbeat_seconds: Some(x), ..v }),
                Err(e) => Err(e),
            },
            3 => match dec_i32(f.value) {
                Ok(x) => Ok(SpecCMsgClientLogonResponse { heartbeat_seconds: Some(x), ..v }),
                Err(e) => Err(e),
            },
            4 => match dec_u32(f.value) {
                Ok(x) => Ok(SpecCMsgClientLogonResponse { deprecated_public_ip: Some(x), ..v }),
                Err(e) => Err(e),
            },
            5 => match dec_fixed32(f.value) {
                Ok(x) => Ok(SpecCMsgClientLogonResponse { rtime32_server_time: Some(x), ..v }),
                Err(e) => Err(e),
            },
            6 => match dec_u32(f.value) {
                Ok(x) => Ok(SpecCMsgClientLogonResponse { account_flags: Some(x), ..v }),
                Err(e) => Err(e),
            },
            7 => match dec_u32(f.value) {
                Ok(x) => Ok(SpecCMsgClientLogonResponse { cell_id: Some(x), ..v }),
                Err(e) => Err(e),
            },
            8 => match dec_string(f.value) {
                Ok(x) => Ok(SpecCMsgClientLogonResponse { email_domain: Some(x), ..v }),
                Err(e) => Err(e),
            },
            9 => match dec_bytes(f.value) {
                Ok(x) => Ok(SpecCMsgClientLogonResponse { steam2_ticket: Some(x), ..v }),
                Err(e) => Err(e),
            },
            10 => match dec_i32(f.value) {
                Ok(x) => Ok(SpecCMsgClientLogonResponse { eresult_extended: Some(x), ..v }),
                Err(e) => Err(e),
            },
            12 => match dec_u32(f.value) {
                Ok(x) => Ok(SpecCMsgClientLogonResponse { cell_id_ping_threshold: Some(x), ..v }),
                Err(e) => Err(e),
            },
            13 => match dec_bool(f.value) {
                Ok(x) => Ok(SpecCMsgClientLogonResponse { deprecated_use_pics: Some(x), ..v }),
                Err(e) => Err(e),
            },
            14 => match dec_string(f.value) {
                Ok(x) => Ok(SpecCMsgClientLogonResponse { vanity_url: Some(x), ..v }),
                Err(e) => Err(e),
            },
            15 => match dec_bytes(f.value) {
                Ok(b) => match crate::steammessages_base::CMsgIPAddress::spec_decode(b) {
                    Ok(m) => Ok(SpecCMsgClientLogonResponse { public_ip: Some(m), ..v }),
                    Err(e) => Err(e),
                },
                Err(e) => Err(e),
            },
            16 => match dec_string(f.value) {
                Ok(x) => Ok(SpecCMsgClientLogonResponse { user_country: Some(x), ..v }),
                Err(e) => Err(e),
            },
            20 => match dec_fixed64(f.value) {
                Ok(x) => Ok(SpecCMsgClientLogonResponse { client_supplied_steamid: Some(x), ..v }),
                Err(e) => Err(e),
            },
            21 => match dec_string(f.value) {
                Ok(x) => Ok(SpecCMsgClientLogonResponse { ip_country_code: Some(x), ..v }),
                Err(e) => Err(e),
            },
            22 => match dec_bytes(f.value) {
                Ok(x) => Ok(SpecCMsgClientLogonResponse { parental_settings: Some(x), ..v }),
                Err(e) => Err(e),
            },
            23 => match dec_bytes(f.value) {
                Ok(x) => Ok(SpecCMsgClientLogonResponse { parental_setting_signature: Some(x), ..v }),
                Err(e) => Err(e),
            },
            24 => match dec_i32(f.value) {
                Ok(x) => Ok(SpecCMsgClientLogonResponse { count_loginfailures_to_migrate: Some(x), ..v }),
                Err(e) => Err(e),
            },
            25 => match dec_i32(f.value) {
                Ok(x) => Ok(SpecCMsgClientLogonResponse { count_disconnects_to_migrate: Some(x), ..v }),
                Err(e) => Err(e),
            },
            26 => match dec_i32(f.value) {
                Ok(x) => Ok(SpecCMsgClientLogonResponse { ogs_data_report_time_window: Some(x), ..v }),
                Err(e) => Err(e),
            },
            27 => match dec_u64(f.value) {
                Ok(x) => Ok(SpecCMsgClientLogonResponse { client_instance_id: Some(x), ..v }),
                Err(e) => Err(e),
            },
            28 => match dec_bool(f.value) {
                Ok(x) => Ok(SpecCMsgClientLogonResponse { force_client_update_check: Some(x), ..v }),
                Err(e) => Err(e),
            },
            29 => match dec_string(f.value) {
                Ok(x) => Ok(SpecCMsgClientLogonResponse { agreement_session_url: Some(x), ..v }),
                Err(e) => Err(e),
            },
            30 => match dec_u64(f.value) {
                Ok(x) => Ok(SpecCMsgClientLogonResponse { token_id: Some(x), ..v }),
                Err(e) => Err(e),
            },
            31 => match dec_u64(f.value) {
                Ok(x) => Ok(SpecCMsgClientLogonResponse { family_group_id: Some(x), ..v }),
                Err(e) => Err(e),
            },
            _ => Ok(v),
        }
    }

    pub open spec fn apply_fn() -> spec_fn(SpecCMsgClientLogonResponse, SpecField) -> Result<SpecCMsgClientLogonResponse, WireError> {
        |v: SpecCMsgClientLogonResponse, f: SpecField| Self::spec_apply(v, f)
    }

    /// The message `bytes` makes of `v`: its records applied in order, or the error
    /// that stops the reading.
    pub open spec fn spec_merge(v: SpecCMsgClientLogonResponse, bytes: Seq<u8>) -> Result<SpecCMsgClientLogonResponse, WireError> {
        let (w, stop) = merge_run(v, bytes, Self::apply_fn());
        match stop {
            None => Ok(w),
            Some(e) => Err(e),
        }
    }

    #[verifier::opaque]
    pub open spec fn spec_decode(bytes: Seq<u8>) -> Result<SpecCMsgClientLogonResponse, WireError> {
        Self::spec_merge(Self::spec_default(), bytes)
    }

    /// This message with one record applied to it, or, when the record is refused,
    /// the message unchanged and the reason.
    fn applied(self, f: &Field) -> (r: Result<Self, (Self, WireError)>)
        ensures
            match Self::spec_apply(self@, f@) {
                Ok(v) => r matches Ok(m) && m@ == v,
                Err(e) => r matches Err((m, x)) && x == e && m@ == self@,
            },
    {
        if f.number <= 6 {
            self.applied_0(f)
        } else if f.number <= 13 {
            self.applied_1(f)
        } else if f.number <= 22 {
            self.applied_2(f)
        } else if f.number <= 28 {
            self.applied_3(f)
        } else {
            self.applied_4(f)
        }
    }

    /// `applied`, for the records numbered up to 6.
    #[verifier::rlimit(40)]
    fn applied_0(self, f: &Field) -> (r: Result<Self, (Self, WireError)>)
        requires
            f.number <= 6,
        ensures
            match Self::spec_apply(self@, f@) {
                Ok(v) => r matches Ok(m) && m@ == v,
                Err(e) => r matches Err((m, x)) && x == e && m@ == self@,
            },
    {
        match f.number {
            1 => match read_i32(&f.value) {
                Ok(x) => Ok(Self { eresult: Some(x), ..self }),
                Err(e) => Err((self, e)),
            },
            2 => match read_i32(&f.value) {
                Ok(x) => Ok(Self { legacy_out_of_game_heartbeat_seconds: Some(x), ..self }),
                Err(e) => Err((self, e)),
            },
            3 => match read_i32(&f.value) {
                Ok(x) => Ok(Self { heartbeat_seconds: Some(x), ..self }),
                Err(e) => Err((self, e)),
            },
            4 => match read_u32(&f.value) {
                Ok(x) => Ok(Self { deprecated_public_ip: Some(x), ..self }),
                Err(e) => Err((self, e)),
            },
            5 => match read_fixed32(&f.value) {
                Ok(x) => Ok(Self { rtime32_server_time: Some(x), ..self }),
                Err(e) => Err((self, e)),
            },
            6 => match read_u32(&f.value) {
                Ok(x) => Ok(Self { account_flags: Some(x), ..self }),
                Err(e) => Err((self, e)),
            },
            _ => Ok(self),
        }
    }

    /// `applied`, for the records numbered from 7 to 13.
    #[verifier::rlimit(40)]
    fn applied_1(self, f: &Field) -> (r: Result<Self, (Self, WireError)>)
        requires
            6 < f.number,
            f.number <= 13,
        ensures
            match Self::spec_apply(self@, f@) {
                Ok(v) => r matches Ok(m) && m@ == v,
                Err(e) => r matches Err((m, x)) && x == e && m@ == self@,
            },
    {
        match f.number {
            7 => match read_u32(&f.value) {
                Ok(x) => Ok(Self { cell_id: Some(x), ..self }),
                Err(e) => Err((self, e)),
            },
            8 => match read_string(&f.value) {
                Ok(x) => Ok(Self { email_domain: Some(x), ..self }),
                Err(e) => Err((self, e)),
            },
            9 => match read_bytes(&f.value) {
                Ok(x) => Ok(Self { steam2_ticket: Some(x), ..self }),
                Err(e) => Err((self, e)),
            },
            10 => match read_i32(&f.value) {
                Ok(x) => Ok(Self { eresult_extended: Some(x), ..self }),
                Err(e) => Err((self, e)),
            },
            12 => match read_u32(&f.value) {
                Ok(x) => Ok(Self { cell_id_ping_threshold: Some(x), ..self }),
                Err(e) => Err((self, e)),
            },
            13 => match read_bool(&f.value) {
                Ok(x) => Ok(Self { deprecated_use_pics: Some(x), ..self }),
                Err(e) => Err((self, e)),
            },
            _ => Ok(self),
        }
    }

    /// `applied`, for the records numbered from 14 to 22.
    #[verifier::rlimit(40)]
    fn applied_2(self, f: &Field) -> (r: Result<Self, (Self, WireError)>)
        requires
            13 < f.number,
            f.number <= 22,
        ensures
            match Self::spec_apply(self@, f@) {
                Ok(v) => r matches Ok(m) && m@ == v,
                Err(e) => r matches Err((m, x)) && x == e && m@ == self@,
            },
    {
        match f.number {
            14 => match read_string(&f.value) {
                Ok(x) => Ok(Self { vanity_url: Some(x), ..self }),
                Err(e) => Err((self, e)),
            },
            15 => match read_payload(&f.value) {
                Ok(b) => match crate::steammessages_base::CMsgIPAddress::decode(b) {
                    Ok(m) => Ok(Self { public_ip: Some(m), ..self }),
                    Err(e) => Err((self, e)),
                },
                Err(e) => Err((self, e)),
            },
            16 => match read_string(&f.value) {
                Ok(x) => Ok(Self { user_country: Some(x), ..self }),
                Err(e) => Err((self, e)),
            },
            20 => match read_fixed64(&f.value) {
                Ok(x) => Ok(Self { client_supplied_steamid: Some(x), ..self }),
                Err(e) => Err((self, e)),
            },
            21 => match read_string(&f.value) {
                Ok(x) => Ok(Self { ip_country_code: Some(x), ..self }),
                Err(e) => Err((self, e)),
            },
            22 => match read_bytes(&f.value) {
                Ok(x) => Ok(Self { parental_settings: Some(x), ..self }),
                Err(e) => Err((self, e)),
            },
            _ => Ok(self),
        }
    }

    /// `applied`, for the records numbered from 23 to 28.
    #[verifier::rlimit(40)]
    fn applied_3(self, f: &Field) -> (r: Result<Self, (Self, WireError)>)
        requires
            22 < f.number,
            f.number <= 28,
        ensures
            match Self::spec_apply(self@, f@) {
                Ok(v) => r matches Ok(m) && m@ == v,
                Err(e) => r matches Err((m, x)) && x == e && m@ == self@,
            },
    {
        match f.number {
            23 => match read_bytes(&f.value) {
                Ok(x) => Ok(Self { parental_setting_signature: Some(x), ..self }),
                Err(e) => Err((self, e)),
            },
            24 => match read_i32(&f.value) {
                Ok(x) => Ok(Self { count_loginfailures_to_migrate: Some(x), ..self }),
                Err(e) => Err((self, e)),
            },
            25 => match read_i32(&f.value) {
                Ok(x) => Ok(Self { count_disconnects_to_migrate: Some(x), ..self }),
                Err(e) => Err((self, e)),
            },
            26 => match read_i32(&f.value) {
                Ok(x) => Ok(Self { ogs_data_report_time_window: Some(x), ..self }),
                Err(e) => Err((self, e)),
            },
            27 => match read_u64(&f.value) {
                Ok(x) => Ok(Self { client_instance_id: Some(x), ..self }),
                Err(e) => Err((self, e)),
            },
            28 => match read_bool(&f.value) {
                Ok(x) => Ok(Self { force_client_update_check: Some(x), ..self }),
                Err(e) => Err((self, e)),
            },
            _ => Ok(self),
        }
    }

    /// `applied`, for the records numbered above 28.
    #[verifier::rlimit(40)]
    fn applied_4(self, f: &Field) -> (r: Result<Self, (Self, WireError)>)
        requires
            28 < f.number,
        ensures
            match Self::spec_apply(self@, f@) {
                Ok(v) => r matches Ok(m) && m@ == v,
                Err(e) => r matches Err((m, x)) && x == e && m@ == self@,
            },
    {
        match f.number {
            29 => match read_string(&f.value) {
                Ok(x) => Ok(Self { agreement_session_url: Some(x), ..self }),
                Err(e) => Err((self, e)),
            },
            30 => match read_u64(&f.value) {
                Ok(x) => Ok(Self { token_id: Some(x), ..self }),
                Err(e) => Err((self, e)),
            },
            31 => match read_u64(&f.value) {
                Ok(x) => Ok(Self { family_group_id: Some(x), ..self }),
                Err(e) => Err((self, e)),
            },
            _ => Ok(self),
        }
    }

    /// Reads the records `bytes` holds into this message, in order. When a record does
    /// not parse or is refused, the reading stops there: the message keeps what the
    /// records before it gave, and the error is returned.
    pub fn merge(&mut self, bytes: &[u8]) -> (r: Result<(), WireError>)
        ensures
            final(self)@ == merge_run(old(self)@, bytes@, Self::apply_fn()).0,
            r == match merge_run(old(self)@, bytes@, Self::apply_fn()).1 {
                None => Ok::<(), WireError>(()),
                Some(e) => Err::<(), WireError>(e),
            },
    {
        let ghost total = merge_run(self@, bytes@, Self::apply_fn());
        let mut cur = Self::default();
        std::mem::swap(&mut cur, self);
        let mut pos: usize = 0;
        assert(bytes@.skip(0) =~= bytes@);
        while pos < bytes.len()
            invariant
                pos <= bytes@.len(),
                total == merge_run(old(self)@, bytes@, Self::apply_fn()),
                merge_run(cur@, bytes@.skip(pos as int), Self::apply_fn()) == total,
            decreases bytes@.len() - pos,
        {
            let ghost s = bytes@.skip(pos as int);
            proof {
                lemma_merge_run_step(cur@, s, Self::apply_fn());
                lemma_parse_field_len(s);
            }
            match read_field(bytes, pos) {
                Ok((f, end)) => {
                    assert(bytes@.skip(end as int) =~= s.skip((end - pos) as int));
                    match cur.applied(&f) {
                        Ok(m) => {
                            cur = m;
                        },
                        Err((m, e)) => {
                            *self = m;
                            return Err(e);
                        },
                    }
                    pos = end;
                },
                Err(e) => {
                    *self = cur;
                    return Err(e);
                },
            }
        }
        assert(bytes@.skip(pos as int) =~= Seq::<u8>::empty());
        proof {
            lemma_merge_run_empty(cur@, Self::apply_fn());
        }
        *self = cur;
        Ok(())
    }

    /// Decodes a message from its encoding.
    pub fn decode(bytes: &[u8]) -> (r: Result<Self, WireError>)
        ensures
            match Self::spec_decode(bytes@) {
                Ok(v) => r matches Ok(m) && m@ == v,
                Err(e) => r matches Err(x) && x == e,
            },
    {
        proof {
            reveal(CMsgClientLogonResponse::spec_decode);
        }
        let mut m = Self::default();
        match m.merge(bytes) {
            Ok(()) => Ok(m),
            Err(e) => Err(e),
        }
    }

    /// The encoding of this message.
    pub fn encode_to_vec(&self) -> (r: Vec<u8>)
        ensures
            r@ == Self::spec_encode(self@),
    {
        let enc_public_ip = crate::steammessages_base::CMsgIPAddress::encode_opt(&self.public_ip);
        let ghost v = self@;
        let mut out: Vec<u8> = Vec::new();
        let ghost p0 = Seq::<SpecField>::empty();
        put_opt_i32(&mut out, 1, self.eresult);
        let ghost p1 = p0 + opt_i32(1, v.eresult);
        proof {
            lemma_fields_bytes_concat(p0, opt_i32(1, v.eresult));
        }
        put_opt_i32(&mut out, 2, self.legacy_out_of_game_heartbeat_seconds);
        let ghost p2 = p1 + opt_i32(2, v.legacy_out_of_game_heartbeat_seconds);
        proof {
            lemma_fields_bytes_concat(p1, opt_i32(2, v.legacy_out_of_game_heartbeat_seconds));
        }
        put_opt_i32(&mut out, 3, self.heartbeat_seconds);
        let ghost p3 = p2 + opt_i32(3, v.heartbeat_seconds);
        proof {
            lemma_fields_bytes_concat(p2, opt_i32(3, v.heartbeat_seconds));
        }
        put_opt_u32(&mut out, 4, self.deprecated_public_ip);
        let ghost p4 = p3 + opt_u32(4, v.deprecated_public_ip);
        proof {
            lemma_fields_bytes_concat(p3, opt_u32(4, v.deprecated_public_ip));
        }
        put_opt_fixed32(&mut out, 5, self.rtime32_server_time);
        let ghost p5 = p4 + opt_fixed32(5, v.rtime32_server_time);
        proof {
            lemma_fields_bytes_concat(p4, opt_fixed32(5, v.rtime32_server_time));
        }
        put_opt_u32(&mut out, 6, self.account_flags);
        let ghost p6 = p5 + opt_u32(6, v.account_flags);
        proof {
            lemma_fields_bytes_concat(p5, opt_u32(6, v.account_flags));
        }
        put_opt_u32(&mut out, 7, self.cell_id);
        let ghost p7 = p6 + opt_u32(7, v.cell_id);
        proof {
            lemma_fields_bytes_concat(p6, opt_u32(7, v.cell_id));
        }
        put_opt_string(&mut out, 8, &self.email_domain);
        let ghost p8 = p7 + opt_string(8, v.email_domain);
        proof {
            lemma_fields_bytes_concat(p7, opt_string(8, v.email_domain));
        }
        put_opt_bytes(&mut out, 9, &self.steam2_ticket);
        let ghost p9 = p8 + opt_bytes(9, v.steam2_ticket);
        proof {
            lemma_fields_bytes_concat(p8, opt_bytes(9, v.steam2_ticket));
        }
        put_opt_i32(&mut out, 10, self.eresult_extended);
        let ghost p10 = p9 + opt_i32(10, v.eresult_extended);
        proof {
            lemma_fields_bytes_concat(p9, opt_i32(10, v.eresult_extended));
        }
        put_opt_u32(&mut out, 12, self.cell_id_ping_threshold);
        let ghost p11 = p10 + opt_u32(12, v.cell_id_ping_threshold);
        proof {
            lemma_fields_bytes_concat(p10, opt_u32(12, v.cell_id_ping_threshold));
        }
        put_opt_bool(&mut out, 13, self.deprecated_use_pics);
        let ghost p12 = p11 + opt_bool(13, v.deprecated_use_pics);
        proof {
            lemma_fields_bytes_concat(p11, opt_bool(13, v.deprecated_use_pics));
        }
        put_opt_string(&mut out, 14, &self.vanity_url);
        let ghost p13 = p12 + opt_string(14, v.vanity_url);
        proof {
            lemma_fields_bytes_concat(p12, opt_string(14, v.vanity_url));
        }
        put_opt_bytes(&mut out, 15, &enc_public_ip);
        let ghost p14 = p13 + opt_bytes(15, crate::steammessages_base::CMsgIPAddress::spec_encode_opt(v.public_ip));
        proof {
            lemma_fields_bytes_concat(p13, opt_bytes(15, crate::steammessages_base::CMsgIPAddress::spec_encode_opt(v.public_ip)));
        }
        put_opt_string(&mut out, 16, &self.user_country);
        let ghost p15 = p14 + opt_string(16, v.user_country);
        proof {
            lemma_fields_bytes_concat(p14, opt_string(16, v.user_country));
        }
        put_opt_fixed64(&mut out, 20, self.client_supplied_steamid);
        let ghost p16 = p15 + opt_fixed64(20, v.client_supplied_steamid);
        proof {
            lemma_fields_bytes_concat(p15, opt_fixed64(20, v.client_supplied_steamid));
        }
        put_opt_string(&mut out, 21, &self.ip_country_code);
        let ghost p17 = p16 + opt_string(21, v.ip_country_code);
        proof {
            lemma_fields_bytes_concat(p16, opt_string(21, v.ip_country_code));
        }
        put_opt_bytes(&mut out, 22, &self.parental_settings);
        let ghost p18 = p17 + opt_bytes(22, v.parental_settings);
        proof {
            lemma_fields_bytes_concat(p17, opt_bytes(22, v.parental_settings));
        }
        put_opt_bytes(&mut out, 23, &self.parental_setting_signature);
        let ghost p19 = p18 + opt_bytes(23, v.parental_setting_signature);
        proof {
            lemma_fields_bytes_concat(p18, opt_bytes(23, v.parental_setting_signature));
        }
        put_opt_i32(&mut out, 24, self.count_loginfailures_to_migrate);
        let ghost p20 = p19 + opt_i32(24, v.count_loginfailures_to_migrate);
        proof {
            lemma_fields_bytes_concat(p19, opt_i32(24, v.count_loginfailures_to_migrate));
        }
        put_opt_i32(&mut out, 25, self.count_disconnects_to_migrate);
        let ghost p21 = p20 + opt_i32(25, v.count_disconnects_to_migrate);
        proof {
            lemma_fields_bytes_concat(p20, opt_i32(25, v.count_disconnects_to_migrate));
        }
        put_opt_i32(&mut out, 26, self.ogs_data_report_time_window);
        let ghost p22 = p21 + opt_i32(26, v.ogs_data_report_time_window);
        proof {
            lemma_fields_bytes_concat(p21, opt_i32(26, v.ogs_data_report_time_window));
        }
        put_opt_varint(&mut out, 27, self.client_instance_id);
        let ghost p23 = p22 + opt_u64(27, v.client_instance_id);
        proof {
            lemma_fields_bytes_concat(p22, opt_u64(27, v.client_instance_id));
        }
        put_opt_bool(&mut out, 28, self.force_client_update_check);
        let ghost p24 = p23 + opt_bool(28, v.force_client_update_check);
        proof {
            lemma_fields_bytes_concat(p23, opt_bool(28, v.force_client_update_check));
        }
        put_opt_string(&mut out, 29, &self.agreement_session_url);
        let ghost p25 = p24 + opt_string(29, v.agreement_session_url);
        proof {
            lemma_fields_bytes_concat(p24, opt_string(29, v.agreement_session_url));
        }
        put_opt_varint(&mut out, 30, self.token_id);
        let ghost p26 = p25 + opt_u64(30, v.token_id);
        proof {
            lemma_fields_bytes_concat(p25, opt_u64(30, v.token_id));
        }
        put_opt_varint(&mut out, 31, self.family_group_id);
        let ghost p27 = p26 + opt_u64(31, v.family_group_id);
        proof {
            lemma_fields_bytes_concat(p26, opt_u64(31, v.family_group_id));
        }
        proof {
            reveal(CMsgClientLogonResponse::spec_encode);
        }
        assert(p27 == Self::spec_fields(v));
        out
    }

    /// Appends the encoding of this message to `out`.
    pub fn encode_raw(&self, out: &mut Vec<u8>)
        ensures
            final(out)@ == old(out)@ + Self::spec_encode(self@),
    {
        let mut b = self.encode_to_vec();
        out.append(&mut b);
    }

    /// The first `k` fields of `v`, the others as a fresh message has them.
    #[verifier::opaque]
    pub open spec fn spec_prefix(v: SpecCMsgClientLogonResponse, k: int) -> SpecCMsgClientLogonResponse {
        SpecCMsgClientLogonResponse {
            eresult: if 1 <= k { v.eresult } else { None },
            legacy_out_of_game_heartbeat_seconds: if 2 <= k { v.legacy_out_of_game_heartbeat_seconds } else { None },
            heartbeat_seconds: if 3 <= k { v.heartbeat_seconds } else { None },
            deprecated_public_ip: if 4 <= k { v.deprecated_public_ip } else { None },
            rtime32_server_time: if 5 <= k { v.rtime32_server_time } else { None },
            account_flags: if 6 <= k { v.account_flags } else { None },
            cell_id: if 7 <= k { v.cell_id } else { None },
            email_domain: if 8 <= k { v.email_domain } else { None },
            steam2_ticket: if 9 <= k { v.steam2_ticket } else { None },
            eresult_extended: if 10 <= k { v.eresult_extended } else { None },
            cell_id_ping_threshold: if 11 <= k { v.cell_id_ping_threshold } else { None },
            deprecated_use_pics: if 12 <= k { v.deprecated_use_pics } else { None },
            vanity_url: if 13 <= k { v.vanity_url } else { None },
            public_ip: if 14 <= k { v.public_ip } else { None },
            user_country: if 15 <= k { v.user_country } else { None },
            client_supplied_steamid: if 16 <= k { v.client_supplied_steamid } else { None },
            ip_country_code: if 17 <= k { v.ip_country_code } else { None },
            parental_settings: if 18 <= k { v.parental_settings } else { None },
            parental_setting_signature: if 19 <= k { v.parental_setting_signature } else { None },
            count_loginfailures_to_migrate: if 20 <= k { v.count_loginfailures_to_migrate } else { None },
            count_disconnects_to_migrate: if 21 <= k { v.count_disconnects_to_migrate } else { None },
            ogs_data_report_time_window: if 22 <= k { v.ogs_data_report_time_window } else { None },
            client_instance_id: if 23 <= k { v.client_instance_id } else { None },
            force_client_update_check: if 24 <= k { v.force_client_update_check } else { None },
            agreement_session_url: if 25 <= k { v.agreement_session_url } else { None },
            token_id: if 26 <= k { v.token_id } else { None },
            family_group_id: if 27 <= k { v.family_group_id } else { None },
        }
    }

    /// Reading field 1 back, after the fields before it.
    proof fn lemma_field_eresult(v: SpecCMsgClientLogonResponse)
        ensures
            fold_fields(Self::spec_prefix(v, 0), opt_i32(1, v.eresult), Self::apply_fn())
                == Ok::<SpecCMsgClientLogonResponse, WireError>(Self::spec_prefix(v, 1)),
    {
        reveal(CMsgClientLogonResponse::spec_prefix);
        reveal(opt_i32);
        let apply = Self::apply_fn();
        let s = Self::spec_prefix(v, 0);
        lemma_fold_opt(s, 1, match v.eresult { Some(x) => Some(enc_i32(x)), None => None }, apply);
        if let Some(x) = v.eresult {
            lemma_i32_roundtrip(x);
        }
        assert(SpecCMsgClientLogonResponse { eresult: v.eresult, ..s } == Self::spec_prefix(v, 1));
    }

    /// Reading field 2 back, after the fields before it.
    proof fn lemma_field_legacy_out_of_game_heartbeat_seconds(v: SpecCMsgClientLogonResponse)
        ensures
            fold_fields(Self::spec_prefix(v, 1), opt_i32(2, v.legacy_out_of_game_heartbeat_seconds), Self::apply_fn())
                == Ok::<SpecCMsgClientLogonResponse, WireError>(Self::spec_prefix(v, 2)),
    {
        reveal(CMsgClientLogonResponse::spec_prefix);
        reveal(opt_i32);
        let apply = Self::apply_fn();
        let s = Self::spec_prefix(v, 1);
        lemma_fold_opt(s, 2, match v.legacy_out_of_game_heartbeat_seconds { Some(x) => Some(enc_i32(x)), None => None }, apply);
        if let Some(x) = v.legacy_out_of_game_heartbeat_seconds {
            lemma_i32_roundtrip(x);
        }
        assert(SpecCMsgClientLogonResponse { legacy_out_of_game_heartbeat_seconds: v.legacy_out_of_game_heartbeat_seconds, ..s } == Self::spec_prefix(v, 2));
    }

    /// Reading field 3 back, after the fields before it.
    proof fn lemma_field_heartbeat_seconds(v: SpecCMsgClientLogonResponse)
        ensures
            fold_fields(Self::spec_prefix(v, 2), opt_i32(3, v.heartbeat_seconds), Self::apply_fn())
                == Ok::<SpecCMsgClientLogonResponse, WireError>(Self::spec_prefix(v, 3)),
    {
        reveal(CMsgClientLogonResponse::spec_prefix);
        reveal(opt_i32);
        let apply = Self::apply_fn();
        let s = Self::spec_prefix(v, 2);
        lemma_fold_opt(s, 3, match v.heartbeat_seconds { Some(x) => Some(enc_i32(x)), None => None }, apply);
        if let Some(x) = v.heartbeat_seconds {
            lemma_i32_roundtrip(x);
        }
        assert(SpecCMsgClientLogonResponse { heartbeat_seconds: v.heartbeat_seconds, ..s } == Self::spec_prefix(v, 3));
    }

    /// Reading field 4 back, after the fields before it.
    proof fn lemma_field_deprecated_public_ip(v: SpecCMsgClientLogonResponse)
        ensures
            fold_fields(Self::spec_prefix(v, 3), opt_u32(4, v.deprecated_public_ip), Self::apply_fn())
                == Ok::<SpecCMsgClientLogonResponse, WireError>(Self::spec_prefix(v, 4)),
    {
        reveal(CMsgClientLogonResponse::spec_prefix);
        reveal(opt_u32);
        let apply = Self::apply_fn();
        let s = Self::spec_prefix(v, 3);
        lemma_fold_opt(s, 4, match v.deprecated_public_ip { Some(x) => Some(enc_u32(x)), None => None }, apply);
        if let Some(x) = v.deprecated_public_ip {
            lemma_u32_roundtrip(x);
        }
        assert(SpecCMsgClientLogonResponse { deprecated_public_ip: v.deprecated_public_ip, ..s } == Self::spec_prefix(v, 4));
    }

    /// Reading field 5 back, after the fields before it.
    proof fn lemma_field_rtime32_server_time(v: SpecCMsgClientLogonResponse)
        ensures
            fold_fields(Self::spec_prefix(v, 4), opt_fixed32(5, v.rtime32_server_time), Self::apply_fn())
                == Ok::<SpecCMsgClientLogonResponse, WireError>(Self::spec_prefix(v, 5)),
    {
        reveal(CMsgClientLogonResponse::spec_prefix);
        reveal(opt_fixed32);
        let apply = Self::apply_fn();
        let s = Self::spec_prefix(v, 4);
        lemma_fold_opt(s, 5, match v.rtime32_server_time { Some(x) => Some(enc_fixed32(x)), None => None }, apply);
        assert(SpecCMsgClientLogonResponse { rtime32_server_time: v.rtime32_server_time, ..s } == Self::spec_prefix(v, 5));
    }

    /// Reading field 6 back, after the fields before it.
    proof fn lemma_field_account_flags(v: SpecCMsgClientLogonResponse)
        ensures
            fold_fields(Self::spec_prefix(v, 5), opt_u32(6, v.account_flags), Self::apply_fn())
                == Ok::<SpecCMsgClientLogonResponse, WireError>(Self::spec_prefix(v, 6)),
    {
        reveal(CMsgClientLogonResponse::spec_prefix);
        reveal(opt_u32);
        let apply = Self::apply_fn();
        let s = Self::spec_prefix(v, 5);
        lemma_fold_opt(s, 6, match v.account_flags { Some(x) => Some(enc_u32(x)), None => None }, apply);
        if let Some(x) = v.account_flags {
            lemma_u32_roundtrip(x);
        }
        assert(SpecCMsgClientLogonResponse { account_flags: v.account_flags, ..s } == Self::spec_prefix(v, 6));
    }

    /// Reading field 7 back, after the fields before it.
    proof fn lemma_field_cell_id(v: SpecCMsgClientLogonResponse)
        ensures
            fold_fields(Self::spec_prefix(v, 6), opt_u32(7, v.cell_id), Self::apply_fn())
                == Ok::<SpecCMsgClientLogonResponse, WireError>(Self::spec_prefix(v, 7)),
    {
        reveal(CMsgClientLogonResponse::spec_prefix);
        reveal(opt_u32);
        let apply = Self::apply_fn();
        let s = Self::spec_prefix(v, 6);
        lemma_fold_opt(s, 7, match v.cell_id { Some(x) => Some(enc_u32(x)), None => None }, apply);
        if let Some(x) = v.cell_id {
            lemma_u32_roundtrip(x);
        }
        assert(SpecCMsgClientLogonResponse { cell_id: v.cell_id, ..s } == Self::spec_prefix(v, 7));
    }

    /// Reading field 8 back, after the fields before it.
    proof fn lemma_field_email_domain(v: SpecCMsgClientLogonResponse)
        ensures
            fold_fields(Self::spec_prefix(v, 7), opt_string(8, v.email_domain), Self::apply_fn())
                == Ok::<SpecCMsgClientLogonResponse, WireError>(Self::spec_prefix(v, 8)),
    {
        reveal(CMsgClientLogonResponse::spec_prefix);
        reveal(opt_string);
        let apply = Self::apply_fn();
        let s = Self::spec_prefix(v, 7);
        lemma_fold_opt(s, 8, match v.email_domain { Some(x) => Some(enc_string(x)), None => None }, apply);
        if let Some(x) = v.email_domain {
            lemma_string_roundtrip(x);
        }
        assert(SpecCMsgClientLogonResponse { email_domain: v.email_domain, ..s } == Self::spec_prefix(v, 8));
    }

    /// Reading field 9 back, after the fields before it.
    proof fn lemma_field_steam2_ticket(v: SpecCMsgClientLogonResponse)
        ensures
            fold_fields(Self::spec_prefix(v, 8), opt_bytes(9, v.steam2_ticket), Self::apply_fn())
                == Ok::<SpecCMsgClientLogonResponse, WireError>(Self::spec_prefix(v, 9)),
    {
        reveal(CMsgClientLogonResponse::spec_prefix);
        reveal(opt_bytes);
        let apply = Self::apply_fn();
        let s = Self::spec_prefix(v, 8);
        lemma_fold_opt(s, 9, match v.steam2_ticket { Some(x) => Some(enc_bytes(x)), None => None }, apply);
        assert(SpecCMsgClientLogonResponse { steam2_ticket: v.steam2_ticket, ..s } == Self::spec_prefix(v, 9));
    }

    /// Reading field 10 back, after the fields before it.
    proof fn lemma_field_eresult_extended(v: SpecCMsgClientLogonResponse)
        ensures
            fold_fields(Self::spec_prefix(v, 9), opt_i32(10, v.eresult_extended), Self::apply_fn())
                == Ok::<SpecCMsgClientLogonResponse, WireError>(Self::spec_prefix(v, 10)),
    {
        reveal(CMsgClientLogonResponse::spec_prefix);
        reveal(opt_i32);
        let apply = Self::apply_fn();
        let s = Self::spec_prefix(v, 9);
        lemma_fold_opt(s, 10, match v.eresult_extended { Some(x) => Some(enc_i32(x)), None => None }, apply);
        if let Some(x) = v.eresult_extended {
            lemma_i32_roundtrip(x);
        }
        assert(SpecCMsgClientLogonResponse { eresult_extended: v.eresult_extended, ..s } == Self::spec_prefix(v, 10));
    }

    /// Reading field 12 back, after the fields before it.
    proof fn lemma_field_cell_id_ping_threshold(v: SpecCMsgClientLogonResponse)
        ensures
            fold_fields(Self::spec_prefix(v, 10), opt_u32(12, v.cell_id_ping_threshold), Self::apply_fn())
                == Ok::<SpecCMsgClientLogonResponse, WireError>(Self::spec_prefix(v, 11)),
    {
        reveal(CMsgClientLogonResponse::spec_prefix);
        reveal(opt_u32);
        let apply = Self::apply_fn();
        let s = Self::spec_prefix(v, 10);
        lemma_fold_opt(s, 12, match v.cell_id_ping_threshold { Some(x) => Some(enc_u32(x)), None => None }, apply);
        if let Some(x) = v.cell_id_ping_threshold {
            lemma_u32_roundtrip(x);
        }
        assert(SpecCMsgClientLogonResponse { cell_id_ping_threshold: v.cell_id_ping_threshold, ..s } == Self::spec_prefix(v, 11));
    }

    /// Reading field 13 back, after the fields before it.
    proof fn lemma_field_deprecated_use_pics(v: SpecCMsgClientLogonResponse)
        ensures
            fold_fields(Self::spec_prefix(v, 11), opt_bool(13, v.deprecated_use_pics), Self::apply_fn())
                == Ok::<SpecCMsgClientLogonResponse, WireError>(Self::spec_prefix(v, 12)),
    {
        reveal(CMsgClientLogonResponse::spec_prefix);
        reveal(opt_bool);
        let apply = Self::apply_fn();
        let s = Self::spec_prefix(v, 11);
        lemma_fold_opt(s, 13, match v.deprecated_use_pics { Some(x) => Some(enc_bool(x)), None => None }, apply);
        assert(SpecCMsgClientLogonResponse { deprecated_use_pics: v.deprecated_use_pics, ..s } == Self::spec_prefix(v, 12));
    }

    /// Reading field 14 back, after the fields before it.
    proof fn lemma_field_vanity_url(v: SpecCMsgClientLogonResponse)
        ensures
            fold_fields(Self::spec_prefix(v, 12), opt_string(14, v.vanity_url), Self::apply_fn())
                == Ok::<SpecCMsgClientLogonResponse, WireError>(Self::spec_prefix(v, 13)),
    {
        reveal(CMsgClientLogonResponse::spec_prefix);
        reveal(opt_string);
        let apply = Self::apply_fn();
        let s = Self::spec_prefix(v, 12);
        lemma_fold_opt(s, 14, match v.vanity_url { Some(x) => Some(enc_string(x)), None => None }, apply);
        if let Some(x) = v.vanity_url {
            lemma_string_roundtrip(x);
        }
        assert(SpecCMsgClientLogonResponse { vanity_url: v.vanity_url, ..s } == Self::spec_prefix(v, 13));
    }

    /// Reading field 15 back, after the fields before it.
    proof fn lemma_field_public_ip(v: SpecCMsgClientLogonResponse)
        requires
            fields_wf(opt_bytes(15, crate::steammessages_base::CMsgIPAddress::spec_encode_opt(v.public_ip))),
        ensures
            fold_fields(Self::spec_prefix(v, 13), opt_bytes(15, crate::steammessages_base::CMsgIPAddress::spec_encode_opt(v.public_ip)), Self::apply_fn())
                == Ok::<SpecCMsgClientLogonResponse, WireError>(Self::spec_prefix(v, 14)),
    {
        reveal(CMsgClientLogonResponse::spec_prefix);
        reveal(opt_bytes);
        reveal(fields_wf);
        let apply = Self::apply_fn();
        let s = Self::spec_prefix(v, 13);
        lemma_fold_opt(s, 15, match crate::steammessages_base::CMsgIPAddress::spec_encode_opt(v.public_ip) { Some(x) => Some(enc_bytes(x)), None => None }, apply);
        if let Some(m) = v.public_ip {
            assert(field_wf(opt_bytes(15, crate::steammessages_base::CMsgIPAddress::spec_encode_opt(v.public_ip))[0]));
            crate::steammessages_base::CMsgIPAddress::lemma_decode_encode(m);
        }
        assert(SpecCMsgClientLogonResponse { public_ip: v.public_ip, ..s } == Self::spec_prefix(v, 14));
    }

    /// Reading field 16 back, after the fields before it.
    proof fn lemma_field_user_country(v: SpecCMsgClientLogonResponse)
        ensures
            fold_fields(Self::spec_prefix(v, 14), opt_string(16, v.user_country), Self::apply_fn())
                == Ok::<SpecCMsgClientLogonResponse, WireError>(Self::spec_prefix(v, 15)),
    {
        reveal(CMsgClientLogonResponse::spec_prefix);
        reveal(opt_string);
        let apply = Self::apply_fn();
        let s = Self::spec_prefix(v, 14);
        lemma_fold_opt(s, 16, match v.user_country { Some(x) => Some(enc_string(x)), None => None }, apply);
        if let Some(x) = v.user_country {
            lemma_string_roundtrip(x);
        }
        assert(SpecCMsgClientLogonResponse { user_country: v.user_country, ..s } == Self::spec_prefix(v, 15));
    }

    /// Reading field 20 back, after the fields before it.
    proof fn lemma_field_client_supplied_steamid(v: SpecCMsgClientLogonResponse)
        ensures
            fold_fields(Self::spec_prefix(v, 15), opt_fixed64(20, v.client_supplied_steamid), Self::apply_fn())
                == Ok::<SpecCMsgClientLogonResponse, WireError>(Self::spec_prefix(v, 16)),
    {
        reveal(CMsgClientLogonResponse::spec_prefix);
        reveal(opt_fixed64);
        let apply = Self::apply_fn();
        let s = Self::spec_prefix(v, 15);
        lemma_fold_opt(s, 20, match v.client_supplied_steamid { Some(x) => Some(enc_fixed64(x)), None => None }, apply);
        if let Some(x) = v.client_supplied_steamid {
            lemma_u64_roundtrip(x);
        }
        assert(SpecCMsgClientLogonResponse { client_supplied_steamid: v.client_supplied_steamid, ..s } == Self::spec_prefix(v, 16));
    }

    /// Reading field 21 back, after the fields before it.
    proof fn lemma_field_ip_country_code(v: SpecCMsgClientLogonResponse)
        ensures
            fold_fields(Self::spec_prefix(v, 16), opt_string(21, v.ip_country_code), Self::apply_fn())
                == Ok::<SpecCMsgClientLogonResponse, WireError>(Self::spec_prefix(v, 17)),
    {
        reveal(CMsgClientLogonResponse::spec_prefix);
        reveal(opt_string);
        let apply = Self::apply_fn();
        let s = Self::spec_prefix(v, 16);
        lemma_fold_opt(s, 21, match v.ip_country_code { Some(x) => Some(enc_string(x)), None => None }, apply);
        if let Some(x) = v.ip_country_code {
            lemma_string_roundtrip(x);
        }
        assert(SpecCMsgClientLogonResponse { ip_country_code: v.ip_country_code, ..s } == Self::spec_prefix(v, 17));
    }

    /// Reading field 22 back, after the fields before it.
    proof fn lemma_field_parental_settings(v: SpecCMsgClientLogonResponse)
        ensures
            fold_fields(Self::spec_prefix(v, 17), opt_bytes(22, v.parental_settings), Self::apply_fn())
                == Ok::<SpecCMsgClientLogonResponse, WireError>(Self::spec_prefix(v, 18)),
    {
        reveal(CMsgClientLogonResponse::spec_prefix);
        reveal(opt_bytes);
        let apply = Self::apply_fn();
        let s = Self::spec_prefix(v, 17);
        lemma_fold_opt(s, 22, match v.parental_settings { Some(x) => Some(enc_bytes(x)), None => None }, apply);
        assert(SpecCMsgClientLogonResponse { parental_settings: v.parental_settings, ..s } == Self::spec_prefix(v, 18));
    }

    /// Reading field 23 back, after the fields before it.
    proof fn lemma_field_parental_setting_signature(v: SpecCMsgClientLogonResponse)
        ensures
            fold_fields(Self::spec_prefix(v, 18), opt_bytes(23, v.parental_setting_signature), Self::apply_fn())
                == Ok::<SpecCMsgClientLogonResponse, WireError>(Self::spec_prefix(v, 19)),
    {
        reveal(CMsgClientLogonResponse::spec_prefix);
        reveal(opt_bytes);
        let apply = Self::apply_fn();
        let s = Self::spec_prefix(v, 18);
        lemma_fold_opt(s, 23, match v.parental_setting_signature { Some(x) => Some(enc_bytes(x)), None => None }, apply);
        assert(SpecCMsgClientLogonResponse { parental_setting_signature: v.parental_setting_signature, ..s } == Self::spec_prefix(v, 19));
    }

    /// Reading field 24 back, after the fields before it.
    proof fn lemma_field_count_loginfailures_to_migrate(v: SpecCMsgClientLogonResponse)
        ensures
            fold_fields(Self::spec_prefix(v, 19), opt_i32(24, v.count_loginfailures_to_migrate), Self::apply_fn())
                == Ok::<SpecCMsgClientLogonResponse, WireError>(Self::spec_prefix(v, 20)),
    {
        reveal(CMsgClientLogonResponse::spec_prefix);
        reveal(opt_i32);
        let apply = Self::apply_fn();
        let s = Self::spec_prefix(v, 19);
        lemma_fold_opt(s, 24, match v.count_loginfailures_to_migrate { Some(x) => Some(enc_i32(x)), None => None }, apply);
        if let Some(x) = v.count_loginfailures_to_migrate {
            lemma_i32_roundtrip(x);
        }
        assert(SpecCMsgClientLogonResponse { count_loginfailures_to_migrate: v.count_loginfailures_to_migrate, ..s } == Self::spec_prefix(v, 20));
    }

    /// Reading field 25 back, after the fields before it.
    proof fn lemma_field_count_disconnects_to_migrate(v: SpecCMsgClientLogonResponse)
        ensures
            fold_fields(Self::spec_prefix(v, 20), opt_i32(25, v.count_disconnects_to_migrate), Self::apply_fn())
                == Ok::<SpecCMsgClientLogonResponse, WireError>(Self::spec_prefix(v, 21)),
    {
        reveal(CMsgClientLogonResponse::spec_prefix);
        reveal(opt_i32);
        let apply = Self::apply_fn();
        let s = Self::spec_prefix(v, 20);
        lemma_fold_opt(s, 25, match v.count_disconnects_to_migrate { Some(x) => Some(enc_i32(x)), None => None }, apply);
        if let Some(x) = v.count_disconnects_to_migrate {
            lemma_i32_roundtrip(x);
        }
        assert(SpecCMsgClientLogonResponse { count_disconnects_to_migrate: v.count_disconnects_to_migrate, ..s } == Self::spec_prefix(v, 21));
    }

    /// Reading field 26 back, after the fields before it.
    proof fn lemma_field_ogs_data_report_time_window(v: SpecCMsgClientLogonResponse)
        ensures
            fold_fields(Self::spec_prefix(v, 21), opt_i32(26, v.ogs_data_report_time_window), Self::apply_fn())
                == Ok::<SpecCMsgClientLogonResponse, WireError>(Self::spec_prefix(v, 22)),
    {
        reveal(CMsgClientLogonResponse::spec_prefix);
        reveal(opt_i32);
        let apply = Self::apply_fn();
        let s = Self::spec_prefix(v, 21);
        lemma_fold_opt(s, 26, match v.ogs_data_report_time_window { Some(x) => Some(enc_i32(x)), None => None }, apply);
        if let Some(x) = v.ogs_data_report_time_window {
            lemma_i32_roundtrip(x);
        }
        assert(SpecCMsgClientLogonResponse { ogs_data_report_time_window: v.ogs_data_report_time_window, ..s } == Self::spec_prefix(v, 22));
    }

    /// Reading field 27 back, after the fields before it.
    proof fn lemma_field_client_instance_id(v: SpecCMsgClientLogonResponse)
        ensures
            fold_fields(Self::spec_prefix(v, 22), opt_u64(27, v.client_instance_id), Self::apply_fn())
                == Ok::<SpecCMsgClientLogonResponse, WireError>(Self::spec_prefix(v, 23)),
    {
        reveal(CMsgClientLogonResponse::spec_prefix);
        reveal(opt_u64);
        let apply = Self::apply_fn();
        let s = Self::spec_prefix(v, 22);
        lemma_fold_opt(s, 27, match v.client_instance_id { Some(x) => Some(enc_u64(x)), None => None }, apply);
        if let Some(x) = v.client_instance_id {
            lemma_u64_roundtrip(x);
        }
        assert(SpecCMsgClientLogonResponse { client_instance_id: v.client_instance_id, ..s } == Self::spec_prefix(v, 23));
    }

    /// Reading field 28 back, after the fields before it.
    proof fn lemma_field_force_client_update_check(v: SpecCMsgClientLogonResponse)
        ensures
            fold_fields(Self::spec_prefix(v, 23), opt_bool(28, v.force_client_update_check), Self::apply_fn())
                == Ok::<SpecCMsgClientLogonResponse, WireError>(Self::spec_prefix(v, 24)),
    {
        reveal(CMsgClientLogonResponse::spec_prefix);
        reveal(opt_bool);
        let apply = Self::apply_fn();
        let s = Self::spec_prefix(v, 23);
        lemma_fold_opt(s, 28, match v.force_client_update_check { Some(x) => Some(enc_bool(x)), None => None }, apply);
        assert(SpecCMsgClientLogonResponse { force_client_update_check: v.force_client_update_check, ..s } == Self::spec_prefix(v, 24));
    }

    /// Reading field 29 back, after the fields before it.
    proof fn lemma_field_agreement_session_url(v: SpecCMsgClientLogonResponse)
        ensures
            fold_fields(Self::spec_prefix(v, 24), opt_string(29, v.agreement_session_url), Self::apply_fn())
                == Ok::<SpecCMsgClientLogonResponse, WireError>(Self::spec_prefix(v, 25)),
    {
        reveal(CMsgClientLogonResponse::spec_prefix);
        reveal(opt_string);
        let apply = Self::apply_fn();
        let s = Self::spec_prefix(v, 24);
        lemma_fold_opt(s, 29, match v.agreement_session_url { Some(x) => Some(enc_string(x)), None => None }, apply);
        if let Some(x) = v.agreement_session_url {
            lemma_string_roundtrip(x);
        }
        assert(SpecCMsgClientLogonResponse { agreement_session_url: v.agreement_session_url, ..s } == Self::spec_prefix(v, 25));
    }

    /// Reading field 30 back, after the fields before it.
    proof fn lemma_field_token_id(v: SpecCMsgClientLogonResponse)
        ensures
            fold_fields(Self::spec_prefix(v, 25), opt_u64(30, v.token_id), Self::apply_fn())
                == Ok::<SpecCMsgClientLogonResponse, WireError>(Self::spec_prefix(v, 26)),
    {
        reveal(CMsgClientLogonResponse::spec_prefix);
        reveal(opt_u64);
        let apply = Self::apply_fn();
        let s = Self::spec_prefix(v, 25);
        lemma_fold_opt(s, 30, match v.token_id { Some(x) => Some(enc_u64(x)), None => None }, apply);
        if let Some(x) = v.token_id {
            lemma_u64_roundtrip(x);
        }
        assert(SpecCMsgClientLogonResponse { token_id: v.token_id, ..s } == Self::spec_prefix(v, 26));
    }

    /// Reading field 31 back, after the fields before it.
    proof fn lemma_field_family_group_id(v: SpecCMsgClientLogonResponse)
        ensures
            fold_fields(Self::spec_prefix(v, 26), opt_u64(31, v.family_group_id), Self::apply_fn())
                == Ok::<SpecCMsgClientLogonResponse, WireError>(Self::spec_prefix(v, 27)),
    {
        reveal(CMsgClientLogonResponse::spec_prefix);
        reveal(opt_u64);
        let apply = Self::apply_fn();
        let s = Self::spec_prefix(v, 26);
        lemma_fold_opt(s, 31, match v.family_group_id { Some(x) => Some(enc_u64(x)), None => None }, apply);
        if let Some(x) = v.family_group_id {
            lemma_u64_roundtrip(x);
        }
        assert(SpecCMsgClientLogonResponse { family_group_id: v.family_group_id, ..s } == Self::spec_prefix(v, 27));
    }

    /// Whether this message declares field number `n`.
    pub open spec fn declares(n: u32) -> bool {
        n == 1 || n == 2 || n == 3 || n == 4 || n == 5 || n == 6 || n == 7 || n == 8 || n == 9 || n == 10 || n == 12 || n == 13 || n == 14 || n == 15 || n == 16 || n == 20 || n == 21 || n == 22 || n == 23 || n == 24 || n == 25 || n == 26 || n == 27 || n == 28 || n == 29 || n == 30 || n == 31
    }

    /// A record with a number this message does not declare is passed over: well-formed
    /// bytes decode to the same message with such a record after them as without it.
    pub proof fn lemma_unknown_field(bytes: Seq<u8>, f: SpecField)
        requires
            parse_fields(bytes) is Ok,
            field_wf(f),
            !Self::declares(f.number),
        ensures
            Self::spec_decode(bytes + field_bytes(f)) == Self::spec_decode(bytes),
    {
        reveal(CMsgClientLogonResponse::spec_decode);
        lemma_parse_fields_append(bytes, f);
        let fs = parse_fields(bytes).unwrap();
        let apply = Self::apply_fn();
        lemma_fold_concat(Self::spec_default(), fs, seq![f], apply);
        assert(fs.push(f) =~= fs + seq![f]);
        if let Ok(w) = fold_fields(Self::spec_default(), fs, apply) {
            lemma_fold_single(w, f, apply);
        }
        lemma_merge_run_fold(Self::spec_default(), bytes, apply);
        lemma_merge_run_fold(Self::spec_default(), bytes + field_bytes(f), apply);
    }

    /// Decoding the encoding of a message gives the message back.
    pub proof fn lemma_decode_encode(v: SpecCMsgClientLogonResponse)
        requires
            Self::spec_encode(v).len() <= u64::MAX,
        ensures
            Self::spec_decode(Self::spec_encode(v)) == Ok::<SpecCMsgClientLogonResponse, WireError>(v),
    {
        let apply = Self::apply_fn();
        let d = Self::spec_default();
        let p0 = Seq::<SpecField>::empty();
        let l1 = opt_i32(1, v.eresult);
        let p1 = p0 + l1;
        let l2 = opt_i32(2, v.legacy_out_of_game_heartbeat_seconds);
        let p2 = p1 + l2;
        let l3 = opt_i32(3, v.heartbeat_seconds);
        let p3 = p2 + l3;
        let l4 = opt_u32(4, v.deprecated_public_ip);
        let p4 = p3 + l4;
        let l5 = opt_fixed32(5, v.rtime32_server_time);
        let p5 = p4 + l5;
        let l6 = opt_u32(6, v.account_flags);
        let p6 = p5 + l6;
        let l7 = opt_u32(7, v.cell_id);
        let p7 = p6 + l7;
        let l8 = opt_string(8, v.email_domain);
        let p8 = p7 + l8;
        let l9 = opt_bytes(9, v.steam2_ticket);
        let p9 = p8 + l9;
        let l10 = opt_i32(10, v.eresult_extended);
        let p10 = p9 + l10;
        let l11 = opt_u32(12, v.cell_id_ping_threshold);
        let p11 = p10 + l11;
        let l12 = opt_bool(13, v.deprecated_use_pics);
        let p12 = p11 + l12;
        let l13 = opt_string(14, v.vanity_url);
        let p13 = p12 + l13;
        let l14 = opt_bytes(15, crate::steammessages_base::CMsgIPAddress::spec_encode_opt(v.public_ip));
        let p14 = p13 + l14;
        let l15 = opt_string(16, v.user_country);
        let p15 = p14 + l15;
        let l16 = opt_fixed64(20, v.client_supplied_steamid);
        let p16 = p15 + l16;
        let l17 = opt_string(21, v.ip_country_code);
        let p17 = p16 + l17;
        let l18 = opt_bytes(22, v.parental_settings);
        let p18 = p17 + l18;
        let l19 = opt_bytes(23, v.parental_setting_signature);
        let p19 = p18 + l19;
        let l20 = opt_i32(24, v.count_loginfailures_to_migrate);
        let p20 = p19 + l20;
        let l21 = opt_i32(25, v.count_disconnects_to_migrate);
        let p21 = p20 + l21;
        let l22 = opt_i32(26, v.ogs_data_report_time_window);
        let p22 = p21 + l22;
        let l23 = opt_u64(27, v.client_instance_id);
        let p23 = p22 + l23;
        let l24 = opt_bool(28, v.force_client_update_check);
        let p24 = p23 + l24;
        let l25 = opt_string(29, v.agreement_session_url);
        let p25 = p24 + l25;
        let l26 = opt_u64(30, v.token_id);
        let p26 = p25 + l26;
        let l27 = opt_u64(31, v.family_group_id);
        let p27 = p26 + l27;
        assert(parse_fields(Self::spec_encode(v)) == Ok::<Seq<SpecField>, WireError>(p27) && fields_wf(l14)) by {
            reveal(CMsgClientLogonResponse::spec_encode);
            assert(numbers_ok(p0) && fields_wf(p0)) by {
                reveal(numbers_ok);
                reveal(fields_wf);
            }
            lemma_opt_i32_numbered(1, v.eresult);
            lemma_fields_wf_concat(p0, l1);
            lemma_opt_i32_numbered(2, v.legacy_out_of_game_heartbeat_seconds);
            lemma_fields_wf_concat(p1, l2);
            lemma_opt_i32_numbered(3, v.heartbeat_seconds);
            lemma_fields_wf_concat(p2, l3);
            lemma_opt_u32_numbered(4, v.deprecated_public_ip);
            lemma_fields_wf_concat(p3, l4);
            lemma_opt_fixed32_numbered(5, v.rtime32_server_time);
            lemma_fields_wf_concat(p4, l5);
            lemma_opt_u32_numbered(6, v.account_flags);
            lemma_fields_wf_concat(p5, l6);
            lemma_opt_u32_numbered(7, v.cell_id);
            lemma_fields_wf_concat(p6, l7);
            lemma_opt_string_numbered(8, v.email_domain);
            lemma_fields_wf_concat(p7, l8);
            lemma_opt_bytes_numbered(9, v.steam2_ticket);
            lemma_fields_wf_concat(p8, l9);
            lemma_opt_i32_numbered(10, v.eresult_extended);
            lemma_fields_wf_concat(p9, l10);
            lemma_opt_u32_numbered(12, v.cell_id_ping_threshold);
            lemma_fields_wf_concat(p10, l11);
            lemma_opt_bool_numbered(13, v.deprecated_use_pics);
            lemma_fields_wf_concat(p11, l12);
            lemma_opt_string_numbered(14, v.vanity_url);
            lemma_fields_wf_concat(p12, l13);
            lemma_opt_bytes_numbered(15, crate::steammessages_base::CMsgIPAddress::spec_encode_opt(v.public_ip));
            lemma_fields_wf_concat(p13, l14);
            lemma_opt_string_numbered(16, v.user_country);
            lemma_fields_wf_concat(p14, l15);
            lemma_opt_fixed64_numbered(20, v.client_supplied_steamid);
            lemma_fields_wf_concat(p15, l16);
            lemma_opt_string_numbered(21, v.ip_country_code);
            lemma_fields_wf_concat(p16, l17);
            lemma_opt_bytes_numbered(22, v.parental_settings);
            lemma_fields_wf_concat(p17, l18);
            lemma_opt_bytes_numbered(23, v.parental_setting_signature);
            lemma_fields_wf_concat(p18, l19);
            lemma_opt_i32_numbered(24, v.count_loginfailures_to_migrate);
            lemma_fields_wf_concat(p19, l20);
            lemma_opt_i32_numbered(25, v.count_disconnects_to_migrate);
            lemma_fields_wf_concat(p20, l21);
            lemma_opt_i32_numbered(26, v.ogs_data_report_time_window);
            lemma_fields_wf_concat(p21, l22);
            lemma_opt_u64_numbered(27, v.client_instance_id);
            lemma_fields_wf_concat(p22, l23);
            lemma_opt_bool_numbered(28, v.force_client_update_check);
            lemma_fields_wf_concat(p23, l24);
            lemma_opt_string_numbered(29, v.agreement_session_url);
            lemma_fields_wf_concat(p24, l25);
            lemma_opt_u64_numbered(30, v.token_id);
            lemma_fields_wf_concat(p25, l26);
            lemma_opt_u64_numbered(31, v.family_group_id);
            lemma_fields_wf_concat(p26, l27);
            assert(p27 == Self::spec_fields(v));
            lemma_fields_wf_from_len(p27);
            lemma_fields_roundtrip(p27);
        }
        assert(Self::spec_prefix(v, 0) == d) by {
            reveal(CMsgClientLogonResponse::spec_prefix);
        }
        lemma_fold_empty(d, apply);
        lemma_fold_concat(d, p0, l1, apply);
        Self::lemma_field_eresult(v);
        lemma_fold_concat(d, p1, l2, apply);
        Self::lemma_field_legacy_out_of_game_heartbeat_seconds(v);
        lemma_fold_concat(d, p2, l3, apply);
        Self::lemma_field_heartbeat_seconds(v);
        lemma_fold_concat(d, p3, l4, apply);
        Self::lemma_field_deprecated_public_ip(v);
        lemma_fold_concat(d, p4, l5, apply);
        Self::lemma_field_rtime32_server_time(v);
        lemma_fold_concat(d, p5, l6, apply);
        Self::lemma_field_account_flags(v);
        lemma_fold_concat(d, p6, l7, apply);
        Self::lemma_field_cell_id(v);
        lemma_fold_concat(d, p7, l8, apply);
        Self::lemma_field_email_domain(v);
        lemma_fold_concat(d, p8, l9, apply);
        Self::lemma_field_steam2_ticket(v);
        lemma_fold_concat(d, p9, l10, apply);
        Self::lemma_field_eresult_extended(v);
        lemma_fold_concat(d, p10, l11, apply);
        Self::lemma_field_cell_id_ping_threshold(v);
        lemma_fold_concat(d, p11, l12, apply);
        Self::lemma_field_deprecated_use_pics(v);
        lemma_fold_concat(d, p12, l13, apply);
        Self::lemma_field_vanity_url(v);
        lemma_fold_concat(d, p13, l14, apply);
        Self::lemma_field_public_ip(v);
        lemma_fold_concat(d, p14, l15, apply);
        Self::lemma_field_user_country(v);
        lemma_fold_concat(d, p15, l16, apply);
        Self::lemma_field_client_supplied_steamid(v);
        lemma_fold_concat(d, p16, l17, apply);
        Self::lemma_field_ip_country_code(v);
        lemma_fold_concat(d, p17, l18, apply);
        Self::lemma_field_parental_settings(v);
        lemma_fold_concat(d, p18, l19, apply);
        Self::lemma_field_parental_setting_signature(v);
        lemma_fold_concat(d, p19, l20, apply);
        Self::lemma_field_count_loginfailures_to_migrate(v);
        lemma_fold_concat(d, p20, l21, apply);
        Self::lemma_field_count_disconnects_to_migrate(v);
        lemma_fold_concat(d, p21, l22, apply);
        Self::lemma_field_ogs_data_report_time_window(v);
        lemma_fold_concat(d, p22, l23, apply);
        Self::lemma_field_client_instance_id(v);
        lemma_fold_concat(d, p23, l24, apply);
        Self::lemma_field_force_client_update_check(v);
        lemma_fold_concat(d, p24, l25, apply);
        Self::lemma_field_agreement_session_url(v);
        lemma_fold_concat(d, p25, l26, apply);
        Self::lemma_field_token_id(v);
        lemma_fold_concat(d, p26, l27, apply);
        Self::lemma_field_family_group_id(v);
        assert(Self::spec_prefix(v, 27) == v) by {
            reveal(CMsgClientLogonResponse::spec_prefix);
        }
        lemma_merge_run_fold(d, Self::spec_encode(v), apply);
        assert(Self::spec_decode(Self::spec_encode(v)) == Ok::<SpecCMsgClientLogonResponse, WireError>(v)) by {
            reveal(CMsgClientLogonResponse::spec_decode);
        }
    }
}

/// `CMsgClientRequestWebAPIAuthenticateUserNonce`, as Valve's schema declares it.
#[derive(Debug, Clone, PartialEq)]
pub struct CMsgClientRequestWebAPIAuthenticateUserNonce {
    /// Field 1.
    pub token_type: Option<i32>,
}

/// What a `CMsgClientRequestWebAPIAuthenticateUserNonce` holds, as mathematical values.
#[verifier::ext_equal]
pub struct SpecCMsgClientRequestWebAPIAuthenticateUserNonce {
    pub token_type: Option<i32>,
}

impl View for CMsgClientRequestWebAPIAuthenticateUserNonce {
    type V = SpecCMsgClientRequestWebAPIAuthenticateUserNonce;

    open spec fn view(&self) -> SpecCMsgClientRequestWebAPIAuthenticateUserNonce {
        SpecCMsgClientRequestWebAPIAuthenticateUserNonce {
            token_type: self.token_type,
        }
    }
}

impl Default for CMsgClientRequestWebAPIAuthenticateUserNonce {
    fn default() -> (r: Self)
        ensures
            r@ == CMsgClientRequestWebAPIAuthenticateUserNonce::spec_default(),
    {
        CMsgClientRequestWebAPIAuthenticateUserNonce {
            token_type: None,
        }
    }
}

impl CMsgClientRequestWebAPIAuthenticateUserNonce {
    /// Field 1, or its schema default when absent.
    pub fn token_type_or_default(&self) -> (r: i32)
        ensures
            r == match self.token_type {
                Some(x) => x,
                None => -1i32,
            },
    {
        self.token_type.unwrap_or(-1i32)
    }

    pub open spec fn spec_default() -> SpecCMsgClientRequestWebAPIAuthenticateUserNonce {
        SpecCMsgClientRequestWebAPIAuthenticateUserNonce {
            token_type: None,
        }
    }

    /// The records a `CMsgClientRequestWebAPIAuthenticateUserNonce` is written as, in field order.
    pub open spec fn spec_fields(v: SpecCMsgClientRequestWebAPIAuthenticateUserNonce) -> Seq<SpecField> {
        Seq::<SpecField>::empty()
            + opt_i32(1, v.token_type)
    }

    #[verifier::opaque]
    pub open spec fn spec_encode(v: SpecCMsgClientRequestWebAPIAuthenticateUserNonce) -> Seq<u8> {
        fields_bytes(Self::spec_fields(v))
    }

    /// What one record does to the message: a declared number sets or extends its
    /// field, any other number is left alone.
    pub open spec fn spec_apply(v: SpecCMsgClientRequestWebAPIAuthenticateUserNonce, f: SpecField) -> Result<SpecCMsgClientRequestWebAPIAuthenticateUserNonce, WireError> {
        match f.number {
            1 => match dec_i32(f.value) {
                Ok(x) => Ok(SpecCMsgClientRequestWebAPIAuthenticateUserNonce { token_type: Some(x), ..v }),
                Err(e) => Err(e),
            },
            _ => Ok(v),
        }
    }

    pub open spec fn apply_fn() -> spec_fn(SpecCMsgClientRequestWebAPIAuthenticateUserNonce, SpecField) -> Result<SpecCMsgClientRequestWebAPIAuthenticateUserNonce, WireError> {
        |v: SpecCMsgClientRequestWebAPIAuthenticateUserNonce, f: SpecField| Self::spec_apply(v, f)
    }

    /// The message `bytes` makes of `v`: its records applied in order, or the error
    /// that stops the reading.
    pub open spec fn spec_merge(v: SpecCMsgClientRequestWebAPIAuthenticateUserNonce, bytes: Seq<u8>) -> Result<SpecCMsgClientRequestWebAPIAuthenticateUserNonce, WireError> {
        let (w, stop) = merge_run(v, bytes, Self::apply_fn());
        match stop {
            None => Ok(w),
            Some(e) => Err(e),
        }
    }

    #[verifier::opaque]
    pub open spec fn spec_decode(bytes: Seq<u8>) -> Result<SpecCMsgClientRequestWebAPIAuthenticateUserNonce, WireError> {
        Self::spec_merge(Self::spec_default(), bytes)
    }

    /// This message with one record applied to it, or, when the record is refused,
    /// the message unchanged and the reason.
    fn applied(self, f: &Field) -> (r: Result<Self, (Self, WireError)>)
        ensures
            match Self::spec_apply(self@, f@) {
                Ok(v) => r matches Ok(m) && m@ == v,
                Err(e) => r matches Err((m, x)) && x == e && m@ == self@,
            },
    {
        match f.number {
            1 => match read_i32(&f.value) {
                Ok(x) => Ok(Self { token_type: Some(x), ..self }),
                Err(e) => Err((self, e)),
            },
            _ => Ok(self),
        }
    }

    /// Reads the records `bytes` holds into this message, in order. When a record does
    /// not parse or is refused, the reading stops there: the message keeps what the
    /// records before it gave, and the error is returned.
    pub fn merge(&mut self, bytes: &[u8]) -> (r: Result<(), WireError>)
        ensures
            final(self)@ == merge_run(old(self)@, bytes@, Self::apply_fn()).0,
            r == match merge_run(old(self)@, bytes@, Self::apply_fn()).1 {
                None => Ok::<(), WireError>(()),
                Some(e) => Err::<(), WireError>(e),
            },
    {
        let ghost total = merge_run(self@, bytes@, Self::apply_fn());
        let mut cur = Self::default();
        std::mem::swap(&mut cur, self);
        let mut pos: usize = 0;
        assert(bytes@.skip(0) =~= bytes@);
        while pos < bytes.len()
            invariant
                pos <= bytes@.len(),
                total == merge_run(old(self)@, bytes@, Self::apply_fn()),
                merge_run(cur@, bytes@.skip(pos as int), Self::apply_fn()) == total,
            decreases bytes@.len() - pos,
        {
            let ghost s = bytes@.skip(pos as int);
            proof {
                lemma_merge_run_step(cur@, s, Self::apply_fn());
                lemma_parse_field_len(s);
            }
            match read_field(bytes, pos) {
                Ok((f, end)) => {
                    assert(bytes@.skip(end as int) =~= s.skip((end - pos) as int));
                    match cur.applied(&f) {
                        Ok(m) => {
                            cur = m;
                        },
                        Err((m, e)) => {
                            *self = m;
                            return Err(e);
                        },
                    }
                    pos = end;
                },
                Err(e) => {
                    *self = cur;
                    return Err(e);
                },
            }
        }
        assert(bytes@.skip(pos as int) =~= Seq::<u8>::empty());
        proof {
            lemma_merge_run_empty(cur@, Self::apply_fn());
        }
        *self = cur;
        Ok(())
    }

    /// Decodes a message from its encoding.
    pub fn decode(bytes: &[u8]) -> (r: Result<Self, WireError>)
        ensures
            match Self::spec_decode(bytes@) {
                Ok(v) => r matches Ok(m) && m@ == v,
                Err(e) => r matches Err(x) && x == e,
            },
    {
        proof {
            reveal(CMsgClientRequestWebAPIAuthenticateUserNonce::spec_decode);
        }
        let mut m = Self::default();
        match m.merge(bytes) {
            Ok(()) => Ok(m),
            Err(e) => Err(e),
        }
    }

    /// The encoding of this message.
    pub fn encode_to_vec(&self) -> (r: Vec<u8>)
        ensures
            r@ == Self::spec_encode(self@),
    {
        let ghost v = self@;
        let mut out: Vec<u8> = Vec::new();
        let ghost p0 = Seq::<SpecField>::empty();
        put_opt_i32(&mut out, 1, self.token_type);
        let ghost p1 = p0 + opt_i32(1, v.token_type);
        proof {
            lemma_fields_bytes_concat(p0, opt_i32(1, v.token_type));
        }
        proof {
            reveal(CMsgClientRequestWebAPIAuthenticateUserNonce::spec_encode);
        }
        assert(p1 == Self::spec_fields(v));
        out
    }

    /// Appends the encoding of this message to `out`.
    pub fn encode_raw(&self, out: &mut Vec<u8>)
        ensures
            final(out)@ == old(out)@ + Self::spec_encode(self@),
    {
        let mut b = self.encode_to_vec();
        out.append(&mut b);
    }

    /// The first `k` fields of `v`, the others as a fresh message has them.
    #[verifier::opaque]
    pub open spec fn spec_prefix(v: SpecCMsgClientRequestWebAPIAuthenticateUserNonce, k: int) -> SpecCMsgClientRequestWebAPIAuthenticateUserNonce {
        SpecCMsgClientRequestWebAPIAuthenticateUserNonce {
            token_type: if 1 <= k { v.token_type } else { None },
        }
    }

    /// Reading field 1 back, after the fields before it.
    proof fn lemma_field_token_type(v: SpecCMsgClientRequestWebAPIAuthenticateUserNonce)
        ensures
            fold_fields(Self::spec_prefix(v, 0), opt_i32(1, v.token_type), Self::apply_fn())
                == Ok::<SpecCMsgClientRequestWebAPIAuthenticateUserNonce, WireError>(Self::spec_prefix(v, 1)),
    {
        reveal(CMsgClientRequestWebAPIAuthenticateUserNonce::spec_prefix);
        reveal(opt_i32);
        let apply = Self::apply_fn();
        let s = Self::spec_prefix(v, 0);
        lemma_fold_opt(s, 1, match v.token_type { Some(x) => Some(enc_i32(x)), None => None }, apply);
        if let Some(x) = v.token_type {
            lemma_i32_roundtrip(x);
        }
        assert(SpecCMsgClientRequestWebAPIAuthenticateUserNonce { token_type: v.token_type, ..s } == Self::spec_prefix(v, 1));
    }

    /// Whether this message declares field number `n`.
    pub open spec fn declares(n: u32) -> bool {
        n == 1
    }

    /// A record with a number this message does not declare is passed over: well-formed
    /// bytes decode to the same message with such a record after them as without it.
    pub proof fn lemma_unknown_field(bytes: Seq<u8>, f: SpecField)
        requires
            parse_fields(bytes) is Ok,
            field_wf(f),
            !Self::declares(f.number),
        ensures
            Self::spec_decode(bytes + field_bytes(f)) == Self::spec_decode(bytes),
    {
        reveal(CMsgClientRequestWebAPIAuthenticateUserNonce::spec_decode);
        lemma_parse_fields_append(bytes, f);
        let fs = parse_fields(bytes).unwrap();
        let apply = Self::apply_fn();
        lemma_fold_concat(Self::spec_default(), fs, seq![f], apply);
        assert(fs.push(f) =~= fs + seq![f]);
        if let Ok(w) = fold_fields(Self::spec_default(), fs, apply) {
            lemma_fold_single(w, f, apply);
        }
        lemma_merge_run_fold(Self::spec_default(), bytes, apply);
        lemma_merge_run_fold(Self::spec_default(), bytes + field_bytes(f), apply);
    }

    /// Decoding the encoding of a message gives the message back.
    pub proof fn lemma_decode_encode(v: SpecCMsgClientRequestWebAPIAuthenticateUserNonce)
        requires
            Self::spec_encode(v).len() <= u64::MAX,
        ensures
            Self::spec_decode(Self::spec_encode(v)) == Ok::<SpecCMsgClientRequestWebAPIAuthenticateUserNonce, WireError>(v),
    {
        let apply = Self::apply_fn();
        let d = Self::spec_default();
        let p0 = Seq::<SpecField>::empty();
        let l1 = opt_i32(1, v.token_type);
        let p1 = p0 + l1;
        assert(parse_fields(Self::spec_encode(v)) == Ok::<Seq<SpecField>, WireError>(p1)) by {
            reveal(CMsgClientRequestWebAPIAuthenticateUserNonce::spec_encode);
            assert(numbers_ok(p0) && fields_wf(p0)) by {
                reveal(numbers_ok);
                reveal(fields_wf);
            }
            lemma_opt_i32_numbered(1, v.token_type);
            lemma_fields_wf_concat(p0, l1);
            assert(p1 == Self::spec_fields(v));
            lemma_fields_wf_from_len(p1);
            lemma_fields_roundtrip(p1);
        }
        assert(Self::spec_prefix(v, 0) == d) by {
            reveal(CMsgClientRequestWebAPIAuthenticateUserNonce::spec_prefix);
        }
        lemma_fold_empty(d, apply);
        lemma_fold_concat(d, p0, l1, apply);
        Self::lemma_field_token_type(v);
        assert(Self::spec_prefix(v, 1) == v) by {
            reveal(CMsgClientRequestWebAPIAuthenticateUserNonce::spec_prefix);
        }
        lemma_merge_run_fold(d, Self::spec_encode(v), apply);
        assert(Self::spec_decode(Self::spec_encode(v)) == Ok::<SpecCMsgClientRequestWebAPIAuthenticateUserNonce, WireError>(v)) by {
            reveal(CMsgClientRequestWebAPIAuthenticateUserNonce::spec_decode);
        }
    }
}

/// `CMsgClientRequestWebAPIAuthenticateUserNonceResponse`, as Valve's schema declares it.
#[derive(Debug, Clone, PartialEq)]
pub struct CMsgClientRequestWebAPIAuthenticateUserNonceResponse {
    /// Field 1.
    pub eresult: Option<i32>,
    /// Field 11.
    pub webapi_authenticate_user_nonce: Option<String>,
    /// Field 3.
    pub token_type: Option<i32>,
}

/// What a `CMsgClientRequestWebAPIAuthenticateUserNonceResponse` holds, as mathematical values.
#[verifier::ext_equal]
pub struct SpecCMsgClientRequestWebAPIAuthenticateUserNonceResponse {
    pub eresult: Option<i32>,
    pub webapi_authenticate_user_nonce: Option<Seq<char>>,
    pub token_type: Option<i32>,
}

impl View for CMsgClientRequestWebAPIAuthenticateUserNonceResponse {
    type V = SpecCMsgClientRequestWebAPIAuthenticateUserNonceResponse;

    open spec fn view(&self) -> SpecCMsgClientRequestWebAPIAuthenticateUserNonceResponse {
        SpecCMsgClientRequestWebAPIAuthenticateUserNonceResponse {
            eresult: self.eresult,
            webapi_authenticate_user_nonce: opt_string_view(self.webapi_authenticate_user_nonce),
            token_type: self.token_type,
        }
    }
}

impl Default for CMsgClientRequestWebAPIAuthenticateUserNonceResponse {
    fn default() -> (r: Self)
        ensures
            r@ == CMsgClientRequestWebAPIAuthenticateUserNonceResponse::spec_default(),
    {
        CMsgClientRequestWebAPIAuthenticateUserNonceResponse {
            eresult: None,
            webapi_authenticate_user_nonce: None,
            token_type: None,
        }
    }
}

impl CMsgClientRequestWebAPIAuthenticateUserNonceResponse {
    /// Field 1, or its schema default when absent.
    pub fn eresult_or_default(&self) -> (r: i32)
        ensures
            r == match self.eresult {
                Some(x) => x,
                None => 2i32,
            },
    {
        self.eresult.unwrap_or(2i32)
    }

    /// Field 3, or its schema default when absent.
    pub fn token_type_or_default(&self) -> (r: i32)
        ensures
            r == match self.token_type {
                Some(x) => x,
                None => -1i32,
            },
    {
        self.token_type.unwrap_or(-1i32)
    }

    pub open spec fn spec_default() -> SpecCMsgClientRequestWebAPIAuthenticateUserNonceResponse {
        SpecCMsgClientRequestWebAPIAuthenticateUserNonceResponse {
            eresult: None,
            webapi_authenticate_user_nonce: None,
            token_type: None,
        }
    }

    /// The records a `CMsgClientRequestWebAPIAuthenticateUserNonceResponse` is written as, in field order.
    pub open spec fn spec_fields(v: SpecCMsgClientRequestWebAPIAuthenticateUserNonceResponse) -> Seq<SpecField> {
        Seq::<SpecField>::empty()
            + opt_i32(1, v.eresult)
            + opt_string(11, v.webapi_authenticate_user_nonce)
            + opt_i32(3, v.token_type)
    }

    #[verifier::opaque]
    pub open spec fn spec_encode(v: SpecCMsgClientRequestWebAPIAuthenticateUserNonceResponse) -> Seq<u8> {
        fields_bytes(Self::spec_fields(v))
    }

    /// What one record does to the message: a declared number sets or extends its
    /// field, any other number is left alone.
    pub open spec fn spec_apply(v: SpecCMsgClientRequestWebAPIAuthenticateUserNonceResponse, f: SpecField) -> Result<SpecCMsgClientRequestWebAPIAuthenticateUserNonceResponse, WireError> {
        match f.number {
            1 => match dec_i32(f.value) {
                Ok(x) => Ok(SpecCMsgClientRequestWebAPIAuthenticateUserNonceResponse { eresult: Some(x), ..v }),
                Err(e) => Err(e),
            },
            11 => match dec_string(f.value) {
                Ok(x) => Ok(SpecCMsgClientRequestWebAPIAuthenticateUserNonceResponse { webapi_authenticate_user_nonce: Some(x), ..v }),
                Err(e) => Err(e),
            },
            3 => match dec_i32(f.value) {
                Ok(x) => Ok(SpecCMsgClientRequestWebAPIAuthenticateUserNonceResponse { token_type: Some(x), ..v }),
                Err(e) => Err(e),
            },
            _ => Ok(v),
        }
    }

    pub open spec fn apply_fn() -> spec_fn(SpecCMsgClientRequestWebAPIAuthenticateUserNonceResponse, SpecField) -> Result<SpecCMsgClientRequestWebAPIAuthenticateUserNonceResponse, WireError> {
        |v: SpecCMsgClientRequestWebAPIAuthenticateUserNonceResponse, f: SpecField| Self::spec_apply(v, f)
    }

    /// The message `bytes` makes of `v`: its records applied in order, or the error
    /// that stops the reading.
    pub open spec fn spec_merge(v: SpecCMsgClientRequestWebAPIAuthenticateUserNonceResponse, bytes: Seq<u8>) -> Result<SpecCMsgClientRequestWebAPIAuthenticateUserNonceResponse, WireError> {
        let (w, stop) = merge_run(v, bytes, Self::apply_fn());
        match stop {
            None => Ok(w),
            Some(e) => Err(e),
        }
    }

    #[verifier::opaque]
    pub open spec fn spec_decode(bytes: Seq<u8>) -> Result<SpecCMsgClientRequestWebAPIAuthenticateUserNonceResponse, WireError> {
        Self::spec_merge(Self::spec_default(), bytes)
    }

    /// This message with one record applied to it, or, when the record is refused,
    /// the message unchanged and the reason.
    fn applied(self, f: &Field) -> (r: Result<Self, (Self, WireError)>)
        ensures
            match Self::spec_apply(self@, f@) {
                Ok(v) => r matches Ok(m) && m@ == v,
                Err(e) => r matches Err((m, x)) && x == e && m@ == self@,
            },
    {
        match f.number {
            1 => match read_i32(&f.value) {
                Ok(x) => Ok(Self { eresult: Some(x), ..self }),
                Err(e) => Err((self, e)),
            },
            3 => match read_i32(&f.value) {
                Ok(x) => Ok(Self { token_type: Some(x), ..self }),
                Err(e) => Err((self, e)),
            },
            11 => match read_string(&f.value) {
                Ok(x) => Ok(Self { webapi_authenticate_user_nonce: Some(x), ..self }),
                Err(e) => Err((self, e)),
            },
            _ => Ok(self),
        }
    }

    /// Reads the records `bytes` holds into this message, in order. When a record does
    /// not parse or is refused, the reading stops there: the message keeps what the
    /// records before it gave, and the error is returned.
    pub fn merge(&mut self, bytes: &[u8]) -> (r: Result<(), WireError>)
        ensures
            final(self)@ == merge_run(old(self)@, bytes@, Self::apply_fn()).0,
            r == match merge_run(old(self)@, bytes@, Self::apply_fn()).1 {
                None => Ok::<(), WireError>(()),
                Some(e) => Err::<(), WireError>(e),
            },
    {
        let ghost total = merge_run(self@, bytes@, Self::apply_fn());
        let mut cur = Self::default();
        std::mem::swap(&mut cur, self);
        let mut pos: usize = 0;
        assert(bytes@.skip(0) =~= bytes@);
        while pos < bytes.len()
            invariant
                pos <= bytes@.len(),
                total == merge_run(old(self)@, bytes@, Self::apply_fn()),
                merge_run(cur@, bytes@.skip(pos as int), Self::apply_fn()) == total,
            decreases bytes@.len() - pos,
        {
            let ghost s = bytes@.skip(pos as int);
            proof {
                lemma_merge_run_step(cur@, s, Self::apply_fn());
                lemma_parse_field_len(s);
            }
            match read_field(bytes, pos) {
                Ok((f, end)) => {
                    assert(bytes@.skip(end as int) =~= s.skip((end - pos) as int));
                    match cur.applied(&f) {
                        Ok(m) => {
                            cur = m;
                        },
                        Err((m, e)) => {
                            *self = m;
                            return Err(e);
                        },
                    }
                    pos = end;
                },
                Err(e) => {
                    *self = cur;
                    return Err(e);
                },
            }
        }
        assert(bytes@.skip(pos as int) =~= Seq::<u8>::empty());
        proof {
            lemma_merge_run_empty(cur@, Self::apply_fn());
        }
        *self = cur;
        Ok(())
    }

    /// Decodes a message from its encoding.
    pub fn decode(bytes: &[u8]) -> (r: Result<Self, WireError>)
        ensures
            match Self::spec_decode(bytes@) {
                Ok(v) => r matches Ok(m) && m@ == v,
                Err(e) => r matches Err(x) && x == e,
            },
    {
        proof {
            reveal(CMsgClientRequestWebAPIAuthenticateUserNonceResponse::spec_decode);
        }
        let mut m = Self::default();
        match m.merge(bytes) {
            Ok(()) => Ok(m),
            Err(e) => Err(e),
        }
    }

    /// The encoding of this message.
    pub fn encode_to_vec(&self) -> (r: Vec<u8>)
        ensures
            r@ == Self::spec_encode(self@),
    {
        let ghost v = self@;
        let mut out: Vec<u8> = Vec::new();
        let ghost p0 = Seq::<SpecField>::empty();
        put_opt_i32(&mut out, 1, self.eresult);
        let ghost p1 = p0 + opt_i32(1, v.eresult);
        proof {
            lemma_fields_bytes_concat(p0, opt_i32(1, v.eresult));
        }
        put_opt_string(&mut out, 11, &self.webapi_authenticate_user_nonce);
        let ghost p2 = p1 + opt_string(11, v.webapi_authenticate_user_nonce);
        proof {
            lemma_fields_bytes_concat(p1, opt_string(11, v.webapi_authenticate_user_nonce));
        }
        put_opt_i32(&mut out, 3, self.token_type);
        let ghost p3 = p2 + opt_i32(3, v.token_type);
        proof {
            lemma_fields_bytes_concat(p2, opt_i32(3, v.token_type));
        }
        proof {
            reveal(CMsgClientRequestWebAPIAuthenticateUserNonceResponse::spec_encode);
        }
        assert(p3 == Self::spec_fields(v));
        out
    }

    /// Appends the encoding of this message to `out`.
    pub fn encode_raw(&self, out: &mut Vec<u8>)
        ensures
            final(out)@ == old(out)@ + Self::spec_encode(self@),
    {
        let mut b = self.encode_to_vec();
        out.append(&mut b);
    }

    /// The first `k` fields of `v`, the others as a fresh message has them.
    #[verifier::opaque]
    pub open spec fn spec_prefix(v: SpecCMsgClientRequestWebAPIAuthenticateUserNonceResponse, k: int) -> SpecCMsgClientRequestWebAPIAuthenticateUserNonceResponse {
        SpecCMsgClientRequestWebAPIAuthenticateUserNonceResponse {
            eresult: if 1 <= k { v.eresult } else { None },
            webapi_authenticate_user_nonce: if 2 <= k { v.webapi_authenticate_user_nonce } else { None },
            token_type: if 3 <= k { v.token_type } else { None },
        }
    }

    /// Reading field 1 back, after the fields before it.
    proof fn lemma_field_eresult(v: SpecCMsgClientRequestWebAPIAuthenticateUserNonceResponse)
        ensures
            fold_fields(Self::spec_prefix(v, 0), opt_i32(1, v.eresult), Self::apply_fn())
                == Ok::<SpecCMsgClientRequestWebAPIAuthenticateUserNonceResponse, WireError>(Self::spec_prefix(v, 1)),
    {
        reveal(CMsgClientRequestWebAPIAuthenticateUserNonceResponse::spec_prefix);
        reveal(opt_i32);
        let apply = Self::apply_fn();
        let s = Self::spec_prefix(v, 0);
        lemma_fold_opt(s, 1, match v.eresult { Some(x) => Some(enc_i32(x)), None => None }, apply);
        if let Some(x) = v.eresult {
            lemma_i32_roundtrip(x);
        }
        assert(SpecCMsgClientRequestWebAPIAuthenticateUserNonceResponse { eresult: v.eresult, ..s } == Self::spec_prefix(v, 1));
    }

    /// Reading field 11 back, after the fields before it.
    proof fn lemma_field_webapi_authenticate_user_nonce(v: SpecCMsgClientRequestWebAPIAuthenticateUserNonceResponse)
        ensures
            fold_fields(Self::spec_prefix(v, 1), opt_string(11, v.webapi_authenticate_user_nonce), Self::apply_fn())
                == Ok::<SpecCMsgClientRequestWebAPIAuthenticateUserNonceResponse, WireError>(Self::spec_prefix(v, 2)),
    {
        reveal(CMsgClientRequestWebAPIAuthenticateUserNonceResponse::spec_prefix);
        reveal(opt_string);
        let apply = Self::apply_fn();
        let s = Self::spec_prefix(v, 1);
        lemma_fold_opt(s, 11, match v.webapi_authenticate_user_nonce { Some(x) => Some(enc_string(x)), None => None }, apply);
        if let Some(x) = v.webapi_authenticate_user_nonce {
            lemma_string_roundtrip(x);
        }
        assert(SpecCMsgClientRequestWebAPIAuthenticateUserNonceResponse { webapi_authenticate_user_nonce: v.webapi_authenticate_user_nonce, ..s } == Self::spec_prefix(v, 2));
    }

    /// Reading field 3 back, after the fields before it.
    proof fn lemma_field_token_type(v: SpecCMsgClientRequestWebAPIAuthenticateUserNonceResponse)
        ensures
            fold_fields(Self::spec_prefix(v, 2), opt_i32(3, v.token_type), Self::apply_fn())
                == Ok::<SpecCMsgClientRequestWebAPIAuthenticateUserNonceResponse, WireError>(Self::spec_prefix(v, 3)),
    {
        reveal(CMsgClientRequestWebAPIAuthenticateUserNonceResponse::spec_prefix);
        reveal(opt_i32);
        let apply = Self::apply_fn();
        let s = Self::spec_prefix(v, 2);
        lemma_fold_opt(s, 3, match v.token_type { Some(x) => Some(enc_i32(x)), None => None }, apply);
        if let Some(x) = v.token_type {
            lemma_i32_roundtrip(x);
        }
        assert(SpecCMsgClientRequestWebAPIAuthenticateUserNonceResponse { token_type: v.token_type, ..s } == Self::spec_prefix(v, 3));
    }

    /// Whether this message declares field number `n`.
    pub open spec fn declares(n: u32) -> bool {
        n == 1 || n == 11 || n == 3
    }

    /// A record with a number this message does not declare is passed over: well-formed
    /// bytes decode to the same message with such a record after them as without it.
    pub proof fn lemma_unknown_field(bytes: Seq<u8>, f: SpecField)
        requires
            parse_fields(bytes) is Ok,
            field_wf(f),
            !Self::declares(f.number),
        ensures
            Self::spec_decode(bytes + field_bytes(f)) == Self::spec_decode(bytes),
    {
        reveal(CMsgClientRequestWebAPIAuthenticateUserNonceResponse::spec_decode);
        lemma_parse_fields_append(bytes, f);
        let fs = parse_fields(bytes).unwrap();
        let apply = Self::apply_fn();
        lemma_fold_concat(Self::spec_default(), fs, seq![f], apply);
        assert(fs.push(f) =~= fs + seq![f]);
        if let Ok(w) = fold_fields(Self::spec_default(), fs, apply) {
            lemma_fold_single(w, f, apply);
        }
        lemma_merge_run_fold(Self::spec_default(), bytes, apply);
        lemma_merge_run_fold(Self::spec_default(), bytes + field_bytes(f), apply);
    }

    /// Decoding the encoding of a message gives the message back.
    pub proof fn lemma_decode_encode(v: SpecCMsgClientRequestWebAPIAuthenticateUserNonceResponse)
        requires
            Self::spec_encode(v).len() <= u64::MAX,
        ensures
            Self::spec_decode(Self::spec_encode(v)) == Ok::<SpecCMsgClientRequestWebAPIAuthenticateUserNonceResponse, WireError>(v),
    {
        let apply = Self::apply_fn();
        let d = Self::spec_default();
        let p0 = Seq::<SpecField>::empty();
        let l1 = opt_i32(1, v.eresult);
        let p1 = p0 + l1;
        let l2 = opt_string(11, v.webapi_authenticate_user_nonce);
        let p2 = p1 + l2;
        let l3 = opt_i32(3, v.token_type);
        let p3 = p2 + l3;
        assert(parse_fields(Self::spec_encode(v)) == Ok::<Seq<SpecField>, WireError>(p3)) by {
            reveal(CMsgClientRequestWebAPIAuthenticateUserNonceResponse::spec_encode);
            assert(numbers_ok(p0) && fields_wf(p0)) by {
                reveal(numbers_ok);
                reveal(fields_wf);
            }
            lemma_opt_i32_numbered(1, v.eresult);
            lemma_fields_wf_concat(p0, l1);
            lemma_opt_string_numbered(11, v.webapi_authenticate_user_nonce);
            lemma_fields_wf_concat(p1, l2);
            lemma_opt_i32_numbered(3, v.token_type);
            lemma_fields_wf_concat(p2, l3);
            assert(p3 == Self::spec_fields(v));
            lemma_fields_wf_from_len(p3);
            lemma_fields_roundtrip(p3);
        }
        assert(Self::spec_prefix(v, 0) == d) by {
            reveal(CMsgClientRequestWebAPIAuthenticateUserNonceResponse::spec_prefix);
        }
        lemma_fold_empty(d, apply);
        lemma_fold_concat(d, p0, l1, apply);
        Self::lemma_field_eresult(v);
        lemma_fold_concat(d, p1, l2, apply);
        Self::lemma_field_webapi_authenticate_user_nonce(v);
        lemma_fold_concat(d, p2, l3, apply);
        Self::lemma_field_token_type(v);
        assert(Self::spec_prefix(v, 3) == v) by {
            reveal(CMsgClientRequestWebAPIAuthenticateUserNonceResponse::spec_prefix);
        }
        lemma_merge_run_fold(d, Self::spec_encode(v), apply);
        assert(Self::spec_decode(Self::spec_encode(v)) == Ok::<SpecCMsgClientRequestWebAPIAuthenticateUserNonceResponse, WireError>(v)) by {
            reveal(CMsgClientRequestWebAPIAuthenticateUserNonceResponse::spec_decode);
        }
    }
}

/// `CMsgClientLogOff`, as Valve's schema declares it.
#[derive(Debug, Clone, PartialEq)]
pub struct CMsgClientLogOff {}

/// What a `CMsgClientLogOff` holds, as mathematical values.
#[verifier::ext_equal]
pub struct SpecCMsgClientLogOff {}

impl View for CMsgClientLogOff {
    type V = SpecCMsgClientLogOff;

    open spec fn view(&self) -> SpecCMsgClientLogOff {
        SpecCMsgClientLogOff {}
    }
}

impl Default for CMsgClientLogOff {
    fn default() -> (r: Self)
        ensures
            r@ == CMsgClientLogOff::spec_default(),
    {
        CMsgClientLogOff {}
    }
}

impl CMsgClientLogOff {
    pub open spec fn spec_default() -> SpecCMsgClientLogOff {
        SpecCMsgClientLogOff {}
    }

    /// The records a `CMsgClientLogOff` is written as, in field order.
    pub open spec fn spec_fields(v: SpecCMsgClientLogOff) -> Seq<SpecField> {
        Seq::<SpecField>::empty()
    }

    #[verifier::opaque]
    pub open spec fn spec_encode(v: SpecCMsgClientLogOff) -> Seq<u8> {
        fields_bytes(Self::spec_fields(v))
    }

    /// What one record does to the message: a declared number sets or extends its
    /// field, any other number is left alone.
    pub open spec fn spec_apply(v: SpecCMsgClientLogOff, f: SpecField) -> Result<SpecCMsgClientLogOff, WireError> {
        match f.number {
            _ => Ok(v),
        }
    }

    pub open spec fn apply_fn() -> spec_fn(SpecCMsgClientLogOff, SpecField) -> Result<SpecCMsgClientLogOff, WireError> {
        |v: SpecCMsgClientLogOff, f: SpecField| Self::spec_apply(v, f)
    }

    /// The message `bytes` makes of `v`: its records applied in order, or the error
    /// that stops the reading.
    pub open spec fn spec_merge(v: SpecCMsgClientLogOff, bytes: Seq<u8>) -> Result<SpecCMsgClientLogOff, WireError> {
        let (w, stop) = merge_run(v, bytes, Self::apply_fn());
        match stop {
            None => Ok(w),
            Some(e) => Err(e),
        }
    }

    #[verifier::opaque]
    pub open spec fn spec_decode(bytes: Seq<u8>) -> Result<SpecCMsgClientLogOff, WireError> {
        Self::spec_merge(Self::spec_default(), bytes)
    }

    /// This message with one record applied to it, or, when the record is refused,
    /// the message unchanged and the reason.
    fn applied(self, f: &Field) -> (r: Result<Self, (Self, WireError)>)
        ensures
            match Self::spec_apply(self@, f@) {
                Ok(v) => r matches Ok(m) && m@ == v,
                Err(e) => r matches Err((m, x)) && x == e && m@ == self@,
            },
    {
        match f.number {
            _ => Ok(self),
        }
    }

    /// Reads the records `bytes` holds into this message, in order. When a record does
    /// not parse or is refused, the reading stops there: the message keeps what the
    /// records before it gave, and the error is returned.
    pub fn merge(&mut self, bytes: &[u8]) -> (r: Result<(), WireError>)
        ensures
            final(self)@ == merge_run(old(self)@, bytes@, Self::apply_fn()).0,
            r == match merge_run(old(self)@, bytes@, Self::apply_fn()).1 {
                None => Ok::<(), WireError>(()),
                Some(e) => Err::<(), WireError>(e),
            },
    {
        let ghost total = merge_run(self@, bytes@, Self::apply_fn());
        let mut cur = Self::default();
        std::mem::swap(&mut cur, self);
        let mut pos: usize = 0;
        assert(bytes@.skip(0) =~= bytes@);
        while pos < bytes.len()
            invariant
                pos <= bytes@.len(),
                total == merge_run(old(self)@, bytes@, Self::apply_fn()),
                merge_run(cur@, bytes@.skip(pos as int), Self::apply_fn()) == total,
            decreases bytes@.len() - pos,
        {
            let ghost s = bytes@.skip(pos as int);
            proof {
                lemma_merge_run_step(cur@, s, Self::apply_fn());
                lemma_parse_field_len(s);
            }
            match read_field(bytes, pos) {
                Ok((f, end)) => {
                    assert(bytes@.skip(end as int) =~= s.skip((end - pos) as int));
                    match cur.applied(&f) {
                        Ok(m) => {
                            cur = m;
                        },
                        Err((m, e)) => {
                            *self = m;
                            return Err(e);
                        },
                    }
                    pos = end;
                },
                Err(e) => {
                    *self = cur;
                    return Err(e);
                },
            }
        }
        assert(bytes@.skip(pos as int) =~= Seq::<u8>::empty());
        proof {
            lemma_merge_run_empty(cur@, Self::apply_fn());
        }
        *self = cur;
        Ok(())
    }

    /// Decodes a message from its encoding.
    pub fn decode(bytes: &[u8]) -> (r: Result<Self, WireError>)
        ensures
            match Self::spec_decode(bytes@) {
                Ok(v) => r matches Ok(m) && m@ == v,
                Err(e) => r matches Err(x) && x == e,
            },
    {
        proof {
            reveal(CMsgClientLogOff::spec_decode);
        }
        let mut m = Self::default();
        match m.merge(bytes) {
            Ok(()) => Ok(m),
            Err(e) => Err(e),
        }
    }

    /// The encoding of this message.
    pub fn encode_to_vec(&self) -> (r: Vec<u8>)
        ensures
            r@ == Self::spec_encode(self@),
    {
        let ghost v = self@;
        let mut out: Vec<u8> = Vec::new();
        let ghost p0 = Seq::<SpecField>::empty();
        proof {
            reveal(CMsgClientLogOff::spec_encode);
        }
        assert(p0 == Self::spec_fields(v));
        assert(out@ =~= fields_bytes(p0));
        out
    }

    /// Appends the encoding of this message to `out`.
    pub fn encode_raw(&self, out: &mut Vec<u8>)
        ensures
            final(out)@ == old(out)@ + Self::spec_encode(self@),
    {
        let mut b = self.encode_to_vec();
        out.append(&mut b);
    }

    /// The first `k` fields of `v`, the others as a fresh message has them.
    #[verifier::opaque]
    pub open spec fn spec_prefix(v: SpecCMsgClientLogOff, k: int) -> SpecCMsgClientLogOff {
        SpecCMsgClientLogOff {}
    }

    /// Whether this message declares field number `n`.
    pub open spec fn declares(n: u32) -> bool {
        false
    }

    /// A record with a number this message does not declare is passed over: well-formed
    /// bytes decode to the same message with such a record after them as without it.
    pub proof fn lemma_unknown_field(bytes: Seq<u8>, f: SpecField)
        requires
            parse_fields(bytes) is Ok,
            field_wf(f),
            !Self::declares(f.number),
        ensures
            Self::spec_decode(bytes + field_bytes(f)) == Self::spec_decode(bytes),
    {
        reveal(CMsgClientLogOff::spec_decode);
        lemma_parse_fields_append(bytes, f);
        let fs = parse_fields(bytes).unwrap();
        let apply = Self::apply_fn();
        lemma_fold_concat(Self::spec_default(), fs, seq![f], apply);
        assert(fs.push(f) =~= fs + seq![f]);
        if let Ok(w) = fold_fields(Self::spec_default(), fs, apply) {
            lemma_fold_single(w, f, apply);
        }
        lemma_merge_run_fold(Self::spec_default(), bytes, apply);
        lemma_merge_run_fold(Self::spec_default(), bytes + field_bytes(f), apply);
    }

    /// Decoding the encoding of a message gives the message back.
    pub proof fn lemma_decode_encode(v: SpecCMsgClientLogOff)
        requires
            Self::spec_encode(v).len() <= u64::MAX,
        ensures
            Self::spec_decode(Self::spec_encode(v)) == Ok::<SpecCMsgClientLogOff, WireError>(v),
    {
        let apply = Self::apply_fn();
        let d = Self::spec_default();
        let p0 = Seq::<SpecField>::empty();
        assert(parse_fields(Self::spec_encode(v)) == Ok::<Seq<SpecField>, WireError>(p0)) by {
            reveal(CMsgClientLogOff::spec_encode);
            assert(numbers_ok(p0) && fields_wf(p0)) by {
                reveal(numbers_ok);
                reveal(fields_wf);
            }
            assert(p0 == Self::spec_fields(v));
            lemma_fields_wf_from_len(p0);
            lemma_fields_roundtrip(p0);
        }
        assert(Self::spec_prefix(v, 0) == d) by {
            reveal(CMsgClientLogOff::spec_prefix);
        }
        lemma_fold_empty(d, apply);
        assert(Self::spec_prefix(v, 0) == v) by {
            reveal(CMsgClientLogOff::spec_prefix);
        }
        lemma_merge_run_fold(d, Self::spec_encode(v), apply);
        assert(Self::spec_decode(Self::spec_encode(v)) == Ok::<SpecCMsgClientLogOff, WireError>(v)) by {
            reveal(CMsgClientLogOff::spec_decode);
        }
    }
}

/// `CMsgClientLoggedOff`, as Valve's schema declares it.
#[derive(Debug, Clone, PartialEq)]
pub struct CMsgClientLoggedOff {
    /// Field 1.
    pub eresult: Option<i32>,
}

/// What a `CMsgClientLoggedOff` holds, as mathematical values.
#[verifier::ext_equal]
pub struct SpecCMsgClientLoggedOff {
    pub eresult: Option<i32>,
}

impl View for CMsgClientLoggedOff {
    type V = SpecCMsgClientLoggedOff;

    open spec fn view(&self) -> SpecCMsgClientLoggedOff {
        SpecCMsgClientLoggedOff {
            eresult: self.eresult,
        }
    }
}

impl Default for CMsgClientLoggedOff {
    fn default() -> (r: Self)
        ensures
            r@ == CMsgClientLoggedOff::spec_default(),
    {
        CMsgClientLoggedOff {
            eresult: None,
        }
    }
}

impl CMsgClientLoggedOff {
    /// Field 1, or its schema default when absent.
    pub fn eresult_or_default(&self) -> (r: i32)
        ensures
            r == match self.eresult {
                Some(x) => x,
                None => 2i32,
            },
    {
        self.eresult.unwrap_or(2i32)
    }

    pub open spec fn spec_default() -> SpecCMsgClientLoggedOff {
        SpecCMsgClientLoggedOff {
            eresult: None,
        }
    }

    /// The records a `CMsgClientLoggedOff` is written as, in field order.
    pub open spec fn spec_fields(v: SpecCMsgClientLoggedOff) -> Seq<SpecField> {
        Seq::<SpecField>::empty()
            + opt_i32(1, v.eresult)
    }

    #[verifier::opaque]
    pub open spec fn spec_encode(v: SpecCMsgClientLoggedOff) -> Seq<u8> {
        fields_bytes(Self::spec_fields(v))
    }

    /// What one record does to the message: a declared number sets or extends its
    /// field, any other number is left alone.
    pub open spec fn spec_apply(v: SpecCMsgClientLoggedOff, f: SpecField) -> Result<SpecCMsgClientLoggedOff, WireError> {
        match f.number {
            1 => match dec_i32(f.value) {
                Ok(x) => Ok(SpecCMsgClientLoggedOff { eresult: Some(x), ..v }),
                Err(e) => Err(e),
            },
            _ => Ok(v),
        }
    }

    pub open spec fn apply_fn() -> spec_fn(SpecCMsgClientLoggedOff, SpecField) -> Result<SpecCMsgClientLoggedOff, WireError> {
        |v: SpecCMsgClientLoggedOff, f: SpecField| Self::spec_apply(v, f)
    }

    /// The message `bytes` makes of `v`: its records applied in order, or the error
    /// that stops the reading.
    pub open spec fn spec_merge(v: SpecCMsgClientLoggedOff, bytes: Seq<u8>) -> Result<SpecCMsgClientLoggedOff, WireError> {
        let (w, stop) = merge_run(v, bytes, Self::apply_fn());
        match stop {
            None => Ok(w),
            Some(e) => Err(e),
        }
    }

    #[verifier::opaque]
    pub open spec fn spec_decode(bytes: Seq<u8>) -> Result<SpecCMsgClientLoggedOff, WireError> {
        Self::spec_merge(Self::spec_default(), bytes)
    }

    /// This message with one record applied to it, or, when the record is refused,
    /// the message unchanged and the reason.
    fn applied(self, f: &Field) -> (r: Result<Self, (Self, WireError)>)
        ensures
            match Self::spec_apply(self@, f@) {
                Ok(v) => r matches Ok(m) && m@ == v,
                Err(e) => r matches Err((m, x)) && x == e && m@ == self@,
            },
    {
        match f.number {
            1 => match read_i32(&f.value) {
                Ok(x) => Ok(Self { eresult: Some(x), ..self }),
                Err(e) => Err((self, e)),
            },
            _ => Ok(self),
        }
    }

    /// Reads the records `bytes` holds into this message, in order. When a record does
    /// not parse or is refused, the reading stops there: the message keeps what the
    /// records before it gave, and the error is returned.
    pub fn merge(&mut self, bytes: &[u8]) -> (r: Result<(), WireError>)
        ensures
            final(self)@ == merge_run(old(self)@, bytes@, Self::apply_fn()).0,
            r == match merge_run(old(self)@, bytes@, Self::apply_fn()).1 {
                None => Ok::<(), WireError>(()),
                Some(e) => Err::<(), WireError>(e),
            },
    {
        let ghost total = merge_run(self@, bytes@, Self::apply_fn());
        let mut cur = Self::default();
        std::mem::swap(&mut cur, self);
        let mut pos: usize = 0;
        assert(bytes@.skip(0) =~= bytes@);
        while pos < bytes.len()
            invariant
                pos <= bytes@.len(),
                total == merge_run(old(self)@, bytes@, Self::apply_fn()),
                merge_run(cur@, bytes@.skip(pos as int), Self::apply_fn()) == total,
            decreases bytes@.len() - pos,
        {
            let ghost s = bytes@.skip(pos as int);
            proof {
                lemma_merge_run_step(cur@, s, Self::apply_fn());
                lemma_parse_field_len(s);
            }
            match read_field(bytes, pos) {
                Ok((f, end)) => {
                    assert(bytes@.skip(end as int) =~= s.skip((end - pos) as int));
                    match cur.applied(&f) {
                        Ok(m) => {
                            cur = m;
                        },
                        Err((m, e)) => {
                            *self = m;
                            return Err(e);
                        },
                    }
                    pos = end;
                },
                Err(e) => {
                    *self = cur;
                    return Err(e);
                },
            }
        }
        assert(bytes@.skip(pos as int) =~= Seq::<u8>::empty());
        proof {
            lemma_merge_run_empty(cur@, Self::apply_fn());
        }
        *self = cur;
        Ok(())
    }

    /// Decodes a message from its encoding.
    pub fn decode(bytes: &[u8]) -> (r: Result<Self, WireError>)
        ensures
            match Self::spec_decode(bytes@) {
                Ok(v) => r matches Ok(m) && m@ == v,
                Err(e) => r matches Err(x) && x == e,
            },
    {
        proof {
            reveal(CMsgClientLoggedOff::spec_decode);
        }
        let mut m = Self::default();
        match m.merge(bytes) {
            Ok(()) => Ok(m),
            Err(e) => Err(e),
        }
    }

    /// The encoding of this message.
    pub fn encode_to_vec(&self) -> (r: Vec<u8>)
        ensures
            r@ == Self::spec_encode(self@),
    {
        let ghost v = self@;
        let mut out: Vec<u8> = Vec::new();
        let ghost p0 = Seq::<SpecField>::empty();
        put_opt_i32(&mut out, 1, self.eresult);
        let ghost p1 = p0 + opt_i32(1, v.eresult);
        proof {
            lemma_fields_bytes_concat(p0, opt_i32(1, v.eresult));
        }
        proof {
            reveal(CMsgClientLoggedOff::spec_encode);
        }
        assert(p1 == Self::spec_fields(v));
        out
    }

    /// Appends the encoding of this message to `out`.
    pub fn encode_raw(&self, out: &mut Vec<u8>)
        ensures
            final(out)@ == old(out)@ + Self::spec_encode(self@),
    {
        let mut b = self.encode_to_vec();
        out.append(&mut b);
    }

    /// The first `k` fields of `v`, the others as a fresh message has them.
    #[verifier::opaque]
    pub open spec fn spec_prefix(v: SpecCMsgClientLoggedOff, k: int) -> SpecCMsgClientLoggedOff {
        SpecCMsgClientLoggedOff {
            eresult: if 1 <= k { v.eresult } else { None },
        }
    }

    /// Reading field 1 back, after the fields before it.
    proof fn lemma_field_eresult(v: SpecCMsgClientLoggedOff)
        ensures
            fold_fields(Self::spec_prefix(v, 0), opt_i32(1, v.eresult), Self::apply_fn())
                == Ok::<SpecCMsgClientLoggedOff, WireError>(Self::spec_prefix(v, 1)),
    {
        reveal(CMsgClientLoggedOff::spec_prefix);
        reveal(opt_i32);
        let apply = Self::apply_fn();
        let s = Self::spec_prefix(v, 0);
        lemma_fold_opt(s, 1, match v.eresult { Some(x) => Some(enc_i32(x)), None => None }, apply);
        if let Some(x) = v.eresult {
            lemma_i32_roundtrip(x);
        }
        assert(SpecCMsgClientLoggedOff { eresult: v.eresult, ..s } == Self::spec_prefix(v, 1));
    }

    /// Whether this message declares field number `n`.
    pub open spec fn declares(n: u32) -> bool {
        n == 1
    }

    /// A record with a number this message does not declare is passed over: well-formed
    /// bytes decode to the same message with such a record after them as without it.
    pub proof fn lemma_unknown_field(bytes: Seq<u8>, f: SpecField)
        requires
            parse_fields(bytes) is Ok,
            field_wf(f),
            !Self::declares(f.number),
        ensures
            Self::spec_decode(bytes + field_bytes(f)) == Self::spec_decode(bytes),
    {
        reveal(CMsgClientLoggedOff::spec_decode);
        lemma_parse_fields_append(bytes, f);
        let fs = parse_fields(bytes).unwrap();
        let apply = Self::apply_fn();
        lemma_fold_concat(Self::spec_default(), fs, seq![f], apply);
        assert(fs.push(f) =~= fs + seq![f]);
        if let Ok(w) = fold_fields(Self::spec_default(), fs, apply) {
            lemma_fold_single(w, f, apply);
        }
        lemma_merge_run_fold(Self::spec_default(), bytes, apply);
        lemma_merge_run_fold(Self::spec_default(), bytes + field_bytes(f), apply);
    }

    /// Decoding the encoding of a message gives the message back.
    pub proof fn lemma_decode_encode(v: SpecCMsgClientLoggedOff)
        requires
            Self::spec_encode(v).len() <= u64::MAX,
        ensures
            Self::spec_decode(Self::spec_encode(v)) == Ok::<SpecCMsgClientLoggedOff, WireError>(v),
    {
        let apply = Self::apply_fn();
        let d = Self::spec_default();
        let p0 = Seq::<SpecField>::empty();
        let l1 = opt_i32(1, v.eresult);
        let p1 = p0 + l1;
        assert(parse_fields(Self::spec_encode(v)) == Ok::<Seq<SpecField>, WireError>(p1)) by {
            reveal(CMsgClientLoggedOff::spec_encode);
            assert(numbers_ok(p0) && fields_wf(p0)) by {
                reveal(numbers_ok);
                reveal(fields_wf);
            }
            lemma_opt_i32_numbered(1, v.eresult);
            lemma_fields_wf_concat(p0, l1);
            assert(p1 == Self::spec_fields(v));
            lemma_fields_wf_from_len(p1);
            lemma_fields_roundtrip(p1);
        }
        assert(Self::spec_prefix(v, 0) == d) by {
            reveal(CMsgClientLoggedOff::spec_prefix);
        }
        lemma_fold_empty(d, apply);
        lemma_fold_concat(d, p0, l1, apply);
        Self::lemma_field_eresult(v);
        assert(Self::spec_prefix(v, 1) == v) by {
            reveal(CMsgClientLoggedOff::spec_prefix);
        }
        lemma_merge_run_fold(d, Self::spec_encode(v), apply);
        assert(Self::spec_decode(Self::spec_encode(v)) == Ok::<SpecCMsgClientLoggedOff, WireError>(v)) by {
            reveal(CMsgClientLoggedOff::spec_decode);
        }
    }
}

/// `CMsgClientNewLoginKey`, as Valve's schema declares it.
#[derive(Debug, Clone, PartialEq)]
pub struct CMsgClientNewLoginKey {
    /// Field 1.
    pub unique_id: Option<u32>,
    /// Field 2.
    pub login_key: Option<String>,
}

/// What a `CMsgClientNewLoginKey` holds, as mathematical values.
#[verifier::ext_equal]
pub struct SpecCMsgClientNewLoginKey {
    pub unique_id: Option<u32>,
    pub login_key: Option<Seq<char>>,
}

impl View for CMsgClientNewLoginKey {
    type V = SpecCMsgClientNewLoginKey;

    open spec fn view(&self) -> SpecCMsgClientNewLoginKey {
        SpecCMsgClientNewLoginKey {
            unique_id: self.unique_id,
            login_key: opt_string_view(self.login_key),
        }
    }
}

impl Default for CMsgClientNewLoginKey {
    fn default() -> (r: Self)
        ensures
            r@ == CMsgClientNewLoginKey::spec_default(),
    {
        CMsgClientNewLoginKey {
            unique_id: None,
            login_key: None,
        }
    }
}

impl CMsgClientNewLoginKey {
    pub open spec fn spec_default() -> SpecCMsgClientNewLoginKey {
        SpecCMsgClientNewLoginKey {
            unique_id: None,
            login_key: None,
        }
    }

    /// The records a `CMsgClientNewLoginKey` is written as, in field order.
    pub open spec fn spec_fields(v: SpecCMsgClientNewLoginKey) -> Seq<SpecField> {
        Seq::<SpecField>::empty()
            + opt_u32(1, v.unique_id)
            + opt_string(2, v.login_key)
    }

    #[verifier::opaque]
    pub open spec fn spec_encode(v: SpecCMsgClientNewLoginKey) -> Seq<u8> {
        fields_bytes(Self::spec_fields(v))
    }

    /// What one record does to the message: a declared number sets or extends its
    /// field, any other number is left alone.
    pub open spec fn spec_apply(v: SpecCMsgClientNewLoginKey, f: SpecField) -> Result<SpecCMsgClientNewLoginKey, WireError> {
        match f.number {
            1 => match dec_u32(f.value) {
                Ok(x) => Ok(SpecCMsgClientNewLoginKey { unique_id: Some(x), ..v }),
                Err(e) => Err(e),
            },
            2 => match dec_string(f.value) {
                Ok(x) => Ok(SpecCMsgClientNewLoginKey { login_key: Some(x), ..v }),
                Err(e) => Err(e),
            },
            _ => Ok(v),
        }
    }

    pub open spec fn apply_fn() -> spec_fn(SpecCMsgClientNewLoginKey, SpecField) -> Result<SpecCMsgClientNewLoginKey, WireError> {
        |v: SpecCMsgClientNewLoginKey, f: SpecField| Self::spec_apply(v, f)
    }

    /// The message `bytes` makes of `v`: its records applied in order, or the error
    /// that stops the reading.
    pub open spec fn spec_merge(v: SpecCMsgClientNewLoginKey, bytes: Seq<u8>) -> Result<SpecCMsgClientNewLoginKey, WireError> {
        let (w, stop) = merge_run(v, bytes, Self::apply_fn());
        match stop {
            None => Ok(w),
            Some(e) => Err(e),
        }
    }

    #[verifier::opaque]
    pub open spec fn spec_decode(bytes: Seq<u8>) -> Result<SpecCMsgClientNewLoginKey, WireError> {
        Self::spec_merge(Self::spec_default(), bytes)
    }

    /// This message with one record applied to it, or, when the record is refused,
    /// the message unchanged and the reason.
    fn applied(self, f: &Field) -> (r: Result<Self, (Self, WireError)>)
        ensures
            match Self::spec_apply(self@, f@) {
                Ok(v) => r matches Ok(m) && m@ == v,
                Err(e) => r matches Err((m, x)) && x == e && m@ == self@,
            },
    {
        match f.number {
            1 => match read_u32(&f.value) {
                Ok(x) => Ok(Self { unique_id: Some(x), ..self }),
                Err(e) => Err((self, e)),
            },
            2 => match read_string(&f.value) {
                Ok(x) => Ok(Self { login_key: Some(x), ..self }),
                Err(e) => Err((self, e)),
            },
            _ => Ok(self),
        }
    }

    /// Reads the records `bytes` holds into this message, in order. When a record does
    /// not parse or is refused, the reading stops there: the message keeps what the
    /// records before it gave, and the error is returned.
    pub fn merge(&mut self, bytes: &[u8]) -> (r: Result<(), WireError>)
        ensures
            final(self)@ == merge_run(old(self)@, bytes@, Self::apply_fn()).0,
            r == match merge_run(old(self)@, bytes@, Self::apply_fn()).1 {
                None => Ok::<(), WireError>(()),
                Some(e) => Err::<(), WireError>(e),
            },
    {
        let ghost total = merge_run(self@, bytes@, Self::apply_fn());
        let mut cur = Self::default();
        std::mem::swap(&mut cur, self);
        let mut pos: usize = 0;
        assert(bytes@.skip(0) =~= bytes@);
        while pos < bytes.len()
            invariant
                pos <= bytes@.len(),
                total == merge_run(old(self)@, bytes@, Self::apply_fn()),
                merge_run(cur@, bytes@.skip(pos as int), Self::apply_fn()) == total,
            decreases bytes@.len() - pos,
        {
            let ghost s = bytes@.skip(pos as int);
            proof {
                lemma_merge_run_step(cur@, s, Self::apply_fn());
                lemma_parse_field_len(s);
            }
            match read_field(bytes, pos) {
                Ok((f, end)) => {
                    assert(bytes@.skip(end as int) =~= s.skip((end - pos) as int));
                    match cur.applied(&f) {
                        Ok(m) => {
                            cur = m;
                        },
                        Err((m, e)) => {
                            *self = m;
                            return Err(e);
                        },
                    }
                    pos = end;
                },
                Err(e) => {
                    *self = cur;
                    return Err(e);
                },
            }
        }
        assert(bytes@.skip(pos as int) =~= Seq::<u8>::empty());
        proof {
            lemma_merge_run_empty(cur@, Self::apply_fn());
        }
        *self = cur;
        Ok(())
    }

    /// Decodes a message from its encoding.
    pub fn decode(bytes: &[u8]) -> (r: Result<Self, WireError>)
        ensures
            match Self::spec_decode(bytes@) {
                Ok(v) => r matches Ok(m) && m@ == v,
                Err(e) => r matches Err(x) && x == e,
            },
    {
        proof {
            reveal(CMsgClientNewLoginKey::spec_decode);
        }
        let mut m = Self::default();
        match m.merge(bytes) {
            Ok(()) => Ok(m),
            Err(e) => Err(e),
        }
    }

    /// The encoding of this message.
    pub fn encode_to_vec(&self) -> (r: Vec<u8>)
        ensures
            r@ == Self::spec_encode(self@),
    {
        let ghost v = self@;
        let mut out: Vec<u8> = Vec::new();
        let ghost p0 = Seq::<SpecField>::empty();
        put_opt_u32(&mut out, 1, self.unique_id);
        let ghost p1 = p0 + opt_u32(1, v.unique_id);
        proof {
            lemma_fields_bytes_concat(p0, opt_u32(1, v.unique_id));
        }
        put_opt_string(&mut out, 2, &self.login_key);
        let ghost p2 = p1 + opt_string(2, v.login_key);
        proof {
            lemma_fields_bytes_concat(p1, opt_string(2, v.login_key));
        }
        proof {
            reveal(CMsgClientNewLoginKey::spec_encode);
        }
        assert(p2 == Self::spec_fields(v));
        out
    }

    /// Appends the encoding of this message to `out`.
    pub fn encode_raw(&self, out: &mut Vec<u8>)
        ensures
            final(out)@ == old(out)@ + Self::spec_encode(self@),
    {
        let mut b = self.encode_to_vec();
        out.append(&mut b);
    }

    /// The first `k` fields of `v`, the others as a fresh message has them.
    #[verifier::opaque]
    pub open spec fn spec_prefix(v: SpecCMsgClientNewLoginKey, k: int) -> SpecCMsgClientNewLoginKey {
        SpecCMsgClientNewLoginKey {
            unique_id: if 1 <= k { v.unique_id } else { None },
            login_key: if 2 <= k { v.login_key } else { None },
        }
    }

    /// Reading field 1 back, after the fields before it.
    proof fn lemma_field_unique_id(v: SpecCMsgClientNewLoginKey)
        ensures
            fold_fields(Self::spec_prefix(v, 0), opt_u32(1, v.unique_id), Self::apply_fn())
                == Ok::<SpecCMsgClientNewLoginKey, WireError>(Self::spec_prefix(v, 1)),
    {
        reveal(CMsgClientNewLoginKey::spec_prefix);
        reveal(opt_u32);
        let apply = Self::apply_fn();
        let s = Self::spec_prefix(v, 0);
        lemma_fold_opt(s, 1, match v.unique_id { Some(x) => Some(enc_u32(x)), None => None }, apply);
        if let Some(x) = v.unique_id {
            lemma_u32_roundtrip(x);
        }
        assert(SpecCMsgClientNewLoginKey { unique_id: v.unique_id, ..s } == Self::spec_prefix(v, 1));
    }

    /// Reading field 2 back, after the fields before it.
    proof fn lemma_field_login_key(v: SpecCMsgClientNewLoginKey)
        ensures
            fold_fields(Self::spec_prefix(v, 1), opt_string(2, v.login_key), Self::apply_fn())
                == Ok::<SpecCMsgClientNewLoginKey, WireError>(Self::spec_prefix(v, 2)),
    {
        reveal(CMsgClientNewLoginKey::spec_prefix);
        reveal(opt_string);
        let apply = Self::apply_fn();
        let s = Self::spec_prefix(v, 1);
        lemma_fold_opt(s, 2, match v.login_key { Some(x) => Some(enc_string(x)), None => None }, apply);
        if let Some(x) = v.login_key {
            lemma_string_roundtrip(x);
        }
        assert(SpecCMsgClientNewLoginKey { login_key: v.login_key, ..s } == Self::spec_prefix(v, 2));
    }

    /// Whether this message declares field number `n`.
    pub open spec fn declares(n: u32) -> bool {
        n == 1 || n == 2
    }

    /// A record with a number this message does not declare is passed over: well-formed
    /// bytes decode to the same message with such a record after them as without it.
    pub proof fn lemma_unknown_field(bytes: Seq<u8>, f: SpecField)
        requires
            parse_fields(bytes) is Ok,
            field_wf(f),
            !Self::declares(f.number),
        ensures
            Self::spec_decode(bytes + field_bytes(f)) == Self::spec_decode(bytes),
    {
        reveal(CMsgClientNewLoginKey::spec_decode);
        lemma_parse_fields_append(bytes, f);
        let fs = parse_fields(bytes).unwrap();
        let apply = Self::apply_fn();
        lemma_fold_concat(Self::spec_default(), fs, seq![f], apply);
        assert(fs.push(f) =~= fs + seq![f]);
        if let Ok(w) = fold_fields(Self::spec_default(), fs, apply) {
            lemma_fold_single(w, f, apply);
        }
        lemma_merge_run_fold(Self::spec_default(), bytes, apply);
        lemma_merge_run_fold(Self::spec_default(), bytes + field_bytes(f), apply);
    }

    /// Decoding the encoding of a message gives the message back.
    pub proof fn lemma_decode_encode(v: SpecCMsgClientNewLoginKey)
        requires
            Self::spec_encode(v).len() <= u64::MAX,
        ensures
            Self::spec_decode(Self::spec_encode(v)) == Ok::<SpecCMsgClientNewLoginKey, WireError>(v),
    {
        let apply = Self::apply_fn();
        let d = Self::spec_default();
        let p0 = Seq::<SpecField>::empty();
        let l1 = opt_u32(1, v.unique_id);
        let p1 = p0 + l1;
        let l2 = opt_string(2, v.login_key);
        let p2 = p1 + l2;
        assert(parse_fields(Self::spec_encode(v)) == Ok::<Seq<SpecField>, WireError>(p2)) by {
            reveal(CMsgClientNewLoginKey::spec_encode);
            assert(numbers_ok(p0) && fields_wf(p0)) by {
                reveal(numbers_ok);
                reveal(fields_wf);
            }
            lemma_opt_u32_numbered(1, v.unique_id);
            lemma_fields_wf_concat(p0, l1);
            lemma_opt_string_numbered(2, v.login_key);
            lemma_fields_wf_concat(p1, l2);
            assert(p2 == Self::spec_fields(v));
            lemma_fields_wf_from_len(p2);
            lemma_fields_roundtrip(p2);
        }
        assert(Self::spec_prefix(v, 0) == d) by {
            reveal(CMsgClientNewLoginKey::spec_prefix);
        }
        lemma_fold_empty(d, apply);
        lemma_fold_concat(d, p0, l1, apply);
        Self::lemma_field_unique_id(v);
        lemma_fold_concat(d, p1, l2, apply);
        Self::lemma_field_login_key(v);
        assert(Self::spec_prefix(v, 2) == v) by {
            reveal(CMsgClientNewLoginKey::spec_prefix);
        }
        lemma_merge_run_fold(d, Self::spec_encode(v), apply);
        assert(Self::spec_decode(Self::spec_encode(v)) == Ok::<SpecCMsgClientNewLoginKey, WireError>(v)) by {
            reveal(CMsgClientNewLoginKey::spec_decode);
        }
    }
}

/// `CMsgClientNewLoginKeyAccepted`, as Valve's schema declares it.
#[derive(Debug, Clone, PartialEq)]
pub struct CMsgClientNewLoginKeyAccepted {
    /// Field 1.
    pub unique_id: Option<u32>,
}

/// What a `CMsgClientNewLoginKeyAccepted` holds, as mathematical values.
#[verifier::ext_equal]
pub struct SpecCMsgClientNewLoginKeyAccepted {
    pub unique_id: Option<u32>,
}

impl View for CMsgClientNewLoginKeyAccepted {
    type V = SpecCMsgClientNewLoginKeyAccepted;

    open spec fn view(&self) -> SpecCMsgClientNewLoginKeyAccepted {
        SpecCMsgClientNewLoginKeyAccepted {
            unique_id: self.unique_id,
        }
    }
}

impl Default for CMsgClientNewLoginKeyAccepted {
    fn default() -> (r: Self)
        ensures
            r@ == CMsgClientNewLoginKeyAccepted::spec_default(),
    {
        CMsgClientNewLoginKeyAccepted {
            unique_id: None,
        }
    }
}

impl CMsgClientNewLoginKeyAccepted {
    pub open spec fn spec_default() -> SpecCMsgClientNewLoginKeyAccepted {
        SpecCMsgClientNewLoginKeyAccepted {
            unique_id: None,
        }
    }

    /// The records a `CMsgClientNewLoginKeyAccepted` is written as, in field order.
    pub open spec fn spec_fields(v: SpecCMsgClientNewLoginKeyAccepted) -> Seq<SpecField> {
        Seq::<SpecField>::empty()
            + opt_u32(1, v.unique_id)
    }

    #[verifier::opaque]
    pub open spec fn spec_encode(v: SpecCMsgClientNewLoginKeyAccepted) -> Seq<u8> {
        fields_bytes(Self::spec_fields(v))
    }

    /// What one record does to the message: a declared number sets or extends its
    /// field, any other number is left alone.
    pub open spec fn spec_apply(v: SpecCMsgClientNewLoginKeyAccepted, f: SpecField) -> Result<SpecCMsgClientNewLoginKeyAccepted, WireError> {
        match f.number {
            1 => match dec_u32(f.value) {
                Ok(x) => Ok(SpecCMsgClientNewLoginKeyAccepted { unique_id: Some(x), ..v }),
                Err(e) => Err(e),
            },
            _ => Ok(v),
        }
    }

    pub open spec fn apply_fn() -> spec_fn(SpecCMsgClientNewLoginKeyAccepted, SpecField) -> Result<SpecCMsgClientNewLoginKeyAccepted, WireError> {
        |v: SpecCMsgClientNewLoginKeyAccepted, f: SpecField| Self::spec_apply(v, f)
    }

    /// The message `bytes` makes of `v`: its records applied in order, or the error
    /// that stops the reading.
    pub open spec fn spec_merge(v: SpecCMsgClientNewLoginKeyAccepted, bytes: Seq<u8>) -> Result<SpecCMsgClientNewLoginKeyAccepted, WireError> {
        let (w, stop) = merge_run(v, bytes, Self::apply_fn());
        match stop {
            None => Ok(w),
            Some(e) => Err(e),
        }
    }

    #[verifier::opaque]
    pub open spec fn spec_decode(bytes: Seq<u8>) -> Result<SpecCMsgClientNewLoginKeyAccepted, WireError> {
        Self::spec_merge(Self::spec_default(), bytes)
    }

    /// This message with one record applied to it, or, when the record is refused,
    /// the message unchanged and the reason.
    fn applied(self, f: &Field) -> (r: Result<Self, (Self, WireError)>)
        ensures
            match Self::spec_apply(self@, f@) {
                Ok(v) => r matches Ok(m) && m@ == v,
                Err(e) => r matches Err((m, x)) && x == e && m@ == self@,
            },
    {
        match f.number {
            1 => match read_u32(&f.value) {
                Ok(x) => Ok(Self { unique_id: Some(x), ..self }),
                Err(e) => Err((self, e)),
            },
            _ => Ok(self),
        }
    }

    /// Reads the records `bytes` holds into this message, in order. When a record does
    /// not parse or is refused, the reading stops there: the message keeps what the
    /// records before it gave, and the error is returned.
    pub fn merge(&mut self, bytes: &[u8]) -> (r: Result<(), WireError>)
        ensures
            final(self)@ == merge_run(old(self)@, bytes@, Self::apply_fn()).0,
            r == match merge_run(old(self)@, bytes@, Self::apply_fn()).1 {
                None => Ok::<(), WireError>(()),
                Some(e) => Err::<(), WireError>(e),
            },
    {
        let ghost total = merge_run(self@, bytes@, Self::apply_fn());
        let mut cur = Self::default();
        std::mem::swap(&mut cur, self);
        let mut pos: usize = 0;
        assert(bytes@.skip(0) =~= bytes@);
        while pos < bytes.len()
            invariant
                pos <= bytes@.len(),
                total == merge_run(old(self)@, bytes@, Self::apply_fn()),
                merge_run(cur@, bytes@.skip(pos as int), Self::apply_fn()) == total,
            decreases bytes@.len() - pos,
        {
            let ghost s = bytes@.skip(pos as int);
            proof {
                lemma_merge_run_step(cur@, s, Self::apply_fn());
                lemma_parse_field_len(s);
            }
            match read_field(bytes, pos) {
                Ok((f, end)) => {
                    assert(bytes@.skip(end as int) =~= s.skip((end - pos) as int));
                    match cur.applied(&f) {
                        Ok(m) => {
                            cur = m;
                        },
                        Err((m, e)) => {
                            *self = m;
                            return Err(e);
                        },
                    }
                    pos = end;
                },
                Err(e) => {
                    *self = cur;
                    return Err(e);
                },
            }
        }
        assert(bytes@.skip(pos as int) =~= Seq::<u8>::empty());
        proof {
            lemma_merge_run_empty(cur@, Self::apply_fn());
        }
        *self = cur;
        Ok(())
    }

    /// Decodes a message from its encoding.
    pub fn decode(bytes: &[u8]) -> (r: Result<Self, WireError>)
        ensures
            match Self::spec_decode(bytes@) {
                Ok(v) => r matches Ok(m) && m@ == v,
                Err(e) => r matches Err(x) && x == e,
            },
    {
        proof {
            reveal(CMsgClientNewLoginKeyAccepted::spec_decode);
        }
        let mut m = Self::default();
        match m.merge(bytes) {
            Ok(()) => Ok(m),
            Err(e) => Err(e),
        }
    }

    /// The encoding of this message.
    pub fn encode_to_vec(&self) -> (r: Vec<u8>)
        ensures
            r@ == Self::spec_encode(self@),
    {
        let ghost v = self@;
        let mut out: Vec<u8> = Vec::new();
        let ghost p0 = Seq::<SpecField>::empty();
        put_opt_u32(&mut out, 1, self.unique_id);
        let ghost p1 = p0 + opt_u32(1, v.unique_id);
        proof {
            lemma_fields_bytes_concat(p0, opt_u32(1, v.unique_id));
        }
        proof {
            reveal(CMsgClientNewLoginKeyAccepted::spec_encode);
        }
        assert(p1 == Self::spec_fields(v));
        out
    }

    /// Appends the encoding of this message to `out`.
    pub fn encode_raw(&self, out: &mut Vec<u8>)
        ensures
            final(out)@ == old(out)@ + Self::spec_encode(self@),
    {
        let mut b = self.encode_to_vec();
        out.append(&mut b);
    }

    /// The first `k` fields of `v`, the others as a fresh message has them.
    #[verifier::opaque]
    pub open spec fn spec_prefix(v: SpecCMsgClientNewLoginKeyAccepted, k: int) -> SpecCMsgClientNewLoginKeyAccepted {
        SpecCMsgClientNewLoginKeyAccepted {
            unique_id: if 1 <= k { v.unique_id } else { None },
        }
    }

    /// Reading field 1 back, after the fields before it.
    proof fn lemma_field_unique_id(v: SpecCMsgClientNewLoginKeyAccepted)
        ensures
            fold_fields(Self::spec_prefix(v, 0), opt_u32(1, v.unique_id), Self::apply_fn())
                == Ok::<SpecCMsgClientNewLoginKeyAccepted, WireError>(Self::spec_prefix(v, 1)),
    {
        reveal(CMsgClientNewLoginKeyAccepted::spec_prefix);
        reveal(opt_u32);
        let apply = Self::apply_fn();
        let s = Self::spec_prefix(v, 0);
        lemma_fold_opt(s, 1, match v.unique_id { Some(x) => Some(enc_u32(x)), None => None }, apply);
        if let Some(x) = v.unique_id {
            lemma_u32_roundtrip(x);
        }
        assert(SpecCMsgClientNewLoginKeyAccepted { unique_id: v.unique_id, ..s } == Self::spec_prefix(v, 1));
    }

    /// Whether this message declares field number `n`.
    pub open spec fn declares(n: u32) -> bool {
        n == 1
    }

    /// A record with a number this message does not declare is passed over: well-formed
    /// bytes decode to the same message with such a record after them as without it.
    pub proof fn lemma_unknown_field(bytes: Seq<u8>, f: SpecField)
        requires
            parse_fields(bytes) is Ok,
            field_wf(f),
            !Self::declares(f.number),
        ensures
            Self::spec_decode(bytes + field_bytes(f)) == Self::spec_decode(bytes),
    {
        reveal(CMsgClientNewLoginKeyAccepted::spec_decode);
        lemma_parse_fields_append(bytes, f);
        let fs = parse_fields(bytes).unwrap();
        let apply = Self::apply_fn();
        lemma_fold_concat(Self::spec_default(), fs, seq![f], apply);
        assert(fs.push(f) =~= fs + seq![f]);
        if let Ok(w) = fold_fields(Self::spec_default(), fs, apply) {
            lemma_fold_single(w, f, apply);
        }
        lemma_merge_run_fold(Self::spec_default(), bytes, apply);
        lemma_merge_run_fold(Self::spec_default(), bytes + field_bytes(f), apply);
    }

    /// Decoding the encoding of a message gives the message back.
    pub proof fn lemma_decode_encode(v: SpecCMsgClientNewLoginKeyAccepted)
        requires
            Self::spec_encode(v).len() <= u64::MAX,
        ensures
            Self::spec_decode(Self::spec_encode(v)) == Ok::<SpecCMsgClientNewLoginKeyAccepted, WireError>(v),
    {
        let apply = Self::apply_fn();
        let d = Self::spec_default();
        let p0 = Seq::<SpecField>::empty();
        let l1 = opt_u32(1, v.unique_id);
        let p1 = p0 + l1;
        assert(parse_fields(Self::spec_encode(v)) == Ok::<Seq<SpecField>, WireError>(p1)) by {
            reveal(CMsgClientNewLoginKeyAccepted::spec_encode);
            assert(numbers_ok(p0) && fields_wf(p0)) by {
                reveal(numbers_ok);
                reveal(fields_wf);
            }
            lemma_opt_u32_numbered(1, v.unique_id);
            lemma_fields_wf_concat(p0, l1);
            assert(p1 == Self::spec_fields(v));
            lemma_fields_wf_from_len(p1);
            lemma_fields_roundtrip(p1);
        }
        assert(Self::spec_prefix(v, 0) == d) by {
            reveal(CMsgClientNewLoginKeyAccepted::spec_prefix);
        }
        lemma_fold_empty(d, apply);
        lemma_fold_concat(d, p0, l1, apply);
        Self::lemma_field_unique_id(v);
        assert(Self::spec_prefix(v, 1) == v) by {
            reveal(CMsgClientNewLoginKeyAccepted::spec_prefix);
        }
        lemma_merge_run_fold(d, Self::spec_encode(v), apply);
        assert(Self::spec_decode(Self::spec_encode(v)) == Ok::<SpecCMsgClientNewLoginKeyAccepted, WireError>(v)) by {
            reveal(CMsgClientNewLoginKeyAccepted::spec_decode);
        }
    }
}

/// `CMsgClientAccountInfo`, as Valve's schema declares it.
#[derive(Debug, Clone, PartialEq)]
pub struct CMsgClientAccountInfo {
    /// Field 1.
    pub persona_name: Option<String>,
    /// Field 2.
    pub ip_country: Option<String>,
    /// Field 5.
    pub count_authed_computers: Option<i32>,
    /// Field 7.
    pub account_flags: Option<u32>,
    /// Field 15.
    pub steamguard_machine_name_user_chosen: Option<String>,
    /// Field 16.
    pub is_phone_verified: Option<bool>,
    /// Field 17.
    pub two_factor_state: Option<u32>,
    /// Field 18.
    pub is_phone_identifying: Option<bool>,
    /// Field 19.
    pub is_phone_needing_reverify: Option<bool>,
}

/// What a `CMsgClientAccountInfo` holds, as mathematical values.
#[verifier::ext_equal]
pub struct SpecCMsgClientAccountInfo {
    pub persona_name: Option<Seq<char>>,
    pub ip_country: Option<Seq<char>>,
    pub count_authed_computers: Option<i32>,
    pub account_flags: Option<u32>,
    pub steamguard_machine_name_user_chosen: Option<Seq<char>>,
    pub is_phone_verified: Option<bool>,
    pub two_factor_state: Option<u32>,
    pub is_phone_identifying: Option<bool>,
    pub is_phone_needing_reverify: Option<bool>,
}

impl View for CMsgClientAccountInfo {
    type V = SpecCMsgClientAccountInfo;

    open spec fn view(&self) -> SpecCMsgClientAccountInfo {
        SpecCMsgClientAccountInfo {
            persona_name: opt_string_view(self.persona_name),
            ip_country: opt_string_view(self.ip_country),
            count_authed_computers: self.count_authed_computers,
            account_flags: self.account_flags,
            steamguard_machine_name_user_chosen: opt_string_view(self.steamguard_machine_name_user_chosen),
            is_phone_verified: self.is_phone_verified,
            two_factor_state: self.two_factor_state,
            is_phone_identifying: self.is_phone_identifying,
            is_phone_needing_reverify: self.is_phone_needing_reverify,
        }
    }
}

impl Default for CMsgClientAccountInfo {
    fn default() -> (r: Self)
        ensures
            r@ == CMsgClientAccountInfo::spec_default(),
    {
        CMsgClientAccountInfo {
            persona_name: None,
            ip_country: None,
            count_authed_computers: None,
            account_flags: None,
            steamguard_machine_name_user_chosen: None,
            is_phone_verified: None,
            two_factor_state: None,
            is_phone_identifying: None,
            is_phone_needing_reverify: None,
        }
    }
}

impl CMsgClientAccountInfo {
    pub open spec fn spec_default() -> SpecCMsgClientAccountInfo {
        SpecCMsgClientAccountInfo {
            persona_name: None,
            ip_country: None,
            count_authed_computers: None,
            account_flags: None,
            steamguard_machine_name_user_chosen: None,
            is_phone_verified: None,
            two_factor_state: None,
            is_phone_identifying: None,
            is_phone_needing_reverify: None,
        }
    }

    /// The records a `CMsgClientAccountInfo` is written as, in field order.
    pub open spec fn spec_fields(v: SpecCMsgClientAccountInfo) -> Seq<SpecField> {
        Seq::<SpecField>::empty()
            + opt_string(1, v.persona_name)
            + opt_string(2, v.ip_country)
            + opt_i32(5, v.count_authed_computers)
            + opt_u32(7, v.account_flags)
            + opt_string(15, v.steamguard_machine_name_user_chosen)
            + opt_bool(16, v.is_phone_verified)
            + opt_u32(17, v.two_factor_state)
            + opt_bool(18, v.is_phone_identifying)
            + opt_bool(19, v.is_phone_needing_reverify)
    }

    #[verifier::opaque]
    pub open spec fn spec_encode(v: SpecCMsgClientAccountInfo) -> Seq<u8> {
        fields_bytes(Self::spec_fields(v))
    }

    /// What one record does to the message: a declared number sets or extends its
    /// field, any other number is left alone.
    pub open spec fn spec_apply(v: SpecCMsgClientAccountInfo, f: SpecField) -> Result<SpecCMsgClientAccountInfo, WireError> {
        match f.number {
            1 => match dec_string(f.value) {
                Ok(x) => Ok(SpecCMsgClientAccountInfo { persona_name: Some(x), ..v }),
                Err(e) => Err(e),
            },
            2 => match dec_string(f.value) {
                Ok(x) => Ok(SpecCMsgClientAccountInfo { ip_country: Some(x), ..v }),
                Err(e) => Err(e),
            },
            5 => match dec_i32(f.value) {
                Ok(x) => Ok(SpecCMsgClientAccountInfo { count_authed_computers: Some(x), ..v }),
                Err(e) => Err(e),
            },
            7 => match dec_u32(f.value) {
                Ok(x) => Ok(SpecCMsgClientAccountInfo { account_flags: Some(x), ..v }),
                Err(e) => Err(e),
            },
            15 => match dec_string(f.value) {
                Ok(x) => Ok(SpecCMsgClientAccountInfo { steamguard_machine_name_user_chosen: Some(x), ..v }),
                Err(e) => Err(e),
            },
            16 => match dec_bool(f.value) {
                Ok(x) => Ok(SpecCMsgClientAccountInfo { is_phone_verified: Some(x), ..v }),
                Err(e) => Err(e),
            },
            17 => match dec_u32(f.value) {
                Ok(x) => Ok(SpecCMsgClientAccountInfo { two_factor_state: Some(x), ..v }),
                Err(e) => Err(e),
            },
            18 => match dec_bool(f.value) {
                Ok(x) => Ok(SpecCMsgClientAccountInfo { is_phone_identifying: Some(x), ..v }),
                Err(e) => Err(e),
            },
            19 => match dec_bool(f.value) {
                Ok(x) => Ok(SpecCMsgClientAccountInfo { is_phone_needing_reverify: Some(x), ..v }),
                Err(e) => Err(e),
            },
            _ => Ok(v),
        }
    }

    pub open spec fn apply_fn() -> spec_fn(SpecCMsgClientAccountInfo, SpecField) -> Result<SpecCMsgClientAccountInfo, WireError> {
        |v: SpecCMsgClientAccountInfo, f: SpecField| Self::spec_apply(v, f)
    }

    /// The message `bytes` makes of `v`: its records applied in order, or the error
    /// that stops the reading.
    pub open spec fn spec_merge(v: SpecCMsgClientAccountInfo, bytes: Seq<u8>) -> Result<SpecCMsgClientAccountInfo, WireError> {
        let (w, stop) = merge_run(v, bytes, Self::apply_fn());
        match stop {
            None => Ok(w),
            Some(e) => Err(e),
        }
    }

    #[verifier::opaque]
    pub open spec fn spec_decode(bytes: Seq<u8>) -> Result<SpecCMsgClientAccountInfo, WireError> {
        Self::spec_merge(Self::spec_default(), bytes)
    }

    /// This message with one record applied to it, or, when the record is refused,
    /// the message unchanged and the reason.
    fn applied(self, f: &Field) -> (r: Result<Self, (Self, WireError)>)
        ensures
            match Self::spec_apply(self@, f@) {
                Ok(v) => r matches Ok(m) && m@ == v,
                Err(e) => r matches Err((m, x)) && x == e && m@ == self@,
            },
    {
        if f.number <= 16 {
            self.applied_0(f)
        } else {
            self.applied_1(f)
        }
    }

    /// `applied`, for the records numbered up to 16.
    fn applied_0(self, f: &Field) -> (r: Result<Self, (Self, WireError)>)
        requires
            f.number <= 16,
        ensures
            match Self::spec_apply(self@, f@) {
                Ok(v) => r matches Ok(m) && m@ == v,
                Err(e) => r matches Err((m, x)) && x == e && m@ == self@,
            },
    {
        match f.number {
            1 => match read_string(&f.value) {
                Ok(x) => Ok(Self { persona_name: Some(x), ..self }),
                Err(e) => Err((self, e)),
            },
            2 => match read_string(&f.value) {
                Ok(x) => Ok(Self { ip_country: Some(x), ..self }),
                Err(e) => Err((self, e)),
            },
            5 => match read_i32(&f.value) {
                Ok(x) => Ok(Self { count_authed_computers: Some(x), ..self }),
                Err(e) => Err((self, e)),
            },
            7 => match read_u32(&f.value) {
                Ok(x) => Ok(Self { account_flags: Some(x), ..self }),
                Err(e) => Err((self, e)),
            },
            15 => match read_string(&f.value) {
                Ok(x) => Ok(Self { steamguard_machine_name_user_chosen: Some(x), ..self }),
                Err(e) => Err((self, e)),
            },
            16 => match read_bool(&f.value) {
                Ok(x) => Ok(Self { is_phone_verified: Some(x), ..self }),
                Err(e) => Err((self, e)),
            },
            _ => Ok(self),
        }
    }

    /// `applied`, for the records numbered above 16.
    fn applied_1(self, f: &Field) -> (r: Result<Self, (Self, WireError)>)
        requires
            16 < f.number,
        ensures
            match Self::spec_apply(self@, f@) {
                Ok(v) => r matches Ok(m) && m@ == v,
                Err(e) => r matches Err((m, x)) && x == e && m@ == self@,
            },
    {
        match f.number {
            17 => match read_u32(&f.value) {
                Ok(x) => Ok(Self { two_factor_state: Some(x), ..self }),
                Err(e) => Err((self, e)),
            },
            18 => match read_bool(&f.value) {
                Ok(x) => Ok(Self { is_phone_identifying: Some(x), ..self }),
                Err(e) => Err((self, e)),
            },
            19 => match read_bool(&f.value) {
                Ok(x) => Ok(Self { is_phone_needing_reverify: Some(x), ..self }),
                Err(e) => Err((self, e)),
            },
            _ => Ok(self),
        }
    }

    /// Reads the records `bytes` holds into this message, in order. When a record does
    /// not parse or is refused, the reading stops there: the message keeps what the
    /// records before it gave, and the error is returned.
    pub fn merge(&mut self, bytes: &[u8]) -> (r: Result<(), WireError>)
        ensures
            final(self)@ == merge_run(old(self)@, bytes@, Self::apply_fn()).0,
            r == match merge_run(old(self)@, bytes@, Self::apply_fn()).1 {
                None => Ok::<(), WireError>(()),
                Some(e) => Err::<(), WireError>(e),
            },
    {
        let ghost total = merge_run(self@, bytes@, Self::apply_fn());
        let mut cur = Self::default();
        std::mem::swap(&mut cur, self);
        let mut pos: usize = 0;
        assert(bytes@.skip(0) =~= bytes@);
        while pos < bytes.len()
            invariant
                pos <= bytes@.len(),
                total == merge_run(old(self)@, bytes@, Self::apply_fn()),
                merge_run(cur@, bytes@.skip(pos as int), Self::apply_fn()) == total,
            decreases bytes@.len() - pos,
        {
            let ghost s = bytes@.skip(pos as int);
            proof {
                lemma_merge_run_step(cur@, s, Self::apply_fn());
                lemma_parse_field_len(s);
            }
            match read_field(bytes, pos) {
                Ok((f, end)) => {
                    assert(bytes@.skip(end as int) =~= s.skip((end - pos) as int));
                    match cur.applied(&f) {
                        Ok(m) => {
                            cur = m;
                        },
                        Err((m, e)) => {
                            *self = m;
                            return Err(e);
                        },
                    }
                    pos = end;
                },
                Err(e) => {
                    *self = cur;
                    return Err(e);
                },
            }
        }
        assert(bytes@.skip(pos as int) =~= Seq::<u8>::empty());
        proof {
            lemma_merge_run_empty(cur@, Self::apply_fn());
        }
        *self = cur;
        Ok(())
    }

    /// Decodes a message from its encoding.
    pub fn decode(bytes: &[u8]) -> (r: Result<Self, WireError>)
        ensures
            match Self::spec_decode(bytes@) {
                Ok(v) => r matches Ok(m) && m@ == v,
                Err(e) => r matches Err(x) && x == e,
            },
    {
        proof {
            reveal(CMsgClientAccountInfo::spec_decode);
        }
        let mut m = Self::default();
        match m.merge(bytes) {
            Ok(()) => Ok(m),
            Err(e) => Err(e),
        }
    }

    /// The encoding of this message.
    pub fn encode_to_vec(&self) -> (r: Vec<u8>)
        ensures
            r@ == Self::spec_encode(self@),
    {
        let ghost v = self@;
        let mut out: Vec<u8> = Vec::new();
        let ghost p0 = Seq::<SpecField>::empty();
        put_opt_string(&mut out, 1, &self.persona_name);
        let ghost p1 = p0 + opt_string(1, v.persona_name);
        proof {
            lemma_fields_bytes_concat(p0, opt_string(1, v.persona_name));
        }
        put_opt_string(&mut out, 2, &self.ip_country);
        let ghost p2 = p1 + opt_string(2, v.ip_country);
        proof {
            lemma_fields_bytes_concat(p1, opt_string(2, v.ip_country));
        }
        put_opt_i32(&mut out, 5, self.count_authed_computers);
        let ghost p3 = p2 + opt_i32(5, v.count_authed_computers);
        proof {
            lemma_fields_bytes_concat(p2, opt_i32(5, v.count_authed_computers));
        }
        put_opt_u32(&mut out, 7, self.account_flags);
        let ghost p4 = p3 + opt_u32(7, v.account_flags);
        proof {
            lemma_fields_bytes_concat(p3, opt_u32(7, v.account_flags));
        }
        put_opt_string(&mut out, 15, &self.steamguard_machine_name_user_chosen);
        let ghost p5 = p4 + opt_string(15, v.steamguard_machine_name_user_chosen);
        proof {
            lemma_fields_bytes_concat(p4, opt_string(15, v.steamguard_machine_name_user_chosen));
        }
        put_opt_bool(&mut out, 16, self.is_phone_verified);
        let ghost p6 = p5 + opt_bool(16, v.is_phone_verified);
        proof {
            lemma_fields_bytes_concat(p5, opt_bool(16, v.is_phone_verified));
        }
        put_opt_u32(&mut out, 17, self.two_factor_state);
        let ghost p7 = p6 + opt_u32(17, v.two_factor_state);
        proof {
            lemma_fields_bytes_concat(p6, opt_u32(17, v.two_factor_state));
        }
        put_opt_bool(&mut out, 18, self.is_phone_identifying);
        let ghost p8 = p7 + opt_bool(18, v.is_phone_identifying);
        proof {
            lemma_fields_bytes_concat(p7, opt_bool(18, v.is_phone_identifying));
        }
        put_opt_bool(&mut out, 19, self.is_phone_needing_reverify);
        let ghost p9 = p8 + opt_bool(19, v.is_phone_needing_reverify);
        proof {
            lemma_fields_bytes_concat(p8, opt_bool(19, v.is_phone_needing_reverify));
        }
        proof {
            reveal(CMsgClientAccountInfo::spec_encode);
        }
        assert(p9 == Self::spec_fields(v));
        out
    }

    /// Appends the encoding of this message to `out`.
    pub fn encode_raw(&self, out: &mut Vec<u8>)
        ensures
            final(out)@ == old(out)@ + Self::spec_encode(self@),
    {
        let mut b = self.encode_to_vec();
        out.append(&mut b);
    }

    /// The first `k` fields of `v`, the others as a fresh message has them.
    #[verifier::opaque]
    pub open spec fn spec_prefix(v: SpecCMsgClientAccountInfo, k: int) -> SpecCMsgClientAccountInfo {
        SpecCMsgClientAccountInfo {
            persona_name: if 1 <= k { v.persona_name } else { None },
            ip_country: if 2 <= k { v.ip_country } else { None },
            count_authed_computers: if 3 <= k { v.count_authed_computers } else { None },
            account_flags: if 4 <= k { v.account_flags } else { None },
            steamguard_machine_name_user_chosen: if 5 <= k { v.steamguard_machine_name_user_chosen } else { None },
            is_phone_verified: if 6 <= k { v.is_phone_verified } else { None },
            two_factor_state: if 7 <= k { v.two_factor_state } else { None },
            is_phone_identifying: if 8 <= k { v.is_phone_identifying } else { None },
            is_phone_needing_reverify: if 9 <= k { v.is_phone_needing_reverify } else { None },
        }
    }

    /// Reading field 1 back, after the fields before it.
    proof fn lemma_field_persona_name(v: SpecCMsgClientAccountInfo)
        ensures
            fold_fields(Self::spec_prefix(v, 0), opt_string(1, v.persona_name), Self::apply_fn())
                == Ok::<SpecCMsgClientAccountInfo, WireError>(Self::spec_prefix(v, 1)),
    {
        reveal(CMsgClientAccountInfo::spec_prefix);
        reveal(opt_string);
        let apply = Self::apply_fn();
        let s = Self::spec_prefix(v, 0);
        lemma_fold_opt(s, 1, match v.persona_name { Some(x) => Some(enc_string(x)), None => None }, apply);
        if let Some(x) = v.persona_name {
            lemma_string_roundtrip(x);
        }
        assert(SpecCMsgClientAccountInfo { persona_name: v.persona_name, ..s } == Self::spec_prefix(v, 1));
    }

    /// Reading field 2 back, after the fields before it.
    proof fn lemma_field_ip_country(v: SpecCMsgClientAccountInfo)
        ensures
            fold_fields(Self::spec_prefix(v, 1), opt_string(2, v.ip_country), Self::apply_fn())
                == Ok::<SpecCMsgClientAccountInfo, WireError>(Self::spec_prefix(v, 2)),
    {
        reveal(CMsgClientAccountInfo::spec_prefix);
        reveal(opt_string);
        let apply = Self::apply_fn();
        let s = Self::spec_prefix(v, 1);
        lemma_fold_opt(s, 2, match v.ip_country { Some(x) => Some(enc_string(x)), None => None }, apply);
        if let Some(x) = v.ip_country {
            lemma_string_roundtrip(x);
        }
        assert(SpecCMsgClientAccountInfo { ip_country: v.ip_country, ..s } == Self::spec_prefix(v, 2));
    }

    /// Reading field 5 back, after the fields before it.
    proof fn lemma_field_count_authed_computers(v: SpecCMsgClientAccountInfo)
        ensures
            fold_fields(Self::spec_prefix(v, 2), opt_i32(5, v.count_authed_computers), Self::apply_fn())
                == Ok::<SpecCMsgClientAccountInfo, WireError>(Self::spec_prefix(v, 3)),
    {
        reveal(CMsgClientAccountInfo::spec_prefix);
        reveal(opt_i32);
        let apply = Self::apply_fn();
        let s = Self::spec_prefix(v, 2);
        lemma_fold_opt(s, 5, match v.count_authed_computers { Some(x) => Some(enc_i32(x)), None => None }, apply);
        if let Some(x) = v.count_authed_computers {
            lemma_i32_roundtrip(x);
        }
        assert(SpecCMsgClientAccountInfo { count_authed_computers: v.count_authed_computers, ..s } == Self::spec_prefix(v, 3));
    }

    /// Reading field 7 back, after the fields before it.
    proof fn lemma_field_account_flags(v: SpecCMsgClientAccountInfo)
        ensures
            fold_fields(Self::spec_prefix(v, 3), opt_u32(7, v.account_flags), Self::apply_fn())
                == Ok::<SpecCMsgClientAccountInfo, WireError>(Self::spec_prefix(v, 4)),
    {
        reveal(CMsgClientAccountInfo::spec_prefix);
        reveal(opt_u32);
        let apply = Self::apply_fn();
        let s = Self::spec_prefix(v, 3);
        lemma_fold_opt(s, 7, match v.account_flags { Some(x) => Some(enc_u32(x)), None => None }, apply);
        if let Some(x) = v.account_flags {
            lemma_u32_roundtrip(x);
        }
        assert(SpecCMsgClientAccountInfo { account_flags: v.account_flags, ..s } == Self::spec_prefix(v, 4));
    }

    /// Reading field 15 back, after the fields before it.
    proof fn lemma_field_steamguard_machine_name_user_chosen(v: SpecCMsgClientAccountInfo)
        ensures
            fold_fields(Self::spec_prefix(v, 4), opt_string(15, v.steamguard_machine_name_user_chosen), Self::apply_fn())
                == Ok::<SpecCMsgClientAccountInfo, WireError>(Self::spec_prefix(v, 5)),
    {
        reveal(CMsgClientAccountInfo::spec_prefix);
        reveal(opt_string);
        let apply = Self::apply_fn();
        let s = Self::spec_prefix(v, 4);
        lemma_fold_opt(s, 15, match v.steamguard_machine_name_user_chosen { Some(x) => Some(enc_string(x)), None => None }, apply);
        if let Some(x) = v.steamguard_machine_name_user_chosen {
            lemma_string_roundtrip(x);
        }
        assert(SpecCMsgClientAccountInfo { steamguard_machine_name_user_chosen: v.steamguard_machine_name_user_chosen, ..s } == Self::spec_prefix(v, 5));
    }

    /// Reading field 16 back, after the fields before it.
    proof fn lemma_field_is_phone_verified(v: SpecCMsgClientAccountInfo)
        ensures
            fold_fields(Self::spec_prefix(v, 5), opt_bool(16, v.is_phone_verified), Self::apply_fn())
                == Ok::<SpecCMsgClientAccountInfo, WireError>(Self::spec_prefix(v, 6)),
    {
        reveal(CMsgClientAccountInfo::spec_prefix);
        reveal(opt_bool);
        let apply = Self::apply_fn();
        let s = Self::spec_prefix(v, 5);
        lemma_fold_opt(s, 16, match v.is_phone_verified { Some(x) => Some(enc_bool(x)), None => None }, apply);
        assert(SpecCMsgClientAccountInfo { is_phone_verified: v.is_phone_verified, ..s } == Self::spec_prefix(v, 6));
    }

    /// Reading field 17 back, after the fields before it.
    proof fn lemma_field_two_factor_state(v: SpecCMsgClientAccountInfo)
        ensures
            fold_fields(Self::spec_prefix(v, 6), opt_u32(17, v.two_factor_state), Self::apply_fn())
                == Ok::<SpecCMsgClientAccountInfo, WireError>(Self::spec_prefix(v, 7)),
    {
        reveal(CMsgClientAccountInfo::spec_prefix);
        reveal(opt_u32);
        let apply = Self::apply_fn();
        let s = Self::spec_prefix(v, 6);
        lemma_fold_opt(s, 17, match v.two_factor_state { Some(x) => Some(enc_u32(x)), None => None }, apply);
        if let Some(x) = v.two_factor_state {
            lemma_u32_roundtrip(x);
        }
        assert(SpecCMsgClientAccountInfo { two_factor_state: v.two_factor_state, ..s } == Self::spec_prefix(v, 7));
    }

    /// Reading field 18 back, after the fields before it.
    proof fn lemma_field_is_phone_identifying(v: SpecCMsgClientAccountInfo)
        ensures
            fold_fields(Self::spec_prefix(v, 7), opt_bool(18, v.is_phone_identifying), Self::apply_fn())
                == Ok::<SpecCMsgClientAccountInfo, WireError>(Self::spec_prefix(v, 8)),
    {
        reveal(CMsgClientAccountInfo::spec_prefix);
        reveal(opt_bool);
        let apply = Self::apply_fn();
        let s = Self::spec_prefix(v, 7);
        lemma_fold_opt(s, 18, match v.is_phone_identifying { Some(x) => Some(enc_bool(x)), None => None }, apply);
        assert(SpecCMsgClientAccountInfo { is_phone_identifying: v.is_phone_identifying, ..s } == Self::spec_prefix(v, 8));
    }

    /// Reading field 19 back, after the fields before it.
    proof fn lemma_field_is_phone_needing_reverify(v: SpecCMsgClientAccountInfo)
        ensures
            fold_fields(Self::spec_prefix(v, 8), opt_bool(19, v.is_phone_needing_reverify), Self::apply_fn())
                == Ok::<SpecCMsgClientAccountInfo, WireError>(Self::spec_prefix(v, 9)),
    {
        reveal(CMsgClientAccountInfo::spec_prefix);
        reveal(opt_bool);
        let apply = Self::apply_fn();
        let s = Self::spec_prefix(v, 8);
        lemma_fold_opt(s, 19, match v.is_phone_needing_reverify { Some(x) => Some(enc_bool(x)), None => None }, apply);
        assert(SpecCMsgClientAccountInfo { is_phone_needing_reverify: v.is_phone_needing_reverify, ..s } == Self::spec_prefix(v, 9));
    }

    /// Whether this message declares field number `n`.
    pub open spec fn declares(n: u32) -> bool {
        n == 1 || n == 2 || n == 5 || n == 7 || n == 15 || n == 16 || n == 17 || n == 18 || n == 19
    }

    /// A record with a number this message does not declare is passed over: well-formed
    /// bytes decode to the same message with such a record after them as without it.
    pub proof fn lemma_unknown_field(bytes: Seq<u8>, f: SpecField)
        requires
            parse_fields(bytes) is Ok,
            field_wf(f),
            !Self::declares(f.number),
        ensures
            Self::spec_decode(bytes + field_bytes(f)) == Self::spec_decode(bytes),
    {
        reveal(CMsgClientAccountInfo::spec_decode);
        lemma_parse_fields_append(bytes, f);
        let fs = parse_fields(bytes).unwrap();
        let apply = Self::apply_fn();
        lemma_fold_concat(Self::spec_default(), fs, seq![f], apply);
        assert(fs.push(f) =~= fs + seq![f]);
        if let Ok(w) = fold_fields(Self::spec_default(), fs, apply) {
            lemma_fold_single(w, f, apply);
        }
        lemma_merge_run_fold(Self::spec_default(), bytes, apply);
        lemma_merge_run_fold(Self::spec_default(), bytes + field_bytes(f), apply);
    }

    /// Decoding the encoding of a message gives the message back.
    pub proof fn lemma_decode_encode(v: SpecCMsgClientAccountInfo)
        requires
            Self::spec_encode(v).len() <= u64::MAX,
        ensures
            Self::spec_decode(Self::spec_encode(v)) == Ok::<SpecCMsgClientAccountInfo, WireError>(v),
    {
        let apply = Self::apply_fn();
        let d = Self::spec_default();
        let p0 = Seq::<SpecField>::empty();
        let l1 = opt_string(1, v.persona_name);
        let p1 = p0 + l1;
        let l2 = opt_string(2, v.ip_country);
        let p2 = p1 + l2;
        let l3 = opt_i32(5, v.count_authed_computers);
        let p3 = p2 + l3;
        let l4 = opt_u32(7, v.account_flags);
        let p4 = p3 + l4;
        let l5 = opt_string(15, v.steamguard_machine_name_user_chosen);
        let p5 = p4 + l5;
        let l6 = opt_bool(16, v.is_phone_verified);
        let p6 = p5 + l6;
        let l7 = opt_u32(17, v.two_factor_state);
        let p7 = p6 + l7;
        let l8 = opt_bool(18, v.is_phone_identifying);
        let p8 = p7 + l8;
        let l9 = opt_bool(19, v.is_phone_needing_reverify);
        let p9 = p8 + l9;
        assert(parse_fields(Self::spec_encode(v)) == Ok::<Seq<SpecField>, WireError>(p9)) by {
            reveal(CMsgClientAccountInfo::spec_encode);
            assert(numbers_ok(p0) && fields_wf(p0)) by {
                reveal(numbers_ok);
                reveal(fields_wf);
            }
            lemma_opt_string_numbered(1, v.persona_name);
            lemma_fields_wf_concat(p0, l1);
            lemma_opt_string_numbered(2, v.ip_country);
            lemma_fields_wf_concat(p1, l2);
            lemma_opt_i32_numbered(5, v.count_authed_computers);
            lemma_fields_wf_concat(p2, l3);
            lemma_opt_u32_numbered(7, v.account_flags);
            lemma_fields_wf_concat(p3, l4);
            lemma_opt_string_numbered(15, v.steamguard_machine_name_user_chosen);
            lemma_fields_wf_concat(p4, l5);
            lemma_opt_bool_numbered(16, v.is_phone_verified);
            lemma_fields_wf_concat(p5, l6);
            lemma_opt_u32_numbered(17, v.two_factor_state);
            lemma_fields_wf_concat(p6, l7);
            lemma_opt_bool_numbered(18, v.is_phone_identifying);
            lemma_fields_wf_concat(p7, l8);
            lemma_opt_bool_numbered(19, v.is_phone_needing_reverify);
            lemma_fields_wf_concat(p8, l9);
            assert(p9 == Self::spec_fields(v));
            lemma_fields_wf_from_len(p9);
            lemma_fields_roundtrip(p9);
        }
        assert(Self::spec_prefix(v, 0) == d) by {
            reveal(CMsgClientAccountInfo::spec_prefix);
        }
        lemma_fold_empty(d, apply);
        lemma_fold_concat(d, p0, l1, apply);
        Self::lemma_field_persona_name(v);
        lemma_fold_concat(d, p1, l2, apply);
        Self::lemma_field_ip_country(v);
        lemma_fold_concat(d, p2, l3, apply);
        Self::lemma_field_count_authed_computers(v);
        lemma_fold_concat(d, p3, l4, apply);
        Self::lemma_field_account_flags(v);
        lemma_fold_concat(d, p4, l5, apply);
        Self::lemma_field_steamguard_machine_name_user_chosen(v);
        lemma_fold_concat(d, p5, l6, apply);
        Self::lemma_field_is_phone_verified(v);
        lemma_fold_concat(d, p6, l7, apply);
        Self::lemma_field_two_factor_state(v);
        lemma_fold_concat(d, p7, l8, apply);
        Self::lemma_field_is_phone_identifying(v);
        lemma_fold_concat(d, p8, l9, apply);
        Self::lemma_field_is_phone_needing_reverify(v);
        assert(Self::spec_prefix(v, 9) == v) by {
            reveal(CMsgClientAccountInfo::spec_prefix);
        }
        lemma_merge_run_fold(d, Self::spec_encode(v), apply);
        assert(Self::spec_decode(Self::spec_encode(v)) == Ok::<SpecCMsgClientAccountInfo, WireError>(v)) by {
            reveal(CMsgClientAccountInfo::spec_decode);
        }
    }
}

/// `CMsgClientChallengeRequest`, as Valve's schema declares it.
#[derive(Debug, Clone, PartialEq)]
pub struct CMsgClientChallengeRequest {
    /// Field 1.
    pub steamid: Option<u64>,
}

/// What a `CMsgClientChallengeRequest` holds, as mathematical values.
#[verifier::ext_equal]
pub struct SpecCMsgClientChallengeRequest {
    pub steamid: Option<u64>,
}

impl View for CMsgClientChallengeRequest {
    type V = SpecCMsgClientChallengeRequest;

    open spec fn view(&self) -> SpecCMsgClientChallengeRequest {
        SpecCMsgClientChallengeRequest {
            steamid: self.steamid,
        }
    }
}

impl Default for CMsgClientChallengeRequest {
    fn default() -> (r: Self)
        ensures
            r@ == CMsgClientChallengeRequest::spec_default(),
    {
        CMsgClientChallengeRequest {
            steamid: None,
        }
    }
}

impl CMsgClientChallengeRequest {
    pub open spec fn spec_default() -> SpecCMsgClientChallengeRequest {
        SpecCMsgClientChallengeRequest {
            steamid: None,
        }
    }

    /// The records a `CMsgClientChallengeRequest` is written as, in field order.
    pub open spec fn spec_fields(v: SpecCMsgClientChallengeRequest) -> Seq<SpecField> {
        Seq::<SpecField>::empty()
            + opt_fixed64(1, v.steamid)
    }

    #[verifier::opaque]
    pub open spec fn spec_encode(v: SpecCMsgClientChallengeRequest) -> Seq<u8> {
        fields_bytes(Self::spec_fields(v))
    }

    /// What one record does to the message: a declared number sets or extends its
    /// field, any other number is left alone.
    pub open spec fn spec_apply(v: SpecCMsgClientChallengeRequest, f: SpecField) -> Result<SpecCMsgClientChallengeRequest, WireError> {
        match f.number {
            1 => match dec_fixed64(f.value) {
                Ok(x) => Ok(SpecCMsgClientChallengeRequest { steamid: Some(x), ..v }),
                Err(e) => Err(e),
            },
            _ => Ok(v),
        }
    }

    pub open spec fn apply_fn() -> spec_fn(SpecCMsgClientChallengeRequest, SpecField) -> Result<SpecCMsgClientChallengeRequest, WireError> {
        |v: SpecCMsgClientChallengeRequest, f: SpecField| Self::spec_apply(v, f)
    }

    /// The message `bytes` makes of `v`: its records applied in order, or the error
    /// that stops the reading.
    pub open spec fn spec_merge(v: SpecCMsgClientChallengeRequest, bytes: Seq<u8>) -> Result<SpecCMsgClientChallengeRequest, WireError> {
        let (w, stop) = merge_run(v, bytes, Self::apply_fn());
        match stop {
            None => Ok(w),
            Some(e) => Err(e),
        }
    }

    #[verifier::opaque]
    pub open spec fn spec_decode(bytes: Seq<u8>) -> Result<SpecCMsgClientChallengeRequest, WireError> {
        Self::spec_merge(Self::spec_default(), bytes)
    }

    /// This message with one record applied to it, or, when the record is refused,
    /// the message unchanged and the reason.
    fn applied(self, f: &Field) -> (r: Result<Self, (Self, WireError)>)
        ensures
            match Self::spec_apply(self@, f@) {
                Ok(v) => r matches Ok(m) && m@ == v,
                Err(e) => r matches Err((m, x)) && x == e && m@ == self@,
            },
    {
        match f.number {
            1 => match read_fixed64(&f.value) {
                Ok(x) => Ok(Self { steamid: Some(x), ..self }),
                Err(e) => Err((self, e)),
            },
            _ => Ok(self),
        }
    }

    /// Reads the records `bytes` holds into this message, in order. When a record does
    /// not parse or is refused, the reading stops there: the message keeps what the
    /// records before it gave, and the error is returned.
    pub fn merge(&mut self, bytes: &[u8]) -> (r: Result<(), WireError>)
        ensures
            final(self)@ == merge_run(old(self)@, bytes@, Self::apply_fn()).0,
            r == match merge_run(old(self)@, bytes@, Self::apply_fn()).1 {
                None => Ok::<(), WireError>(()),
                Some(e) => Err::<(), WireError>(e),
            },
    {
        let ghost total = merge_run(self@, bytes@, Self::apply_fn());
        let mut cur = Self::default();
        std::mem::swap(&mut cur, self);
        let mut pos: usize = 0;
        assert(bytes@.skip(0) =~= bytes@);
        while pos < bytes.len()
            invariant
                pos <= bytes@.len(),
                total == merge_run(old(self)@, bytes@, Self::apply_fn()),
                merge_run(cur@, bytes@.skip(pos as int), Self::apply_fn()) == total,
            decreases bytes@.len() - pos,
        {
            let ghost s = bytes@.skip(pos as int);
            proof {
                lemma_merge_run_step(cur@, s, Self::apply_fn());
                lemma_parse_field_len(s);
            }
            match read_field(bytes, pos) {
                Ok((f, end)) => {
                    assert(bytes@.skip(end as int) =~= s.skip((end - pos) as int));
                    match cur.applied(&f) {
                        Ok(m) => {
                            cur = m;
                        },
                        Err((m, e)) => {
                            *self = m;
                            return Err(e);
                        },
                    }
                    pos = end;
                },
                Err(e) => {
                    *self = cur;
                    return Err(e);
                },
            }
        }
        assert(bytes@.skip(pos as int) =~= Seq::<u8>::empty());
        proof {
            lemma_merge_run_empty(cur@, Self::apply_fn());
        }
        *self = cur;
        Ok(())
    }

    /// Decodes a message from its encoding.
    pub fn decode(bytes: &[u8]) -> (r: Result<Self, WireError>)
        ensures
            match Self::spec_decode(bytes@) {
                Ok(v) => r matches Ok(m) && m@ == v,
                Err(e) => r matches Err(x) && x == e,
            },
    {
        proof {
            reveal(CMsgClientChallengeRequest::spec_decode);
        }
        let mut m = Self::default();
        match m.merge(bytes) {
            Ok(()) => Ok(m),
            Err(e) => Err(e),
        }
    }

    /// The encoding of this message.
    pub fn encode_to_vec(&self) -> (r: Vec<u8>)
        ensures
            r@ == Self::spec_encode(self@),
    {
        let ghost v = self@;
        let mut out: Vec<u8> = Vec::new();
        let ghost p0 = Seq::<SpecField>::empty();
        put_opt_fixed64(&mut out, 1, self.steamid);
        let ghost p1 = p0 + opt_fixed64(1, v.steamid);
        proof {
            lemma_fields_bytes_concat(p0, opt_fixed64(1, v.steamid));
        }
        proof {
            reveal(CMsgClientChallengeRequest::spec_encode);
        }
        assert(p1 == Self::spec_fields(v));
        out
    }

    /// Appends the encoding of this message to `out`.
    pub fn encode_raw(&self, out: &mut Vec<u8>)
        ensures
            final(out)@ == old(out)@ + Self::spec_encode(self@),
    {
        let mut b = self.encode_to_vec();
        out.append(&mut b);
    }

    /// The first `k` fields of `v`, the others as a fresh message has them.
    #[verifier::opaque]
    pub open spec fn spec_prefix(v: SpecCMsgClientChallengeRequest, k: int) -> SpecCMsgClientChallengeRequest {
        SpecCMsgClientChallengeRequest {
            steamid: if 1 <= k { v.steamid } else { None },
        }
    }

    /// Reading field 1 back, after the fields before it.
    proof fn lemma_field_steamid(v: SpecCMsgClientChallengeRequest)
        ensures
            fold_fields(Self::spec_prefix(v, 0), opt_fixed64(1, v.steamid), Self::apply_fn())
                == Ok::<SpecCMsgClientChallengeRequest, WireError>(Self::spec_prefix(v, 1)),
    {
        reveal(CMsgClientChallengeRequest::spec_prefix);
        reveal(opt_fixed64);
        let apply = Self::apply_fn();
        let s = Self::spec_prefix(v, 0);
        lemma_fold_opt(s, 1, match v.steamid { Some(x) => Some(enc_fixed64(x)), None => None }, apply);
        if let Some(x) = v.steamid {
            lemma_u64_roundtrip(x);
        }
        assert(SpecCMsgClientChallengeRequest { steamid: v.steamid, ..s } == Self::spec_prefix(v, 1));
    }

    /// Whether this message declares field number `n`.
    pub open spec fn declares(n: u32) -> bool {
        n == 1
    }

    /// A record with a number this message does not declare is passed over: well-formed
    /// bytes decode to the same message with such a record after them as without it.
    pub proof fn lemma_unknown_field(bytes: Seq<u8>, f: SpecField)
        requires
            parse_fields(bytes) is Ok,
            field_wf(f),
            !Self::declares(f.number),
        ensures
            Self::spec_decode(bytes + field_bytes(f)) == Self::spec_decode(bytes),
    {
        reveal(CMsgClientChallengeRequest::spec_decode);
        lemma_parse_fields_append(bytes, f);
        let fs = parse_fields(bytes).unwrap();
        let apply = Self::apply_fn();
        lemma_fold_concat(Self::spec_default(), fs, seq![f], apply);
        assert(fs.push(f) =~= fs + seq![f]);
        if let Ok(w) = fold_fields(Self::spec_default(), fs, apply) {
            lemma_fold_single(w, f, apply);
        }
        lemma_merge_run_fold(Self::spec_default(), bytes, apply);
        lemma_merge_run_fold(Self::spec_default(), bytes + field_bytes(f), apply);
    }

    /// Decoding the encoding of a message gives the message back.
    pub proof fn lemma_decode_encode(v: SpecCMsgClientChallengeRequest)
        requires
            Self::spec_encode(v).len() <= u64::MAX,
        ensures
            Self::spec_decode(Self::spec_encode(v)) == Ok::<SpecCMsgClientChallengeRequest, WireError>(v),
    {
        let apply = Self::apply_fn();
        let d = Self::spec_default();
        let p0 = Seq::<SpecField>::empty();
        let l1 = opt_fixed64(1, v.steamid);
        let p1 = p0 + l1;
        assert(parse_fields(Self::spec_encode(v)) == Ok::<Seq<SpecField>, WireError>(p1)) by {
            reveal(CMsgClientChallengeRequest::spec_encode);
            assert(numbers_ok(p0) && fields_wf(p0)) by {
                reveal(numbers_ok);
                reveal(fields_wf);
            }
            lemma_opt_fixed64_numbered(1, v.steamid);
            lemma_fields_wf_concat(p0, l1);
            assert(p1 == Self::spec_fields(v));
            lemma_fields_wf_from_len(p1);
            lemma_fields_roundtrip(p1);
        }
        assert(Self::spec_prefix(v, 0) == d) by {
            reveal(CMsgClientChallengeRequest::spec_prefix);
        }
        lemma_fold_empty(d, apply);
        lemma_fold_concat(d, p0, l1, apply);
        Self::lemma_field_steamid(v);
        assert(Self::spec_prefix(v, 1) == v) by {
            reveal(CMsgClientChallengeRequest::spec_prefix);
        }
        lemma_merge_run_fold(d, Self::spec_encode(v), apply);
        assert(Self::spec_decode(Self::spec_encode(v)) == Ok::<SpecCMsgClientChallengeRequest, WireError>(v)) by {
            reveal(CMsgClientChallengeRequest::spec_decode);
        }
    }
}

/// `CMsgClientChallengeResponse`, as Valve's schema declares it.
#[derive(Debug, Clone, PartialEq)]
pub struct CMsgClientChallengeResponse {
    /// Field 1.
    pub challenge: Option<u64>,
}

/// What a `CMsgClientChallengeResponse` holds, as mathematical values.
#[verifier::ext_equal]
pub struct SpecCMsgClientChallengeResponse {
    pub challenge: Option<u64>,
}

impl View for CMsgClientChallengeResponse {
    type V = SpecCMsgClientChallengeResponse;

    open spec fn view(&self) -> SpecCMsgClientChallengeResponse {
        SpecCMsgClientChallengeResponse {
            challenge: self.challenge,
        }
    }
}

impl Default for CMsgClientChallengeResponse {
    fn default() -> (r: Self)
        ensures
            r@ == CMsgClientChallengeResponse::spec_default(),
    {
        CMsgClientChallengeResponse {
            challenge: None,
        }
    }
}

impl CMsgClientChallengeResponse {
    pub open spec fn spec_default() -> SpecCMsgClientChallengeResponse {
        SpecCMsgClientChallengeResponse {
            challenge: None,
        }
    }

    /// The records a `CMsgClientChallengeResponse` is written as, in field order.
    pub open spec fn spec_fields(v: SpecCMsgClientChallengeResponse) -> Seq<SpecField> {
        Seq::<SpecField>::empty()
            + opt_fixed64(1, v.challenge)
    }

    #[verifier::opaque]
    pub open spec fn spec_encode(v: SpecCMsgClientChallengeResponse) -> Seq<u8> {
        fields_bytes(Self::spec_fields(v))
    }

    /// What one record does to the message: a declared number sets or extends its
    /// field, any other number is left alone.
    pub open spec fn spec_apply(v: SpecCMsgClientChallengeResponse, f: SpecField) -> Result<SpecCMsgClientChallengeResponse, WireError> {
        match f.number {
            1 => match dec_fixed64(f.value) {
                Ok(x) => Ok(SpecCMsgClientChallengeResponse { challenge: Some(x), ..v }),
                Err(e) => Err(e),
            },
            _ => Ok(v),
        }
    }

    pub open spec fn apply_fn() -> spec_fn(SpecCMsgClientChallengeResponse, SpecField) -> Result<SpecCMsgClientChallengeResponse, WireError> {
        |v: SpecCMsgClientChallengeResponse, f: SpecField| Self::spec_apply(v, f)
    }

    /// The message `bytes` makes of `v`: its records applied in order, or the error
    /// that stops the reading.
    pub open spec fn spec_merge(v: SpecCMsgClientChallengeResponse, bytes: Seq<u8>) -> Result<SpecCMsgClientChallengeResponse, WireError> {
        let (w, stop) = merge_run(v, bytes, Self::apply_fn());
        match stop {
            None => Ok(w),
            Some(e) => Err(e),
        }
    }

    #[verifier::opaque]
    pub open spec fn spec_decode(bytes: Seq<u8>) -> Result<SpecCMsgClientChallengeResponse, WireError> {
        Self::spec_merge(Self::spec_default(), bytes)
    }

    /// This message with one record applied to it, or, when the record is refused,
    /// the message unchanged and the reason.
    fn applied(self, f: &Field) -> (r: Result<Self, (Self, WireError)>)
        ensures
            match Self::spec_apply(self@, f@) {
                Ok(v) => r matches Ok(m) && m@ == v,
                Err(e) => r matches Err((m, x)) && x == e && m@ == self@,
            },
    {
        match f.number {
            1 => match read_fixed64(&f.value) {
                Ok(x) => Ok(Self { challenge: Some(x), ..self }),
                Err(e) => Err((self, e)),
            },
            _ => Ok(self),
        }
    }

    /// Reads the records `bytes` holds into this message, in order. When a record does
    /// not parse or is refused, the reading stops there: the message keeps what the
    /// records before it gave, and the error is returned.
    pub fn merge(&mut self, bytes: &[u8]) -> (r: Result<(), WireError>)
        ensures
            final(self)@ == merge_run(old(self)@, bytes@, Self::apply_fn()).0,
            r == match merge_run(old(self)@, bytes@, Self::apply_fn()).1 {
                None => Ok::<(), WireError>(()),
                Some(e) => Err::<(), WireError>(e),
            },
    {
        let ghost total = merge_run(self@, bytes@, Self::apply_fn());
        let mut cur = Self::default();
        std::mem::swap(&mut cur, self);
        let mut pos: usize = 0;
        assert(bytes@.skip(0) =~= bytes@);
        while pos < bytes.len()
            invariant
                pos <= bytes@.len(),
                total == merge_run(old(self)@, bytes@, Self::apply_fn()),
                merge_run(cur@, bytes@.skip(pos as int), Self::apply_fn()) == total,
            decreases bytes@.len() - pos,
        {
            let ghost s = bytes@.skip(pos as int);
            proof {
                lemma_merge_run_step(cur@, s, Self::apply_fn());
                lemma_parse_field_len(s);
            }
            match read_field(bytes, pos) {
                Ok((f, end)) => {
                    assert(bytes@.skip(end as int) =~= s.skip((end - pos) as int));
                    match cur.applied(&f) {
                        Ok(m) => {
                            cur = m;
                        },
                        Err((m, e)) => {
                            *self = m;
                            return Err(e);
                        },
                    }
                    pos = end;
                },
                Err(e) => {
                    *self = cur;
                    return Err(e);
                },
            }
        }
        assert(bytes@.skip(pos as int) =~= Seq::<u8>::empty());
        proof {
            lemma_merge_run_empty(cur@, Self::apply_fn());
        }
        *self = cur;
        Ok(())
    }

    /// Decodes a message from its encoding.
    pub fn decode(bytes: &[u8]) -> (r: Result<Self, WireError>)
        ensures
            match Self::spec_decode(bytes@) {
                Ok(v) => r matches Ok(m) && m@ == v,
                Err(e) => r matches Err(x) && x == e,
            },
    {
        proof {
            reveal(CMsgClientChallengeResponse::spec_decode);
        }
        let mut m = Self::default();
        match m.merge(bytes) {
            Ok(()) => Ok(m),
            Err(e) => Err(e),
        }
    }

    /// The encoding of this message.
    pub fn encode_to_vec(&self) -> (r: Vec<u8>)
        ensures
            r@ == Self::spec_encode(self@),
    {
        let ghost v = self@;
        let mut out: Vec<u8> = Vec::new();
        let ghost p0 = Seq::<SpecField>::empty();
        put_opt_fixed64(&mut out, 1, self.challenge);
        let ghost p1 = p0 + opt_fixed64(1, v.challenge);
        proof {
            lemma_fields_bytes_concat(p0, opt_fixed64(1, v.challenge));
        }
        proof {
            reveal(CMsgClientChallengeResponse::spec_encode);
        }
        assert(p1 == Self::spec_fields(v));
        out
    }

    /// Appends the encoding of this message to `out`.
    pub fn encode_raw(&self, out: &mut Vec<u8>)
        ensures
            final(out)@ == old(out)@ + Self::spec_encode(self@),
    {
        let mut b = self.encode_to_vec();
        out.append(&mut b);
    }

    /// The first `k` fields of `v`, the others as a fresh message has them.
    #[verifier::opaque]
    pub open spec fn spec_prefix(v: SpecCMsgClientChallengeResponse, k: int) -> SpecCMsgClientChallengeResponse {
        SpecCMsgClientChallengeResponse {
            challenge: if 1 <= k { v.challenge } else { None },
        }
    }

    /// Reading field 1 back, after the fields before it.
    proof fn lemma_field_challenge(v: SpecCMsgClientChallengeResponse)
        ensures
            fold_fields(Self::spec_prefix(v, 0), opt_fixed64(1, v.challenge), Self::apply_fn())
                == Ok::<SpecCMsgClientChallengeResponse, WireError>(Self::spec_prefix(v, 1)),
    {
        reveal(CMsgClientChallengeResponse::spec_prefix);
        reveal(opt_fixed64);
        let apply = Self::apply_fn();
        let s = Self::spec_prefix(v, 0);
        lemma_fold_opt(s, 1, match v.challenge { Some(x) => Some(enc_fixed64(x)), None => None }, apply);
        if let Some(x) = v.challenge {
            lemma_u64_roundtrip(x);
        }
        assert(SpecCMsgClientChallengeResponse { challenge: v.challenge, ..s } == Self::spec_prefix(v, 1));
    }

    /// Whether this message declares field number `n`.
    pub open spec fn declares(n: u32) -> bool {
        n == 1
    }

    /// A record with a number this message does not declare is passed over: well-formed
    /// bytes decode to the same message with such a record after them as without it.
    pub proof fn lemma_unknown_field(bytes: Seq<u8>, f: SpecField)
        requires
            parse_fields(bytes) is Ok,
            field_wf(f),
            !Self::declares(f.number),
        ensures
            Self::spec_decode(bytes + field_bytes(f)) == Self::spec_decode(bytes),
    {
        reveal(CMsgClientChallengeResponse::spec_decode);
        lemma_parse_fields_append(bytes, f);
        let fs = parse_fields(bytes).unwrap();
        let apply = Self::apply_fn();
        lemma_fold_concat(Self::spec_default(), fs, seq![f], apply);
        assert(fs.push(f) =~= fs + seq![f]);
        if let Ok(w) = fold_fields(Self::spec_default(), fs, apply) {
            lemma_fold_single(w, f, apply);
        }
        lemma_merge_run_fold(Self::spec_default(), bytes, apply);
        lemma_merge_run_fold(Self::spec_default(), bytes + field_bytes(f), apply);
    }

    /// Decoding the encoding of a message gives the message back.
    pub proof fn lemma_decode_encode(v: SpecCMsgClientChallengeResponse)
        requires
            Self::spec_encode(v).len() <= u64::MAX,
        ensures
            Self::spec_decode(Self::spec_encode(v)) == Ok::<SpecCMsgClientChallengeResponse, WireError>(v),
    {
        let apply = Self::apply_fn();
        let d = Self::spec_default();
        let p0 = Seq::<SpecField>::empty();
        let l1 = opt_fixed64(1, v.challenge);
        let p1 = p0 + l1;
        assert(parse_fields(Self::spec_encode(v)) == Ok::<Seq<SpecField>, WireError>(p1)) by {
            reveal(CMsgClientChallengeResponse::spec_encode);
            assert(numbers_ok(p0) && fields_wf(p0)) by {
                reveal(numbers_ok);
                reveal(fields_wf);
            }
            lemma_opt_fixed64_numbered(1, v.challenge);
            lemma_fields_wf_concat(p0, l1);
            assert(p1 == Self::spec_fields(v));
            lemma_fields_wf_from_len(p1);
            lemma_fields_roundtrip(p1);
        }
        assert(Self::spec_prefix(v, 0) == d) by {
            reveal(CMsgClientChallengeResponse::spec_prefix);
        }
        lemma_fold_empty(d, apply);
        lemma_fold_concat(d, p0, l1, apply);
        Self::lemma_field_challenge(v);
        assert(Self::spec_prefix(v, 1) == v) by {
            reveal(CMsgClientChallengeResponse::spec_prefix);
        }
        lemma_merge_run_fold(d, Self::spec_encode(v), apply);
        assert(Self::spec_decode(Self::spec_encode(v)) == Ok::<SpecCMsgClientChallengeResponse, WireError>(v)) by {
            reveal(CMsgClientChallengeResponse::spec_decode);
        }
    }
}

} // verus!
