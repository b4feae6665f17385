//! Types nested inside `c_msg_client_get_authorized_devices_response`.


use vstd::prelude::*;

use crate::codec::{
    bytes_seq_view, dec_bool, dec_string, dec_u32, dec_u64, enc_bool, enc_string, enc_u32,
    enc_u64, fold_fields, lemma_fold_concat, lemma_fold_empty, lemma_fold_opt,
    lemma_fold_single, lemma_merge_run_empty, lemma_merge_run_fold, lemma_merge_run_step,
    lemma_opt_bool_numbered, lemma_opt_string_numbered, lemma_opt_u32_numbered,
    lemma_opt_u64_numbered, lemma_string_roundtrip, lemma_u32_roundtrip, lemma_u64_roundtrip,
    merge_run, opt_bool, opt_bytes_view, opt_string, opt_string_view, opt_u32, opt_u64,
    put_opt_bool, put_opt_string, put_opt_u32, put_opt_varint, read_bool, read_string, read_u32,
    read_u64,
};

use crate::wire::fields::{
    field_bytes, field_wf, fields_bytes, fields_wf, lemma_fields_bytes_concat,
    lemma_fields_roundtrip, lemma_fields_wf_concat, lemma_fields_wf_from_len,
    lemma_parse_field_len, lemma_parse_fields_append, numbers_ok, parse_fields, read_field,
    Field, SpecField,
};
use crate::wire::varint::WireError;

verus! {

/// `AuthorizedDevice`, as Valve's schema declares it.
#[derive(Debug, Clone, PartialEq)]
pub struct AuthorizedDevice {
    /// Field 1.
    pub auth_device_token: Option<u64>,
    /// Field 2.
    pub device_name: Option<String>,
    /// Field 3.
    pub last_access_time: Option<u32>,
    /// Field 4.
    pub borrower_id: Option<u32>,
    /// Field 5.
    pub is_pending: Option<bool>,
    /// Field 6.
    pub app_played: Option<u32>,
}

/// What a `AuthorizedDevice` holds, as mathematical values.
#[verifier::ext_equal]
pub struct SpecAuthorizedDevice {
    pub auth_device_token: Option<u64>,
    pub device_name: Option<Seq<char>>,
    pub last_access_time: Option<u32>,
    pub borrower_id: Option<u32>,
    pub is_pending: Option<bool>,
    pub app_played: Option<u32>,
}

impl View for AuthorizedDevice {
    type V = SpecAuthorizedDevice;

    open spec fn view(&self) -> SpecAuthorizedDevice {
        SpecAuthorizedDevice {
            auth_device_token: self.auth_device_token,
            device_name: opt_string_view(self.device_name),
            last_access_time: self.last_access_time,
            borrower_id: self.borrower_id,
            is_pending: self.is_pending,
            app_played: self.app_played,
        }
    }
}

impl Default for AuthorizedDevice {
    fn default() -> (r: Self)
        ensures
            r@ == AuthorizedDevice::spec_default(),
    {
        AuthorizedDevice {
            auth_device_token: None,
            device_name: None,
            last_access_time: None,
            borrower_id: None,
            is_pending: None,
            app_played: None,
        }
    }
}

impl AuthorizedDevice {
    pub open spec fn spec_default() -> SpecAuthorizedDevice {
        SpecAuthorizedDevice {
            auth_device_token: None,
            device_name: None,
            last_access_time: None,
            borrower_id: None,
            is_pending: None,
            app_played: None,
        }
    }

    /// The records a `AuthorizedDevice` is written as, in field order.
    pub open spec fn spec_fields(v: SpecAuthorizedDevice) -> Seq<SpecField> {
        Seq::<SpecField>::empty()
            + opt_u64(1, v.auth_device_token)
            + opt_string(2, v.device_name)
            + opt_u32(3, v.last_access_time)
            + opt_u32(4, v.borrower_id)
            + opt_bool(5, v.is_pending)
            + opt_u32(6, v.app_played)
    }

    #[verifier::opaque]
    pub open spec fn spec_encode(v: SpecAuthorizedDevice) -> Seq<u8> {
        fields_bytes(Self::spec_fields(v))
    }

    /// What one record does to the message: a declared number sets or extends its
    /// field, any other number is left alone.
    pub open spec fn spec_apply(v: SpecAuthorizedDevice, f: SpecField) -> Result<SpecAuthorizedDevice, WireError> {
        match f.number {
            1 => match dec_u64(f.value) {
                Ok(x) => Ok(SpecAuthorizedDevice { auth_device_token: Some(x), ..v }),
                Err(e) => Err(e),
            },
            2 => match dec_string(f.value) {
                Ok(x) => Ok(SpecAuthorizedDevice { device_name: Some(x), ..v }),
                Err(e) => Err(e),
            },
            3 => match dec_u32(f.value) {
                Ok(x) => Ok(SpecAuthorizedDevice { last_access_time: Some(x), ..v }),
                Err(e) => Err(e),
            },
            4 => match dec_u32(f.value) {
                Ok(x) => Ok(SpecAuthorizedDevice { borrower_id: Some(x), ..v }),
                Err(e) => Err(e),
            },
            5 => match dec_bool(f.value) {
                Ok(x) => Ok(SpecAuthorizedDevice { is_pending: Some(x), ..v }),
                Err(e) => Err(e),
            },
            6 => match dec_u32(f.value) {
                Ok(x) => Ok(SpecAuthorizedDevice { app_played: Some(x), ..v }),
                Err(e) => Err(e),
            },
            _ => Ok(v),
        }
    }

    pub open spec fn apply_fn() -> spec_fn(SpecAuthorizedDevice, SpecField) -> Result<SpecAuthorizedDevice, WireError> {
        |v: SpecAuthorizedDevice, f: SpecField| Self::spec_apply(v, f)
    }

    /// The message `bytes` makes of `v`: its records applied in order, or the error
    /// that stops the reading.
    pub open spec fn spec_merge(v: SpecAuthorizedDevice, bytes: Seq<u8>) -> Result<SpecAuthorizedDevice, WireError> {
        let (w, stop) = merge_run(v, bytes, Self::apply_fn());
        match stop {
            None => Ok(w),
            Some(e) => Err(e),
        }
    }

    #[verifier::opaque]
    pub open spec fn spec_decode(bytes: Seq<u8>) -> Result<SpecAuthorizedDevice, WireError> {
        Self::spec_merge(Self::spec_default(), bytes)
    }

    pub open spec fn view_all(xs: Seq<AuthorizedDevice>) -> Seq<SpecAuthorizedDevice> {
        xs.map_values(|m: AuthorizedDevice| m@)
    }

    pub open spec fn view_opt(o: Option<AuthorizedDevice>) -> Option<SpecAuthorizedDevice> {
        match o {
            Some(m) => Some(m@),
            None => None,
        }
    }

    pub open spec fn spec_encode_all(xs: Seq<SpecAuthorizedDevice>) -> Seq<Seq<u8>> {
        xs.map_values(|m: SpecAuthorizedDevice| Self::spec_encode(m))
    }

    pub open spec fn spec_encode_opt(o: Option<SpecAuthorizedDevice>) -> Option<Seq<u8>> {
        match o {
            Some(m) => Some(Self::spec_encode(m)),
            None => None,
        }
    }

    /// The encoding of each element.
    pub fn encode_all(xs: &Vec<AuthorizedDevice>) -> (r: Vec<Vec<u8>>)
        ensures
            bytes_seq_view(r@) == Self::spec_encode_all(Self::view_all(xs@)),
    {
        let mut out: Vec<Vec<u8>> = Vec::new();
        let mut i: usize = 0;
        while i < xs.len()
            invariant
                i <= xs@.len(),
                out@.len() == i,
                forall|j: int| 0 <= j < i ==> #[trigger] out@[j]@ == Self::spec_encode(xs@[j]@),
            decreases xs@.len() - i,
        {
            let e = xs[i].encode_to_vec();
            out.push(e);
            i = i + 1;
        }
        assert(bytes_seq_view(out@) =~= Self::spec_encode_all(Self::view_all(xs@)));
        out
    }

    /// The encoding of the element, when there is one.
    pub fn encode_opt(o: &Option<AuthorizedDevice>) -> (r: Option<Vec<u8>>)
        ensures
            opt_bytes_view(r) == Self::spec_encode_opt(Self::view_opt(*o)),
    {
        match o {
            Some(m) => Some(m.encode_to_vec()),
            None => None,
        }
    }

    /// This message with one record applied to it, or, when the record is refused,
    /// the message unchanged and the reason.
    fn applied(self, f: &Field) -> (r: Result<Self, (Self, WireError)>)
        ensures
            match Self::spec_apply(self@, f@) {
                Ok(v) => r matches Ok(m) && m@ == v,
                Err(e) => r matches Err((m, x)) && x == e && m@ == self@,
            },
    {
        match f.number {
            1 => match read_u64(&f.value) {
                Ok(x) => Ok(Self { auth_device_token: Some(x), ..self }),
                Err(e) => Err((self, e)),
            },
            2 => match read_string(&f.value) {
                Ok(x) => Ok(Self { device_name: Some(x), ..self }),
                Err(e) => Err((self, e)),
            },
            3 => match read_u32(&f.value) {
                Ok(x) => Ok(Self { last_access_time: Some(x), ..self }),
                Err(e) => Err((self, e)),
            },
            4 => match read_u32(&f.value) {
                Ok(x) => Ok(Self { borrower_id: Some(x), ..self }),
                Err(e) => Err((self, e)),
            },
            5 => match read_bool(&f.value) {
                Ok(x) => Ok(Self { is_pending: Some(x), ..self }),
                Err(e) => Err((self, e)),
            },
            6 => match read_u32(&f.value) {
                Ok(x) => Ok(Self { app_played: Some(x), ..self }),
                Err(e) => Err((self, e)),
            },
            _ => Ok(self),
        }
    }

    /// Reads the records `bytes` holds into this message, in order. When a record does
    /// not parse or is refused, the reading stops there: the message keeps what the
    /// records before it gave, and the error is returned.
    pub fn merge(&mut self, bytes: &[u8]) -> (r: Result<(), WireError>)
        ensures
            final(self)@ == merge_run(old(self)@, bytes@, Self::apply_fn()).0,
            r == match merge_run(old(self)@, bytes@, Self::apply_fn()).1 {
                None => Ok::<(), WireError>(()),
                Some(e) => Err::<(), WireError>(e),
            },
    {
        let ghost total = merge_run(self@, bytes@, Self::apply_fn());
        let mut cur = Self::default();
        std::mem::swap(&mut cur, self);
        let mut pos: usize = 0;
        assert(bytes@.skip(0) =~= bytes@);
        while pos < bytes.len()
            invariant
                pos <= bytes@.len(),
                total == merge_run(old(self)@, bytes@, Self::apply_fn()),
                merge_run(cur@, bytes@.skip(pos as int), Self::apply_fn()) == total,
            decreases bytes@.len() - pos,
        {
            let ghost s = bytes@.skip(pos as int);
            proof {
                lemma_merge_run_step(cur@, s, Self::apply_fn());
                lemma_parse_field_len(s);
            }
            match read_field(bytes, pos) {
                Ok((f, end)) => {
                    assert(bytes@.skip(end as int) =~= s.skip((end - pos) as int));
                    match cur.applied(&f) {
                        Ok(m) => {
                            cur = m;
                        },
                        Err((m, e)) => {
                            *self = m;
                            return Err(e);
                        },
                    }
                    pos = end;
                },
                Err(e) => {
                    *self = cur;
                    return Err(e);
                },
            }
        }
        assert(bytes@.skip(pos as int) =~= Seq::<u8>::empty());
        proof {
            lemma_merge_run_empty(cur@, Self::apply_fn());
        }
        *self = cur;
        Ok(())
    }

    /// Decodes a message from its encoding.
    pub fn decode(bytes: &[u8]) -> (r: Result<Self, WireError>)
        ensures
            match Self::spec_decode(bytes@) {
                Ok(v) => r matches Ok(m) && m@ == v,
                Err(e) => r matches Err(x) && x == e,
            },
    {
        proof {
            reveal(AuthorizedDevice::spec_decode);
        }
        let mut m = Self::default();
        match m.merge(bytes) {
            Ok(()) => Ok(m),
            Err(e) => Err(e),
        }
    }

    /// The encoding of this message.
    pub fn encode_to_vec(&self) -> (r: Vec<u8>)
        ensures
            r@ == Self::spec_encode(self@),
    {
        let ghost v = self@;
        let mut out: Vec<u8> = Vec::new();
        let ghost p0 = Seq::<SpecField>::empty();
        put_opt_varint(&mut out, 1, self.auth_device_token);
        let ghost p1 = p0 + opt_u64(1, v.auth_device_token);
        proof {
            lemma_fields_bytes_concat(p0, opt_u64(1, v.auth_device_token));
        }
        put_opt_string(&mut out, 2, &self.device_name);
        let ghost p2 = p1 + opt_string(2, v.device_name);
        proof {
            lemma_fields_bytes_concat(p1, opt_string(2, v.device_name));
        }
        put_opt_u32(&mut out, 3, self.last_access_time);
        let ghost p3 = p2 + opt_u32(3, v.last_access_time);
        proof {
            lemma_fields_bytes_concat(p2, opt_u32(3, v.last_access_time));
        }
        put_opt_u32(&mut out, 4, self.borrower_id);
        let ghost p4 = p3 + opt_u32(4, v.borrower_id);
        proof {
            lemma_fields_bytes_concat(p3, opt_u32(4, v.borrower_id));
        }
        put_opt_bool(&mut out, 5, self.is_pending);
        let ghost p5 = p4 + opt_bool(5, v.is_pending);
        proof {
            lemma_fields_bytes_concat(p4, opt_bool(5, v.is_pending));
        }
        put_opt_u32(&mut out, 6, self.app_played);
        let ghost p6 = p5 + opt_u32(6, v.app_played);
        proof {
            lemma_fields_bytes_concat(p5, opt_u32(6, v.app_played));
        }
        proof {
            reveal(AuthorizedDevice::spec_encode);
        }
        assert(p6 == Self::spec_fields(v));
        out
    }

    /// Appends the encoding of this message to `out`.
    pub fn encode_raw(&self, out: &mut Vec<u8>)
        ensures
            final(out)@ == old(out)@ + Self::spec_encode(self@),
    {
        let mut b = self.encode_to_vec();
        out.append(&mut b);
    }

    /// The first `k` fields of `v`, the others as a fresh message has them.
    #[verifier::opaque]
    pub open spec fn spec_prefix(v: SpecAuthorizedDevice, k: int) -> SpecAuthorizedDevice {
        SpecAuthorizedDevice {
            auth_device_token: if 1 <= k { v.auth_device_token } else { None },
            device_name: if 2 <= k { v.device_name } else { None },
            last_access_time: if 3 <= k { v.last_access_time } else { None },
            borrower_id: if 4 <= k { v.borrower_id } else { None },
            is_pending: if 5 <= k { v.is_pending } else { None },
            app_played: if 6 <= k { v.app_played } else { None },
        }
    }

    /// Reading field 1 back, after the fields before it.
    proof fn lemma_field_auth_device_token(v: SpecAuthorizedDevice)
        ensures
            fold_fields(Self::spec_prefix(v, 0), opt_u64(1, v.auth_device_token), Self::apply_fn())
                == Ok::<SpecAuthorizedDevice, WireError>(Self::spec_prefix(v, 1)),
    {
        reveal(AuthorizedDevice::spec_prefix);
        reveal(opt_u64);
        let apply = Self::apply_fn();
        let s = Self::spec_prefix(v, 0);
        lemma_fold_opt(s, 1, match v.auth_device_token { Some(x) => Some(enc_u64(x)), None => None }, apply);
        if let Some(x) = v.auth_device_token {
            lemma_u64_roundtrip(x);
        }
        assert(SpecAuthorizedDevice { auth_device_token: v.auth_device_token, ..s } == Self::spec_prefix(v, 1));
    }

    /// Reading field 2 back, after the fields before it.
    proof fn lemma_field_device_name(v: SpecAuthorizedDevice)
        ensures
            fold_fields(Self::spec_prefix(v, 1), opt_string(2, v.device_name), Self::apply_fn())
                == Ok::<SpecAuthorizedDevice, WireError>(Self::spec_prefix(v, 2)),
    {
        reveal(AuthorizedDevice::spec_prefix);
        reveal(opt_string);
        let apply = Self::apply_fn();
        let s = Self::spec_prefix(v, 1);
        lemma_fold_opt(s, 2, match v.device_name { Some(x) => Some(enc_string(x)), None => None }, apply);
        if let Some(x) = v.device_name {
            lemma_string_roundtrip(x);
        }
        assert(SpecAuthorizedDevice { device_name: v.device_name, ..s } == Self::spec_prefix(v, 2));
    }

    /// Reading field 3 back, after the fields before it.
    proof fn lemma_field_last_access_time(v: SpecAuthorizedDevice)
        ensures
            fold_fields(Self::spec_prefix(v, 2), opt_u32(3, v.last_access_time), Self::apply_fn())
                == Ok::<SpecAuthorizedDevice, WireError>(Self::spec_prefix(v, 3)),
    {
        reveal(AuthorizedDevice::spec_prefix);
        reveal(opt_u32);
        let apply = Self::apply_fn();
        let s = Self::spec_prefix(v, 2);
        lemma_fold_opt(s, 3, match v.last_access_time { Some(x) => Some(enc_u32(x)), None => None }, apply);
        if let Some(x) = v.last_access_time {
            lemma_u32_roundtrip(x);
        }
        assert(SpecAuthorizedDevice { last_access_time: v.last_access_time, ..s } == Self::spec_prefix(v, 3));
    }

    /// Reading field 4 back, after the fields before it.
    proof fn lemma_field_borrower_id(v: SpecAuthorizedDevice)
        ensures
            fold_fields(Self::spec_prefix(v, 3), opt_u32(4, v.borrower_id), Self::apply_fn())
                == Ok::<SpecAuthorizedDevice, WireError>(Self::spec_prefix(v, 4)),
    {
        reveal(AuthorizedDevice::spec_prefix);
        reveal(opt_u32);
        let apply = Self::apply_fn();
        let s = Self::spec_prefix(v, 3);
        lemma_fold_opt(s, 4, match v.borrower_id { Some(x) => Some(enc_u32(x)), None => None }, apply);
        if let Some(x) = v.borrower_id {
            lemma_u32_roundtrip(x);
        }
        assert(SpecAuthorizedDevice { borrower_id: v.borrower_id, ..s } == Self::spec_prefix(v, 4));
    }

    /// Reading field 5 back, after the fields before it.
    proof fn lemma_field_is_pending(v: SpecAuthorizedDevice)
        ensures
            fold_fields(Self::spec_prefix(v, 4), opt_bool(5, v.is_pending), Self::apply_fn())
                == Ok::<SpecAuthorizedDevice, WireError>(Self::spec_prefix(v, 5)),
    {
        reveal(AuthorizedDevice::spec_prefix);
        reveal(opt_bool);
        let apply = Self::apply_fn();
        let s = Self::spec_prefix(v, 4);
        lemma_fold_opt(s, 5, match v.is_pending { Some(x) => Some(enc_bool(x)), None => None }, apply);
        assert(SpecAuthorizedDevice { is_pending: v.is_pending, ..s } == Self::spec_prefix(v, 5));
    }

    /// Reading field 6 back, after the fields before it.
    proof fn lemma_field_app_played(v: SpecAuthorizedDevice)
        ensures
            fold_fields(Self::spec_prefix(v, 5), opt_u32(6, v.app_played), Self::apply_fn())
                == Ok::<SpecAuthorizedDevice, WireError>(Self::spec_prefix(v, 6)),
    {
        reveal(AuthorizedDevice::spec_prefix);
        reveal(opt_u32);
        let apply = Self::apply_fn();
        let s = Self::spec_prefix(v, 5);
        lemma_fold_opt(s, 6, match v.app_played { Some(x) => Some(enc_u32(x)), None => None }, apply);
        if let Some(x) = v.app_played {
            lemma_u32_roundtrip(x);
        }
        assert(SpecAuthorizedDevice { app_played: v.app_played, ..s } == Self::spec_prefix(v, 6));
    }

    /// Whether this message declares field number `n`.
    pub open spec fn declares(n: u32) -> bool {
        n == 1 || n == 2 || n == 3 || n == 4 || n == 5 || n == 6
    }

    /// A record with a number this message does not declare is passed over: well-formed
    /// bytes decode to the same message with such a record after them as without it.
    pub proof fn lemma_unknown_field(bytes: Seq<u8>, f: SpecField)
        requires
            parse_fields(bytes) is Ok,
            field_wf(f),
            !Self::declares(f.number),
        ensures
            Self::spec_decode(bytes + field_bytes(f)) == Self::spec_decode(bytes),
    {
        reveal(AuthorizedDevice::spec_decode);
        lemma_parse_fields_append(bytes, f);
        let fs = parse_fields(bytes).unwrap();
        let apply = Self::apply_fn();
        lemma_fold_concat(Self::spec_default(), fs, seq![f], apply);
        assert(fs.push(f) =~= fs + seq![f]);
        if let Ok(w) = fold_fields(Self::spec_default(), fs, apply) {
            lemma_fold_single(w, f, apply);
        }
        lemma_merge_run_fold(Self::spec_default(), bytes, apply);
        lemma_merge_run_fold(Self::spec_default(), bytes + field_bytes(f), apply);
    }

    /// Decoding the encoding of a message gives the message back.
    pub proof fn lemma_decode_encode(v: SpecAuthorizedDevice)
        requires
            Self::spec_encode(v).len() <= u64::MAX,
        ensures
            Self::spec_decode(Self::spec_encode(v)) == Ok::<SpecAuthorizedDevice, WireError>(v),
    {
        let apply = Self::apply_fn();
        let d = Self::spec_default();
        let p0 = Seq::<SpecField>::empty();
        let l1 = opt_u64(1, v.auth_device_token);
        let p1 = p0 + l1;
        let l2 = opt_string(2, v.device_name);
        let p2 = p1 + l2;
        let l3 = opt_u32(3, v.last_access_time);
        let p3 = p2 + l3;
        let l4 = opt_u32(4, v.borrower_id);
        let p4 = p3 + l4;
        let l5 = opt_bool(5, v.is_pending);
        let p5 = p4 + l5;
        let l6 = opt_u32(6, v.app_played);
        let p6 = p5 + l6;
        assert(parse_fields(Self::spec_encode(v)) == Ok::<Seq<SpecField>, WireError>(p6)) by {
            reveal(AuthorizedDevice::spec_encode);
            assert(numbers_ok(p0) && fields_wf(p0)) by {
                reveal(numbers_ok);
                reveal(fields_wf);
            }
            lemma_opt_u64_numbered(1, v.auth_device_token);
            lemma_fields_wf_concat(p0, l1);
            lemma_opt_string_numbered(2, v.device_name);
            lemma_fields_wf_concat(p1, l2);
            lemma_opt_u32_numbered(3, v.last_access_time);
            lemma_fields_wf_concat(p2, l3);
            lemma_opt_u32_numbered(4, v.borrower_id);
            lemma_fields_wf_concat(p3, l4);
            lemma_opt_bool_numbered(5, v.is_pending);
            lemma_fields_wf_concat(p4, l5);
            lemma_opt_u32_numbered(6, v.app_played);
            lemma_fields_wf_concat(p5, l6);
            assert(p6 == Self::spec_fields(v));
            lemma_fields_wf_from_len(p6);
            lemma_fields_roundtrip(p6);
        }
        assert(Self::spec_prefix(v, 0) == d) by {
            reveal(AuthorizedDevice::spec_prefix);
        }
        lemma_fold_empty(d, apply);
        lemma_fold_concat(d, p0, l1, apply);
        Self::lemma_field_auth_device_token(v);
        lemma_fold_concat(d, p1, l2, apply);
        Self::lemma_field_device_name(v);
        lemma_fold_concat(d, p2, l3, apply);
        Self::lemma_field_last_access_time(v);
        lemma_fold_concat(d, p3, l4, apply);
        Self::lemma_field_borrower_id(v);
        lemma_fold_concat(d, p4, l5, apply);
        Self::lemma_field_is_pending(v);
        lemma_fold_concat(d, p5, l6, apply);
        Self::lemma_field_app_played(v);
        assert(Self::spec_prefix(v, 6) == v) by {
            reveal(AuthorizedDevice::spec_prefix);
        }
        lemma_merge_run_fold(d, Self::spec_encode(v), apply);
        assert(Self::spec_decode(Self::spec_encode(v)) == Ok::<SpecAuthorizedDevice, WireError>(v)) by {
            reveal(AuthorizedDevice::spec_decode);
        }
    }
}

} // verus!
