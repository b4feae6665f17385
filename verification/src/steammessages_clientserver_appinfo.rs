//! Messages and enums of `steammessages_clientserver_appinfo.proto`.

#![allow(non_camel_case_types, non_snake_case, non_upper_case_globals)]

pub mod c_msg_client_app_info_request;
pub mod c_msg_client_pics_changes_since_response;
pub mod c_msg_client_pics_product_info_request;
pub mod c_msg_client_pics_product_info_response;
pub mod c_msg_client_pics_access_token_response;


use vstd::prelude::*;

use crate::codec::{
    dec_bool, dec_bytes, dec_i32, dec_packed_u32, dec_string, dec_u32, dec_u64, enc_bool,
    enc_bytes, enc_i32, enc_string, enc_u32, enc_u64, fold_fields, lemma_fold_chain,
    lemma_fold_concat, lemma_fold_empty, lemma_fold_opt, lemma_fold_single, lemma_i32_roundtrip,
    lemma_merge_run_empty, lemma_merge_run_fold, lemma_merge_run_step, lemma_opt_bool_numbered,
    lemma_opt_bytes_numbered, lemma_opt_i32_numbered, lemma_opt_string_numbered,
    lemma_opt_u32_numbered, lemma_opt_u64_numbered, lemma_rep_bytes_numbered,
    lemma_rep_u32_numbered, lemma_string_roundtrip, lemma_u32_roundtrip, lemma_u64_roundtrip,
    merge_run, opt_bool, opt_bytes, opt_bytes_view, opt_i32, opt_string, opt_string_view,
    opt_u32, opt_u64, put_opt_bool, put_opt_bytes, put_opt_i32, put_opt_string, put_opt_u32,
    put_opt_varint, put_rep_bytes, put_rep_u32, read_bool, read_bytes, read_i32,
    read_packed_u32, read_payload, read_string, read_u32, read_u64, rep_bytes, rep_u32,
};

use crate::wire::fields::{
    field_bytes, field_wf, fields_bytes, fields_wf, lemma_fields_bytes_concat,
    lemma_fields_roundtrip, lemma_fields_wf_concat, lemma_fields_wf_from_len,
    lemma_parse_field_len, lemma_parse_fields_append, numbers_ok, parse_fields, read_field,
    Field, SpecField,
};
use crate::wire::varint::WireError;

verus! {

/// `CMsgClientAppInfoUpdate`, as Valve's schema declares it.
#[derive(Debug, Clone, PartialEq)]
pub struct CMsgClientAppInfoUpdate {
    /// Field 1.
    pub last_changenumber: Option<u32>,
    /// Field 2.
    pub send_changelist: Option<bool>,
}

/// What a `CMsgClientAppInfoUpdate` holds, as mathematical values.
#[verifier::ext_equal]
pub struct SpecCMsgClientAppInfoUpdate {
    pub last_changenumber: Option<u32>,
    pub send_changelist: Option<bool>,
}

impl View for CMsgClientAppInfoUpdate {
    type V = SpecCMsgClientAppInfoUpdate;

    open spec fn view(&self) -> SpecCMsgClientAppInfoUpdate {
        SpecCMsgClientAppInfoUpdate {
            last_changenumber: self.last_changenumber,
            send_changelist: self.send_changelist,
        }
    }
}

impl Default for CMsgClientAppInfoUpdate {
    fn default() -> (r: Self)
        ensures
            r@ == CMsgClientAppInfoUpdate::spec_default(),
    {
        CMsgClientAppInfoUpdate {
            last_changenumber: None,
            send_changelist: None,
        }
    }
}

impl CMsgClientAppInfoUpdate {
    pub open spec fn spec_default() -> SpecCMsgClientAppInfoUpdate {
        SpecCMsgClientAppInfoUpdate {
            last_changenumber: None,
            send_changelist: None,
        }
    }

    /// The records a `CMsgClientAppInfoUpdate` is written as, in field order.
    pub open spec fn spec_fields(v: SpecCMsgClientAppInfoUpdate) -> Seq<SpecField> {
        Seq::<SpecField>::empty()
            + opt_u32(1, v.last_changenumber)
            + opt_bool(2, v.send_changelist)
    }

    #[verifier::opaque]
    pub open spec fn spec_encode(v: SpecCMsgClientAppInfoUpdate) -> Seq<u8> {
        fields_bytes(Self::spec_fields(v))
    }

    /// What one record does to the message: a declared number sets or extends its
    /// field, any other number is left alone.
    pub open spec fn spec_apply(v: SpecCMsgClientAppInfoUpdate, f: SpecField) -> Result<SpecCMsgClientAppInfoUpdate, WireError> {
        match f.number {
            1 => match dec_u32(f.value) {
                Ok(x) => Ok(SpecCMsgClientAppInfoUpdate { last_changenumber: Some(x), ..v }),
                Err(e) => Err(e),
            },
            2 => match dec_bool(f.value) {
                Ok(x) => Ok(SpecCMsgClientAppInfoUpdate { send_changelist: Some(x), ..v }),
                Err(e) => Err(e),
            },
            _ => Ok(v),
        }
    }

    pub open spec fn apply_fn() -> spec_fn(SpecCMsgClientAppInfoUpdate, SpecField) -> Result<SpecCMsgClientAppInfoUpdate, WireError> {
        |v: SpecCMsgClientAppInfoUpdate, f: SpecField| Self::spec_apply(v, f)
    }

    /// The message `bytes` makes of `v`: its records applied in order, or the error
    /// that stops the reading.
    pub open spec fn spec_merge(v: SpecCMsgClientAppInfoUpdate, bytes: Seq<u8>) -> Result<SpecCMsgClientAppInfoUpdate, WireError> {
        let (w, stop) = merge_run(v, bytes, Self::apply_fn());
        match stop {
            None => Ok(w),
            Some(e) => Err(e),
        }
    }

    #[verifier::opaque]
    pub open spec fn spec_decode(bytes: Seq<u8>) -> Result<SpecCMsgClientAppInfoUpdate, WireError> {
        Self::spec_merge(Self::spec_default(), bytes)
    }

    /// This message with one record applied to it, or, when the record is refused,
    /// the message unchanged and the reason.
    fn applied(self, f: &Field) -> (r: Result<Self, (Self, WireError)>)
        ensures
            match Self::spec_apply(self@, f@) {
                Ok(v) => r matches Ok(m) && m@ == v,
                Err(e) => r matches Err((m, x)) && x == e && m@ == self@,
            },
    {
        match f.number {
            1 => match read_u32(&f.value) {
                Ok(x) => Ok(Self { last_changenumber: Some(x), ..self }),
                Err(e) => Err((self, e)),
            },
            2 => match read_bool(&f.value) {
                Ok(x) => Ok(Self { send_changelist: Some(x), ..self }),
                Err(e) => Err((self, e)),
            },
            _ => Ok(self),
        }
    }

    /// Reads the records `bytes` holds into this message, in order. When a record does
    /// not parse or is refused, the reading stops there: the message keeps what the
    /// records before it gave, and the error is returned.
    pub fn merge(&mut self, bytes: &[u8]) -> (r: Result<(), WireError>)
        ensures
            final(self)@ == merge_run(old(self)@, bytes@, Self::apply_fn()).0,
            r == match merge_run(old(self)@, bytes@, Self::apply_fn()).1 {
                None => Ok::<(), WireError>(()),
                Some(e) => Err::<(), WireError>(e),
            },
    {
        let ghost total = merge_run(self@, bytes@, Self::apply_fn());
        let mut cur = Self::default();
        std::mem::swap(&mut cur, self);
        let mut pos: usize = 0;
        assert(bytes@.skip(0) =~= bytes@);
        while pos < bytes.len()
            invariant
                pos <= bytes@.len(),
                total == merge_run(old(self)@, bytes@, Self::apply_fn()),
                merge_run(cur@, bytes@.skip(pos as int), Self::apply_fn()) == total,
            decreases bytes@.len() - pos,
        {
            let ghost s = bytes@.skip(pos as int);
            proof {
                lemma_merge_run_step(cur@, s, Self::apply_fn());
                lemma_parse_field_len(s);
            }
            match read_field(bytes, pos) {
                Ok((f, end)) => {
                    assert(bytes@.skip(end as int) =~= s.skip((end - pos) as int));
                    match cur.applied(&f) {
                        Ok(m) => {
                            cur = m;
                        },
                        Err((m, e)) => {
                            *self = m;
                            return Err(e);
                        },
                    }
                    pos = end;
                },
                Err(e) => {
                    *self = cur;
                    return Err(e);
                },
            }
        }
        assert(bytes@.skip(pos as int) =~= Seq::<u8>::empty());
        proof {
            lemma_merge_run_empty(cur@, Self::apply_fn());
        }
        *self = cur;
        Ok(())
    }

    /// Decodes a message from its encoding.
    pub fn decode(bytes: &[u8]) -> (r: Result<Self, WireError>)
        ensures
            match Self::spec_decode(bytes@) {
                Ok(v) => r matches Ok(m) && m@ == v,
                Err(e) => r matches Err(x) && x == e,
            },
    {
        proof {
            reveal(CMsgClientAppInfoUpdate::spec_decode);
        }
        let mut m = Self::default();
        match m.merge(bytes) {
            Ok(()) => Ok(m),
            Err(e) => Err(e),
        }
    }

    /// The encoding of this message.
    pub fn encode_to_vec(&self) -> (r: Vec<u8>)
        ensures
            r@ == Self::spec_encode(self@),
    {
        let ghost v = self@;
        let mut out: Vec<u8> = Vec::new();
        let ghost p0 = Seq::<SpecField>::empty();
        put_opt_u32(&mut out, 1, self.last_changenumber);
        let ghost p1 = p0 + opt_u32(1, v.last_changenumber);
        proof {
            lemma_fields_bytes_concat(p0, opt_u32(1, v.last_changenumber));
        }
        put_opt_bool(&mut out, 2, self.send_changelist);
        let ghost p2 = p1 + opt_bool(2, v.send_changelist);
        proof {
            lemma_fields_bytes_concat(p1, opt_bool(2, v.send_changelist));
        }
        proof {
            reveal(CMsgClientAppInfoUpdate::spec_encode);
        }
        assert(p2 == Self::spec_fields(v));
        out
    }

    /// Appends the encoding of this message to `out`.
    pub fn encode_raw(&self, out: &mut Vec<u8>)
        ensures
            final(out)@ == old(out)@ + Self::spec_encode(self@),
    {
        let mut b = self.encode_to_vec();
        out.append(&mut b);
    }

    /// The first `k` fields of `v`, the others as a fresh message has them.
    #[verifier::opaque]
    pub open spec fn spec_prefix(v: SpecCMsgClientAppInfoUpdate, k: int) -> SpecCMsgClientAppInfoUpdate {
        SpecCMsgClientAppInfoUpdate {
            last_changenumber: if 1 <= k { v.last_changenumber } else { None },
            send_changelist: if 2 <= k { v.send_changelist } else { None },
        }
    }

    /// Reading field 1 back, after the fields before it.
    proof fn lemma_field_last_changenumber(v: SpecCMsgClientAppInfoUpdate)
        ensures
            fold_fields(Self::spec_prefix(v, 0), opt_u32(1, v.last_changenumber), Self::apply_fn())
                == Ok::<SpecCMsgClientAppInfoUpdate, WireError>(Self::spec_prefix(v, 1)),
    {
        reveal(CMsgClientAppInfoUpdate::spec_prefix);
        reveal(opt_u32);
        let apply = Self::apply_fn();
        let s = Self::spec_prefix(v, 0);
        lemma_fold_opt(s, 1, match v.last_changenumber { Some(x) => Some(enc_u32(x)), None => None }, apply);
        if let Some(x) = v.last_changenumber {
            lemma_u32_roundtrip(x);
        }
        assert(SpecCMsgClientAppInfoUpdate { last_changenumber: v.last_changenumber, ..s } == Self::spec_prefix(v, 1));
    }

    /// Reading field 2 back, after the fields before it.
    proof fn lemma_field_send_changelist(v: SpecCMsgClientAppInfoUpdate)
        ensures
            fold_fields(Self::spec_prefix(v, 1), opt_bool(2, v.send_changelist), Self::apply_fn())
                == Ok::<SpecCMsgClientAppInfoUpdate, WireError>(Self::spec_prefix(v, 2)),
    {
        reveal(CMsgClientAppInfoUpdate::spec_prefix);
        reveal(opt_bool);
        let apply = Self::apply_fn();
        let s = Self::spec_prefix(v, 1);
        lemma_fold_opt(s, 2, match v.send_changelist { Some(x) => Some(enc_bool(x)), None => None }, apply);
        assert(SpecCMsgClientAppInfoUpdate { send_changelist: v.send_changelist, ..s } == Self::spec_prefix(v, 2));
    }

    /// Whether this message declares field number `n`.
    pub open spec fn declares(n: u32) -> bool {
        n == 1 || n == 2
    }

    /// A record with a number this message does not declare is passed over: well-formed
    /// bytes decode to the same message with such a record after them as without it.
    pub proof fn lemma_unknown_field(bytes: Seq<u8>, f: SpecField)
        requires
            parse_fields(bytes) is Ok,
            field_wf(f),
            !Self::declares(f.number),
        ensures
            Self::spec_decode(bytes + field_bytes(f)) == Self::spec_decode(bytes),
    {
        reveal(CMsgClientAppInfoUpdate::spec_decode);
        lemma_parse_fields_append(bytes, f);
        let fs = parse_fields(bytes).unwrap();
        let apply = Self::apply_fn();
        lemma_fold_concat(Self::spec_default(), fs, seq![f], apply);
        assert(fs.push(f) =~= fs + seq![f]);
        if let Ok(w) = fold_fields(Self::spec_default(), fs, apply) {
            lemma_fold_single(w, f, apply);
        }
        lemma_merge_run_fold(Self::spec_default(), bytes, apply);
        lemma_merge_run_fold(Self::spec_default(), bytes + field_bytes(f), apply);
    }

    /// Decoding the encoding of a message gives the message back.
    pub proof fn lemma_decode_encode(v: SpecCMsgClientAppInfoUpdate)
        requires
            Self::spec_encode(v).len() <= u64::MAX,
        ensures
            Self::spec_decode(Self::spec_encode(v)) == Ok::<SpecCMsgClientAppInfoUpdate, WireError>(v),
    {
        let apply = Self::apply_fn();
        let d = Self::spec_default();
        let p0 = Seq::<SpecField>::empty();
        let l1 = opt_u32(1, v.last_changenumber);
        let p1 = p0 + l1;
        let l2 = opt_bool(2, v.send_changelist);
        let p2 = p1 + l2;
        assert(parse_fields(Self::spec_encode(v)) == Ok::<Seq<SpecField>, WireError>(p2)) by {
            reveal(CMsgClientAppInfoUpdate::spec_encode);
            assert(numbers_ok(p0) && fields_wf(p0)) by {
                reveal(numbers_ok);
                reveal(fields_wf);
            }
            lemma_opt_u32_numbered(1, v.last_changenumber);
            lemma_fields_wf_concat(p0, l1);
            lemma_opt_bool_numbered(2, v.send_changelist);
            lemma_fields_wf_concat(p1, l2);
            assert(p2 == Self::spec_fields(v));
            lemma_fields_wf_from_len(p2);
            lemma_fields_roundtrip(p2);
        }
        assert(Self::spec_prefix(v, 0) == d) by {
            reveal(CMsgClientAppInfoUpdate::spec_prefix);
        }
        lemma_fold_empty(d, apply);
        lemma_fold_concat(d, p0, l1, apply);
        Self::lemma_field_last_changenumber(v);
        lemma_fold_concat(d, p1, l2, apply);
        Self::lemma_field_send_changelist(v);
        assert(Self::spec_prefix(v, 2) == v) by {
            reveal(CMsgClientAppInfoUpdate::spec_prefix);
        }
        lemma_merge_run_fold(d, Self::spec_encode(v), apply);
        assert(Self::spec_decode(Self::spec_encode(v)) == Ok::<SpecCMsgClientAppInfoUpdate, WireError>(v)) by {
            reveal(CMsgClientAppInfoUpdate::spec_decode);
        }
    }
}

/// `CMsgClientAppInfoChanges`, as Valve's schema declares it.
#[derive(Debug, Clone, PartialEq)]
pub struct CMsgClientAppInfoChanges {
    /// Field 1.
    pub current_change_number: Option<u32>,
    /// Field 2.
    pub force_full_update: Option<bool>,
    /// Field 3.
    pub app_i_ds: Vec<u32>,
}

/// What a `CMsgClientAppInfoChanges` holds, as mathematical values.
#[verifier::ext_equal]
pub struct SpecCMsgClientAppInfoChanges {
    pub current_change_number: Option<u32>,
    pub force_full_update: Option<bool>,
    pub app_i_ds: Seq<u32>,
}

impl View for CMsgClientAppInfoChanges {
    type V = SpecCMsgClientAppInfoChanges;

    open spec fn view(&self) -> SpecCMsgClientAppInfoChanges {
        SpecCMsgClientAppInfoChanges {
            current_change_number: self.current_change_number,
            force_full_update: self.force_full_update,
            app_i_ds: self.app_i_ds@,
        }
    }
}

impl Default for CMsgClientAppInfoChanges {
    fn default() -> (r: Self)
        ensures
            r@ == CMsgClientAppInfoChanges::spec_default(),
    {
        CMsgClientAppInfoChanges {
            current_change_number: None,
            force_full_update: None,
            app_i_ds: Vec::new(),
        }
    }
}

impl CMsgClientAppInfoChanges {
    pub open spec fn spec_default() -> SpecCMsgClientAppInfoChanges {
        SpecCMsgClientAppInfoChanges {
            current_change_number: None,
            force_full_update: None,
            app_i_ds: Seq::empty(),
        }
    }

    /// The records a `CMsgClientAppInfoChanges` is written as, in field order.
    pub open spec fn spec_fields(v: SpecCMsgClientAppInfoChanges) -> Seq<SpecField> {
        Seq::<SpecField>::empty()
            + opt_u32(1, v.current_change_number)
            + opt_bool(2, v.force_full_update)
            + rep_u32(3, v.app_i_ds)
    }

    #[verifier::opaque]
    pub open spec fn spec_encode(v: SpecCMsgClientAppInfoChanges) -> Seq<u8> {
        fields_bytes(Self::spec_fields(v))
    }

    /// What one record does to the message: a declared number sets or extends its
    /// field, any other number is left alone.
    pub open spec fn spec_apply(v: SpecCMsgClientAppInfoChanges, f: SpecField) -> Result<SpecCMsgClientAppInfoChanges, WireError> {
        match f.number {
            1 => match dec_u32(f.value) {
                Ok(x) => Ok(SpecCMsgClientAppInfoChanges { current_change_number: Some(x), ..v }),
                Err(e) => Err(e),
            },
            2 => match dec_bool(f.value) {
                Ok(x) => Ok(SpecCMsgClientAppInfoChanges { force_full_update: Some(x), ..v }),
                Err(e) => Err(e),
            },
            3 => match dec_packed_u32(f.value) {
                Ok(xs) => Ok(SpecCMsgClientAppInfoChanges { app_i_ds: v.app_i_ds + xs, ..v }),
                Err(e) => Err(e),
            },
            _ => Ok(v),
        }
    }

    pub open spec fn apply_fn() -> spec_fn(SpecCMsgClientAppInfoChanges, SpecField) -> Result<SpecCMsgClientAppInfoChanges, WireError> {
        |v: SpecCMsgClientAppInfoChanges, f: SpecField| Self::spec_apply(v, f)
    }

    /// The message `bytes` makes of `v`: its records applied in order, or the error
    /// that stops the reading.
    pub open spec fn spec_merge(v: SpecCMsgClientAppInfoChanges, bytes: Seq<u8>) -> Result<SpecCMsgClientAppInfoChanges, WireError> {
        let (w, stop) = merge_run(v, bytes, Self::apply_fn());
        match stop {
            None => Ok(w),
            Some(e) => Err(e),
        }
    }

    #[verifier::opaque]
    pub open spec fn spec_decode(bytes: Seq<u8>) -> Result<SpecCMsgClientAppInfoChanges, WireError> {
        Self::spec_merge(Self::spec_default(), bytes)
    }

    /// This message with one record applied to it, or, when the record is refused,
    /// the message unchanged and the reason.
    fn applied(self, f: &Field) -> (r: Result<Self, (Self, WireError)>)
        ensures
            match Self::spec_apply(self@, f@) {
                Ok(v) => r matches Ok(m) && m@ == v,
                Err(e) => r matches Err((m, x)) && x == e && m@ == self@,
            },
    {
        match f.number {
            1 => match read_u32(&f.value) {
                Ok(x) => Ok(Self { current_change_number: Some(x), ..self }),
                Err(e) => Err((self, e)),
            },
            2 => match read_bool(&f.value) {
                Ok(x) => Ok(Self { force_full_update: Some(x), ..self }),
                Err(e) => Err((self, e)),
            },
            3 => match read_packed_u32(&f.value) {
                Ok(xs) => {
                    let mut m = self;
                    let mut xs = xs;
                    m.app_i_ds.append(&mut xs);
                    Ok(m)
                },
                Err(e) => Err((self, e)),
            },
            _ => Ok(self),
        }
    }

    /// Reads the records `bytes` holds into this message, in order. When a record does
    /// not parse or is refused, the reading stops there: the message keeps what the
    /// records before it gave, and the error is returned.
    pub fn merge(&mut self, bytes: &[u8]) -> (r: Result<(), WireError>)
        ensures
            final(self)@ == merge_run(old(self)@, bytes@, Self::apply_fn()).0,
            r == match merge_run(old(self)@, bytes@, Self::apply_fn()).1 {
                None => Ok::<(), WireError>(()),
                Some(e) => Err::<(), WireError>(e),
            },
    {
        let ghost total = merge_run(self@, bytes@, Self::apply_fn());
        let mut cur = Self::default();
        std::mem::swap(&mut cur, self);
        let mut pos: usize = 0;
        assert(bytes@.skip(0) =~= bytes@);
        while pos < bytes.len()
            invariant
                pos <= bytes@.len(),
                total == merge_run(old(self)@, bytes@, Self::apply_fn()),
                merge_run(cur@, bytes@.skip(pos as int), Self::apply_fn()) == total,
            decreases bytes@.len() - pos,
        {
            let ghost s = bytes@.skip(pos as int);
            proof {
                lemma_merge_run_step(cur@, s, Self::apply_fn());
                lemma_parse_field_len(s);
            }
            match read_field(bytes, pos) {
                Ok((f, end)) => {
                    assert(bytes@.skip(end as int) =~= s.skip((end - pos) as int));
                    match cur.applied(&f) {
                        Ok(m) => {
                            cur = m;
                        },
                        Err((m, e)) => {
                            *self = m;
                            return Err(e);
                        },
                    }
                    pos = end;
                },
                Err(e) => {
                    *self = cur;
                    return Err(e);
                },
            }
        }
        assert(bytes@.skip(pos as int) =~= Seq::<u8>::empty());
        proof {
            lemma_merge_run_empty(cur@, Self::apply_fn());
        }
        *self = cur;
        Ok(())
    }

    /// Decodes a message from its encoding.
    pub fn decode(bytes: &[u8]) -> (r: Result<Self, WireError>)
        ensures
            match Self::spec_decode(bytes@) {
                Ok(v) => r matches Ok(m) && m@ == v,
                Err(e) => r matches Err(x) && x == e,
            },
    {
        proof {
            reveal(CMsgClientAppInfoChanges::spec_decode);
        }
        let mut m = Self::default();
        match m.merge(bytes) {
            Ok(()) => Ok(m),
            Err(e) => Err(e),
        }
    }

    /// The encoding of this message.
    pub fn encode_to_vec(&self) -> (r: Vec<u8>)
        ensures
            r@ == Self::spec_encode(self@),
    {
        let ghost v = self@;
        let mut out: Vec<u8> = Vec::new();
        let ghost p0 = Seq::<SpecField>::empty();
        put_opt_u32(&mut out, 1, self.current_change_number);
        let ghost p1 = p0 + opt_u32(1, v.current_change_number);
        proof {
            lemma_fields_bytes_concat(p0, opt_u32(1, v.current_change_number));
        }
        put_opt_bool(&mut out, 2, self.force_full_update);
        let ghost p2 = p1 + opt_bool(2, v.force_full_update);
        proof {
            lemma_fields_bytes_concat(p1, opt_bool(2, v.force_full_update));
        }
        put_rep_u32(&mut out, 3, &self.app_i_ds);
        let ghost p3 = p2 + rep_u32(3, v.app_i_ds);
        proof {
            lemma_fields_bytes_concat(p2, rep_u32(3, v.app_i_ds));
        }
        proof {
            reveal(CMsgClientAppInfoChanges::spec_encode);
        }
        assert(p3 == Self::spec_fields(v));
        out
    }

    /// Appends the encoding of this message to `out`.
    pub fn encode_raw(&self, out: &mut Vec<u8>)
        ensures
            final(out)@ == old(out)@ + Self::spec_encode(self@),
    {
        let mut b = self.encode_to_vec();
        out.append(&mut b);
    }

    /// The first `k` fields of `v`, the others as a fresh message has them.
    #[verifier::opaque]
    pub open spec fn spec_prefix(v: SpecCMsgClientAppInfoChanges, k: int) -> SpecCMsgClientAppInfoChanges {
        SpecCMsgClientAppInfoChanges {
            current_change_number: if 1 <= k { v.current_change_number } else { None },
            force_full_update: if 2 <= k { v.force_full_update } else { None },
            app_i_ds: if 3 <= k { v.app_i_ds } else { Seq::empty() },
        }
    }

    /// Reading field 1 back, after the fields before it.
    proof fn lemma_field_current_change_number(v: SpecCMsgClientAppInfoChanges)
        ensures
            fold_fields(Self::spec_prefix(v, 0), opt_u32(1, v.current_change_number), Self::apply_fn())
                == Ok::<SpecCMsgClientAppInfoChanges, WireError>(Self::spec_prefix(v, 1)),
    {
        reveal(CMsgClientAppInfoChanges::spec_prefix);
        reveal(opt_u32);
        let apply = Self::apply_fn();
        let s = Self::spec_prefix(v, 0);
        lemma_fold_opt(s, 1, match v.current_change_number { Some(x) => Some(enc_u32(x)), None => None }, apply);
        if let Some(x) = v.current_change_number {
            lemma_u32_roundtrip(x);
        }
        assert(SpecCMsgClientAppInfoChanges { current_change_number: v.current_change_number, ..s } == Self::spec_prefix(v, 1));
    }

    /// Reading field 2 back, after the fields before it.
    proof fn lemma_field_force_full_update(v: SpecCMsgClientAppInfoChanges)
        ensures
            fold_fields(Self::spec_prefix(v, 1), opt_bool(2, v.force_full_update), Self::apply_fn())
                == Ok::<SpecCMsgClientAppInfoChanges, WireError>(Self::spec_prefix(v, 2)),
    {
        reveal(CMsgClientAppInfoChanges::spec_prefix);
        reveal(opt_bool);
        let apply = Self::apply_fn();
        let s = Self::spec_prefix(v, 1);
        lemma_fold_opt(s, 2, match v.force_full_update { Some(x) => Some(enc_bool(x)), None => None }, apply);
        assert(SpecCMsgClientAppInfoChanges { force_full_update: v.force_full_update, ..s } == Self::spec_prefix(v, 2));
    }

    /// Reading field 3 back, after the fields before it.
    proof fn lemma_field_app_i_ds(v: SpecCMsgClientAppInfoChanges)
        ensures
            fold_fields(Self::spec_prefix(v, 2), rep_u32(3, v.app_i_ds), Self::apply_fn())
                == Ok::<SpecCMsgClientAppInfoChanges, WireError>(Self::spec_prefix(v, 3)),
    {
        reveal(CMsgClientAppInfoChanges::spec_prefix);
        reveal(rep_u32);
        let apply = Self::apply_fn();
        let s = Self::spec_prefix(v, 2);
        let l = rep_u32(3, v.app_i_ds);
        let xs = v.app_i_ds;
        let st = Seq::new((xs.len() + 1) as nat, |j: int| SpecCMsgClientAppInfoChanges { app_i_ds: xs.take(j), ..s });
        assert forall|j: int| 0 <= j < l.len() implies #[trigger] apply(st[j], l[j]) == Ok::<SpecCMsgClientAppInfoChanges, WireError>(st[j + 1]) by {
            lemma_u32_roundtrip(xs[j]);
            assert(xs.take(j) + seq![xs[j]] =~= xs.take(j + 1));
        }
        lemma_fold_chain(l, st, apply);
        assert(xs.take(0) =~= Seq::<u32>::empty());
        assert(xs.take(xs.len() as int) =~= xs);
        assert(st[0] == s);
        assert(st[xs.len() as int] == Self::spec_prefix(v, 3));
    }

    /// Whether this message declares field number `n`.
    pub open spec fn declares(n: u32) -> bool {
        n == 1 || n == 2 || n == 3
    }

    /// A record with a number this message does not declare is passed over: well-formed
    /// bytes decode to the same message with such a record after them as without it.
    pub proof fn lemma_unknown_field(bytes: Seq<u8>, f: SpecField)
        requires
            parse_fields(bytes) is Ok,
            field_wf(f),
            !Self::declares(f.number),
        ensures
            Self::spec_decode(bytes + field_bytes(f)) == Self::spec_decode(bytes),
    {
        reveal(CMsgClientAppInfoChanges::spec_decode);
        lemma_parse_fields_append(bytes, f);
        let fs = parse_fields(bytes).unwrap();
        let apply = Self::apply_fn();
        lemma_fold_concat(Self::spec_default(), fs, seq![f], apply);
        assert(fs.push(f) =~= fs + seq![f]);
        if let Ok(w) = fold_fields(Self::spec_default(), fs, apply) {
            lemma_fold_single(w, f, apply);
        }
        lemma_merge_run_fold(Self::spec_default(), bytes, apply);
        lemma_merge_run_fold(Self::spec_default(), bytes + field_bytes(f), apply);
    }

    /// Decoding the encoding of a message gives the message back.
    pub proof fn lemma_decode_encode(v: SpecCMsgClientAppInfoChanges)
        requires
            Self::spec_encode(v).len() <= u64::MAX,
        ensures
            Self::spec_decode(Self::spec_encode(v)) == Ok::<SpecCMsgClientAppInfoChanges, WireError>(v),
    {
        let apply = Self::apply_fn();
        let d = Self::spec_default();
        let p0 = Seq::<SpecField>::empty();
        let l1 = opt_u32(1, v.current_change_number);
        let p1 = p0 + l1;
        let l2 = opt_bool(2, v.force_full_update);
        let p2 = p1 + l2;
        let l3 = rep_u32(3, v.app_i_ds);
        let p3 = p2 + l3;
        assert(parse_fields(Self::spec_encode(v)) == Ok::<Seq<SpecField>, WireError>(p3)) by {
            reveal(CMsgClientAppInfoChanges::spec_encode);
            assert(numbers_ok(p0) && fields_wf(p0)) by {
                reveal(numbers_ok);
                reveal(fields_wf);
            }
            lemma_opt_u32_numbered(1, v.current_change_number);
            lemma_fields_wf_concat(p0, l1);
            lemma_opt_bool_numbered(2, v.force_full_update);
            lemma_fields_wf_concat(p1, l2);
            lemma_rep_u32_numbered(3, v.app_i_ds);
            lemma_fields_wf_concat(p2, l3);
            assert(p3 == Self::spec_fields(v));
            lemma_fields_wf_from_len(p3);
            lemma_fields_roundtrip(p3);
        }
        assert(Self::spec_prefix(v, 0) == d) by {
            reveal(CMsgClientAppInfoChanges::spec_prefix);
        }
        lemma_fold_empty(d, apply);
        lemma_fold_concat(d, p0, l1, apply);
        Self::lemma_field_current_change_number(v);
        lemma_fold_concat(d, p1, l2, apply);
        Self::lemma_field_force_full_update(v);
        lemma_fold_concat(d, p2, l3, apply);
        Self::lemma_field_app_i_ds(v);
        assert(Self::spec_prefix(v, 3) == v) by {
            reveal(CMsgClientAppInfoChanges::spec_prefix);
        }
        lemma_merge_run_fold(d, Self::spec_encode(v), apply);
        assert(Self::spec_decode(Self::spec_encode(v)) == Ok::<SpecCMsgClientAppInfoChanges, WireError>(v)) by {
            reveal(CMsgClientAppInfoChanges::spec_decode);
        }
    }
}

/// `CMsgClientAppInfoRequest`, as Valve's schema declares it.
#[derive(Debug, Clone, PartialEq)]
pub struct CMsgClientAppInfoRequest {
    /// Field 1.
    pub apps: Vec<crate::steammessages_clientserver_appinfo::c_msg_client_app_info_request::App>,
    /// Field 2.
    pub supports_batches: Option<bool>,
}

/// What a `CMsgClientAppInfoRequest` holds, as mathematical values.
#[verifier::ext_equal]
pub struct SpecCMsgClientAppInfoRequest {
    pub apps: Seq<crate::steammessages_clientserver_appinfo::c_msg_client_app_info_request::SpecApp>,
    pub supports_batches: Option<bool>,
}

impl View for CMsgClientAppInfoRequest {
    type V = SpecCMsgClientAppInfoRequest;

    open spec fn view(&self) -> SpecCMsgClientAppInfoRequest {
        SpecCMsgClientAppInfoRequest {
            apps: crate::steammessages_clientserver_appinfo::c_msg_client_app_info_request::App::view_all(self.apps@),
            supports_batches: self.supports_batches,
        }
    }
}

impl Default for CMsgClientAppInfoRequest {
    fn default() -> (r: Self)
        ensures
            r@ == CMsgClientAppInfoRequest::spec_default(),
    {
        CMsgClientAppInfoRequest {
            apps: Vec::new(),
            supports_batches: None,
        }
    }
}

impl CMsgClientAppInfoRequest {
    /// Field 2, or its schema default when absent.
    pub fn supports_batches_or_default(&self) -> (r: bool)
        ensures
            r == match self.supports_batches {
                Some(x) => x,
                None => false,
            },
    {
        self.supports_batches.unwrap_or(false)
    }

    pub open spec fn spec_default() -> SpecCMsgClientAppInfoRequest {
        SpecCMsgClientAppInfoRequest {
            apps: Seq::empty(),
            supports_batches: None,
        }
    }

    /// The records a `CMsgClientAppInfoRequest` is written as, in field order.
    pub open spec fn spec_fields(v: SpecCMsgClientAppInfoRequest) -> Seq<SpecField> {
        Seq::<SpecField>::empty()
            + rep_bytes(1, crate::steammessages_clientserver_appinfo::c_msg_client_app_info_request::App::spec_encode_all(v.apps))
            + opt_bool(2, v.supports_batches)
    }

    #[verifier::opaque]
    pub open spec fn spec_encode(v: SpecCMsgClientAppInfoRequest) -> Seq<u8> {
        fields_bytes(Self::spec_fields(v))
    }

    /// What one record does to the message: a declared number sets or extends its
    /// field, any other number is left alone.
    pub open spec fn spec_apply(v: SpecCMsgClientAppInfoRequest, f: SpecField) -> Result<SpecCMsgClientAppInfoRequest, WireError> {
        match f.number {
            1 => match dec_bytes(f.value) {
                Ok(b) => match crate::steammessages_clientserver_appinfo::c_msg_client_app_info_request::App::spec_decode(b) {
                    Ok(m) => Ok(SpecCMsgClientAppInfoRequest { apps: v.apps.push(m), ..v }),
                    Err(e) => Err(e),
                },
                Err(e) => Err(e),
            },
            2 => match dec_bool(f.value) {
                Ok(x) => Ok(SpecCMsgClientAppInfoRequest { supports_batches: Some(x), ..v }),
                Err(e) => Err(e),
            },
            _ => Ok(v),
        }
    }

    pub open spec fn apply_fn() -> spec_fn(SpecCMsgClientAppInfoRequest, SpecField) -> Result<SpecCMsgClientAppInfoRequest, WireError> {
        |v: SpecCMsgClientAppInfoRequest, f: SpecField| Self::spec_apply(v, f)
    }

    /// The message `bytes` makes of `v`: its records applied in order, or the error
    /// that stops the reading.
    pub open spec fn spec_merge(v: SpecCMsgClientAppInfoRequest, bytes: Seq<u8>) -> Result<SpecCMsgClientAppInfoRequest, WireError> {
        let (w, stop) = merge_run(v, bytes, Self::apply_fn());
        match stop {
            None => Ok(w),
            Some(e) => Err(e),
        }
    }

    #[verifier::opaque]
    pub open spec fn spec_decode(bytes: Seq<u8>) -> Result<SpecCMsgClientAppInfoRequest, WireError> {
        Self::spec_merge(Self::spec_default(), bytes)
    }

    /// This message with one record applied to it, or, when the record is refused,
    /// the message unchanged and the reason.
    fn applied(self, f: &Field) -> (r: Result<Self, (Self, WireError)>)
        ensures
            match Self::spec_apply(self@, f@) {
                Ok(v) => r matches Ok(m) && m@ == v,
                Err(e) => r matches Err((m, x)) && x == e && m@ == self@,
            },
    {
        match f.number {
            1 => match read_payload(&f.value) {
                Ok(b) => match crate::steammessages_clientserver_appinfo::c_msg_client_app_info_request::App::decode(b) {
                    Ok(x) => {
                        let mut m = self;
                        let ghost before = m.apps@;
                        m.apps.push(x);
                        assert(crate::steammessages_clientserver_appinfo::c_msg_client_app_info_request::App::view_all(m.apps@) =~= crate::steammessages_clientserver_appinfo::c_msg_client_app_info_request::App::view_all(before).push(x@));
                        Ok(m)
                    },
                    Err(e) => Err((self, e)),
                },
                Err(e) => Err((self, e)),
            },
            2 => match read_bool(&f.value) {
                Ok(x) => Ok(Self { supports_batches: Some(x), ..self }),
                Err(e) => Err((self, e)),
            },
            _ => Ok(self),
        }
    }

    /// Reads the records `bytes` holds into this message, in order. When a record does
    /// not parse or is refused, the reading stops there: the message keeps what the
    /// records before it gave, and the error is returned.
    pub fn merge(&mut self, bytes: &[u8]) -> (r: Result<(), WireError>)
        ensures
            final(self)@ == merge_run(old(self)@, bytes@, Self::apply_fn()).0,
            r == match merge_run(old(self)@, bytes@, Self::apply_fn()).1 {
                None => Ok::<(), WireError>(()),
                Some(e) => Err::<(), WireError>(e),
            },
    {
        let ghost total = merge_run(self@, bytes@, Self::apply_fn());
        let mut cur = Self::default();
        std::mem::swap(&mut cur, self);
        let mut pos: usize = 0;
        assert(bytes@.skip(0) =~= bytes@);
        while pos < bytes.len()
            invariant
                pos <= bytes@.len(),
                total == merge_run(old(self)@, bytes@, Self::apply_fn()),
                merge_run(cur@, bytes@.skip(pos as int), Self::apply_fn()) == total,
            decreases bytes@.len() - pos,
        {
            let ghost s = bytes@.skip(pos as int);
            proof {
                lemma_merge_run_step(cur@, s, Self::apply_fn());
                lemma_parse_field_len(s);
            }
            match read_field(bytes, pos) {
                Ok((f, end)) => {
                    assert(bytes@.skip(end as int) =~= s.skip((end - pos) as int));
                    match cur.applied(&f) {
                        Ok(m) => {
                            cur = m;
                        },
                        Err((m, e)) => {
                            *self = m;
                            return Err(e);
                        },
                    }
                    pos = end;
                },
                Err(e) => {
                    *self = cur;
                    return Err(e);
                },
            }
        }
        assert(bytes@.skip(pos as int) =~= Seq::<u8>::empty());
        proof {
            lemma_merge_run_empty(cur@, Self::apply_fn());
        }
        *self = cur;
        Ok(())
    }

    /// Decodes a message from its encoding.
    pub fn decode(bytes: &[u8]) -> (r: Result<Self, WireError>)
        ensures
            match Self::spec_decode(bytes@) {
                Ok(v) => r matches Ok(m) && m@ == v,
                Err(e) => r matches Err(x) && x == e,
            },
    {
        proof {
            reveal(CMsgClientAppInfoRequest::spec_decode);
        }
        let mut m = Self::default();
        match m.merge(bytes) {
            Ok(()) => Ok(m),
            Err(e) => Err(e),
        }
    }

    /// The encoding of this message.
    pub fn encode_to_vec(&self) -> (r: Vec<u8>)
        ensures
            r@ == Self::spec_encode(self@),
    {
        let enc_apps = crate::steammessages_clientserver_appinfo::c_msg_client_app_info_request::App::encode_all(&self.apps);
        let ghost v = self@;
        let mut out: Vec<u8> = Vec::new();
        let ghost p0 = Seq::<SpecField>::empty();
        put_rep_bytes(&mut out, 1, &enc_apps);
        let ghost p1 = p0 + rep_bytes(1, crate::steammessages_clientserver_appinfo::c_msg_client_app_info_request::App::spec_encode_all(v.apps));
        proof {
            lemma_fields_bytes_concat(p0, rep_bytes(1, crate::steammessages_clientserver_appinfo::c_msg_client_app_info_request::App::spec_encode_all(v.apps)));
        }
        put_opt_bool(&mut out, 2, self.supports_batches);
        let ghost p2 = p1 + opt_bool(2, v.supports_batches);
        proof {
            lemma_fields_bytes_concat(p1, opt_bool(2, v.supports_batches));
        }
        proof {
            reveal(CMsgClientAppInfoRequest::spec_encode);
        }
        assert(p2 == Self::spec_fields(v));
        out
    }

    /// Appends the encoding of this message to `out`.
    pub fn encode_raw(&self, out: &mut Vec<u8>)
        ensures
            final(out)@ == old(out)@ + Self::spec_encode(self@),
    {
        let mut b = self.encode_to_vec();
        out.append(&mut b);
    }

    /// The first `k` fields of `v`, the others as a fresh message has them.
    #[verifier::opaque]
    pub open spec fn spec_prefix(v: SpecCMsgClientAppInfoRequest, k: int) -> SpecCMsgClientAppInfoRequest {
        SpecCMsgClientAppInfoRequest {
            apps: if 1 <= k { v.apps } else { Seq::empty() },
            supports_batches: if 2 <= k { v.supports_batches } else { None },
        }
    }

    /// Reading field 1 back, after the fields before it.
    proof fn lemma_field_apps(v: SpecCMsgClientAppInfoRequest)
        requires
            fields_wf(rep_bytes(1, crate::steammessages_clientserver_appinfo::c_msg_client_app_info_request::App::spec_encode_all(v.apps))),
        ensures
            fold_fields(Self::spec_prefix(v, 0), rep_bytes(1, crate::steammessages_clientserver_appinfo::c_msg_client_app_info_request::App::spec_encode_all(v.apps)), Self::apply_fn())
                == Ok::<SpecCMsgClientAppInfoRequest, WireError>(Self::spec_prefix(v, 1)),
    {
        reveal(CMsgClientAppInfoRequest::spec_prefix);
        reveal(rep_bytes);
        reveal(fields_wf);
        let apply = Self::apply_fn();
        let s = Self::spec_prefix(v, 0);
        let l = rep_bytes(1, crate::steammessages_clientserver_appinfo::c_msg_client_app_info_request::App::spec_encode_all(v.apps));
        let xs = v.apps;
        let st = Seq::new((xs.len() + 1) as nat, |j: int| SpecCMsgClientAppInfoRequest { apps: xs.take(j), ..s });
        assert forall|j: int| 0 <= j < l.len() implies #[trigger] apply(st[j], l[j]) == Ok::<SpecCMsgClientAppInfoRequest, WireError>(st[j + 1]) by {
            assert(field_wf(l[j]));
            crate::steammessages_clientserver_appinfo::c_msg_client_app_info_request::App::lemma_decode_encode(xs[j]);
            assert(xs.take(j).push(xs[j]) =~= xs.take(j + 1));
        }
        lemma_fold_chain(l, st, apply);
        assert(xs.take(0) =~= Seq::<crate::steammessages_clientserver_appinfo::c_msg_client_app_info_request::SpecApp>::empty());
        assert(xs.take(xs.len() as int) =~= xs);
        assert(st[0] == s);
        assert(st[xs.len() as int] == Self::spec_prefix(v, 1));
    }

    /// Reading field 2 back, after the fields before it.
    proof fn lemma_field_supports_batches(v: SpecCMsgClientAppInfoRequest)
        ensures
            fold_fields(Self::spec_prefix(v, 1), opt_bool(2, v.supports_batches), Self::apply_fn())
                == Ok::<SpecCMsgClientAppInfoRequest, WireError>(Self::spec_prefix(v, 2)),
    {
        reveal(CMsgClientAppInfoRequest::spec_prefix);
        reveal(opt_bool);
        let apply = Self::apply_fn();
        let s = Self::spec_prefix(v, 1);
        lemma_fold_opt(s, 2, match v.supports_batches { Some(x) => Some(enc_bool(x)), None => None }, apply);
        assert(SpecCMsgClientAppInfoRequest { supports_batches: v.supports_batches, ..s } == Self::spec_prefix(v, 2));
    }

    /// Whether this message declares field number `n`.
    pub open spec fn declares(n: u32) -> bool {
        n == 1 || n == 2
    }

    /// A record with a number this message does not declare is passed over: well-formed
    /// bytes decode to the same message with such a record after them as without it.
    pub proof fn lemma_unknown_field(bytes: Seq<u8>, f: SpecField)
        requires
            parse_fields(bytes) is Ok,
            field_wf(f),
            !Self::declares(f.number),
        ensures
            Self::spec_decode(bytes + field_bytes(f)) == Self::spec_decode(bytes),
    {
        reveal(CMsgClientAppInfoRequest::spec_decode);
        lemma_parse_fields_append(bytes, f);
        let fs = parse_fields(bytes).unwrap();
        let apply = Self::apply_fn();
        lemma_fold_concat(Self::spec_default(), fs, seq![f], apply);
        assert(fs.push(f) =~= fs + seq![f]);
        if let Ok(w) = fold_fields(Self::spec_default(), fs, apply) {
            lemma_fold_single(w, f, apply);
        }
        lemma_merge_run_fold(Self::spec_default(), bytes, apply);
        lemma_merge_run_fold(Self::spec_default(), bytes + field_bytes(f), apply);
    }

    /// Decoding the encoding of a message gives the message back.
    pub proof fn lemma_decode_encode(v: SpecCMsgClientAppInfoRequest)
        requires
            Self::spec_encode(v).len() <= u64::MAX,
        ensures
            Self::spec_decode(Self::spec_encode(v)) == Ok::<SpecCMsgClientAppInfoRequest, WireError>(v),
    {
        let apply = Self::apply_fn();
        let d = Self::spec_default();
        let p0 = Seq::<SpecField>::empty();
        let l1 = rep_bytes(1, crate::steammessages_clientserver_appinfo::c_msg_client_app_info_request::App::spec_encode_all(v.apps));
        let p1 = p0 + l1;
        let l2 = opt_bool(2, v.supports_batches);
        let p2 = p1 + l2;
        assert(parse_fields(Self::spec_encode(v)) == Ok::<Seq<SpecField>, WireError>(p2) && fields_wf(l1)) by {
            reveal(CMsgClientAppInfoRequest::spec_encode);
            assert(numbers_ok(p0) && fields_wf(p0)) by {
                reveal(numbers_ok);
                reveal(fields_wf);
            }
            lemma_rep_bytes_numbered(1, crate::steammessages_clientserver_appinfo::c_msg_client_app_info_request::App::spec_encode_all(v.apps));
            lemma_fields_wf_concat(p0, l1);
            lemma_opt_bool_numbered(2, v.supports_batches);
            lemma_fields_wf_concat(p1, l2);
            assert(p2 == Self::spec_fields(v));
            lemma_fields_wf_from_len(p2);
            lemma_fields_roundtrip(p2);
        }
        assert(Self::spec_prefix(v, 0) == d) by {
            reveal(CMsgClientAppInfoRequest::spec_prefix);
        }
        lemma_fold_empty(d, apply);
        lemma_fold_concat(d, p0, l1, apply);
        Self::lemma_field_apps(v);
        lemma_fold_concat(d, p1, l2, apply);
        Self::lemma_field_supports_batches(v);
        assert(Self::spec_prefix(v, 2) == v) by {
            reveal(CMsgClientAppInfoRequest::spec_prefix);
        }
        lemma_merge_run_fold(d, Self::spec_encode(v), apply);
        assert(Self::spec_decode(Self::spec_encode(v)) == Ok::<SpecCMsgClientAppInfoRequest, WireError>(v)) by {
            reveal(CMsgClientAppInfoRequest::spec_decode);
        }
    }
}

/// `CMsgClientPICSChangesSinceRequest`, as Valve's schema declares it.
#[derive(Debug, Clone, PartialEq)]
pub struct CMsgClientPICSChangesSinceRequest {
    /// Field 1.
    pub since_change_number: Option<u32>,
    /// Field 2.
    pub send_app_info_changes: Option<bool>,
    /// Field 3.
    pub send_package_info_changes: Option<bool>,
    /// Field 4.
    pub num_app_info_cached: Option<u32>,
    /// Field 5.
    pub num_package_info_cached: Option<u32>,
}

/// What a `CMsgClientPICSChangesSinceRequest` holds, as mathematical values.
#[verifier::ext_equal]
pub struct SpecCMsgClientPICSChangesSinceRequest {
    pub since_change_number: Option<u32>,
    pub send_app_info_changes: Option<bool>,
    pub send_package_info_changes: Option<bool>,
    pub num_app_info_cached: Option<u32>,
    pub num_package_info_cached: Option<u32>,
}

impl View for CMsgClientPICSChangesSinceRequest {
    type V = SpecCMsgClientPICSChangesSinceRequest;

    open spec fn view(&self) -> SpecCMsgClientPICSChangesSinceRequest {
        SpecCMsgClientPICSChangesSinceRequest {
            since_change_number: self.since_change_number,
            send_app_info_changes: self.send_app_info_changes,
            send_package_info_changes: self.send_package_info_changes,
            num_app_info_cached: self.num_app_info_cached,
            num_package_info_cached: self.num_package_info_cached,
        }
    }
}

impl Default for CMsgClientPICSChangesSinceRequest {
    fn default() -> (r: Self)
        ensures
            r@ == CMsgClientPICSChangesSinceRequest::spec_default(),
    {
        CMsgClientPICSChangesSinceRequest {
            since_change_number: None,
            send_app_info_changes: None,
            send_package_info_changes: None,
            num_app_info_cached: None,
            num_package_info_cached: None,
        }
    }
}

impl CMsgClientPICSChangesSinceRequest {
    pub open spec fn spec_default() -> SpecCMsgClientPICSChangesSinceRequest {
        SpecCMsgClientPICSChangesSinceRequest {
            since_change_number: None,
            send_app_info_changes: None,
            send_package_info_changes: None,
            num_app_info_cached: None,
            num_package_info_cached: None,
        }
    }

    /// The records a `CMsgClientPICSChangesSinceRequest` is written as, in field order.
    pub open spec fn spec_fields(v: SpecCMsgClientPICSChangesSinceRequest) -> Seq<SpecField> {
        Seq::<SpecField>::empty()
            + opt_u32(1, v.since_change_number)
            + opt_bool(2, v.send_app_info_changes)
            + opt_bool(3, v.send_package_info_changes)
            + opt_u32(4, v.num_app_info_cached)
            + opt_u32(5, v.num_package_info_cached)
    }

    #[verifier::opaque]
    pub open spec fn spec_encode(v: SpecCMsgClientPICSChangesSinceRequest) -> Seq<u8> {
        fields_bytes(Self::spec_fields(v))
    }

    /// What one record does to the message: a declared number sets or extends its
    /// field, any other number is left alone.
    pub open spec fn spec_apply(v: SpecCMsgClientPICSChangesSinceRequest, f: SpecField) -> Result<SpecCMsgClientPICSChangesSinceRequest, WireError> {
        match f.number {
            1 => match dec_u32(f.value) {
                Ok(x) => Ok(SpecCMsgClientPICSChangesSinceRequest { since_change_number: Some(x), ..v }),
                Err(e) => Err(e),
            },
            2 => match dec_bool(f.value) {
                Ok(x) => Ok(SpecCMsgClientPICSChangesSinceRequest { send_app_info_changes: Some(x), ..v }),
                Err(e) => Err(e),
            },
            3 => match dec_bool(f.value) {
                Ok(x) => Ok(SpecCMsgClientPICSChangesSinceRequest { send_package_info_changes: Some(x), ..v }),
                Err(e) => Err(e),
            },
            4 => match dec_u32(f.value) {
                Ok(x) => Ok(SpecCMsgClientPICSChangesSinceRequest { num_app_info_cached: Some(x), ..v }),
                Err(e) => Err(e),
            },
            5 => match dec_u32(f.value) {
                Ok(x) => Ok(SpecCMsgClientPICSChangesSinceRequest { num_package_info_cached: Some(x), ..v }),
                Err(e) => Err(e),
            },
            _ => Ok(v),
        }
    }

    pub open spec fn apply_fn() -> spec_fn(SpecCMsgClientPICSChangesSinceRequest, SpecField) -> Result<SpecCMsgClientPICSChangesSinceRequest, WireError> {
        |v: SpecCMsgClientPICSChangesSinceRequest, f: SpecField| Self::spec_apply(v, f)
    }

    /// The message `bytes` makes of `v`: its records applied in order, or the error
    /// that stops the reading.
    pub open spec fn spec_merge(v: SpecCMsgClientPICSChangesSinceRequest, bytes: Seq<u8>) -> Result<SpecCMsgClientPICSChangesSinceRequest, WireError> {
        let (w, stop) = merge_run(v, bytes, Self::apply_fn());
        match stop {
            None => Ok(w),
            Some(e) => Err(e),
        }
    }

    #[verifier::opaque]
    pub open spec fn spec_decode(bytes: Seq<u8>) -> Result<SpecCMsgClientPICSChangesSinceRequest, WireError> {
        Self::spec_merge(Self::spec_default(), bytes)
    }

    /// This message with one record applied to it, or, when the record is refused,
    /// the message unchanged and the reason.
    fn applied(self, f: &Field) -> (r: Result<Self, (Self, WireError)>)
        ensures
            match Self::spec_apply(self@, f@) {
                Ok(v) => r matches Ok(m) && m@ == v,
                Err(e) => r matches Err((m, x)) && x == e && m@ == self@,
            },
    {
        match f.number {
            1 => match read_u32(&f.value) {
                Ok(x) => Ok(Self { since_change_number: Some(x), ..self }),
                Err(e) => Err((self, e)),
            },
            2 => match read_bool(&f.value) {
                Ok(x) => Ok(Self { send_app_info_changes: Some(x), ..self }),
                Err(e) => Err((self, e)),
            },
            3 => match read_bool(&f.value) {
                Ok(x) => Ok(Self { send_package_info_changes: Some(x), ..self }),
                Err(e) => Err((self, e)),
            },
            4 => match read_u32(&f.value) {
                Ok(x) => Ok(Self { num_app_info_cached: Some(x), ..self }),
                Err(e) => Err((self, e)),
            },
            5 => match read_u32(&f.value) {
                Ok(x) => Ok(Self { num_package_info_cached: Some(x), ..self }),
                Err(e) => Err((self, e)),
            },
            _ => Ok(self),
        }
    }

    /// Reads the records `bytes` holds into this message, in order. When a record does
    /// not parse or is refused, the reading stops there: the message keeps what the
    /// records before it gave, and the error is returned.
    pub fn merge(&mut self, bytes: &[u8]) -> (r: Result<(), WireError>)
        ensures
            final(self)@ == merge_run(old(self)@, bytes@, Self::apply_fn()).0,
            r == match merge_run(old(self)@, bytes@, Self::apply_fn()).1 {
                None => Ok::<(), WireError>(()),
                Some(e) => Err::<(), WireError>(e),
            },
    {
        let ghost total = merge_run(self@, bytes@, Self::apply_fn());
        let mut cur = Self::default();
        std::mem::swap(&mut cur, self);
        let mut pos: usize = 0;
        assert(bytes@.skip(0) =~= bytes@);
        while pos < bytes.len()
            invariant
                pos <= bytes@.len(),
                total == merge_run(old(self)@, bytes@, Self::apply_fn()),
                merge_run(cur@, bytes@.skip(pos as int), Self::apply_fn()) == total,
            decreases bytes@.len() - pos,
        {
            let ghost s = bytes@.skip(pos as int);
            proof {
                lemma_merge_run_step(cur@, s, Self::apply_fn());
                lemma_parse_field_len(s);
            }
            match read_field(bytes, pos) {
                Ok((f, end)) => {
                    assert(bytes@.skip(end as int) =~= s.skip((end - pos) as int));
                    match cur.applied(&f) {
                        Ok(m) => {
                            cur = m;
                        },
                        Err((m, e)) => {
                            *self = m;
                            return Err(e);
                        },
                    }
                    pos = end;
                },
                Err(e) => {
                    *self = cur;
                    return Err(e);
                },
            }
        }
        assert(bytes@.skip(pos as int) =~= Seq::<u8>::empty());
        proof {
            lemma_merge_run_empty(cur@, Self::apply_fn());
        }
        *self = cur;
        Ok(())
    }

    /// Decodes a message from its encoding.
    pub fn decode(bytes: &[u8]) -> (r: Result<Self, WireError>)
        ensures
            match Self::spec_decode(bytes@) {
                Ok(v) => r matches Ok(m) && m@ == v,
                Err(e) => r matches Err(x) && x == e,
            },
    {
        proof {
            reveal(CMsgClientPICSChangesSinceRequest::spec_decode);
        }
        let mut m = Self::default();
        match m.merge(bytes) {
            Ok(()) => Ok(m),
            Err(e) => Err(e),
        }
    }

    /// The encoding of this message.
    pub fn encode_to_vec(&self) -> (r: Vec<u8>)
        ensures
            r@ == Self::spec_encode(self@),
    {
        let ghost v = self@;
        let mut out: Vec<u8> = Vec::new();
        let ghost p0 = Seq::<SpecField>::empty();
        put_opt_u32(&mut out, 1, self.since_change_number);
        let ghost p1 = p0 + opt_u32(1, v.since_change_number);
        proof {
            lemma_fields_bytes_concat(p0, opt_u32(1, v.since_change_number));
        }
        put_opt_bool(&mut out, 2, self.send_app_info_changes);
        let ghost p2 = p1 + opt_bool(2, v.send_app_info_changes);
        proof {
            lemma_fields_bytes_concat(p1, opt_bool(2, v.send_app_info_changes));
        }
        put_opt_bool(&mut out, 3, self.send_package_info_changes);
        let ghost p3 = p2 + opt_bool(3, v.send_package_info_changes);
        proof {
            lemma_fields_bytes_concat(p2, opt_bool(3, v.send_package_info_changes));
        }
        put_opt_u32(&mut out, 4, self.num_app_info_cached);
        let ghost p4 = p3 + opt_u32(4, v.num_app_info_cached);
        proof {
            lemma_fields_bytes_concat(p3, opt_u32(4, v.num_app_info_cached));
        }
        put_opt_u32(&mut out, 5, self.num_package_info_cached);
        let ghost p5 = p4 + opt_u32(5, v.num_package_info_cached);
        proof {
            lemma_fields_bytes_concat(p4, opt_u32(5, v.num_package_info_cached));
        }
        proof {
            reveal(CMsgClientPICSChangesSinceRequest::spec_encode);
        }
        assert(p5 == Self::spec_fields(v));
        out
    }

    /// Appends the encoding of this message to `out`.
    pub fn encode_raw(&self, out: &mut Vec<u8>)
        ensures
            final(out)@ == old(out)@ + Self::spec_encode(self@),
    {
        let mut b = self.encode_to_vec();
        out.append(&mut b);
    }

    /// The first `k` fields of `v`, the others as a fresh message has them.
    #[verifier::opaque]
    pub open spec fn spec_prefix(v: SpecCMsgClientPICSChangesSinceRequest, k: int) -> SpecCMsgClientPICSChangesSinceRequest {
        SpecCMsgClientPICSChangesSinceRequest {
            since_change_number: if 1 <= k { v.since_change_number } else { None },
            send_app_info_changes: if 2 <= k { v.send_app_info_changes } else { None },
            send_package_info_changes: if 3 <= k { v.send_package_info_changes } else { None },
            num_app_info_cached: if 4 <= k { v.num_app_info_cached } else { None },
            num_package_info_cached: if 5 <= k { v.num_package_info_cached } else { None },
        }
    }

    /// Reading field 1 back, after the fields before it.
    proof fn lemma_field_since_change_number(v: SpecCMsgClientPICSChangesSinceRequest)
        ensures
            fold_fields(Self::spec_prefix(v, 0), opt_u32(1, v.since_change_number), Self::apply_fn())
                == Ok::<SpecCMsgClientPICSChangesSinceRequest, WireError>(Self::spec_prefix(v, 1)),
    {
        reveal(CMsgClientPICSChangesSinceRequest::spec_prefix);
        reveal(opt_u32);
        let apply = Self::apply_fn();
        let s = Self::spec_prefix(v, 0);
        lemma_fold_opt(s, 1, match v.since_change_number { Some(x) => Some(enc_u32(x)), None => None }, apply);
        if let Some(x) = v.since_change_number {
            lemma_u32_roundtrip(x);
        }
        assert(SpecCMsgClientPICSChangesSinceRequest { since_change_number: v.since_change_number, ..s } == Self::spec_prefix(v, 1));
    }

    /// Reading field 2 back, after the fields before it.
    proof fn lemma_field_send_app_info_changes(v: SpecCMsgClientPICSChangesSinceRequest)
        ensures
            fold_fields(Self::spec_prefix(v, 1), opt_bool(2, v.send_app_info_changes), Self::apply_fn())
                == Ok::<SpecCMsgClientPICSChangesSinceRequest, WireError>(Self::spec_prefix(v, 2)),
    {
        reveal(CMsgClientPICSChangesSinceRequest::spec_prefix);
        reveal(opt_bool);
        let apply = Self::apply_fn();
        let s = Self::spec_prefix(v, 1);
        lemma_fold_opt(s, 2, match v.send_app_info_changes { Some(x) => Some(enc_bool(x)), None => None }, apply);
        assert(SpecCMsgClientPICSChangesSinceRequest { send_app_info_changes: v.send_app_info_changes, ..s } == Self::spec_prefix(v, 2));
    }

    /// Reading field 3 back, after the fields before it.
    proof fn lemma_field_send_package_info_changes(v: SpecCMsgClientPICSChangesSinceRequest)
        ensures
            fold_fields(Self::spec_prefix(v, 2), opt_bool(3, v.send_package_info_changes), Self::apply_fn())
                == Ok::<SpecCMsgClientPICSChangesSinceRequest, WireError>(Self::spec_prefix(v, 3)),
    {
        reveal(CMsgClientPICSChangesSinceRequest::spec_prefix);
        reveal(opt_bool);
        let apply = Self::apply_fn();
        let s = Self::spec_prefix(v, 2);
        lemma_fold_opt(s, 3, match v.send_package_info_changes { Some(x) => Some(enc_bool(x)), None => None }, apply);
        assert(SpecCMsgClientPICSChangesSinceRequest { send_package_info_changes: v.send_package_info_changes, ..s } == Self::spec_prefix(v, 3));
    }

    /// Reading field 4 back, after the fields before it.
    proof fn lemma_field_num_app_info_cached(v: SpecCMsgClientPICSChangesSinceRequest)
        ensures
            fold_fields(Self::spec_prefix(v, 3), opt_u32(4, v.num_app_info_cached), Self::apply_fn())
                == Ok::<SpecCMsgClientPICSChangesSinceRequest, WireError>(Self::spec_prefix(v, 4)),
    {
        reveal(CMsgClientPICSChangesSinceRequest::spec_prefix);
        reveal(opt_u32);
        let apply = Self::apply_fn();
        let s = Self::spec_prefix(v, 3);
        lemma_fold_opt(s, 4, match v.num_app_info_cached { Some(x) => Some(enc_u32(x)), None => None }, apply);
        if let Some(x) = v.num_app_info_cached {
            lemma_u32_roundtrip(x);
        }
        assert(SpecCMsgClientPICSChangesSinceRequest { num_app_info_cached: v.num_app_info_cached, ..s } == Self::spec_prefix(v, 4));
    }

    /// Reading field 5 back, after the fields before it.
    proof fn lemma_field_num_package_info_cached(v: SpecCMsgClientPICSChangesSinceRequest)
        ensures
            fold_fields(Self::spec_prefix(v, 4), opt_u32(5, v.num_package_info_cached), Self::apply_fn())
                == Ok::<SpecCMsgClientPICSChangesSinceRequest, WireError>(Self::spec_prefix(v, 5)),
    {
        reveal(CMsgClientPICSChangesSinceRequest::spec_prefix);
        reveal(opt_u32);
        let apply = Self::apply_fn();
        let s = Self::spec_prefix(v, 4);
        lemma_fold_opt(s, 5, match v.num_package_info_cached { Some(x) => Some(enc_u32(x)), None => None }, apply);
        if let Some(x) = v.num_package_info_cached {
            lemma_u32_roundtrip(x);
        }
        assert(SpecCMsgClientPICSChangesSinceRequest { num_package_info_cached: v.num_package_info_cached, ..s } == Self::spec_prefix(v, 5));
    }

    /// Whether this message declares field number `n`.
    pub open spec fn declares(n: u32) -> bool {
        n == 1 || n == 2 || n == 3 || n == 4 || n == 5
    }

    /// A record with a number this message does not declare is passed over: well-formed
    /// bytes decode to the same message with such a record after them as without it.
    pub proof fn lemma_unknown_field(bytes: Seq<u8>, f: SpecField)
        requires
            parse_fields(bytes) is Ok,
            field_wf(f),
            !Self::declares(f.number),
        ensures
            Self::spec_decode(bytes + field_bytes(f)) == Self::spec_decode(bytes),
    {
        reveal(CMsgClientPICSChangesSinceRequest::spec_decode);
        lemma_parse_fields_append(bytes, f);
        let fs = parse_fields(bytes).unwrap();
        let apply = Self::apply_fn();
        lemma_fold_concat(Self::spec_default(), fs, seq![f], apply);
        assert(fs.push(f) =~= fs + seq![f]);
        if let Ok(w) = fold_fields(Self::spec_default(), fs, apply) {
            lemma_fold_single(w, f, apply);
        }
        lemma_merge_run_fold(Self::spec_default(), bytes, apply);
        lemma_merge_run_fold(Self::spec_default(), bytes + field_bytes(f), apply);
    }

    /// Decoding the encoding of a message gives the message back.
    pub proof fn lemma_decode_encode(v: SpecCMsgClientPICSChangesSinceRequest)
        requires
            Self::spec_encode(v).len() <= u64::MAX,
        ensures
            Self::spec_decode(Self::spec_encode(v)) == Ok::<SpecCMsgClientPICSChangesSinceRequest, WireError>(v),
    {
        let apply = Self::apply_fn();
        let d = Self::spec_default();
        let p0 = Seq::<SpecField>::empty();
        let l1 = opt_u32(1, v.since_change_number);
        let p1 = p0 + l1;
        let l2 = opt_bool(2, v.send_app_info_changes);
        let p2 = p1 + l2;
        let l3 = opt_bool(3, v.send_package_info_changes);
        let p3 = p2 + l3;
        let l4 = opt_u32(4, v.num_app_info_cached);
        let p4 = p3 + l4;
        let l5 = opt_u32(5, v.num_package_info_cached);
        let p5 = p4 + l5;
        assert(parse_fields(Self::spec_encode(v)) == Ok::<Seq<SpecField>, WireError>(p5)) by {
            reveal(CMsgClientPICSChangesSinceRequest::spec_encode);
            assert(numbers_ok(p0) && fields_wf(p0)) by {
                reveal(numbers_ok);
                reveal(fields_wf);
            }
            lemma_opt_u32_numbered(1, v.since_change_number);
            lemma_fields_wf_concat(p0, l1);
            lemma_opt_bool_numbered(2, v.send_app_info_changes);
            lemma_fields_wf_concat(p1, l2);
            lemma_opt_bool_numbered(3, v.send_package_info_changes);
            lemma_fields_wf_concat(p2, l3);
            lemma_opt_u32_numbered(4, v.num_app_info_cached);
            lemma_fields_wf_concat(p3, l4);
            lemma_opt_u32_numbered(5, v.num_package_info_cached);
            lemma_fields_wf_concat(p4, l5);
            assert(p5 == Self::spec_fields(v));
            lemma_fields_wf_from_len(p5);
            lemma_fields_roundtrip(p5);
        }
        assert(Self::spec_prefix(v, 0) == d) by {
            reveal(CMsgClientPICSChangesSinceRequest::spec_prefix);
        }
        lemma_fold_empty(d, apply);
        lemma_fold_concat(d, p0, l1, apply);
        Self::lemma_field_since_change_number(v);
        lemma_fold_concat(d, p1, l2, apply);
        Self::lemma_field_send_app_info_changes(v);
        lemma_fold_concat(d, p2, l3, apply);
        Self::lemma_field_send_package_info_changes(v);
        lemma_fold_concat(d, p3, l4, apply);
        Self::lemma_field_num_app_info_cached(v);
        lemma_fold_concat(d, p4, l5, apply);
        Self::lemma_field_num_package_info_cached(v);
        assert(Self::spec_prefix(v, 5) == v) by {
            reveal(CMsgClientPICSChangesSinceRequest::spec_prefix);
        }
        lemma_merge_run_fold(d, Self::spec_encode(v), apply);
        assert(Self::spec_decode(Self::spec_encode(v)) == Ok::<SpecCMsgClientPICSChangesSinceRequest, WireError>(v)) by {
            reveal(CMsgClientPICSChangesSinceRequest::spec_decode);
        }
    }
}

/// `CMsgClientPICSChangesSinceResponse`, as Valve's schema declares it.
#[derive(Debug, Clone, PartialEq)]
pub struct CMsgClientPICSChangesSinceResponse {
    /// Field 1.
    pub current_change_number: Option<u32>,
    /// Field 2.
    pub since_change_number: Option<u32>,
    /// Field 3.
    pub force_full_update: Option<bool>,
    /// Field 4.
    pub package_changes: Vec<crate::steammessages_clientserver_appinfo::c_msg_client_pics_changes_since_response::PackageChange>,
    /// Field 5.
    pub app_changes: Vec<crate::steammessages_clientserver_appinfo::c_msg_client_pics_changes_since_response::AppChange>,
    /// Field 6.
    pub force_full_app_update: Option<bool>,
    /// Field 7.
    pub force_full_package_update: Option<bool>,
}

/// What a `CMsgClientPICSChangesSinceResponse` holds, as mathematical values.
#[verifier::ext_equal]
pub struct SpecCMsgClientPICSChangesSinceResponse {
    pub current_change_number: Option<u32>,
    pub since_change_number: Option<u32>,
    pub force_full_update: Option<bool>,
    pub package_changes: Seq<crate::steammessages_clientserver_appinfo::c_msg_client_pics_changes_since_response::SpecPackageChange>,
    pub app_changes: Seq<crate::steammessages_clientserver_appinfo::c_msg_client_pics_changes_since_response::SpecAppChange>,
    pub force_full_app_update: Option<bool>,
    pub force_full_package_update: Option<bool>,
}

impl View for CMsgClientPICSChangesSinceResponse {
    type V = SpecCMsgClientPICSChangesSinceResponse;

    open spec fn view(&self) -> SpecCMsgClientPICSChangesSinceResponse {
        SpecCMsgClientPICSChangesSinceResponse {
            current_change_number: self.current_change_number,
            since_change_number: self.since_change_number,
            force_full_update: self.force_full_update,
            package_changes: crate::steammessages_clientserver_appinfo::c_msg_client_pics_changes_since_response::PackageChange::view_all(self.package_changes@),
            app_changes: crate::steammessages_clientserver_appinfo::c_msg_client_pics_changes_since_response::AppChange::view_all(self.app_changes@),
            force_full_app_update: self.force_full_app_update,
            force_full_package_update: self.force_full_package_update,
        }
    }
}

impl Default for CMsgClientPICSChangesSinceResponse {
    fn default() -> (r: Self)
        ensures
            r@ == CMsgClientPICSChangesSinceResponse::spec_default(),
    {
        CMsgClientPICSChangesSinceResponse {
            current_change_number: None,
            since_change_number: None,
            force_full_update: None,
            package_changes: Vec::new(),
            app_changes: Vec::new(),
            force_full_app_update: None,
            force_full_package_update: None,
        }
    }
}

impl CMsgClientPICSChangesSinceResponse {
    pub open spec fn spec_default() -> SpecCMsgClientPICSChangesSinceResponse {
        SpecCMsgClientPICSChangesSinceResponse {
            current_change_number: None,
            since_change_number: None,
            force_full_update: None,
            package_changes: Seq::empty(),
            app_changes: Seq::empty(),
            force_full_app_update: None,
            force_full_package_update: None,
        }
    }

    /// The records a `CMsgClientPICSChangesSinceResponse` is written as, in field order.
    pub open spec fn spec_fields(v: SpecCMsgClientPICSChangesSinceResponse) -> Seq<SpecField> {
        Seq::<SpecField>::empty()
            + opt_u32(1, v.current_change_number)
            + opt_u32(2, v.since_change_number)
            + opt_bool(3, v.force_full_update)
            + rep_bytes(4, crate::steammessages_clientserver_appinfo::c_msg_client_pics_changes_since_response::PackageChange::spec_encode_all(v.package_changes))
            + rep_bytes(5, crate::steammessages_clientserver_appinfo::c_msg_client_pics_changes_since_response::AppChange::spec_encode_all(v.app_changes))
            + opt_bool(6, v.force_full_app_update)
            + opt_bool(7, v.force_full_package_update)
    }

    #[verifier::opaque]
    pub open spec fn spec_encode(v: SpecCMsgClientPICSChangesSinceResponse) -> Seq<u8> {
        fields_bytes(Self::spec_fields(v))
    }

    /// What one record does to the message: a declared number sets or extends its
    /// field, any other number is left alone.
    pub open spec fn spec_apply(v: SpecCMsgClientPICSChangesSinceResponse, f: SpecField) -> Result<SpecCMsgClientPICSChangesSinceResponse, WireError> {
        match f.number {
            1 => match dec_u32(f.value) {
                Ok(x) => Ok(SpecCMsgClientPICSChangesSinceResponse { current_change_number: Some(x), ..v }),
                Err(e) => Err(e),
            },
            2 => match dec_u32(f.value) {
                Ok(x) => Ok(SpecCMsgClientPICSChangesSinceResponse { since_change_number: Some(x), ..v }),
                Err(e) => Err(e),
            },
            3 => match dec_bool(f.value) {
                Ok(x) => Ok(SpecCMsgClientPICSChangesSinceResponse { force_full_update: Some(x), ..v }),
                Err(e) => Err(e),
            },
            4 => match dec_bytes(f.value) {
                Ok(b) => match crate::steammessages_clientserver_appinfo::c_msg_client_pics_changes_since_response::PackageChange::spec_decode(b) {
                    Ok(m) => Ok(SpecCMsgClientPICSChangesSinceResponse { package_changes: v.package_changes.push(m), ..v }),
                    Err(e) => Err(e),
                },
                Err(e) => Err(e),
            },
            5 => match dec_bytes(f.value) {
                Ok(b) => match crate::steammessages_clientserver_appinfo::c_msg_client_pics_changes_since_response::AppChange::spec_decode(b) {
                    Ok(m) => Ok(SpecCMsgClientPICSChangesSinceResponse { app_changes: v.app_changes.push(m), ..v }),
                    Err(e) => Err(e),
                },
                Err(e) => Err(e),
            },
            6 => match dec_bool(f.value) {
                Ok(x) => Ok(SpecCMsgClientPICSChangesSinceResponse { force_full_app_update: Some(x), ..v }),
                Err(e) => Err(e),
            },
            7 => match dec_bool(f.value) {
                Ok(x) => Ok(SpecCMsgClientPICSChangesSinceResponse { force_full_package_update: Some(x), ..v }),
                Err(e) => Err(e),
            },
            _ => Ok(v),
        }
    }

    pub open spec fn apply_fn() -> spec_fn(SpecCMsgClientPICSChangesSinceResponse, SpecField) -> Result<SpecCMsgClientPICSChangesSinceResponse, WireError> {
        |v: SpecCMsgClientPICSChangesSinceResponse, f: SpecField| Self::spec_apply(v, f)
    }

    /// The message `bytes` makes of `v`: its records applied in order, or the error
    /// that stops the reading.
    pub open spec fn spec_merge(v: SpecCMsgClientPICSChangesSinceResponse, bytes: Seq<u8>) -> Result<SpecCMsgClientPICSChangesSinceResponse, WireError> {
        let (w, stop) = merge_run(v, bytes, Self::apply_fn());
        match stop {
            None => Ok(w),
            Some(e) => Err(e),
        }
    }

    #[verifier::opaque]
    pub open spec fn spec_decode(bytes: Seq<u8>) -> Result<SpecCMsgClientPICSChangesSinceResponse, WireError> {
        Self::spec_merge(Self::spec_default(), bytes)
    }

    /// This message with one record applied to it, or, when the record is refused,
    /// the message unchanged and the reason.
    fn applied(self, f: &Field) -> (r: Result<Self, (Self, WireError)>)
        ensures
            match Self::spec_apply(self@, f@) {
                Ok(v) => r matches Ok(m) && m@ == v,
                Err(e) => r matches Err((m, x)) && x == e && m@ == self@,
            },
    {
        match f.number {
            1 => match read_u32(&f.value) {
                Ok(x) => Ok(Self { current_change_number: Some(x), ..self }),
                Err(e) => Err((self, e)),
            },
            2 => match read_u32(&f.value) {
                Ok(x) => Ok(Self { since_change_number: Some(x), ..self }),
                Err(e) => Err((self, e)),
            },
            3 => match read_bool(&f.value) {
                Ok(x) => Ok(Self { force_full_update: Some(x), ..self }),
                Err(e) => Err((self, e)),
            },
            4 => match read_payload(&f.value) {
                Ok(b) => match crate::steammessages_clientserver_appinfo::c_msg_client_pics_changes_since_response::PackageChange::decode(b) {
                    Ok(x) => {
                        let mut m = self;
                        let ghost before = m.package_changes@;
                        m.package_changes.push(x);
                        assert(crate::steammessages_clientserver_appinfo::c_msg_client_pics_changes_since_response::PackageChange::view_all(m.package_changes@) =~= crate::steammessages_clientserver_appinfo::c_msg_client_pics_changes_since_response::PackageChange::view_all(before).push(x@));
                        Ok(m)
                    },
                    Err(e) => Err((self, e)),
                },
                Err(e) => Err((self, e)),
            },
            5 => match read_payload(&f.value) {
                Ok(b) => match crate::steammessages_clientserver_appinfo::c_msg_client_pics_changes_since_response::AppChange::decode(b) {
                    Ok(x) => {
                        let mut m = self;
                        let ghost before = m.app_changes@;
                        m.app_changes.push(x);
                        assert(crate::steammessages_clientserver_appinfo::c_msg_client_pics_changes_since_response::AppChange::view_all(m.app_changes@) =~= crate::steammessages_clientserver_appinfo::c_msg_client_pics_changes_since_response::AppChange::view_all(before).push(x@));
                        Ok(m)
                    },
                    Err(e) => Err((self, e)),
                },
                Err(e) => Err((self, e)),
            },
            6 => match read_bool(&f.value) {
                Ok(x) => Ok(Self { force_full_app_update: Some(x), ..self }),
                Err(e) => Err((self, e)),
            },
            7 => match read_bool(&f.value) {
                Ok(x) => Ok(Self { force_full_package_update: Some(x), ..self }),
                Err(e) => Err((self, e)),
            },
            _ => Ok(self),
        }
    }

    /// Reads the records `bytes` holds into this message, in order. When a record does
    /// not parse or is refused, the reading stops there: the message keeps what the
    /// records before it gave, and the error is returned.
    pub fn merge(&mut self, bytes: &[u8]) -> (r: Result<(), WireError>)
        ensures
            final(self)@ == merge_run(old(self)@, bytes@, Self::apply_fn()).0,
            r == match merge_run(old(self)@, bytes@, Self::apply_fn()).1 {
                None => Ok::<(), WireError>(()),
                Some(e) => Err::<(), WireError>(e),
            },
    {
        let ghost total = merge_run(self@, bytes@, Self::apply_fn());
        let mut cur = Self::default();
        std::mem::swap(&mut cur, self);
        let mut pos: usize = 0;
        assert(bytes@.skip(0) =~= bytes@);
        while pos < bytes.len()
            invariant
                pos <= bytes@.len(),
                total == merge_run(old(self)@, bytes@, Self::apply_fn()),
                merge_run(cur@, bytes@.skip(pos as int), Self::apply_fn()) == total,
            decreases bytes@.len() - pos,
        {
            let ghost s = bytes@.skip(pos as int);
            proof {
                lemma_merge_run_step(cur@, s, Self::apply_fn());
                lemma_parse_field_len(s);
            }
            match read_field(bytes, pos) {
                Ok((f, end)) => {
                    assert(bytes@.skip(end as int) =~= s.skip((end - pos) as int));
                    match cur.applied(&f) {
                        Ok(m) => {
                            cur = m;
                        },
                        Err((m, e)) => {
                            *self = m;
                            return Err(e);
                        },
                    }
                    pos = end;
                },
                Err(e) => {
                    *self = cur;
                    return Err(e);
                },
            }
        }
        assert(bytes@.skip(pos as int) =~= Seq::<u8>::empty());
        proof {
            lemma_merge_run_empty(cur@, Self::apply_fn());
        }
        *self = cur;
        Ok(())
    }

    /// Decodes a message from its encoding.
    pub fn decode(bytes: &[u8]) -> (r: Result<Self, WireError>)
        ensures
            match Self::spec_decode(bytes@) {
                Ok(v) => r matches Ok(m) && m@ == v,
                Err(e) => r matches Err(x) && x == e,
            },
    {
        proof {
            reveal(CMsgClientPICSChangesSinceResponse::spec_decode);
        }
        let mut m = Self::default();
        match m.merge(bytes) {
            Ok(()) => Ok(m),
            Err(e) => Err(e),
        }
    }

    /// The encoding of this message.
    pub fn encode_to_vec(&self) -> (r: Vec<u8>)
        ensures
            r@ == Self::spec_encode(self@),
    {
        let enc_package_changes = crate::steammessages_clientserver_appinfo::c_msg_client_pics_changes_since_response::PackageChange::encode_all(&self.package_changes);
        let enc_app_changes = crate::steammessages_clientserver_appinfo::c_msg_client_pics_changes_since_response::AppChange::encode_all(&self.app_changes);
        let ghost v = self@;
        let mut out: Vec<u8> = Vec::new();
        let ghost p0 = Seq::<SpecField>::empty();
        put_opt_u32(&mut out, 1, self.current_change_number);
        let ghost p1 = p0 + opt_u32(1, v.current_change_number);
        proof {
            lemma_fields_bytes_concat(p0, opt_u32(1, v.current_change_number));
        }
        put_opt_u32(&mut out, 2, self.since_change_number);
        let ghost p2 = p1 + opt_u32(2, v.since_change_number);
        proof {
            lemma_fields_bytes_concat(p1, opt_u32(2, v.since_change_number));
        }
        put_opt_bool(&mut out, 3, self.force_full_update);
        let ghost p3 = p2 + opt_bool(3, v.force_full_update);
        proof {
            lemma_fields_bytes_concat(p2, opt_bool(3, v.force_full_update));
        }
        put_rep_bytes(&mut out, 4, &enc_package_changes);
        let ghost p4 = p3 + rep_bytes(4, crate::steammessages_clientserver_appinfo::c_msg_client_pics_changes_since_response::PackageChange::spec_encode_all(v.package_changes));
        proof {
            lemma_fields_bytes_concat(p3, rep_bytes(4, crate::steammessages_clientserver_appinfo::c_msg_client_pics_changes_since_response::PackageChange::spec_encode_all(v.package_changes)));
        }
        put_rep_bytes(&mut out, 5, &enc_app_changes);
        let ghost p5 = p4 + rep_bytes(5, crate::steammessages_clientserver_appinfo::c_msg_client_pics_changes_since_response::AppChange::spec_encode_all(v.app_changes));
        proof {
            lemma_fields_bytes_concat(p4, rep_bytes(5, crate::steammessages_clientserver_appinfo::c_msg_client_pics_changes_since_response::AppChange::spec_encode_all(v.app_changes)));
        }
        put_opt_bool(&mut out, 6, self.force_full_app_update);
        let ghost p6 = p5 + opt_bool(6, v.force_full_app_update);
        proof {
            lemma_fields_bytes_concat(p5, opt_bool(6, v.force_full_app_update));
        }
        put_opt_bool(&mut out, 7, self.force_full_package_update);
        let ghost p7 = p6 + opt_bool(7, v.force_full_package_update);
        proof {
            lemma_fields_bytes_concat(p6, opt_bool(7, v.force_full_package_update));
        }
        proof {
            reveal(CMsgClientPICSChangesSinceResponse::spec_encode);
        }
        assert(p7 == Self::spec_fields(v));
        out
    }

    /// Appends the encoding of this message to `out`.
    pub fn encode_raw(&self, out: &mut Vec<u8>)
        ensures
            final(out)@ == old(out)@ + Self::spec_encode(self@),
    {
        let mut b = self.encode_to_vec();
        out.append(&mut b);
    }

    /// The first `k` fields of `v`, the others as a fresh message has them.
    #[verifier::opaque]
    pub open spec fn spec_prefix(v: SpecCMsgClientPICSChangesSinceResponse, k: int) -> SpecCMsgClientPICSChangesSinceResponse {
        SpecCMsgClientPICSChangesSinceResponse {
            current_change_number: if 1 <= k { v.current_change_number } else { None },
            since_change_number: if 2 <= k { v.since_change_number } else { None },
            force_full_update: if 3 <= k { v.force_full_update } else { None },
            package_changes: if 4 <= k { v.package_changes } else { Seq::empty() },
            app_changes: if 5 <= k { v.app_changes } else { Seq::empty() },
            force_full_app_update: if 6 <= k { v.force_full_app_update } else { None },
            force_full_package_update: if 7 <= k { v.force_full_package_update } else { None },
        }
    }

    /// Reading field 1 back, after the fields before it.
    proof fn lemma_field_current_change_number(v: SpecCMsgClientPICSChangesSinceResponse)
        ensures
            fold_fields(Self::spec_prefix(v, 0), opt_u32(1, v.current_change_number), Self::apply_fn())
                == Ok::<SpecCMsgClientPICSChangesSinceResponse, WireError>(Self::spec_prefix(v, 1)),
    {
        reveal(CMsgClientPICSChangesSinceResponse::spec_prefix);
        reveal(opt_u32);
        let apply = Self::apply_fn();
        let s = Self::spec_prefix(v, 0);
        lemma_fold_opt(s, 1, match v.current_change_number { Some(x) => Some(enc_u32(x)), None => None }, apply);
        if let Some(x) = v.current_change_number {
            lemma_u32_roundtrip(x);
        }
        assert(SpecCMsgClientPICSChangesSinceResponse { current_change_number: v.current_change_number, ..s } == Self::spec_prefix(v, 1));
    }

    /// Reading field 2 back, after the fields before it.
    proof fn lemma_field_since_change_number(v: SpecCMsgClientPICSChangesSinceResponse)
        ensures
            fold_fields(Self::spec_prefix(v, 1), opt_u32(2, v.since_change_number), Self::apply_fn())
                == Ok::<SpecCMsgClientPICSChangesSinceResponse, WireError>(Self::spec_prefix(v, 2)),
    {
        reveal(CMsgClientPICSChangesSinceResponse::spec_prefix);
        reveal(opt_u32);
        let apply = Self::apply_fn();
        let s = Self::spec_prefix(v, 1);
        lemma_fold_opt(s, 2, match v.since_change_number { Some(x) => Some(enc_u32(x)), None => None }, apply);
        if let Some(x) = v.since_change_number {
            lemma_u32_roundtrip(x);
        }
        assert(SpecCMsgClientPICSChangesSinceResponse { since_change_number: v.since_change_number, ..s } == Self::spec_prefix(v, 2));
    }

    /// Reading field 3 back, after the fields before it.
    proof fn lemma_field_force_full_update(v: SpecCMsgClientPICSChangesSinceResponse)
        ensures
            fold_fields(Self::spec_prefix(v, 2), opt_bool(3, v.force_full_update), Self::apply_fn())
                == Ok::<SpecCMsgClientPICSChangesSinceResponse, WireError>(Self::spec_prefix(v, 3)),
    {
        reveal(CMsgClientPICSChangesSinceResponse::spec_prefix);
        reveal(opt_bool);
        let apply = Self::apply_fn();
        let s = Self::spec_prefix(v, 2);
        lemma_fold_opt(s, 3, match v.force_full_update { Some(x) => Some(enc_bool(x)), None => None }, apply);
        assert(SpecCMsgClientPICSChangesSinceResponse { force_full_update: v.force_full_update, ..s } == Self::spec_prefix(v, 3));
    }

    /// Reading field 4 back, after the fields before it.
    proof fn lemma_field_package_changes(v: SpecCMsgClientPICSChangesSinceResponse)
        requires
            fields_wf(rep_bytes(4, crate::steammessages_clientserver_appinfo::c_msg_client_pics_changes_since_response::PackageChange::spec_encode_all(v.package_changes))),
        ensures
            fold_fields(Self::spec_prefix(v, 3), rep_bytes(4, crate::steammessages_clientserver_appinfo::c_msg_client_pics_changes_since_response::PackageChange::spec_encode_all(v.package_changes)), Self::apply_fn())
                == Ok::<SpecCMsgClientPICSChangesSinceResponse, WireError>(Self::spec_prefix(v, 4)),
    {
        reveal(CMsgClientPICSChangesSinceResponse::spec_prefix);
        reveal(rep_bytes);
        reveal(fields_wf);
        let apply = Self::apply_fn();
        let s = Self::spec_prefix(v, 3);
        let l = rep_bytes(4, crate::steammessages_clientserver_appinfo::c_msg_client_pics_changes_since_response::PackageChange::spec_encode_all(v.package_changes));
        let xs = v.package_changes;
        let st = Seq::new((xs.len() + 1) as nat, |j: int| SpecCMsgClientPICSChangesSinceResponse { package_changes: xs.take(j), ..s });
        assert forall|j: int| 0 <= j < l.len() implies #[trigger] apply(st[j], l[j]) == Ok::<SpecCMsgClientPICSChangesSinceResponse, WireError>(st[j + 1]) by {
            assert(field_wf(l[j]));
            crate::steammessages_clientserver_appinfo::c_msg_client_pics_changes_since_response::PackageChange::lemma_decode_encode(xs[j]);
            assert(xs.take(j).push(xs[j]) =~= xs.take(j + 1));
        }
        lemma_fold_chain(l, st, apply);
        assert(xs.take(0) =~= Seq::<crate::steammessages_clientserver_appinfo::c_msg_client_pics_changes_since_response::SpecPackageChange>::empty());
        assert(xs.take(xs.len() as int) =~= xs);
        assert(st[0] == s);
        assert(st[xs.len() as int] == Self::spec_prefix(v, 4));
    }

    /// Reading field 5 back, after the fields before it.
    proof fn lemma_field_app_changes(v: SpecCMsgClientPICSChangesSinceResponse)
        requires
            fields_wf(rep_bytes(5, crate::steammessages_clientserver_appinfo::c_msg_client_pics_changes_since_response::AppChange::spec_encode_all(v.app_changes))),
        ensures
            fold_fields(Self::spec_prefix(v, 4), rep_bytes(5, crate::steammessages_clientserver_appinfo::c_msg_client_pics_changes_since_response::AppChange::spec_encode_all(v.app_changes)), Self::apply_fn())
                == Ok::<SpecCMsgClientPICSChangesSinceResponse, WireError>(Self::spec_prefix(v, 5)),
    {
        reveal(CMsgClientPICSChangesSinceResponse::spec_prefix);
        reveal(rep_bytes);
        reveal(fields_wf);
        let apply = Self::apply_fn();
        let s = Self::spec_prefix(v, 4);
        let l = rep_bytes(5, crate::steammessages_clientserver_appinfo::c_msg_client_pics_changes_since_response::AppChange::spec_encode_all(v.app_changes));
        let xs = v.app_changes;
        let st = Seq::new((xs.len() + 1) as nat, |j: int| SpecCMsgClientPICSChangesSinceResponse { app_changes: xs.take(j), ..s });
        assert forall|j: int| 0 <= j < l.len() implies #[trigger] apply(st[j], l[j]) == Ok::<SpecCMsgClientPICSChangesSinceResponse, WireError>(st[j + 1]) by {
            assert(field_wf(l[j]));
            crate::steammessages_clientserver_appinfo::c_msg_client_pics_changes_since_response::AppChange::lemma_decode_encode(xs[j]);
            assert(xs.take(j).push(xs[j]) =~= xs.take(j + 1));
        }
        lemma_fold_chain(l, st, apply);
        assert(xs.take(0) =~= Seq::<crate::steammessages_clientserver_appinfo::c_msg_client_pics_changes_since_response::SpecAppChange>::empty());
        assert(xs.take(xs.len() as int) =~= xs);
        assert(st[0] == s);
        assert(st[xs.len() as int] == Self::spec_prefix(v, 5));
    }

    /// Reading field 6 back, after the fields before it.
    proof fn lemma_field_force_full_app_update(v: SpecCMsgClientPICSChangesSinceResponse)
        ensures
            fold_fields(Self::spec_prefix(v, 5), opt_bool(6, v.force_full_app_update), Self::apply_fn())
                == Ok::<SpecCMsgClientPICSChangesSinceResponse, WireError>(Self::spec_prefix(v, 6)),
    {
        reveal(CMsgClientPICSChangesSinceResponse::spec_prefix);
        reveal(opt_bool);
        let apply = Self::apply_fn();
        let s = Self::spec_prefix(v, 5);
        lemma_fold_opt(s, 6, match v.force_full_app_update { Some(x) => Some(enc_bool(x)), None => None }, apply);
        assert(SpecCMsgClientPICSChangesSinceResponse { force_full_app_update: v.force_full_app_update, ..s } == Self::spec_prefix(v, 6));
    }

    /// Reading field 7 back, after the fields before it.
    proof fn lemma_field_force_full_package_update(v: SpecCMsgClientPICSChangesSinceResponse)
        ensures
            fold_fields(Self::spec_prefix(v, 6), opt_bool(7, v.force_full_package_update), Self::apply_fn())
                == Ok::<SpecCMsgClientPICSChangesSinceResponse, WireError>(Self::spec_prefix(v, 7)),
    {
        reveal(CMsgClientPICSChangesSinceResponse::spec_prefix);
        reveal(opt_bool);
        let apply = Self::apply_fn();
        let s = Self::spec_prefix(v, 6);
        lemma_fold_opt(s, 7, match v.force_full_package_update { Some(x) => Some(enc_bool(x)), None => None }, apply);
        assert(SpecCMsgClientPICSChangesSinceResponse { force_full_package_update: v.force_full_package_update, ..s } == Self::spec_prefix(v, 7));
    }

    /// Whether this message declares field number `n`.
    pub open spec fn declares(n: u32) -> bool {
        n == 1 || n == 2 || n == 3 || n == 4 || n == 5 || n == 6 || n == 7
    }

    /// A record with a number this message does not declare is passed over: well-formed
    /// bytes decode to the same message with such a record after them as without it.
    pub proof fn lemma_unknown_field(bytes: Seq<u8>, f: SpecField)
        requires
            parse_fields(bytes) is Ok,
            field_wf(f),
            !Self::declares(f.number),
        ensures
            Self::spec_decode(bytes + field_bytes(f)) == Self::spec_decode(bytes),
    {
        reveal(CMsgClientPICSChangesSinceResponse::spec_decode);
        lemma_parse_fields_append(bytes, f);
        let fs = parse_fields(bytes).unwrap();
        let apply = Self::apply_fn();
        lemma_fold_concat(Self::spec_default(), fs, seq![f], apply);
        assert(fs.push(f) =~= fs + seq![f]);
        if let Ok(w) = fold_fields(Self::spec_default(), fs, apply) {
            lemma_fold_single(w, f, apply);
        }
        lemma_merge_run_fold(Self::spec_default(), bytes, apply);
        lemma_merge_run_fold(Self::spec_default(), bytes + field_bytes(f), apply);
    }

    /// Decoding the encoding of a message gives the message back.
    pub proof fn lemma_decode_encode(v: SpecCMsgClientPICSChangesSinceResponse)
        requires
            Self::spec_encode(v).len() <= u64::MAX,
        ensures
            Self::spec_decode(Self::spec_encode(v)) == Ok::<SpecCMsgClientPICSChangesSinceResponse, WireError>(v),
    {
        let apply = Self::apply_fn();
        let d = Self::spec_default();
        let p0 = Seq::<SpecField>::empty();
        let l1 = opt_u32(1, v.current_change_number);
        let p1 = p0 + l1;
        let l2 = opt_u32(2, v.since_change_number);
        let p2 = p1 + l2;
        let l3 = opt_bool(3, v.force_full_update);
        let p3 = p2 + l3;
        let l4 = rep_bytes(4, crate::steammessages_clientserver_appinfo::c_msg_client_pics_changes_since_response::PackageChange::spec_encode_all(v.package_changes));
        let p4 = p3 + l4;
        let l5 = rep_bytes(5, crate::steammessages_clientserver_appinfo::c_msg_client_pics_changes_since_response::AppChange::spec_encode_all(v.app_changes));
        let p5 = p4 + l5;
        let l6 = opt_bool(6, v.force_full_app_update);
        let p6 = p5 + l6;
        let l7 = opt_bool(7, v.force_full_package_update);
        let p7 = p6 + l7;
        assert(parse_fields(Self::spec_encode(v)) == Ok::<Seq<SpecField>, WireError>(p7) && fields_wf(l4) && fields_wf(l5)) by {
            reveal(CMsgClientPICSChangesSinceResponse::spec_encode);
            assert(numbers_ok(p0) && fields_wf(p0)) by {
                reveal(numbers_ok);
                reveal(fields_wf);
            }
            lemma_opt_u32_numbered(1, v.current_change_number);
            lemma_fields_wf_concat(p0, l1);
            lemma_opt_u32_numbered(2, v.since_change_number);
            lemma_fields_wf_concat(p1, l2);
            lemma_opt_bool_numbered(3, v.force_full_update);
            lemma_fields_wf_concat(p2, l3);
            lemma_rep_bytes_numbered(4, crate::steammessages_clientserver_appinfo::c_msg_client_pics_changes_since_response::PackageChange::spec_encode_all(v.package_changes));
            lemma_fields_wf_concat(p3, l4);
            lemma_rep_bytes_numbered(5, crate::steammessages_clientserver_appinfo::c_msg_client_pics_changes_since_response::AppChange::spec_encode_all(v.app_changes));
            lemma_fields_wf_concat(p4, l5);
            lemma_opt_bool_numbered(6, v.force_full_app_update);
            lemma_fields_wf_concat(p5, l6);
            lemma_opt_bool_numbered(7, v.force_full_package_update);
            lemma_fields_wf_concat(p6, l7);
            assert(p7 == Self::spec_fields(v));
            lemma_fields_wf_from_len(p7);
            lemma_fields_roundtrip(p7);
        }
        assert(Self::spec_prefix(v, 0) == d) by {
            reveal(CMsgClientPICSChangesSinceResponse::spec_prefix);
        }
        lemma_fold_empty(d, apply);
        lemma_fold_concat(d, p0, l1, apply);
        Self::lemma_field_current_change_number(v);
        lemma_fold_concat(d, p1, l2, apply);
        Self::lemma_field_since_change_number(v);
        lemma_fold_concat(d, p2, l3, apply);
        Self::lemma_field_force_full_update(v);
        lemma_fold_concat(d, p3, l4, apply);
        Self::lemma_field_package_changes(v);
        lemma_fold_concat(d, p4, l5, apply);
        Self::lemma_field_app_changes(v);
        lemma_fold_concat(d, p5, l6, apply);
        Self::lemma_field_force_full_app_update(v);
        lemma_fold_concat(d, p6, l7, apply);
        Self::lemma_field_force_full_package_update(v);
        assert(Self::spec_prefix(v, 7) == v) by {
            reveal(CMsgClientPICSChangesSinceResponse::spec_prefix);
        }
        lemma_merge_run_fold(d, Self::spec_encode(v), apply);
        assert(Self::spec_decode(Self::spec_encode(v)) == Ok::<SpecCMsgClientPICSChangesSinceResponse, WireError>(v)) by {
            reveal(CMsgClientPICSChangesSinceResponse::spec_decode);
        }
    }
}

/// `CMsgClientPICSProductInfoRequest`, as Valve's schema declares it.
#[derive(Debug, Clone, PartialEq)]
pub struct CMsgClientPICSProductInfoRequest {
    /// Field 1.
    pub packages: Vec<crate::steammessages_clientserver_appinfo::c_msg_client_pics_product_info_request::PackageInfo>,
    /// Field 2.
    pub apps: Vec<crate::steammessages_clientserver_appinfo::c_msg_client_pics_product_info_request::AppInfo>,
    /// Field 3.
    pub meta_data_only: Option<bool>,
    /// Field 4.
    pub num_prev_failed: Option<u32>,
    /// Field 5.
    pub obsolete_supports_package_tokens: Option<u32>,
    /// Field 6.
    pub sequence_number: Option<u32>,
    /// Field 7.
    pub single_response: Option<bool>,
}

/// What a `CMsgClientPICSProductInfoRequest` holds, as mathematical values.
#[verifier::ext_equal]
pub struct SpecCMsgClientPICSProductInfoRequest {
    pub packages: Seq<crate::steammessages_clientserver_appinfo::c_msg_client_pics_product_info_request::SpecPackageInfo>,
    pub apps: Seq<crate::steammessages_clientserver_appinfo::c_msg_client_pics_product_info_request::SpecAppInfo>,
    pub meta_data_only: Option<bool>,
    pub num_prev_failed: Option<u32>,
    pub obsolete_supports_package_tokens: Option<u32>,
    pub sequence_number: Option<u32>,
    pub single_response: Option<bool>,
}

impl View for CMsgClientPICSProductInfoRequest {
    type V = SpecCMsgClientPICSProductInfoRequest;

    open spec fn view(&self) -> SpecCMsgClientPICSProductInfoRequest {
        SpecCMsgClientPICSProductInfoRequest {
            packages: crate::steammessages_clientserver_appinfo::c_msg_client_pics_product_info_request::PackageInfo::view_all(self.packages@),
            apps: crate::steammessages_clientserver_appinfo::c_msg_client_pics_product_info_request::AppInfo::view_all(self.apps@),
            meta_data_only: self.meta_data_only,
            num_prev_failed: self.num_prev_failed,
            obsolete_supports_package_tokens: self.obsolete_supports_package_tokens,
            sequence_number: self.sequence_number,
            single_response: self.single_response,
        }
    }
}

impl Default for CMsgClientPICSProductInfoRequest {
    fn default() -> (r: Self)
        ensures
            r@ == CMsgClientPICSProductInfoRequest::spec_default(),
    {
        CMsgClientPICSProductInfoRequest {
            packages: Vec::new(),
            apps: Vec::new(),
            meta_data_only: None,
            num_prev_failed: None,
            obsolete_supports_package_tokens: None,
            sequence_number: None,
            single_response: None,
        }
    }
}

impl CMsgClientPICSProductInfoRequest {
    pub open spec fn spec_default() -> SpecCMsgClientPICSProductInfoRequest {
        SpecCMsgClientPICSProductInfoRequest {
            packages: Seq::empty(),
            apps: Seq::empty(),
            meta_data_only: None,
            num_prev_failed: None,
            obsolete_supports_package_tokens: None,
            sequence_number: None,
            single_response: None,
        }
    }

    /// The records a `CMsgClientPICSProductInfoRequest` is written as, in field order.
    pub open spec fn spec_fields(v: SpecCMsgClientPICSProductInfoRequest) -> Seq<SpecField> {
        Seq::<SpecField>::empty()
            + rep_bytes(1, crate::steammessages_clientserver_appinfo::c_msg_client_pics_product_info_request::PackageInfo::spec_encode_all(v.packages))
            + rep_bytes(2, crate::steammessages_clientserver_appinfo::c_msg_client_pics_product_info_request::AppInfo::spec_encode_all(v.apps))
            + opt_bool(3, v.meta_data_only)
            + opt_u32(4, v.num_prev_failed)
            + opt_u32(5, v.obsolete_supports_package_tokens)
            + opt_u32(6, v.sequence_number)
            + opt_bool(7, v.single_response)
    }

    #[verifier::opaque]
    pub open spec fn spec_encode(v: SpecCMsgClientPICSProductInfoRequest) -> Seq<u8> {
        fields_bytes(Self::spec_fields(v))
    }

    /// What one record does to the message: a declared number sets or extends its
    /// field, any other number is left alone.
    pub open spec fn spec_apply(v: SpecCMsgClientPICSProductInfoRequest, f: SpecField) -> Result<SpecCMsgClientPICSProductInfoRequest, WireError> {
        match f.number {
            1 => match dec_bytes(f.value) {
                Ok(b) => match crate::steammessages_clientserver_appinfo::c_msg_client_pics_product_info_request::PackageInfo::spec_decode(b) {
                    Ok(m) => Ok(SpecCMsgClientPICSProductInfoRequest { packages: v.packages.push(m), ..v }),
                    Err(e) => Err(e),
                },
                Err(e) => Err(e),
            },
            2 => match dec_bytes(f.value) {
                Ok(b) => match crate::steammessages_clientserver_appinfo::c_msg_client_pics_product_info_request::AppInfo::spec_decode(b) {
                    Ok(m) => Ok(SpecCMsgClientPICSProductInfoRequest { apps: v.apps.push(m), ..v }),
                    Err(e) => Err(e),
                },
                Err(e) => Err(e),
            },
            3 => match dec_bool(f.value) {
                Ok(x) => Ok(SpecCMsgClientPICSProductInfoRequest { meta_data_only: Some(x), ..v }),
                Err(e) => Err(e),
            },
            4 => match dec_u32(f.value) {
                Ok(x) => Ok(SpecCMsgClientPICSProductInfoRequest { num_prev_failed: Some(x), ..v }),
                Err(e) => Err(e),
            },
            5 => match dec_u32(f.value) {
                Ok(x) => Ok(SpecCMsgClientPICSProductInfoRequest { obsolete_supports_package_tokens: Some(x), ..v }),
                Err(e) => Err(e),
            },
            6 => match dec_u32(f.value) {
                Ok(x) => Ok(SpecCMsgClientPICSProductInfoRequest { sequence_number: Some(x), ..v }),
                Err(e) => Err(e),
            },
            7 => match dec_bool(f.value) {
                Ok(x) => Ok(SpecCMsgClientPICSProductInfoRequest { single_response: Some(x), ..v }),
                Err(e) => Err(e),
            },
            _ => Ok(v),
        }
    }

    pub open spec fn apply_fn() -> spec_fn(SpecCMsgClientPICSProductInfoRequest, SpecField) -> Result<SpecCMsgClientPICSProductInfoRequest, WireError> {
        |v: SpecCMsgClientPICSProductInfoRequest, f: SpecField| Self::spec_apply(v, f)
    }

    /// The message `bytes` makes of `v`: its records applied in order, or the error
    /// that stops the reading.
    pub open spec fn spec_merge(v: SpecCMsgClientPICSProductInfoRequest, bytes: Seq<u8>) -> Result<SpecCMsgClientPICSProductInfoRequest, WireError> {
        let (w, stop) = merge_run(v, bytes, Self::apply_fn());
        match stop {
            None => Ok(w),
            Some(e) => Err(e),
        }
    }

    #[verifier::opaque]
    pub open spec fn spec_decode(bytes: Seq<u8>) -> Result<SpecCMsgClientPICSProductInfoRequest, WireError> {
        Self::spec_merge(Self::spec_default(), bytes)
    }

    /// This message with one record applied to it, or, when the record is refused,
    /// the message unchanged and the reason.
    fn applied(self, f: &Field) -> (r: Result<Self, (Self, WireError)>)
        ensures
            match Self::spec_apply(self@, f@) {
                Ok(v) => r matches Ok(m) && m@ == v,
                Err(e) => r matches Err((m, x)) && x == e && m@ == self@,
            },
    {
        match f.number {
            1 => match read_payload(&f.value) {
                Ok(b) => match crate::steammessages_clientserver_appinfo::c_msg_client_pics_product_info_request::PackageInfo::decode(b) {
                    Ok(x) => {
                        let mut m = self;
                        let ghost before = m.packages@;
                        m.packages.push(x);
                        assert(crate::steammessages_clientserver_appinfo::c_msg_client_pics_product_info_request::PackageInfo::view_all(m.packages@) =~= crate::steammessages_clientserver_appinfo::c_msg_client_pics_product_info_request::PackageInfo::view_all(before).push(x@));
                        Ok(m)
                    },
                    Err(e) => Err((self, e)),
                },
                Err(e) => Err((self, e)),
            },
            2 => match read_payload(&f.value) {
                Ok(b) => match crate::steammessages_clientserver_appinfo::c_msg_client_pics_product_info_request::AppInfo::decode(b) {
                    Ok(x) => {
                        let mut m = self;
                        let ghost before = m.apps@;
                        m.apps.push(x);
                        assert(crate::steammessages_clientserver_appinfo::c_msg_client_pics_product_info_request::AppInfo::view_all(m.apps@) =~= crate::steammessages_clientserver_appinfo::c_msg_client_pics_product_info_request::AppInfo::view_all(before).push(x@));
                        Ok(m)
                    },
                    Err(e) => Err((self, e)),
                },
                Err(e) => Err((self, e)),
            },
            3 => match read_bool(&f.value) {
                Ok(x) => Ok(Self { meta_data_only: Some(x), ..self }),
                Err(e) => Err((self, e)),
            },
            4 => match read_u32(&f.value) {
                Ok(x) => Ok(Self { num_prev_failed: Some(x), ..self }),
                Err(e) => Err((self, e)),
            },
            5 => match read_u32(&f.value) {
                Ok(x) => Ok(Self { obsolete_supports_package_tokens: Some(x), ..self }),
                Err(e) => Err((self, e)),
            },
            6 => match read_u32(&f.value) {
                Ok(x) => Ok(Self { sequence_number: Some(x), ..self }),
                Err(e) => Err((self, e)),
            },
            7 => match read_bool(&f.value) {
                Ok(x) => Ok(Self { single_response: Some(x), ..self }),
                Err(e) => Err((self, e)),
            },
            _ => Ok(self),
        }
    }

    /// Reads the records `bytes` holds into this message, in order. When a record does
    /// not parse or is refused, the reading stops there: the message keeps what the
    /// records before it gave, and the error is returned.
    pub fn merge(&mut self, bytes: &[u8]) -> (r: Result<(), WireError>)
        ensures
            final(self)@ == merge_run(old(self)@, bytes@, Self::apply_fn()).0,
            r == match merge_run(old(self)@, bytes@, Self::apply_fn()).1 {
                None => Ok::<(), WireError>(()),
                Some(e) => Err::<(), WireError>(e),
            },
    {
        let ghost total = merge_run(self@, bytes@, Self::apply_fn());
        let mut cur = Self::default();
        std::mem::swap(&mut cur, self);
        let mut pos: usize = 0;
        assert(bytes@.skip(0) =~= bytes@);
        while pos < bytes.len()
            invariant
                pos <= bytes@.len(),
                total == merge_run(old(self)@, bytes@, Self::apply_fn()),
                merge_run(cur@, bytes@.skip(pos as int), Self::apply_fn()) == total,
            decreases bytes@.len() - pos,
        {
            let ghost s = bytes@.skip(pos as int);
            proof {
                lemma_merge_run_step(cur@, s, Self::apply_fn());
                lemma_parse_field_len(s);
            }
            match read_field(bytes, pos) {
                Ok((f, end)) => {
                    assert(bytes@.skip(end as int) =~= s.skip((end - pos) as int));
                    match cur.applied(&f) {
                        Ok(m) => {
                            cur = m;
                        },
                        Err((m, e)) => {
                            *self = m;
                            return Err(e);
                        },
                    }
                    pos = end;
                },
                Err(e) => {
                    *self = cur;
                    return Err(e);
                },
            }
        }
        assert(bytes@.skip(pos as int) =~= Seq::<u8>::empty());
        proof {
            lemma_merge_run_empty(cur@, Self::apply_fn());
        }
        *self = cur;
        Ok(())
    }

    /// Decodes a message from its encoding.
    pub fn decode(bytes: &[u8]) -> (r: Result<Self, WireError>)
        ensures
            match Self::spec_decode(bytes@) {
                Ok(v) => r matches Ok(m) && m@ == v,
                Err(e) => r matches Err(x) && x == e,
            },
    {
        proof {
            reveal(CMsgClientPICSProductInfoRequest::spec_decode);
        }
        let mut m = Self::default();
        match m.merge(bytes) {
            Ok(()) => Ok(m),
            Err(e) => Err(e),
        }
    }

    /// The encoding of this message.
    pub fn encode_to_vec(&self) -> (r: Vec<u8>)
        ensures
            r@ == Self::spec_encode(self@),
    {
        let enc_packages = crate::steammessages_clientserver_appinfo::c_msg_client_pics_product_info_request::PackageInfo::encode_all(&self.packages);
        let enc_apps = crate::steammessages_clientserver_appinfo::c_msg_client_pics_product_info_request::AppInfo::encode_all(&self.apps);
        let ghost v = self@;
        let mut out: Vec<u8> = Vec::new();
        let ghost p0 = Seq::<SpecField>::empty();
        put_rep_bytes(&mut out, 1, &enc_packages);
        let ghost p1 = p0 + rep_bytes(1, crate::steammessages_clientserver_appinfo::c_msg_client_pics_product_info_request::PackageInfo::spec_encode_all(v.packages));
        proof {
            lemma_fields_bytes_concat(p0, rep_bytes(1, crate::steammessages_clientserver_appinfo::c_msg_client_pics_product_info_request::PackageInfo::spec_encode_all(v.packages)));
        }
        put_rep_bytes(&mut out, 2, &enc_apps);
        let ghost p2 = p1 + rep_bytes(2, crate::steammessages_clientserver_appinfo::c_msg_client_pics_product_info_request::AppInfo::spec_encode_all(v.apps));
        proof {
            lemma_fields_bytes_concat(p1, rep_bytes(2, crate::steammessages_clientserver_appinfo::c_msg_client_pics_product_info_request::AppInfo::spec_encode_all(v.apps)));
        }
        put_opt_bool(&mut out, 3, self.meta_data_only);
        let ghost p3 = p2 + opt_bool(3, v.meta_data_only);
        proof {
            lemma_fields_bytes_concat(p2, opt_bool(3, v.meta_data_only));
        }
        put_opt_u32(&mut out, 4, self.num_prev_failed);
        let ghost p4 = p3 + opt_u32(4, v.num_prev_failed);
        proof {
            lemma_fields_bytes_concat(p3, opt_u32(4, v.num_prev_failed));
        }
        put_opt_u32(&mut out, 5, self.obsolete_supports_package_tokens);
        let ghost p5 = p4 + opt_u32(5, v.obsolete_supports_package_tokens);
        proof {
            lemma_fields_bytes_concat(p4, opt_u32(5, v.obsolete_supports_package_tokens));
        }
        put_opt_u32(&mut out, 6, self.sequence_number);
        let ghost p6 = p5 + opt_u32(6, v.sequence_number);
        proof {
            lemma_fields_bytes_concat(p5, opt_u32(6, v.sequence_number));
        }
        put_opt_bool(&mut out, 7, self.single_response);
        let ghost p7 = p6 + opt_bool(7, v.single_response);
        proof {
            lemma_fields_bytes_concat(p6, opt_bool(7, v.single_response));
        }
        proof {
            reveal(CMsgClientPICSProductInfoRequest::spec_encode);
        }
        assert(p7 == Self::spec_fields(v));
        out
    }

    /// Appends the encoding of this message to `out`.
    pub fn encode_raw(&self, out: &mut Vec<u8>)
        ensures
            final(out)@ == old(out)@ + Self::spec_encode(self@),
    {
        let mut b = self.encode_to_vec();
        out.append(&mut b);
    }

    /// The first `k` fields of `v`, the others as a fresh message has them.
    #[verifier::opaque]
    pub open spec fn spec_prefix(v: SpecCMsgClientPICSProductInfoRequest, k: int) -> SpecCMsgClientPICSProductInfoRequest {
        SpecCMsgClientPICSProductInfoRequest {
            packages: if 1 <= k { v.packages } else { Seq::empty() },
            apps: if 2 <= k { v.apps } else { Seq::empty() },
            meta_data_only: if 3 <= k { v.meta_data_only } else { None },
            num_prev_failed: if 4 <= k { v.num_prev_failed } else { None },
            obsolete_supports_package_tokens: if 5 <= k { v.obsolete_supports_package_tokens } else { None },
            sequence_number: if 6 <= k { v.sequence_number } else { None },
            single_response: if 7 <= k { v.single_response } else { None },
        }
    }

    /// Reading field 1 back, after the fields before it.
    proof fn lemma_field_packages(v: SpecCMsgClientPICSProductInfoRequest)
        requires
            fields_wf(rep_bytes(1, crate::steammessages_clientserver_appinfo::c_msg_client_pics_product_info_request::PackageInfo::spec_encode_all(v.packages))),
        ensures
            fold_fields(Self::spec_prefix(v, 0), rep_bytes(1, crate::steammessages_clientserver_appinfo::c_msg_client_pics_product_info_request::PackageInfo::spec_encode_all(v.packages)), Self::apply_fn())
                == Ok::<SpecCMsgClientPICSProductInfoRequest, WireError>(Self::spec_prefix(v, 1)),
    {
        reveal(CMsgClientPICSProductInfoRequest::spec_prefix);
        reveal(rep_bytes);
        reveal(fields_wf);
        let apply = Self::apply_fn();
        let s = Self::spec_prefix(v, 0);
        let l = rep_bytes(1, crate::steammessages_clientserver_appinfo::c_msg_client_pics_product_info_request::PackageInfo::spec_encode_all(v.packages));
        let xs = v.packages;
        let st = Seq::new((xs.len() + 1) as nat, |j: int| SpecCMsgClientPICSProductInfoRequest { packages: xs.take(j), ..s });
        assert forall|j: int| 0 <= j < l.len() implies #[trigger] apply(st[j], l[j]) == Ok::<SpecCMsgClientPICSProductInfoRequest, WireError>(st[j + 1]) by {
            assert(field_wf(l[j]));
            crate::steammessages_clientserver_appinfo::c_msg_client_pics_product_info_request::PackageInfo::lemma_decode_encode(xs[j]);
            assert(xs.take(j).push(xs[j]) =~= xs.take(j + 1));
        }
        lemma_fold_chain(l, st, apply);
        assert(xs.take(0) =~= Seq::<crate::steammessages_clientserver_appinfo::c_msg_client_pics_product_info_request::SpecPackageInfo>::empty());
        assert(xs.take(xs.len() as int) =~= xs);
        assert(st[0] == s);
        assert(st[xs.len() as int] == Self::spec_prefix(v, 1));
    }

    /// Reading field 2 back, after the fields before it.
    proof fn lemma_field_apps(v: SpecCMsgClientPICSProductInfoRequest)
        requires
            fields_wf(rep_bytes(2, crate::steammessages_clientserver_appinfo::c_msg_client_pics_product_info_request::AppInfo::spec_encode_all(v.apps))),
        ensures
            fold_fields(Self::spec_prefix(v, 1), rep_bytes(2, crate::steammessages_clientserver_appinfo::c_msg_client_pics_product_info_request::AppInfo::spec_encode_all(v.apps)), Self::apply_fn())
                == Ok::<SpecCMsgClientPICSProductInfoRequest, WireError>(Self::spec_prefix(v, 2)),
    {
        reveal(CMsgClientPICSProductInfoRequest::spec_prefix);
        reveal(rep_bytes);
        reveal(fields_wf);
        let apply = Self::apply_fn();
        let s = Self::spec_prefix(v, 1);
        let l = rep_bytes(2, crate::steammessages_clientserver_appinfo::c_msg_client_pics_product_info_request::AppInfo::spec_encode_all(v.apps));
        let xs = v.apps;
        let st = Seq::new((xs.len() + 1) as nat, |j: int| SpecCMsgClientPICSProductInfoRequest { apps: xs.take(j), ..s });
        assert forall|j: int| 0 <= j < l.len() implies #[trigger] apply(st[j], l[j]) == Ok::<SpecCMsgClientPICSProductInfoRequest, WireError>(st[j + 1]) by {
            assert(field_wf(l[j]));
            crate::steammessages_clientserver_appinfo::c_msg_client_pics_product_info_request::AppInfo::lemma_decode_encode(xs[j]);
            assert(xs.take(j).push(xs[j]) =~= xs.take(j + 1));
        }
        lemma_fold_chain(l, st, apply);
        assert(xs.take(0) =~= Seq::<crate::steammessages_clientserver_appinfo::c_msg_client_pics_product_info_request::SpecAppInfo>::empty());
        assert(xs.take(xs.len() as int) =~= xs);
        assert(st[0] == s);
        assert(st[xs.len() as int] == Self::spec_prefix(v, 2));
    }

    /// Reading field 3 back, after the fields before it.
    proof fn lemma_field_meta_data_only(v: SpecCMsgClientPICSProductInfoRequest)
        ensures
            fold_fields(Self::spec_prefix(v, 2), opt_bool(3, v.meta_data_only), Self::apply_fn())
                == Ok::<SpecCMsgClientPICSProductInfoRequest, WireError>(Self::spec_prefix(v, 3)),
    {
        reveal(CMsgClientPICSProductInfoRequest::spec_prefix);
        reveal(opt_bool);
        let apply = Self::apply_fn();
        let s = Self::spec_prefix(v, 2);
        lemma_fold_opt(s, 3, match v.meta_data_only { Some(x) => Some(enc_bool(x)), None => None }, apply);
        assert(SpecCMsgClientPICSProductInfoRequest { meta_data_only: v.meta_data_only, ..s } == Self::spec_prefix(v, 3));
    }

    /// Reading field 4 back, after the fields before it.
    proof fn lemma_field_num_prev_failed(v: SpecCMsgClientPICSProductInfoRequest)
        ensures
            fold_fields(Self::spec_prefix(v, 3), opt_u32(4, v.num_prev_failed), Self::apply_fn())
                == Ok::<SpecCMsgClientPICSProductInfoRequest, WireError>(Self::spec_prefix(v, 4)),
    {
        reveal(CMsgClientPICSProductInfoRequest::spec_prefix);
        reveal(opt_u32);
        let apply = Self::apply_fn();
        let s = Self::spec_prefix(v, 3);
        lemma_fold_opt(s, 4, match v.num_prev_failed { Some(x) => Some(enc_u32(x)), None => None }, apply);
        if let Some(x) = v.num_prev_failed {
            lemma_u32_roundtrip(x);
        }
        assert(SpecCMsgClientPICSProductInfoRequest { num_prev_failed: v.num_prev_failed, ..s } == Self::spec_prefix(v, 4));
    }

    /// Reading field 5 back, after the fields before it.
    proof fn lemma_field_obsolete_supports_package_tokens(v: SpecCMsgClientPICSProductInfoRequest)
        ensures
            fold_fields(Self::spec_prefix(v, 4), opt_u32(5, v.obsolete_supports_package_tokens), Self::apply_fn())
                == Ok::<SpecCMsgClientPICSProductInfoRequest, WireError>(Self::spec_prefix(v, 5)),
    {
        reveal(CMsgClientPICSProductInfoRequest::spec_prefix);
        reveal(opt_u32);
        let apply = Self::apply_fn();
        let s = Self::spec_prefix(v, 4);
        lemma_fold_opt(s, 5, match v.obsolete_supports_package_tokens { Some(x) => Some(enc_u32(x)), None => None }, apply);
        if let Some(x) = v.obsolete_supports_package_tokens {
            lemma_u32_roundtrip(x);
        }
        assert(SpecCMsgClientPICSProductInfoRequest { obsolete_supports_package_tokens: v.obsolete_supports_package_tokens, ..s } == Self::spec_prefix(v, 5));
    }

    /// Reading field 6 back, after the fields before it.
    proof fn lemma_field_sequence_number(v: SpecCMsgClientPICSProductInfoRequest)
        ensures
            fold_fields(Self::spec_prefix(v, 5), opt_u32(6, v.sequence_number), Self::apply_fn())
                == Ok::<SpecCMsgClientPICSProductInfoRequest, WireError>(Self::spec_prefix(v, 6)),
    {
        reveal(CMsgClientPICSProductInfoRequest::spec_prefix);
        reveal(opt_u32);
        let apply = Self::apply_fn();
        let s = Self::spec_prefix(v, 5);
        lemma_fold_opt(s, 6, match v.sequence_number { Some(x) => Some(enc_u32(x)), None => None }, apply);
        if let Some(x) = v.sequence_number {
            lemma_u32_roundtrip(x);
        }
        assert(SpecCMsgClientPICSProductInfoRequest { sequence_number: v.sequence_number, ..s } == Self::spec_prefix(v, 6));
    }

    /// Reading field 7 back, after the fields before it.
    proof fn lemma_field_single_response(v: SpecCMsgClientPICSProductInfoRequest)
        ensures
            fold_fields(Self::spec_prefix(v, 6), opt_bool(7, v.single_response), Self::apply_fn())
                == Ok::<SpecCMsgClientPICSProductInfoRequest, WireError>(Self::spec_prefix(v, 7)),
    {
        reveal(CMsgClientPICSProductInfoRequest::spec_prefix);
        reveal(opt_bool);
        let apply = Self::apply_fn();
        let s = Self::spec_prefix(v, 6);
        lemma_fold_opt(s, 7, match v.single_response { Some(x) => Some(enc_bool(x)), None => None }, apply);
        assert(SpecCMsgClientPICSProductInfoRequest { single_response: v.single_response, ..s } == Self::spec_prefix(v, 7));
    }

    /// Whether this message declares field number `n`.
    pub open spec fn declares(n: u32) -> bool {
        n == 1 || n == 2 || n == 3 || n == 4 || n == 5 || n == 6 || n == 7
    }

    /// A record with a number this message does not declare is passed over: well-formed
    /// bytes decode to the same message with such a record after them as without it.
    pub proof fn lemma_unknown_field(bytes: Seq<u8>, f: SpecField)
        requires
            parse_fields(bytes) is Ok,
            field_wf(f),
            !Self::declares(f.number),
        ensures
            Self::spec_decode(bytes + field_bytes(f)) == Self::spec_decode(bytes),
    {
        reveal(CMsgClientPICSProductInfoRequest::spec_decode);
        lemma_parse_fields_append(bytes, f);
        let fs = parse_fields(bytes).unwrap();
        let apply = Self::apply_fn();
        lemma_fold_concat(Self::spec_default(), fs, seq![f], apply);
        assert(fs.push(f) =~= fs + seq![f]);
        if let Ok(w) = fold_fields(Self::spec_default(), fs, apply) {
            lemma_fold_single(w, f, apply);
        }
        lemma_merge_run_fold(Self::spec_default(), bytes, apply);
        lemma_merge_run_fold(Self::spec_default(), bytes + field_bytes(f), apply);
    }

    /// Decoding the encoding of a message gives the message back.
    pub proof fn lemma_decode_encode(v: SpecCMsgClientPICSProductInfoRequest)
        requires
            Self::spec_encode(v).len() <= u64::MAX,
        ensures
            Self::spec_decode(Self::spec_encode(v)) == Ok::<SpecCMsgClientPICSProductInfoRequest, WireError>(v),
    {
        let apply = Self::apply_fn();
        let d = Self::spec_default();
        let p0 = Seq::<SpecField>::empty();
        let l1 = rep_bytes(1, crate::steammessages_clientserver_appinfo::c_msg_client_pics_product_info_request::PackageInfo::spec_encode_all(v.packages));
        let p1 = p0 + l1;
        let l2 = rep_bytes(2, crate::steammessages_clientserver_appinfo::c_msg_client_pics_product_info_request::AppInfo::spec_encode_all(v.apps));
        let p2 = p1 + l2;
        let l3 = opt_bool(3, v.meta_data_only);
        let p3 = p2 + l3;
        let l4 = opt_u32(4, v.num_prev_failed);
        let p4 = p3 + l4;
        let l5 = opt_u32(5, v.obsolete_supports_package_tokens);
        let p5 = p4 + l5;
        let l6 = opt_u32(6, v.sequence_number);
        let p6 = p5 + l6;
        let l7 = opt_bool(7, v.single_response);
        let p7 = p6 + l7;
        assert(parse_fields(Self::spec_encode(v)) == Ok::<Seq<SpecField>, WireError>(p7) && fields_wf(l1) && fields_wf(l2)) by {
            reveal(CMsgClientPICSProductInfoRequest::spec_encode);
            assert(numbers_ok(p0) && fields_wf(p0)) by {
                reveal(numbers_ok);
                reveal(fields_wf);
            }
            lemma_rep_bytes_numbered(1, crate::steammessages_clientserver_appinfo::c_msg_client_pics_product_info_request::PackageInfo::spec_encode_all(v.packages));
            lemma_fields_wf_concat(p0, l1);
            lemma_rep_bytes_numbered(2, crate::steammessages_clientserver_appinfo::c_msg_client_pics_product_info_request::AppInfo::spec_encode_all(v.apps));
            lemma_fields_wf_concat(p1, l2);
            lemma_opt_bool_numbered(3, v.meta_data_only);
            lemma_fields_wf_concat(p2, l3);
            lemma_opt_u32_numbered(4, v.num_prev_failed);
            lemma_fields_wf_concat(p3, l4);
            lemma_opt_u32_numbered(5, v.obsolete_supports_package_tokens);
            lemma_fields_wf_concat(p4, l5);
            lemma_opt_u32_numbered(6, v.sequence_number);
            lemma_fields_wf_concat(p5, l6);
            lemma_opt_bool_numbered(7, v.single_response);
            lemma_fields_wf_concat(p6, l7);
            assert(p7 == Self::spec_fields(v));
            lemma_fields_wf_from_len(p7);
            lemma_fields_roundtrip(p7);
        }
        assert(Self::spec_prefix(v, 0) == d) by {
            reveal(CMsgClientPICSProductInfoRequest::spec_prefix);
        }
        lemma_fold_empty(d, apply);
        lemma_fold_concat(d, p0, l1, apply);
        Self::lemma_field_packages(v);
        lemma_fold_concat(d, p1, l2, apply);
        Self::lemma_field_apps(v);
        lemma_fold_concat(d, p2, l3, apply);
        Self::lemma_field_meta_data_only(v);
        lemma_fold_concat(d, p3, l4, apply);
        Self::lemma_field_num_prev_failed(v);
        lemma_fold_concat(d, p4, l5, apply);
        Self::lemma_field_obsolete_supports_package_tokens(v);
        lemma_fold_concat(d, p5, l6, apply);
        Self::lemma_field_sequence_number(v);
        lemma_fold_concat(d, p6, l7, apply);
        Self::lemma_field_single_response(v);
        assert(Self::spec_prefix(v, 7) == v) by {
            reveal(CMsgClientPICSProductInfoRequest::spec_prefix);
        }
        lemma_merge_run_fold(d, Self::spec_encode(v), apply);
        assert(Self::spec_decode(Self::spec_encode(v)) == Ok::<SpecCMsgClientPICSProductInfoRequest, WireError>(v)) by {
            reveal(CMsgClientPICSProductInfoRequest::spec_decode);
        }
    }
}

/// `CMsgClientPICSProductInfoResponse`, as Valve's schema declares it.
#[derive(Debug, Clone, PartialEq)]
pub struct CMsgClientPICSProductInfoResponse {
    /// Field 1.
    pub apps: Vec<crate::steammessages_clientserver_appinfo::c_msg_client_pics_product_info_response::AppInfo>,
    /// Field 2.
    pub unknown_appids: Vec<u32>,
    /// Field 3.
    pub packages: Vec<crate::steammessages_clientserver_appinfo::c_msg_client_pics_product_info_response::PackageInfo>,
    /// Field 4.
    pub unknown_packageids: Vec<u32>,
    /// Field 5.
    pub meta_data_only: Option<bool>,
    /// Field 6.
    pub response_pending: Option<bool>,
    /// Field 7.
    pub http_min_size: Option<u32>,
    /// Field 8.
    pub http_host: Option<String>,
}

/// What a `CMsgClientPICSProductInfoResponse` holds, as mathematical values.
#[verifier::ext_equal]
pub struct SpecCMsgClientPICSProductInfoResponse {
    pub apps: Seq<crate::steammessages_clientserver_appinfo::c_msg_client_pics_product_info_response::SpecAppInfo>,
    pub unknown_appids: Seq<u32>,
    pub packages: Seq<crate::steammessages_clientserver_appinfo::c_msg_client_pics_product_info_response::SpecPackageInfo>,
    pub unknown_packageids: Seq<u32>,
    pub meta_data_only: Option<bool>,
    pub response_pending: Option<bool>,
    pub http_min_size: Option<u32>,
    pub http_host: Option<Seq<char>>,
}

impl View for CMsgClientPICSProductInfoResponse {
    type V = SpecCMsgClientPICSProductInfoResponse;

    open spec fn view(&self) -> SpecCMsgClientPICSProductInfoResponse {
        SpecCMsgClientPICSProductInfoResponse {
            apps: crate::steammessages_clientserver_appinfo::c_msg_client_pics_product_info_response::AppInfo::view_all(self.apps@),
            unknown_appids: self.unknown_appids@,
            packages: crate::steammessages_clientserver_appinfo::c_msg_client_pics_product_info_response::PackageInfo::view_all(self.packages@),
            unknown_packageids: self.unknown_packageids@,
            meta_data_only: self.meta_data_only,
            response_pending: self.response_pending,
            http_min_size: self.http_min_size,
            http_host: opt_string_view(self.http_host),
        }
    }
}

impl Default for CMsgClientPICSProductInfoResponse {
    fn default() -> (r: Self)
        ensures
            r@ == CMsgClientPICSProductInfoResponse::spec_default(),
    {
        CMsgClientPICSProductInfoResponse {
            apps: Vec::new(),
            unknown_appids: Vec::new(),
            packages: Vec::new(),
            unknown_packageids: Vec::new(),
            meta_data_only: None,
            response_pending: None,
            http_min_size: None,
            http_host: None,
        }
    }
}

impl CMsgClientPICSProductInfoResponse {
    pub open spec fn spec_default() -> SpecCMsgClientPICSProductInfoResponse {
        SpecCMsgClientPICSProductInfoResponse {
            apps: Seq::empty(),
            unknown_appids: Seq::empty(),
            packages: Seq::empty(),
            unknown_packageids: Seq::empty(),
            meta_data_only: None,
            response_pending: None,
            http_min_size: None,
            http_host: None,
        }
    }

    /// The records a `CMsgClientPICSProductInfoResponse` is written as, in field order.
    pub open spec fn spec_fields(v: SpecCMsgClientPICSProductInfoResponse) -> Seq<SpecField> {
        Seq::<SpecField>::empty()
            + rep_bytes(1, crate::steammessages_clientserver_appinfo::c_msg_client_pics_product_info_response::AppInfo::spec_encode_all(v.apps))
            + rep_u32(2, v.unknown_appids)
            + rep_bytes(3, crate::steammessages_clientserver_appinfo::c_msg_client_pics_product_info_response::PackageInfo::spec_encode_all(v.packages))
            + rep_u32(4, v.unknown_packageids)
            + opt_bool(5, v.meta_data_only)
            + opt_bool(6, v.response_pending)
            + opt_u32(7, v.http_min_size)
            + opt_string(8, v.http_host)
    }

    #[verifier::opaque]
    pub open spec fn spec_encode(v: SpecCMsgClientPICSProductInfoResponse) -> Seq<u8> {
        fields_bytes(Self::spec_fields(v))
    }

    /// What one record does to the message: a declared number sets or extends its
    /// field, any other number is left alone.
    pub open spec fn spec_apply(v: SpecCMsgClientPICSProductInfoResponse, f: SpecField) -> Result<SpecCMsgClientPICSProductInfoResponse, WireError> {
        match f.number {
            1 => match dec_bytes(f.value) {
                Ok(b) => match crate::steammessages_clientserver_appinfo::c_msg_client_pics_product_info_response::AppInfo::spec_decode(b) {
                    Ok(m) => Ok(SpecCMsgClientPICSProductInfoResponse { apps: v.apps.push(m), ..v }),
                    Err(e) => Err(e),
                },
                Err(e) => Err(e),
            },
            2 => match dec_packed_u32(f.value) {
                Ok(xs) => Ok(SpecCMsgClientPICSProductInfoResponse { unknown_appids: v.unknown_appids + xs, ..v }),
                Err(e) => Err(e),
            },
            3 => match dec_bytes(f.value) {
                Ok(b) => match crate::steammessages_clientserver_appinfo::c_msg_client_pics_product_info_response::PackageInfo::spec_decode(b) {
                    Ok(m) => Ok(SpecCMsgClientPICSProductInfoResponse { packages: v.packages.push(m), ..v }),
                    Err(e) => Err(e),
                },
                Err(e) => Err(e),
            },
            4 => match dec_packed_u32(f.value) {
                Ok(xs) => Ok(SpecCMsgClientPICSProductInfoResponse { unknown_packageids: v.unknown_packageids + xs, ..v }),
                Err(e) => Err(e),
            },
            5 => match dec_bool(f.value) {
                Ok(x) => Ok(SpecCMsgClientPICSProductInfoResponse { meta_data_only: Some(x), ..v }),
                Err(e) => Err(e),
            },
            6 => match dec_bool(f.value) {
                Ok(x) => Ok(SpecCMsgClientPICSProductInfoResponse { response_pending: Some(x), ..v }),
                Err(e) => Err(e),
            },
            7 => match dec_u32(f.value) {
                Ok(x) => Ok(SpecCMsgClientPICSProductInfoResponse { http_min_size: Some(x), ..v }),
                Err(e) => Err(e),
            },
            8 => match dec_string(f.value) {
                Ok(x) => Ok(SpecCMsgClientPICSProductInfoResponse { http_host: Some(x), ..v }),
                Err(e) => Err(e),
            },
            _ => Ok(v),
        }
    }

    pub open spec fn apply_fn() -> spec_fn(SpecCMsgClientPICSProductInfoResponse, SpecField) -> Result<SpecCMsgClientPICSProductInfoResponse, WireError> {
        |v: SpecCMsgClientPICSProductInfoResponse, f: SpecField| Self::spec_apply(v, f)
    }

    /// The message `bytes` makes of `v`: its records applied in order, or the error
    /// that stops the reading.
    pub open spec fn spec_merge(v: SpecCMsgClientPICSProductInfoResponse, bytes: Seq<u8>) -> Result<SpecCMsgClientPICSProductInfoResponse, WireError> {
        let (w, stop) = merge_run(v, bytes, Self::apply_fn());
        match stop {
            None => Ok(w),
            Some(e) => Err(e),
        }
    }

    #[verifier::opaque]
    pub open spec fn spec_decode(bytes: Seq<u8>) -> Result<SpecCMsgClientPICSProductInfoResponse, WireError> {
        Self::spec_merge(Self::spec_default(), bytes)
    }

    /// This message with one record applied to it, or, when the record is refused,
    /// the message unchanged and the reason.
    fn applied(self, f: &Field) -> (r: Result<Self, (Self, WireError)>)
        ensures
            match Self::spec_apply(self@, f@) {
                Ok(v) => r matches Ok(m) && m@ == v,
                Err(e) => r matches Err((m, x)) && x == e && m@ == self@,
            },
    {
        match f.number {
            1 => match read_payload(&f.value) {
                Ok(b) => match crate::steammessages_clientserver_appinfo::c_msg_client_pics_product_info_response::AppInfo::decode(b) {
                    Ok(x) => {
                        let mut m = self;
                        let ghost before = m.apps@;
                        m.apps.push(x);
                        assert(crate::steammessages_clientserver_appinfo::c_msg_client_pics_product_info_response::AppInfo::view_all(m.apps@) =~= crate::steammessages_clientserver_appinfo::c_msg_client_pics_product_info_response::AppInfo::view_all(before).push(x@));
                        Ok(m)
                    },
                    Err(e) => Err((self, e)),
                },
                Err(e) => Err((self, e)),
            },
            2 => match read_packed_u32(&f.value) {
                Ok(xs) => {
                    let mut m = self;
                    let mut xs = xs;
                    m.unknown_appids.append(&mut xs);
                    Ok(m)
                },
                Err(e) => Err((self, e)),
            },
            3 => match read_payload(&f.value) {
                Ok(b) => match crate::steammessages_clientserver_appinfo::c_msg_client_pics_product_info_response::PackageInfo::decode(b) {
                    Ok(x) => {
                        let mut m = self;
                        let ghost before = m.packages@;
                        m.packages.push(x);
                        assert(crate::steammessages_clientserver_appinfo::c_msg_client_pics_product_info_response::PackageInfo::view_all(m.packages@) =~= crate::steammessages_clientserver_appinfo::c_msg_client_pics_product_info_response::PackageInfo::view_all(before).push(x@));
                        Ok(m)
                    },
                    Err(e) => Err((self, e)),
                },
                Err(e) => Err((self, e)),
            },
            4 => match read_packed_u32(&f.value) {
                Ok(xs) => {
                    let mut m = self;
                    let mut xs = xs;
                    m.unknown_packageids.append(&mut xs);
                    Ok(m)
                },
                Err(e) => Err((self, e)),
            },
            5 => match read_bool(&f.value) {
                Ok(x) => Ok(Self { meta_data_only: Some(x), ..self }),
                Err(e) => Err((self, e)),
            },
            6 => match read_bool(&f.value) {
                Ok(x) => Ok(Self { response_pending: Some(x), ..self }),
                Err(e) => Err((self, e)),
            },
            7 => match read_u32(&f.value) {
                Ok(x) => Ok(Self { http_min_size: Some(x), ..self }),
                Err(e) => Err((self, e)),
            },
            8 => match read_string(&f.value) {
                Ok(x) => Ok(Self { http_host: Some(x), ..self }),
                Err(e) => Err((self, e)),
            },
            _ => Ok(self),
        }
    }

    /// Reads the records `bytes` holds into this message, in order. When a record does
    /// not parse or is refused, the reading stops there: the message keeps what the
    /// records before it gave, and the error is returned.
    pub fn merge(&mut self, bytes: &[u8]) -> (r: Result<(), WireError>)
        ensures
            final(self)@ == merge_run(old(self)@, bytes@, Self::apply_fn()).0,
            r == match merge_run(old(self)@, bytes@, Self::apply_fn()).1 {
                None => Ok::<(), WireError>(()),
                Some(e) => Err::<(), WireError>(e),
            },
    {
        let ghost total = merge_run(self@, bytes@, Self::apply_fn());
        let mut cur = Self::default();
        std::mem::swap(&mut cur, self);
        let mut pos: usize = 0;
        assert(bytes@.skip(0) =~= bytes@);
        while pos < bytes.len()
            invariant
                pos <= bytes@.len(),
                total == merge_run(old(self)@, bytes@, Self::apply_fn()),
                merge_run(cur@, bytes@.skip(pos as int), Self::apply_fn()) == total,
            decreases bytes@.len() - pos,
        {
            let ghost s = bytes@.skip(pos as int);
            proof {
                lemma_merge_run_step(cur@, s, Self::apply_fn());
                lemma_parse_field_len(s);
            }
            match read_field(bytes, pos) {
                Ok((f, end)) => {
                    assert(bytes@.skip(end as int) =~= s.skip((end - pos) as int));
                    match cur.applied(&f) {
                        Ok(m) => {
                            cur = m;
                        },
                        Err((m, e)) => {
                            *self = m;
                            return Err(e);
                        },
                    }
                    pos = end;
                },
                Err(e) => {
                    *self = cur;
                    return Err(e);
                },
            }
        }
        assert(bytes@.skip(pos as int) =~= Seq::<u8>::empty());
        proof {
            lemma_merge_run_empty(cur@, Self::apply_fn());
        }
        *self = cur;
        Ok(())
    }

    /// Decodes a message from its encoding.
    pub fn decode(bytes: &[u8]) -> (r: Result<Self, WireError>)
        ensures
            match Self::spec_decode(bytes@) {
                Ok(v) => r matches Ok(m) && m@ == v,
                Err(e) => r matches Err(x) && x == e,
            },
    {
        proof {
            reveal(CMsgClientPICSProductInfoResponse::spec_decode);
        }
        let mut m = Self::default();
        match m.merge(bytes) {
            Ok(()) => Ok(m),
            Err(e) => Err(e),
        }
    }

    /// The encoding of this message.
    pub fn encode_to_vec(&self) -> (r: Vec<u8>)
        ensures
            r@ == Self::spec_encode(self@),
    {
        let enc_apps = crate::steammessages_clientserver_appinfo::c_msg_client_pics_product_info_response::AppInfo::encode_all(&self.apps);
        let enc_packages = crate::steammessages_clientserver_appinfo::c_msg_client_pics_product_info_response::PackageInfo::encode_all(&self.packages);
        let ghost v = self@;
        let mut out: Vec<u8> = Vec::new();
        let ghost p0 = Seq::<SpecField>::empty();
        put_rep_bytes(&mut out, 1, &enc_apps);
        let ghost p1 = p0 + rep_bytes(1, crate::steammessages_clientserver_appinfo::c_msg_client_pics_product_info_response::AppInfo::spec_encode_all(v.apps));
        proof {
            lemma_fields_bytes_concat(p0, rep_bytes(1, crate::steammessages_clientserver_appinfo::c_msg_client_pics_product_info_response::AppInfo::spec_encode_all(v.apps)));
        }
        put_rep_u32(&mut out, 2, &self.unknown_appids);
        let ghost p2 = p1 + rep_u32(2, v.unknown_appids);
        proof {
            lemma_fields_bytes_concat(p1, rep_u32(2, v.unknown_appids));
        }
        put_rep_bytes(&mut out, 3, &enc_packages);
        let ghost p3 = p2 + rep_bytes(3, crate::steammessages_clientserver_appinfo::c_msg_client_pics_product_info_response::PackageInfo::spec_encode_all(v.packages));
        proof {
            lemma_fields_bytes_concat(p2, rep_bytes(3, crate::steammessages_clientserver_appinfo::c_msg_client_pics_product_info_response::PackageInfo::spec_encode_all(v.packages)));
        }
        put_rep_u32(&mut out, 4, &self.unknown_packageids);
        let ghost p4 = p3 + rep_u32(4, v.unknown_packageids);
        proof {
            lemma_fields_bytes_concat(p3, rep_u32(4, v.unknown_packageids));
        }
        put_opt_bool(&mut out, 5, self.meta_data_only);
        let ghost p5 = p4 + opt_bool(5, v.meta_data_only);
        proof {
            lemma_fields_bytes_concat(p4, opt_bool(5, v.meta_data_only));
        }
        put_opt_bool(&mut out, 6, self.response_pending);
        let ghost p6 = p5 + opt_bool(6, v.response_pending);
        proof {
            lemma_fields_bytes_concat(p5, opt_bool(6, v.response_pending));
        }
        put_opt_u32(&mut out, 7, self.http_min_size);
        let ghost p7 = p6 + opt_u32(7, v.http_min_size);
        proof {
            lemma_fields_bytes_concat(p6, opt_u32(7, v.http_min_size));
        }
        put_opt_string(&mut out, 8, &self.http_host);
        let ghost p8 = p7 + opt_string(8, v.http_host);
        proof {
            lemma_fields_bytes_concat(p7, opt_string(8, v.http_host));
        }
        proof {
            reveal(CMsgClientPICSProductInfoResponse::spec_encode);
        }
        assert(p8 == Self::spec_fields(v));
        out
    }

    /// Appends the encoding of this message to `out`.
    pub fn encode_raw(&self, out: &mut Vec<u8>)
        ensures
            final(out)@ == old(out)@ + Self::spec_encode(self@),
    {
        let mut b = self.encode_to_vec();
        out.append(&mut b);
    }

    /// The first `k` fields of `v`, the others as a fresh message has them.
    #[verifier::opaque]
    pub open spec fn spec_prefix(v: SpecCMsgClientPICSProductInfoResponse, k: int) -> SpecCMsgClientPICSProductInfoResponse {
        SpecCMsgClientPICSProductInfoResponse {
            apps: if 1 <= k { v.apps } else { Seq::empty() },
            unknown_appids: if 2 <= k { v.unknown_appids } else { Seq::empty() },
            packages: if 3 <= k { v.packages } else { Seq::empty() },
            unknown_packageids: if 4 <= k { v.unknown_packageids } else { Seq::empty() },
            meta_data_only: if 5 <= k { v.meta_data_only } else { None },
            response_pending: if 6 <= k { v.response_pending } else { None },
            http_min_size: if 7 <= k { v.http_min_size } else { None },
            http_host: if 8 <= k { v.http_host } else { None },
        }
    }

    /// Reading field 1 back, after the fields before it.
    proof fn lemma_field_apps(v: SpecCMsgClientPICSProductInfoResponse)
        requires
            fields_wf(rep_bytes(1, crate::steammessages_clientserver_appinfo::c_msg_client_pics_product_info_response::AppInfo::spec_encode_all(v.apps))),
        ensures
            fold_fields(Self::spec_prefix(v, 0), rep_bytes(1, crate::steammessages_clientserver_appinfo::c_msg_client_pics_product_info_response::AppInfo::spec_encode_all(v.apps)), Self::apply_fn())
                == Ok::<SpecCMsgClientPICSProductInfoResponse, WireError>(Self::spec_prefix(v, 1)),
    {
        reveal(CMsgClientPICSProductInfoResponse::spec_prefix);
        reveal(rep_bytes);
        reveal(fields_wf);
        let apply = Self::apply_fn();
        let s = Self::spec_prefix(v, 0);
        let l = rep_bytes(1, crate::steammessages_clientserver_appinfo::c_msg_client_pics_product_info_response::AppInfo::spec_encode_all(v.apps));
        let xs = v.apps;
        let st = Seq::new((xs.len() + 1) as nat, |j: int| SpecCMsgClientPICSProductInfoResponse { apps: xs.take(j), ..s });
        assert forall|j: int| 0 <= j < l.len() implies #[trigger] apply(st[j], l[j]) == Ok::<SpecCMsgClientPICSProductInfoResponse, WireError>(st[j + 1]) by {
            assert(field_wf(l[j]));
            crate::steammessages_clientserver_appinfo::c_msg_client_pics_product_info_response::AppInfo::lemma_decode_encode(xs[j]);
            assert(xs.take(j).push(xs[j]) =~= xs.take(j + 1));
        }
        lemma_fold_chain(l, st, apply);
        assert(xs.take(0) =~= Seq::<crate::steammessages_clientserver_appinfo::c_msg_client_pics_product_info_response::SpecAppInfo>::empty());
        assert(xs.take(xs.len() as int) =~= xs);
        assert(st[0] == s);
        assert(st[xs.len() as int] == Self::spec_prefix(v, 1));
    }

    /// Reading field 2 back, after the fields before it.
    proof fn lemma_field_unknown_appids(v: SpecCMsgClientPICSProductInfoResponse)
        ensures
            fold_fields(Self::spec_prefix(v, 1), rep_u32(2, v.unknown_appids), Self::apply_fn())
                == Ok::<SpecCMsgClientPICSProductInfoResponse, WireError>(Self::spec_prefix(v, 2)),
    {
        reveal(CMsgClientPICSProductInfoResponse::spec_prefix);
        reveal(rep_u32);
        let apply = Self::apply_fn();
        let s = Self::spec_prefix(v, 1);
        let l = rep_u32(2, v.unknown_appids);
        let xs = v.unknown_appids;
        let st = Seq::new((xs.len() + 1) as nat, |j: int| SpecCMsgClientPICSProductInfoResponse { unknown_appids: xs.take(j), ..s });
        assert forall|j: int| 0 <= j < l.len() implies #[trigger] apply(st[j], l[j]) == Ok::<SpecCMsgClientPICSProductInfoResponse, WireError>(st[j + 1]) by {
            lemma_u32_roundtrip(xs[j]);
            assert(xs.take(j) + seq![xs[j]] =~= xs.take(j + 1));
        }
        lemma_fold_chain(l, st, apply);
        assert(xs.take(0) =~= Seq::<u32>::empty());
        assert(xs.take(xs.len() as int) =~= xs);
        assert(st[0] == s);
        assert(st[xs.len() as int] == Self::spec_prefix(v, 2));
    }

    /// Reading field 3 back, after the fields before it.
    proof fn lemma_field_packages(v: SpecCMsgClientPICSProductInfoResponse)
        requires
            fields_wf(rep_bytes(3, crate::steammessages_clientserver_appinfo::c_msg_client_pics_product_info_response::PackageInfo::spec_encode_all(v.packages))),
        ensures
            fold_fields(Self::spec_prefix(v, 2), rep_bytes(3, crate::steammessages_clientserver_appinfo::c_msg_client_pics_product_info_response::PackageInfo::spec_encode_all(v.packages)), Self::apply_fn())
                == Ok::<SpecCMsgClientPICSProductInfoResponse, WireError>(Self::spec_prefix(v, 3)),
    {
        reveal(CMsgClientPICSProductInfoResponse::spec_prefix);
        reveal(rep_bytes);
        reveal(fields_wf);
        let apply = Self::apply_fn();
        let s = Self::spec_prefix(v, 2);
        let l = rep_bytes(3, crate::steammessages_clientserver_appinfo::c_msg_client_pics_product_info_response::PackageInfo::spec_encode_all(v.packages));
        let xs = v.packages;
        let st = Seq::new((xs.len() + 1) as nat, |j: int| SpecCMsgClientPICSProductInfoResponse { packages: xs.take(j), ..s });
        assert forall|j: int| 0 <= j < l.len() implies #[trigger] apply(st[j], l[j]) == Ok::<SpecCMsgClientPICSProductInfoResponse, WireError>(st[j + 1]) by {
            assert(field_wf(l[j]));
            crate::steammessages_clientserver_appinfo::c_msg_client_pics_product_info_response::PackageInfo::lemma_decode_encode(xs[j]);
            assert(xs.take(j).push(xs[j]) =~= xs.take(j + 1));
        }
        lemma_fold_chain(l, st, apply);
        assert(xs.take(0) =~= Seq::<crate::steammessages_clientserver_appinfo::c_msg_client_pics_product_info_response::SpecPackageInfo>::empty());
        assert(xs.take(xs.len() as int) =~= xs);
        assert(st[0] == s);
        assert(st[xs.len() as int] == Self::spec_prefix(v, 3));
    }

    /// Reading field 4 back, after the fields before it.
    proof fn lemma_field_unknown_packageids(v: SpecCMsgClientPICSProductInfoResponse)
        ensures
            fold_fields(Self::spec_prefix(v, 3), rep_u32(4, v.unknown_packageids), Self::apply_fn())
                == Ok::<SpecCMsgClientPICSProductInfoResponse, WireError>(Self::spec_prefix(v, 4)),
    {
        reveal(CMsgClientPICSProductInfoResponse::spec_prefix);
        reveal(rep_u32);
        let apply = Self::apply_fn();
        let s = Self::spec_prefix(v, 3);
        let l = rep_u32(4, v.unknown_packageids);
        let xs = v.unknown_packageids;
        let st = Seq::new((xs.len() + 1) as nat, |j: int| SpecCMsgClientPICSProductInfoResponse { unknown_packageids: xs.take(j), ..s });
        assert forall|j: int| 0 <= j < l.len() implies #[trigger] apply(st[j], l[j]) == Ok::<SpecCMsgClientPICSProductInfoResponse, WireError>(st[j + 1]) by {
            lemma_u32_roundtrip(xs[j]);
            assert(xs.take(j) + seq![xs[j]] =~= xs.take(j + 1));
        }
        lemma_fold_chain(l, st, apply);
        assert(xs.take(0) =~= Seq::<u32>::empty());
        assert(xs.take(xs.len() as int) =~= xs);
        assert(st[0] == s);
        assert(st[xs.len() as int] == Self::spec_prefix(v, 4));
    }

    /// Reading field 5 back, after the fields before it.
    proof fn lemma_field_meta_data_only(v: SpecCMsgClientPICSProductInfoResponse)
        ensures
            fold_fields(Self::spec_prefix(v, 4), opt_bool(5, v.meta_data_only), Self::apply_fn())
                == Ok::<SpecCMsgClientPICSProductInfoResponse, WireError>(Self::spec_prefix(v, 5)),
    {
        reveal(CMsgClientPICSProductInfoResponse::spec_prefix);
        reveal(opt_bool);
        let apply = Self::apply_fn();
        let s = Self::spec_prefix(v, 4);
        lemma_fold_opt(s, 5, match v.meta_data_only { Some(x) => Some(enc_bool(x)), None => None }, apply);
        assert(SpecCMsgClientPICSProductInfoResponse { meta_data_only: v.meta_data_only, ..s } == Self::spec_prefix(v, 5));
    }

    /// Reading field 6 back, after the fields before it.
    proof fn lemma_field_response_pending(v: SpecCMsgClientPICSProductInfoResponse)
        ensures
            fold_fields(Self::spec_prefix(v, 5), opt_bool(6, v.response_pending), Self::apply_fn())
                == Ok::<SpecCMsgClientPICSProductInfoResponse, WireError>(Self::spec_prefix(v, 6)),
    {
        reveal(CMsgClientPICSProductInfoResponse::spec_prefix);
        reveal(opt_bool);
        let apply = Self::apply_fn();
        let s = Self::spec_prefix(v, 5);
        lemma_fold_opt(s, 6, match v.response_pending { Some(x) => Some(enc_bool(x)), None => None }, apply);
        assert(SpecCMsgClientPICSProductInfoResponse { response_pending: v.response_pending, ..s } == Self::spec_prefix(v, 6));
    }

    /// Reading field 7 back, after the fields before it.
    proof fn lemma_field_http_min_size(v: SpecCMsgClientPICSProductInfoResponse)
        ensures
            fold_fields(Self::spec_prefix(v, 6), opt_u32(7, v.http_min_size), Self::apply_fn())
                == Ok::<SpecCMsgClientPICSProductInfoResponse, WireError>(Self::spec_prefix(v, 7)),
    {
        reveal(CMsgClientPICSProductInfoResponse::spec_prefix);
        reveal(opt_u32);
        let apply = Self::apply_fn();
        let s = Self::spec_prefix(v, 6);
        lemma_fold_opt(s, 7, match v.http_min_size { Some(x) => Some(enc_u32(x)), None => None }, apply);
        if let Some(x) = v.http_min_size {
            lemma_u32_roundtrip(x);
        }
        assert(SpecCMsgClientPICSProductInfoResponse { http_min_size: v.http_min_size, ..s } == Self::spec_prefix(v, 7));
    }

    /// Reading field 8 back, after the fields before it.
    proof fn lemma_field_http_host(v: SpecCMsgClientPICSProductInfoResponse)
        ensures
            fold_fields(Self::spec_prefix(v, 7), opt_string(8, v.http_host), Self::apply_fn())
                == Ok::<SpecCMsgClientPICSProductInfoResponse, WireError>(Self::spec_prefix(v, 8)),
    {
        reveal(CMsgClientPICSProductInfoResponse::spec_prefix);
        reveal(opt_string);
        let apply = Self::apply_fn();
        let s = Self::spec_prefix(v, 7);
        lemma_fold_opt(s, 8, match v.http_host { Some(x) => Some(enc_string(x)), None => None }, apply);
        if let Some(x) = v.http_host {
            lemma_string_roundtrip(x);
        }
        assert(SpecCMsgClientPICSProductInfoResponse { http_host: v.http_host, ..s } == Self::spec_prefix(v, 8));
    }

    /// Whether this message declares field number `n`.
    pub open spec fn declares(n: u32) -> bool {
        n == 1 || n == 2 || n == 3 || n == 4 || n == 5 || n == 6 || n == 7 || n == 8
    }

    /// A record with a number this message does not declare is passed over: well-formed
    /// bytes decode to the same message with such a record after them as without it.
    pub proof fn lemma_unknown_field(bytes: Seq<u8>, f: SpecField)
        requires
            parse_fields(bytes) is Ok,
            field_wf(f),
            !Self::declares(f.number),
        ensures
            Self::spec_decode(bytes + field_bytes(f)) == Self::spec_decode(bytes),
    {
        reveal(CMsgClientPICSProductInfoResponse::spec_decode);
        lemma_parse_fields_append(bytes, f);
        let fs = parse_fields(bytes).unwrap();
        let apply = Self::apply_fn();
        lemma_fold_concat(Self::spec_default(), fs, seq![f], apply);
        assert(fs.push(f) =~= fs + seq![f]);
        if let Ok(w) = fold_fields(Self::spec_default(), fs, apply) {
            lemma_fold_single(w, f, apply);
        }
        lemma_merge_run_fold(Self::spec_default(), bytes, apply);
        lemma_merge_run_fold(Self::spec_default(), bytes + field_bytes(f), apply);
    }

    /// Decoding the encoding of a message gives the message back.
    pub proof fn lemma_decode_encode(v: SpecCMsgClientPICSProductInfoResponse)
        requires
            Self::spec_encode(v).len() <= u64::MAX,
        ensures
            Self::spec_decode(Self::spec_encode(v)) == Ok::<SpecCMsgClientPICSProductInfoResponse, WireError>(v),
    {
        let apply = Self::apply_fn();
        let d = Self::spec_default();
        let p0 = Seq::<SpecField>::empty();
        let l1 = rep_bytes(1, crate::steammessages_clientserver_appinfo::c_msg_client_pics_product_info_response::AppInfo::spec_encode_all(v.apps));
        let p1 = p0 + l1;
        let l2 = rep_u32(2, v.unknown_appids);
        let p2 = p1 + l2;
        let l3 = rep_bytes(3, crate::steammessages_clientserver_appinfo::c_msg_client_pics_product_info_response::PackageInfo::spec_encode_all(v.packages));
        let p3 = p2 + l3;
        let l4 = rep_u32(4, v.unknown_packageids);
        let p4 = p3 + l4;
        let l5 = opt_bool(5, v.meta_data_only);
        let p5 = p4 + l5;
        let l6 = opt_bool(6, v.response_pending);
        let p6 = p5 + l6;
        let l7 = opt_u32(7, v.http_min_size);
        let p7 = p6 + l7;
        let l8 = opt_string(8, v.http_host);
        let p8 = p7 + l8;
        assert(parse_fields(Self::spec_encode(v)) == Ok::<Seq<SpecField>, WireError>(p8) && fields_wf(l1) && fields_wf(l3)) by {
            reveal(CMsgClientPICSProductInfoResponse::spec_encode);
            assert(numbers_ok(p0) && fields_wf(p0)) by {
                reveal(numbers_ok);
                reveal(fields_wf);
            }
            lemma_rep_bytes_numbered(1, crate::steammessages_clientserver_appinfo::c_msg_client_pics_product_info_response::AppInfo::spec_encode_all(v.apps));
            lemma_fields_wf_concat(p0, l1);
            lemma_rep_u32_numbered(2, v.unknown_appids);
            lemma_fields_wf_concat(p1, l2);
            lemma_rep_bytes_numbered(3, crate::steammessages_clientserver_appinfo::c_msg_client_pics_product_info_response::PackageInfo::spec_encode_all(v.packages));
            lemma_fields_wf_concat(p2, l3);
            lemma_rep_u32_numbered(4, v.unknown_packageids);
            lemma_fields_wf_concat(p3, l4);
            lemma_opt_bool_numbered(5, v.meta_data_only);
            lemma_fields_wf_concat(p4, l5);
            lemma_opt_bool_numbered(6, v.response_pending);
            lemma_fields_wf_concat(p5, l6);
            lemma_opt_u32_numbered(7, v.http_min_size);
            lemma_fields_wf_concat(p6, l7);
            lemma_opt_string_numbered(8, v.http_host);
            lemma_fields_wf_concat(p7, l8);
            assert(p8 == Self::spec_fields(v));
            lemma_fields_wf_from_len(p8);
            lemma_fields_roundtrip(p8);
        }
        assert(Self::spec_prefix(v, 0) == d) by {
            reveal(CMsgClientPICSProductInfoResponse::spec_prefix);
        }
        lemma_fold_empty(d, apply);
        lemma_fold_concat(d, p0, l1, apply);
        Self::lemma_field_apps(v);
        lemma_fold_concat(d, p1, l2, apply);
        Self::lemma_field_unknown_appids(v);
        lemma_fold_concat(d, p2, l3, apply);
        Self::lemma_field_packages(v);
        lemma_fold_concat(d, p3, l4, apply);
        Self::lemma_field_unknown_packageids(v);
        lemma_fold_concat(d, p4, l5, apply);
        Self::lemma_field_meta_data_only(v);
        lemma_fold_concat(d, p5, l6, apply);
        Self::lemma_field_response_pending(v);
        lemma_fold_concat(d, p6, l7, apply);
        Self::lemma_field_http_min_size(v);
        lemma_fold_concat(d, p7, l8, apply);
        Self::lemma_field_http_host(v);
        assert(Self::spec_prefix(v, 8) == v) by {
            reveal(CMsgClientPICSProductInfoResponse::spec_prefix);
        }
        lemma_merge_run_fold(d, Self::spec_encode(v), apply);
        assert(Self::spec_decode(Self::spec_encode(v)) == Ok::<SpecCMsgClientPICSProductInfoResponse, WireError>(v)) by {
            reveal(CMsgClientPICSProductInfoResponse::spec_decode);
        }
    }
}

/// `CMsgClientPICSAccessTokenRequest`, as Valve's schema declares it.
#[derive(Debug, Clone, PartialEq)]
pub struct CMsgClientPICSAccessTokenRequest {
    /// Field 1.
    pub packageids: Vec<u32>,
    /// Field 2.
    pub appids: Vec<u32>,
}

/// What a `CMsgClientPICSAccessTokenRequest` holds, as mathematical values.
#[verifier::ext_equal]
pub struct SpecCMsgClientPICSAccessTokenRequest {
    pub packageids: Seq<u32>,
    pub appids: Seq<u32>,
}

impl View for CMsgClientPICSAccessTokenRequest {
    type V = SpecCMsgClientPICSAccessTokenRequest;

    open spec fn view(&self) -> SpecCMsgClientPICSAccessTokenRequest {
        SpecCMsgClientPICSAccessTokenRequest {
            packageids: self.packageids@,
            appids: self.appids@,
        }
    }
}

impl Default for CMsgClientPICSAccessTokenRequest {
    fn default() -> (r: Self)
        ensures
            r@ == CMsgClientPICSAccessTokenRequest::spec_default(),
    {
        CMsgClientPICSAccessTokenRequest {
            packageids: Vec::new(),
            appids: Vec::new(),
        }
    }
}

impl CMsgClientPICSAccessTokenRequest {
    pub open spec fn spec_default() -> SpecCMsgClientPICSAccessTokenRequest {
        SpecCMsgClientPICSAccessTokenRequest {
            packageids: Seq::empty(),
            appids: Seq::empty(),
        }
    }

    /// The records a `CMsgClientPICSAccessTokenRequest` is written as, in field order.
    pub open spec fn spec_fields(v: SpecCMsgClientPICSAccessTokenRequest) -> Seq<SpecField> {
        Seq::<SpecField>::empty()
            + rep_u32(1, v.packageids)
            + rep_u32(2, v.appids)
    }

    #[verifier::opaque]
    pub open spec fn spec_encode(v: SpecCMsgClientPICSAccessTokenRequest) -> Seq<u8> {
        fields_bytes(Self::spec_fields(v))
    }

    /// What one record does to the message: a declared number sets or extends its
    /// field, any other number is left alone.
    pub open spec fn spec_apply(v: SpecCMsgClientPICSAccessTokenRequest, f: SpecField) -> Result<SpecCMsgClientPICSAccessTokenRequest, WireError> {
        match f.number {
            1 => match dec_packed_u32(f.value) {
                Ok(xs) => Ok(SpecCMsgClientPICSAccessTokenRequest { packageids: v.packageids + xs, ..v }),
                Err(e) => Err(e),
            },
            2 => match dec_packed_u32(f.value) {
                Ok(xs) => Ok(SpecCMsgClientPICSAccessTokenRequest { appids: v.appids + xs, ..v }),
                Err(e) => Err(e),
            },
            _ => Ok(v),
        }
    }

    pub open spec fn apply_fn() -> spec_fn(SpecCMsgClientPICSAccessTokenRequest, SpecField) -> Result<SpecCMsgClientPICSAccessTokenRequest, WireError> {
        |v: SpecCMsgClientPICSAccessTokenRequest, f: SpecField| Self::spec_apply(v, f)
    }

    /// The message `bytes` makes of `v`: its records applied in order, or the error
    /// that stops the reading.
    pub open spec fn spec_merge(v: SpecCMsgClientPICSAccessTokenRequest, bytes: Seq<u8>) -> Result<SpecCMsgClientPICSAccessTokenRequest, WireError> {
        let (w, stop) = merge_run(v, bytes, Self::apply_fn());
        match stop {
            None => Ok(w),
            Some(e) => Err(e),
        }
    }

    #[verifier::opaque]
    pub open spec fn spec_decode(bytes: Seq<u8>) -> Result<SpecCMsgClientPICSAccessTokenRequest, WireError> {
        Self::spec_merge(Self::spec_default(), bytes)
    }

    /// This message with one record applied to it, or, when the record is refused,
    /// the message unchanged and the reason.
    fn applied(self, f: &Field) -> (r: Result<Self, (Self, WireError)>)
        ensures
            match Self::spec_apply(self@, f@) {
                Ok(v) => r matches Ok(m) && m@ == v,
                Err(e) => r matches Err((m, x)) && x == e && m@ == self@,
            },
    {
        match f.number {
            1 => match read_packed_u32(&f.value) {
                Ok(xs) => {
                    let mut m = self;
                    let mut xs = xs;
                    m.packageids.append(&mut xs);
                    Ok(m)
                },
                Err(e) => Err((self, e)),
            },
            2 => match read_packed_u32(&f.value) {
                Ok(xs) => {
                    let mut m = self;
                    let mut xs = xs;
                    m.appids.append(&mut xs);
                    Ok(m)
                },
                Err(e) => Err((self, e)),
            },
            _ => Ok(self),
        }
    }

    /// Reads the records `bytes` holds into this message, in order. When a record does
    /// not parse or is refused, the reading stops there: the message keeps what the
    /// records before it gave, and the error is returned.
    pub fn merge(&mut self, bytes: &[u8]) -> (r: Result<(), WireError>)
        ensures
            final(self)@ == merge_run(old(self)@, bytes@, Self::apply_fn()).0,
            r == match merge_run(old(self)@, bytes@, Self::apply_fn()).1 {
                None => Ok::<(), WireError>(()),
                Some(e) => Err::<(), WireError>(e),
            },
    {
        let ghost total = merge_run(self@, bytes@, Self::apply_fn());
        let mut cur = Self::default();
        std::mem::swap(&mut cur, self);
        let mut pos: usize = 0;
        assert(bytes@.skip(0) =~= bytes@);
        while pos < bytes.len()
            invariant
                pos <= bytes@.len(),
                total == merge_run(old(self)@, bytes@, Self::apply_fn()),
                merge_run(cur@, bytes@.skip(pos as int), Self::apply_fn()) == total,
            decreases bytes@.len() - pos,
        {
            let ghost s = bytes@.skip(pos as int);
            proof {
                lemma_merge_run_step(cur@, s, Self::apply_fn());
                lemma_parse_field_len(s);
            }
            match read_field(bytes, pos) {
                Ok((f, end)) => {
                    assert(bytes@.skip(end as int) =~= s.skip((end - pos) as int));
                    match cur.applied(&f) {
                        Ok(m) => {
                            cur = m;
                        },
                        Err((m, e)) => {
                            *self = m;
                            return Err(e);
                        },
                    }
                    pos = end;
                },
                Err(e) => {
                    *self = cur;
                    return Err(e);
                },
            }
        }
        assert(bytes@.skip(pos as int) =~= Seq::<u8>::empty());
        proof {
            lemma_merge_run_empty(cur@, Self::apply_fn());
        }
        *self = cur;
        Ok(())
    }

    /// Decodes a message from its encoding.
    pub fn decode(bytes: &[u8]) -> (r: Result<Self, WireError>)
        ensures
            match Self::spec_decode(bytes@) {
                Ok(v) => r matches Ok(m) && m@ == v,
                Err(e) => r matches Err(x) && x == e,
            },
    {
        proof {
            reveal(CMsgClientPICSAccessTokenRequest::spec_decode);
        }
        let mut m = Self::default();
        match m.merge(bytes) {
            Ok(()) => Ok(m),
            Err(e) => Err(e),
        }
    }

    /// The encoding of this message.
    pub fn encode_to_vec(&self) -> (r: Vec<u8>)
        ensures
            r@ == Self::spec_encode(self@),
    {
        let ghost v = self@;
        let mut out: Vec<u8> = Vec::new();
        let ghost p0 = Seq::<SpecField>::empty();
        put_rep_u32(&mut out, 1, &self.packageids);
        let ghost p1 = p0 + rep_u32(1, v.packageids);
        proof {
            lemma_fields_bytes_concat(p0, rep_u32(1, v.packageids));
        }
        put_rep_u32(&mut out, 2, &self.appids);
        let ghost p2 = p1 + rep_u32(2, v.appids);
        proof {
            lemma_fields_bytes_concat(p1, rep_u32(2, v.appids));
        }
        proof {
            reveal(CMsgClientPICSAccessTokenRequest::spec_encode);
        }
        assert(p2 == Self::spec_fields(v));
        out
    }

    /// Appends the encoding of this message to `out`.
    pub fn encode_raw(&self, out: &mut Vec<u8>)
        ensures
            final(out)@ == old(out)@ + Self::spec_encode(self@),
    {
        let mut b = self.encode_to_vec();
        out.append(&mut b);
    }

    /// The first `k` fields of `v`, the others as a fresh message has them.
    #[verifier::opaque]
    pub open spec fn spec_prefix(v: SpecCMsgClientPICSAccessTokenRequest, k: int) -> SpecCMsgClientPICSAccessTokenRequest {
        SpecCMsgClientPICSAccessTokenRequest {
            packageids: if 1 <= k { v.packageids } else { Seq::empty() },
            appids: if 2 <= k { v.appids } else { Seq::empty() },
        }
    }

    /// Reading field 1 back, after the fields before it.
    proof fn lemma_field_packageids(v: SpecCMsgClientPICSAccessTokenRequest)
        ensures
            fold_fields(Self::spec_prefix(v, 0), rep_u32(1, v.packageids), Self::apply_fn())
                == Ok::<SpecCMsgClientPICSAccessTokenRequest, WireError>(Self::spec_prefix(v, 1)),
    {
        reveal(CMsgClientPICSAccessTokenRequest::spec_prefix);
        reveal(rep_u32);
        let apply = Self::apply_fn();
        let s = Self::spec_prefix(v, 0);
        let l = rep_u32(1, v.packageids);
        let xs = v.packageids;
        let st = Seq::new((xs.len() + 1) as nat, |j: int| SpecCMsgClientPICSAccessTokenRequest { packageids: xs.take(j), ..s });
        assert forall|j: int| 0 <= j < l.len() implies #[trigger] apply(st[j], l[j]) == Ok::<SpecCMsgClientPICSAccessTokenRequest, WireError>(st[j + 1]) by {
            lemma_u32_roundtrip(xs[j]);
            assert(xs.take(j) + seq![xs[j]] =~= xs.take(j + 1));
        }
        lemma_fold_chain(l, st, apply);
        assert(xs.take(0) =~= Seq::<u32>::empty());
        assert(xs.take(xs.len() as int) =~= xs);
        assert(st[0] == s);
        assert(st[xs.len() as int] == Self::spec_prefix(v, 1));
    }

    /// Reading field 2 back, after the fields before it.
    proof fn lemma_field_appids(v: SpecCMsgClientPICSAccessTokenRequest)
        ensures
            fold_fields(Self::spec_prefix(v, 1), rep_u32(2, v.appids), Self::apply_fn())
                == Ok::<SpecCMsgClientPICSAccessTokenRequest, WireError>(Self::spec_prefix(v, 2)),
    {
        reveal(CMsgClientPICSAccessTokenRequest::spec_prefix);
        reveal(rep_u32);
        let apply = Self::apply_fn();
        let s = Self::spec_prefix(v, 1);
        let l = rep_u32(2, v.appids);
        let xs = v.appids;
        let st = Seq::new((xs.len() + 1) as nat, |j: int| SpecCMsgClientPICSAccessTokenRequest { appids: xs.take(j), ..s });
        assert forall|j: int| 0 <= j < l.len() implies #[trigger] apply(st[j], l[j]) == Ok::<SpecCMsgClientPICSAccessTokenRequest, WireError>(st[j + 1]) by {
            lemma_u32_roundtrip(xs[j]);
            assert(xs.take(j) + seq![xs[j]] =~= xs.take(j + 1));
        }
        lemma_fold_chain(l, st, apply);
        assert(xs.take(0) =~= Seq::<u32>::empty());
        assert(xs.take(xs.len() as int) =~= xs);
        assert(st[0] == s);
        assert(st[xs.len() as int] == Self::spec_prefix(v, 2));
    }

    /// Whether this message declares field number `n`.
    pub open spec fn declares(n: u32) -> bool {
        n == 1 || n == 2
    }

    /// A record with a number this message does not declare is passed over: well-formed
    /// bytes decode to the same message with such a record after them as without it.
    pub proof fn lemma_unknown_field(bytes: Seq<u8>, f: SpecField)
        requires
            parse_fields(bytes) is Ok,
            field_wf(f),
            !Self::declares(f.number),
        ensures
            Self::spec_decode(bytes + field_bytes(f)) == Self::spec_decode(bytes),
    {
        reveal(CMsgClientPICSAccessTokenRequest::spec_decode);
        lemma_parse_fields_append(bytes, f);
        let fs = parse_fields(bytes).unwrap();
        let apply = Self::apply_fn();
        lemma_fold_concat(Self::spec_default(), fs, seq![f], apply);
        assert(fs.push(f) =~= fs + seq![f]);
        if let Ok(w) = fold_fields(Self::spec_default(), fs, apply) {
            lemma_fold_single(w, f, apply);
        }
        lemma_merge_run_fold(Self::spec_default(), bytes, apply);
        lemma_merge_run_fold(Self::spec_default(), bytes + field_bytes(f), apply);
    }

    /// Decoding the encoding of a message gives the message back.
    pub proof fn lemma_decode_encode(v: SpecCMsgClientPICSAccessTokenRequest)
        requires
            Self::spec_encode(v).len() <= u64::MAX,
        ensures
            Self::spec_decode(Self::spec_encode(v)) == Ok::<SpecCMsgClientPICSAccessTokenRequest, WireError>(v),
    {
        let apply = Self::apply_fn();
        let d = Self::spec_default();
        let p0 = Seq::<SpecField>::empty();
        let l1 = rep_u32(1, v.packageids);
        let p1 = p0 + l1;
        let l2 = rep_u32(2, v.appids);
        let p2 = p1 + l2;
        assert(parse_fields(Self::spec_encode(v)) == Ok::<Seq<SpecField>, WireError>(p2)) by {
            reveal(CMsgClientPICSAccessTokenRequest::spec_encode);
            assert(numbers_ok(p0) && fields_wf(p0)) by {
                reveal(numbers_ok);
                reveal(fields_wf);
            }
            lemma_rep_u32_numbered(1, v.packageids);
            lemma_fields_wf_concat(p0, l1);
            lemma_rep_u32_numbered(2, v.appids);
            lemma_fields_wf_concat(p1, l2);
            assert(p2 == Self::spec_fields(v));
            lemma_fields_wf_from_len(p2);
            lemma_fields_roundtrip(p2);
        }
        assert(Self::spec_prefix(v, 0) == d) by {
            reveal(CMsgClientPICSAccessTokenRequest::spec_prefix);
        }
        lemma_fold_empty(d, apply);
        lemma_fold_concat(d, p0, l1, apply);
        Self::lemma_field_packageids(v);
        lemma_fold_concat(d, p1, l2, apply);
        Self::lemma_field_appids(v);
        assert(Self::spec_prefix(v, 2) == v) by {
            reveal(CMsgClientPICSAccessTokenRequest::spec_prefix);
        }
        lemma_merge_run_fold(d, Self::spec_encode(v), apply);
        assert(Self::spec_decode(Self::spec_encode(v)) == Ok::<SpecCMsgClientPICSAccessTokenRequest, WireError>(v)) by {
            reveal(CMsgClientPICSAccessTokenRequest::spec_decode);
        }
    }
}

/// `CMsgClientPICSAccessTokenResponse`, as Valve's schema declares it.
#[derive(Debug, Clone, PartialEq)]
pub struct CMsgClientPICSAccessTokenResponse {
    /// Field 1.
    pub package_access_tokens: Vec<crate::steammessages_clientserver_appinfo::c_msg_client_pics_access_token_response::PackageToken>,
    /// Field 2.
    pub package_denied_tokens: Vec<u32>,
    /// Field 3.
    pub app_access_tokens: Vec<crate::steammessages_clientserver_appinfo::c_msg_client_pics_access_token_response::AppToken>,
    /// Field 4.
    pub app_denied_tokens: Vec<u32>,
}

/// What a `CMsgClientPICSAccessTokenResponse` holds, as mathematical values.
#[verifier::ext_equal]
pub struct SpecCMsgClientPICSAccessTokenResponse {
    pub package_access_tokens: Seq<crate::steammessages_clientserver_appinfo::c_msg_client_pics_access_token_response::SpecPackageToken>,
    pub package_denied_tokens: Seq<u32>,
    pub app_access_tokens: Seq<crate::steammessages_clientserver_appinfo::c_msg_client_pics_access_token_response::SpecAppToken>,
    pub app_denied_tokens: Seq<u32>,
}

impl View for CMsgClientPICSAccessTokenResponse {
    type V = SpecCMsgClientPICSAccessTokenResponse;

    open spec fn view(&self) -> SpecCMsgClientPICSAccessTokenResponse {
        SpecCMsgClientPICSAccessTokenResponse {
            package_access_tokens: crate::steammessages_clientserver_appinfo::c_msg_client_pics_access_token_response::PackageToken::view_all(self.package_access_tokens@),
            package_denied_tokens: self.package_denied_tokens@,
            app_access_tokens: crate::steammessages_clientserver_appinfo::c_msg_client_pics_access_token_response::AppToken::view_all(self.app_access_tokens@),
            app_denied_tokens: self.app_denied_tokens@,
        }
    }
}

impl Default for CMsgClientPICSAccessTokenResponse {
    fn default() -> (r: Self)
        ensures
            r@ == CMsgClientPICSAccessTokenResponse::spec_default(),
    {
        CMsgClientPICSAccessTokenResponse {
            package_access_tokens: Vec::new(),
            package_denied_tokens: Vec::new(),
            app_access_tokens: Vec::new(),
            app_denied_tokens: Vec::new(),
        }
    }
}

impl CMsgClientPICSAccessTokenResponse {
    pub open spec fn spec_default() -> SpecCMsgClientPICSAccessTokenResponse {
        SpecCMsgClientPICSAccessTokenResponse {
            package_access_tokens: Seq::empty(),
            package_denied_tokens: Seq::empty(),
            app_access_tokens: Seq::empty(),
            app_denied_tokens: Seq::empty(),
        }
    }

    /// The records a `CMsgClientPICSAccessTokenResponse` is written as, in field order.
    pub open spec fn spec_fields(v: SpecCMsgClientPICSAccessTokenResponse) -> Seq<SpecField> {
        Seq::<SpecField>::empty()
            + rep_bytes(1, crate::steammessages_clientserver_appinfo::c_msg_client_pics_access_token_response::PackageToken::spec_encode_all(v.package_access_tokens))
            + rep_u32(2, v.package_denied_tokens)
            + rep_bytes(3, crate::steammessages_clientserver_appinfo::c_msg_client_pics_access_token_response::AppToken::spec_encode_all(v.app_access_tokens))
            + rep_u32(4, v.app_denied_tokens)
    }

    #[verifier::opaque]
    pub open spec fn spec_encode(v: SpecCMsgClientPICSAccessTokenResponse) -> Seq<u8> {
        fields_bytes(Self::spec_fields(v))
    }

    /// What one record does to the message: a declared number sets or extends its
    /// field, any other number is left alone.
    pub open spec fn spec_apply(v: SpecCMsgClientPICSAccessTokenResponse, f: SpecField) -> Result<SpecCMsgClientPICSAccessTokenResponse, WireError> {
        match f.number {
            1 => match dec_bytes(f.value) {
                Ok(b) => match crate::steammessages_clientserver_appinfo::c_msg_client_pics_access_token_response::PackageToken::spec_decode(b) {
                    Ok(m) => Ok(SpecCMsgClientPICSAccessTokenResponse { package_access_tokens: v.package_access_tokens.push(m), ..v }),
                    Err(e) => Err(e),
                },
                Err(e) => Err(e),
            },
            2 => match dec_packed_u32(f.value) {
                Ok(xs) => Ok(SpecCMsgClientPICSAccessTokenResponse { package_denied_tokens: v.package_denied_tokens + xs, ..v }),
                Err(e) => Err(e),
            },
            3 => match dec_bytes(f.value) {
                Ok(b) => match crate::steammessages_clientserver_appinfo::c_msg_client_pics_access_token_response::AppToken::spec_decode(b) {
                    Ok(m) => Ok(SpecCMsgClientPICSAccessTokenResponse { app_access_tokens: v.app_access_tokens.push(m), ..v }),
                    Err(e) => Err(e),
                },
                Err(e) => Err(e),
            },
            4 => match dec_packed_u32(f.value) {
                Ok(xs) => Ok(SpecCMsgClientPICSAccessTokenResponse { app_denied_tokens: v.app_denied_tokens + xs, ..v }),
                Err(e) => Err(e),
            },
            _ => Ok(v),
        }
    }

    pub open spec fn apply_fn() -> spec_fn(SpecCMsgClientPICSAccessTokenResponse, SpecField) -> Result<SpecCMsgClientPICSAccessTokenResponse, WireError> {
        |v: SpecCMsgClientPICSAccessTokenResponse, f: SpecField| Self::spec_apply(v, f)
    }

    /// The message `bytes` makes of `v`: its records applied in order, or the error
    /// that stops the reading.
    pub open spec fn spec_merge(v: SpecCMsgClientPICSAccessTokenResponse, bytes: Seq<u8>) -> Result<SpecCMsgClientPICSAccessTokenResponse, WireError> {
        let (w, stop) = merge_run(v, bytes, Self::apply_fn());
        match stop {
            None => Ok(w),
            Some(e) => Err(e),
        }
    }

    #[verifier::opaque]
    pub open spec fn spec_decode(bytes: Seq<u8>) -> Result<SpecCMsgClientPICSAccessTokenResponse, WireError> {
        Self::spec_merge(Self::spec_default(), bytes)
    }

    /// This message with one record applied to it, or, when the record is refused,
    /// the message unchanged and the reason.
    fn applied(self, f: &Field) -> (r: Result<Self, (Self, WireError)>)
        ensures
            match Self::spec_apply(self@, f@) {
                Ok(v) => r matches Ok(m) && m@ == v,
                Err(e) => r matches Err((m, x)) && x == e && m@ == self@,
            },
    {
        match f.number {
            1 => match read_payload(&f.value) {
                Ok(b) => match crate::steammessages_clientserver_appinfo::c_msg_client_pics_access_token_response::PackageToken::decode(b) {
                    Ok(x) => {
                        let mut m = self;
                        let ghost before = m.package_access_tokens@;
                        m.package_access_tokens.push(x);
                        assert(crate::steammessages_clientserver_appinfo::c_msg_client_pics_access_token_response::PackageToken::view_all(m.package_access_tokens@) =~= crate::steammessages_clientserver_appinfo::c_msg_client_pics_access_token_response::PackageToken::view_all(before).push(x@));
                        Ok(m)
                    },
                    Err(e) => Err((self, e)),
                },
                Err(e) => Err((self, e)),
            },
            2 => match read_packed_u32(&f.value) {
                Ok(xs) => {
                    let mut m = self;
                    let mut xs = xs;
                    m.package_denied_tokens.append(&mut xs);
                    Ok(m)
                },
                Err(e) => Err((self, e)),
            },
            3 => match read_payload(&f.value) {
                Ok(b) => match crate::steammessages_clientserver_appinfo::c_msg_client_pics_access_token_response::AppToken::decode(b) {
                    Ok(x) => {
                        let mut m = self;
                        let ghost before = m.app_access_tokens@;
                        m.app_access_tokens.push(x);
                        assert(crate::steammessages_clientserver_appinfo::c_msg_client_pics_access_token_response::AppToken::view_all(m.app_access_tokens@) =~= crate::steammessages_clientserver_appinfo::c_msg_client_pics_access_token_response::AppToken::view_all(before).push(x@));
                        Ok(m)
                    },
                    Err(e) => Err((self, e)),
                },
                Err(e) => Err((self, e)),
            },
            4 => match read_packed_u32(&f.value) {
                Ok(xs) => {
                    let mut m = self;
                    let mut xs = xs;
                    m.app_denied_tokens.append(&mut xs);
                    Ok(m)
                },
                Err(e) => Err((self, e)),
            },
            _ => Ok(self),
        }
    }

    /// Reads the records `bytes` holds into this message, in order. When a record does
    /// not parse or is refused, the reading stops there: the message keeps what the
    /// records before it gave, and the error is returned.
    pub fn merge(&mut self, bytes: &[u8]) -> (r: Result<(), WireError>)
        ensures
            final(self)@ == merge_run(old(self)@, bytes@, Self::apply_fn()).0,
            r == match merge_run(old(self)@, bytes@, Self::apply_fn()).1 {
                None => Ok::<(), WireError>(()),
                Some(e) => Err::<(), WireError>(e),
            },
    {
        let ghost total = merge_run(self@, bytes@, Self::apply_fn());
        let mut cur = Self::default();
        std::mem::swap(&mut cur, self);
        let mut pos: usize = 0;
        assert(bytes@.skip(0) =~= bytes@);
        while pos < bytes.len()
            invariant
                pos <= bytes@.len(),
                total == merge_run(old(self)@, bytes@, Self::apply_fn()),
                merge_run(cur@, bytes@.skip(pos as int), Self::apply_fn()) == total,
            decreases bytes@.len() - pos,
        {
            let ghost s = bytes@.skip(pos as int);
            proof {
                lemma_merge_run_step(cur@, s, Self::apply_fn());
                lemma_parse_field_len(s);
            }
            match read_field(bytes, pos) {
                Ok((f, end)) => {
                    assert(bytes@.skip(end as int) =~= s.skip((end - pos) as int));
                    match cur.applied(&f) {
                        Ok(m) => {
                            cur = m;
                        },
                        Err((m, e)) => {
                            *self = m;
                            return Err(e);
                        },
                    }
                    pos = end;
                },
                Err(e) => {
                    *self = cur;
                    return Err(e);
                },
            }
        }
        assert(bytes@.skip(pos as int) =~= Seq::<u8>::empty());
        proof {
            lemma_merge_run_empty(cur@, Self::apply_fn());
        }
        *self = cur;
        Ok(())
    }

    /// Decodes a message from its encoding.
    pub fn decode(bytes: &[u8]) -> (r: Result<Self, WireError>)
        ensures
            match Self::spec_decode(bytes@) {
                Ok(v) => r matches Ok(m) && m@ == v,
                Err(e) => r matches Err(x) && x == e,
            },
    {
        proof {
            reveal(CMsgClientPICSAccessTokenResponse::spec_decode);
        }
        let mut m = Self::default();
        match m.merge(bytes) {
            Ok(()) => Ok(m),
            Err(e) => Err(e),
        }
    }

    /// The encoding of this message.
    pub fn encode_to_vec(&self) -> (r: Vec<u8>)
        ensures
            r@ == Self::spec_encode(self@),
    {
        let enc_package_access_tokens = crate::steammessages_clientserver_appinfo::c_msg_client_pics_access_token_response::PackageToken::encode_all(&self.package_access_tokens);
        let enc_app_access_tokens = crate::steammessages_clientserver_appinfo::c_msg_client_pics_access_token_response::AppToken::encode_all(&self.app_access_tokens);
        let ghost v = self@;
        let mut out: Vec<u8> = Vec::new();
        let ghost p0 = Seq::<SpecField>::empty();
        put_rep_bytes(&mut out, 1, &enc_package_access_tokens);
        let ghost p1 = p0 + rep_bytes(1, crate::steammessages_clientserver_appinfo::c_msg_client_pics_access_token_response::PackageToken::spec_encode_all(v.package_access_tokens));
        proof {
            lemma_fields_bytes_concat(p0, rep_bytes(1, crate::steammessages_clientserver_appinfo::c_msg_client_pics_access_token_response::PackageToken::spec_encode_all(v.package_access_tokens)));
        }
        put_rep_u32(&mut out, 2, &self.package_denied_tokens);
        let ghost p2 = p1 + rep_u32(2, v.package_denied_tokens);
        proof {
            lemma_fields_bytes_concat(p1, rep_u32(2, v.package_denied_tokens));
        }
        put_rep_bytes(&mut out, 3, &enc_app_access_tokens);
        let ghost p3 = p2 + rep_bytes(3, crate::steammessages_clientserver_appinfo::c_msg_client_pics_access_token_response::AppToken::spec_encode_all(v.app_access_tokens));
        proof {
            lemma_fields_bytes_concat(p2, rep_bytes(3, crate::steammessages_clientserver_appinfo::c_msg_client_pics_access_token_response::AppToken::spec_encode_all(v.app_access_tokens)));
        }
        put_rep_u32(&mut out, 4, &self.app_denied_tokens);
        let ghost p4 = p3 + rep_u32(4, v.app_denied_tokens);
        proof {
            lemma_fields_bytes_concat(p3, rep_u32(4, v.app_denied_tokens));
        }
        proof {
            reveal(CMsgClientPICSAccessTokenResponse::spec_encode);
        }
        assert(p4 == Self::spec_fields(v));
        out
    }

    /// Appends the encoding of this message to `out`.
    pub fn encode_raw(&self, out: &mut Vec<u8>)
        ensures
            final(out)@ == old(out)@ + Self::spec_encode(self@),
    {
        let mut b = self.encode_to_vec();
        out.append(&mut b);
    }

    /// The first `k` fields of `v`, the others as a fresh message has them.
    #[verifier::opaque]
    pub open spec fn spec_prefix(v: SpecCMsgClientPICSAccessTokenResponse, k: int) -> SpecCMsgClientPICSAccessTokenResponse {
        SpecCMsgClientPICSAccessTokenResponse {
            package_access_tokens: if 1 <= k { v.package_access_tokens } else { Seq::empty() },
            package_denied_tokens: if 2 <= k { v.package_denied_tokens } else { Seq::empty() },
            app_access_tokens: if 3 <= k { v.app_access_tokens } else { Seq::empty() },
            app_denied_tokens: if 4 <= k { v.app_denied_tokens } else { Seq::empty() },
        }
    }

    /// Reading field 1 back, after the fields before it.
    proof fn lemma_field_package_access_tokens(v: SpecCMsgClientPICSAccessTokenResponse)
        requires
            fields_wf(rep_bytes(1, crate::steammessages_clientserver_appinfo::c_msg_client_pics_access_token_response::PackageToken::spec_encode_all(v.package_access_tokens))),
        ensures
            fold_fields(Self::spec_prefix(v, 0), rep_bytes(1, crate::steammessages_clientserver_appinfo::c_msg_client_pics_access_token_response::PackageToken::spec_encode_all(v.package_access_tokens)), Self::apply_fn())
                == Ok::<SpecCMsgClientPICSAccessTokenResponse, WireError>(Self::spec_prefix(v, 1)),
    {
        reveal(CMsgClientPICSAccessTokenResponse::spec_prefix);
        reveal(rep_bytes);
        reveal(fields_wf);
        let apply = Self::apply_fn();
        let s = Self::spec_prefix(v, 0);
        let l = rep_bytes(1, crate::steammessages_clientserver_appinfo::c_msg_client_pics_access_token_response::PackageToken::spec_encode_all(v.package_access_tokens));
        let xs = v.package_access_tokens;
        let st = Seq::new((xs.len() + 1) as nat, |j: int| SpecCMsgClientPICSAccessTokenResponse { package_access_tokens: xs.take(j), ..s });
        assert forall|j: int| 0 <= j < l.len() implies #[trigger] apply(st[j], l[j]) == Ok::<SpecCMsgClientPICSAccessTokenResponse, WireError>(st[j + 1]) by {
            assert(field_wf(l[j]));
            crate::steammessages_clientserver_appinfo::c_msg_client_pics_access_token_response::PackageToken::lemma_decode_encode(xs[j]);
            assert(xs.take(j).push(xs[j]) =~= xs.take(j + 1));
        }
        lemma_fold_chain(l, st, apply);
        assert(xs.take(0) =~= Seq::<crate::steammessages_clientserver_appinfo::c_msg_client_pics_access_token_response::SpecPackageToken>::empty());
        assert(xs.take(xs.len() as int) =~= xs);
        assert(st[0] == s);
        assert(st[xs.len() as int] == Self::spec_prefix(v, 1));
    }

    /// Reading field 2 back, after the fields before it.
    proof fn lemma_field_package_denied_tokens(v: SpecCMsgClientPICSAccessTokenResponse)
        ensures
            fold_fields(Self::spec_prefix(v, 1), rep_u32(2, v.package_denied_tokens), Self::apply_fn())
                == Ok::<SpecCMsgClientPICSAccessTokenResponse, WireError>(Self::spec_prefix(v, 2)),
    {
        reveal(CMsgClientPICSAccessTokenResponse::spec_prefix);
        reveal(rep_u32);
        let apply = Self::apply_fn();
        let s = Self::spec_prefix(v, 1);
        let l = rep_u32(2, v.package_denied_tokens);
        let xs = v.package_denied_tokens;
        let st = Seq::new((xs.len() + 1) as nat, |j: int| SpecCMsgClientPICSAccessTokenResponse { package_denied_tokens: xs.take(j), ..s });
        assert forall|j: int| 0 <= j < l.len() implies #[trigger] apply(st[j], l[j]) == Ok::<SpecCMsgClientPICSAccessTokenResponse, WireError>(st[j + 1]) by {
            lemma_u32_roundtrip(xs[j]);
            assert(xs.take(j) + seq![xs[j]] =~= xs.take(j + 1));
        }
        lemma_fold_chain(l, st, apply);
        assert(xs.take(0) =~= Seq::<u32>::empty());
        assert(xs.take(xs.len() as int) =~= xs);
        assert(st[0] == s);
        assert(st[xs.len() as int] == Self::spec_prefix(v, 2));
    }

    /// Reading field 3 back, after the fields before it.
    proof fn lemma_field_app_access_tokens(v: SpecCMsgClientPICSAccessTokenResponse)
        requires
            fields_wf(rep_bytes(3, crate::steammessages_clientserver_appinfo::c_msg_client_pics_access_token_response::AppToken::spec_encode_all(v.app_access_tokens))),
        ensures
            fold_fields(Self::spec_prefix(v, 2), rep_bytes(3, crate::steammessages_clientserver_appinfo::c_msg_client_pics_access_token_response::AppToken::spec_encode_all(v.app_access_tokens)), Self::apply_fn())
                == Ok::<SpecCMsgClientPICSAccessTokenResponse, WireError>(Self::spec_prefix(v, 3)),
    {
        reveal(CMsgClientPICSAccessTokenResponse::spec_prefix);
        reveal(rep_bytes);
        reveal(fields_wf);
        let apply = Self::apply_fn();
        let s = Self::spec_prefix(v, 2);
        let l = rep_bytes(3, crate::steammessages_clientserver_appinfo::c_msg_client_pics_access_token_response::AppToken::spec_encode_all(v.app_access_tokens));
        let xs = v.app_access_tokens;
        let st = Seq::new((xs.len() + 1) as nat, |j: int| SpecCMsgClientPICSAccessTokenResponse { app_access_tokens: xs.take(j), ..s });
        assert forall|j: int| 0 <= j < l.len() implies #[trigger] apply(st[j], l[j]) == Ok::<SpecCMsgClientPICSAccessTokenResponse, WireError>(st[j + 1]) by {
            assert(field_wf(l[j]));
            crate::steammessages_clientserver_appinfo::c_msg_client_pics_access_token_response::AppToken::lemma_decode_encode(xs[j]);
            assert(xs.take(j).push(xs[j]) =~= xs.take(j + 1));
        }
        lemma_fold_chain(l, st, apply);
        assert(xs.take(0) =~= Seq::<crate::steammessages_clientserver_appinfo::c_msg_client_pics_access_token_response::SpecAppToken>::empty());
        assert(xs.take(xs.len() as int) =~= xs);
        assert(st[0] == s);
        assert(st[xs.len() as int] == Self::spec_prefix(v, 3));
    }

    /// Reading field 4 back, after the fields before it.
    proof fn lemma_field_app_denied_tokens(v: SpecCMsgClientPICSAccessTokenResponse)
        ensures
            fold_fields(Self::spec_prefix(v, 3), rep_u32(4, v.app_denied_tokens), Self::apply_fn())
                == Ok::<SpecCMsgClientPICSAccessTokenResponse, WireError>(Self::spec_prefix(v, 4)),
    {
        reveal(CMsgClientPICSAccessTokenResponse::spec_prefix);
        reveal(rep_u32);
        let apply = Self::apply_fn();
        let s = Self::spec_prefix(v, 3);
        let l = rep_u32(4, v.app_denied_tokens);
        let xs = v.app_denied_tokens;
        let st = Seq::new((xs.len() + 1) as nat, |j: int| SpecCMsgClientPICSAccessTokenResponse { app_denied_tokens: xs.take(j), ..s });
        assert forall|j: int| 0 <= j < l.len() implies #[trigger] apply(st[j], l[j]) == Ok::<SpecCMsgClientPICSAccessTokenResponse, WireError>(st[j + 1]) by {
            lemma_u32_roundtrip(xs[j]);
            assert(xs.take(j) + seq![xs[j]] =~= xs.take(j + 1));
        }
        lemma_fold_chain(l, st, apply);
        assert(xs.take(0) =~= Seq::<u32>::empty());
        assert(xs.take(xs.len() as int) =~= xs);
        assert(st[0] == s);
        assert(st[xs.len() as int] == Self::spec_prefix(v, 4));
    }

    /// Whether this message declares field number `n`.
    pub open spec fn declares(n: u32) -> bool {
        n == 1 || n == 2 || n == 3 || n == 4
    }

    /// A record with a number this message does not declare is passed over: well-formed
    /// bytes decode to the same message with such a record after them as without it.
    pub proof fn lemma_unknown_field(bytes: Seq<u8>, f: SpecField)
        requires
            parse_fields(bytes) is Ok,
            field_wf(f),
            !Self::declares(f.number),
        ensures
            Self::spec_decode(bytes + field_bytes(f)) == Self::spec_decode(bytes),
    {
        reveal(CMsgClientPICSAccessTokenResponse::spec_decode);
        lemma_parse_fields_append(bytes, f);
        let fs = parse_fields(bytes).unwrap();
        let apply = Self::apply_fn();
        lemma_fold_concat(Self::spec_default(), fs, seq![f], apply);
        assert(fs.push(f) =~= fs + seq![f]);
        if let Ok(w) = fold_fields(Self::spec_default(), fs, apply) {
            lemma_fold_single(w, f, apply);
        }
        lemma_merge_run_fold(Self::spec_default(), bytes, apply);
        lemma_merge_run_fold(Self::spec_default(), bytes + field_bytes(f), apply);
    }

    /// Decoding the encoding of a message gives the message back.
    pub proof fn lemma_decode_encode(v: SpecCMsgClientPICSAccessTokenResponse)
        requires
            Self::spec_encode(v).len() <= u64::MAX,
        ensures
            Self::spec_decode(Self::spec_encode(v)) == Ok::<SpecCMsgClientPICSAccessTokenResponse, WireError>(v),
    {
        let apply = Self::apply_fn();
        let d = Self::spec_default();
        let p0 = Seq::<SpecField>::empty();
        let l1 = rep_bytes(1, crate::steammessages_clientserver_appinfo::c_msg_client_pics_access_token_response::PackageToken::spec_encode_all(v.package_access_tokens));
        let p1 = p0 + l1;
        let l2 = rep_u32(2, v.package_denied_tokens);
        let p2 = p1 + l2;
        let l3 = rep_bytes(3, crate::steammessages_clientserver_appinfo::c_msg_client_pics_access_token_response::AppToken::spec_encode_all(v.app_access_tokens));
        let p3 = p2 + l3;
        let l4 = rep_u32(4, v.app_denied_tokens);
        let p4 = p3 + l4;
        assert(parse_fields(Self::spec_encode(v)) == Ok::<Seq<SpecField>, WireError>(p4) && fields_wf(l1) && fields_wf(l3)) by {
            reveal(CMsgClientPICSAccessTokenResponse::spec_encode);
            assert(numbers_ok(p0) && fields_wf(p0)) by {
                reveal(numbers_ok);
                reveal(fields_wf);
            }
            lemma_rep_bytes_numbered(1, crate::steammessages_clientserver_appinfo::c_msg_client_pics_access_token_response::PackageToken::spec_encode_all(v.package_access_tokens));
            lemma_fields_wf_concat(p0, l1);
            lemma_rep_u32_numbered(2, v.package_denied_tokens);
            lemma_fields_wf_concat(p1, l2);
            lemma_rep_bytes_numbered(3, crate::steammessages_clientserver_appinfo::c_msg_client_pics_access_token_response::AppToken::spec_encode_all(v.app_access_tokens));
            lemma_fields_wf_concat(p2, l3);
            lemma_rep_u32_numbered(4, v.app_denied_tokens);
            lemma_fields_wf_concat(p3, l4);
            assert(p4 == Self::spec_fields(v));
            lemma_fields_wf_from_len(p4);
            lemma_fields_roundtrip(p4);
        }
        assert(Self::spec_prefix(v, 0) == d) by {
            reveal(CMsgClientPICSAccessTokenResponse::spec_prefix);
        }
        lemma_fold_empty(d, apply);
        lemma_fold_concat(d, p0, l1, apply);
        Self::lemma_field_package_access_tokens(v);
        lemma_fold_concat(d, p1, l2, apply);
        Self::lemma_field_package_denied_tokens(v);
        lemma_fold_concat(d, p2, l3, apply);
        Self::lemma_field_app_access_tokens(v);
        lemma_fold_concat(d, p3, l4, apply);
        Self::lemma_field_app_denied_tokens(v);
        assert(Self::spec_prefix(v, 4) == v) by {
            reveal(CMsgClientPICSAccessTokenResponse::spec_prefix);
        }
        lemma_merge_run_fold(d, Self::spec_encode(v), apply);
        assert(Self::spec_decode(Self::spec_encode(v)) == Ok::<SpecCMsgClientPICSAccessTokenResponse, WireError>(v)) by {
            reveal(CMsgClientPICSAccessTokenResponse::spec_decode);
        }
    }
}

/// `CMsgClientPICSPrivateBetaRequest`, as Valve's schema declares it.
#[derive(Debug, Clone, PartialEq)]
pub struct CMsgClientPICSPrivateBetaRequest {
    /// Field 1.
    pub appid: Option<u32>,
    /// Field 2.
    pub access_token: Option<u64>,
    /// Field 3.
    pub beta_name: Option<String>,
    /// Field 4.
    pub password_hash: Option<Vec<u8>>,
}

/// What a `CMsgClientPICSPrivateBetaRequest` holds, as mathematical values.
#[verifier::ext_equal]
pub struct SpecCMsgClientPICSPrivateBetaRequest {
    pub appid: Option<u32>,
    pub access_token: Option<u64>,
    pub beta_name: Option<Seq<char>>,
    pub password_hash: Option<Seq<u8>>,
}

impl View for CMsgClientPICSPrivateBetaRequest {
    type V = SpecCMsgClientPICSPrivateBetaRequest;

    open spec fn view(&self) -> SpecCMsgClientPICSPrivateBetaRequest {
        SpecCMsgClientPICSPrivateBetaRequest {
            appid: self.appid,
            access_token: self.access_token,
            beta_name: opt_string_view(self.beta_name),
            password_hash: opt_bytes_view(self.password_hash),
        }
    }
}

impl Default for CMsgClientPICSPrivateBetaRequest {
    fn default() -> (r: Self)
        ensures
            r@ == CMsgClientPICSPrivateBetaRequest::spec_default(),
    {
        CMsgClientPICSPrivateBetaRequest {
            appid: None,
            access_token: None,
            beta_name: None,
            password_hash: None,
        }
    }
}

impl CMsgClientPICSPrivateBetaRequest {
    pub open spec fn spec_default() -> SpecCMsgClientPICSPrivateBetaRequest {
        SpecCMsgClientPICSPrivateBetaRequest {
            appid: None,
            access_token: None,
            beta_name: None,
            password_hash: None,
        }
    }

    /// The records a `CMsgClientPICSPrivateBetaRequest` is written as, in field order.
    pub open spec fn spec_fields(v: SpecCMsgClientPICSPrivateBetaRequest) -> Seq<SpecField> {
        Seq::<SpecField>::empty()
            + opt_u32(1, v.appid)
            + opt_u64(2, v.access_token)
            + opt_string(3, v.beta_name)
            + opt_bytes(4, v.password_hash)
    }

    #[verifier::opaque]
    pub open spec fn spec_encode(v: SpecCMsgClientPICSPrivateBetaRequest) -> Seq<u8> {
        fields_bytes(Self::spec_fields(v))
    }

    /// What one record does to the message: a declared number sets or extends its
    /// field, any other number is left alone.
    pub open spec fn spec_apply(v: SpecCMsgClientPICSPrivateBetaRequest, f: SpecField) -> Result<SpecCMsgClientPICSPrivateBetaRequest, WireError> {
        match f.number {
            1 => match dec_u32(f.value) {
                Ok(x) => Ok(SpecCMsgClientPICSPrivateBetaRequest { appid: Some(x), ..v }),
                Err(e) => Err(e),
            },
            2 => match dec_u64(f.value) {
                Ok(x) => Ok(SpecCMsgClientPICSPrivateBetaRequest { access_token: Some(x), ..v }),
                Err(e) => Err(e),
            },
            3 => match dec_string(f.value) {
                Ok(x) => Ok(SpecCMsgClientPICSPrivateBetaRequest { beta_name: Some(x), ..v }),
                Err(e) => Err(e),
            },
            4 => match dec_bytes(f.value) {
                Ok(x) => Ok(SpecCMsgClientPICSPrivateBetaRequest { password_hash: Some(x), ..v }),
                Err(e) => Err(e),
            },
            _ => Ok(v),
        }
    }

    pub open spec fn apply_fn() -> spec_fn(SpecCMsgClientPICSPrivateBetaRequest, SpecField) -> Result<SpecCMsgClientPICSPrivateBetaRequest, WireError> {
        |v: SpecCMsgClientPICSPrivateBetaRequest, f: SpecField| Self::spec_apply(v, f)
    }

    /// The message `bytes` makes of `v`: its records applied in order, or the error
    /// that stops the reading.
    pub open spec fn spec_merge(v: SpecCMsgClientPICSPrivateBetaRequest, bytes: Seq<u8>) -> Result<SpecCMsgClientPICSPrivateBetaRequest, WireError> {
        let (w, stop) = merge_run(v, bytes, Self::apply_fn());
        match stop {
            None => Ok(w),
            Some(e) => Err(e),
        }
    }

    #[verifier::opaque]
    pub open spec fn spec_decode(bytes: Seq<u8>) -> Result<SpecCMsgClientPICSPrivateBetaRequest, WireError> {
        Self::spec_merge(Self::spec_default(), bytes)
    }

    /// This message with one record applied to it, or, when the record is refused,
    /// the message unchanged and the reason.
    fn applied(self, f: &Field) -> (r: Result<Self, (Self, WireError)>)
        ensures
            match Self::spec_apply(self@, f@) {
                Ok(v) => r matches Ok(m) && m@ == v,
                Err(e) => r matches Err((m, x)) && x == e && m@ == self@,
            },
    {
        match f.number {
            1 => match read_u32(&f.value) {
                Ok(x) => Ok(Self { appid: Some(x), ..self }),
                Err(e) => Err((self, e)),
            },
            2 => match read_u64(&f.value) {
                Ok(x) => Ok(Self { access_token: Some(x), ..self }),
                Err(e) => Err((self, e)),
            },
            3 => match read_string(&f.value) {
                Ok(x) => Ok(Self { beta_name: Some(x), ..self }),
                Err(e) => Err((self, e)),
            },
            4 => match read_bytes(&f.value) {
                Ok(x) => Ok(Self { password_hash: Some(x), ..self }),
                Err(e) => Err((self, e)),
            },
            _ => Ok(self),
        }
    }

    /// Reads the records `bytes` holds into this message, in order. When a record does
    /// not parse or is refused, the reading stops there: the message keeps what the
    /// records before it gave, and the error is returned.
    pub fn merge(&mut self, bytes: &[u8]) -> (r: Result<(), WireError>)
        ensures
            final(self)@ == merge_run(old(self)@, bytes@, Self::apply_fn()).0,
            r == match merge_run(old(self)@, bytes@, Self::apply_fn()).1 {
                None => Ok::<(), WireError>(()),
                Some(e) => Err::<(), WireError>(e),
            },
    {
        let ghost total = merge_run(self@, bytes@, Self::apply_fn());
        let mut cur = Self::default();
        std::mem::swap(&mut cur, self);
        let mut pos: usize = 0;
        assert(bytes@.skip(0) =~= bytes@);
        while pos < bytes.len()
            invariant
                pos <= bytes@.len(),
                total == merge_run(old(self)@, bytes@, Self::apply_fn()),
                merge_run(cur@, bytes@.skip(pos as int), Self::apply_fn()) == total,
            decreases bytes@.len() - pos,
        {
            let ghost s = bytes@.skip(pos as int);
            proof {
                lemma_merge_run_step(cur@, s, Self::apply_fn());
                lemma_parse_field_len(s);
            }
            match read_field(bytes, pos) {
                Ok((f, end)) => {
                    assert(bytes@.skip(end as int) =~= s.skip((end - pos) as int));
                    match cur.applied(&f) {
                        Ok(m) => {
                            cur = m;
                        },
                        Err((m, e)) => {
                            *self = m;
                            return Err(e);
                        },
                    }
                    pos = end;
                },
                Err(e) => {
                    *self = cur;
                    return Err(e);
                },
            }
        }
        assert(bytes@.skip(pos as int) =~= Seq::<u8>::empty());
        proof {
            lemma_merge_run_empty(cur@, Self::apply_fn());
        }
        *self = cur;
        Ok(())
    }

    /// Decodes a message from its encoding.
    pub fn decode(bytes: &[u8]) -> (r: Result<Self, WireError>)
        ensures
            match Self::spec_decode(bytes@) {
                Ok(v) => r matches Ok(m) && m@ == v,
                Err(e) => r matches Err(x) && x == e,
            },
    {
        proof {
            reveal(CMsgClientPICSPrivateBetaRequest::spec_decode);
        }
        let mut m = Self::default();
        match m.merge(bytes) {
            Ok(()) => Ok(m),
            Err(e) => Err(e),
        }
    }

    /// The encoding of this message.
    pub fn encode_to_vec(&self) -> (r: Vec<u8>)
        ensures
            r@ == Self::spec_encode(self@),
    {
        let ghost v = self@;
        let mut out: Vec<u8> = Vec::new();
        let ghost p0 = Seq::<SpecField>::empty();
        put_opt_u32(&mut out, 1, self.appid);
        let ghost p1 = p0 + opt_u32(1, v.appid);
        proof {
            lemma_fields_bytes_concat(p0, opt_u32(1, v.appid));
        }
        put_opt_varint(&mut out, 2, self.access_token);
        let ghost p2 = p1 + opt_u64(2, v.access_token);
        proof {
            lemma_fields_bytes_concat(p1, opt_u64(2, v.access_token));
        }
        put_opt_string(&mut out, 3, &self.beta_name);
        let ghost p3 = p2 + opt_string(3, v.beta_name);
        proof {
            lemma_fields_bytes_concat(p2, opt_string(3, v.beta_name));
        }
        put_opt_bytes(&mut out, 4, &self.password_hash);
        let ghost p4 = p3 + opt_bytes(4, v.password_hash);
        proof {
            lemma_fields_bytes_concat(p3, opt_bytes(4, v.password_hash));
        }
        proof {
            reveal(CMsgClientPICSPrivateBetaRequest::spec_encode);
        }
        assert(p4 == Self::spec_fields(v));
        out
    }

    /// Appends the encoding of this message to `out`.
    pub fn encode_raw(&self, out: &mut Vec<u8>)
        ensures
            final(out)@ == old(out)@ + Self::spec_encode(self@),
    {
        let mut b = self.encode_to_vec();
        out.append(&mut b);
    }

    /// The first `k` fields of `v`, the others as a fresh message has them.
    #[verifier::opaque]
    pub open spec fn spec_prefix(v: SpecCMsgClientPICSPrivateBetaRequest, k: int) -> SpecCMsgClientPICSPrivateBetaRequest {
        SpecCMsgClientPICSPrivateBetaRequest {
            appid: if 1 <= k { v.appid } else { None },
            access_token: if 2 <= k { v.access_token } else { None },
            beta_name: if 3 <= k { v.beta_name } else { None },
            password_hash: if 4 <= k { v.password_hash } else { None },
        }
    }

    /// Reading field 1 back, after the fields before it.
    proof fn lemma_field_appid(v: SpecCMsgClientPICSPrivateBetaRequest)
        ensures
            fold_fields(Self::spec_prefix(v, 0), opt_u32(1, v.appid), Self::apply_fn())
                == Ok::<SpecCMsgClientPICSPrivateBetaRequest, WireError>(Self::spec_prefix(v, 1)),
    {
        reveal(CMsgClientPICSPrivateBetaRequest::spec_prefix);
        reveal(opt_u32);
        let apply = Self::apply_fn();
        let s = Self::spec_prefix(v, 0);
        lemma_fold_opt(s, 1, match v.appid { Some(x) => Some(enc_u32(x)), None => None }, apply);
        if let Some(x) = v.appid {
            lemma_u32_roundtrip(x);
        }
        assert(SpecCMsgClientPICSPrivateBetaRequest { appid: v.appid, ..s } == Self::spec_prefix(v, 1));
    }

    /// Reading field 2 back, after the fields before it.
    proof fn lemma_field_access_token(v: SpecCMsgClientPICSPrivateBetaRequest)
        ensures
            fold_fields(Self::spec_prefix(v, 1), opt_u64(2, v.access_token), Self::apply_fn())
                == Ok::<SpecCMsgClientPICSPrivateBetaRequest, WireError>(Self::spec_prefix(v, 2)),
    {
        reveal(CMsgClientPICSPrivateBetaRequest::spec_prefix);
        reveal(opt_u64);
        let apply = Self::apply_fn();
        let s = Self::spec_prefix(v, 1);
        lemma_fold_opt(s, 2, match v.access_token { Some(x) => Some(enc_u64(x)), None => None }, apply);
        if let Some(x) = v.access_token {
            lemma_u64_roundtrip(x);
        }
        assert(SpecCMsgClientPICSPrivateBetaRequest { access_token: v.access_token, ..s } == Self::spec_prefix(v, 2));
    }

    /// Reading field 3 back, after the fields before it.
    proof fn lemma_field_beta_name(v: SpecCMsgClientPICSPrivateBetaRequest)
        ensures
            fold_fields(Self::spec_prefix(v, 2), opt_string(3, v.beta_name), Self::apply_fn())
                == Ok::<SpecCMsgClientPICSPrivateBetaRequest, WireError>(Self::spec_prefix(v, 3)),
    {
        reveal(CMsgClientPICSPrivateBetaRequest::spec_prefix);
        reveal(opt_string);
        let apply = Self::apply_fn();
        let s = Self::spec_prefix(v, 2);
        lemma_fold_opt(s, 3, match v.beta_name { Some(x) => Some(enc_string(x)), None => None }, apply);
        if let Some(x) = v.beta_name {
            lemma_string_roundtrip(x);
        }
        assert(SpecCMsgClientPICSPrivateBetaRequest { beta_name: v.beta_name, ..s } == Self::spec_prefix(v, 3));
    }

    /// Reading field 4 back, after the fields before it.
    proof fn lemma_field_password_hash(v: SpecCMsgClientPICSPrivateBetaRequest)
        ensures
            fold_fields(Self::spec_prefix(v, 3), opt_bytes(4, v.password_hash), Self::apply_fn())
                == Ok::<SpecCMsgClientPICSPrivateBetaRequest, WireError>(Self::spec_prefix(v, 4)),
    {
        reveal(CMsgClientPICSPrivateBetaRequest::spec_prefix);
        reveal(opt_bytes);
        let apply = Self::apply_fn();
        let s = Self::spec_prefix(v, 3);
        lemma_fold_opt(s, 4, match v.password_hash { Some(x) => Some(enc_bytes(x)), None => None }, apply);
        assert(SpecCMsgClientPICSPrivateBetaRequest { password_hash: v.password_hash, ..s } == Self::spec_prefix(v, 4));
    }

    /// Whether this message declares field number `n`.
    pub open spec fn declares(n: u32) -> bool {
        n == 1 || n == 2 || n == 3 || n == 4
    }

    /// A record with a number this message does not declare is passed over: well-formed
    /// bytes decode to the same message with such a record after them as without it.
    pub proof fn lemma_unknown_field(bytes: Seq<u8>, f: SpecField)
        requires
            parse_fields(bytes) is Ok,
            field_wf(f),
            !Self::declares(f.number),
        ensures
            Self::spec_decode(bytes + field_bytes(f)) == Self::spec_decode(bytes),
    {
        reveal(CMsgClientPICSPrivateBetaRequest::spec_decode);
        lemma_parse_fields_append(bytes, f);
        let fs = parse_fields(bytes).unwrap();
        let apply = Self::apply_fn();
        lemma_fold_concat(Self::spec_default(), fs, seq![f], apply);
        assert(fs.push(f) =~= fs + seq![f]);
        if let Ok(w) = fold_fields(Self::spec_default(), fs, apply) {
            lemma_fold_single(w, f, apply);
        }
        lemma_merge_run_fold(Self::spec_default(), bytes, apply);
        lemma_merge_run_fold(Self::spec_default(), bytes + field_bytes(f), apply);
    }

    /// Decoding the encoding of a message gives the message back.
    pub proof fn lemma_decode_encode(v: SpecCMsgClientPICSPrivateBetaRequest)
        requires
            Self::spec_encode(v).len() <= u64::MAX,
        ensures
            Self::spec_decode(Self::spec_encode(v)) == Ok::<SpecCMsgClientPICSPrivateBetaRequest, WireError>(v),
    {
        let apply = Self::apply_fn();
        let d = Self::spec_default();
        let p0 = Seq::<SpecField>::empty();
        let l1 = opt_u32(1, v.appid);
        let p1 = p0 + l1;
        let l2 = opt_u64(2, v.access_token);
        let p2 = p1 + l2;
        let l3 = opt_string(3, v.beta_name);
        let p3 = p2 + l3;
        let l4 = opt_bytes(4, v.password_hash);
        let p4 = p3 + l4;
        assert(parse_fields(Self::spec_encode(v)) == Ok::<Seq<SpecField>, WireError>(p4)) by {
            reveal(CMsgClientPICSPrivateBetaRequest::spec_encode);
            assert(numbers_ok(p0) && fields_wf(p0)) by {
                reveal(numbers_ok);
                reveal(fields_wf);
            }
            lemma_opt_u32_numbered(1, v.appid);
            lemma_fields_wf_concat(p0, l1);
            lemma_opt_u64_numbered(2, v.access_token);
            lemma_fields_wf_concat(p1, l2);
            lemma_opt_string_numbered(3, v.beta_name);
            lemma_fields_wf_concat(p2, l3);
            lemma_opt_bytes_numbered(4, v.password_hash);
            lemma_fields_wf_concat(p3, l4);
            assert(p4 == Self::spec_fields(v));
            lemma_fields_wf_from_len(p4);
            lemma_fields_roundtrip(p4);
        }
        assert(Self::spec_prefix(v, 0) == d) by {
            reveal(CMsgClientPICSPrivateBetaRequest::spec_prefix);
        }
        lemma_fold_empty(d, apply);
        lemma_fold_concat(d, p0, l1, apply);
        Self::lemma_field_appid(v);
        lemma_fold_concat(d, p1, l2, apply);
        Self::lemma_field_access_token(v);
        lemma_fold_concat(d, p2, l3, apply);
        Self::lemma_field_beta_name(v);
        lemma_fold_concat(d, p3, l4, apply);
        Self::lemma_field_password_hash(v);
        assert(Self::spec_prefix(v, 4) == v) by {
            reveal(CMsgClientPICSPrivateBetaRequest::spec_prefix);
        }
        lemma_merge_run_fold(d, Self::spec_encode(v), apply);
        assert(Self::spec_decode(Self::spec_encode(v)) == Ok::<SpecCMsgClientPICSPrivateBetaRequest, WireError>(v)) by {
            reveal(CMsgClientPICSPrivateBetaRequest::spec_decode);
        }
    }
}

/// `CMsgClientPICSPrivateBetaResponse`, as Valve's schema declares it.
#[derive(Debug, Clone, PartialEq)]
pub struct CMsgClientPICSPrivateBetaResponse {
    /// Field 1.
    pub eresult: Option<i32>,
    /// Field 2.
    pub depot_section: Option<Vec<u8>>,
}

/// What a `CMsgClientPICSPrivateBetaResponse` holds, as mathematical values.
#[verifier::ext_equal]
pub struct SpecCMsgClientPICSPrivateBetaResponse {
    pub eresult: Option<i32>,
    pub depot_section: Option<Seq<u8>>,
}

impl View for CMsgClientPICSPrivateBetaResponse {
    type V = SpecCMsgClientPICSPrivateBetaResponse;

    open spec fn view(&self) -> SpecCMsgClientPICSPrivateBetaResponse {
        SpecCMsgClientPICSPrivateBetaResponse {
            eresult: self.eresult,
            depot_section: opt_bytes_view(self.depot_section),
        }
    }
}

impl Default for CMsgClientPICSPrivateBetaResponse {
    fn default() -> (r: Self)
        ensures
            r@ == CMsgClientPICSPrivateBetaResponse::spec_default(),
    {
        CMsgClientPICSPrivateBetaResponse {
            eresult: None,
            depot_section: None,
        }
    }
}

impl CMsgClientPICSPrivateBetaResponse {
    /// Field 1, or its schema default when absent.
    pub fn eresult_or_default(&self) -> (r: i32)
        ensures
            r == match self.eresult {
                Some(x) => x,
                None => 2i32,
            },
    {
        self.eresult.unwrap_or(2i32)
    }

    pub open spec fn spec_default() -> SpecCMsgClientPICSPrivateBetaResponse {
        SpecCMsgClientPICSPrivateBetaResponse {
            eresult: None,
            depot_section: None,
        }
    }

    /// The records a `CMsgClientPICSPrivateBetaResponse` is written as, in field order.
    pub open spec fn spec_fields(v: SpecCMsgClientPICSPrivateBetaResponse) -> Seq<SpecField> {
        Seq::<SpecField>::empty()
            + opt_i32(1, v.eresult)
            + opt_bytes(2, v.depot_section)
    }

    #[verifier::opaque]
    pub open spec fn spec_encode(v: SpecCMsgClientPICSPrivateBetaResponse) -> Seq<u8> {
        fields_bytes(Self::spec_fields(v))
    }

    /// What one record does to the message: a declared number sets or extends its
    /// field, any other number is left alone.
    pub open spec fn spec_apply(v: SpecCMsgClientPICSPrivateBetaResponse, f: SpecField) -> Result<SpecCMsgClientPICSPrivateBetaResponse, WireError> {
        match f.number {
            1 => match dec_i32(f.value) {
                Ok(x) => Ok(SpecCMsgClientPICSPrivateBetaResponse { eresult: Some(x), ..v }),
                Err(e) => Err(e),
            },
            2 => match dec_bytes(f.value) {
                Ok(x) => Ok(SpecCMsgClientPICSPrivateBetaResponse { depot_section: Some(x), ..v }),
                Err(e) => Err(e),
            },
            _ => Ok(v),
        }
    }

    pub open spec fn apply_fn() -> spec_fn(SpecCMsgClientPICSPrivateBetaResponse, SpecField) -> Result<SpecCMsgClientPICSPrivateBetaResponse, WireError> {
        |v: SpecCMsgClientPICSPrivateBetaResponse, f: SpecField| Self::spec_apply(v, f)
    }

    /// The message `bytes` makes of `v`: its records applied in order, or the error
    /// that stops the reading.
    pub open spec fn spec_merge(v: SpecCMsgClientPICSPrivateBetaResponse, bytes: Seq<u8>) -> Result<SpecCMsgClientPICSPrivateBetaResponse, WireError> {
        let (w, stop) = merge_run(v, bytes, Self::apply_fn());
        match stop {
            None => Ok(w),
            Some(e) => Err(e),
        }
    }

    #[verifier::opaque]
    pub open spec fn spec_decode(bytes: Seq<u8>) -> Result<SpecCMsgClientPICSPrivateBetaResponse, WireError> {
        Self::spec_merge(Self::spec_default(), bytes)
    }

    /// This message with one record applied to it, or, when the record is refused,
    /// the message unchanged and the reason.
    fn applied(self, f: &Field) -> (r: Result<Self, (Self, WireError)>)
        ensures
            match Self::spec_apply(self@, f@) {
                Ok(v) => r matches Ok(m) && m@ == v,
                Err(e) => r matches Err((m, x)) && x == e && m@ == self@,
            },
    {
        match f.number {
            1 => match read_i32(&f.value) {
                Ok(x) => Ok(Self { eresult: Some(x), ..self }),
                Err(e) => Err((self, e)),
            },
            2 => match read_bytes(&f.value) {
                Ok(x) => Ok(Self { depot_section: Some(x), ..self }),
                Err(e) => Err((self, e)),
            },
            _ => Ok(self),
        }
    }

    /// Reads the records `bytes` holds into this message, in order. When a record does
    /// not parse or is refused, the reading stops there: the message keeps what the
    /// records before it gave, and the error is returned.
    pub fn merge(&mut self, bytes: &[u8]) -> (r: Result<(), WireError>)
        ensures
            final(self)@ == merge_run(old(self)@, bytes@, Self::apply_fn()).0,
            r == match merge_run(old(self)@, bytes@, Self::apply_fn()).1 {
                None => Ok::<(), WireError>(()),
                Some(e) => Err::<(), WireError>(e),
            },
    {
        let ghost total = merge_run(self@, bytes@, Self::apply_fn());
        let mut cur = Self::default();
        std::mem::swap(&mut cur, self);
        let mut pos: usize = 0;
        assert(bytes@.skip(0) =~= bytes@);
        while pos < bytes.len()
            invariant
                pos <= bytes@.len(),
                total == merge_run(old(self)@, bytes@, Self::apply_fn()),
                merge_run(cur@, bytes@.skip(pos as int), Self::apply_fn()) == total,
            decreases bytes@.len() - pos,
        {
            let ghost s = bytes@.skip(pos as int);
            proof {
                lemma_merge_run_step(cur@, s, Self::apply_fn());
                lemma_parse_field_len(s);
            }
            match read_field(bytes, pos) {
                Ok((f, end)) => {
                    assert(bytes@.skip(end as int) =~= s.skip((end - pos) as int));
                    match cur.applied(&f) {
                        Ok(m) => {
                            cur = m;
                        },
                        Err((m, e)) => {
                            *self = m;
                            return Err(e);
                        },
                    }
                    pos = end;
                },
                Err(e) => {
                    *self = cur;
                    return Err(e);
                },
            }
        }
        assert(bytes@.skip(pos as int) =~= Seq::<u8>::empty());
        proof {
            lemma_merge_run_empty(cur@, Self::apply_fn());
        }
        *self = cur;
        Ok(())
    }

    /// Decodes a message from its encoding.
    pub fn decode(bytes: &[u8]) -> (r: Result<Self, WireError>)
        ensures
            match Self::spec_decode(bytes@) {
                Ok(v) => r matches Ok(m) && m@ == v,
                Err(e) => r matches Err(x) && x == e,
            },
    {
        proof {
            reveal(CMsgClientPICSPrivateBetaResponse::spec_decode);
        }
        let mut m = Self::default();
        match m.merge(bytes) {
            Ok(()) => Ok(m),
            Err(e) => Err(e),
        }
    }

    /// The encoding of this message.
    pub fn encode_to_vec(&self) -> (r: Vec<u8>)
        ensures
            r@ == Self::spec_encode(self@),
    {
        let ghost v = self@;
        let mut out: Vec<u8> = Vec::new();
        let ghost p0 = Seq::<SpecField>::empty();
        put_opt_i32(&mut out, 1, self.eresult);
        let ghost p1 = p0 + opt_i32(1, v.eresult);
        proof {
            lemma_fields_bytes_concat(p0, opt_i32(1, v.eresult));
        }
        put_opt_bytes(&mut out, 2, &self.depot_section);
        let ghost p2 = p1 + opt_bytes(2, v.depot_section);
        proof {
            lemma_fields_bytes_concat(p1, opt_bytes(2, v.depot_section));
        }
        proof {
            reveal(CMsgClientPICSPrivateBetaResponse::spec_encode);
        }
        assert(p2 == Self::spec_fields(v));
        out
    }

    /// Appends the encoding of this message to `out`.
    pub fn encode_raw(&self, out: &mut Vec<u8>)
        ensures
            final(out)@ == old(out)@ + Self::spec_encode(self@),
    {
        let mut b = self.encode_to_vec();
        out.append(&mut b);
    }

    /// The first `k` fields of `v`, the others as a fresh message has them.
    #[verifier::opaque]
    pub open spec fn spec_prefix(v: SpecCMsgClientPICSPrivateBetaResponse, k: int) -> SpecCMsgClientPICSPrivateBetaResponse {
        SpecCMsgClientPICSPrivateBetaResponse {
            eresult: if 1 <= k { v.eresult } else { None },
            depot_section: if 2 <= k { v.depot_section } else { None },
        }
    }

    /// Reading field 1 back, after the fields before it.
    proof fn lemma_field_eresult(v: SpecCMsgClientPICSPrivateBetaResponse)
        ensures
            fold_fields(Self::spec_prefix(v, 0), opt_i32(1, v.eresult), Self::apply_fn())
                == Ok::<SpecCMsgClientPICSPrivateBetaResponse, WireError>(Self::spec_prefix(v, 1)),
    {
        reveal(CMsgClientPICSPrivateBetaResponse::spec_prefix);
        reveal(opt_i32);
        let apply = Self::apply_fn();
        let s = Self::spec_prefix(v, 0);
        lemma_fold_opt(s, 1, match v.eresult { Some(x) => Some(enc_i32(x)), None => None }, apply);
        if let Some(x) = v.eresult {
            lemma_i32_roundtrip(x);
        }
        assert(SpecCMsgClientPICSPrivateBetaResponse { eresult: v.eresult, ..s } == Self::spec_prefix(v, 1));
    }

    /// Reading field 2 back, after the fields before it.
    proof fn lemma_field_depot_section(v: SpecCMsgClientPICSPrivateBetaResponse)
        ensures
            fold_fields(Self::spec_prefix(v, 1), opt_bytes(2, v.depot_section), Self::apply_fn())
                == Ok::<SpecCMsgClientPICSPrivateBetaResponse, WireError>(Self::spec_prefix(v, 2)),
    {
        reveal(CMsgClientPICSPrivateBetaResponse::spec_prefix);
        reveal(opt_bytes);
        let apply = Self::apply_fn();
        let s = Self::spec_prefix(v, 1);
        lemma_fold_opt(s, 2, match v.depot_section { Some(x) => Some(enc_bytes(x)), None => None }, apply);
        assert(SpecCMsgClientPICSPrivateBetaResponse { depot_section: v.depot_section, ..s } == Self::spec_prefix(v, 2));
    }

    /// Whether this message declares field number `n`.
    pub open spec fn declares(n: u32) -> bool {
        n == 1 || n == 2
    }

    /// A record with a number this message does not declare is passed over: well-formed
    /// bytes decode to the same message with such a record after them as without it.
    pub proof fn lemma_unknown_field(bytes: Seq<u8>, f: SpecField)
        requires
            parse_fields(bytes) is Ok,
            field_wf(f),
            !Self::declares(f.number),
        ensures
            Self::spec_decode(bytes + field_bytes(f)) == Self::spec_decode(bytes),
    {
        reveal(CMsgClientPICSPrivateBetaResponse::spec_decode);
        lemma_parse_fields_append(bytes, f);
        let fs = parse_fields(bytes).unwrap();
        let apply = Self::apply_fn();
        lemma_fold_concat(Self::spec_default(), fs, seq![f], apply);
        assert(fs.push(f) =~= fs + seq![f]);
        if let Ok(w) = fold_fields(Self::spec_default(), fs, apply) {
            lemma_fold_single(w, f, apply);
        }
        lemma_merge_run_fold(Self::spec_default(), bytes, apply);
        lemma_merge_run_fold(Self::spec_default(), bytes + field_bytes(f), apply);
    }

    /// Decoding the encoding of a message gives the message back.
    pub proof fn lemma_decode_encode(v: SpecCMsgClientPICSPrivateBetaResponse)
        requires
            Self::spec_encode(v).len() <= u64::MAX,
        ensures
            Self::spec_decode(Self::spec_encode(v)) == Ok::<SpecCMsgClientPICSPrivateBetaResponse, WireError>(v),
    {
        let apply = Self::apply_fn();
        let d = Self::spec_default();
        let p0 = Seq::<SpecField>::empty();
        let l1 = opt_i32(1, v.eresult);
        let p1 = p0 + l1;
        let l2 = opt_bytes(2, v.depot_section);
        let p2 = p1 + l2;
        assert(parse_fields(Self::spec_encode(v)) == Ok::<Seq<SpecField>, WireError>(p2)) by {
            reveal(CMsgClientPICSPrivateBetaResponse::spec_encode);
            assert(numbers_ok(p0) && fields_wf(p0)) by {
                reveal(numbers_ok);
                reveal(fields_wf);
            }
            lemma_opt_i32_numbered(1, v.eresult);
            lemma_fields_wf_concat(p0, l1);
            lemma_opt_bytes_numbered(2, v.depot_section);
            lemma_fields_wf_concat(p1, l2);
            assert(p2 == Self::spec_fields(v));
            lemma_fields_wf_from_len(p2);
            lemma_fields_roundtrip(p2);
        }
        assert(Self::spec_prefix(v, 0) == d) by {
            reveal(CMsgClientPICSPrivateBetaResponse::spec_prefix);
        }
        lemma_fold_empty(d, apply);
        lemma_fold_concat(d, p0, l1, apply);
        Self::lemma_field_eresult(v);
        lemma_fold_concat(d, p1, l2, apply);
        Self::lemma_field_depot_section(v);
        assert(Self::spec_prefix(v, 2) == v) by {
            reveal(CMsgClientPICSPrivateBetaResponse::spec_prefix);
        }
        lemma_merge_run_fold(d, Self::spec_encode(v), apply);
        assert(Self::spec_decode(Self::spec_encode(v)) == Ok::<SpecCMsgClientPICSPrivateBetaResponse, WireError>(v)) by {
            reveal(CMsgClientPICSPrivateBetaResponse::spec_decode);
        }
    }
}

} // verus!
