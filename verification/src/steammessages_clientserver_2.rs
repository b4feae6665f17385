//! Messages and enums of `steammessages_clientserver_2.proto`.

#![allow(non_camel_case_types, non_snake_case, non_upper_case_globals)]

pub mod c_msg_client_rich_presence_info;
pub mod c_msg_client_check_app_beta_password_response;
pub mod c_msg_client_ugs_get_global_stats_response;
pub mod c_msg_gc_client;
pub mod c_msg_client_item_announcements;
pub mod c_msg_client_user_notifications;
pub mod c_msg_client_chat_get_friend_message_history_response;
pub mod c_msg_client_fs_get_friends_steam_levels_response;
pub mod c_msg_cre_item_vote_summary;
pub mod c_msg_cre_item_vote_summary_response;
pub mod c_msg_cre_get_user_published_item_vote_details;
pub mod c_msg_cre_get_user_published_item_vote_details_response;
pub mod c_msg_client_use_local_device_authorizations;
pub mod c_msg_client_get_authorized_devices_response;
pub mod c_msg_client_shared_library_lock_status;
pub mod c_msg_client_shared_library_stop_playing;


use vstd::prelude::*;

use crate::codec::{
    dec_bool, dec_bytes, dec_fixed32, dec_fixed64, dec_i32, dec_packed_fixed64, dec_packed_u32,
    dec_packed_varint, dec_string, dec_u32, dec_u64, enc_bool, enc_bytes, enc_fixed32,
    enc_fixed64, enc_i32, enc_string, enc_u32, enc_u64, fold_fields, lemma_fold_chain,
    lemma_fold_concat, lemma_fold_empty, lemma_fold_opt, lemma_fold_single, lemma_i32_roundtrip,
    lemma_merge_run_empty, lemma_merge_run_fold, lemma_merge_run_step, lemma_opt_bool_numbered,
    lemma_opt_bytes_numbered, lemma_opt_fixed32_numbered, lemma_opt_fixed64_numbered,
    lemma_opt_i32_numbered, lemma_opt_string_numbered, lemma_opt_u32_numbered,
    lemma_opt_u64_numbered, lemma_rep_bytes_numbered, lemma_rep_fixed64_numbered,
    lemma_rep_u32_numbered, lemma_rep_u64_numbered, lemma_string_roundtrip, lemma_u32_roundtrip,
    lemma_u64_roundtrip, merge_run, opt_bool, opt_bytes, opt_bytes_view, opt_fixed32,
    opt_fixed64, opt_i32, opt_string, opt_string_view, opt_u32, opt_u64, put_opt_bool,
    put_opt_bytes, put_opt_fixed32, put_opt_fixed64, put_opt_i32, put_opt_string, put_opt_u32,
    put_opt_varint, put_rep_bytes, put_rep_fixed64, put_rep_u32, put_rep_u64, read_bool,
    read_bytes, read_fixed32, read_fixed64, read_i32, read_packed_fixed64, read_packed_u32,
    read_packed_varints, read_payload, read_string, read_u32, read_u64, rep_bytes, rep_fixed64,
    rep_u32, rep_u64,
};

use crate::wire::fields::{
    field_bytes, field_wf, fields_bytes, fields_wf, lemma_fields_bytes_concat,
    lemma_fields_roundtrip, lemma_fields_wf_concat, lemma_fields_wf_from_len,
    lemma_parse_field_len, lemma_parse_fields_append, numbers_ok, parse_fields, read_field,
    Field, SpecField,
};
use crate::wire::varint::WireError;

verus! {

/// `CMsgClientUpdateUserGameInfo`, as Valve's schema declares it.
#[derive(Debug, Clone, PartialEq)]
pub struct CMsgClientUpdateUserGameInfo {
    /// Field 1.
    pub steamid_idgs: Option<u64>,
    /// Field 2.
    pub gameid: Option<u64>,
    /// Field 3.
    pub game_ip: Option<u32>,
    /// Field 4.
    pub game_port: Option<u32>,
    /// Field 5.
    pub token: Option<Vec<u8>>,
}

/// What a `CMsgClientUpdateUserGameInfo` holds, as mathematical values.
#[verifier::ext_equal]
pub struct SpecCMsgClientUpdateUserGameInfo {
    pub steamid_idgs: Option<u64>,
    pub gameid: Option<u64>,
    pub game_ip: Option<u32>,
    pub game_port: Option<u32>,
    pub token: Option<Seq<u8>>,
}

impl View for CMsgClientUpdateUserGameInfo {
    type V = SpecCMsgClientUpdateUserGameInfo;

    open spec fn view(&self) -> SpecCMsgClientUpdateUserGameInfo {
        SpecCMsgClientUpdateUserGameInfo {
            steamid_idgs: self.steamid_idgs,
            gameid: self.gameid,
            game_ip: self.game_ip,
            game_port: self.game_port,
            token: opt_bytes_view(self.token),
        }
    }
}

impl Default for CMsgClientUpdateUserGameInfo {
    fn default() -> (r: Self)
        ensures
            r@ == CMsgClientUpdateUserGameInfo::spec_default(),
    {
        CMsgClientUpdateUserGameInfo {
            steamid_idgs: None,
            gameid: None,
            game_ip: None,
            game_port: None,
            token: None,
        }
    }
}

impl CMsgClientUpdateUserGameInfo {
    pub open spec fn spec_default() -> SpecCMsgClientUpdateUserGameInfo {
        SpecCMsgClientUpdateUserGameInfo {
            steamid_idgs: None,
            gameid: None,
            game_ip: None,
            game_port: None,
            token: None,
        }
    }

    /// The records a `CMsgClientUpdateUserGameInfo` is written as, in field order.
    pub open spec fn spec_fields(v: SpecCMsgClientUpdateUserGameInfo) -> Seq<SpecField> {
        Seq::<SpecField>::empty()
            + opt_fixed64(1, v.steamid_idgs)
            + opt_fixed64(2, v.gameid)
            + opt_u32(3, v.game_ip)
            + opt_u32(4, v.game_port)
            + opt_bytes(5, v.token)
    }

    #[verifier::opaque]
    pub open spec fn spec_encode(v: SpecCMsgClientUpdateUserGameInfo) -> Seq<u8> {
        fields_bytes(Self::spec_fields(v))
    }

    /// What one record does to the message: a declared number sets or extends its
    /// field, any other number is left alone.
    pub open spec fn spec_apply(v: SpecCMsgClientUpdateUserGameInfo, f: SpecField) -> Result<SpecCMsgClientUpdateUserGameInfo, WireError> {
        match f.number {
            1 => match dec_fixed64(f.value) {
                Ok(x) => Ok(SpecCMsgClientUpdateUserGameInfo { steamid_idgs: Some(x), ..v }),
                Err(e) => Err(e),
            },
            2 => match dec_fixed64(f.value) {
                Ok(x) => Ok(SpecCMsgClientUpdateUserGameInfo { gameid: Some(x), ..v }),
                Err(e) => Err(e),
            },
            3 => match dec_u32(f.value) {
                Ok(x) => Ok(SpecCMsgClientUpdateUserGameInfo { game_ip: Some(x), ..v }),
                Err(e) => Err(e),
            },
            4 => match dec_u32(f.value) {
                Ok(x) => Ok(SpecCMsgClientUpdateUserGameInfo { game_port: Some(x), ..v }),
                Err(e) => Err(e),
            },
            5 => match dec_bytes(f.value) {
                Ok(x) => Ok(SpecCMsgClientUpdateUserGameInfo { token: Some(x), ..v }),
                Err(e) => Err(e),
            },
            _ => Ok(v),
        }
    }

    pub open spec fn apply_fn() -> spec_fn(SpecCMsgClientUpdateUserGameInfo, SpecField) -> Result<SpecCMsgClientUpdateUserGameInfo, WireError> {
        |v: SpecCMsgClientUpdateUserGameInfo, f: SpecField| Self::spec_apply(v, f)
    }

    /// The message `bytes` makes of `v`: its records applied in order, or the error
    /// that stops the reading.
    pub open spec fn spec_merge(v: SpecCMsgClientUpdateUserGameInfo, bytes: Seq<u8>) -> Result<SpecCMsgClientUpdateUserGameInfo, WireError> {
        let (w, stop) = merge_run(v, bytes, Self::apply_fn());
        match stop {
            None => Ok(w),
            Some(e) => Err(e),
        }
    }

    #[verifier::opaque]
    pub open spec fn spec_decode(bytes: Seq<u8>) -> Result<SpecCMsgClientUpdateUserGameInfo, WireError> {
        Self::spec_merge(Self::spec_default(), bytes)
    }

    /// This message with one record applied to it, or, when the record is refused,
    /// the message unchanged and the reason.
    fn applied(self, f: &Field) -> (r: Result<Self, (Self, WireError)>)
        ensures
            match Self::spec_apply(self@, f@) {
                Ok(v) => r matches Ok(m) && m@ == v,
                Err(e) => r matches Err((m, x)) && x == e && m@ == self@,
            },
    {
        match f.number {
            1 => match read_fixed64(&f.value) {
                Ok(x) => Ok(Self { steamid_idgs: Some(x), ..self }),
                Err(e) => Err((self, e)),
            },
            2 => match read_fixed64(&f.value) {
                Ok(x) => Ok(Self { gameid: Some(x), ..self }),
                Err(e) => Err((self, e)),
            },
            3 => match read_u32(&f.value) {
                Ok(x) => Ok(Self { game_ip: Some(x), ..self }),
                Err(e) => Err((self, e)),
            },
            4 => match read_u32(&f.value) {
                Ok(x) => Ok(Self { game_port: Some(x), ..self }),
                Err(e) => Err((self, e)),
            },
            5 => match read_bytes(&f.value) {
                Ok(x) => Ok(Self { token: Some(x), ..self }),
                Err(e) => Err((self, e)),
            },
            _ => Ok(self),
        }
    }

    /// Reads the records `bytes` holds into this message, in order. When a record does
    /// not parse or is refused, the reading stops there: the message keeps what the
    /// records before it gave, and the error is returned.
    pub fn merge(&mut self, bytes: &[u8]) -> (r: Result<(), WireError>)
        ensures
            final(self)@ == merge_run(old(self)@, bytes@, Self::apply_fn()).0,
            r == match merge_run(old(self)@, bytes@, Self::apply_fn()).1 {
                None => Ok::<(), WireError>(()),
                Some(e) => Err::<(), WireError>(e),
            },
    {
        let ghost total = merge_run(self@, bytes@, Self::apply_fn());
        let mut cur = Self::default();
        std::mem::swap(&mut cur, self);
        let mut pos: usize = 0;
        assert(bytes@.skip(0) =~= bytes@);
        while pos < bytes.len()
            invariant
                pos <= bytes@.len(),
                total == merge_run(old(self)@, bytes@, Self::apply_fn()),
                merge_run(cur@, bytes@.skip(pos as int), Self::apply_fn()) == total,
            decreases bytes@.len() - pos,
        {
            let ghost s = bytes@.skip(pos as int);
            proof {
                lemma_merge_run_step(cur@, s, Self::apply_fn());
                lemma_parse_field_len(s);
            }
            match read_field(bytes, pos) {
                Ok((f, end)) => {
                    assert(bytes@.skip(end as int) =~= s.skip((end - pos) as int));
                    match cur.applied(&f) {
                        Ok(m) => {
                            cur = m;
                        },
                        Err((m, e)) => {
                            *self = m;
                            return Err(e);
                        },
                    }
                    pos = end;
                },
                Err(e) => {
                    *self = cur;
                    return Err(e);
                },
            }
        }
        assert(bytes@.skip(pos as int) =~= Seq::<u8>::empty());
        proof {
            lemma_merge_run_empty(cur@, Self::apply_fn());
        }
        *self = cur;
        Ok(())
    }

    /// Decodes a message from its encoding.
    pub fn decode(bytes: &[u8]) -> (r: Result<Self, WireError>)
        ensures
            match Self::spec_decode(bytes@) {
                Ok(v) => r matches Ok(m) && m@ == v,
                Err(e) => r matches Err(x) && x == e,
            },
    {
        proof {
            reveal(CMsgClientUpdateUserGameInfo::spec_decode);
        }
        let mut m = Self::default();
        match m.merge(bytes) {
            Ok(()) => Ok(m),
            Err(e) => Err(e),
        }
    }

    /// The encoding of this message.
    pub fn encode_to_vec(&self) -> (r: Vec<u8>)
        ensures
            r@ == Self::spec_encode(self@),
    {
        let ghost v = self@;
        let mut out: Vec<u8> = Vec::new();
        let ghost p0 = Seq::<SpecField>::empty();
        put_opt_fixed64(&mut out, 1, self.steamid_idgs);
        let ghost p1 = p0 + opt_fixed64(1, v.steamid_idgs);
        proof {
            lemma_fields_bytes_concat(p0, opt_fixed64(1, v.steamid_idgs));
        }
        put_opt_fixed64(&mut out, 2, self.gameid);
        let ghost p2 = p1 + opt_fixed64(2, v.gameid);
        proof {
            lemma_fields_bytes_concat(p1, opt_fixed64(2, v.gameid));
        }
        put_opt_u32(&mut out, 3, self.game_ip);
        let ghost p3 = p2 + opt_u32(3, v.game_ip);
        proof {
            lemma_fields_bytes_concat(p2, opt_u32(3, v.game_ip));
        }
        put_opt_u32(&mut out, 4, self.game_port);
        let ghost p4 = p3 + opt_u32(4, v.game_port);
        proof {
            lemma_fields_bytes_concat(p3, opt_u32(4, v.game_port));
        }
        put_opt_bytes(&mut out, 5, &self.token);
        let ghost p5 = p4 + opt_bytes(5, v.token);
        proof {
            lemma_fields_bytes_concat(p4, opt_bytes(5, v.token));
        }
        proof {
            reveal(CMsgClientUpdateUserGameInfo::spec_encode);
        }
        assert(p5 == Self::spec_fields(v));
        out
    }

    /// Appends the encoding of this message to `out`.
    pub fn encode_raw(&self, out: &mut Vec<u8>)
        ensures
            final(out)@ == old(out)@ + Self::spec_encode(self@),
    {
        let mut b = self.encode_to_vec();
        out.append(&mut b);
    }

    /// The first `k` fields of `v`, the others as a fresh message has them.
    #[verifier::opaque]
    pub open spec fn spec_prefix(v: SpecCMsgClientUpdateUserGameInfo, k: int) -> SpecCMsgClientUpdateUserGameInfo {
        SpecCMsgClientUpdateUserGameInfo {
            steamid_idgs: if 1 <= k { v.steamid_idgs } else { None },
            gameid: if 2 <= k { v.gameid } else { None },
            game_ip: if 3 <= k { v.game_ip } else { None },
            game_port: if 4 <= k { v.game_port } else { None },
            token: if 5 <= k { v.token } else { None },
        }
    }

    /// Reading field 1 back, after the fields before it.
    proof fn lemma_field_steamid_idgs(v: SpecCMsgClientUpdateUserGameInfo)
        ensures
            fold_fields(Self::spec_prefix(v, 0), opt_fixed64(1, v.steamid_idgs), Self::apply_fn())
                == Ok::<SpecCMsgClientUpdateUserGameInfo, WireError>(Self::spec_prefix(v, 1)),
    {
        reveal(CMsgClientUpdateUserGameInfo::spec_prefix);
        reveal(opt_fixed64);
        let apply = Self::apply_fn();
        let s = Self::spec_prefix(v, 0);
        lemma_fold_opt(s, 1, match v.steamid_idgs { Some(x) => Some(enc_fixed64(x)), None => None }, apply);
        if let Some(x) = v.steamid_idgs {
            lemma_u64_roundtrip(x);
        }
        assert(SpecCMsgClientUpdateUserGameInfo { steamid_idgs: v.steamid_idgs, ..s } == Self::spec_prefix(v, 1));
    }

    /// Reading field 2 back, after the fields before it.
    proof fn lemma_field_gameid(v: SpecCMsgClientUpdateUserGameInfo)
        ensures
            fold_fields(Self::spec_prefix(v, 1), opt_fixed64(2, v.gameid), Self::apply_fn())
                == Ok::<SpecCMsgClientUpdateUserGameInfo, WireError>(Self::spec_prefix(v, 2)),
    {
        reveal(CMsgClientUpdateUserGameInfo::spec_prefix);
        reveal(opt_fixed64);
        let apply = Self::apply_fn();
        let s = Self::spec_prefix(v, 1);
        lemma_fold_opt(s, 2, match v.gameid { Some(x) => Some(enc_fixed64(x)), None => None }, apply);
        if let Some(x) = v.gameid {
            lemma_u64_roundtrip(x);
        }
        assert(SpecCMsgClientUpdateUserGameInfo { gameid: v.gameid, ..s } == Self::spec_prefix(v, 2));
    }

    /// Reading field 3 back, after the fields before it.
    proof fn lemma_field_game_ip(v: SpecCMsgClientUpdateUserGameInfo)
        ensures
            fold_fields(Self::spec_prefix(v, 2), opt_u32(3, v.game_ip), Self::apply_fn())
                == Ok::<SpecCMsgClientUpdateUserGameInfo, WireError>(Self::spec_prefix(v, 3)),
    {
        reveal(CMsgClientUpdateUserGameInfo::spec_prefix);
        reveal(opt_u32);
        let apply = Self::apply_fn();
        let s = Self::spec_prefix(v, 2);
        lemma_fold_opt(s, 3, match v.game_ip { Some(x) => Some(enc_u32(x)), None => None }, apply);
        if let Some(x) = v.game_ip {
            lemma_u32_roundtrip(x);
        }
        assert(SpecCMsgClientUpdateUserGameInfo { game_ip: v.game_ip, ..s } == Self::spec_prefix(v, 3));
    }

    /// Reading field 4 back, after the fields before it.
    proof fn lemma_field_game_port(v: SpecCMsgClientUpdateUserGameInfo)
        ensures
            fold_fields(Self::spec_prefix(v, 3), opt_u32(4, v.game_port), Self::apply_fn())
                == Ok::<SpecCMsgClientUpdateUserGameInfo, WireError>(Self::spec_prefix(v, 4)),
    {
        reveal(CMsgClientUpdateUserGameInfo::spec_prefix);
        reveal(opt_u32);
        let apply = Self::apply_fn();
        let s = Self::spec_prefix(v, 3);
        lemma_fold_opt(s, 4, match v.game_port { Some(x) => Some(enc_u32(x)), None => None }, apply);
        if let Some(x) = v.game_port {
            lemma_u32_roundtrip(x);
        }
        assert(SpecCMsgClientUpdateUserGameInfo { game_port: v.game_port, ..s } == Self::spec_prefix(v, 4));
    }

    /// Reading field 5 back, after the fields before it.
    proof fn lemma_field_token(v: SpecCMsgClientUpdateUserGameInfo)
        ensures
            fold_fields(Self::spec_prefix(v, 4), opt_bytes(5, v.token), Self::apply_fn())
                == Ok::<SpecCMsgClientUpdateUserGameInfo, WireError>(Self::spec_prefix(v, 5)),
    {
        reveal(CMsgClientUpdateUserGameInfo::spec_prefix);
        reveal(opt_bytes);
        let apply = Self::apply_fn();
        let s = Self::spec_prefix(v, 4);
        lemma_fold_opt(s, 5, match v.token { Some(x) => Some(enc_bytes(x)), None => None }, apply);
        assert(SpecCMsgClientUpdateUserGameInfo { token: v.token, ..s } == Self::spec_prefix(v, 5));
    }

    /// Whether this message declares field number `n`.
    pub open spec fn declares(n: u32) -> bool {
        n == 1 || n == 2 || n == 3 || n == 4 || n == 5
    }

    /// A record with a number this message does not declare is passed over: well-formed
    /// bytes decode to the same message with such a record after them as without it.
    pub proof fn lemma_unknown_field(bytes: Seq<u8>, f: SpecField)
        requires
            parse_fields(bytes) is Ok,
            field_wf(f),
            !Self::declares(f.number),
        ensures
            Self::spec_decode(bytes + field_bytes(f)) == Self::spec_decode(bytes),
    {
        reveal(CMsgClientUpdateUserGameInfo::spec_decode);
        lemma_parse_fields_append(bytes, f);
        let fs = parse_fields(bytes).unwrap();
        let apply = Self::apply_fn();
        lemma_fold_concat(Self::spec_default(), fs, seq![f], apply);
        assert(fs.push(f) =~= fs + seq![f]);
        if let Ok(w) = fold_fields(Self::spec_default(), fs, apply) {
            lemma_fold_single(w, f, apply);
        }
        lemma_merge_run_fold(Self::spec_default(), bytes, apply);
        lemma_merge_run_fold(Self::spec_default(), bytes + field_bytes(f), apply);
    }

    /// Decoding the encoding of a message gives the message back.
    pub proof fn lemma_decode_encode(v: SpecCMsgClientUpdateUserGameInfo)
        requires
            Self::spec_encode(v).len() <= u64::MAX,
        ensures
            Self::spec_decode(Self::spec_encode(v)) == Ok::<SpecCMsgClientUpdateUserGameInfo, WireError>(v),
    {
        let apply = Self::apply_fn();
        let d = Self::spec_default();
        let p0 = Seq::<SpecField>::empty();
        let l1 = opt_fixed64(1, v.steamid_idgs);
        let p1 = p0 + l1;
        let l2 = opt_fixed64(2, v.gameid);
        let p2 = p1 + l2;
        let l3 = opt_u32(3, v.game_ip);
        let p3 = p2 + l3;
        let l4 = opt_u32(4, v.game_port);
        let p4 = p3 + l4;
        let l5 = opt_bytes(5, v.token);
        let p5 = p4 + l5;
        assert(parse_fields(Self::spec_encode(v)) == Ok::<Seq<SpecField>, WireError>(p5)) by {
            reveal(CMsgClientUpdateUserGameInfo::spec_encode);
            assert(numbers_ok(p0) && fields_wf(p0)) by {
                reveal(numbers_ok);
                reveal(fields_wf);
            }
            lemma_opt_fixed64_numbered(1, v.steamid_idgs);
            lemma_fields_wf_concat(p0, l1);
            lemma_opt_fixed64_numbered(2, v.gameid);
            lemma_fields_wf_concat(p1, l2);
            lemma_opt_u32_numbered(3, v.game_ip);
            lemma_fields_wf_concat(p2, l3);
            lemma_opt_u32_numbered(4, v.game_port);
            lemma_fields_wf_concat(p3, l4);
            lemma_opt_bytes_numbered(5, v.token);
            lemma_fields_wf_concat(p4, l5);
            assert(p5 == Self::spec_fields(v));
            lemma_fields_wf_from_len(p5);
            lemma_fields_roundtrip(p5);
        }
        assert(Self::spec_prefix(v, 0) == d) by {
            reveal(CMsgClientUpdateUserGameInfo::spec_prefix);
        }
        lemma_fold_empty(d, apply);
        lemma_fold_concat(d, p0, l1, apply);
        Self::lemma_field_steamid_idgs(v);
        lemma_fold_concat(d, p1, l2, apply);
        Self::lemma_field_gameid(v);
        lemma_fold_concat(d, p2, l3, apply);
        Self::lemma_field_game_ip(v);
        lemma_fold_concat(d, p3, l4, apply);
        Self::lemma_field_game_port(v);
        lemma_fold_concat(d, p4, l5, apply);
        Self::lemma_field_token(v);
        assert(Self::spec_prefix(v, 5) == v) by {
            reveal(CMsgClientUpdateUserGameInfo::spec_prefix);
        }
        lemma_merge_run_fold(d, Self::spec_encode(v), apply);
        assert(Self::spec_decode(Self::spec_encode(v)) == Ok::<SpecCMsgClientUpdateUserGameInfo, WireError>(v)) by {
            reveal(CMsgClientUpdateUserGameInfo::spec_decode);
        }
    }
}

/// `CMsgClientRichPresenceUpload`, as Valve's schema declares it.
#[derive(Debug, Clone, PartialEq)]
pub struct CMsgClientRichPresenceUpload {
    /// Field 1.
    pub rich_presence_kv: Option<Vec<u8>>,
    /// Field 2.
    pub steamid_broadcast: Vec<u64>,
}

/// What a `CMsgClientRichPresenceUpload` holds, as mathematical values.
#[verifier::ext_equal]
pub struct SpecCMsgClientRichPresenceUpload {
    pub rich_presence_kv: Option<Seq<u8>>,
    pub steamid_broadcast: Seq<u64>,
}

impl View for CMsgClientRichPresenceUpload {
    type V = SpecCMsgClientRichPresenceUpload;

    open spec fn view(&self) -> SpecCMsgClientRichPresenceUpload {
        SpecCMsgClientRichPresenceUpload {
            rich_presence_kv: opt_bytes_view(self.rich_presence_kv),
            steamid_broadcast: self.steamid_broadcast@,
        }
    }
}

impl Default for CMsgClientRichPresenceUpload {
    fn default() -> (r: Self)
        ensures
            r@ == CMsgClientRichPresenceUpload::spec_default(),
    {
        CMsgClientRichPresenceUpload {
            rich_presence_kv: None,
            steamid_broadcast: Vec::new(),
        }
    }
}

impl CMsgClientRichPresenceUpload {
    pub open spec fn spec_default() -> SpecCMsgClientRichPresenceUpload {
        SpecCMsgClientRichPresenceUpload {
            rich_presence_kv: None,
            steamid_broadcast: Seq::empty(),
        }
    }

    /// The records a `CMsgClientRichPresenceUpload` is written as, in field order.
    pub open spec fn spec_fields(v: SpecCMsgClientRichPresenceUpload) -> Seq<SpecField> {
        Seq::<SpecField>::empty()
            + opt_bytes(1, v.rich_presence_kv)
            + rep_fixed64(2, v.steamid_broadcast)
    }

    #[verifier::opaque]
    pub open spec fn spec_encode(v: SpecCMsgClientRichPresenceUpload) -> Seq<u8> {
        fields_bytes(Self::spec_fields(v))
    }

    /// What one record does to the message: a declared number sets or extends its
    /// field, any other number is left alone.
    pub open spec fn spec_apply(v: SpecCMsgClientRichPresenceUpload, f: SpecField) -> Result<SpecCMsgClientRichPresenceUpload, WireError> {
        match f.number {
            1 => match dec_bytes(f.value) {
                Ok(x) => Ok(SpecCMsgClientRichPresenceUpload { rich_presence_kv: Some(x), ..v }),
                Err(e) => Err(e),
            },
            2 => match dec_packed_fixed64(f.value) {
                Ok(xs) => Ok(SpecCMsgClientRichPresenceUpload { steamid_broadcast: v.steamid_broadcast + xs, ..v }),
                Err(e) => Err(e),
            },
            _ => Ok(v),
        }
    }

    pub open spec fn apply_fn() -> spec_fn(SpecCMsgClientRichPresenceUpload, SpecField) -> Result<SpecCMsgClientRichPresenceUpload, WireError> {
        |v: SpecCMsgClientRichPresenceUpload, f: SpecField| Self::spec_apply(v, f)
    }

    /// The message `bytes` makes of `v`: its records applied in order, or the error
    /// that stops the reading.
    pub open spec fn spec_merge(v: SpecCMsgClientRichPresenceUpload, bytes: Seq<u8>) -> Result<SpecCMsgClientRichPresenceUpload, WireError> {
        let (w, stop) = merge_run(v, bytes, Self::apply_fn());
        match stop {
            None => Ok(w),
            Some(e) => Err(e),
        }
    }

    #[verifier::opaque]
    pub open spec fn spec_decode(bytes: Seq<u8>) -> Result<SpecCMsgClientRichPresenceUpload, WireError> {
        Self::spec_merge(Self::spec_default(), bytes)
    }

    /// This message with one record applied to it, or, when the record is refused,
    /// the message unchanged and the reason.
    fn applied(self, f: &Field) -> (r: Result<Self, (Self, WireError)>)
        ensures
            match Self::spec_apply(self@, f@) {
                Ok(v) => r matches Ok(m) && m@ == v,
                Err(e) => r matches Err((m, x)) && x == e && m@ == self@,
            },
    {
        match f.number {
            1 => match read_bytes(&f.value) {
                Ok(x) => Ok(Self { rich_presence_kv: Some(x), ..self }),
                Err(e) => Err((self, e)),
            },
            2 => match read_packed_fixed64(&f.value) {
                Ok(xs) => {
                    let mut m = self;
                    let mut xs = xs;
                    m.steamid_broadcast.append(&mut xs);
                    Ok(m)
                },
                Err(e) => Err((self, e)),
            },
            _ => Ok(self),
        }
    }

    /// Reads the records `bytes` holds into this message, in order. When a record does
    /// not parse or is refused, the reading stops there: the message keeps what the
    /// records before it gave, and the error is returned.
    pub fn merge(&mut self, bytes: &[u8]) -> (r: Result<(), WireError>)
        ensures
            final(self)@ == merge_run(old(self)@, bytes@, Self::apply_fn()).0,
            r == match merge_run(old(self)@, bytes@, Self::apply_fn()).1 {
                None => Ok::<(), WireError>(()),
                Some(e) => Err::<(), WireError>(e),
            },
    {
        let ghost total = merge_run(self@, bytes@, Self::apply_fn());
        let mut cur = Self::default();
        std::mem::swap(&mut cur, self);
        let mut pos: usize = 0;
        assert(bytes@.skip(0) =~= bytes@);
        while pos < bytes.len()
            invariant
                pos <= bytes@.len(),
                total == merge_run(old(self)@, bytes@, Self::apply_fn()),
                merge_run(cur@, bytes@.skip(pos as int), Self::apply_fn()) == total,
            decreases bytes@.len() - pos,
        {
            let ghost s = bytes@.skip(pos as int);
            proof {
                lemma_merge_run_step(cur@, s, Self::apply_fn());
                lemma_parse_field_len(s);
            }
            match read_field(bytes, pos) {
                Ok((f, end)) => {
                    assert(bytes@.skip(end as int) =~= s.skip((end - pos) as int));
                    match cur.applied(&f) {
                        Ok(m) => {
                            cur = m;
                        },
                        Err((m, e)) => {
                            *self = m;
                            return Err(e);
                        },
                    }
                    pos = end;
                },
                Err(e) => {
                    *self = cur;
                    return Err(e);
                },
            }
        }
        assert(bytes@.skip(pos as int) =~= Seq::<u8>::empty());
        proof {
            lemma_merge_run_empty(cur@, Self::apply_fn());
        }
        *self = cur;
        Ok(())
    }

    /// Decodes a message from its encoding.
    pub fn decode(bytes: &[u8]) -> (r: Result<Self, WireError>)
        ensures
            match Self::spec_decode(bytes@) {
                Ok(v) => r matches Ok(m) && m@ == v,
                Err(e) => r matches Err(x) && x == e,
            },
    {
        proof {
            reveal(CMsgClientRichPresenceUpload::spec_decode);
        }
        let mut m = Self::default();
        match m.merge(bytes) {
            Ok(()) => Ok(m),
            Err(e) => Err(e),
        }
    }

    /// The encoding of this message.
    pub fn encode_to_vec(&self) -> (r: Vec<u8>)
        ensures
            r@ == Self::spec_encode(self@),
    {
        let ghost v = self@;
        let mut out: Vec<u8> = Vec::new();
        let ghost p0 = Seq::<SpecField>::empty();
        put_opt_bytes(&mut out, 1, &self.rich_presence_kv);
        let ghost p1 = p0 + opt_bytes(1, v.rich_presence_kv);
        proof {
            lemma_fields_bytes_concat(p0, opt_bytes(1, v.rich_presence_kv));
        }
        put_rep_fixed64(&mut out, 2, &self.steamid_broadcast);
        let ghost p2 = p1 + rep_fixed64(2, v.steamid_broadcast);
        proof {
            lemma_fields_bytes_concat(p1, rep_fixed64(2, v.steamid_broadcast));
        }
        proof {
            reveal(CMsgClientRichPresenceUpload::spec_encode);
        }
        assert(p2 == Self::spec_fields(v));
        out
    }

    /// Appends the encoding of this message to `out`.
    pub fn encode_raw(&self, out: &mut Vec<u8>)
        ensures
            final(out)@ == old(out)@ + Self::spec_encode(self@),
    {
        let mut b = self.encode_to_vec();
        out.append(&mut b);
    }

    /// The first `k` fields of `v`, the others as a fresh message has them.
    #[verifier::opaque]
    pub open spec fn spec_prefix(v: SpecCMsgClientRichPresenceUpload, k: int) -> SpecCMsgClientRichPresenceUpload {
        SpecCMsgClientRichPresenceUpload {
            rich_presence_kv: if 1 <= k { v.rich_presence_kv } else { None },
            steamid_broadcast: if 2 <= k { v.steamid_broadcast } else { Seq::empty() },
        }
    }

    /// Reading field 1 back, after the fields before it.
    proof fn lemma_field_rich_presence_kv(v: SpecCMsgClientRichPresenceUpload)
        ensures
            fold_fields(Self::spec_prefix(v, 0), opt_bytes(1, v.rich_presence_kv), Self::apply_fn())
                == Ok::<SpecCMsgClientRichPresenceUpload, WireError>(Self::spec_prefix(v, 1)),
    {
        reveal(CMsgClientRichPresenceUpload::spec_prefix);
        reveal(opt_bytes);
        let apply = Self::apply_fn();
        let s = Self::spec_prefix(v, 0);
        lemma_fold_opt(s, 1, match v.rich_presence_kv { Some(x) => Some(enc_bytes(x)), None => None }, apply);
        assert(SpecCMsgClientRichPresenceUpload { rich_presence_kv: v.rich_presence_kv, ..s } == Self::spec_prefix(v, 1));
    }

    /// Reading field 2 back, after the fields before it.
    proof fn lemma_field_steamid_broadcast(v: SpecCMsgClientRichPresenceUpload)
        ensures
            fold_fields(Self::spec_prefix(v, 1), rep_fixed64(2, v.steamid_broadcast), Self::apply_fn())
                == Ok::<SpecCMsgClientRichPresenceUpload, WireError>(Self::spec_prefix(v, 2)),
    {
        reveal(CMsgClientRichPresenceUpload::spec_prefix);
        reveal(rep_fixed64);
        let apply = Self::apply_fn();
        let s = Self::spec_prefix(v, 1);
        let l = rep_fixed64(2, v.steamid_broadcast);
        let xs = v.steamid_broadcast;
        let st = Seq::new((xs.len() + 1) as nat, |j: int| SpecCMsgClientRichPresenceUpload { steamid_broadcast: xs.take(j), ..s });
        assert forall|j: int| 0 <= j < l.len() implies #[trigger] apply(st[j], l[j]) == Ok::<SpecCMsgClientRichPresenceUpload, WireError>(st[j + 1]) by {
            lemma_u64_roundtrip(xs[j]);
            assert(xs.take(j) + seq![xs[j]] =~= xs.take(j + 1));
        }
        lemma_fold_chain(l, st, apply);
        assert(xs.take(0) =~= Seq::<u64>::empty());
        assert(xs.take(xs.len() as int) =~= xs);
        assert(st[0] == s);
        assert(st[xs.len() as int] == Self::spec_prefix(v, 2));
    }

    /// Whether this message declares field number `n`.
    pub open spec fn declares(n: u32) -> bool {
        n == 1 || n == 2
    }

    /// A record with a number this message does not declare is passed over: well-formed
    /// bytes decode to the same message with such a record after them as without it.
    pub proof fn lemma_unknown_field(bytes: Seq<u8>, f: SpecField)
        requires
            parse_fields(bytes) is Ok,
            field_wf(f),
            !Self::declares(f.number),
        ensures
            Self::spec_decode(bytes + field_bytes(f)) == Self::spec_decode(bytes),
    {
        reveal(CMsgClientRichPresenceUpload::spec_decode);
        lemma_parse_fields_append(bytes, f);
        let fs = parse_fields(bytes).unwrap();
        let apply = Self::apply_fn();
        lemma_fold_concat(Self::spec_default(), fs, seq![f], apply);
        assert(fs.push(f) =~= fs + seq![f]);
        if let Ok(w) = fold_fields(Self::spec_default(), fs, apply) {
            lemma_fold_single(w, f, apply);
        }
        lemma_merge_run_fold(Self::spec_default(), bytes, apply);
        lemma_merge_run_fold(Self::spec_default(), bytes + field_bytes(f), apply);
    }

    /// Decoding the encoding of a message gives the message back.
    pub proof fn lemma_decode_encode(v: SpecCMsgClientRichPresenceUpload)
        requires
            Self::spec_encode(v).len() <= u64::MAX,
        ensures
            Self::spec_decode(Self::spec_encode(v)) == Ok::<SpecCMsgClientRichPresenceUpload, WireError>(v),
    {
        let apply = Self::apply_fn();
        let d = Self::spec_default();
        let p0 = Seq::<SpecField>::empty();
        let l1 = opt_bytes(1, v.rich_presence_kv);
        let p1 = p0 + l1;
        let l2 = rep_fixed64(2, v.steamid_broadcast);
        let p2 = p1 + l2;
        assert(parse_fields(Self::spec_encode(v)) == Ok::<Seq<SpecField>, WireError>(p2)) by {
            reveal(CMsgClientRichPresenceUpload::spec_encode);
            assert(numbers_ok(p0) && fields_wf(p0)) by {
                reveal(numbers_ok);
                reveal(fields_wf);
            }
            lemma_opt_bytes_numbered(1, v.rich_presence_kv);
            lemma_fields_wf_concat(p0, l1);
            lemma_rep_fixed64_numbered(2, v.steamid_broadcast);
            lemma_fields_wf_concat(p1, l2);
            assert(p2 == Self::spec_fields(v));
            lemma_fields_wf_from_len(p2);
            lemma_fields_roundtrip(p2);
        }
        assert(Self::spec_prefix(v, 0) == d) by {
            reveal(CMsgClientRichPresenceUpload::spec_prefix);
        }
        lemma_fold_empty(d, apply);
        lemma_fold_concat(d, p0, l1, apply);
        Self::lemma_field_rich_presence_kv(v);
        lemma_fold_concat(d, p1, l2, apply);
        Self::lemma_field_steamid_broadcast(v);
        assert(Self::spec_prefix(v, 2) == v) by {
            reveal(CMsgClientRichPresenceUpload::spec_prefix);
        }
        lemma_merge_run_fold(d, Self::spec_encode(v), apply);
        assert(Self::spec_decode(Self::spec_encode(v)) == Ok::<SpecCMsgClientRichPresenceUpload, WireError>(v)) by {
            reveal(CMsgClientRichPresenceUpload::spec_decode);
        }
    }
}

/// `CMsgClientRichPresenceRequest`, as Valve's schema declares it.
#[derive(Debug, Clone, PartialEq)]
pub struct CMsgClientRichPresenceRequest {
    /// Field 1.
    pub steamid_request: Vec<u64>,
}

/// What a `CMsgClientRichPresenceRequest` holds, as mathematical values.
#[verifier::ext_equal]
pub struct SpecCMsgClientRichPresenceRequest {
    pub steamid_request: Seq<u64>,
}

impl View for CMsgClientRichPresenceRequest {
    type V = SpecCMsgClientRichPresenceRequest;

    open spec fn view(&self) -> SpecCMsgClientRichPresenceRequest {
        SpecCMsgClientRichPresenceRequest {
            steamid_request: self.steamid_request@,
        }
    }
}

impl Default for CMsgClientRichPresenceRequest {
    fn default() -> (r: Self)
        ensures
            r@ == CMsgClientRichPresenceRequest::spec_default(),
    {
        CMsgClientRichPresenceRequest {
            steamid_request: Vec::new(),
        }
    }
}

impl CMsgClientRichPresenceRequest {
    pub open spec fn spec_default() -> SpecCMsgClientRichPresenceRequest {
        SpecCMsgClientRichPresenceRequest {
            steamid_request: Seq::empty(),
        }
    }

    /// The records a `CMsgClientRichPresenceRequest` is written as, in field order.
    pub open spec fn spec_fields(v: SpecCMsgClientRichPresenceRequest) -> Seq<SpecField> {
        Seq::<SpecField>::empty()
            + rep_fixed64(1, v.steamid_request)
    }

    #[verifier::opaque]
    pub open spec fn spec_encode(v: SpecCMsgClientRichPresenceRequest) -> Seq<u8> {
        fields_bytes(Self::spec_fields(v))
    }

    /// What one record does to the message: a declared number sets or extends its
    /// field, any other number is left alone.
    pub open spec fn spec_apply(v: SpecCMsgClientRichPresenceRequest, f: SpecField) -> Result<SpecCMsgClientRichPresenceRequest, WireError> {
        match f.number {
            1 => match dec_packed_fixed64(f.value) {
                Ok(xs) => Ok(SpecCMsgClientRichPresenceRequest { steamid_request: v.steamid_request + xs, ..v }),
                Err(e) => Err(e),
            },
            _ => Ok(v),
        }
    }

    pub open spec fn apply_fn() -> spec_fn(SpecCMsgClientRichPresenceRequest, SpecField) -> Result<SpecCMsgClientRichPresenceRequest, WireError> {
        |v: SpecCMsgClientRichPresenceRequest, f: SpecField| Self::spec_apply(v, f)
    }

    /// The message `bytes` makes of `v`: its records applied in order, or the error
    /// that stops the reading.
    pub open spec fn spec_merge(v: SpecCMsgClientRichPresenceRequest, bytes: Seq<u8>) -> Result<SpecCMsgClientRichPresenceRequest, WireError> {
        let (w, stop) = merge_run(v, bytes, Self::apply_fn());
        match stop {
            None => Ok(w),
            Some(e) => Err(e),
        }
    }

    #[verifier::opaque]
    pub open spec fn spec_decode(bytes: Seq<u8>) -> Result<SpecCMsgClientRichPresenceRequest, WireError> {
        Self::spec_merge(Self::spec_default(), bytes)
    }

    /// This message with one record applied to it, or, when the record is refused,
    /// the message unchanged and the reason.
    fn applied(self, f: &Field) -> (r: Result<Self, (Self, WireError)>)
        ensures
            match Self::spec_apply(self@, f@) {
                Ok(v) => r matches Ok(m) && m@ == v,
                Err(e) => r matches Err((m, x)) && x == e && m@ == self@,
            },
    {
        match f.number {
            1 => match read_packed_fixed64(&f.value) {
                Ok(xs) => {
                    let mut m = self;
                    let mut xs = xs;
                    m.steamid_request.append(&mut xs);
                    Ok(m)
                },
                Err(e) => Err((self, e)),
            },
            _ => Ok(self),
        }
    }

    /// Reads the records `bytes` holds into this message, in order. When a record does
    /// not parse or is refused, the reading stops there: the message keeps what the
    /// records before it gave, and the error is returned.
    pub fn merge(&mut self, bytes: &[u8]) -> (r: Result<(), WireError>)
        ensures
            final(self)@ == merge_run(old(self)@, bytes@, Self::apply_fn()).0,
            r == match merge_run(old(self)@, bytes@, Self::apply_fn()).1 {
                None => Ok::<(), WireError>(()),
                Some(e) => Err::<(), WireError>(e),
            },
    {
        let ghost total = merge_run(self@, bytes@, Self::apply_fn());
        let mut cur = Self::default();
        std::mem::swap(&mut cur, self);
        let mut pos: usize = 0;
        assert(bytes@.skip(0) =~= bytes@);
        while pos < bytes.len()
            invariant
                pos <= bytes@.len(),
                total == merge_run(old(self)@, bytes@, Self::apply_fn()),
                merge_run(cur@, bytes@.skip(pos as int), Self::apply_fn()) == total,
            decreases bytes@.len() - pos,
        {
            let ghost s = bytes@.skip(pos as int);
            proof {
                lemma_merge_run_step(cur@, s, Self::apply_fn());
                lemma_parse_field_len(s);
            }
            match read_field(bytes, pos) {
                Ok((f, end)) => {
                    assert(bytes@.skip(end as int) =~= s.skip((end - pos) as int));
                    match cur.applied(&f) {
                        Ok(m) => {
                            cur = m;
                        },
                        Err((m, e)) => {
                            *self = m;
                            return Err(e);
                        },
                    }
                    pos = end;
                },
                Err(e) => {
                    *self = cur;
                    return Err(e);
                },
            }
        }
        assert(bytes@.skip(pos as int) =~= Seq::<u8>::empty());
        proof {
            lemma_merge_run_empty(cur@, Self::apply_fn());
        }
        *self = cur;
        Ok(())
    }

    /// Decodes a message from its encoding.
    pub fn decode(bytes: &[u8]) -> (r: Result<Self, WireError>)
        ensures
            match Self::spec_decode(bytes@) {
                Ok(v) => r matches Ok(m) && m@ == v,
                Err(e) => r matches Err(x) && x == e,
            },
    {
        proof {
            reveal(CMsgClientRichPresenceRequest::spec_decode);
        }
        let mut m = Self::default();
        match m.merge(bytes) {
            Ok(()) => Ok(m),
            Err(e) => Err(e),
        }
    }

    /// The encoding of this message.
    pub fn encode_to_vec(&self) -> (r: Vec<u8>)
        ensures
            r@ == Self::spec_encode(self@),
    {
        let ghost v = self@;
        let mut out: Vec<u8> = Vec::new();
        let ghost p0 = Seq::<SpecField>::empty();
        put_rep_fixed64(&mut out, 1, &self.steamid_request);
        let ghost p1 = p0 + rep_fixed64(1, v.steamid_request);
        proof {
            lemma_fields_bytes_concat(p0, rep_fixed64(1, v.steamid_request));
        }
        proof {
            reveal(CMsgClientRichPresenceRequest::spec_encode);
        }
        assert(p1 == Self::spec_fields(v));
        out
    }

    /// Appends the encoding of this message to `out`.
    pub fn encode_raw(&self, out: &mut Vec<u8>)
        ensures
            final(out)@ == old(out)@ + Self::spec_encode(self@),
    {
        let mut b = self.encode_to_vec();
        out.append(&mut b);
    }

    /// The first `k` fields of `v`, the others as a fresh message has them.
    #[verifier::opaque]
    pub open spec fn spec_prefix(v: SpecCMsgClientRichPresenceRequest, k: int) -> SpecCMsgClientRichPresenceRequest {
        SpecCMsgClientRichPresenceRequest {
            steamid_request: if 1 <= k { v.steamid_request } else { Seq::empty() },
        }
    }

    /// Reading field 1 back, after the fields before it.
    proof fn lemma_field_steamid_request(v: SpecCMsgClientRichPresenceRequest)
        ensures
            fold_fields(Self::spec_prefix(v, 0), rep_fixed64(1, v.steamid_request), Self::apply_fn())
                == Ok::<SpecCMsgClientRichPresenceRequest, WireError>(Self::spec_prefix(v, 1)),
    {
        reveal(CMsgClientRichPresenceRequest::spec_prefix);
        reveal(rep_fixed64);
        let apply = Self::apply_fn();
        let s = Self::spec_prefix(v, 0);
        let l = rep_fixed64(1, v.steamid_request);
        let xs = v.steamid_request;
        let st = Seq::new((xs.len() + 1) as nat, |j: int| SpecCMsgClientRichPresenceRequest { steamid_request: xs.take(j), ..s });
        assert forall|j: int| 0 <= j < l.len() implies #[trigger] apply(st[j], l[j]) == Ok::<SpecCMsgClientRichPresenceRequest, WireError>(st[j + 1]) by {
            lemma_u64_roundtrip(xs[j]);
            assert(xs.take(j) + seq![xs[j]] =~= xs.take(j + 1));
        }
        lemma_fold_chain(l, st, apply);
        assert(xs.take(0) =~= Seq::<u64>::empty());
        assert(xs.take(xs.len() as int) =~= xs);
        assert(st[0] == s);
        assert(st[xs.len() as int] == Self::spec_prefix(v, 1));
    }

    /// Whether this message declares field number `n`.
    pub open spec fn declares(n: u32) -> bool {
        n == 1
    }

    /// A record with a number this message does not declare is passed over: well-formed
    /// bytes decode to the same message with such a record after them as without it.
    pub proof fn lemma_unknown_field(bytes: Seq<u8>, f: SpecField)
        requires
            parse_fields(bytes) is Ok,
            field_wf(f),
            !Self::declares(f.number),
        ensures
            Self::spec_decode(bytes + field_bytes(f)) == Self::spec_decode(bytes),
    {
        reveal(CMsgClientRichPresenceRequest::spec_decode);
        lemma_parse_fields_append(bytes, f);
        let fs = parse_fields(bytes).unwrap();
        let apply = Self::apply_fn();
        lemma_fold_concat(Self::spec_default(), fs, seq![f], apply);
        assert(fs.push(f) =~= fs + seq![f]);
        if let Ok(w) = fold_fields(Self::spec_default(), fs, apply) {
            lemma_fold_single(w, f, apply);
        }
        lemma_merge_run_fold(Self::spec_default(), bytes, apply);
        lemma_merge_run_fold(Self::spec_default(), bytes + field_bytes(f), apply);
    }

    /// Decoding the encoding of a message gives the message back.
    pub proof fn lemma_decode_encode(v: SpecCMsgClientRichPresenceRequest)
        requires
            Self::spec_encode(v).len() <= u64::MAX,
        ensures
            Self::spec_decode(Self::spec_encode(v)) == Ok::<SpecCMsgClientRichPresenceRequest, WireError>(v),
    {
        let apply = Self::apply_fn();
        let d = Self::spec_default();
        let p0 = Seq::<SpecField>::empty();
        let l1 = rep_fixed64(1, v.steamid_request);
        let p1 = p0 + l1;
        assert(parse_fields(Self::spec_encode(v)) == Ok::<Seq<SpecField>, WireError>(p1)) by {
            reveal(CMsgClientRichPresenceRequest::spec_encode);
            assert(numbers_ok(p0) && fields_wf(p0)) by {
                reveal(numbers_ok);
                reveal(fields_wf);
            }
            lemma_rep_fixed64_numbered(1, v.steamid_request);
            lemma_fields_wf_concat(p0, l1);
            assert(p1 == Self::spec_fields(v));
            lemma_fields_wf_from_len(p1);
            lemma_fields_roundtrip(p1);
        }
        assert(Self::spec_prefix(v, 0) == d) by {
            reveal(CMsgClientRichPresenceRequest::spec_prefix);
        }
        lemma_fold_empty(d, apply);
        lemma_fold_concat(d, p0, l1, apply);
        Self::lemma_field_steamid_request(v);
        assert(Self::spec_prefix(v, 1) == v) by {
            reveal(CMsgClientRichPresenceRequest::spec_prefix);
        }
        lemma_merge_run_fold(d, Self::spec_encode(v), apply);
        assert(Self::spec_decode(Self::spec_encode(v)) == Ok::<SpecCMsgClientRichPresenceRequest, WireError>(v)) by {
            reveal(CMsgClientRichPresenceRequest::spec_decode);
        }
    }
}

/// `CMsgClientRichPresenceInfo`, as Valve's schema declares it.
#[derive(Debug, Clone, PartialEq)]
pub struct CMsgClientRichPresenceInfo {
    /// Field 1.
    pub rich_presence: Vec<crate::steammessages_clientserver_2::c_msg_client_rich_presence_info::RichPresence>,
}

/// What a `CMsgClientRichPresenceInfo` holds, as mathematical values.
#[verifier::ext_equal]
pub struct SpecCMsgClientRichPresenceInfo {
    pub rich_presence: Seq<crate::steammessages_clientserver_2::c_msg_client_rich_presence_info::SpecRichPresence>,
}

impl View for CMsgClientRichPresenceInfo {
    type V = SpecCMsgClientRichPresenceInfo;

    open spec fn view(&self) -> SpecCMsgClientRichPresenceInfo {
        SpecCMsgClientRichPresenceInfo {
            rich_presence: crate::steammessages_clientserver_2::c_msg_client_rich_presence_info::RichPresence::view_all(self.rich_presence@),
        }
    }
}

impl Default for CMsgClientRichPresenceInfo {
    fn default() -> (r: Self)
        ensures
            r@ == CMsgClientRichPresenceInfo::spec_default(),
    {
        CMsgClientRichPresenceInfo {
            rich_presence: Vec::new(),
        }
    }
}

impl CMsgClientRichPresenceInfo {
    pub open spec fn spec_default() -> SpecCMsgClientRichPresenceInfo {
        SpecCMsgClientRichPresenceInfo {
            rich_presence: Seq::empty(),
        }
    }

    /// The records a `CMsgClientRichPresenceInfo` is written as, in field order.
    pub open spec fn spec_fields(v: SpecCMsgClientRichPresenceInfo) -> Seq<SpecField> {
        Seq::<SpecField>::empty()
            + rep_bytes(1, crate::steammessages_clientserver_2::c_msg_client_rich_presence_info::RichPresence::spec_encode_all(v.rich_presence))
    }

    #[verifier::opaque]
    pub open spec fn spec_encode(v: SpecCMsgClientRichPresenceInfo) -> Seq<u8> {
        fields_bytes(Self::spec_fields(v))
    }

    /// What one record does to the message: a declared number sets or extends its
    /// field, any other number is left alone.
    pub open spec fn spec_apply(v: SpecCMsgClientRichPresenceInfo, f: SpecField) -> Result<SpecCMsgClientRichPresenceInfo, WireError> {
        match f.number {
            1 => match dec_bytes(f.value) {
                Ok(b) => match crate::steammessages_clientserver_2::c_msg_client_rich_presence_info::RichPresence::spec_decode(b) {
                    Ok(m) => Ok(SpecCMsgClientRichPresenceInfo { rich_presence: v.rich_presence.push(m), ..v }),
                    Err(e) => Err(e),
                },
                Err(e) => Err(e),
            },
            _ => Ok(v),
        }
    }

    pub open spec fn apply_fn() -> spec_fn(SpecCMsgClientRichPresenceInfo, SpecField) -> Result<SpecCMsgClientRichPresenceInfo, WireError> {
        |v: SpecCMsgClientRichPresenceInfo, f: SpecField| Self::spec_apply(v, f)
    }

    /// The message `bytes` makes of `v`: its records applied in order, or the error
    /// that stops the reading.
    pub open spec fn spec_merge(v: SpecCMsgClientRichPresenceInfo, bytes: Seq<u8>) -> Result<SpecCMsgClientRichPresenceInfo, WireError> {
        let (w, stop) = merge_run(v, bytes, Self::apply_fn());
        match stop {
            None => Ok(w),
            Some(e) => Err(e),
        }
    }

    #[verifier::opaque]
    pub open spec fn spec_decode(bytes: Seq<u8>) -> Result<SpecCMsgClientRichPresenceInfo, WireError> {
        Self::spec_merge(Self::spec_default(), bytes)
    }

    /// This message with one record applied to it, or, when the record is refused,
    /// the message unchanged and the reason.
    fn applied(self, f: &Field) -> (r: Result<Self, (Self, WireError)>)
        ensures
            match Self::spec_apply(self@, f@) {
                Ok(v) => r matches Ok(m) && m@ == v,
                Err(e) => r matches Err((m, x)) && x == e && m@ == self@,
            },
    {
        match f.number {
            1 => match read_payload(&f.value) {
                Ok(b) => match crate::steammessages_clientserver_2::c_msg_client_rich_presence_info::RichPresence::decode(b) {
                    Ok(x) => {
                        let mut m = self;
                        let ghost before = m.rich_presence@;
                        m.rich_presence.push(x);
                        assert(crate::steammessages_clientserver_2::c_msg_client_rich_presence_info::RichPresence::view_all(m.rich_presence@) =~= crate::steammessages_clientserver_2::c_msg_client_rich_presence_info::RichPresence::view_all(before).push(x@));
                        Ok(m)
                    },
                    Err(e) => Err((self, e)),
                },
                Err(e) => Err((self, e)),
            },
            _ => Ok(self),
        }
    }

    /// Reads the records `bytes` holds into this message, in order. When a record does
    /// not parse or is refused, the reading stops there: the message keeps what the
    /// records before it gave, and the error is returned.
    pub fn merge(&mut self, bytes: &[u8]) -> (r: Result<(), WireError>)
        ensures
            final(self)@ == merge_run(old(self)@, bytes@, Self::apply_fn()).0,
            r == match merge_run(old(self)@, bytes@, Self::apply_fn()).1 {
                None => Ok::<(), WireError>(()),
                Some(e) => Err::<(), WireError>(e),
            },
    {
        let ghost total = merge_run(self@, bytes@, Self::apply_fn());
        let mut cur = Self::default();
        std::mem::swap(&mut cur, self);
        let mut pos: usize = 0;
        assert(bytes@.skip(0) =~= bytes@);
        while pos < bytes.len()
            invariant
                pos <= bytes@.len(),
                total == merge_run(old(self)@, bytes@, Self::apply_fn()),
                merge_run(cur@, bytes@.skip(pos as int), Self::apply_fn()) == total,
            decreases bytes@.len() - pos,
        {
            let ghost s = bytes@.skip(pos as int);
            proof {
                lemma_merge_run_step(cur@, s, Self::apply_fn());
                lemma_parse_field_len(s);
            }
            match read_field(bytes, pos) {
                Ok((f, end)) => {
                    assert(bytes@.skip(end as int) =~= s.skip((end - pos) as int));
                    match cur.applied(&f) {
                        Ok(m) => {
                            cur = m;
                        },
                        Err((m, e)) => {
                            *self = m;
                            return Err(e);
                        },
                    }
                    pos = end;
                },
                Err(e) => {
                    *self = cur;
                    return Err(e);
                },
            }
        }
        assert(bytes@.skip(pos as int) =~= Seq::<u8>::empty());
        proof {
            lemma_merge_run_empty(cur@, Self::apply_fn());
        }
        *self = cur;
        Ok(())
    }

    /// Decodes a message from its encoding.
    pub fn decode(bytes: &[u8]) -> (r: Result<Self, WireError>)
        ensures
            match Self::spec_decode(bytes@) {
                Ok(v) => r matches Ok(m) && m@ == v,
                Err(e) => r matches Err(x) && x == e,
            },
    {
        proof {
            reveal(CMsgClientRichPresenceInfo::spec_decode);
        }
        let mut m = Self::default();
        match m.merge(bytes) {
            Ok(()) => Ok(m),
            Err(e) => Err(e),
        }
    }

    /// The encoding of this message.
    pub fn encode_to_vec(&self) -> (r: Vec<u8>)
        ensures
            r@ == Self::spec_encode(self@),
    {
        let enc_rich_presence = crate::steammessages_clientserver_2::c_msg_client_rich_presence_info::RichPresence::encode_all(&self.rich_presence);
        let ghost v = self@;
        let mut out: Vec<u8> = Vec::new();
        let ghost p0 = Seq::<SpecField>::empty();
        put_rep_bytes(&mut out, 1, &enc_rich_presence);
        let ghost p1 = p0 + rep_bytes(1, crate::steammessages_clientserver_2::c_msg_client_rich_presence_info::RichPresence::spec_encode_all(v.rich_presence));
        proof {
            lemma_fields_bytes_concat(p0, rep_bytes(1, crate::steammessages_clientserver_2::c_msg_client_rich_presence_info::RichPresence::spec_encode_all(v.rich_presence)));
        }
        proof {
            reveal(CMsgClientRichPresenceInfo::spec_encode);
        }
        assert(p1 == Self::spec_fields(v));
        out
    }

    /// Appends the encoding of this message to `out`.
    pub fn encode_raw(&self, out: &mut Vec<u8>)
        ensures
            final(out)@ == old(out)@ + Self::spec_encode(self@),
    {
        let mut b = self.encode_to_vec();
        out.append(&mut b);
    }

    /// The first `k` fields of `v`, the others as a fresh message has them.
    #[verifier::opaque]
    pub open spec fn spec_prefix(v: SpecCMsgClientRichPresenceInfo, k: int) -> SpecCMsgClientRichPresenceInfo {
        SpecCMsgClientRichPresenceInfo {
            rich_presence: if 1 <= k { v.rich_presence } else { Seq::empty() },
        }
    }

    /// Reading field 1 back, after the fields before it.
    proof fn lemma_field_rich_presence(v: SpecCMsgClientRichPresenceInfo)
        requires
            fields_wf(rep_bytes(1, crate::steammessages_clientserver_2::c_msg_client_rich_presence_info::RichPresence::spec_encode_all(v.rich_presence))),
        ensures
            fold_fields(Self::spec_prefix(v, 0), rep_bytes(1, crate::steammessages_clientserver_2::c_msg_client_rich_presence_info::RichPresence::spec_encode_all(v.rich_presence)), Self::apply_fn())
                == Ok::<SpecCMsgClientRichPresenceInfo, WireError>(Self::spec_prefix(v, 1)),
    {
        reveal(CMsgClientRichPresenceInfo::spec_prefix);
        reveal(rep_bytes);
        reveal(fields_wf);
        let apply = Self::apply_fn();
        let s = Self::spec_prefix(v, 0);
        let l = rep_bytes(1, crate::steammessages_clientserver_2::c_msg_client_rich_presence_info::RichPresence::spec_encode_all(v.rich_presence));
        let xs = v.rich_presence;
        let st = Seq::new((xs.len() + 1) as nat, |j: int| SpecCMsgClientRichPresenceInfo { rich_presence: xs.take(j), ..s });
        assert forall|j: int| 0 <= j < l.len() implies #[trigger] apply(st[j], l[j]) == Ok::<SpecCMsgClientRichPresenceInfo, WireError>(st[j + 1]) by {
            assert(field_wf(l[j]));
            crate::steammessages_clientserver_2::c_msg_client_rich_presence_info::RichPresence::lemma_decode_encode(xs[j]);
            assert(xs.take(j).push(xs[j]) =~= xs.take(j + 1));
        }
        lemma_fold_chain(l, st, apply);
        assert(xs.take(0) =~= Seq::<crate::steammessages_clientserver_2::c_msg_client_rich_presence_info::SpecRichPresence>::empty());
        assert(xs.take(xs.len() as int) =~= xs);
        assert(st[0] == s);
        assert(st[xs.len() as int] == Self::spec_prefix(v, 1));
    }

    /// Whether this message declares field number `n`.
    pub open spec fn declares(n: u32) -> bool {
        n == 1
    }

    /// A record with a number this message does not declare is passed over: well-formed
    /// bytes decode to the same message with such a record after them as without it.
    pub proof fn lemma_unknown_field(bytes: Seq<u8>, f: SpecField)
        requires
            parse_fields(bytes) is Ok,
            field_wf(f),
            !Self::declares(f.number),
        ensures
            Self::spec_decode(bytes + field_bytes(f)) == Self::spec_decode(bytes),
    {
        reveal(CMsgClientRichPresenceInfo::spec_decode);
        lemma_parse_fields_append(bytes, f);
        let fs = parse_fields(bytes).unwrap();
        let apply = Self::apply_fn();
        lemma_fold_concat(Self::spec_default(), fs, seq![f], apply);
        assert(fs.push(f) =~= fs + seq![f]);
        if let Ok(w) = fold_fields(Self::spec_default(), fs, apply) {
            lemma_fold_single(w, f, apply);
        }
        lemma_merge_run_fold(Self::spec_default(), bytes, apply);
        lemma_merge_run_fold(Self::spec_default(), bytes + field_bytes(f), apply);
    }

    /// Decoding the encoding of a message gives the message back.
    pub proof fn lemma_decode_encode(v: SpecCMsgClientRichPresenceInfo)
        requires
            Self::spec_encode(v).len() <= u64::MAX,
        ensures
            Self::spec_decode(Self::spec_encode(v)) == Ok::<SpecCMsgClientRichPresenceInfo, WireError>(v),
    {
        let apply = Self::apply_fn();
        let d = Self::spec_default();
        let p0 = Seq::<SpecField>::empty();
        let l1 = rep_bytes(1, crate::steammessages_clientserver_2::c_msg_client_rich_presence_info::RichPresence::spec_encode_all(v.rich_presence));
        let p1 = p0 + l1;
        assert(parse_fields(Self::spec_encode(v)) == Ok::<Seq<SpecField>, WireError>(p1) && fields_wf(l1)) by {
            reveal(CMsgClientRichPresenceInfo::spec_encode);
            assert(numbers_ok(p0) && fields_wf(p0)) by {
                reveal(numbers_ok);
                reveal(fields_wf);
            }
            lemma_rep_bytes_numbered(1, crate::steammessages_clientserver_2::c_msg_client_rich_presence_info::RichPresence::spec_encode_all(v.rich_presence));
            lemma_fields_wf_concat(p0, l1);
            assert(p1 == Self::spec_fields(v));
            lemma_fields_wf_from_len(p1);
            lemma_fields_roundtrip(p1);
        }
        assert(Self::spec_prefix(v, 0) == d) by {
            reveal(CMsgClientRichPresenceInfo::spec_prefix);
        }
        lemma_fold_empty(d, apply);
        lemma_fold_concat(d, p0, l1, apply);
        Self::lemma_field_rich_presence(v);
        assert(Self::spec_prefix(v, 1) == v) by {
            reveal(CMsgClientRichPresenceInfo::spec_prefix);
        }
        lemma_merge_run_fold(d, Self::spec_encode(v), apply);
        assert(Self::spec_decode(Self::spec_encode(v)) == Ok::<SpecCMsgClientRichPresenceInfo, WireError>(v)) by {
            reveal(CMsgClientRichPresenceInfo::spec_decode);
        }
    }
}

/// `CMsgClientCheckFileSignature`, as Valve's schema declares it.
#[derive(Debug, Clone, PartialEq)]
pub struct CMsgClientCheckFileSignature {
    /// Field 1.
    pub app_id: Option<u32>,
}

/// What a `CMsgClientCheckFileSignature` holds, as mathematical values.
#[verifier::ext_equal]
pub struct SpecCMsgClientCheckFileSignature {
    pub app_id: Option<u32>,
}

impl View for CMsgClientCheckFileSignature {
    type V = SpecCMsgClientCheckFileSignature;

    open spec fn view(&self) -> SpecCMsgClientCheckFileSignature {
        SpecCMsgClientCheckFileSignature {
            app_id: self.app_id,
        }
    }
}

impl Default for CMsgClientCheckFileSignature {
    fn default() -> (r: Self)
        ensures
            r@ == CMsgClientCheckFileSignature::spec_default(),
    {
        CMsgClientCheckFileSignature {
            app_id: None,
        }
    }
}

impl CMsgClientCheckFileSignature {
    pub open spec fn spec_default() -> SpecCMsgClientCheckFileSignature {
        SpecCMsgClientCheckFileSignature {
            app_id: None,
        }
    }

    /// The records a `CMsgClientCheckFileSignature` is written as, in field order.
    pub open spec fn spec_fields(v: SpecCMsgClientCheckFileSignature) -> Seq<SpecField> {
        Seq::<SpecField>::empty()
            + opt_u32(1, v.app_id)
    }

    #[verifier::opaque]
    pub open spec fn spec_encode(v: SpecCMsgClientCheckFileSignature) -> Seq<u8> {
        fields_bytes(Self::spec_fields(v))
    }

    /// What one record does to the message: a declared number sets or extends its
    /// field, any other number is left alone.
    pub open spec fn spec_apply(v: SpecCMsgClientCheckFileSignature, f: SpecField) -> Result<SpecCMsgClientCheckFileSignature, WireError> {
        match f.number {
            1 => match dec_u32(f.value) {
                Ok(x) => Ok(SpecCMsgClientCheckFileSignature { app_id: Some(x), ..v }),
                Err(e) => Err(e),
            },
            _ => Ok(v),
        }
    }

    pub open spec fn apply_fn() -> spec_fn(SpecCMsgClientCheckFileSignature, SpecField) -> Result<SpecCMsgClientCheckFileSignature, WireError> {
        |v: SpecCMsgClientCheckFileSignature, f: SpecField| Self::spec_apply(v, f)
    }

    /// The message `bytes` makes of `v`: its records applied in order, or the error
    /// that stops the reading.
    pub open spec fn spec_merge(v: SpecCMsgClientCheckFileSignature, bytes: Seq<u8>) -> Result<SpecCMsgClientCheckFileSignature, WireError> {
        let (w, stop) = merge_run(v, bytes, Self::apply_fn());
        match stop {
            None => Ok(w),
            Some(e) => Err(e),
        }
    }

    #[verifier::opaque]
    pub open spec fn spec_decode(bytes: Seq<u8>) -> Result<SpecCMsgClientCheckFileSignature, WireError> {
        Self::spec_merge(Self::spec_default(), bytes)
    }

    /// This message with one record applied to it, or, when the record is refused,
    /// the message unchanged and the reason.
    fn applied(self, f: &Field) -> (r: Result<Self, (Self, WireError)>)
        ensures
            match Self::spec_apply(self@, f@) {
                Ok(v) => r matches Ok(m) && m@ == v,
                Err(e) => r matches Err((m, x)) && x == e && m@ == self@,
            },
    {
        match f.number {
            1 => match read_u32(&f.value) {
                Ok(x) => Ok(Self { app_id: Some(x), ..self }),
                Err(e) => Err((self, e)),
            },
            _ => Ok(self),
        }
    }

    /// Reads the records `bytes` holds into this message, in order. When a record does
    /// not parse or is refused, the reading stops there: the message keeps what the
    /// records before it gave, and the error is returned.
    pub fn merge(&mut self, bytes: &[u8]) -> (r: Result<(), WireError>)
        ensures
            final(self)@ == merge_run(old(self)@, bytes@, Self::apply_fn()).0,
            r == match merge_run(old(self)@, bytes@, Self::apply_fn()).1 {
                None => Ok::<(), WireError>(()),
                Some(e) => Err::<(), WireError>(e),
            },
    {
        let ghost total = merge_run(self@, bytes@, Self::apply_fn());
        let mut cur = Self::default();
        std::mem::swap(&mut cur, self);
        let mut pos: usize = 0;
        assert(bytes@.skip(0) =~= bytes@);
        while pos < bytes.len()
            invariant
                pos <= bytes@.len(),
                total == merge_run(old(self)@, bytes@, Self::apply_fn()),
                merge_run(cur@, bytes@.skip(pos as int), Self::apply_fn()) == total,
            decreases bytes@.len() - pos,
        {
            let ghost s = bytes@.skip(pos as int);
            proof {
                lemma_merge_run_step(cur@, s, Self::apply_fn());
                lemma_parse_field_len(s);
            }
            match read_field(bytes, pos) {
                Ok((f, end)) => {
                    assert(bytes@.skip(end as int) =~= s.skip((end - pos) as int));
                    match cur.applied(&f) {
                        Ok(m) => {
                            cur = m;
                        },
                        Err((m, e)) => {
                            *self = m;
                            return Err(e);
                        },
                    }
                    pos = end;
                },
                Err(e) => {
                    *self = cur;
                    return Err(e);
                },
            }
        }
        assert(bytes@.skip(pos as int) =~= Seq::<u8>::empty());
        proof {
            lemma_merge_run_empty(cur@, Self::apply_fn());
        }
        *self = cur;
        Ok(())
    }

    /// Decodes a message from its encoding.
    pub fn decode(bytes: &[u8]) -> (r: Result<Self, WireError>)
        ensures
            match Self::spec_decode(bytes@) {
                Ok(v) => r matches Ok(m) && m@ == v,
                Err(e) => r matches Err(x) && x == e,
            },
    {
        proof {
            reveal(CMsgClientCheckFileSignature::spec_decode);
        }
        let mut m = Self::default();
        match m.merge(bytes) {
            Ok(()) => Ok(m),
            Err(e) => Err(e),
        }
    }

    /// The encoding of this message.
    pub fn encode_to_vec(&self) -> (r: Vec<u8>)
        ensures
            r@ == Self::spec_encode(self@),
    {
        let ghost v = self@;
        let mut out: Vec<u8> = Vec::new();
        let ghost p0 = Seq::<SpecField>::empty();
        put_opt_u32(&mut out, 1, self.app_id);
        let ghost p1 = p0 + opt_u32(1, v.app_id);
        proof {
            lemma_fields_bytes_concat(p0, opt_u32(1, v.app_id));
        }
        proof {
            reveal(CMsgClientCheckFileSignature::spec_encode);
        }
        assert(p1 == Self::spec_fields(v));
        out
    }

    /// Appends the encoding of this message to `out`.
    pub fn encode_raw(&self, out: &mut Vec<u8>)
        ensures
            final(out)@ == old(out)@ + Self::spec_encode(self@),
    {
        let mut b = self.encode_to_vec();
        out.append(&mut b);
    }

    /// The first `k` fields of `v`, the others as a fresh message has them.
    #[verifier::opaque]
    pub open spec fn spec_prefix(v: SpecCMsgClientCheckFileSignature, k: int) -> SpecCMsgClientCheckFileSignature {
        SpecCMsgClientCheckFileSignature {
            app_id: if 1 <= k { v.app_id } else { None },
        }
    }

    /// Reading field 1 back, after the fields before it.
    proof fn lemma_field_app_id(v: SpecCMsgClientCheckFileSignature)
        ensures
            fold_fields(Self::spec_prefix(v, 0), opt_u32(1, v.app_id), Self::apply_fn())
                == Ok::<SpecCMsgClientCheckFileSignature, WireError>(Self::spec_prefix(v, 1)),
    {
        reveal(CMsgClientCheckFileSignature::spec_prefix);
        reveal(opt_u32);
        let apply = Self::apply_fn();
        let s = Self::spec_prefix(v, 0);
        lemma_fold_opt(s, 1, match v.app_id { Some(x) => Some(enc_u32(x)), None => None }, apply);
        if let Some(x) = v.app_id {
            lemma_u32_roundtrip(x);
        }
        assert(SpecCMsgClientCheckFileSignature { app_id: v.app_id, ..s } == Self::spec_prefix(v, 1));
    }

    /// Whether this message declares field number `n`.
    pub open spec fn declares(n: u32) -> bool {
        n == 1
    }

    /// A record with a number this message does not declare is passed over: well-formed
    /// bytes decode to the same message with such a record after them as without it.
    pub proof fn lemma_unknown_field(bytes: Seq<u8>, f: SpecField)
        requires
            parse_fields(bytes) is Ok,
            field_wf(f),
            !Self::declares(f.number),
        ensures
            Self::spec_decode(bytes + field_bytes(f)) == Self::spec_decode(bytes),
    {
        reveal(CMsgClientCheckFileSignature::spec_decode);
        lemma_parse_fields_append(bytes, f);
        let fs = parse_fields(bytes).unwrap();
        let apply = Self::apply_fn();
        lemma_fold_concat(Self::spec_default(), fs, seq![f], apply);
        assert(fs.push(f) =~= fs + seq![f]);
        if let Ok(w) = fold_fields(Self::spec_default(), fs, apply) {
            lemma_fold_single(w, f, apply);
        }
        lemma_merge_run_fold(Self::spec_default(), bytes, apply);
        lemma_merge_run_fold(Self::spec_default(), bytes + field_bytes(f), apply);
    }

    /// Decoding the encoding of a message gives the message back.
    pub proof fn lemma_decode_encode(v: SpecCMsgClientCheckFileSignature)
        requires
            Self::spec_encode(v).len() <= u64::MAX,
        ensures
            Self::spec_decode(Self::spec_encode(v)) == Ok::<SpecCMsgClientCheckFileSignature, WireError>(v),
    {
        let apply = Self::apply_fn();
        let d = Self::spec_default();
        let p0 = Seq::<SpecField>::empty();
        let l1 = opt_u32(1, v.app_id);
        let p1 = p0 + l1;
        assert(parse_fields(Self::spec_encode(v)) == Ok::<Seq<SpecField>, WireError>(p1)) by {
            reveal(CMsgClientCheckFileSignature::spec_encode);
            assert(numbers_ok(p0) && fields_wf(p0)) by {
                reveal(numbers_ok);
                reveal(fields_wf);
            }
            lemma_opt_u32_numbered(1, v.app_id);
            lemma_fields_wf_concat(p0, l1);
            assert(p1 == Self::spec_fields(v));
            lemma_fields_wf_from_len(p1);
            lemma_fields_roundtrip(p1);
        }
        assert(Self::spec_prefix(v, 0) == d) by {
            reveal(CMsgClientCheckFileSignature::spec_prefix);
        }
        lemma_fold_empty(d, apply);
        lemma_fold_concat(d, p0, l1, apply);
        Self::lemma_field_app_id(v);
        assert(Self::spec_prefix(v, 1) == v) by {
            reveal(CMsgClientCheckFileSignature::spec_prefix);
        }
        lemma_merge_run_fold(d, Self::spec_encode(v), apply);
        assert(Self::spec_decode(Self::spec_encode(v)) == Ok::<SpecCMsgClientCheckFileSignature, WireError>(v)) by {
            reveal(CMsgClientCheckFileSignature::spec_decode);
        }
    }
}

/// `CMsgClientCheckFileSignatureResponse`, as Valve's schema declares it.
#[derive(Debug, Clone, PartialEq)]
pub struct CMsgClientCheckFileSignatureResponse {
    /// Field 1.
    pub app_id: Option<u32>,
    /// Field 2.
    pub pid: Option<u32>,
    /// Field 3.
    pub eresult: Option<u32>,
    /// Field 4.
    pub filename: Option<String>,
    /// Field 5.
    pub esignatureresult: Option<u32>,
    /// Field 6.
    pub sha_file: Option<Vec<u8>>,
    /// Field 7.
    pub signatureheader: Option<Vec<u8>>,
    /// Field 8.
    pub filesize: Option<u32>,
    /// Field 9.
    pub getlasterror: Option<u32>,
    /// Field 10.
    pub evalvesignaturecheckdetail: Option<u32>,
}

/// What a `CMsgClientCheckFileSignatureResponse` holds, as mathematical values.
#[verifier::ext_equal]
pub struct SpecCMsgClientCheckFileSignatureResponse {
    pub app_id: Option<u32>,
    pub pid: Option<u32>,
    pub eresult: Option<u32>,
    pub filename: Option<Seq<char>>,
    pub esignatureresult: Option<u32>,
    pub sha_file: Option<Seq<u8>>,
    pub signatureheader: Option<Seq<u8>>,
    pub filesize: Option<u32>,
    pub getlasterror: Option<u32>,
    pub evalvesignaturecheckdetail: Option<u32>,
}

impl View for CMsgClientCheckFileSignatureResponse {
    type V = SpecCMsgClientCheckFileSignatureResponse;

    open spec fn view(&self) -> SpecCMsgClientCheckFileSignatureResponse {
        SpecCMsgClientCheckFileSignatureResponse {
            app_id: self.app_id,
            pid: self.pid,
            eresult: self.eresult,
            filename: opt_string_view(self.filename),
            esignatureresult: self.esignatureresult,
            sha_file: opt_bytes_view(self.sha_file),
            signatureheader: opt_bytes_view(self.signatureheader),
            filesize: self.filesize,
            getlasterror: self.getlasterror,
            evalvesignaturecheckdetail: self.evalvesignaturecheckdetail,
        }
    }
}

impl Default for CMsgClientCheckFileSignatureResponse {
    fn default() -> (r: Self)
        ensures
            r@ == CMsgClientCheckFileSignatureResponse::spec_default(),
    {
        CMsgClientCheckFileSignatureResponse {
            app_id: None,
            pid: None,
            eresult: None,
            filename: None,
            esignatureresult: None,
            sha_file: None,
            signatureheader: None,
            filesize: None,
            getlasterror: None,
            evalvesignaturecheckdetail: None,
        }
    }
}

impl CMsgClientCheckFileSignatureResponse {
    pub open spec fn spec_default() -> SpecCMsgClientCheckFileSignatureResponse {
        SpecCMsgClientCheckFileSignatureResponse {
            app_id: None,
            pid: None,
            eresult: None,
            filename: None,
            esignatureresult: None,
            sha_file: None,
            signatureheader: None,
            filesize: None,
            getlasterror: None,
            evalvesignaturecheckdetail: None,
        }
    }

    /// The records a `CMsgClientCheckFileSignatureResponse` is written as, in field order.
    pub open spec fn spec_fields(v: SpecCMsgClientCheckFileSignatureResponse) -> Seq<SpecField> {
        Seq::<SpecField>::empty()
            + opt_u32(1, v.app_id)
            + opt_u32(2, v.pid)
            + opt_u32(3, v.eresult)
            + opt_string(4, v.filename)
            + opt_u32(5, v.esignatureresult)
            + opt_bytes(6, v.sha_file)
            + opt_bytes(7, v.signatureheader)
            + opt_u32(8, v.filesize)
            + opt_u32(9, v.getlasterror)
            + opt_u32(10, v.evalvesignaturecheckdetail)
    }

    #[verifier::opaque]
    pub open spec fn spec_encode(v: SpecCMsgClientCheckFileSignatureResponse) -> Seq<u8> {
        fields_bytes(Self::spec_fields(v))
    }

    /// What one record does to the message: a declared number sets or extends its
    /// field, any other number is left alone.
    pub open spec fn spec_apply(v: SpecCMsgClientCheckFileSignatureResponse, f: SpecField) -> Result<SpecCMsgClientCheckFileSignatureResponse, WireError> {
        match f.number {
            1 => match dec_u32(f.value) {
                Ok(x) => Ok(SpecCMsgClientCheckFileSignatureResponse { app_id: Some(x), ..v }),
                Err(e) => Err(e),
            },
            2 => match dec_u32(f.value) {
                Ok(x) => Ok(SpecCMsgClientCheckFileSignatureResponse { pid: Some(x), ..v }),
                Err(e) => Err(e),
            },
            3 => match dec_u32(f.value) {
                Ok(x) => Ok(SpecCMsgClientCheckFileSignatureResponse { eresult: Some(x), ..v }),
                Err(e) => Err(e),
            },
            4 => match dec_string(f.value) {
                Ok(x) => Ok(SpecCMsgClientCheckFileSignatureResponse { filename: Some(x), ..v }),
                Err(e) => Err(e),
            },
            5 => match dec_u32(f.value) {
                Ok(x) => Ok(SpecCMsgClientCheckFileSignatureResponse { esignatureresult: Some(x), ..v }),
                Err(e) => Err(e),
            },
            6 => match dec_bytes(f.value) {
                Ok(x) => Ok(SpecCMsgClientCheckFileSignatureResponse { sha_file: Some(x), ..v }),
                Err(e) => Err(e),
            },
            7 => match dec_bytes(f.value) {
                Ok(x) => Ok(SpecCMsgClientCheckFileSignatureResponse { signatureheader: Some(x), ..v }),
                Err(e) => Err(e),
            },
            8 => match dec_u32(f.value) {
                Ok(x) => Ok(SpecCMsgClientCheckFileSignatureResponse { filesize: Some(x), ..v }),
                Err(e) => Err(e),
            },
            9 => match dec_u32(f.value) {
                Ok(x) => Ok(SpecCMsgClientCheckFileSignatureResponse { getlasterror: Some(x), ..v }),
                Err(e) => Err(e),
            },
            10 => match dec_u32(f.value) {
                Ok(x) => Ok(SpecCMsgClientCheckFileSignatureResponse { evalvesignaturecheckdetail: Some(x), ..v }),
                Err(e) => Err(e),
            },
            _ => Ok(v),
        }
    }

    pub open spec fn apply_fn() -> spec_fn(SpecCMsgClientCheckFileSignatureResponse, SpecField) -> Result<SpecCMsgClientCheckFileSignatureResponse, WireError> {
        |v: SpecCMsgClientCheckFileSignatureResponse, f: SpecField| Self::spec_apply(v, f)
    }

    /// The message `bytes` makes of `v`: its records applied in order, or the error
    /// that stops the reading.
    pub open spec fn spec_merge(v: SpecCMsgClientCheckFileSignatureResponse, bytes: Seq<u8>) -> Result<SpecCMsgClientCheckFileSignatureResponse, WireError> {
        let (w, stop) = merge_run(v, bytes, Self::apply_fn());
        match stop {
            None => Ok(w),
            Some(e) => Err(e),
        }
    }

    #[verifier::opaque]
    pub open spec fn spec_decode(bytes: Seq<u8>) -> Result<SpecCMsgClientCheckFileSignatureResponse, WireError> {
        Self::spec_merge(Self::spec_default(), bytes)
    }

    /// This message with one record applied to it, or, when the record is refused,
    /// the message unchanged and the reason.
    fn applied(self, f: &Field) -> (r: Result<Self, (Self, WireError)>)
        ensures
            match Self::spec_apply(self@, f@) {
                Ok(v) => r matches Ok(m) && m@ == v,
                Err(e) => r matches Err((m, x)) && x == e && m@ == self@,
            },
    {
        if f.number <= 6 {
            self.applied_0(f)
        } else {
            self.applied_1(f)
        }
    }

    /// `applied`, for the records numbered up to 6.
    fn applied_0(self, f: &Field) -> (r: Result<Self, (Self, WireError)>)
        requires
            f.number <= 6,
        ensures
            match Self::spec_apply(self@, f@) {
                Ok(v) => r matches Ok(m) && m@ == v,
                Err(e) => r matches Err((m, x)) && x == e && m@ == self@,
            },
    {
        match f.number {
            1 => match read_u32(&f.value) {
                Ok(x) => Ok(Self { app_id: Some(x), ..self }),
                Err(e) => Err((self, e)),
            },
            2 => match read_u32(&f.value) {
                Ok(x) => Ok(Self { pid: Some(x), ..self }),
                Err(e) => Err((self, e)),
            },
            3 => match read_u32(&f.value) {
                Ok(x) => Ok(Self { eresult: Some(x), ..self }),
                Err(e) => Err((self, e)),
            },
            4 => match read_string(&f.value) {
                Ok(x) => Ok(Self { filename: Some(x), ..self }),
                Err(e) => Err((self, e)),
            },
            5 => match read_u32(&f.value) {
                Ok(x) => Ok(Self { esignatureresult: Some(x), ..self }),
                Err(e) => Err((self, e)),
            },
            6 => match read_bytes(&f.value) {
                Ok(x) => Ok(Self { sha_file: Some(x), ..self }),
                Err(e) => Err((self, e)),
            },
            _ => Ok(self),
        }
    }

    /// `applied`, for the records numbered above 6.
    fn applied_1(self, f: &Field) -> (r: Result<Self, (Self, WireError)>)
        requires
            6 < f.number,
        ensures
            match Self::spec_apply(self@, f@) {
                Ok(v) => r matches Ok(m) && m@ == v,
                Err(e) => r matches Err((m, x)) && x == e && m@ == self@,
            },
    {
        match f.number {
            7 => match read_bytes(&f.value) {
                Ok(x) => Ok(Self { signatureheader: Some(x), ..self }),
                Err(e) => Err((self, e)),
            },
            8 => match read_u32(&f.value) {
                Ok(x) => Ok(Self { filesize: Some(x), ..self }),
                Err(e) => Err((self, e)),
            },
            9 => match read_u32(&f.value) {
                Ok(x) => Ok(Self { getlasterror: Some(x), ..self }),
                Err(e) => Err((self, e)),
            },
            10 => match read_u32(&f.value) {
                Ok(x) => Ok(Self { evalvesignaturecheckdetail: Some(x), ..self }),
                Err(e) => Err((self, e)),
            },
            _ => Ok(self),
        }
    }

    /// Reads the records `bytes` holds into this message, in order. When a record does
    /// not parse or is refused, the reading stops there: the message keeps what the
    /// records before it gave, and the error is returned.
    pub fn merge(&mut self, bytes: &[u8]) -> (r: Result<(), WireError>)
        ensures
            final(self)@ == merge_run(old(self)@, bytes@, Self::apply_fn()).0,
            r == match merge_run(old(self)@, bytes@, Self::apply_fn()).1 {
                None => Ok::<(), WireError>(()),
                Some(e) => Err::<(), WireError>(e),
            },
    {
        let ghost total = merge_run(self@, bytes@, Self::apply_fn());
        let mut cur = Self::default();
        std::mem::swap(&mut cur, self);
        let mut pos: usize = 0;
        assert(bytes@.skip(0) =~= bytes@);
        while pos < bytes.len()
            invariant
                pos <= bytes@.len(),
                total == merge_run(old(self)@, bytes@, Self::apply_fn()),
                merge_run(cur@, bytes@.skip(pos as int), Self::apply_fn()) == total,
            decreases bytes@.len() - pos,
        {
            let ghost s = bytes@.skip(pos as int);
            proof {
                lemma_merge_run_step(cur@, s, Self::apply_fn());
                lemma_parse_field_len(s);
            }
            match read_field(bytes, pos) {
                Ok((f, end)) => {
                    assert(bytes@.skip(end as int) =~= s.skip((end - pos) as int));
                    match cur.applied(&f) {
                        Ok(m) => {
                            cur = m;
                        },
                        Err((m, e)) => {
                            *self = m;
                            return Err(e);
                        },
                    }
                    pos = end;
                },
                Err(e) => {
                    *self = cur;
                    return Err(e);
                },
            }
        }
        assert(bytes@.skip(pos as int) =~= Seq::<u8>::empty());
        proof {
            lemma_merge_run_empty(cur@, Self::apply_fn());
        }
        *self = cur;
        Ok(())
    }

    /// Decodes a message from its encoding.
    pub fn decode(bytes: &[u8]) -> (r: Result<Self, WireError>)
        ensures
            match Self::spec_decode(bytes@) {
                Ok(v) => r matches Ok(m) && m@ == v,
                Err(e) => r matches Err(x) && x == e,
            },
    {
        proof {
            reveal(CMsgClientCheckFileSignatureResponse::spec_decode);
        }
        let mut m = Self::default();
        match m.merge(bytes) {
            Ok(()) => Ok(m),
            Err(e) => Err(e),
        }
    }

    /// The encoding of this message.
    pub fn encode_to_vec(&self) -> (r: Vec<u8>)
        ensures
            r@ == Self::spec_encode(self@),
    {
        let ghost v = self@;
        let mut out: Vec<u8> = Vec::new();
        let ghost p0 = Seq::<SpecField>::empty();
        put_opt_u32(&mut out, 1, self.app_id);
        let ghost p1 = p0 + opt_u32(1, v.app_id);
        proof {
            lemma_fields_bytes_concat(p0, opt_u32(1, v.app_id));
        }
        put_opt_u32(&mut out, 2, self.pid);
        let ghost p2 = p1 + opt_u32(2, v.pid);
        proof {
            lemma_fields_bytes_concat(p1, opt_u32(2, v.pid));
        }
        put_opt_u32(&mut out, 3, self.eresult);
        let ghost p3 = p2 + opt_u32(3, v.eresult);
        proof {
            lemma_fields_bytes_concat(p2, opt_u32(3, v.eresult));
        }
        put_opt_string(&mut out, 4, &self.filename);
        let ghost p4 = p3 + opt_string(4, v.filename);
        proof {
            lemma_fields_bytes_concat(p3, opt_string(4, v.filename));
        }
        put_opt_u32(&mut out, 5, self.esignatureresult);
        let ghost p5 = p4 + opt_u32(5, v.esignatureresult);
        proof {
            lemma_fields_bytes_concat(p4, opt_u32(5, v.esignatureresult));
        }
        put_opt_bytes(&mut out, 6, &self.sha_file);
        let ghost p6 = p5 + opt_bytes(6, v.sha_file);
        proof {
            lemma_fields_bytes_concat(p5, opt_bytes(6, v.sha_file));
        }
        put_opt_bytes(&mut out, 7, &self.signatureheader);
        let ghost p7 = p6 + opt_bytes(7, v.signatureheader);
        proof {
            lemma_fields_bytes_concat(p6, opt_bytes(7, v.signatureheader));
        }
        put_opt_u32(&mut out, 8, self.filesize);
        let ghost p8 = p7 + opt_u32(8, v.filesize);
        proof {
            lemma_fields_bytes_concat(p7, opt_u32(8, v.filesize));
        }
        put_opt_u32(&mut out, 9, self.getlasterror);
        let ghost p9 = p8 + opt_u32(9, v.getlasterror);
        proof {
            lemma_fields_bytes_concat(p8, opt_u32(9, v.getlasterror));
        }
        put_opt_u32(&mut out, 10, self.evalvesignaturecheckdetail);
        let ghost p10 = p9 + opt_u32(10, v.evalvesignaturecheckdetail);
        proof {
            lemma_fields_bytes_concat(p9, opt_u32(10, v.evalvesignaturecheckdetail));
        }
        proof {
            reveal(CMsgClientCheckFileSignatureResponse::spec_encode);
        }
        assert(p10 == Self::spec_fields(v));
        out
    }

    /// Appends the encoding of this message to `out`.
    pub fn encode_raw(&self, out: &mut Vec<u8>)
        ensures
            final(out)@ == old(out)@ + Self::spec_encode(self@),
    {
        let mut b = self.encode_to_vec();
        out.append(&mut b);
    }

    /// The first `k` fields of `v`, the others as a fresh message has them.
    #[verifier::opaque]
    pub open spec fn spec_prefix(v: SpecCMsgClientCheckFileSignatureResponse, k: int) -> SpecCMsgClientCheckFileSignatureResponse {
        SpecCMsgClientCheckFileSignatureResponse {
            app_id: if 1 <= k { v.app_id } else { None },
            pid: if 2 <= k { v.pid } else { None },
            eresult: if 3 <= k { v.eresult } else { None },
            filename: if 4 <= k { v.filename } else { None },
            esignatureresult: if 5 <= k { v.esignatureresult } else { None },
            sha_file: if 6 <= k { v.sha_file } else { None },
            signatureheader: if 7 <= k { v.signatureheader } else { None },
            filesize: if 8 <= k { v.filesize } else { None },
            getlasterror: if 9 <= k { v.getlasterror } else { None },
            evalvesignaturecheckdetail: if 10 <= k { v.evalvesignaturecheckdetail } else { None },
        }
    }

    /// Reading field 1 back, after the fields before it.
    proof fn lemma_field_app_id(v: SpecCMsgClientCheckFileSignatureResponse)
        ensures
            fold_fields(Self::spec_prefix(v, 0), opt_u32(1, v.app_id), Self::apply_fn())
                == Ok::<SpecCMsgClientCheckFileSignatureResponse, WireError>(Self::spec_prefix(v, 1)),
    {
        reveal(CMsgClientCheckFileSignatureResponse::spec_prefix);
        reveal(opt_u32);
        let apply = Self::apply_fn();
        let s = Self::spec_prefix(v, 0);
        lemma_fold_opt(s, 1, match v.app_id { Some(x) => Some(enc_u32(x)), None => None }, apply);
        if let Some(x) = v.app_id {
            lemma_u32_roundtrip(x);
        }
        assert(SpecCMsgClientCheckFileSignatureResponse { app_id: v.app_id, ..s } == Self::spec_prefix(v, 1));
    }

    /// Reading field 2 back, after the fields before it.
    proof fn lemma_field_pid(v: SpecCMsgClientCheckFileSignatureResponse)
        ensures
            fold_fields(Self::spec_prefix(v, 1), opt_u32(2, v.pid), Self::apply_fn())
                == Ok::<SpecCMsgClientCheckFileSignatureResponse, WireError>(Self::spec_prefix(v, 2)),
    {
        reveal(CMsgClientCheckFileSignatureResponse::spec_prefix);
        reveal(opt_u32);
        let apply = Self::apply_fn();
        let s = Self::spec_prefix(v, 1);
        lemma_fold_opt(s, 2, match v.pid { Some(x) => Some(enc_u32(x)), None => None }, apply);
        if let Some(x) = v.pid {
            lemma_u32_roundtrip(x);
        }
        assert(SpecCMsgClientCheckFileSignatureResponse { pid: v.pid, ..s } == Self::spec_prefix(v, 2));
    }

    /// Reading field 3 back, after the fields before it.
    proof fn lemma_field_eresult(v: SpecCMsgClientCheckFileSignatureResponse)
        ensures
            fold_fields(Self::spec_prefix(v, 2), opt_u32(3, v.eresult), Self::apply_fn())
                == Ok::<SpecCMsgClientCheckFileSignatureResponse, WireError>(Self::spec_prefix(v, 3)),
    {
        reveal(CMsgClientCheckFileSignatureResponse::spec_prefix);
        reveal(opt_u32);
        let apply = Self::apply_fn();
        let s = Self::spec_prefix(v, 2);
        lemma_fold_opt(s, 3, match v.eresult { Some(x) => Some(enc_u32(x)), None => None }, apply);
        if let Some(x) = v.eresult {
            lemma_u32_roundtrip(x);
        }
        assert(SpecCMsgClientCheckFileSignatureResponse { eresult: v.eresult, ..s } == Self::spec_prefix(v, 3));
    }

    /// Reading field 4 back, after the fields before it.
    proof fn lemma_field_filename(v: SpecCMsgClientCheckFileSignatureResponse)
        ensures
            fold_fields(Self::spec_prefix(v, 3), opt_string(4, v.filename), Self::apply_fn())
                == Ok::<SpecCMsgClientCheckFileSignatureResponse, WireError>(Self::spec_prefix(v, 4)),
    {
        reveal(CMsgClientCheckFileSignatureResponse::spec_prefix);
        reveal(opt_string);
        let apply = Self::apply_fn();
        let s = Self::spec_prefix(v, 3);
        lemma_fold_opt(s, 4, match v.filename { Some(x) => Some(enc_string(x)), None => None }, apply);
        if let Some(x) = v.filename {
            lemma_string_roundtrip(x);
        }
        assert(SpecCMsgClientCheckFileSignatureResponse { filename: v.filename, ..s } == Self::spec_prefix(v, 4));
    }

    /// Reading field 5 back, after the fields before it.
    proof fn lemma_field_esignatureresult(v: SpecCMsgClientCheckFileSignatureResponse)
        ensures
            fold_fields(Self::spec_prefix(v, 4), opt_u32(5, v.esignatureresult), Self::apply_fn())
                == Ok::<SpecCMsgClientCheckFileSignatureResponse, WireError>(Self::spec_prefix(v, 5)),
    {
        reveal(CMsgClientCheckFileSignatureResponse::spec_prefix);
        reveal(opt_u32);
        let apply = Self::apply_fn();
        let s = Self::spec_prefix(v, 4);
        lemma_fold_opt(s, 5, match v.esignatureresult { Some(x) => Some(enc_u32(x)), None => None }, apply);
        if let Some(x) = v.esignatureresult {
            lemma_u32_roundtrip(x);
        }
        assert(SpecCMsgClientCheckFileSignatureResponse { esignatureresult: v.esignatureresult, ..s } == Self::spec_prefix(v, 5));
    }

    /// Reading field 6 back, after the fields before it.
    proof fn lemma_field_sha_file(v: SpecCMsgClientCheckFileSignatureResponse)
        ensures
            fold_fields(Self::spec_prefix(v, 5), opt_bytes(6, v.sha_file), Self::apply_fn())
                == Ok::<SpecCMsgClientCheckFileSignatureResponse, WireError>(Self::spec_prefix(v, 6)),
    {
        reveal(CMsgClientCheckFileSignatureResponse::spec_prefix);
        reveal(opt_bytes);
        let apply = Self::apply_fn();
        let s = Self::spec_prefix(v, 5);
        lemma_fold_opt(s, 6, match v.sha_file { Some(x) => Some(enc_bytes(x)), None => None }, apply);
        assert(SpecCMsgClientCheckFileSignatureResponse { sha_file: v.sha_file, ..s } == Self::spec_prefix(v, 6));
    }

    /// Reading field 7 back, after the fields before it.
    proof fn lemma_field_signatureheader(v: SpecCMsgClientCheckFileSignatureResponse)
        ensures
            fold_fields(Self::spec_prefix(v, 6), opt_bytes(7, v.signatureheader), Self::apply_fn())
                == Ok::<SpecCMsgClientCheckFileSignatureResponse, WireError>(Self::spec_prefix(v, 7)),
    {
        reveal(CMsgClientCheckFileSignatureResponse::spec_prefix);
        reveal(opt_bytes);
        let apply = Self::apply_fn();
        let s = Self::spec_prefix(v, 6);
        lemma_fold_opt(s, 7, match v.signatureheader { Some(x) => Some(enc_bytes(x)), None => None }, apply);
        assert(SpecCMsgClientCheckFileSignatureResponse { signatureheader: v.signatureheader, ..s } == Self::spec_prefix(v, 7));
    }

    /// Reading field 8 back, after the fields before it.
    proof fn lemma_field_filesize(v: SpecCMsgClientCheckFileSignatureResponse)
        ensures
            fold_fields(Self::spec_prefix(v, 7), opt_u32(8, v.filesize), Self::apply_fn())
                == Ok::<SpecCMsgClientCheckFileSignatureResponse, WireError>(Self::spec_prefix(v, 8)),
    {
        reveal(CMsgClientCheckFileSignatureResponse::spec_prefix);
        reveal(opt_u32);
        let apply = Self::apply_fn();
        let s = Self::spec_prefix(v, 7);
        lemma_fold_opt(s, 8, match v.filesize { Some(x) => Some(enc_u32(x)), None => None }, apply);
        if let Some(x) = v.filesize {
            lemma_u32_roundtrip(x);
        }
        assert(SpecCMsgClientCheckFileSignatureResponse { filesize: v.filesize, ..s } == Self::spec_prefix(v, 8));
    }

    /// Reading field 9 back, after the fields before it.
    proof fn lemma_field_getlasterror(v: SpecCMsgClientCheckFileSignatureResponse)
        ensures
            fold_fields(Self::spec_prefix(v, 8), opt_u32(9, v.getlasterror), Self::apply_fn())
                == Ok::<SpecCMsgClientCheckFileSignatureResponse, WireError>(Self::spec_prefix(v, 9)),
    {
        reveal(CMsgClientCheckFileSignatureResponse::spec_prefix);
        reveal(opt_u32);
        let apply = Self::apply_fn();
        let s = Self::spec_prefix(v, 8);
        lemma_fold_opt(s, 9, match v.getlasterror { Some(x) => Some(enc_u32(x)), None => None }, apply);
        if let Some(x) = v.getlasterror {
            lemma_u32_roundtrip(x);
        }
        assert(SpecCMsgClientCheckFileSignatureResponse { getlasterror: v.getlasterror, ..s } == Self::spec_prefix(v, 9));
    }

    /// Reading field 10 back, after the fields before it.
    proof fn lemma_field_evalvesignaturecheckdetail(v: SpecCMsgClientCheckFileSignatureResponse)
        ensures
            fold_fields(Self::spec_prefix(v, 9), opt_u32(10, v.evalvesignaturecheckdetail), Self::apply_fn())
                == Ok::<SpecCMsgClientCheckFileSignatureResponse, WireError>(Self::spec_prefix(v, 10)),
    {
        reveal(CMsgClientCheckFileSignatureResponse::spec_prefix);
        reveal(opt_u32);
        let apply = Self::apply_fn();
        let s = Self::spec_prefix(v, 9);
        lemma_fold_opt(s, 10, match v.evalvesignaturecheckdetail { Some(x) => Some(enc_u32(x)), None => None }, apply);
        if let Some(x) = v.evalvesignaturecheckdetail {
            lemma_u32_roundtrip(x);
        }
        assert(SpecCMsgClientCheckFileSignatureResponse { evalvesignaturecheckdetail: v.evalvesignaturecheckdetail, ..s } == Self::spec_prefix(v, 10));
    }

    /// Whether this message declares field number `n`.
    pub open spec fn declares(n: u32) -> bool {
        n == 1 || n == 2 || n == 3 || n == 4 || n == 5 || n == 6 || n == 7 || n == 8 || n == 9 || n == 10
    }

    /// A record with a number this message does not declare is passed over: well-formed
    /// bytes decode to the same message with such a record after them as without it.
    pub proof fn lemma_unknown_field(bytes: Seq<u8>, f: SpecField)
        requires
            parse_fields(bytes) is Ok,
            field_wf(f),
            !Self::declares(f.number),
        ensures
            Self::spec_decode(bytes + field_bytes(f)) == Self::spec_decode(bytes),
    {
        reveal(CMsgClientCheckFileSignatureResponse::spec_decode);
        lemma_parse_fields_append(bytes, f);
        let fs = parse_fields(bytes).unwrap();
        let apply = Self::apply_fn();
        lemma_fold_concat(Self::spec_default(), fs, seq![f], apply);
        assert(fs.push(f) =~= fs + seq![f]);
        if let Ok(w) = fold_fields(Self::spec_default(), fs, apply) {
            lemma_fold_single(w, f, apply);
        }
        lemma_merge_run_fold(Self::spec_default(), bytes, apply);
        lemma_merge_run_fold(Self::spec_default(), bytes + field_bytes(f), apply);
    }

    /// Decoding the encoding of a message gives the message back.
    pub proof fn lemma_decode_encode(v: SpecCMsgClientCheckFileSignatureResponse)
        requires
            Self::spec_encode(v).len() <= u64::MAX,
        ensures
            Self::spec_decode(Self::spec_encode(v)) == Ok::<SpecCMsgClientCheckFileSignatureResponse, WireError>(v),
    {
        let apply = Self::apply_fn();
        let d = Self::spec_default();
        let p0 = Seq::<SpecField>::empty();
        let l1 = opt_u32(1, v.app_id);
        let p1 = p0 + l1;
        let l2 = opt_u32(2, v.pid);
        let p2 = p1 + l2;
        let l3 = opt_u32(3, v.eresult);
        let p3 = p2 + l3;
        let l4 = opt_string(4, v.filename);
        let p4 = p3 + l4;
        let l5 = opt_u32(5, v.esignatureresult);
        let p5 = p4 + l5;
        let l6 = opt_bytes(6, v.sha_file);
        let p6 = p5 + l6;
        let l7 = opt_bytes(7, v.signatureheader);
        let p7 = p6 + l7;
        let l8 = opt_u32(8, v.filesize);
        let p8 = p7 + l8;
        let l9 = opt_u32(9, v.getlasterror);
        let p9 = p8 + l9;
        let l10 = opt_u32(10, v.evalvesignaturecheckdetail);
        let p10 = p9 + l10;
        assert(parse_fields(Self::spec_encode(v)) == Ok::<Seq<SpecField>, WireError>(p10)) by {
            reveal(CMsgClientCheckFileSignatureResponse::spec_encode);
            assert(numbers_ok(p0) && fields_wf(p0)) by {
                reveal(numbers_ok);
                reveal(fields_wf);
            }
            lemma_opt_u32_numbered(1, v.app_id);
            lemma_fields_wf_concat(p0, l1);
            lemma_opt_u32_numbered(2, v.pid);
            lemma_fields_wf_concat(p1, l2);
            lemma_opt_u32_numbered(3, v.eresult);
            lemma_fields_wf_concat(p2, l3);
            lemma_opt_string_numbered(4, v.filename);
            lemma_fields_wf_concat(p3, l4);
            lemma_opt_u32_numbered(5, v.esignatureresult);
            lemma_fields_wf_concat(p4, l5);
            lemma_opt_bytes_numbered(6, v.sha_file);
            lemma_fields_wf_concat(p5, l6);
            lemma_opt_bytes_numbered(7, v.signatureheader);
            lemma_fields_wf_concat(p6, l7);
            lemma_opt_u32_numbered(8, v.filesize);
            lemma_fields_wf_concat(p7, l8);
            lemma_opt_u32_numbered(9, v.getlasterror);
            lemma_fields_wf_concat(p8, l9);
            lemma_opt_u32_numbered(10, v.evalvesignaturecheckdetail);
            lemma_fields_wf_concat(p9, l10);
            assert(p10 == Self::spec_fields(v));
            lemma_fields_wf_from_len(p10);
            lemma_fields_roundtrip(p10);
        }
        assert(Self::spec_prefix(v, 0) == d) by {
            reveal(CMsgClientCheckFileSignatureResponse::spec_prefix);
        }
        lemma_fold_empty(d, apply);
        lemma_fold_concat(d, p0, l1, apply);
        Self::lemma_field_app_id(v);
        lemma_fold_concat(d, p1, l2, apply);
        Self::lemma_field_pid(v);
        lemma_fold_concat(d, p2, l3, apply);
        Self::lemma_field_eresult(v);
        lemma_fold_concat(d, p3, l4, apply);
        Self::lemma_field_filename(v);
        lemma_fold_concat(d, p4, l5, apply);
        Self::lemma_field_esignatureresult(v);
        lemma_fold_concat(d, p5, l6, apply);
        Self::lemma_field_sha_file(v);
        lemma_fold_concat(d, p6, l7, apply);
        Self::lemma_field_signatureheader(v);
        lemma_fold_concat(d, p7, l8, apply);
        Self::lemma_field_filesize(v);
        lemma_fold_concat(d, p8, l9, apply);
        Self::lemma_field_getlasterror(v);
        lemma_fold_concat(d, p9, l10, apply);
        Self::lemma_field_evalvesignaturecheckdetail(v);
        assert(Self::spec_prefix(v, 10) == v) by {
            reveal(CMsgClientCheckFileSignatureResponse::spec_prefix);
        }
        lemma_merge_run_fold(d, Self::spec_encode(v), apply);
        assert(Self::spec_decode(Self::spec_encode(v)) == Ok::<SpecCMsgClientCheckFileSignatureResponse, WireError>(v)) by {
            reveal(CMsgClientCheckFileSignatureResponse::spec_decode);
        }
    }
}

/// `CMsgClientRegisterKey`, as Valve's schema declares it.
#[derive(Debug, Clone, PartialEq)]
pub struct CMsgClientRegisterKey {
    /// Field 1.
    pub key: Option<String>,
}

/// What a `CMsgClientRegisterKey` holds, as mathematical values.
#[verifier::ext_equal]
pub struct SpecCMsgClientRegisterKey {
    pub key: Option<Seq<char>>,
}

impl View for CMsgClientRegisterKey {
    type V = SpecCMsgClientRegisterKey;

    open spec fn view(&self) -> SpecCMsgClientRegisterKey {
        SpecCMsgClientRegisterKey {
            key: opt_string_view(self.key),
        }
    }
}

impl Default for CMsgClientRegisterKey {
    fn default() -> (r: Self)
        ensures
            r@ == CMsgClientRegisterKey::spec_default(),
    {
        CMsgClientRegisterKey {
            key: None,
        }
    }
}

impl CMsgClientRegisterKey {
    pub open spec fn spec_default() -> SpecCMsgClientRegisterKey {
        SpecCMsgClientRegisterKey {
            key: None,
        }
    }

    /// The records a `CMsgClientRegisterKey` is written as, in field order.
    pub open spec fn spec_fields(v: SpecCMsgClientRegisterKey) -> Seq<SpecField> {
        Seq::<SpecField>::empty()
            + opt_string(1, v.key)
    }

    #[verifier::opaque]
    pub open spec fn spec_encode(v: SpecCMsgClientRegisterKey) -> Seq<u8> {
        fields_bytes(Self::spec_fields(v))
    }

    /// What one record does to the message: a declared number sets or extends its
    /// field, any other number is left alone.
    pub open spec fn spec_apply(v: SpecCMsgClientRegisterKey, f: SpecField) -> Result<SpecCMsgClientRegisterKey, WireError> {
        match f.number {
            1 => match dec_string(f.value) {
                Ok(x) => Ok(SpecCMsgClientRegisterKey { key: Some(x), ..v }),
                Err(e) => Err(e),
            },
            _ => Ok(v),
        }
    }

    pub open spec fn apply_fn() -> spec_fn(SpecCMsgClientRegisterKey, SpecField) -> Result<SpecCMsgClientRegisterKey, WireError> {
        |v: SpecCMsgClientRegisterKey, f: SpecField| Self::spec_apply(v, f)
    }

    /// The message `bytes` makes of `v`: its records applied in order, or the error
    /// that stops the reading.
    pub open spec fn spec_merge(v: SpecCMsgClientRegisterKey, bytes: Seq<u8>) -> Result<SpecCMsgClientRegisterKey, WireError> {
        let (w, stop) = merge_run(v, bytes, Self::apply_fn());
        match stop {
            None => Ok(w),
            Some(e) => Err(e),
        }
    }

    #[verifier::opaque]
    pub open spec fn spec_decode(bytes: Seq<u8>) -> Result<SpecCMsgClientRegisterKey, WireError> {
        Self::spec_merge(Self::spec_default(), bytes)
    }

    /// This message with one record applied to it, or, when the record is refused,
    /// the message unchanged and the reason.
    fn applied(self, f: &Field) -> (r: Result<Self, (Self, WireError)>)
        ensures
            match Self::spec_apply(self@, f@) {
                Ok(v) => r matches Ok(m) && m@ == v,
                Err(e) => r matches Err((m, x)) && x == e && m@ == self@,
            },
    {
        match f.number {
            1 => match read_string(&f.value) {
                Ok(x) => Ok(Self { key: Some(x), ..self }),
                Err(e) => Err((self, e)),
            },
            _ => Ok(self),
        }
    }

    /// Reads the records `bytes` holds into this message, in order. When a record does
    /// not parse or is refused, the reading stops there: the message keeps what the
    /// records before it gave, and the error is returned.
    pub fn merge(&mut self, bytes: &[u8]) -> (r: Result<(), WireError>)
        ensures
            final(self)@ == merge_run(old(self)@, bytes@, Self::apply_fn()).0,
            r == match merge_run(old(self)@, bytes@, Self::apply_fn()).1 {
                None => Ok::<(), WireError>(()),
                Some(e) => Err::<(), WireError>(e),
            },
    {
        let ghost total = merge_run(self@, bytes@, Self::apply_fn());
        let mut cur = Self::default();
        std::mem::swap(&mut cur, self);
        let mut pos: usize = 0;
        assert(bytes@.skip(0) =~= bytes@);
        while pos < bytes.len()
            invariant
                pos <= bytes@.len(),
                total == merge_run(old(self)@, bytes@, Self::apply_fn()),
                merge_run(cur@, bytes@.skip(pos as int), Self::apply_fn()) == total,
            decreases bytes@.len() - pos,
        {
            let ghost s = bytes@.skip(pos as int);
            proof {
                lemma_merge_run_step(cur@, s, Self::apply_fn());
                lemma_parse_field_len(s);
            }
            match read_field(bytes, pos) {
                Ok((f, end)) => {
                    assert(bytes@.skip(end as int) =~= s.skip((end - pos) as int));
                    match cur.applied(&f) {
                        Ok(m) => {
                            cur = m;
                        },
                        Err((m, e)) => {
                            *self = m;
                            return Err(e);
                        },
                    }
                    pos = end;
                },
                Err(e) => {
                    *self = cur;
                    return Err(e);
                },
            }
        }
        assert(bytes@.skip(pos as int) =~= Seq::<u8>::empty());
        proof {
            lemma_merge_run_empty(cur@, Self::apply_fn());
        }
        *self = cur;
        Ok(())
    }

    /// Decodes a message from its encoding.
    pub fn decode(bytes: &[u8]) -> (r: Result<Self, WireError>)
        ensures
            match Self::spec_decode(bytes@) {
                Ok(v) => r matches Ok(m) && m@ == v,
                Err(e) => r matches Err(x) && x == e,
            },
    {
        proof {
            reveal(CMsgClientRegisterKey::spec_decode);
        }
        let mut m = Self::default();
        match m.merge(bytes) {
            Ok(()) => Ok(m),
            Err(e) => Err(e),
        }
    }

    /// The encoding of this message.
    pub fn encode_to_vec(&self) -> (r: Vec<u8>)
        ensures
            r@ == Self::spec_encode(self@),
    {
        let ghost v = self@;
        let mut out: Vec<u8> = Vec::new();
        let ghost p0 = Seq::<SpecField>::empty();
        put_opt_string(&mut out, 1, &self.key);
        let ghost p1 = p0 + opt_string(1, v.key);
        proof {
            lemma_fields_bytes_concat(p0, opt_string(1, v.key));
        }
        proof {
            reveal(CMsgClientRegisterKey::spec_encode);
        }
        assert(p1 == Self::spec_fields(v));
        out
    }

    /// Appends the encoding of this message to `out`.
    pub fn encode_raw(&self, out: &mut Vec<u8>)
        ensures
            final(out)@ == old(out)@ + Self::spec_encode(self@),
    {
        let mut b = self.encode_to_vec();
        out.append(&mut b);
    }

    /// The first `k` fields of `v`, the others as a fresh message has them.
    #[verifier::opaque]
    pub open spec fn spec_prefix(v: SpecCMsgClientRegisterKey, k: int) -> SpecCMsgClientRegisterKey {
        SpecCMsgClientRegisterKey {
            key: if 1 <= k { v.key } else { None },
        }
    }

    /// Reading field 1 back, after the fields before it.
    proof fn lemma_field_key(v: SpecCMsgClientRegisterKey)
        ensures
            fold_fields(Self::spec_prefix(v, 0), opt_string(1, v.key), Self::apply_fn())
                == Ok::<SpecCMsgClientRegisterKey, WireError>(Self::spec_prefix(v, 1)),
    {
        reveal(CMsgClientRegisterKey::spec_prefix);
        reveal(opt_string);
        let apply = Self::apply_fn();
        let s = Self::spec_prefix(v, 0);
        lemma_fold_opt(s, 1, match v.key { Some(x) => Some(enc_string(x)), None => None }, apply);
        if let Some(x) = v.key {
            lemma_string_roundtrip(x);
        }
        assert(SpecCMsgClientRegisterKey { key: v.key, ..s } == Self::spec_prefix(v, 1));
    }

    /// Whether this message declares field number `n`.
    pub open spec fn declares(n: u32) -> bool {
        n == 1
    }

    /// A record with a number this message does not declare is passed over: well-formed
    /// bytes decode to the same message with such a record after them as without it.
    pub proof fn lemma_unknown_field(bytes: Seq<u8>, f: SpecField)
        requires
            parse_fields(bytes) is Ok,
            field_wf(f),
            !Self::declares(f.number),
        ensures
            Self::spec_decode(bytes + field_bytes(f)) == Self::spec_decode(bytes),
    {
        reveal(CMsgClientRegisterKey::spec_decode);
        lemma_parse_fields_append(bytes, f);
        let fs = parse_fields(bytes).unwrap();
        let apply = Self::apply_fn();
        lemma_fold_concat(Self::spec_default(), fs, seq![f], apply);
        assert(fs.push(f) =~= fs + seq![f]);
        if let Ok(w) = fold_fields(Self::spec_default(), fs, apply) {
            lemma_fold_single(w, f, apply);
        }
        lemma_merge_run_fold(Self::spec_default(), bytes, apply);
        lemma_merge_run_fold(Self::spec_default(), bytes + field_bytes(f), apply);
    }

    /// Decoding the encoding of a message gives the message back.
    pub proof fn lemma_decode_encode(v: SpecCMsgClientRegisterKey)
        requires
            Self::spec_encode(v).len() <= u64::MAX,
        ensures
            Self::spec_decode(Self::spec_encode(v)) == Ok::<SpecCMsgClientRegisterKey, WireError>(v),
    {
        let apply = Self::apply_fn();
        let d = Self::spec_default();
        let p0 = Seq::<SpecField>::empty();
        let l1 = opt_string(1, v.key);
        let p1 = p0 + l1;
        assert(parse_fields(Self::spec_encode(v)) == Ok::<Seq<SpecField>, WireError>(p1)) by {
            reveal(CMsgClientRegisterKey::spec_encode);
            assert(numbers_ok(p0) && fields_wf(p0)) by {
                reveal(numbers_ok);
                reveal(fields_wf);
            }
            lemma_opt_string_numbered(1, v.key);
            lemma_fields_wf_concat(p0, l1);
            assert(p1 == Self::spec_fields(v));
            lemma_fields_wf_from_len(p1);
            lemma_fields_roundtrip(p1);
        }
        assert(Self::spec_prefix(v, 0) == d) by {
            reveal(CMsgClientRegisterKey::spec_prefix);
        }
        lemma_fold_empty(d, apply);
        lemma_fold_concat(d, p0, l1, apply);
        Self::lemma_field_key(v);
        assert(Self::spec_prefix(v, 1) == v) by {
            reveal(CMsgClientRegisterKey::spec_prefix);
        }
        lemma_merge_run_fold(d, Self::spec_encode(v), apply);
        assert(Self::spec_decode(Self::spec_encode(v)) == Ok::<SpecCMsgClientRegisterKey, WireError>(v)) by {
            reveal(CMsgClientRegisterKey::spec_decode);
        }
    }
}

/// `CMsgClientPurchaseResponse`, as Valve's schema declares it.
#[derive(Debug, Clone, PartialEq)]
pub struct CMsgClientPurchaseResponse {
    /// Field 1.
    pub eresult: Option<i32>,
    /// Field 2.
    pub purchase_result_details: Option<i32>,
    /// Field 3.
    pub purchase_receipt_info: Option<Vec<u8>>,
}

/// What a `CMsgClientPurchaseResponse` holds, as mathematical values.
#[verifier::ext_equal]
pub struct SpecCMsgClientPurchaseResponse {
    pub eresult: Option<i32>,
    pub purchase_result_details: Option<i32>,
    pub purchase_receipt_info: Option<Seq<u8>>,
}

impl View for CMsgClientPurchaseResponse {
    type V = SpecCMsgClientPurchaseResponse;

    open spec fn view(&self) -> SpecCMsgClientPurchaseResponse {
        SpecCMsgClientPurchaseResponse {
            eresult: self.eresult,
            purchase_result_details: self.purchase_result_details,
            purchase_receipt_info: opt_bytes_view(self.purchase_receipt_info),
        }
    }
}

impl Default for CMsgClientPurchaseResponse {
    fn default() -> (r: Self)
        ensures
            r@ == CMsgClientPurchaseResponse::spec_default(),
    {
        CMsgClientPurchaseResponse {
            eresult: None,
            purchase_result_details: None,
            purchase_receipt_info: None,
        }
    }
}

impl CMsgClientPurchaseResponse {
    /// Field 1, or its schema default when absent.
    pub fn eresult_or_default(&self) -> (r: i32)
        ensures
            r == match self.eresult {
                Some(x) => x,
                None => 2i32,
            },
    {
        self.eresult.unwrap_or(2i32)
    }

    pub open spec fn spec_default() -> SpecCMsgClientPurchaseResponse {
        SpecCMsgClientPurchaseResponse {
            eresult: None,
            purchase_result_details: None,
            purchase_receipt_info: None,
        }
    }

    /// The records a `CMsgClientPurchaseResponse` is written as, in field order.
    pub open spec fn spec_fields(v: SpecCMsgClientPurchaseResponse) -> Seq<SpecField> {
        Seq::<SpecField>::empty()
            + opt_i32(1, v.eresult)
            + opt_i32(2, v.purchase_result_details)
            + opt_bytes(3, v.purchase_receipt_info)
    }

    #[verifier::opaque]
    pub open spec fn spec_encode(v: SpecCMsgClientPurchaseResponse) -> Seq<u8> {
        fields_bytes(Self::spec_fields(v))
    }

    /// What one record does to the message: a declared number sets or extends its
    /// field, any other number is left alone.
    pub open spec fn spec_apply(v: SpecCMsgClientPurchaseResponse, f: SpecField) -> Result<SpecCMsgClientPurchaseResponse, WireError> {
        match f.number {
            1 => match dec_i32(f.value) {
                Ok(x) => Ok(SpecCMsgClientPurchaseResponse { eresult: Some(x), ..v }),
                Err(e) => Err(e),
            },
            2 => match dec_i32(f.value) {
                Ok(x) => Ok(SpecCMsgClientPurchaseResponse { purchase_result_details: Some(x), ..v }),
                Err(e) => Err(e),
            },
            3 => match dec_bytes(f.value) {
                Ok(x) => Ok(SpecCMsgClientPurchaseResponse { purchase_receipt_info: Some(x), ..v }),
                Err(e) => Err(e),
            },
            _ => Ok(v),
        }
    }

    pub open spec fn apply_fn() -> spec_fn(SpecCMsgClientPurchaseResponse, SpecField) -> Result<SpecCMsgClientPurchaseResponse, WireError> {
        |v: SpecCMsgClientPurchaseResponse, f: SpecField| Self::spec_apply(v, f)
    }

    /// The message `bytes` makes of `v`: its records applied in order, or the error
    /// that stops the reading.
    pub open spec fn spec_merge(v: SpecCMsgClientPurchaseResponse, bytes: Seq<u8>) -> Result<SpecCMsgClientPurchaseResponse, WireError> {
        let (w, stop) = merge_run(v, bytes, Self::apply_fn());
        match stop {
            None => Ok(w),
            Some(e) => Err(e),
        }
    }

    #[verifier::opaque]
    pub open spec fn spec_decode(bytes: Seq<u8>) -> Result<SpecCMsgClientPurchaseResponse, WireError> {
        Self::spec_merge(Self::spec_default(), bytes)
    }

    /// This message with one record applied to it, or, when the record is refused,
    /// the message unchanged and the reason.
    fn applied(self, f: &Field) -> (r: Result<Self, (Self, WireError)>)
        ensures
            match Self::spec_apply(self@, f@) {
                Ok(v) => r matches Ok(m) && m@ == v,
                Err(e) => r matches Err((m, x)) && x == e && m@ == self@,
            },
    {
        match f.number {
            1 => match read_i32(&f.value) {
                Ok(x) => Ok(Self { eresult: Some(x), ..self }),
                Err(e) => Err((self, e)),
            },
            2 => match read_i32(&f.value) {
                Ok(x) => Ok(Self { purchase_result_details: Some(x), ..self }),
                Err(e) => Err((self, e)),
            },
            3 => match read_bytes(&f.value) {
                Ok(x) => Ok(Self { purchase_receipt_info: Some(x), ..self }),
                Err(e) => Err((self, e)),
            },
            _ => Ok(self),
        }
    }

    /// Reads the records `bytes` holds into this message, in order. When a record does
    /// not parse or is refused, the reading stops there: the message keeps what the
    /// records before it gave, and the error is returned.
    pub fn merge(&mut self, bytes: &[u8]) -> (r: Result<(), WireError>)
        ensures
            final(self)@ == merge_run(old(self)@, bytes@, Self::apply_fn()).0,
            r == match merge_run(old(self)@, bytes@, Self::apply_fn()).1 {
                None => Ok::<(), WireError>(()),
                Some(e) => Err::<(), WireError>(e),
            },
    {
        let ghost total = merge_run(self@, bytes@, Self::apply_fn());
        let mut cur = Self::default();
        std::mem::swap(&mut cur, self);
        let mut pos: usize = 0;
        assert(bytes@.skip(0) =~= bytes@);
        while pos < bytes.len()
            invariant
                pos <= bytes@.len(),
                total == merge_run(old(self)@, bytes@, Self::apply_fn()),
                merge_run(cur@, bytes@.skip(pos as int), Self::apply_fn()) == total,
            decreases bytes@.len() - pos,
        {
            let ghost s = bytes@.skip(pos as int);
            proof {
                lemma_merge_run_step(cur@, s, Self::apply_fn());
                lemma_parse_field_len(s);
            }
            match read_field(bytes, pos) {
                Ok((f, end)) => {
                    assert(bytes@.skip(end as int) =~= s.skip((end - pos) as int));
                    match cur.applied(&f) {
                        Ok(m) => {
                            cur = m;
                        },
                        Err((m, e)) => {
                            *self = m;
                            return Err(e);
                        },
                    }
                    pos = end;
                },
                Err(e) => {
                    *self = cur;
                    return Err(e);
                },
            }
        }
        assert(bytes@.skip(pos as int) =~= Seq::<u8>::empty());
        proof {
            lemma_merge_run_empty(cur@, Self::apply_fn());
        }
        *self = cur;
        Ok(())
    }

    /// Decodes a message from its encoding.
    pub fn decode(bytes: &[u8]) -> (r: Result<Self, WireError>)
        ensures
            match Self::spec_decode(bytes@) {
                Ok(v) => r matches Ok(m) && m@ == v,
                Err(e) => r matches Err(x) && x == e,
            },
    {
        proof {
            reveal(CMsgClientPurchaseResponse::spec_decode);
        }
        let mut m = Self::default();
        match m.merge(bytes) {
            Ok(()) => Ok(m),
            Err(e) => Err(e),
        }
    }

    /// The encoding of this message.
    pub fn encode_to_vec(&self) -> (r: Vec<u8>)
        ensures
            r@ == Self::spec_encode(self@),
    {
        let ghost v = self@;
        let mut out: Vec<u8> = Vec::new();
        let ghost p0 = Seq::<SpecField>::empty();
        put_opt_i32(&mut out, 1, self.eresult);
        let ghost p1 = p0 + opt_i32(1, v.eresult);
        proof {
            lemma_fields_bytes_concat(p0, opt_i32(1, v.eresult));
        }
        put_opt_i32(&mut out, 2, self.purchase_result_details);
        let ghost p2 = p1 + opt_i32(2, v.purchase_result_details);
        proof {
            lemma_fields_bytes_concat(p1, opt_i32(2, v.purchase_result_details));
        }
        put_opt_bytes(&mut out, 3, &self.purchase_receipt_info);
        let ghost p3 = p2 + opt_bytes(3, v.purchase_receipt_info);
        proof {
            lemma_fields_bytes_concat(p2, opt_bytes(3, v.purchase_receipt_info));
        }
        proof {
            reveal(CMsgClientPurchaseResponse::spec_encode);
        }
        assert(p3 == Self::spec_fields(v));
        out
    }

    /// Appends the encoding of this message to `out`.
    pub fn encode_raw(&self, out: &mut Vec<u8>)
        ensures
            final(out)@ == old(out)@ + Self::spec_encode(self@),
    {
        let mut b = self.encode_to_vec();
        out.append(&mut b);
    }

    /// The first `k` fields of `v`, the others as a fresh message has them.
    #[verifier::opaque]
    pub open spec fn spec_prefix(v: SpecCMsgClientPurchaseResponse, k: int) -> SpecCMsgClientPurchaseResponse {
        SpecCMsgClientPurchaseResponse {
            eresult: if 1 <= k { v.eresult } else { None },
            purchase_result_details: if 2 <= k { v.purchase_result_details } else { None },
            purchase_receipt_info: if 3 <= k { v.purchase_receipt_info } else { None },
        }
    }

    /// Reading field 1 back, after the fields before it.
    proof fn lemma_field_eresult(v: SpecCMsgClientPurchaseResponse)
        ensures
            fold_fields(Self::spec_prefix(v, 0), opt_i32(1, v.eresult), Self::apply_fn())
                == Ok::<SpecCMsgClientPurchaseResponse, WireError>(Self::spec_prefix(v, 1)),
    {
        reveal(CMsgClientPurchaseResponse::spec_prefix);
        reveal(opt_i32);
        let apply = Self::apply_fn();
        let s = Self::spec_prefix(v, 0);
        lemma_fold_opt(s, 1, match v.eresult { Some(x) => Some(enc_i32(x)), None => None }, apply);
        if let Some(x) = v.eresult {
            lemma_i32_roundtrip(x);
        }
        assert(SpecCMsgClientPurchaseResponse { eresult: v.eresult, ..s } == Self::spec_prefix(v, 1));
    }

    /// Reading field 2 back, after the fields before it.
    proof fn lemma_field_purchase_result_details(v: SpecCMsgClientPurchaseResponse)
        ensures
            fold_fields(Self::spec_prefix(v, 1), opt_i32(2, v.purchase_result_details), Self::apply_fn())
                == Ok::<SpecCMsgClientPurchaseResponse, WireError>(Self::spec_prefix(v, 2)),
    {
        reveal(CMsgClientPurchaseResponse::spec_prefix);
        reveal(opt_i32);
        let apply = Self::apply_fn();
        let s = Self::spec_prefix(v, 1);
        lemma_fold_opt(s, 2, match v.purchase_result_details { Some(x) => Some(enc_i32(x)), None => None }, apply);
        if let Some(x) = v.purchase_result_details {
            lemma_i32_roundtrip(x);
        }
        assert(SpecCMsgClientPurchaseResponse { purchase_result_details: v.purchase_result_details, ..s } == Self::spec_prefix(v, 2));
    }

    /// Reading field 3 back, after the fields before it.
    proof fn lemma_field_purchase_receipt_info(v: SpecCMsgClientPurchaseResponse)
        ensures
            fold_fields(Self::spec_prefix(v, 2), opt_bytes(3, v.purchase_receipt_info), Self::apply_fn())
                == Ok::<SpecCMsgClientPurchaseResponse, WireError>(Self::spec_prefix(v, 3)),
    {
        reveal(CMsgClientPurchaseResponse::spec_prefix);
        reveal(opt_bytes);
        let apply = Self::apply_fn();
        let s = Self::spec_prefix(v, 2);
        lemma_fold_opt(s, 3, match v.purchase_receipt_info { Some(x) => Some(enc_bytes(x)), None => None }, apply);
        assert(SpecCMsgClientPurchaseResponse { purchase_receipt_info: v.purchase_receipt_info, ..s } == Self::spec_prefix(v, 3));
    }

    /// Whether this message declares field number `n`.
    pub open spec fn declares(n: u32) -> bool {
        n == 1 || n == 2 || n == 3
    }

    /// A record with a number this message does not declare is passed over: well-formed
    /// bytes decode to the same message with such a record after them as without it.
    pub proof fn lemma_unknown_field(bytes: Seq<u8>, f: SpecField)
        requires
            parse_fields(bytes) is Ok,
            field_wf(f),
            !Self::declares(f.number),
        ensures
            Self::spec_decode(bytes + field_bytes(f)) == Self::spec_decode(bytes),
    {
        reveal(CMsgClientPurchaseResponse::spec_decode);
        lemma_parse_fields_append(bytes, f);
        let fs = parse_fields(bytes).unwrap();
        let apply = Self::apply_fn();
        lemma_fold_concat(Self::spec_default(), fs, seq![f], apply);
        assert(fs.push(f) =~= fs + seq![f]);
        if let Ok(w) = fold_fields(Self::spec_default(), fs, apply) {
            lemma_fold_single(w, f, apply);
        }
        lemma_merge_run_fold(Self::spec_default(), bytes, apply);
        lemma_merge_run_fold(Self::spec_default(), bytes + field_bytes(f), apply);
    }

    /// Decoding the encoding of a message gives the message back.
    pub proof fn lemma_decode_encode(v: SpecCMsgClientPurchaseResponse)
        requires
            Self::spec_encode(v).len() <= u64::MAX,
        ensures
            Self::spec_decode(Self::spec_encode(v)) == Ok::<SpecCMsgClientPurchaseResponse, WireError>(v),
    {
        let apply = Self::apply_fn();
        let d = Self::spec_default();
        let p0 = Seq::<SpecField>::empty();
        let l1 = opt_i32(1, v.eresult);
        let p1 = p0 + l1;
        let l2 = opt_i32(2, v.purchase_result_details);
        let p2 = p1 + l2;
        let l3 = opt_bytes(3, v.purchase_receipt_info);
        let p3 = p2 + l3;
        assert(parse_fields(Self::spec_encode(v)) == Ok::<Seq<SpecField>, WireError>(p3)) by {
            reveal(CMsgClientPurchaseResponse::spec_encode);
            assert(numbers_ok(p0) && fields_wf(p0)) by {
                reveal(numbers_ok);
                reveal(fields_wf);
            }
            lemma_opt_i32_numbered(1, v.eresult);
            lemma_fields_wf_concat(p0, l1);
            lemma_opt_i32_numbered(2, v.purchase_result_details);
            lemma_fields_wf_concat(p1, l2);
            lemma_opt_bytes_numbered(3, v.purchase_receipt_info);
            lemma_fields_wf_concat(p2, l3);
            assert(p3 == Self::spec_fields(v));
            lemma_fields_wf_from_len(p3);
            lemma_fields_roundtrip(p3);
        }
        assert(Self::spec_prefix(v, 0) == d) by {
            reveal(CMsgClientPurchaseResponse::spec_prefix);
        }
        lemma_fold_empty(d, apply);
        lemma_fold_concat(d, p0, l1, apply);
        Self::lemma_field_eresult(v);
        lemma_fold_concat(d, p1, l2, apply);
        Self::lemma_field_purchase_result_details(v);
        lemma_fold_concat(d, p2, l3, apply);
        Self::lemma_field_purchase_receipt_info(v);
        assert(Self::spec_prefix(v, 3) == v) by {
            reveal(CMsgClientPurchaseResponse::spec_prefix);
        }
        lemma_merge_run_fold(d, Self::spec_encode(v), apply);
        assert(Self::spec_decode(Self::spec_encode(v)) == Ok::<SpecCMsgClientPurchaseResponse, WireError>(v)) by {
            reveal(CMsgClientPurchaseResponse::spec_decode);
        }
    }
}

/// `CMsgClientActivateOEMLicense`, as Valve's schema declares it.
#[derive(Debug, Clone, PartialEq)]
pub struct CMsgClientActivateOEMLicense {
    /// Field 1.
    pub bios_manufacturer: Option<String>,
    /// Field 2.
    pub bios_serialnumber: Option<String>,
    /// Field 3.
    pub license_file: Option<Vec<u8>>,
    /// Field 4.
    pub mainboard_manufacturer: Option<String>,
    /// Field 5.
    pub mainboard_product: Option<String>,
    /// Field 6.
    pub mainboard_serialnumber: Option<String>,
}

/// What a `CMsgClientActivateOEMLicense` holds, as mathematical values.
#[verifier::ext_equal]
pub struct SpecCMsgClientActivateOEMLicense {
    pub bios_manufacturer: Option<Seq<char>>,
    pub bios_serialnumber: Option<Seq<char>>,
    pub license_file: Option<Seq<u8>>,
    pub mainboard_manufacturer: Option<Seq<char>>,
    pub mainboard_product: Option<Seq<char>>,
    pub mainboard_serialnumber: Option<Seq<char>>,
}

impl View for CMsgClientActivateOEMLicense {
    type V = SpecCMsgClientActivateOEMLicense;

    open spec fn view(&self) -> SpecCMsgClientActivateOEMLicense {
        SpecCMsgClientActivateOEMLicense {
            bios_manufacturer: opt_string_view(self.bios_manufacturer),
            bios_serialnumber: opt_string_view(self.bios_serialnumber),
            license_file: opt_bytes_view(self.license_file),
            mainboard_manufacturer: opt_string_view(self.mainboard_manufacturer),
            mainboard_product: opt_string_view(self.mainboard_product),
            mainboard_serialnumber: opt_string_view(self.mainboard_serialnumber),
        }
    }
}

impl Default for CMsgClientActivateOEMLicense {
    fn default() -> (r: Self)
        ensures
            r@ == CMsgClientActivateOEMLicense::spec_default(),
    {
        CMsgClientActivateOEMLicense {
            bios_manufacturer: None,
            bios_serialnumber: None,
            license_file: None,
            mainboard_manufacturer: None,
            mainboard_product: None,
            mainboard_serialnumber: None,
        }
    }
}

impl CMsgClientActivateOEMLicense {
    pub open spec fn spec_default() -> SpecCMsgClientActivateOEMLicense {
        SpecCMsgClientActivateOEMLicense {
            bios_manufacturer: None,
            bios_serialnumber: None,
            license_file: None,
            mainboard_manufacturer: None,
            mainboard_product: None,
            mainboard_serialnumber: None,
        }
    }

    /// The records a `CMsgClientActivateOEMLicense` is written as, in field order.
    pub open spec fn spec_fields(v: SpecCMsgClientActivateOEMLicense) -> Seq<SpecField> {
        Seq::<SpecField>::empty()
            + opt_string(1, v.bios_manufacturer)
            + opt_string(2, v.bios_serialnumber)
            + opt_bytes(3, v.license_file)
            + opt_string(4, v.mainboard_manufacturer)
            + opt_string(5, v.mainboard_product)
            + opt_string(6, v.mainboard_serialnumber)
    }

    #[verifier::opaque]
    pub open spec fn spec_encode(v: SpecCMsgClientActivateOEMLicense) -> Seq<u8> {
        fields_bytes(Self::spec_fields(v))
    }

    /// What one record does to the message: a declared number sets or extends its
    /// field, any other number is left alone.
    pub open spec fn spec_apply(v: SpecCMsgClientActivateOEMLicense, f: SpecField) -> Result<SpecCMsgClientActivateOEMLicense, WireError> {
        match f.number {
            1 => match dec_string(f.value) {
                Ok(x) => Ok(SpecCMsgClientActivateOEMLicense { bios_manufacturer: Some(x), ..v }),
                Err(e) => Err(e),
            },
            2 => match dec_string(f.value) {
                Ok(x) => Ok(SpecCMsgClientActivateOEMLicense { bios_serialnumber: Some(x), ..v }),
                Err(e) => Err(e),
            },
            3 => match dec_bytes(f.value) {
                Ok(x) => Ok(SpecCMsgClientActivateOEMLicense { license_file: Some(x), ..v }),
                Err(e) => Err(e),
            },
            4 => match dec_string(f.value) {
                Ok(x) => Ok(SpecCMsgClientActivateOEMLicense { mainboard_manufacturer: Some(x), ..v }),
                Err(e) => Err(e),
            },
            5 => match dec_string(f.value) {
                Ok(x) => Ok(SpecCMsgClientActivateOEMLicense { mainboard_product: Some(x), ..v }),
                Err(e) => Err(e),
            },
            6 => match dec_string(f.value) {
                Ok(x) => Ok(SpecCMsgClientActivateOEMLicense { mainboard_serialnumber: Some(x), ..v }),
                Err(e) => Err(e),
            },
            _ => Ok(v),
        }
    }

    pub open spec fn apply_fn() -> spec_fn(SpecCMsgClientActivateOEMLicense, SpecField) -> Result<SpecCMsgClientActivateOEMLicense, WireError> {
        |v: SpecCMsgClientActivateOEMLicense, f: SpecField| Self::spec_apply(v, f)
    }

    /// The message `bytes` makes of `v`: its records applied in order, or the error
    /// that stops the reading.
    pub open spec fn spec_merge(v: SpecCMsgClientActivateOEMLicense, bytes: Seq<u8>) -> Result<SpecCMsgClientActivateOEMLicense, WireError> {
        let (w, stop) = merge_run(v, bytes, Self::apply_fn());
        match stop {
            None => Ok(w),
            Some(e) => Err(e),
        }
    }

    #[verifier::opaque]
    pub open spec fn spec_decode(bytes: Seq<u8>) -> Result<SpecCMsgClientActivateOEMLicense, WireError> {
        Self::spec_merge(Self::spec_default(), bytes)
    }

    /// This message with one record applied to it, or, when the record is refused,
    /// the message unchanged and the reason.
    fn applied(self, f: &Field) -> (r: Result<Self, (Self, WireError)>)
        ensures
            match Self::spec_apply(self@, f@) {
                Ok(v) => r matches Ok(m) && m@ == v,
                Err(e) => r matches Err((m, x)) && x == e && m@ == self@,
            },
    {
        match f.number {
            1 => match read_string(&f.value) {
                Ok(x) => Ok(Self { bios_manufacturer: Some(x), ..self }),
                Err(e) => Err((self, e)),
            },
            2 => match read_string(&f.value) {
                Ok(x) => Ok(Self { bios_serialnumber: Some(x), ..self }),
                Err(e) => Err((self, e)),
            },
            3 => match read_bytes(&f.value) {
                Ok(x) => Ok(Self { license_file: Some(x), ..self }),
                Err(e) => Err((self, e)),
            },
            4 => match read_string(&f.value) {
                Ok(x) => Ok(Self { mainboard_manufacturer: Some(x), ..self }),
                Err(e) => Err((self, e)),
            },
            5 => match read_string(&f.value) {
                Ok(x) => Ok(Self { mainboard_product: Some(x), ..self }),
                Err(e) => Err((self, e)),
            },
            6 => match read_string(&f.value) {
                Ok(x) => Ok(Self { mainboard_serialnumber: Some(x), ..self }),
                Err(e) => Err((self, e)),
            },
            _ => Ok(self),
        }
    }

    /// Reads the records `bytes` holds into this message, in order. When a record does
    /// not parse or is refused, the reading stops there: the message keeps what the
    /// records before it gave, and the error is returned.
    pub fn merge(&mut self, bytes: &[u8]) -> (r: Result<(), WireError>)
        ensures
            final(self)@ == merge_run(old(self)@, bytes@, Self::apply_fn()).0,
            r == match merge_run(old(self)@, bytes@, Self::apply_fn()).1 {
                None => Ok::<(), WireError>(()),
                Some(e) => Err::<(), WireError>(e),
            },
    {
        let ghost total = merge_run(self@, bytes@, Self::apply_fn());
        let mut cur = Self::default();
        std::mem::swap(&mut cur, self);
        let mut pos: usize = 0;
        assert(bytes@.skip(0) =~= bytes@);
        while pos < bytes.len()
            invariant
                pos <= bytes@.len(),
                total == merge_run(old(self)@, bytes@, Self::apply_fn()),
                merge_run(cur@, bytes@.skip(pos as int), Self::apply_fn()) == total,
            decreases bytes@.len() - pos,
        {
            let ghost s = bytes@.skip(pos as int);
            proof {
                lemma_merge_run_step(cur@, s, Self::apply_fn());
                lemma_parse_field_len(s);
            }
            match read_field(bytes, pos) {
                Ok((f, end)) => {
                    assert(bytes@.skip(end as int) =~= s.skip((end - pos) as int));
                    match cur.applied(&f) {
                        Ok(m) => {
                            cur = m;
                        },
                        Err((m, e)) => {
                            *self = m;
                            return Err(e);
                        },
                    }
                    pos = end;
                },
                Err(e) => {
                    *self = cur;
                    return Err(e);
                },
            }
        }
        assert(bytes@.skip(pos as int) =~= Seq::<u8>::empty());
        proof {
            lemma_merge_run_empty(cur@, Self::apply_fn());
        }
        *self = cur;
        Ok(())
    }

    /// Decodes a message from its encoding.
    pub fn decode(bytes: &[u8]) -> (r: Result<Self, WireError>)
        ensures
            match Self::spec_decode(bytes@) {
                Ok(v) => r matches Ok(m) && m@ == v,
                Err(e) => r matches Err(x) && x == e,
            },
    {
        proof {
            reveal(CMsgClientActivateOEMLicense::spec_decode);
        }
        let mut m = Self::default();
        match m.merge(bytes) {
            Ok(()) => Ok(m),
            Err(e) => Err(e),
        }
    }

    /// The encoding of this message.
    pub fn encode_to_vec(&self) -> (r: Vec<u8>)
        ensures
            r@ == Self::spec_encode(self@),
    {
        let ghost v = self@;
        let mut out: Vec<u8> = Vec::new();
        let ghost p0 = Seq::<SpecField>::empty();
        put_opt_string(&mut out, 1, &self.bios_manufacturer);
        let ghost p1 = p0 + opt_string(1, v.bios_manufacturer);
        proof {
            lemma_fields_bytes_concat(p0, opt_string(1, v.bios_manufacturer));
        }
        put_opt_string(&mut out, 2, &self.bios_serialnumber);
        let ghost p2 = p1 + opt_string(2, v.bios_serialnumber);
        proof {
            lemma_fields_bytes_concat(p1, opt_string(2, v.bios_serialnumber));
        }
        put_opt_bytes(&mut out, 3, &self.license_file);
        let ghost p3 = p2 + opt_bytes(3, v.license_file);
        proof {
            lemma_fields_bytes_concat(p2, opt_bytes(3, v.license_file));
        }
        put_opt_string(&mut out, 4, &self.mainboard_manufacturer);
        let ghost p4 = p3 + opt_string(4, v.mainboard_manufacturer);
        proof {
            lemma_fields_bytes_concat(p3, opt_string(4, v.mainboard_manufacturer));
        }
        put_opt_string(&mut out, 5, &self.mainboard_product);
        let ghost p5 = p4 + opt_string(5, v.mainboard_product);
        proof {
            lemma_fields_bytes_concat(p4, opt_string(5, v.mainboard_product));
        }
        put_opt_string(&mut out, 6, &self.mainboard_serialnumber);
        let ghost p6 = p5 + opt_string(6, v.mainboard_serialnumber);
        proof {
            lemma_fields_bytes_concat(p5, opt_string(6, v.mainboard_serialnumber));
        }
        proof {
            reveal(CMsgClientActivateOEMLicense::spec_encode);
        }
        assert(p6 == Self::spec_fields(v));
        out
    }

    /// Appends the encoding of this message to `out`.
    pub fn encode_raw(&self, out: &mut Vec<u8>)
        ensures
            final(out)@ == old(out)@ + Self::spec_encode(self@),
    {
        let mut b = self.encode_to_vec();
        out.append(&mut b);
    }

    /// The first `k` fields of `v`, the others as a fresh message has them.
    #[verifier::opaque]
    pub open spec fn spec_prefix(v: SpecCMsgClientActivateOEMLicense, k: int) -> SpecCMsgClientActivateOEMLicense {
        SpecCMsgClientActivateOEMLicense {
            bios_manufacturer: if 1 <= k { v.bios_manufacturer } else { None },
            bios_serialnumber: if 2 <= k { v.bios_serialnumber } else { None },
            license_file: if 3 <= k { v.license_file } else { None },
            mainboard_manufacturer: if 4 <= k { v.mainboard_manufacturer } else { None },
            mainboard_product: if 5 <= k { v.mainboard_product } else { None },
            mainboard_serialnumber: if 6 <= k { v.mainboard_serialnumber } else { None },
        }
    }

    /// Reading field 1 back, after the fields before it.
    proof fn lemma_field_bios_manufacturer(v: SpecCMsgClientActivateOEMLicense)
        ensures
            fold_fields(Self::spec_prefix(v, 0), opt_string(1, v.bios_manufacturer), Self::apply_fn())
                == Ok::<SpecCMsgClientActivateOEMLicense, WireError>(Self::spec_prefix(v, 1)),
    {
        reveal(CMsgClientActivateOEMLicense::spec_prefix);
        reveal(opt_string);
        let apply = Self::apply_fn();
        let s = Self::spec_prefix(v, 0);
        lemma_fold_opt(s, 1, match v.bios_manufacturer { Some(x) => Some(enc_string(x)), None => None }, apply);
        if let Some(x) = v.bios_manufacturer {
            lemma_string_roundtrip(x);
        }
        assert(SpecCMsgClientActivateOEMLicense { bios_manufacturer: v.bios_manufacturer, ..s } == Self::spec_prefix(v, 1));
    }

    /// Reading field 2 back, after the fields before it.
    proof fn lemma_field_bios_serialnumber(v: SpecCMsgClientActivateOEMLicense)
        ensures
            fold_fields(Self::spec_prefix(v, 1), opt_string(2, v.bios_serialnumber), Self::apply_fn())
                == Ok::<SpecCMsgClientActivateOEMLicense, WireError>(Self::spec_prefix(v, 2)),
    {
        reveal(CMsgClientActivateOEMLicense::spec_prefix);
        reveal(opt_string);
        let apply = Self::apply_fn();
        let s = Self::spec_prefix(v, 1);
        lemma_fold_opt(s, 2, match v.bios_serialnumber { Some(x) => Some(enc_string(x)), None => None }, apply);
        if let Some(x) = v.bios_serialnumber {
            lemma_string_roundtrip(x);
        }
        assert(SpecCMsgClientActivateOEMLicense { bios_serialnumber: v.bios_serialnumber, ..s } == Self::spec_prefix(v, 2));
    }

    /// Reading field 3 back, after the fields before it.
    proof fn lemma_field_license_file(v: SpecCMsgClientActivateOEMLicense)
        ensures
            fold_fields(Self::spec_prefix(v, 2), opt_bytes(3, v.license_file), Self::apply_fn())
                == Ok::<SpecCMsgClientActivateOEMLicense, WireError>(Self::spec_prefix(v, 3)),
    {
        reveal(CMsgClientActivateOEMLicense::spec_prefix);
        reveal(opt_bytes);
        let apply = Self::apply_fn();
        let s = Self::spec_prefix(v, 2);
        lemma_fold_opt(s, 3, match v.license_file { Some(x) => Some(enc_bytes(x)), None => None }, apply);
        assert(SpecCMsgClientActivateOEMLicense { license_file: v.license_file, ..s } == Self::spec_prefix(v, 3));
    }

    /// Reading field 4 back, after the fields before it.
    proof fn lemma_field_mainboard_manufacturer(v: SpecCMsgClientActivateOEMLicense)
        ensures
            fold_fields(Self::spec_prefix(v, 3), opt_string(4, v.mainboard_manufacturer), Self::apply_fn())
                == Ok::<SpecCMsgClientActivateOEMLicense, WireError>(Self::spec_prefix(v, 4)),
    {
        reveal(CMsgClientActivateOEMLicense::spec_prefix);
        reveal(opt_string);
        let apply = Self::apply_fn();
        let s = Self::spec_prefix(v, 3);
        lemma_fold_opt(s, 4, match v.mainboard_manufacturer { Some(x) => Some(enc_string(x)), None => None }, apply);
        if let Some(x) = v.mainboard_manufacturer {
            lemma_string_roundtrip(x);
        }
        assert(SpecCMsgClientActivateOEMLicense { mainboard_manufacturer: v.mainboard_manufacturer, ..s } == Self::spec_prefix(v, 4));
    }

    /// Reading field 5 back, after the fields before it.
    proof fn lemma_field_mainboard_product(v: SpecCMsgClientActivateOEMLicense)
        ensures
            fold_fields(Self::spec_prefix(v, 4), opt_string(5, v.mainboard_product), Self::apply_fn())
                == Ok::<SpecCMsgClientActivateOEMLicense, WireError>(Self::spec_prefix(v, 5)),
    {
        reveal(CMsgClientActivateOEMLicense::spec_prefix);
        reveal(opt_string);
        let apply = Self::apply_fn();
        let s = Self::spec_prefix(v, 4);
        lemma_fold_opt(s, 5, match v.mainboard_product { Some(x) => Some(enc_string(x)), None => None }, apply);
        if let Some(x) = v.mainboard_product {
            lemma_string_roundtrip(x);
        }
        assert(SpecCMsgClientActivateOEMLicense { mainboard_product: v.mainboard_product, ..s } == Self::spec_prefix(v, 5));
    }

    /// Reading field 6 back, after the fields before it.
    proof fn lemma_field_mainboard_serialnumber(v: SpecCMsgClientActivateOEMLicense)
        ensures
            fold_fields(Self::spec_prefix(v, 5), opt_string(6, v.mainboard_serialnumber), Self::apply_fn())
                == Ok::<SpecCMsgClientActivateOEMLicense, WireError>(Self::spec_prefix(v, 6)),
    {
        reveal(CMsgClientActivateOEMLicense::spec_prefix);
        reveal(opt_string);
        let apply = Self::apply_fn();
        let s = Self::spec_prefix(v, 5);
        lemma_fold_opt(s, 6, match v.mainboard_serialnumber { Some(x) => Some(enc_string(x)), None => None }, apply);
        if let Some(x) = v.mainboard_serialnumber {
            lemma_string_roundtrip(x);
        }
        assert(SpecCMsgClientActivateOEMLicense { mainboard_serialnumber: v.mainboard_serialnumber, ..s } == Self::spec_prefix(v, 6));
    }

    /// Whether this message declares field number `n`.
    pub open spec fn declares(n: u32) -> bool {
        n == 1 || n == 2 || n == 3 || n == 4 || n == 5 || n == 6
    }

    /// A record with a number this message does not declare is passed over: well-formed
    /// bytes decode to the same message with such a record after them as without it.
    pub proof fn lemma_unknown_field(bytes: Seq<u8>, f: SpecField)
        requires
            parse_fields(bytes) is Ok,
            field_wf(f),
            !Self::declares(f.number),
        ensures
            Self::spec_decode(bytes + field_bytes(f)) == Self::spec_decode(bytes),
    {
        reveal(CMsgClientActivateOEMLicense::spec_decode);
        lemma_parse_fields_append(bytes, f);
        let fs = parse_fields(bytes).unwrap();
        let apply = Self::apply_fn();
        lemma_fold_concat(Self::spec_default(), fs, seq![f], apply);
        assert(fs.push(f) =~= fs + seq![f]);
        if let Ok(w) = fold_fields(Self::spec_default(), fs, apply) {
            lemma_fold_single(w, f, apply);
        }
        lemma_merge_run_fold(Self::spec_default(), bytes, apply);
        lemma_merge_run_fold(Self::spec_default(), bytes + field_bytes(f), apply);
    }

    /// Decoding the encoding of a message gives the message back.
    pub proof fn lemma_decode_encode(v: SpecCMsgClientActivateOEMLicense)
        requires
            Self::spec_encode(v).len() <= u64::MAX,
        ensures
            Self::spec_decode(Self::spec_encode(v)) == Ok::<SpecCMsgClientActivateOEMLicense, WireError>(v),
    {
        let apply = Self::apply_fn();
        let d = Self::spec_default();
        let p0 = Seq::<SpecField>::empty();
        let l1 = opt_string(1, v.bios_manufacturer);
        let p1 = p0 + l1;
        let l2 = opt_string(2, v.bios_serialnumber);
        let p2 = p1 + l2;
        let l3 = opt_bytes(3, v.license_file);
        let p3 = p2 + l3;
        let l4 = opt_string(4, v.mainboard_manufacturer);
        let p4 = p3 + l4;
        let l5 = opt_string(5, v.mainboard_product);
        let p5 = p4 + l5;
        let l6 = opt_string(6, v.mainboard_serialnumber);
        let p6 = p5 + l6;
        assert(parse_fields(Self::spec_encode(v)) == Ok::<Seq<SpecField>, WireError>(p6)) by {
            reveal(CMsgClientActivateOEMLicense::spec_encode);
            assert(numbers_ok(p0) && fields_wf(p0)) by {
                reveal(numbers_ok);
                reveal(fields_wf);
            }
            lemma_opt_string_numbered(1, v.bios_manufacturer);
            lemma_fields_wf_concat(p0, l1);
            lemma_opt_string_numbered(2, v.bios_serialnumber);
            lemma_fields_wf_concat(p1, l2);
            lemma_opt_bytes_numbered(3, v.license_file);
            lemma_fields_wf_concat(p2, l3);
            lemma_opt_string_numbered(4, v.mainboard_manufacturer);
            lemma_fields_wf_concat(p3, l4);
            lemma_opt_string_numbered(5, v.mainboard_product);
            lemma_fields_wf_concat(p4, l5);
            lemma_opt_string_numbered(6, v.mainboard_serialnumber);
            lemma_fields_wf_concat(p5, l6);
            assert(p6 == Self::spec_fields(v));
            lemma_fields_wf_from_len(p6);
            lemma_fields_roundtrip(p6);
        }
        assert(Self::spec_prefix(v, 0) == d) by {
            reveal(CMsgClientActivateOEMLicense::spec_prefix);
        }
        lemma_fold_empty(d, apply);
        lemma_fold_concat(d, p0, l1, apply);
        Self::lemma_field_bios_manufacturer(v);
        lemma_fold_concat(d, p1, l2, apply);
        Self::lemma_field_bios_serialnumber(v);
        lemma_fold_concat(d, p2, l3, apply);
        Self::lemma_field_license_file(v);
        lemma_fold_concat(d, p3, l4, apply);
        Self::lemma_field_mainboard_manufacturer(v);
        lemma_fold_concat(d, p4, l5, apply);
        Self::lemma_field_mainboard_product(v);
        lemma_fold_concat(d, p5, l6, apply);
        Self::lemma_field_mainboard_serialnumber(v);
        assert(Self::spec_prefix(v, 6) == v) by {
            reveal(CMsgClientActivateOEMLicense::spec_prefix);
        }
        lemma_merge_run_fold(d, Self::spec_encode(v), apply);
        assert(Self::spec_decode(Self::spec_encode(v)) == Ok::<SpecCMsgClientActivateOEMLicense, WireError>(v)) by {
            reveal(CMsgClientActivateOEMLicense::spec_decode);
        }
    }
}

/// `CMsgClientRegisterOEMMachine`, as Valve's schema declares it.
#[derive(Debug, Clone, PartialEq)]
pub struct CMsgClientRegisterOEMMachine {
    /// Field 1.
    pub oem_register_file: Option<Vec<u8>>,
}

/// What a `CMsgClientRegisterOEMMachine` holds, as mathematical values.
#[verifier::ext_equal]
pub struct SpecCMsgClientRegisterOEMMachine {
    pub oem_register_file: Option<Seq<u8>>,
}

impl View for CMsgClientRegisterOEMMachine {
    type V = SpecCMsgClientRegisterOEMMachine;

    open spec fn view(&self) -> SpecCMsgClientRegisterOEMMachine {
        SpecCMsgClientRegisterOEMMachine {
            oem_register_file: opt_bytes_view(self.oem_register_file),
        }
    }
}

impl Default for CMsgClientRegisterOEMMachine {
    fn default() -> (r: Self)
        ensures
            r@ == CMsgClientRegisterOEMMachine::spec_default(),
    {
        CMsgClientRegisterOEMMachine {
            oem_register_file: None,
        }
    }
}

impl CMsgClientRegisterOEMMachine {
    pub open spec fn spec_default() -> SpecCMsgClientRegisterOEMMachine {
        SpecCMsgClientRegisterOEMMachine {
            oem_register_file: None,
        }
    }

    /// The records a `CMsgClientRegisterOEMMachine` is written as, in field order.
    pub open spec fn spec_fields(v: SpecCMsgClientRegisterOEMMachine) -> Seq<SpecField> {
        Seq::<SpecField>::empty()
            + opt_bytes(1, v.oem_register_file)
    }

    #[verifier::opaque]
    pub open spec fn spec_encode(v: SpecCMsgClientRegisterOEMMachine) -> Seq<u8> {
        fields_bytes(Self::spec_fields(v))
    }

    /// What one record does to the message: a declared number sets or extends its
    /// field, any other number is left alone.
    pub open spec fn spec_apply(v: SpecCMsgClientRegisterOEMMachine, f: SpecField) -> Result<SpecCMsgClientRegisterOEMMachine, WireError> {
        match f.number {
            1 => match dec_bytes(f.value) {
                Ok(x) => Ok(SpecCMsgClientRegisterOEMMachine { oem_register_file: Some(x), ..v }),
                Err(e) => Err(e),
            },
            _ => Ok(v),
        }
    }

    pub open spec fn apply_fn() -> spec_fn(SpecCMsgClientRegisterOEMMachine, SpecField) -> Result<SpecCMsgClientRegisterOEMMachine, WireError> {
        |v: SpecCMsgClientRegisterOEMMachine, f: SpecField| Self::spec_apply(v, f)
    }

    /// The message `bytes` makes of `v`: its records applied in order, or the error
    /// that stops the reading.
    pub open spec fn spec_merge(v: SpecCMsgClientRegisterOEMMachine, bytes: Seq<u8>) -> Result<SpecCMsgClientRegisterOEMMachine, WireError> {
        let (w, stop) = merge_run(v, bytes, Self::apply_fn());
        match stop {
            None => Ok(w),
            Some(e) => Err(e),
        }
    }

    #[verifier::opaque]
    pub open spec fn spec_decode(bytes: Seq<u8>) -> Result<SpecCMsgClientRegisterOEMMachine, WireError> {
        Self::spec_merge(Self::spec_default(), bytes)
    }

    /// This message with one record applied to it, or, when the record is refused,
    /// the message unchanged and the reason.
    fn applied(self, f: &Field) -> (r: Result<Self, (Self, WireError)>)
        ensures
            match Self::spec_apply(self@, f@) {
                Ok(v) => r matches Ok(m) && m@ == v,
                Err(e) => r matches Err((m, x)) && x == e && m@ == self@,
            },
    {
        match f.number {
            1 => match read_bytes(&f.value) {
                Ok(x) => Ok(Self { oem_register_file: Some(x), ..self }),
                Err(e) => Err((self, e)),
            },
            _ => Ok(self),
        }
    }

    /// Reads the records `bytes` holds into this message, in order. When a record does
    /// not parse or is refused, the reading stops there: the message keeps what the
    /// records before it gave, and the error is returned.
    pub fn merge(&mut self, bytes: &[u8]) -> (r: Result<(), WireError>)
        ensures
            final(self)@ == merge_run(old(self)@, bytes@, Self::apply_fn()).0,
            r == match merge_run(old(self)@, bytes@, Self::apply_fn()).1 {
                None => Ok::<(), WireError>(()),
                Some(e) => Err::<(), WireError>(e),
            },
    {
        let ghost total = merge_run(self@, bytes@, Self::apply_fn());
        let mut cur = Self::default();
        std::mem::swap(&mut cur, self);
        let mut pos: usize = 0;
        assert(bytes@.skip(0) =~= bytes@);
        while pos < bytes.len()
            invariant
                pos <= bytes@.len(),
                total == merge_run(old(self)@, bytes@, Self::apply_fn()),
                merge_run(cur@, bytes@.skip(pos as int), Self::apply_fn()) == total,
            decreases bytes@.len() - pos,
        {
            let ghost s = bytes@.skip(pos as int);
            proof {
                lemma_merge_run_step(cur@, s, Self::apply_fn());
                lemma_parse_field_len(s);
            }
            match read_field(bytes, pos) {
                Ok((f, end)) => {
                    assert(bytes@.skip(end as int) =~= s.skip((end - pos) as int));
                    match cur.applied(&f) {
                        Ok(m) => {
                            cur = m;
                        },
                        Err((m, e)) => {
                            *self = m;
                            return Err(e);
                        },
                    }
                    pos = end;
                },
                Err(e) => {
                    *self = cur;
                    return Err(e);
                },
            }
        }
        assert(bytes@.skip(pos as int) =~= Seq::<u8>::empty());
        proof {
            lemma_merge_run_empty(cur@, Self::apply_fn());
        }
        *self = cur;
        Ok(())
    }

    /// Decodes a message from its encoding.
    pub fn decode(bytes: &[u8]) -> (r: Result<Self, WireError>)
        ensures
            match Self::spec_decode(bytes@) {
                Ok(v) => r matches Ok(m) && m@ == v,
                Err(e) => r matches Err(x) && x == e,
            },
    {
        proof {
            reveal(CMsgClientRegisterOEMMachine::spec_decode);
        }
        let mut m = Self::default();
        match m.merge(bytes) {
            Ok(()) => Ok(m),
            Err(e) => Err(e),
        }
    }

    /// The encoding of this message.
    pub fn encode_to_vec(&self) -> (r: Vec<u8>)
        ensures
            r@ == Self::spec_encode(self@),
    {
        let ghost v = self@;
        let mut out: Vec<u8> = Vec::new();
        let ghost p0 = Seq::<SpecField>::empty();
        put_opt_bytes(&mut out, 1, &self.oem_register_file);
        let ghost p1 = p0 + opt_bytes(1, v.oem_register_file);
        proof {
            lemma_fields_bytes_concat(p0, opt_bytes(1, v.oem_register_file));
        }
        proof {
            reveal(CMsgClientRegisterOEMMachine::spec_encode);
        }
        assert(p1 == Self::spec_fields(v));
        out
    }

    /// Appends the encoding of this message to `out`.
    pub fn encode_raw(&self, out: &mut Vec<u8>)
        ensures
            final(out)@ == old(out)@ + Self::spec_encode(self@),
    {
        let mut b = self.encode_to_vec();
        out.append(&mut b);
    }

    /// The first `k` fields of `v`, the others as a fresh message has them.
    #[verifier::opaque]
    pub open spec fn spec_prefix(v: SpecCMsgClientRegisterOEMMachine, k: int) -> SpecCMsgClientRegisterOEMMachine {
        SpecCMsgClientRegisterOEMMachine {
            oem_register_file: if 1 <= k { v.oem_register_file } else { None },
        }
    }

    /// Reading field 1 back, after the fields before it.
    proof fn lemma_field_oem_register_file(v: SpecCMsgClientRegisterOEMMachine)
        ensures
            fold_fields(Self::spec_prefix(v, 0), opt_bytes(1, v.oem_register_file), Self::apply_fn())
                == Ok::<SpecCMsgClientRegisterOEMMachine, WireError>(Self::spec_prefix(v, 1)),
    {
        reveal(CMsgClientRegisterOEMMachine::spec_prefix);
        reveal(opt_bytes);
        let apply = Self::apply_fn();
        let s = Self::spec_prefix(v, 0);
        lemma_fold_opt(s, 1, match v.oem_register_file { Some(x) => Some(enc_bytes(x)), None => None }, apply);
        assert(SpecCMsgClientRegisterOEMMachine { oem_register_file: v.oem_register_file, ..s } == Self::spec_prefix(v, 1));
    }

    /// Whether this message declares field number `n`.
    pub open spec fn declares(n: u32) -> bool {
        n == 1
    }

    /// A record with a number this message does not declare is passed over: well-formed
    /// bytes decode to the same message with such a record after them as without it.
    pub proof fn lemma_unknown_field(bytes: Seq<u8>, f: SpecField)
        requires
            parse_fields(bytes) is Ok,
            field_wf(f),
            !Self::declares(f.number),
        ensures
            Self::spec_decode(bytes + field_bytes(f)) == Self::spec_decode(bytes),
    {
        reveal(CMsgClientRegisterOEMMachine::spec_decode);
        lemma_parse_fields_append(bytes, f);
        let fs = parse_fields(bytes).unwrap();
        let apply = Self::apply_fn();
        lemma_fold_concat(Self::spec_default(), fs, seq![f], apply);
        assert(fs.push(f) =~= fs + seq![f]);
        if let Ok(w) = fold_fields(Self::spec_default(), fs, apply) {
            lemma_fold_single(w, f, apply);
        }
        lemma_merge_run_fold(Self::spec_default(), bytes, apply);
        lemma_merge_run_fold(Self::spec_default(), bytes + field_bytes(f), apply);
    }

    /// Decoding the encoding of a message gives the message back.
    pub proof fn lemma_decode_encode(v: SpecCMsgClientRegisterOEMMachine)
        requires
            Self::spec_encode(v).len() <= u64::MAX,
        ensures
            Self::spec_decode(Self::spec_encode(v)) == Ok::<SpecCMsgClientRegisterOEMMachine, WireError>(v),
    {
        let apply = Self::apply_fn();
        let d = Self::spec_default();
        let p0 = Seq::<SpecField>::empty();
        let l1 = opt_bytes(1, v.oem_register_file);
        let p1 = p0 + l1;
        assert(parse_fields(Self::spec_encode(v)) == Ok::<Seq<SpecField>, WireError>(p1)) by {
            reveal(CMsgClientRegisterOEMMachine::spec_encode);
            assert(numbers_ok(p0) && fields_wf(p0)) by {
                reveal(numbers_ok);
                reveal(fields_wf);
            }
            lemma_opt_bytes_numbered(1, v.oem_register_file);
            lemma_fields_wf_concat(p0, l1);
            assert(p1 == Self::spec_fields(v));
            lemma_fields_wf_from_len(p1);
            lemma_fields_roundtrip(p1);
        }
        assert(Self::spec_prefix(v, 0) == d) by {
            reveal(CMsgClientRegisterOEMMachine::spec_prefix);
        }
        lemma_fold_empty(d, apply);
        lemma_fold_concat(d, p0, l1, apply);
        Self::lemma_field_oem_register_file(v);
        assert(Self::spec_prefix(v, 1) == v) by {
            reveal(CMsgClientRegisterOEMMachine::spec_prefix);
        }
        lemma_merge_run_fold(d, Self::spec_encode(v), apply);
        assert(Self::spec_decode(Self::spec_encode(v)) == Ok::<SpecCMsgClientRegisterOEMMachine, WireError>(v)) by {
            reveal(CMsgClientRegisterOEMMachine::spec_decode);
        }
    }
}

/// `CMsgClientRegisterOEMMachineResponse`, as Valve's schema declares it.
#[derive(Debug, Clone, PartialEq)]
pub struct CMsgClientRegisterOEMMachineResponse {
    /// Field 1.
    pub eresult: Option<u32>,
}

/// What a `CMsgClientRegisterOEMMachineResponse` holds, as mathematical values.
#[verifier::ext_equal]
pub struct SpecCMsgClientRegisterOEMMachineResponse {
    pub eresult: Option<u32>,
}

impl View for CMsgClientRegisterOEMMachineResponse {
    type V = SpecCMsgClientRegisterOEMMachineResponse;

    open spec fn view(&self) -> SpecCMsgClientRegisterOEMMachineResponse {
        SpecCMsgClientRegisterOEMMachineResponse {
            eresult: self.eresult,
        }
    }
}

impl Default for CMsgClientRegisterOEMMachineResponse {
    fn default() -> (r: Self)
        ensures
            r@ == CMsgClientRegisterOEMMachineResponse::spec_default(),
    {
        CMsgClientRegisterOEMMachineResponse {
            eresult: None,
        }
    }
}

impl CMsgClientRegisterOEMMachineResponse {
    pub open spec fn spec_default() -> SpecCMsgClientRegisterOEMMachineResponse {
        SpecCMsgClientRegisterOEMMachineResponse {
            eresult: None,
        }
    }

    /// The records a `CMsgClientRegisterOEMMachineResponse` is written as, in field order.
    pub open spec fn spec_fields(v: SpecCMsgClientRegisterOEMMachineResponse) -> Seq<SpecField> {
        Seq::<SpecField>::empty()
            + opt_u32(1, v.eresult)
    }

    #[verifier::opaque]
    pub open spec fn spec_encode(v: SpecCMsgClientRegisterOEMMachineResponse) -> Seq<u8> {
        fields_bytes(Self::spec_fields(v))
    }

    /// What one record does to the message: a declared number sets or extends its
    /// field, any other number is left alone.
    pub open spec fn spec_apply(v: SpecCMsgClientRegisterOEMMachineResponse, f: SpecField) -> Result<SpecCMsgClientRegisterOEMMachineResponse, WireError> {
        match f.number {
            1 => match dec_u32(f.value) {
                Ok(x) => Ok(SpecCMsgClientRegisterOEMMachineResponse { eresult: Some(x), ..v }),
                Err(e) => Err(e),
            },
            _ => Ok(v),
        }
    }

    pub open spec fn apply_fn() -> spec_fn(SpecCMsgClientRegisterOEMMachineResponse, SpecField) -> Result<SpecCMsgClientRegisterOEMMachineResponse, WireError> {
        |v: SpecCMsgClientRegisterOEMMachineResponse, f: SpecField| Self::spec_apply(v, f)
    }

    /// The message `bytes` makes of `v`: its records applied in order, or the error
    /// that stops the reading.
    pub open spec fn spec_merge(v: SpecCMsgClientRegisterOEMMachineResponse, bytes: Seq<u8>) -> Result<SpecCMsgClientRegisterOEMMachineResponse, WireError> {
        let (w, stop) = merge_run(v, bytes, Self::apply_fn());
        match stop {
            None => Ok(w),
            Some(e) => Err(e),
        }
    }

    #[verifier::opaque]
    pub open spec fn spec_decode(bytes: Seq<u8>) -> Result<SpecCMsgClientRegisterOEMMachineResponse, WireError> {
        Self::spec_merge(Self::spec_default(), bytes)
    }

    /// This message with one record applied to it, or, when the record is refused,
    /// the message unchanged and the reason.
    fn applied(self, f: &Field) -> (r: Result<Self, (Self, WireError)>)
        ensures
            match Self::spec_apply(self@, f@) {
                Ok(v) => r matches Ok(m) && m@ == v,
                Err(e) => r matches Err((m, x)) && x == e && m@ == self@,
            },
    {
        match f.number {
            1 => match read_u32(&f.value) {
                Ok(x) => Ok(Self { eresult: Some(x), ..self }),
                Err(e) => Err((self, e)),
            },
            _ => Ok(self),
        }
    }

    /// Reads the records `bytes` holds into this message, in order. When a record does
    /// not parse or is refused, the reading stops there: the message keeps what the
    /// records before it gave, and the error is returned.
    pub fn merge(&mut self, bytes: &[u8]) -> (r: Result<(), WireError>)
        ensures
            final(self)@ == merge_run(old(self)@, bytes@, Self::apply_fn()).0,
            r == match merge_run(old(self)@, bytes@, Self::apply_fn()).1 {
                None => Ok::<(), WireError>(()),
                Some(e) => Err::<(), WireError>(e),
            },
    {
        let ghost total = merge_run(self@, bytes@, Self::apply_fn());
        let mut cur = Self::default();
        std::mem::swap(&mut cur, self);
        let mut pos: usize = 0;
        assert(bytes@.skip(0) =~= bytes@);
        while pos < bytes.len()
            invariant
                pos <= bytes@.len(),
                total == merge_run(old(self)@, bytes@, Self::apply_fn()),
                merge_run(cur@, bytes@.skip(pos as int), Self::apply_fn()) == total,
            decreases bytes@.len() - pos,
        {
            let ghost s = bytes@.skip(pos as int);
            proof {
                lemma_merge_run_step(cur@, s, Self::apply_fn());
                lemma_parse_field_len(s);
            }
            match read_field(bytes, pos) {
                Ok((f, end)) => {
                    assert(bytes@.skip(end as int) =~= s.skip((end - pos) as int));
                    match cur.applied(&f) {
                        Ok(m) => {
                            cur = m;
                        },
                        Err((m, e)) => {
                            *self = m;
                            return Err(e);
                        },
                    }
                    pos = end;
                },
                Err(e) => {
                    *self = cur;
                    return Err(e);
                },
            }
        }
        assert(bytes@.skip(pos as int) =~= Seq::<u8>::empty());
        proof {
            lemma_merge_run_empty(cur@, Self::apply_fn());
        }
        *self = cur;
        Ok(())
    }

    /// Decodes a message from its encoding.
    pub fn decode(bytes: &[u8]) -> (r: Result<Self, WireError>)
        ensures
            match Self::spec_decode(bytes@) {
                Ok(v) => r matches Ok(m) && m@ == v,
                Err(e) => r matches Err(x) && x == e,
            },
    {
        proof {
            reveal(CMsgClientRegisterOEMMachineResponse::spec_decode);
        }
        let mut m = Self::default();
        match m.merge(bytes) {
            Ok(()) => Ok(m),
            Err(e) => Err(e),
        }
    }

    /// The encoding of this message.
    pub fn encode_to_vec(&self) -> (r: Vec<u8>)
        ensures
            r@ == Self::spec_encode(self@),
    {
        let ghost v = self@;
        let mut out: Vec<u8> = Vec::new();
        let ghost p0 = Seq::<SpecField>::empty();
        put_opt_u32(&mut out, 1, self.eresult);
        let ghost p1 = p0 + opt_u32(1, v.eresult);
        proof {
            lemma_fields_bytes_concat(p0, opt_u32(1, v.eresult));
        }
        proof {
            reveal(CMsgClientRegisterOEMMachineResponse::spec_encode);
        }
        assert(p1 == Self::spec_fields(v));
        out
    }

    /// Appends the encoding of this message to `out`.
    pub fn encode_raw(&self, out: &mut Vec<u8>)
        ensures
            final(out)@ == old(out)@ + Self::spec_encode(self@),
    {
        let mut b = self.encode_to_vec();
        out.append(&mut b);
    }

    /// The first `k` fields of `v`, the others as a fresh message has them.
    #[verifier::opaque]
    pub open spec fn spec_prefix(v: SpecCMsgClientRegisterOEMMachineResponse, k: int) -> SpecCMsgClientRegisterOEMMachineResponse {
        SpecCMsgClientRegisterOEMMachineResponse {
            eresult: if 1 <= k { v.eresult } else { None },
        }
    }

    /// Reading field 1 back, after the fields before it.
    proof fn lemma_field_eresult(v: SpecCMsgClientRegisterOEMMachineResponse)
        ensures
            fold_fields(Self::spec_prefix(v, 0), opt_u32(1, v.eresult), Self::apply_fn())
                == Ok::<SpecCMsgClientRegisterOEMMachineResponse, WireError>(Self::spec_prefix(v, 1)),
    {
        reveal(CMsgClientRegisterOEMMachineResponse::spec_prefix);
        reveal(opt_u32);
        let apply = Self::apply_fn();
        let s = Self::spec_prefix(v, 0);
        lemma_fold_opt(s, 1, match v.eresult { Some(x) => Some(enc_u32(x)), None => None }, apply);
        if let Some(x) = v.eresult {
            lemma_u32_roundtrip(x);
        }
        assert(SpecCMsgClientRegisterOEMMachineResponse { eresult: v.eresult, ..s } == Self::spec_prefix(v, 1));
    }

    /// Whether this message declares field number `n`.
    pub open spec fn declares(n: u32) -> bool {
        n == 1
    }

    /// A record with a number this message does not declare is passed over: well-formed
    /// bytes decode to the same message with such a record after them as without it.
    pub proof fn lemma_unknown_field(bytes: Seq<u8>, f: SpecField)
        requires
            parse_fields(bytes) is Ok,
            field_wf(f),
            !Self::declares(f.number),
        ensures
            Self::spec_decode(bytes + field_bytes(f)) == Self::spec_decode(bytes),
    {
        reveal(CMsgClientRegisterOEMMachineResponse::spec_decode);
        lemma_parse_fields_append(bytes, f);
        let fs = parse_fields(bytes).unwrap();
        let apply = Self::apply_fn();
        lemma_fold_concat(Self::spec_default(), fs, seq![f], apply);
        assert(fs.push(f) =~= fs + seq![f]);
        if let Ok(w) = fold_fields(Self::spec_default(), fs, apply) {
            lemma_fold_single(w, f, apply);
        }
        lemma_merge_run_fold(Self::spec_default(), bytes, apply);
        lemma_merge_run_fold(Self::spec_default(), bytes + field_bytes(f), apply);
    }

    /// Decoding the encoding of a message gives the message back.
    pub proof fn lemma_decode_encode(v: SpecCMsgClientRegisterOEMMachineResponse)
        requires
            Self::spec_encode(v).len() <= u64::MAX,
        ensures
            Self::spec_decode(Self::spec_encode(v)) == Ok::<SpecCMsgClientRegisterOEMMachineResponse, WireError>(v),
    {
        let apply = Self::apply_fn();
        let d = Self::spec_default();
        let p0 = Seq::<SpecField>::empty();
        let l1 = opt_u32(1, v.eresult);
        let p1 = p0 + l1;
        assert(parse_fields(Self::spec_encode(v)) == Ok::<Seq<SpecField>, WireError>(p1)) by {
            reveal(CMsgClientRegisterOEMMachineResponse::spec_encode);
            assert(numbers_ok(p0) && fields_wf(p0)) by {
                reveal(numbers_ok);
                reveal(fields_wf);
            }
            lemma_opt_u32_numbered(1, v.eresult);
            lemma_fields_wf_concat(p0, l1);
            assert(p1 == Self::spec_fields(v));
            lemma_fields_wf_from_len(p1);
            lemma_fields_roundtrip(p1);
        }
        assert(Self::spec_prefix(v, 0) == d) by {
            reveal(CMsgClientRegisterOEMMachineResponse::spec_prefix);
        }
        lemma_fold_empty(d, apply);
        lemma_fold_concat(d, p0, l1, apply);
        Self::lemma_field_eresult(v);
        assert(Self::spec_prefix(v, 1) == v) by {
            reveal(CMsgClientRegisterOEMMachineResponse::spec_prefix);
        }
        lemma_merge_run_fold(d, Self::spec_encode(v), apply);
        assert(Self::spec_decode(Self::spec_encode(v)) == Ok::<SpecCMsgClientRegisterOEMMachineResponse, WireError>(v)) by {
            reveal(CMsgClientRegisterOEMMachineResponse::spec_decode);
        }
    }
}

/// `CMsgClientPurchaseWithMachineID`, as Valve's schema declares it.
#[derive(Debug, Clone, PartialEq)]
pub struct CMsgClientPurchaseWithMachineID {
    /// Field 1.
    pub package_id: Option<u32>,
    /// Field 2.
    pub machine_info: Option<Vec<u8>>,
}

/// What a `CMsgClientPurchaseWithMachineID` holds, as mathematical values.
#[verifier::ext_equal]
pub struct SpecCMsgClientPurchaseWithMachineID {
    pub package_id: Option<u32>,
    pub machine_info: Option<Seq<u8>>,
}

impl View for CMsgClientPurchaseWithMachineID {
    type V = SpecCMsgClientPurchaseWithMachineID;

    open spec fn view(&self) -> SpecCMsgClientPurchaseWithMachineID {
        SpecCMsgClientPurchaseWithMachineID {
            package_id: self.package_id,
            machine_info: opt_bytes_view(self.machine_info),
        }
    }
}

impl Default for CMsgClientPurchaseWithMachineID {
    fn default() -> (r: Self)
        ensures
            r@ == CMsgClientPurchaseWithMachineID::spec_default(),
    {
        CMsgClientPurchaseWithMachineID {
            package_id: None,
            machine_info: None,
        }
    }
}

impl CMsgClientPurchaseWithMachineID {
    pub open spec fn spec_default() -> SpecCMsgClientPurchaseWithMachineID {
        SpecCMsgClientPurchaseWithMachineID {
            package_id: None,
            machine_info: None,
        }
    }

    /// The records a `CMsgClientPurchaseWithMachineID` is written as, in field order.
    pub open spec fn spec_fields(v: SpecCMsgClientPurchaseWithMachineID) -> Seq<SpecField> {
        Seq::<SpecField>::empty()
            + opt_u32(1, v.package_id)
            + opt_bytes(2, v.machine_info)
    }

    #[verifier::opaque]
    pub open spec fn spec_encode(v: SpecCMsgClientPurchaseWithMachineID) -> Seq<u8> {
        fields_bytes(Self::spec_fields(v))
    }

    /// What one record does to the message: a declared number sets or extends its
    /// field, any other number is left alone.
    pub open spec fn spec_apply(v: SpecCMsgClientPurchaseWithMachineID, f: SpecField) -> Result<SpecCMsgClientPurchaseWithMachineID, WireError> {
        match f.number {
            1 => match dec_u32(f.value) {
                Ok(x) => Ok(SpecCMsgClientPurchaseWithMachineID { package_id: Some(x), ..v }),
                Err(e) => Err(e),
            },
            2 => match dec_bytes(f.value) {
                Ok(x) => Ok(SpecCMsgClientPurchaseWithMachineID { machine_info: Some(x), ..v }),
                Err(e) => Err(e),
            },
            _ => Ok(v),
        }
    }

    pub open spec fn apply_fn() -> spec_fn(SpecCMsgClientPurchaseWithMachineID, SpecField) -> Result<SpecCMsgClientPurchaseWithMachineID, WireError> {
        |v: SpecCMsgClientPurchaseWithMachineID, f: SpecField| Self::spec_apply(v, f)
    }

    /// The message `bytes` makes of `v`: its records applied in order, or the error
    /// that stops the reading.
    pub open spec fn spec_merge(v: SpecCMsgClientPurchaseWithMachineID, bytes: Seq<u8>) -> Result<SpecCMsgClientPurchaseWithMachineID, WireError> {
        let (w, stop) = merge_run(v, bytes, Self::apply_fn());
        match stop {
            None => Ok(w),
            Some(e) => Err(e),
        }
    }

    #[verifier::opaque]
    pub open spec fn spec_decode(bytes: Seq<u8>) -> Result<SpecCMsgClientPurchaseWithMachineID, WireError> {
        Self::spec_merge(Self::spec_default(), bytes)
    }

    /// This message with one record applied to it, or, when the record is refused,
    /// the message unchanged and the reason.
    fn applied(self, f: &Field) -> (r: Result<Self, (Self, WireError)>)
        ensures
            match Self::spec_apply(self@, f@) {
                Ok(v) => r matches Ok(m) && m@ == v,
                Err(e) => r matches Err((m, x)) && x == e && m@ == self@,
            },
    {
        match f.number {
            1 => match read_u32(&f.value) {
                Ok(x) => Ok(Self { package_id: Some(x), ..self }),
                Err(e) => Err((self, e)),
            },
            2 => match read_bytes(&f.value) {
                Ok(x) => Ok(Self { machine_info: Some(x), ..self }),
                Err(e) => Err((self, e)),
            },
            _ => Ok(self),
        }
    }

    /// Reads the records `bytes` holds into this message, in order. When a record does
    /// not parse or is refused, the reading stops there: the message keeps what the
    /// records before it gave, and the error is returned.
    pub fn merge(&mut self, bytes: &[u8]) -> (r: Result<(), WireError>)
        ensures
            final(self)@ == merge_run(old(self)@, bytes@, Self::apply_fn()).0,
            r == match merge_run(old(self)@, bytes@, Self::apply_fn()).1 {
                None => Ok::<(), WireError>(()),
                Some(e) => Err::<(), WireError>(e),
            },
    {
        let ghost total = merge_run(self@, bytes@, Self::apply_fn());
        let mut cur = Self::default();
        std::mem::swap(&mut cur, self);
        let mut pos: usize = 0;
        assert(bytes@.skip(0) =~= bytes@);
        while pos < bytes.len()
            invariant
                pos <= bytes@.len(),
                total == merge_run(old(self)@, bytes@, Self::apply_fn()),
                merge_run(cur@, bytes@.skip(pos as int), Self::apply_fn()) == total,
            decreases bytes@.len() - pos,
        {
            let ghost s = bytes@.skip(pos as int);
            proof {
                lemma_merge_run_step(cur@, s, Self::apply_fn());
                lemma_parse_field_len(s);
            }
            match read_field(bytes, pos) {
                Ok((f, end)) => {
                    assert(bytes@.skip(end as int) =~= s.skip((end - pos) as int));
                    match cur.applied(&f) {
                        Ok(m) => {
                            cur = m;
                        },
                        Err((m, e)) => {
                            *self = m;
                            return Err(e);
                        },
                    }
                    pos = end;
                },
                Err(e) => {
                    *self = cur;
                    return Err(e);
                },
            }
        }
        assert(bytes@.skip(pos as int) =~= Seq::<u8>::empty());
        proof {
            lemma_merge_run_empty(cur@, Self::apply_fn());
        }
        *self = cur;
        Ok(())
    }

    /// Decodes a message from its encoding.
    pub fn decode(bytes: &[u8]) -> (r: Result<Self, WireError>)
        ensures
            match Self::spec_decode(bytes@) {
                Ok(v) => r matches Ok(m) && m@ == v,
                Err(e) => r matches Err(x) && x == e,
            },
    {
        proof {
            reveal(CMsgClientPurchaseWithMachineID::spec_decode);
        }
        let mut m = Self::default();
        match m.merge(bytes) {
            Ok(()) => Ok(m),
            Err(e) => Err(e),
        }
    }

    /// The encoding of this message.
    pub fn encode_to_vec(&self) -> (r: Vec<u8>)
        ensures
            r@ == Self::spec_encode(self@),
    {
        let ghost v = self@;
        let mut out: Vec<u8> = Vec::new();
        let ghost p0 = Seq::<SpecField>::empty();
        put_opt_u32(&mut out, 1, self.package_id);
        let ghost p1 = p0 + opt_u32(1, v.package_id);
        proof {
            lemma_fields_bytes_concat(p0, opt_u32(1, v.package_id));
        }
        put_opt_bytes(&mut out, 2, &self.machine_info);
        let ghost p2 = p1 + opt_bytes(2, v.machine_info);
        proof {
            lemma_fields_bytes_concat(p1, opt_bytes(2, v.machine_info));
        }
        proof {
            reveal(CMsgClientPurchaseWithMachineID::spec_encode);
        }
        assert(p2 == Self::spec_fields(v));
        out
    }

    /// Appends the encoding of this message to `out`.
    pub fn encode_raw(&self, out: &mut Vec<u8>)
        ensures
            final(out)@ == old(out)@ + Self::spec_encode(self@),
    {
        let mut b = self.encode_to_vec();
        out.append(&mut b);
    }

    /// The first `k` fields of `v`, the others as a fresh message has them.
    #[verifier::opaque]
    pub open spec fn spec_prefix(v: SpecCMsgClientPurchaseWithMachineID, k: int) -> SpecCMsgClientPurchaseWithMachineID {
        SpecCMsgClientPurchaseWithMachineID {
            package_id: if 1 <= k { v.package_id } else { None },
            machine_info: if 2 <= k { v.machine_info } else { None },
        }
    }

    /// Reading field 1 back, after the fields before it.
    proof fn lemma_field_package_id(v: SpecCMsgClientPurchaseWithMachineID)
        ensures
            fold_fields(Self::spec_prefix(v, 0), opt_u32(1, v.package_id), Self::apply_fn())
                == Ok::<SpecCMsgClientPurchaseWithMachineID, WireError>(Self::spec_prefix(v, 1)),
    {
        reveal(CMsgClientPurchaseWithMachineID::spec_prefix);
        reveal(opt_u32);
        let apply = Self::apply_fn();
        let s = Self::spec_prefix(v, 0);
        lemma_fold_opt(s, 1, match v.package_id { Some(x) => Some(enc_u32(x)), None => None }, apply);
        if let Some(x) = v.package_id {
            lemma_u32_roundtrip(x);
        }
        assert(SpecCMsgClientPurchaseWithMachineID { package_id: v.package_id, ..s } == Self::spec_prefix(v, 1));
    }

    /// Reading field 2 back, after the fields before it.
    proof fn lemma_field_machine_info(v: SpecCMsgClientPurchaseWithMachineID)
        ensures
            fold_fields(Self::spec_prefix(v, 1), opt_bytes(2, v.machine_info), Self::apply_fn())
                == Ok::<SpecCMsgClientPurchaseWithMachineID, WireError>(Self::spec_prefix(v, 2)),
    {
        reveal(CMsgClientPurchaseWithMachineID::spec_prefix);
        reveal(opt_bytes);
        let apply = Self::apply_fn();
        let s = Self::spec_prefix(v, 1);
        lemma_fold_opt(s, 2, match v.machine_info { Some(x) => Some(enc_bytes(x)), None => None }, apply);
        assert(SpecCMsgClientPurchaseWithMachineID { machine_info: v.machine_info, ..s } == Self::spec_prefix(v, 2));
    }

    /// Whether this message declares field number `n`.
    pub open spec fn declares(n: u32) -> bool {
        n == 1 || n == 2
    }

    /// A record with a number this message does not declare is passed over: well-formed
    /// bytes decode to the same message with such a record after them as without it.
    pub proof fn lemma_unknown_field(bytes: Seq<u8>, f: SpecField)
        requires
            parse_fields(bytes) is Ok,
            field_wf(f),
            !Self::declares(f.number),
        ensures
            Self::spec_decode(bytes + field_bytes(f)) == Self::spec_decode(bytes),
    {
        reveal(CMsgClientPurchaseWithMachineID::spec_decode);
        lemma_parse_fields_append(bytes, f);
        let fs = parse_fields(bytes).unwrap();
        let apply = Self::apply_fn();
        lemma_fold_concat(Self::spec_default(), fs, seq![f], apply);
        assert(fs.push(f) =~= fs + seq![f]);
        if let Ok(w) = fold_fields(Self::spec_default(), fs, apply) {
            lemma_fold_single(w, f, apply);
        }
        lemma_merge_run_fold(Self::spec_default(), bytes, apply);
        lemma_merge_run_fold(Self::spec_default(), bytes + field_bytes(f), apply);
    }

    /// Decoding the encoding of a message gives the message back.
    pub proof fn lemma_decode_encode(v: SpecCMsgClientPurchaseWithMachineID)
        requires
            Self::spec_encode(v).len() <= u64::MAX,
        ensures
            Self::spec_decode(Self::spec_encode(v)) == Ok::<SpecCMsgClientPurchaseWithMachineID, WireError>(v),
    {
        let apply = Self::apply_fn();
        let d = Self::spec_default();
        let p0 = Seq::<SpecField>::empty();
        let l1 = opt_u32(1, v.package_id);
        let p1 = p0 + l1;
        let l2 = opt_bytes(2, v.machine_info);
        let p2 = p1 + l2;
        assert(parse_fields(Self::spec_encode(v)) == Ok::<Seq<SpecField>, WireError>(p2)) by {
            reveal(CMsgClientPurchaseWithMachineID::spec_encode);
            assert(numbers_ok(p0) && fields_wf(p0)) by {
                reveal(numbers_ok);
                reveal(fields_wf);
            }
            lemma_opt_u32_numbered(1, v.package_id);
            lemma_fields_wf_concat(p0, l1);
            lemma_opt_bytes_numbered(2, v.machine_info);
            lemma_fields_wf_concat(p1, l2);
            assert(p2 == Self::spec_fields(v));
            lemma_fields_wf_from_len(p2);
            lemma_fields_roundtrip(p2);
        }
        assert(Self::spec_prefix(v, 0) == d) by {
            reveal(CMsgClientPurchaseWithMachineID::spec_prefix);
        }
        lemma_fold_empty(d, apply);
        lemma_fold_concat(d, p0, l1, apply);
        Self::lemma_field_package_id(v);
        lemma_fold_concat(d, p1, l2, apply);
        Self::lemma_field_machine_info(v);
        assert(Self::spec_prefix(v, 2) == v) by {
            reveal(CMsgClientPurchaseWithMachineID::spec_prefix);
        }
        lemma_merge_run_fold(d, Self::spec_encode(v), apply);
        assert(Self::spec_decode(Self::spec_encode(v)) == Ok::<SpecCMsgClientPurchaseWithMachineID, WireError>(v)) by {
            reveal(CMsgClientPurchaseWithMachineID::spec_decode);
        }
    }
}

/// `CMsgTrading_InitiateTradeRequest`, as Valve's schema declares it.
#[derive(Debug, Clone, PartialEq)]
pub struct CMsgTrading_InitiateTradeRequest {
    /// Field 1.
    pub trade_request_id: Option<u32>,
    /// Field 2.
    pub other_steamid: Option<u64>,
    /// Field 3.
    pub other_name: Option<String>,
}

/// What a `CMsgTrading_InitiateTradeRequest` holds, as mathematical values.
#[verifier::ext_equal]
pub struct SpecCMsgTrading_InitiateTradeRequest {
    pub trade_request_id: Option<u32>,
    pub other_steamid: Option<u64>,
    pub other_name: Option<Seq<char>>,
}

impl View for CMsgTrading_InitiateTradeRequest {
    type V = SpecCMsgTrading_InitiateTradeRequest;

    open spec fn view(&self) -> SpecCMsgTrading_InitiateTradeRequest {
        SpecCMsgTrading_InitiateTradeRequest {
            trade_request_id: self.trade_request_id,
            other_steamid: self.other_steamid,
            other_name: opt_string_view(self.other_name),
        }
    }
}

impl Default for CMsgTrading_InitiateTradeRequest {
    fn default() -> (r: Self)
        ensures
            r@ == CMsgTrading_InitiateTradeRequest::spec_default(),
    {
        CMsgTrading_InitiateTradeRequest {
            trade_request_id: None,
            other_steamid: None,
            other_name: None,
        }
    }
}

impl CMsgTrading_InitiateTradeRequest {
    pub open spec fn spec_default() -> SpecCMsgTrading_InitiateTradeRequest {
        SpecCMsgTrading_InitiateTradeRequest {
            trade_request_id: None,
            other_steamid: None,
            other_name: None,
        }
    }

    /// The records a `CMsgTrading_InitiateTradeRequest` is written as, in field order.
    pub open spec fn spec_fields(v: SpecCMsgTrading_InitiateTradeRequest) -> Seq<SpecField> {
        Seq::<SpecField>::empty()
            + opt_u32(1, v.trade_request_id)
            + opt_u64(2, v.other_steamid)
            + opt_string(3, v.other_name)
    }

    #[verifier::opaque]
    pub open spec fn spec_encode(v: SpecCMsgTrading_InitiateTradeRequest) -> Seq<u8> {
        fields_bytes(Self::spec_fields(v))
    }

    /// What one record does to the message: a declared number sets or extends its
    /// field, any other number is left alone.
    pub open spec fn spec_apply(v: SpecCMsgTrading_InitiateTradeRequest, f: SpecField) -> Result<SpecCMsgTrading_InitiateTradeRequest, WireError> {
        match f.number {
            1 => match dec_u32(f.value) {
                Ok(x) => Ok(SpecCMsgTrading_InitiateTradeRequest { trade_request_id: Some(x), ..v }),
                Err(e) => Err(e),
            },
            2 => match dec_u64(f.value) {
                Ok(x) => Ok(SpecCMsgTrading_InitiateTradeRequest { other_steamid: Some(x), ..v }),
                Err(e) => Err(e),
            },
            3 => match dec_string(f.value) {
                Ok(x) => Ok(SpecCMsgTrading_InitiateTradeRequest { other_name: Some(x), ..v }),
                Err(e) => Err(e),
            },
            _ => Ok(v),
        }
    }

    pub open spec fn apply_fn() -> spec_fn(SpecCMsgTrading_InitiateTradeRequest, SpecField) -> Result<SpecCMsgTrading_InitiateTradeRequest, WireError> {
        |v: SpecCMsgTrading_InitiateTradeRequest, f: SpecField| Self::spec_apply(v, f)
    }

    /// The message `bytes` makes of `v`: its records applied in order, or the error
    /// that stops the reading.
    pub open spec fn spec_merge(v: SpecCMsgTrading_InitiateTradeRequest, bytes: Seq<u8>) -> Result<SpecCMsgTrading_InitiateTradeRequest, WireError> {
        let (w, stop) = merge_run(v, bytes, Self::apply_fn());
        match stop {
            None => Ok(w),
            Some(e) => Err(e),
        }
    }

    #[verifier::opaque]
    pub open spec fn spec_decode(bytes: Seq<u8>) -> Result<SpecCMsgTrading_InitiateTradeRequest, WireError> {
        Self::spec_merge(Self::spec_default(), bytes)
    }

    /// This message with one record applied to it, or, when the record is refused,
    /// the message unchanged and the reason.
    fn applied(self, f: &Field) -> (r: Result<Self, (Self, WireError)>)
        ensures
            match Self::spec_apply(self@, f@) {
                Ok(v) => r matches Ok(m) && m@ == v,
                Err(e) => r matches Err((m, x)) && x == e && m@ == self@,
            },
    {
        match f.number {
            1 => match read_u32(&f.value) {
                Ok(x) => Ok(Self { trade_request_id: Some(x), ..self }),
                Err(e) => Err((self, e)),
            },
            2 => match read_u64(&f.value) {
                Ok(x) => Ok(Self { other_steamid: Some(x), ..self }),
                Err(e) => Err((self, e)),
            },
            3 => match read_string(&f.value) {
                Ok(x) => Ok(Self { other_name: Some(x), ..self }),
                Err(e) => Err((self, e)),
            },
            _ => Ok(self),
        }
    }

    /// Reads the records `bytes` holds into this message, in order. When a record does
    /// not parse or is refused, the reading stops there: the message keeps what the
    /// records before it gave, and the error is returned.
    pub fn merge(&mut self, bytes: &[u8]) -> (r: Result<(), WireError>)
        ensures
            final(self)@ == merge_run(old(self)@, bytes@, Self::apply_fn()).0,
            r == match merge_run(old(self)@, bytes@, Self::apply_fn()).1 {
                None => Ok::<(), WireError>(()),
                Some(e) => Err::<(), WireError>(e),
            },
    {
        let ghost total = merge_run(self@, bytes@, Self::apply_fn());
        let mut cur = Self::default();
        std::mem::swap(&mut cur, self);
        let mut pos: usize = 0;
        assert(bytes@.skip(0) =~= bytes@);
        while pos < bytes.len()
            invariant
                pos <= bytes@.len(),
                total == merge_run(old(self)@, bytes@, Self::apply_fn()),
                merge_run(cur@, bytes@.skip(pos as int), Self::apply_fn()) == total,
            decreases bytes@.len() - pos,
        {
            let ghost s = bytes@.skip(pos as int);
            proof {
                lemma_merge_run_step(cur@, s, Self::apply_fn());
                lemma_parse_field_len(s);
            }
            match read_field(bytes, pos) {
                Ok((f, end)) => {
                    assert(bytes@.skip(end as int) =~= s.skip((end - pos) as int));
                    match cur.applied(&f) {
                        Ok(m) => {
                            cur = m;
                        },
                        Err((m, e)) => {
                            *self = m;
                            return Err(e);
                        },
                    }
                    pos = end;
                },
                Err(e) => {
                    *self = cur;
                    return Err(e);
                },
            }
        }
        assert(bytes@.skip(pos as int) =~= Seq::<u8>::empty());
        proof {
            lemma_merge_run_empty(cur@, Self::apply_fn());
        }
        *self = cur;
        Ok(())
    }

    /// Decodes a message from its encoding.
    pub fn decode(bytes: &[u8]) -> (r: Result<Self, WireError>)
        ensures
            match Self::spec_decode(bytes@) {
                Ok(v) => r matches Ok(m) && m@ == v,
                Err(e) => r matches Err(x) && x == e,
            },
    {
        proof {
            reveal(CMsgTrading_InitiateTradeRequest::spec_decode);
        }
        let mut m = Self::default();
        match m.merge(bytes) {
            Ok(()) => Ok(m),
            Err(e) => Err(e),
        }
    }

    /// The encoding of this message.
    pub fn encode_to_vec(&self) -> (r: Vec<u8>)
        ensures
            r@ == Self::spec_encode(self@),
    {
        let ghost v = self@;
        let mut out: Vec<u8> = Vec::new();
        let ghost p0 = Seq::<SpecField>::empty();
        put_opt_u32(&mut out, 1, self.trade_request_id);
        let ghost p1 = p0 + opt_u32(1, v.trade_request_id);
        proof {
            lemma_fields_bytes_concat(p0, opt_u32(1, v.trade_request_id));
        }
        put_opt_varint(&mut out, 2, self.other_steamid);
        let ghost p2 = p1 + opt_u64(2, v.other_steamid);
        proof {
            lemma_fields_bytes_concat(p1, opt_u64(2, v.other_steamid));
        }
        put_opt_string(&mut out, 3, &self.other_name);
        let ghost p3 = p2 + opt_string(3, v.other_name);
        proof {
            lemma_fields_bytes_concat(p2, opt_string(3, v.other_name));
        }
        proof {
            reveal(CMsgTrading_InitiateTradeRequest::spec_encode);
        }
        assert(p3 == Self::spec_fields(v));
        out
    }

    /// Appends the encoding of this message to `out`.
    pub fn encode_raw(&self, out: &mut Vec<u8>)
        ensures
            final(out)@ == old(out)@ + Self::spec_encode(self@),
    {
        let mut b = self.encode_to_vec();
        out.append(&mut b);
    }

    /// The first `k` fields of `v`, the others as a fresh message has them.
    #[verifier::opaque]
    pub open spec fn spec_prefix(v: SpecCMsgTrading_InitiateTradeRequest, k: int) -> SpecCMsgTrading_InitiateTradeRequest {
        SpecCMsgTrading_InitiateTradeRequest {
            trade_request_id: if 1 <= k { v.trade_request_id } else { None },
            other_steamid: if 2 <= k { v.other_steamid } else { None },
            other_name: if 3 <= k { v.other_name } else { None },
        }
    }

    /// Reading field 1 back, after the fields before it.
    proof fn lemma_field_trade_request_id(v: SpecCMsgTrading_InitiateTradeRequest)
        ensures
            fold_fields(Self::spec_prefix(v, 0), opt_u32(1, v.trade_request_id), Self::apply_fn())
                == Ok::<SpecCMsgTrading_InitiateTradeRequest, WireError>(Self::spec_prefix(v, 1)),
    {
        reveal(CMsgTrading_InitiateTradeRequest::spec_prefix);
        reveal(opt_u32);
        let apply = Self::apply_fn();
        let s = Self::spec_prefix(v, 0);
        lemma_fold_opt(s, 1, match v.trade_request_id { Some(x) => Some(enc_u32(x)), None => None }, apply);
        if let Some(x) = v.trade_request_id {
            lemma_u32_roundtrip(x);
        }
        assert(SpecCMsgTrading_InitiateTradeRequest { trade_request_id: v.trade_request_id, ..s } == Self::spec_prefix(v, 1));
    }

    /// Reading field 2 back, after the fields before it.
    proof fn lemma_field_other_steamid(v: SpecCMsgTrading_InitiateTradeRequest)
        ensures
            fold_fields(Self::spec_prefix(v, 1), opt_u64(2, v.other_steamid), Self::apply_fn())
                == Ok::<SpecCMsgTrading_InitiateTradeRequest, WireError>(Self::spec_prefix(v, 2)),
    {
        reveal(CMsgTrading_InitiateTradeRequest::spec_prefix);
        reveal(opt_u64);
        let apply = Self::apply_fn();
        let s = Self::spec_prefix(v, 1);
        lemma_fold_opt(s, 2, match v.other_steamid { Some(x) => Some(enc_u64(x)), None => None }, apply);
        if let Some(x) = v.other_steamid {
            lemma_u64_roundtrip(x);
        }
        assert(SpecCMsgTrading_InitiateTradeRequest { other_steamid: v.other_steamid, ..s } == Self::spec_prefix(v, 2));
    }

    /// Reading field 3 back, after the fields before it.
    proof fn lemma_field_other_name(v: SpecCMsgTrading_InitiateTradeRequest)
        ensures
            fold_fields(Self::spec_prefix(v, 2), opt_string(3, v.other_name), Self::apply_fn())
                == Ok::<SpecCMsgTrading_InitiateTradeRequest, WireError>(Self::spec_prefix(v, 3)),
    {
        reveal(CMsgTrading_InitiateTradeRequest::spec_prefix);
        reveal(opt_string);
        let apply = Self::apply_fn();
        let s = Self::spec_prefix(v, 2);
        lemma_fold_opt(s, 3, match v.other_name { Some(x) => Some(enc_string(x)), None => None }, apply);
        if let Some(x) = v.other_name {
            lemma_string_roundtrip(x);
        }
        assert(SpecCMsgTrading_InitiateTradeRequest { other_name: v.other_name, ..s } == Self::spec_prefix(v, 3));
    }

    /// Whether this message declares field number `n`.
    pub open spec fn declares(n: u32) -> bool {
        n == 1 || n == 2 || n == 3
    }

    /// A record with a number this message does not declare is passed over: well-formed
    /// bytes decode to the same message with such a record after them as without it.
    pub proof fn lemma_unknown_field(bytes: Seq<u8>, f: SpecField)
        requires
            parse_fields(bytes) is Ok,
            field_wf(f),
            !Self::declares(f.number),
        ensures
            Self::spec_decode(bytes + field_bytes(f)) == Self::spec_decode(bytes),
    {
        reveal(CMsgTrading_InitiateTradeRequest::spec_decode);
        lemma_parse_fields_append(bytes, f);
        let fs = parse_fields(bytes).unwrap();
        let apply = Self::apply_fn();
        lemma_fold_concat(Self::spec_default(), fs, seq![f], apply);
        assert(fs.push(f) =~= fs + seq![f]);
        if let Ok(w) = fold_fields(Self::spec_default(), fs, apply) {
            lemma_fold_single(w, f, apply);
        }
        lemma_merge_run_fold(Self::spec_default(), bytes, apply);
        lemma_merge_run_fold(Self::spec_default(), bytes + field_bytes(f), apply);
    }

    /// Decoding the encoding of a message gives the message back.
    pub proof fn lemma_decode_encode(v: SpecCMsgTrading_InitiateTradeRequest)
        requires
            Self::spec_encode(v).len() <= u64::MAX,
        ensures
            Self::spec_decode(Self::spec_encode(v)) == Ok::<SpecCMsgTrading_InitiateTradeRequest, WireError>(v),
    {
        let apply = Self::apply_fn();
        let d = Self::spec_default();
        let p0 = Seq::<SpecField>::empty();
        let l1 = opt_u32(1, v.trade_request_id);
        let p1 = p0 + l1;
        let l2 = opt_u64(2, v.other_steamid);
        let p2 = p1 + l2;
        let l3 = opt_string(3, v.other_name);
        let p3 = p2 + l3;
        assert(parse_fields(Self::spec_encode(v)) == Ok::<Seq<SpecField>, WireError>(p3)) by {
            reveal(CMsgTrading_InitiateTradeRequest::spec_encode);
            assert(numbers_ok(p0) && fields_wf(p0)) by {
                reveal(numbers_ok);
                reveal(fields_wf);
            }
            lemma_opt_u32_numbered(1, v.trade_request_id);
            lemma_fields_wf_concat(p0, l1);
            lemma_opt_u64_numbered(2, v.other_steamid);
            lemma_fields_wf_concat(p1, l2);
            lemma_opt_string_numbered(3, v.other_name);
            lemma_fields_wf_concat(p2, l3);
            assert(p3 == Self::spec_fields(v));
            lemma_fields_wf_from_len(p3);
            lemma_fields_roundtrip(p3);
        }
        assert(Self::spec_prefix(v, 0) == d) by {
            reveal(CMsgTrading_InitiateTradeRequest::spec_prefix);
        }
        lemma_fold_empty(d, apply);
        lemma_fold_concat(d, p0, l1, apply);
        Self::lemma_field_trade_request_id(v);
        lemma_fold_concat(d, p1, l2, apply);
        Self::lemma_field_other_steamid(v);
        lemma_fold_concat(d, p2, l3, apply);
        Self::lemma_field_other_name(v);
        assert(Self::spec_prefix(v, 3) == v) by {
            reveal(CMsgTrading_InitiateTradeRequest::spec_prefix);
        }
        lemma_merge_run_fold(d, Self::spec_encode(v), apply);
        assert(Self::spec_decode(Self::spec_encode(v)) == Ok::<SpecCMsgTrading_InitiateTradeRequest, WireError>(v)) by {
            reveal(CMsgTrading_InitiateTradeRequest::spec_decode);
        }
    }
}

/// `CMsgTrading_InitiateTradeResponse`, as Valve's schema declares it.
#[derive(Debug, Clone, PartialEq)]
pub struct CMsgTrading_InitiateTradeResponse {
    /// Field 1.
    pub response: Option<u32>,
    /// Field 2.
    pub trade_request_id: Option<u32>,
    /// Field 3.
    pub other_steamid: Option<u64>,
    /// Field 4.
    pub steamguard_required_days: Option<u32>,
    /// Field 5.
    pub new_device_cooldown_days: Option<u32>,
    /// Field 6.
    pub default_password_reset_probation_days: Option<u32>,
    /// Field 7.
    pub password_reset_probation_days: Option<u32>,
    /// Field 8.
    pub default_email_change_probation_days: Option<u32>,
    /// Field 9.
    pub email_change_probation_days: Option<u32>,
}

/// What a `CMsgTrading_InitiateTradeResponse` holds, as mathematical values.
#[verifier::ext_equal]
pub struct SpecCMsgTrading_InitiateTradeResponse {
    pub response: Option<u32>,
    pub trade_request_id: Option<u32>,
    pub other_steamid: Option<u64>,
    pub steamguard_required_days: Option<u32>,
    pub new_device_cooldown_days: Option<u32>,
    pub default_password_reset_probation_days: Option<u32>,
    pub password_reset_probation_days: Option<u32>,
    pub default_email_change_probation_days: Option<u32>,
    pub email_change_probation_days: Option<u32>,
}

impl View for CMsgTrading_InitiateTradeResponse {
    type V = SpecCMsgTrading_InitiateTradeResponse;

    open spec fn view(&self) -> SpecCMsgTrading_InitiateTradeResponse {
        SpecCMsgTrading_InitiateTradeResponse {
            response: self.response,
            trade_request_id: self.trade_request_id,
            other_steamid: self.other_steamid,
            steamguard_required_days: self.steamguard_required_days,
            new_device_cooldown_days: self.new_device_cooldown_days,
            default_password_reset_probation_days: self.default_password_reset_probation_days,
            password_reset_probation_days: self.password_reset_probation_days,
            default_email_change_probation_days: self.default_email_change_probation_days,
            email_change_probation_days: self.email_change_probation_days,
        }
    }
}

impl Default for CMsgTrading_InitiateTradeResponse {
    fn default() -> (r: Self)
        ensures
            r@ == CMsgTrading_InitiateTradeResponse::spec_default(),
    {
        CMsgTrading_InitiateTradeResponse {
            response: None,
            trade_request_id: None,
            other_steamid: None,
            steamguard_required_days: None,
            new_device_cooldown_days: None,
            default_password_reset_probation_days: None,
            password_reset_probation_days: None,
            default_email_change_probation_days: None,
            email_change_probation_days: None,
        }
    }
}

impl CMsgTrading_InitiateTradeResponse {
    pub open spec fn spec_default() -> SpecCMsgTrading_InitiateTradeResponse {
        SpecCMsgTrading_InitiateTradeResponse {
            response: None,
            trade_request_id: None,
            other_steamid: None,
            steamguard_required_days: None,
            new_device_cooldown_days: None,
            default_password_reset_probation_days: None,
            password_reset_probation_days: None,
            default_email_change_probation_days: None,
            email_change_probation_days: None,
        }
    }

    /// The records a `CMsgTrading_InitiateTradeResponse` is written as, in field order.
    pub open spec fn spec_fields(v: SpecCMsgTrading_InitiateTradeResponse) -> Seq<SpecField> {
        Seq::<SpecField>::empty()
            + opt_u32(1, v.response)
            + opt_u32(2, v.trade_request_id)
            + opt_u64(3, v.other_steamid)
            + opt_u32(4, v.steamguard_required_days)
            + opt_u32(5, v.new_device_cooldown_days)
            + opt_u32(6, v.default_password_reset_probation_days)
            + opt_u32(7, v.password_reset_probation_days)
            + opt_u32(8, v.default_email_change_probation_days)
            + opt_u32(9, v.email_change_probation_days)
    }

    #[verifier::opaque]
    pub open spec fn spec_encode(v: SpecCMsgTrading_InitiateTradeResponse) -> Seq<u8> {
        fields_bytes(Self::spec_fields(v))
    }

    /// What one record does to the message: a declared number sets or extends its
    /// field, any other number is left alone.
    pub open spec fn spec_apply(v: SpecCMsgTrading_InitiateTradeResponse, f: SpecField) -> Result<SpecCMsgTrading_InitiateTradeResponse, WireError> {
        match f.number {
            1 => match dec_u32(f.value) {
                Ok(x) => Ok(SpecCMsgTrading_InitiateTradeResponse { response: Some(x), ..v }),
                Err(e) => Err(e),
            },
            2 => match dec_u32(f.value) {
                Ok(x) => Ok(SpecCMsgTrading_InitiateTradeResponse { trade_request_id: Some(x), ..v }),
                Err(e) => Err(e),
            },
            3 => match dec_u64(f.value) {
                Ok(x) => Ok(SpecCMsgTrading_InitiateTradeResponse { other_steamid: Some(x), ..v }),
                Err(e) => Err(e),
            },
            4 => match dec_u32(f.value) {
                Ok(x) => Ok(SpecCMsgTrading_InitiateTradeResponse { steamguard_required_days: Some(x), ..v }),
                Err(e) => Err(e),
            },
            5 => match dec_u32(f.value) {
                Ok(x) => Ok(SpecCMsgTrading_InitiateTradeResponse { new_device_cooldown_days: Some(x), ..v }),
                Err(e) => Err(e),
            },
            6 => match dec_u32(f.value) {
                Ok(x) => Ok(SpecCMsgTrading_InitiateTradeResponse { default_password_reset_probation_days: Some(x), ..v }),
                Err(e) => Err(e),
            },
            7 => match dec_u32(f.value) {
                Ok(x) => Ok(SpecCMsgTrading_InitiateTradeResponse { password_reset_probation_days: Some(x), ..v }),
                Err(e) => Err(e),
            },
            8 => match dec_u32(f.value) {
                Ok(x) => Ok(SpecCMsgTrading_InitiateTradeResponse { default_email_change_probation_days: Some(x), ..v }),
                Err(e) => Err(e),
            },
            9 => match dec_u32(f.value) {
                Ok(x) => Ok(SpecCMsgTrading_InitiateTradeResponse { email_change_probation_days: Some(x), ..v }),
                Err(e) => Err(e),
            },
            _ => Ok(v),
        }
    }

    pub open spec fn apply_fn() -> spec_fn(SpecCMsgTrading_InitiateTradeResponse, SpecField) -> Result<SpecCMsgTrading_InitiateTradeResponse, WireError> {
        |v: SpecCMsgTrading_InitiateTradeResponse, f: SpecField| Self::spec_apply(v, f)
    }

    /// The message `bytes` makes of `v`: its records applied in order, or the error
    /// that stops the reading.
    pub open spec fn spec_merge(v: SpecCMsgTrading_InitiateTradeResponse, bytes: Seq<u8>) -> Result<SpecCMsgTrading_InitiateTradeResponse, WireError> {
        let (w, stop) = merge_run(v, bytes, Self::apply_fn());
        match stop {
            None => Ok(w),
            Some(e) => Err(e),
        }
    }

    #[verifier::opaque]
    pub open spec fn spec_decode(bytes: Seq<u8>) -> Result<SpecCMsgTrading_InitiateTradeResponse, WireError> {
        Self::spec_merge(Self::spec_default(), bytes)
    }

    /// This message with one record applied to it, or, when the record is refused,
    /// the message unchanged and the reason.
    fn applied(self, f: &Field) -> (r: Result<Self, (Self, WireError)>)
        ensures
            match Self::spec_apply(self@, f@) {
                Ok(v) => r matches Ok(m) && m@ == v,
                Err(e) => r matches Err((m, x)) && x == e && m@ == self@,
            },
    {
        if f.number <= 6 {
            self.applied_0(f)
        } else {
            self.applied_1(f)
        }
    }

    /// `applied`, for the records numbered up to 6.
    fn applied_0(self, f: &Field) -> (r: Result<Self, (Self, WireError)>)
        requires
            f.number <= 6,
        ensures
            match Self::spec_apply(self@, f@) {
                Ok(v) => r matches Ok(m) && m@ == v,
                Err(e) => r matches Err((m, x)) && x == e && m@ == self@,
            },
    {
        match f.number {
            1 => match read_u32(&f.value) {
                Ok(x) => Ok(Self { response: Some(x), ..self }),
                Err(e) => Err((self, e)),
            },
            2 => match read_u32(&f.value) {
                Ok(x) => Ok(Self { trade_request_id: Some(x), ..self }),
                Err(e) => Err((self, e)),
            },
            3 => match read_u64(&f.value) {
                Ok(x) => Ok(Self { other_steamid: Some(x), ..self }),
                Err(e) => Err((self, e)),
            },
            4 => match read_u32(&f.value) {
                Ok(x) => Ok(Self { steamguard_required_days: Some(x), ..self }),
                Err(e) => Err((self, e)),
            },
            5 => match read_u32(&f.value) {
                Ok(x) => Ok(Self { new_device_cooldown_days: Some(x), ..self }),
                Err(e) => Err((self, e)),
            },
            6 => match read_u32(&f.value) {
                Ok(x) => Ok(Self { default_password_reset_probation_days: Some(x), ..self }),
                Err(e) => Err((self, e)),
            },
            _ => Ok(self),
        }
    }

    /// `applied`, for the records numbered above 6.
    fn applied_1(self, f: &Field) -> (r: Result<Self, (Self, WireError)>)
        requires
            6 < f.number,
        ensures
            match Self::spec_apply(self@, f@) {
                Ok(v) => r matches Ok(m) && m@ == v,
                Err(e) => r matches Err((m, x)) && x == e && m@ == self@,
            },
    {
        match f.number {
            7 => match read_u32(&f.value) {
                Ok(x) => Ok(Self { password_reset_probation_days: Some(x), ..self }),
                Err(e) => Err((self, e)),
            },
            8 => match read_u32(&f.value) {
                Ok(x) => Ok(Self { default_email_change_probation_days: Some(x), ..self }),
                Err(e) => Err((self, e)),
            },
            9 => match read_u32(&f.value) {
                Ok(x) => Ok(Self { email_change_probation_days: Some(x), ..self }),
                Err(e) => Err((self, e)),
            },
            _ => Ok(self),
        }
    }

    /// Reads the records `bytes` holds into this message, in order. When a record does
    /// not parse or is refused, the reading stops there: the message keeps what the
    /// records before it gave, and the error is returned.
    pub fn merge(&mut self, bytes: &[u8]) -> (r: Result<(), WireError>)
        ensures
            final(self)@ == merge_run(old(self)@, bytes@, Self::apply_fn()).0,
            r == match merge_run(old(self)@, bytes@, Self::apply_fn()).1 {
                None => Ok::<(), WireError>(()),
                Some(e) => Err::<(), WireError>(e),
            },
    {
        let ghost total = merge_run(self@, bytes@, Self::apply_fn());
        let mut cur = Self::default();
        std::mem::swap(&mut cur, self);
        let mut pos: usize = 0;
        assert(bytes@.skip(0) =~= bytes@);
        while pos < bytes.len()
            invariant
                pos <= bytes@.len(),
                total == merge_run(old(self)@, bytes@, Self::apply_fn()),
                merge_run(cur@, bytes@.skip(pos as int), Self::apply_fn()) == total,
            decreases bytes@.len() - pos,
        {
            let ghost s = bytes@.skip(pos as int);
            proof {
                lemma_merge_run_step(cur@, s, Self::apply_fn());
                lemma_parse_field_len(s);
            }
            match read_field(bytes, pos) {
                Ok((f, end)) => {
                    assert(bytes@.skip(end as int) =~= s.skip((end - pos) as int));
                    match cur.applied(&f) {
                        Ok(m) => {
                            cur = m;
                        },
                        Err((m, e)) => {
                            *self = m;
                            return Err(e);
                        },
                    }
                    pos = end;
                },
                Err(e) => {
                    *self = cur;
                    return Err(e);
                },
            }
        }
        assert(bytes@.skip(pos as int) =~= Seq::<u8>::empty());
        proof {
            lemma_merge_run_empty(cur@, Self::apply_fn());
        }
        *self = cur;
        Ok(())
    }

    /// Decodes a message from its encoding.
    pub fn decode(bytes: &[u8]) -> (r: Result<Self, WireError>)
        ensures
            match Self::spec_decode(bytes@) {
                Ok(v) => r matches Ok(m) && m@ == v,
                Err(e) => r matches Err(x) && x == e,
            },
    {
        proof {
            reveal(CMsgTrading_InitiateTradeResponse::spec_decode);
        }
        let mut m = Self::default();
        match m.merge(bytes) {
            Ok(()) => Ok(m),
            Err(e) => Err(e),
        }
    }

    /// The encoding of this message.
    pub fn encode_to_vec(&self) -> (r: Vec<u8>)
        ensures
            r@ == Self::spec_encode(self@),
    {
        let ghost v = self@;
        let mut out: Vec<u8> = Vec::new();
        let ghost p0 = Seq::<SpecField>::empty();
        put_opt_u32(&mut out, 1, self.response);
        let ghost p1 = p0 + opt_u32(1, v.response);
        proof {
            lemma_fields_bytes_concat(p0, opt_u32(1, v.response));
        }
        put_opt_u32(&mut out, 2, self.trade_request_id);
        let ghost p2 = p1 + opt_u32(2, v.trade_request_id);
        proof {
            lemma_fields_bytes_concat(p1, opt_u32(2, v.trade_request_id));
        }
        put_opt_varint(&mut out, 3, self.other_steamid);
        let ghost p3 = p2 + opt_u64(3, v.other_steamid);
        proof {
            lemma_fields_bytes_concat(p2, opt_u64(3, v.other_steamid));
        }
        put_opt_u32(&mut out, 4, self.steamguard_required_days);
        let ghost p4 = p3 + opt_u32(4, v.steamguard_required_days);
        proof {
            lemma_fields_bytes_concat(p3, opt_u32(4, v.steamguard_required_days));
        }
        put_opt_u32(&mut out, 5, self.new_device_cooldown_days);
        let ghost p5 = p4 + opt_u32(5, v.new_device_cooldown_days);
        proof {
            lemma_fields_bytes_concat(p4, opt_u32(5, v.new_device_cooldown_days));
        }
        put_opt_u32(&mut out, 6, self.default_password_reset_probation_days);
        let ghost p6 = p5 + opt_u32(6, v.default_password_reset_probation_days);
        proof {
            lemma_fields_bytes_concat(p5, opt_u32(6, v.default_password_reset_probation_days));
        }
        put_opt_u32(&mut out, 7, self.password_reset_probation_days);
        let ghost p7 = p6 + opt_u32(7, v.password_reset_probation_days);
        proof {
            lemma_fields_bytes_concat(p6, opt_u32(7, v.password_reset_probation_days));
        }
        put_opt_u32(&mut out, 8, self.default_email_change_probation_days);
        let ghost p8 = p7 + opt_u32(8, v.default_email_change_probation_days);
        proof {
            lemma_fields_bytes_concat(p7, opt_u32(8, v.default_email_change_probation_days));
        }
        put_opt_u32(&mut out, 9, self.email_change_probation_days);
        let ghost p9 = p8 + opt_u32(9, v.email_change_probation_days);
        proof {
            lemma_fields_bytes_concat(p8, opt_u32(9, v.email_change_probation_days));
        }
        proof {
            reveal(CMsgTrading_InitiateTradeResponse::spec_encode);
        }
        assert(p9 == Self::spec_fields(v));
        out
    }

    /// Appends the encoding of this message to `out`.
    pub fn encode_raw(&self, out: &mut Vec<u8>)
        ensures
            final(out)@ == old(out)@ + Self::spec_encode(self@),
    {
        let mut b = self.encode_to_vec();
        out.append(&mut b);
    }

    /// The first `k` fields of `v`, the others as a fresh message has them.
    #[verifier::opaque]
    pub open spec fn spec_prefix(v: SpecCMsgTrading_InitiateTradeResponse, k: int) -> SpecCMsgTrading_InitiateTradeResponse {
        SpecCMsgTrading_InitiateTradeResponse {
            response: if 1 <= k { v.response } else { None },
            trade_request_id: if 2 <= k { v.trade_request_id } else { None },
            other_steamid: if 3 <= k { v.other_steamid } else { None },
            steamguard_required_days: if 4 <= k { v.steamguard_required_days } else { None },
            new_device_cooldown_days: if 5 <= k { v.new_device_cooldown_days } else { None },
            default_password_reset_probation_days: if 6 <= k { v.default_password_reset_probation_days } else { None },
            password_reset_probation_days: if 7 <= k { v.password_reset_probation_days } else { None },
            default_email_change_probation_days: if 8 <= k { v.default_email_change_probation_days } else { None },
            email_change_probation_days: if 9 <= k { v.email_change_probation_days } else { None },
        }
    }

    /// Reading field 1 back, after the fields before it.
    proof fn lemma_field_response(v: SpecCMsgTrading_InitiateTradeResponse)
        ensures
            fold_fields(Self::spec_prefix(v, 0), opt_u32(1, v.response), Self::apply_fn())
                == Ok::<SpecCMsgTrading_InitiateTradeResponse, WireError>(Self::spec_prefix(v, 1)),
    {
        reveal(CMsgTrading_InitiateTradeResponse::spec_prefix);
        reveal(opt_u32);
        let apply = Self::apply_fn();
        let s = Self::spec_prefix(v, 0);
        lemma_fold_opt(s, 1, match v.response { Some(x) => Some(enc_u32(x)), None => None }, apply);
        if let Some(x) = v.response {
            lemma_u32_roundtrip(x);
        }
        assert(SpecCMsgTrading_InitiateTradeResponse { response: v.response, ..s } == Self::spec_prefix(v, 1));
    }

    /// Reading field 2 back, after the fields before it.
    proof fn lemma_field_trade_request_id(v: SpecCMsgTrading_InitiateTradeResponse)
        ensures
            fold_fields(Self::spec_prefix(v, 1), opt_u32(2, v.trade_request_id), Self::apply_fn())
                == Ok::<SpecCMsgTrading_InitiateTradeResponse, WireError>(Self::spec_prefix(v, 2)),
    {
        reveal(CMsgTrading_InitiateTradeResponse::spec_prefix);
        reveal(opt_u32);
        let apply = Self::apply_fn();
        let s = Self::spec_prefix(v, 1);
        lemma_fold_opt(s, 2, match v.trade_request_id { Some(x) => Some(enc_u32(x)), None => None }, apply);
        if let Some(x) = v.trade_request_id {
            lemma_u32_roundtrip(x);
        }
        assert(SpecCMsgTrading_InitiateTradeResponse { trade_request_id: v.trade_request_id, ..s } == Self::spec_prefix(v, 2));
    }

    /// Reading field 3 back, after the fields before it.
    proof fn lemma_field_other_steamid(v: SpecCMsgTrading_InitiateTradeResponse)
        ensures
            fold_fields(Self::spec_prefix(v, 2), opt_u64(3, v.other_steamid), Self::apply_fn())
                == Ok::<SpecCMsgTrading_InitiateTradeResponse, WireError>(Self::spec_prefix(v, 3)),
    {
        reveal(CMsgTrading_InitiateTradeResponse::spec_prefix);
        reveal(opt_u64);
        let apply = Self::apply_fn();
        let s = Self::spec_prefix(v, 2);
        lemma_fold_opt(s, 3, match v.other_steamid { Some(x) => Some(enc_u64(x)), None => None }, apply);
        if let Some(x) = v.other_steamid {
            lemma_u64_roundtrip(x);
        }
        assert(SpecCMsgTrading_InitiateTradeResponse { other_steamid: v.other_steamid, ..s } == Self::spec_prefix(v, 3));
    }

    /// Reading field 4 back, after the fields before it.
    proof fn lemma_field_steamguard_required_days(v: SpecCMsgTrading_InitiateTradeResponse)
        ensures
            fold_fields(Self::spec_prefix(v, 3), opt_u32(4, v.steamguard_required_days), Self::apply_fn())
                == Ok::<SpecCMsgTrading_InitiateTradeResponse, WireError>(Self::spec_prefix(v, 4)),
    {
        reveal(CMsgTrading_InitiateTradeResponse::spec_prefix);
        reveal(opt_u32);
        let apply = Self::apply_fn();
        let s = Self::spec_prefix(v, 3);
        lemma_fold_opt(s, 4, match v.steamguard_required_days { Some(x) => Some(enc_u32(x)), None => None }, apply);
        if let Some(x) = v.steamguard_required_days {
            lemma_u32_roundtrip(x);
        }
        assert(SpecCMsgTrading_InitiateTradeResponse { steamguard_required_days: v.steamguard_required_days, ..s } == Self::spec_prefix(v, 4));
    }

    /// Reading field 5 back, after the fields before it.
    proof fn lemma_field_new_device_cooldown_days(v: SpecCMsgTrading_InitiateTradeResponse)
        ensures
            fold_fields(Self::spec_prefix(v, 4), opt_u32(5, v.new_device_cooldown_days), Self::apply_fn())
                == Ok::<SpecCMsgTrading_InitiateTradeResponse, WireError>(Self::spec_prefix(v, 5)),
    {
        reveal(CMsgTrading_InitiateTradeResponse::spec_prefix);
        reveal(opt_u32);
        let apply = Self::apply_fn();
        let s = Self::spec_prefix(v, 4);
        lemma_fold_opt(s, 5, match v.new_device_cooldown_days { Some(x) => Some(enc_u32(x)), None => None }, apply);
        if let Some(x) = v.new_device_cooldown_days {
            lemma_u32_roundtrip(x);
        }
        assert(SpecCMsgTrading_InitiateTradeResponse { new_device_cooldown_days: v.new_device_cooldown_days, ..s } == Self::spec_prefix(v, 5));
    }

    /// Reading field 6 back, after the fields before it.
    proof fn lemma_field_default_password_reset_probation_days(v: SpecCMsgTrading_InitiateTradeResponse)
        ensures
            fold_fields(Self::spec_prefix(v, 5), opt_u32(6, v.default_password_reset_probation_days), Self::apply_fn())
                == Ok::<SpecCMsgTrading_InitiateTradeResponse, WireError>(Self::spec_prefix(v, 6)),
    {
        reveal(CMsgTrading_InitiateTradeResponse::spec_prefix);
        reveal(opt_u32);
        let apply = Self::apply_fn();
        let s = Self::spec_prefix(v, 5);
        lemma_fold_opt(s, 6, match v.default_password_reset_probation_days { Some(x) => Some(enc_u32(x)), None => None }, apply);
        if let Some(x) = v.default_password_reset_probation_days {
            lemma_u32_roundtrip(x);
        }
        assert(SpecCMsgTrading_InitiateTradeResponse { default_password_reset_probation_days: v.default_password_reset_probation_days, ..s } == Self::spec_prefix(v, 6));
    }

    /// Reading field 7 back, after the fields before it.
    proof fn lemma_field_password_reset_probation_days(v: SpecCMsgTrading_InitiateTradeResponse)
        ensures
            fold_fields(Self::spec_prefix(v, 6), opt_u32(7, v.password_reset_probation_days), Self::apply_fn())
                == Ok::<SpecCMsgTrading_InitiateTradeResponse, WireError>(Self::spec_prefix(v, 7)),
    {
        reveal(CMsgTrading_InitiateTradeResponse::spec_prefix);
        reveal(opt_u32);
        let apply = Self::apply_fn();
        let s = Self::spec_prefix(v, 6);
        lemma_fold_opt(s, 7, match v.password_reset_probation_days { Some(x) => Some(enc_u32(x)), None => None }, apply);
        if let Some(x) = v.password_reset_probation_days {
            lemma_u32_roundtrip(x);
        }
        assert(SpecCMsgTrading_InitiateTradeResponse { password_reset_probation_days: v.password_reset_probation_days, ..s } == Self::spec_prefix(v, 7));
    }

    /// Reading field 8 back, after the fields before it.
    proof fn lemma_field_default_email_change_probation_days(v: SpecCMsgTrading_InitiateTradeResponse)
        ensures
            fold_fields(Self::spec_prefix(v, 7), opt_u32(8, v.default_email_change_probation_days), Self::apply_fn())
                == Ok::<SpecCMsgTrading_InitiateTradeResponse, WireError>(Self::spec_prefix(v, 8)),
    {
        reveal(CMsgTrading_InitiateTradeResponse::spec_prefix);
        reveal(opt_u32);
        let apply = Self::apply_fn();
        let s = Self::spec_prefix(v, 7);
        lemma_fold_opt(s, 8, match v.default_email_change_probation_days { Some(x) => Some(enc_u32(x)), None => None }, apply);
        if let Some(x) = v.default_email_change_probation_days {
            lemma_u32_roundtrip(x);
        }
        assert(SpecCMsgTrading_InitiateTradeResponse { default_email_change_probation_days: v.default_email_change_probation_days, ..s } == Self::spec_prefix(v, 8));
    }

    /// Reading field 9 back, after the fields before it.
    proof fn lemma_field_email_change_probation_days(v: SpecCMsgTrading_InitiateTradeResponse)
        ensures
            fold_fields(Self::spec_prefix(v, 8), opt_u32(9, v.email_change_probation_days), Self::apply_fn())
                == Ok::<SpecCMsgTrading_InitiateTradeResponse, WireError>(Self::spec_prefix(v, 9)),
    {
        reveal(CMsgTrading_InitiateTradeResponse::spec_prefix);
        reveal(opt_u32);
        let apply = Self::apply_fn();
        let s = Self::spec_prefix(v, 8);
        lemma_fold_opt(s, 9, match v.email_change_probation_days { Some(x) => Some(enc_u32(x)), None => None }, apply);
        if let Some(x) = v.email_change_probation_days {
            lemma_u32_roundtrip(x);
        }
        assert(SpecCMsgTrading_InitiateTradeResponse { email_change_probation_days: v.email_change_probation_days, ..s } == Self::spec_prefix(v, 9));
    }

    /// Whether this message declares field number `n`.
    pub open spec fn declares(n: u32) -> bool {
        n == 1 || n == 2 || n == 3 || n == 4 || n == 5 || n == 6 || n == 7 || n == 8 || n == 9
    }

    /// A record with a number this message does not declare is passed over: well-formed
    /// bytes decode to the same message with such a record after them as without it.
    pub proof fn lemma_unknown_field(bytes: Seq<u8>, f: SpecField)
        requires
            parse_fields(bytes) is Ok,
            field_wf(f),
            !Self::declares(f.number),
        ensures
            Self::spec_decode(bytes + field_bytes(f)) == Self::spec_decode(bytes),
    {
        reveal(CMsgTrading_InitiateTradeResponse::spec_decode);
        lemma_parse_fields_append(bytes, f);
        let fs = parse_fields(bytes).unwrap();
        let apply = Self::apply_fn();
        lemma_fold_concat(Self::spec_default(), fs, seq![f], apply);
        assert(fs.push(f) =~= fs + seq![f]);
        if let Ok(w) = fold_fields(Self::spec_default(), fs, apply) {
            lemma_fold_single(w, f, apply);
        }
        lemma_merge_run_fold(Self::spec_default(), bytes, apply);
        lemma_merge_run_fold(Self::spec_default(), bytes + field_bytes(f), apply);
    }

    /// Decoding the encoding of a message gives the message back.
    pub proof fn lemma_decode_encode(v: SpecCMsgTrading_InitiateTradeResponse)
        requires
            Self::spec_encode(v).len() <= u64::MAX,
        ensures
            Self::spec_decode(Self::spec_encode(v)) == Ok::<SpecCMsgTrading_InitiateTradeResponse, WireError>(v),
    {
        let apply = Self::apply_fn();
        let d = Self::spec_default();
        let p0 = Seq::<SpecField>::empty();
        let l1 = opt_u32(1, v.response);
        let p1 = p0 + l1;
        let l2 = opt_u32(2, v.trade_request_id);
        let p2 = p1 + l2;
        let l3 = opt_u64(3, v.other_steamid);
        let p3 = p2 + l3;
        let l4 = opt_u32(4, v.steamguard_required_days);
        let p4 = p3 + l4;
        let l5 = opt_u32(5, v.new_device_cooldown_days);
        let p5 = p4 + l5;
        let l6 = opt_u32(6, v.default_password_reset_probation_days);
        let p6 = p5 + l6;
        let l7 = opt_u32(7, v.password_reset_probation_days);
        let p7 = p6 + l7;
        let l8 = opt_u32(8, v.default_email_change_probation_days);
        let p8 = p7 + l8;
        let l9 = opt_u32(9, v.email_change_probation_days);
        let p9 = p8 + l9;
        assert(parse_fields(Self::spec_encode(v)) == Ok::<Seq<SpecField>, WireError>(p9)) by {
            reveal(CMsgTrading_InitiateTradeResponse::spec_encode);
            assert(numbers_ok(p0) && fields_wf(p0)) by {
                reveal(numbers_ok);
                reveal(fields_wf);
            }
            lemma_opt_u32_numbered(1, v.response);
            lemma_fields_wf_concat(p0, l1);
            lemma_opt_u32_numbered(2, v.trade_request_id);
            lemma_fields_wf_concat(p1, l2);
            lemma_opt_u64_numbered(3, v.other_steamid);
            lemma_fields_wf_concat(p2, l3);
            lemma_opt_u32_numbered(4, v.steamguard_required_days);
            lemma_fields_wf_concat(p3, l4);
            lemma_opt_u32_numbered(5, v.new_device_cooldown_days);
            lemma_fields_wf_concat(p4, l5);
            lemma_opt_u32_numbered(6, v.default_password_reset_probation_days);
            lemma_fields_wf_concat(p5, l6);
            lemma_opt_u32_numbered(7, v.password_reset_probation_days);
            lemma_fields_wf_concat(p6, l7);
            lemma_opt_u32_numbered(8, v.default_email_change_probation_days);
            lemma_fields_wf_concat(p7, l8);
            lemma_opt_u32_numbered(9, v.email_change_probation_days);
            lemma_fields_wf_concat(p8, l9);
            assert(p9 == Self::spec_fields(v));
            lemma_fields_wf_from_len(p9);
            lemma_fields_roundtrip(p9);
        }
        assert(Self::spec_prefix(v, 0) == d) by {
            reveal(CMsgTrading_InitiateTradeResponse::spec_prefix);
        }
        lemma_fold_empty(d, apply);
        lemma_fold_concat(d, p0, l1, apply);
        Self::lemma_field_response(v);
        lemma_fold_concat(d, p1, l2, apply);
        Self::lemma_field_trade_request_id(v);
        lemma_fold_concat(d, p2, l3, apply);
        Self::lemma_field_other_steamid(v);
        lemma_fold_concat(d, p3, l4, apply);
        Self::lemma_field_steamguard_required_days(v);
        lemma_fold_concat(d, p4, l5, apply);
        Self::lemma_field_new_device_cooldown_days(v);
        lemma_fold_concat(d, p5, l6, apply);
        Self::lemma_field_default_password_reset_probation_days(v);
        lemma_fold_concat(d, p6, l7, apply);
        Self::lemma_field_password_reset_probation_days(v);
        lemma_fold_concat(d, p7, l8, apply);
        Self::lemma_field_default_email_change_probation_days(v);
        lemma_fold_concat(d, p8, l9, apply);
        Self::lemma_field_email_change_probation_days(v);
        assert(Self::spec_prefix(v, 9) == v) by {
            reveal(CMsgTrading_InitiateTradeResponse::spec_prefix);
        }
        lemma_merge_run_fold(d, Self::spec_encode(v), apply);
        assert(Self::spec_decode(Self::spec_encode(v)) == Ok::<SpecCMsgTrading_InitiateTradeResponse, WireError>(v)) by {
            reveal(CMsgTrading_InitiateTradeResponse::spec_decode);
        }
    }
}

/// `CMsgTrading_CancelTradeRequest`, as Valve's schema declares it.
#[derive(Debug, Clone, PartialEq)]
pub struct CMsgTrading_CancelTradeRequest {
    /// Field 1.
    pub other_steamid: Option<u64>,
}

/// What a `CMsgTrading_CancelTradeRequest` holds, as mathematical values.
#[verifier::ext_equal]
pub struct SpecCMsgTrading_CancelTradeRequest {
    pub other_steamid: Option<u64>,
}

impl View for CMsgTrading_CancelTradeRequest {
    type V = SpecCMsgTrading_CancelTradeRequest;

    open spec fn view(&self) -> SpecCMsgTrading_CancelTradeRequest {
        SpecCMsgTrading_CancelTradeRequest {
            other_steamid: self.other_steamid,
        }
    }
}

impl Default for CMsgTrading_CancelTradeRequest {
    fn default() -> (r: Self)
        ensures
            r@ == CMsgTrading_CancelTradeRequest::spec_default(),
    {
        CMsgTrading_CancelTradeRequest {
            other_steamid: None,
        }
    }
}

impl CMsgTrading_CancelTradeRequest {
    pub open spec fn spec_default() -> SpecCMsgTrading_CancelTradeRequest {
        SpecCMsgTrading_CancelTradeRequest {
            other_steamid: None,
        }
    }

    /// The records a `CMsgTrading_CancelTradeRequest` is written as, in field order.
    pub open spec fn spec_fields(v: SpecCMsgTrading_CancelTradeRequest) -> Seq<SpecField> {
        Seq::<SpecField>::empty()
            + opt_u64(1, v.other_steamid)
    }

    #[verifier::opaque]
    pub open spec fn spec_encode(v: SpecCMsgTrading_CancelTradeRequest) -> Seq<u8> {
        fields_bytes(Self::spec_fields(v))
    }

    /// What one record does to the message: a declared number sets or extends its
    /// field, any other number is left alone.
    pub open spec fn spec_apply(v: SpecCMsgTrading_CancelTradeRequest, f: SpecField) -> Result<SpecCMsgTrading_CancelTradeRequest, WireError> {
        match f.number {
            1 => match dec_u64(f.value) {
                Ok(x) => Ok(SpecCMsgTrading_CancelTradeRequest { other_steamid: Some(x), ..v }),
                Err(e) => Err(e),
            },
            _ => Ok(v),
        }
    }

    pub open spec fn apply_fn() -> spec_fn(SpecCMsgTrading_CancelTradeRequest, SpecField) -> Result<SpecCMsgTrading_CancelTradeRequest, WireError> {
        |v: SpecCMsgTrading_CancelTradeRequest, f: SpecField| Self::spec_apply(v, f)
    }

    /// The message `bytes` makes of `v`: its records applied in order, or the error
    /// that stops the reading.
    pub open spec fn spec_merge(v: SpecCMsgTrading_CancelTradeRequest, bytes: Seq<u8>) -> Result<SpecCMsgTrading_CancelTradeRequest, WireError> {
        let (w, stop) = merge_run(v, bytes, Self::apply_fn());
        match stop {
            None => Ok(w),
            Some(e) => Err(e),
        }
    }

    #[verifier::opaque]
    pub open spec fn spec_decode(bytes: Seq<u8>) -> Result<SpecCMsgTrading_CancelTradeRequest, WireError> {
        Self::spec_merge(Self::spec_default(), bytes)
    }

    /// This message with one record applied to it, or, when the record is refused,
    /// the message unchanged and the reason.
    fn applied(self, f: &Field) -> (r: Result<Self, (Self, WireError)>)
        ensures
            match Self::spec_apply(self@, f@) {
                Ok(v) => r matches Ok(m) && m@ == v,
                Err(e) => r matches Err((m, x)) && x == e && m@ == self@,
            },
    {
        match f.number {
            1 => match read_u64(&f.value) {
                Ok(x) => Ok(Self { other_steamid: Some(x), ..self }),
                Err(e) => Err((self, e)),
            },
            _ => Ok(self),
        }
    }

    /// Reads the records `bytes` holds into this message, in order. When a record does
    /// not parse or is refused, the reading stops there: the message keeps what the
    /// records before it gave, and the error is returned.
    pub fn merge(&mut self, bytes: &[u8]) -> (r: Result<(), WireError>)
        ensures
            final(self)@ == merge_run(old(self)@, bytes@, Self::apply_fn()).0,
            r == match merge_run(old(self)@, bytes@, Self::apply_fn()).1 {
                None => Ok::<(), WireError>(()),
                Some(e) => Err::<(), WireError>(e),
            },
    {
        let ghost total = merge_run(self@, bytes@, Self::apply_fn());
        let mut cur = Self::default();
        std::mem::swap(&mut cur, self);
        let mut pos: usize = 0;
        assert(bytes@.skip(0) =~= bytes@);
        while pos < bytes.len()
            invariant
                pos <= bytes@.len(),
                total == merge_run(old(self)@, bytes@, Self::apply_fn()),
                merge_run(cur@, bytes@.skip(pos as int), Self::apply_fn()) == total,
            decreases bytes@.len() - pos,
        {
            let ghost s = bytes@.skip(pos as int);
            proof {
                lemma_merge_run_step(cur@, s, Self::apply_fn());
                lemma_parse_field_len(s);
            }
            match read_field(bytes, pos) {
                Ok((f, end)) => {
                    assert(bytes@.skip(end as int) =~= s.skip((end - pos) as int));
                    match cur.applied(&f) {
                        Ok(m) => {
                            cur = m;
                        },
                        Err((m, e)) => {
                            *self = m;
                            return Err(e);
                        },
                    }
                    pos = end;
                },
                Err(e) => {
                    *self = cur;
                    return Err(e);
                },
            }
        }
        assert(bytes@.skip(pos as int) =~= Seq::<u8>::empty());
        proof {
            lemma_merge_run_empty(cur@, Self::apply_fn());
        }
        *self = cur;
        Ok(())
    }

    /// Decodes a message from its encoding.
    pub fn decode(bytes: &[u8]) -> (r: Result<Self, WireError>)
        ensures
            match Self::spec_decode(bytes@) {
                Ok(v) => r matches Ok(m) && m@ == v,
                Err(e) => r matches Err(x) && x == e,
            },
    {
        proof {
            reveal(CMsgTrading_CancelTradeRequest::spec_decode);
        }
        let mut m = Self::default();
        match m.merge(bytes) {
            Ok(()) => Ok(m),
            Err(e) => Err(e),
        }
    }

    /// The encoding of this message.
    pub fn encode_to_vec(&self) -> (r: Vec<u8>)
        ensures
            r@ == Self::spec_encode(self@),
    {
        let ghost v = self@;
        let mut out: Vec<u8> = Vec::new();
        let ghost p0 = Seq::<SpecField>::empty();
        put_opt_varint(&mut out, 1, self.other_steamid);
        let ghost p1 = p0 + opt_u64(1, v.other_steamid);
        proof {
            lemma_fields_bytes_concat(p0, opt_u64(1, v.other_steamid));
        }
        proof {
            reveal(CMsgTrading_CancelTradeRequest::spec_encode);
        }
        assert(p1 == Self::spec_fields(v));
        out
    }

    /// Appends the encoding of this message to `out`.
    pub fn encode_raw(&self, out: &mut Vec<u8>)
        ensures
            final(out)@ == old(out)@ + Self::spec_encode(self@),
    {
        let mut b = self.encode_to_vec();
        out.append(&mut b);
    }

    /// The first `k` fields of `v`, the others as a fresh message has them.
    #[verifier::opaque]
    pub open spec fn spec_prefix(v: SpecCMsgTrading_CancelTradeRequest, k: int) -> SpecCMsgTrading_CancelTradeRequest {
        SpecCMsgTrading_CancelTradeRequest {
            other_steamid: if 1 <= k { v.other_steamid } else { None },
        }
    }

    /// Reading field 1 back, after the fields before it.
    proof fn lemma_field_other_steamid(v: SpecCMsgTrading_CancelTradeRequest)
        ensures
            fold_fields(Self::spec_prefix(v, 0), opt_u64(1, v.other_steamid), Self::apply_fn())
                == Ok::<SpecCMsgTrading_CancelTradeRequest, WireError>(Self::spec_prefix(v, 1)),
    {
        reveal(CMsgTrading_CancelTradeRequest::spec_prefix);
        reveal(opt_u64);
        let apply = Self::apply_fn();
        let s = Self::spec_prefix(v, 0);
        lemma_fold_opt(s, 1, match v.other_steamid { Some(x) => Some(enc_u64(x)), None => None }, apply);
        if let Some(x) = v.other_steamid {
            lemma_u64_roundtrip(x);
        }
        assert(SpecCMsgTrading_CancelTradeRequest { other_steamid: v.other_steamid, ..s } == Self::spec_prefix(v, 1));
    }

    /// Whether this message declares field number `n`.
    pub open spec fn declares(n: u32) -> bool {
        n == 1
    }

    /// A record with a number this message does not declare is passed over: well-formed
    /// bytes decode to the same message with such a record after them as without it.
    pub proof fn lemma_unknown_field(bytes: Seq<u8>, f: SpecField)
        requires
            parse_fields(bytes) is Ok,
            field_wf(f),
            !Self::declares(f.number),
        ensures
            Self::spec_decode(bytes + field_bytes(f)) == Self::spec_decode(bytes),
    {
        reveal(CMsgTrading_CancelTradeRequest::spec_decode);
        lemma_parse_fields_append(bytes, f);
        let fs = parse_fields(bytes).unwrap();
        let apply = Self::apply_fn();
        lemma_fold_concat(Self::spec_default(), fs, seq![f], apply);
        assert(fs.push(f) =~= fs + seq![f]);
        if let Ok(w) = fold_fields(Self::spec_default(), fs, apply) {
            lemma_fold_single(w, f, apply);
        }
        lemma_merge_run_fold(Self::spec_default(), bytes, apply);
        lemma_merge_run_fold(Self::spec_default(), bytes + field_bytes(f), apply);
    }

    /// Decoding the encoding of a message gives the message back.
    pub proof fn lemma_decode_encode(v: SpecCMsgTrading_CancelTradeRequest)
        requires
            Self::spec_encode(v).len() <= u64::MAX,
        ensures
            Self::spec_decode(Self::spec_encode(v)) == Ok::<SpecCMsgTrading_CancelTradeRequest, WireError>(v),
    {
        let apply = Self::apply_fn();
        let d = Self::spec_default();
        let p0 = Seq::<SpecField>::empty();
        let l1 = opt_u64(1, v.other_steamid);
        let p1 = p0 + l1;
        assert(parse_fields(Self::spec_encode(v)) == Ok::<Seq<SpecField>, WireError>(p1)) by {
            reveal(CMsgTrading_CancelTradeRequest::spec_encode);
            assert(numbers_ok(p0) && fields_wf(p0)) by {
                reveal(numbers_ok);
                reveal(fields_wf);
            }
            lemma_opt_u64_numbered(1, v.other_steamid);
            lemma_fields_wf_concat(p0, l1);
            assert(p1 == Self::spec_fields(v));
            lemma_fields_wf_from_len(p1);
            lemma_fields_roundtrip(p1);
        }
        assert(Self::spec_prefix(v, 0) == d) by {
            reveal(CMsgTrading_CancelTradeRequest::spec_prefix);
        }
        lemma_fold_empty(d, apply);
        lemma_fold_concat(d, p0, l1, apply);
        Self::lemma_field_other_steamid(v);
        assert(Self::spec_prefix(v, 1) == v) by {
            reveal(CMsgTrading_CancelTradeRequest::spec_prefix);
        }
        lemma_merge_run_fold(d, Self::spec_encode(v), apply);
        assert(Self::spec_decode(Self::spec_encode(v)) == Ok::<SpecCMsgTrading_CancelTradeRequest, WireError>(v)) by {
            reveal(CMsgTrading_CancelTradeRequest::spec_decode);
        }
    }
}

/// `CMsgTrading_StartSession`, as Valve's schema declares it.
#[derive(Debug, Clone, PartialEq)]
pub struct CMsgTrading_StartSession {
    /// Field 1.
    pub other_steamid: Option<u64>,
}

/// What a `CMsgTrading_StartSession` holds, as mathematical values.
#[verifier::ext_equal]
pub struct SpecCMsgTrading_StartSession {
    pub other_steamid: Option<u64>,
}

impl View for CMsgTrading_StartSession {
    type V = SpecCMsgTrading_StartSession;

    open spec fn view(&self) -> SpecCMsgTrading_StartSession {
        SpecCMsgTrading_StartSession {
            other_steamid: self.other_steamid,
        }
    }
}

impl Default for CMsgTrading_StartSession {
    fn default() -> (r: Self)
        ensures
            r@ == CMsgTrading_StartSession::spec_default(),
    {
        CMsgTrading_StartSession {
            other_steamid: None,
        }
    }
}

impl CMsgTrading_StartSession {
    pub open spec fn spec_default() -> SpecCMsgTrading_StartSession {
        SpecCMsgTrading_StartSession {
            other_steamid: None,
        }
    }

    /// The records a `CMsgTrading_StartSession` is written as, in field order.
    pub open spec fn spec_fields(v: SpecCMsgTrading_StartSession) -> Seq<SpecField> {
        Seq::<SpecField>::empty()
            + opt_u64(1, v.other_steamid)
    }

    #[verifier::opaque]
    pub open spec fn spec_encode(v: SpecCMsgTrading_StartSession) -> Seq<u8> {
        fields_bytes(Self::spec_fields(v))
    }

    /// What one record does to the message: a declared number sets or extends its
    /// field, any other number is left alone.
    pub open spec fn spec_apply(v: SpecCMsgTrading_StartSession, f: SpecField) -> Result<SpecCMsgTrading_StartSession, WireError> {
        match f.number {
            1 => match dec_u64(f.value) {
                Ok(x) => Ok(SpecCMsgTrading_StartSession { other_steamid: Some(x), ..v }),
                Err(e) => Err(e),
            },
            _ => Ok(v),
        }
    }

    pub open spec fn apply_fn() -> spec_fn(SpecCMsgTrading_StartSession, SpecField) -> Result<SpecCMsgTrading_StartSession, WireError> {
        |v: SpecCMsgTrading_StartSession, f: SpecField| Self::spec_apply(v, f)
    }

    /// The message `bytes` makes of `v`: its records applied in order, or the error
    /// that stops the reading.
    pub open spec fn spec_merge(v: SpecCMsgTrading_StartSession, bytes: Seq<u8>) -> Result<SpecCMsgTrading_StartSession, WireError> {
        let (w, stop) = merge_run(v, bytes, Self::apply_fn());
        match stop {
            None => Ok(w),
            Some(e) => Err(e),
        }
    }

    #[verifier::opaque]
    pub open spec fn spec_decode(bytes: Seq<u8>) -> Result<SpecCMsgTrading_StartSession, WireError> {
        Self::spec_merge(Self::spec_default(), bytes)
    }

    /// This message with one record applied to it, or, when the record is refused,
    /// the message unchanged and the reason.
    fn applied(self, f: &Field) -> (r: Result<Self, (Self, WireError)>)
        ensures
            match Self::spec_apply(self@, f@) {
                Ok(v) => r matches Ok(m) && m@ == v,
                Err(e) => r matches Err((m, x)) && x == e && m@ == self@,
            },
    {
        match f.number {
            1 => match read_u64(&f.value) {
                Ok(x) => Ok(Self { other_steamid: Some(x), ..self }),
                Err(e) => Err((self, e)),
            },
            _ => Ok(self),
        }
    }

    /// Reads the records `bytes` holds into this message, in order. When a record does
    /// not parse or is refused, the reading stops there: the message keeps what the
    /// records before it gave, and the error is returned.
    pub fn merge(&mut self, bytes: &[u8]) -> (r: Result<(), WireError>)
        ensures
            final(self)@ == merge_run(old(self)@, bytes@, Self::apply_fn()).0,
            r == match merge_run(old(self)@, bytes@, Self::apply_fn()).1 {
                None => Ok::<(), WireError>(()),
                Some(e) => Err::<(), WireError>(e),
            },
    {
        let ghost total = merge_run(self@, bytes@, Self::apply_fn());
        let mut cur = Self::default();
        std::mem::swap(&mut cur, self);
        let mut pos: usize = 0;
        assert(bytes@.skip(0) =~= bytes@);
        while pos < bytes.len()
            invariant
                pos <= bytes@.len(),
                total == merge_run(old(self)@, bytes@, Self::apply_fn()),
                merge_run(cur@, bytes@.skip(pos as int), Self::apply_fn()) == total,
            decreases bytes@.len() - pos,
        {
            let ghost s = bytes@.skip(pos as int);
            proof {
                lemma_merge_run_step(cur@, s, Self::apply_fn());
                lemma_parse_field_len(s);
            }
            match read_field(bytes, pos) {
                Ok((f, end)) => {
                    assert(bytes@.skip(end as int) =~= s.skip((end - pos) as int));
                    match cur.applied(&f) {
                        Ok(m) => {
                            cur = m;
                        },
                        Err((m, e)) => {
                            *self = m;
                            return Err(e);
                        },
                    }
                    pos = end;
                },
                Err(e) => {
                    *self = cur;
                    return Err(e);
                },
            }
        }
        assert(bytes@.skip(pos as int) =~= Seq::<u8>::empty());
        proof {
            lemma_merge_run_empty(cur@, Self::apply_fn());
        }
        *self = cur;
        Ok(())
    }

    /// Decodes a message from its encoding.
    pub fn decode(bytes: &[u8]) -> (r: Result<Self, WireError>)
        ensures
            match Self::spec_decode(bytes@) {
                Ok(v) => r matches Ok(m) && m@ == v,
                Err(e) => r matches Err(x) && x == e,
            },
    {
        proof {
            reveal(CMsgTrading_StartSession::spec_decode);
        }
        let mut m = Self::default();
        match m.merge(bytes) {
            Ok(()) => Ok(m),
            Err(e) => Err(e),
        }
    }

    /// The encoding of this message.
    pub fn encode_to_vec(&self) -> (r: Vec<u8>)
        ensures
            r@ == Self::spec_encode(self@),
    {
        let ghost v = self@;
        let mut out: Vec<u8> = Vec::new();
        let ghost p0 = Seq::<SpecField>::empty();
        put_opt_varint(&mut out, 1, self.other_steamid);
        let ghost p1 = p0 + opt_u64(1, v.other_steamid);
        proof {
            lemma_fields_bytes_concat(p0, opt_u64(1, v.other_steamid));
        }
        proof {
            reveal(CMsgTrading_StartSession::spec_encode);
        }
        assert(p1 == Self::spec_fields(v));
        out
    }

    /// Appends the encoding of this message to `out`.
    pub fn encode_raw(&self, out: &mut Vec<u8>)
        ensures
            final(out)@ == old(out)@ + Self::spec_encode(self@),
    {
        let mut b = self.encode_to_vec();
        out.append(&mut b);
    }

    /// The first `k` fields of `v`, the others as a fresh message has them.
    #[verifier::opaque]
    pub open spec fn spec_prefix(v: SpecCMsgTrading_StartSession, k: int) -> SpecCMsgTrading_StartSession {
        SpecCMsgTrading_StartSession {
            other_steamid: if 1 <= k { v.other_steamid } else { None },
        }
    }

    /// Reading field 1 back, after the fields before it.
    proof fn lemma_field_other_steamid(v: SpecCMsgTrading_StartSession)
        ensures
            fold_fields(Self::spec_prefix(v, 0), opt_u64(1, v.other_steamid), Self::apply_fn())
                == Ok::<SpecCMsgTrading_StartSession, WireError>(Self::spec_prefix(v, 1)),
    {
        reveal(CMsgTrading_StartSession::spec_prefix);
        reveal(opt_u64);
        let apply = Self::apply_fn();
        let s = Self::spec_prefix(v, 0);
        lemma_fold_opt(s, 1, match v.other_steamid { Some(x) => Some(enc_u64(x)), None => None }, apply);
        if let Some(x) = v.other_steamid {
            lemma_u64_roundtrip(x);
        }
        assert(SpecCMsgTrading_StartSession { other_steamid: v.other_steamid, ..s } == Self::spec_prefix(v, 1));
    }

    /// Whether this message declares field number `n`.
    pub open spec fn declares(n: u32) -> bool {
        n == 1
    }

    /// A record with a number this message does not declare is passed over: well-formed
    /// bytes decode to the same message with such a record after them as without it.
    pub proof fn lemma_unknown_field(bytes: Seq<u8>, f: SpecField)
        requires
            parse_fields(bytes) is Ok,
            field_wf(f),
            !Self::declares(f.number),
        ensures
            Self::spec_decode(bytes + field_bytes(f)) == Self::spec_decode(bytes),
    {
        reveal(CMsgTrading_StartSession::spec_decode);
        lemma_parse_fields_append(bytes, f);
        let fs = parse_fields(bytes).unwrap();
        let apply = Self::apply_fn();
        lemma_fold_concat(Self::spec_default(), fs, seq![f], apply);
        assert(fs.push(f) =~= fs + seq![f]);
        if let Ok(w) = fold_fields(Self::spec_default(), fs, apply) {
            lemma_fold_single(w, f, apply);
        }
        lemma_merge_run_fold(Self::spec_default(), bytes, apply);
        lemma_merge_run_fold(Self::spec_default(), bytes + field_bytes(f), apply);
    }

    /// Decoding the encoding of a message gives the message back.
    pub proof fn lemma_decode_encode(v: SpecCMsgTrading_StartSession)
        requires
            Self::spec_encode(v).len() <= u64::MAX,
        ensures
            Self::spec_decode(Self::spec_encode(v)) == Ok::<SpecCMsgTrading_StartSession, WireError>(v),
    {
        let apply = Self::apply_fn();
        let d = Self::spec_default();
        let p0 = Seq::<SpecField>::empty();
        let l1 = opt_u64(1, v.other_steamid);
        let p1 = p0 + l1;
        assert(parse_fields(Self::spec_encode(v)) == Ok::<Seq<SpecField>, WireError>(p1)) by {
            reveal(CMsgTrading_StartSession::spec_encode);
            assert(numbers_ok(p0) && fields_wf(p0)) by {
                reveal(numbers_ok);
                reveal(fields_wf);
            }
            lemma_opt_u64_numbered(1, v.other_steamid);
            lemma_fields_wf_concat(p0, l1);
            assert(p1 == Self::spec_fields(v));
            lemma_fields_wf_from_len(p1);
            lemma_fields_roundtrip(p1);
        }
        assert(Self::spec_prefix(v, 0) == d) by {
            reveal(CMsgTrading_StartSession::spec_prefix);
        }
        lemma_fold_empty(d, apply);
        lemma_fold_concat(d, p0, l1, apply);
        Self::lemma_field_other_steamid(v);
        assert(Self::spec_prefix(v, 1) == v) by {
            reveal(CMsgTrading_StartSession::spec_prefix);
        }
        lemma_merge_run_fold(d, Self::spec_encode(v), apply);
        assert(Self::spec_decode(Self::spec_encode(v)) == Ok::<SpecCMsgTrading_StartSession, WireError>(v)) by {
            reveal(CMsgTrading_StartSession::spec_decode);
        }
    }
}

/// `CMsgClientGetDepotDecryptionKey`, as Valve's schema declares it.
#[derive(Debug, Clone, PartialEq)]
pub struct CMsgClientGetDepotDecryptionKey {
    /// Field 1.
    pub depot_id: Option<u32>,
    /// Field 2.
    pub app_id: Option<u32>,
}

/// What a `CMsgClientGetDepotDecryptionKey` holds, as mathematical values.
#[verifier::ext_equal]
pub struct SpecCMsgClientGetDepotDecryptionKey {
    pub depot_id: Option<u32>,
    pub app_id: Option<u32>,
}

impl View for CMsgClientGetDepotDecryptionKey {
    type V = SpecCMsgClientGetDepotDecryptionKey;

    open spec fn view(&self) -> SpecCMsgClientGetDepotDecryptionKey {
        SpecCMsgClientGetDepotDecryptionKey {
            depot_id: self.depot_id,
            app_id: self.app_id,
        }
    }
}

impl Default for CMsgClientGetDepotDecryptionKey {
    fn default() -> (r: Self)
        ensures
            r@ == CMsgClientGetDepotDecryptionKey::spec_default(),
    {
        CMsgClientGetDepotDecryptionKey {
            depot_id: None,
            app_id: None,
        }
    }
}

impl CMsgClientGetDepotDecryptionKey {
    pub open spec fn spec_default() -> SpecCMsgClientGetDepotDecryptionKey {
        SpecCMsgClientGetDepotDecryptionKey {
            depot_id: None,
            app_id: None,
        }
    }

    /// The records a `CMsgClientGetDepotDecryptionKey` is written as, in field order.
    pub open spec fn spec_fields(v: SpecCMsgClientGetDepotDecryptionKey) -> Seq<SpecField> {
        Seq::<SpecField>::empty()
            + opt_u32(1, v.depot_id)
            + opt_u32(2, v.app_id)
    }

    #[verifier::opaque]
    pub open spec fn spec_encode(v: SpecCMsgClientGetDepotDecryptionKey) -> Seq<u8> {
        fields_bytes(Self::spec_fields(v))
    }

    /// What one record does to the message: a declared number sets or extends its
    /// field, any other number is left alone.
    pub open spec fn spec_apply(v: SpecCMsgClientGetDepotDecryptionKey, f: SpecField) -> Result<SpecCMsgClientGetDepotDecryptionKey, WireError> {
        match f.number {
            1 => match dec_u32(f.value) {
                Ok(x) => Ok(SpecCMsgClientGetDepotDecryptionKey { depot_id: Some(x), ..v }),
                Err(e) => Err(e),
            },
            2 => match dec_u32(f.value) {
                Ok(x) => Ok(SpecCMsgClientGetDepotDecryptionKey { app_id: Some(x), ..v }),
                Err(e) => Err(e),
            },
            _ => Ok(v),
        }
    }

    pub open spec fn apply_fn() -> spec_fn(SpecCMsgClientGetDepotDecryptionKey, SpecField) -> Result<SpecCMsgClientGetDepotDecryptionKey, WireError> {
        |v: SpecCMsgClientGetDepotDecryptionKey, f: SpecField| Self::spec_apply(v, f)
    }

    /// The message `bytes` makes of `v`: its records applied in order, or the error
    /// that stops the reading.
    pub open spec fn spec_merge(v: SpecCMsgClientGetDepotDecryptionKey, bytes: Seq<u8>) -> Result<SpecCMsgClientGetDepotDecryptionKey, WireError> {
        let (w, stop) = merge_run(v, bytes, Self::apply_fn());
        match stop {
            None => Ok(w),
            Some(e) => Err(e),
        }
    }

    #[verifier::opaque]
    pub open spec fn spec_decode(bytes: Seq<u8>) -> Result<SpecCMsgClientGetDepotDecryptionKey, WireError> {
        Self::spec_merge(Self::spec_default(), bytes)
    }

    /// This message with one record applied to it, or, when the record is refused,
    /// the message unchanged and the reason.
    fn applied(self, f: &Field) -> (r: Result<Self, (Self, WireError)>)
        ensures
            match Self::spec_apply(self@, f@) {
                Ok(v) => r matches Ok(m) && m@ == v,
                Err(e) => r matches Err((m, x)) && x == e && m@ == self@,
            },
    {
        match f.number {
            1 => match read_u32(&f.value) {
                Ok(x) => Ok(Self { depot_id: Some(x), ..self }),
                Err(e) => Err((self, e)),
            },
            2 => match read_u32(&f.value) {
                Ok(x) => Ok(Self { app_id: Some(x), ..self }),
                Err(e) => Err((self, e)),
            },
            _ => Ok(self),
        }
    }

    /// Reads the records `bytes` holds into this message, in order. When a record does
    /// not parse or is refused, the reading stops there: the message keeps what the
    /// records before it gave, and the error is returned.
    pub fn merge(&mut self, bytes: &[u8]) -> (r: Result<(), WireError>)
        ensures
            final(self)@ == merge_run(old(self)@, bytes@, Self::apply_fn()).0,
            r == match merge_run(old(self)@, bytes@, Self::apply_fn()).1 {
                None => Ok::<(), WireError>(()),
                Some(e) => Err::<(), WireError>(e),
            },
    {
        let ghost total = merge_run(self@, bytes@, Self::apply_fn());
        let mut cur = Self::default();
        std::mem::swap(&mut cur, self);
        let mut pos: usize = 0;
        assert(bytes@.skip(0) =~= bytes@);
        while pos < bytes.len()
            invariant
                pos <= bytes@.len(),
                total == merge_run(old(self)@, bytes@, Self::apply_fn()),
                merge_run(cur@, bytes@.skip(pos as int), Self::apply_fn()) == total,
            decreases bytes@.len() - pos,
        {
            let ghost s = bytes@.skip(pos as int);
            proof {
                lemma_merge_run_step(cur@, s, Self::apply_fn());
                lemma_parse_field_len(s);
            }
            match read_field(bytes, pos) {
                Ok((f, end)) => {
                    assert(bytes@.skip(end as int) =~= s.skip((end - pos) as int));
                    match cur.applied(&f) {
                        Ok(m) => {
                            cur = m;
                        },
                        Err((m, e)) => {
                            *self = m;
                            return Err(e);
                        },
                    }
                    pos = end;
                },
                Err(e) => {
                    *self = cur;
                    return Err(e);
                },
            }
        }
        assert(bytes@.skip(pos as int) =~= Seq::<u8>::empty());
        proof {
            lemma_merge_run_empty(cur@, Self::apply_fn());
        }
        *self = cur;
        Ok(())
    }

    /// Decodes a message from its encoding.
    pub fn decode(bytes: &[u8]) -> (r: Result<Self, WireError>)
        ensures
            match Self::spec_decode(bytes@) {
                Ok(v) => r matches Ok(m) && m@ == v,
                Err(e) => r matches Err(x) && x == e,
            },
    {
        proof {
            reveal(CMsgClientGetDepotDecryptionKey::spec_decode);
        }
        let mut m = Self::default();
        match m.merge(bytes) {
            Ok(()) => Ok(m),
            Err(e) => Err(e),
        }
    }

    /// The encoding of this message.
    pub fn encode_to_vec(&self) -> (r: Vec<u8>)
        ensures
            r@ == Self::spec_encode(self@),
    {
        let ghost v = self@;
        let mut out: Vec<u8> = Vec::new();
        let ghost p0 = Seq::<SpecField>::empty();
        put_opt_u32(&mut out, 1, self.depot_id);
        let ghost p1 = p0 + opt_u32(1, v.depot_id);
        proof {
            lemma_fields_bytes_concat(p0, opt_u32(1, v.depot_id));
        }
        put_opt_u32(&mut out, 2, self.app_id);
        let ghost p2 = p1 + opt_u32(2, v.app_id);
        proof {
            lemma_fields_bytes_concat(p1, opt_u32(2, v.app_id));
        }
        proof {
            reveal(CMsgClientGetDepotDecryptionKey::spec_encode);
        }
        assert(p2 == Self::spec_fields(v));
        out
    }

    /// Appends the encoding of this message to `out`.
    pub fn encode_raw(&self, out: &mut Vec<u8>)
        ensures
            final(out)@ == old(out)@ + Self::spec_encode(self@),
    {
        let mut b = self.encode_to_vec();
        out.append(&mut b);
    }

    /// The first `k` fields of `v`, the others as a fresh message has them.
    #[verifier::opaque]
    pub open spec fn spec_prefix(v: SpecCMsgClientGetDepotDecryptionKey, k: int) -> SpecCMsgClientGetDepotDecryptionKey {
        SpecCMsgClientGetDepotDecryptionKey {
            depot_id: if 1 <= k { v.depot_id } else { None },
            app_id: if 2 <= k { v.app_id } else { None },
        }
    }

    /// Reading field 1 back, after the fields before it.
    proof fn lemma_field_depot_id(v: SpecCMsgClientGetDepotDecryptionKey)
        ensures
            fold_fields(Self::spec_prefix(v, 0), opt_u32(1, v.depot_id), Self::apply_fn())
                == Ok::<SpecCMsgClientGetDepotDecryptionKey, WireError>(Self::spec_prefix(v, 1)),
    {
        reveal(CMsgClientGetDepotDecryptionKey::spec_prefix);
        reveal(opt_u32);
        let apply = Self::apply_fn();
        let s = Self::spec_prefix(v, 0);
        lemma_fold_opt(s, 1, match v.depot_id { Some(x) => Some(enc_u32(x)), None => None }, apply);
        if let Some(x) = v.depot_id {
            lemma_u32_roundtrip(x);
        }
        assert(SpecCMsgClientGetDepotDecryptionKey { depot_id: v.depot_id, ..s } == Self::spec_prefix(v, 1));
    }

    /// Reading field 2 back, after the fields before it.
    proof fn lemma_field_app_id(v: SpecCMsgClientGetDepotDecryptionKey)
        ensures
            fold_fields(Self::spec_prefix(v, 1), opt_u32(2, v.app_id), Self::apply_fn())
                == Ok::<SpecCMsgClientGetDepotDecryptionKey, WireError>(Self::spec_prefix(v, 2)),
    {
        reveal(CMsgClientGetDepotDecryptionKey::spec_prefix);
        reveal(opt_u32);
        let apply = Self::apply_fn();
        let s = Self::spec_prefix(v, 1);
        lemma_fold_opt(s, 2, match v.app_id { Some(x) => Some(enc_u32(x)), None => None }, apply);
        if let Some(x) = v.app_id {
            lemma_u32_roundtrip(x);
        }
        assert(SpecCMsgClientGetDepotDecryptionKey { app_id: v.app_id, ..s } == Self::spec_prefix(v, 2));
    }

    /// Whether this message declares field number `n`.
    pub open spec fn declares(n: u32) -> bool {
        n == 1 || n == 2
    }

    /// A record with a number this message does not declare is passed over: well-formed
    /// bytes decode to the same message with such a record after them as without it.
    pub proof fn lemma_unknown_field(bytes: Seq<u8>, f: SpecField)
        requires
            parse_fields(bytes) is Ok,
            field_wf(f),
            !Self::declares(f.number),
        ensures
            Self::spec_decode(bytes + field_bytes(f)) == Self::spec_decode(bytes),
    {
        reveal(CMsgClientGetDepotDecryptionKey::spec_decode);
        lemma_parse_fields_append(bytes, f);
        let fs = parse_fields(bytes).unwrap();
        let apply = Self::apply_fn();
        lemma_fold_concat(Self::spec_default(), fs, seq![f], apply);
        assert(fs.push(f) =~= fs + seq![f]);
        if let Ok(w) = fold_fields(Self::spec_default(), fs, apply) {
            lemma_fold_single(w, f, apply);
        }
        lemma_merge_run_fold(Self::spec_default(), bytes, apply);
        lemma_merge_run_fold(Self::spec_default(), bytes + field_bytes(f), apply);
    }

    /// Decoding the encoding of a message gives the message back.
    pub proof fn lemma_decode_encode(v: SpecCMsgClientGetDepotDecryptionKey)
        requires
            Self::spec_encode(v).len() <= u64::MAX,
        ensures
            Self::spec_decode(Self::spec_encode(v)) == Ok::<SpecCMsgClientGetDepotDecryptionKey, WireError>(v),
    {
        let apply = Self::apply_fn();
        let d = Self::spec_default();
        let p0 = Seq::<SpecField>::empty();
        let l1 = opt_u32(1, v.depot_id);
        let p1 = p0 + l1;
        let l2 = opt_u32(2, v.app_id);
        let p2 = p1 + l2;
        assert(parse_fields(Self::spec_encode(v)) == Ok::<Seq<SpecField>, WireError>(p2)) by {
            reveal(CMsgClientGetDepotDecryptionKey::spec_encode);
            assert(numbers_ok(p0) && fields_wf(p0)) by {
                reveal(numbers_ok);
                reveal(fields_wf);
            }
            lemma_opt_u32_numbered(1, v.depot_id);
            lemma_fields_wf_concat(p0, l1);
            lemma_opt_u32_numbered(2, v.app_id);
            lemma_fields_wf_concat(p1, l2);
            assert(p2 == Self::spec_fields(v));
            lemma_fields_wf_from_len(p2);
            lemma_fields_roundtrip(p2);
        }
        assert(Self::spec_prefix(v, 0) == d) by {
            reveal(CMsgClientGetDepotDecryptionKey::spec_prefix);
        }
        lemma_fold_empty(d, apply);
        lemma_fold_concat(d, p0, l1, apply);
        Self::lemma_field_depot_id(v);
        lemma_fold_concat(d, p1, l2, apply);
        Self::lemma_field_app_id(v);
        assert(Self::spec_prefix(v, 2) == v) by {
            reveal(CMsgClientGetDepotDecryptionKey::spec_prefix);
        }
        lemma_merge_run_fold(d, Self::spec_encode(v), apply);
        assert(Self::spec_decode(Self::spec_encode(v)) == Ok::<SpecCMsgClientGetDepotDecryptionKey, WireError>(v)) by {
            reveal(CMsgClientGetDepotDecryptionKey::spec_decode);
        }
    }
}

/// `CMsgClientGetDepotDecryptionKeyResponse`, as Valve's schema declares it.
#[derive(Debug, Clone, PartialEq)]
pub struct CMsgClientGetDepotDecryptionKeyResponse {
    /// Field 1.
    pub eresult: Option<i32>,
    /// Field 2.
    pub depot_id: Option<u32>,
    /// Field 3.
    pub depot_encryption_key: Option<Vec<u8>>,
}

/// What a `CMsgClientGetDepotDecryptionKeyResponse` holds, as mathematical values.
#[verifier::ext_equal]
pub struct SpecCMsgClientGetDepotDecryptionKeyResponse {
    pub eresult: Option<i32>,
    pub depot_id: Option<u32>,
    pub depot_encryption_key: Option<Seq<u8>>,
}

impl View for CMsgClientGetDepotDecryptionKeyResponse {
    type V = SpecCMsgClientGetDepotDecryptionKeyResponse;

    open spec fn view(&self) -> SpecCMsgClientGetDepotDecryptionKeyResponse {
        SpecCMsgClientGetDepotDecryptionKeyResponse {
            eresult: self.eresult,
            depot_id: self.depot_id,
            depot_encryption_key: opt_bytes_view(self.depot_encryption_key),
        }
    }
}

impl Default for CMsgClientGetDepotDecryptionKeyResponse {
    fn default() -> (r: Self)
        ensures
            r@ == CMsgClientGetDepotDecryptionKeyResponse::spec_default(),
    {
        CMsgClientGetDepotDecryptionKeyResponse {
            eresult: None,
            depot_id: None,
            depot_encryption_key: None,
        }
    }
}

impl CMsgClientGetDepotDecryptionKeyResponse {
    /// Field 1, or its schema default when absent.
    pub fn eresult_or_default(&self) -> (r: i32)
        ensures
            r == match self.eresult {
                Some(x) => x,
                None => 2i32,
            },
    {
        self.eresult.unwrap_or(2i32)
    }

    pub open spec fn spec_default() -> SpecCMsgClientGetDepotDecryptionKeyResponse {
        SpecCMsgClientGetDepotDecryptionKeyResponse {
            eresult: None,
            depot_id: None,
            depot_encryption_key: None,
        }
    }

    /// The records a `CMsgClientGetDepotDecryptionKeyResponse` is written as, in field order.
    pub open spec fn spec_fields(v: SpecCMsgClientGetDepotDecryptionKeyResponse) -> Seq<SpecField> {
        Seq::<SpecField>::empty()
            + opt_i32(1, v.eresult)
            + opt_u32(2, v.depot_id)
            + opt_bytes(3, v.depot_encryption_key)
    }

    #[verifier::opaque]
    pub open spec fn spec_encode(v: SpecCMsgClientGetDepotDecryptionKeyResponse) -> Seq<u8> {
        fields_bytes(Self::spec_fields(v))
    }

    /// What one record does to the message: a declared number sets or extends its
    /// field, any other number is left alone.
    pub open spec fn spec_apply(v: SpecCMsgClientGetDepotDecryptionKeyResponse, f: SpecField) -> Result<SpecCMsgClientGetDepotDecryptionKeyResponse, WireError> {
        match f.number {
            1 => match dec_i32(f.value) {
                Ok(x) => Ok(SpecCMsgClientGetDepotDecryptionKeyResponse { eresult: Some(x), ..v }),
                Err(e) => Err(e),
            },
            2 => match dec_u32(f.value) {
                Ok(x) => Ok(SpecCMsgClientGetDepotDecryptionKeyResponse { depot_id: Some(x), ..v }),
                Err(e) => Err(e),
            },
            3 => match dec_bytes(f.value) {
                Ok(x) => Ok(SpecCMsgClientGetDepotDecryptionKeyResponse { depot_encryption_key: Some(x), ..v }),
                Err(e) => Err(e),
            },
            _ => Ok(v),
        }
    }

    pub open spec fn apply_fn() -> spec_fn(SpecCMsgClientGetDepotDecryptionKeyResponse, SpecField) -> Result<SpecCMsgClientGetDepotDecryptionKeyResponse, WireError> {
        |v: SpecCMsgClientGetDepotDecryptionKeyResponse, f: SpecField| Self::spec_apply(v, f)
    }

    /// The message `bytes` makes of `v`: its records applied in order, or the error
    /// that stops the reading.
    pub open spec fn spec_merge(v: SpecCMsgClientGetDepotDecryptionKeyResponse, bytes: Seq<u8>) -> Result<SpecCMsgClientGetDepotDecryptionKeyResponse, WireError> {
        let (w, stop) = merge_run(v, bytes, Self::apply_fn());
        match stop {
            None => Ok(w),
            Some(e) => Err(e),
        }
    }

    #[verifier::opaque]
    pub open spec fn spec_decode(bytes: Seq<u8>) -> Result<SpecCMsgClientGetDepotDecryptionKeyResponse, WireError> {
        Self::spec_merge(Self::spec_default(), bytes)
    }

    /// This message with one record applied to it, or, when the record is refused,
    /// the message unchanged and the reason.
    fn applied(self, f: &Field) -> (r: Result<Self, (Self, WireError)>)
        ensures
            match Self::spec_apply(self@, f@) {
                Ok(v) => r matches Ok(m) && m@ == v,
                Err(e) => r matches Err((m, x)) && x == e && m@ == self@,
            },
    {
        match f.number {
            1 => match read_i32(&f.value) {
                Ok(x) => Ok(Self { eresult: Some(x), ..self }),
                Err(e) => Err((self, e)),
            },
            2 => match read_u32(&f.value) {
                Ok(x) => Ok(Self { depot_id: Some(x), ..self }),
                Err(e) => Err((self, e)),
            },
            3 => match read_bytes(&f.value) {
                Ok(x) => Ok(Self { depot_encryption_key: Some(x), ..self }),
                Err(e) => Err((self, e)),
            },
            _ => Ok(self),
        }
    }

    /// Reads the records `bytes` holds into this message, in order. When a record does
    /// not parse or is refused, the reading stops there: the message keeps what the
    /// records before it gave, and the error is returned.
    pub fn merge(&mut self, bytes: &[u8]) -> (r: Result<(), WireError>)
        ensures
            final(self)@ == merge_run(old(self)@, bytes@, Self::apply_fn()).0,
            r == match merge_run(old(self)@, bytes@, Self::apply_fn()).1 {
                None => Ok::<(), WireError>(()),
                Some(e) => Err::<(), WireError>(e),
            },
    {
        let ghost total = merge_run(self@, bytes@, Self::apply_fn());
        let mut cur = Self::default();
        std::mem::swap(&mut cur, self);
        let mut pos: usize = 0;
        assert(bytes@.skip(0) =~= bytes@);
        while pos < bytes.len()
            invariant
                pos <= bytes@.len(),
                total == merge_run(old(self)@, bytes@, Self::apply_fn()),
                merge_run(cur@, bytes@.skip(pos as int), Self::apply_fn()) == total,
            decreases bytes@.len() - pos,
        {
            let ghost s = bytes@.skip(pos as int);
            proof {
                lemma_merge_run_step(cur@, s, Self::apply_fn());
                lemma_parse_field_len(s);
            }
            match read_field(bytes, pos) {
                Ok((f, end)) => {
                    assert(bytes@.skip(end as int) =~= s.skip((end - pos) as int));
                    match cur.applied(&f) {
                        Ok(m) => {
                            cur = m;
                        },
                        Err((m, e)) => {
                            *self = m;
                            return Err(e);
                        },
                    }
                    pos = end;
                },
                Err(e) => {
                    *self = cur;
                    return Err(e);
                },
            }
        }
        assert(bytes@.skip(pos as int) =~= Seq::<u8>::empty());
        proof {
            lemma_merge_run_empty(cur@, Self::apply_fn());
        }
        *self = cur;
        Ok(())
    }

    /// Decodes a message from its encoding.
    pub fn decode(bytes: &[u8]) -> (r: Result<Self, WireError>)
        ensures
            match Self::spec_decode(bytes@) {
                Ok(v) => r matches Ok(m) && m@ == v,
                Err(e) => r matches Err(x) && x == e,
            },
    {
        proof {
            reveal(CMsgClientGetDepotDecryptionKeyResponse::spec_decode);
        }
        let mut m = Self::default();
        match m.merge(bytes) {
            Ok(()) => Ok(m),
            Err(e) => Err(e),
        }
    }

    /// The encoding of this message.
    pub fn encode_to_vec(&self) -> (r: Vec<u8>)
        ensures
            r@ == Self::spec_encode(self@),
    {
        let ghost v = self@;
        let mut out: Vec<u8> = Vec::new();
        let ghost p0 = Seq::<SpecField>::empty();
        put_opt_i32(&mut out, 1, self.eresult);
        let ghost p1 = p0 + opt_i32(1, v.eresult);
        proof {
            lemma_fields_bytes_concat(p0, opt_i32(1, v.eresult));
        }
        put_opt_u32(&mut out, 2, self.depot_id);
        let ghost p2 = p1 + opt_u32(2, v.depot_id);
        proof {
            lemma_fields_bytes_concat(p1, opt_u32(2, v.depot_id));
        }
        put_opt_bytes(&mut out, 3, &self.depot_encryption_key);
        let ghost p3 = p2 + opt_bytes(3, v.depot_encryption_key);
        proof {
            lemma_fields_bytes_concat(p2, opt_bytes(3, v.depot_encryption_key));
        }
        proof {
            reveal(CMsgClientGetDepotDecryptionKeyResponse::spec_encode);
        }
        assert(p3 == Self::spec_fields(v));
        out
    }

    /// Appends the encoding of this message to `out`.
    pub fn encode_raw(&self, out: &mut Vec<u8>)
        ensures
            final(out)@ == old(out)@ + Self::spec_encode(self@),
    {
        let mut b = self.encode_to_vec();
        out.append(&mut b);
    }

    /// The first `k` fields of `v`, the others as a fresh message has them.
    #[verifier::opaque]
    pub open spec fn spec_prefix(v: SpecCMsgClientGetDepotDecryptionKeyResponse, k: int) -> SpecCMsgClientGetDepotDecryptionKeyResponse {
        SpecCMsgClientGetDepotDecryptionKeyResponse {
            eresult: if 1 <= k { v.eresult } else { None },
            depot_id: if 2 <= k { v.depot_id } else { None },
            depot_encryption_key: if 3 <= k { v.depot_encryption_key } else { None },
        }
    }

    /// Reading field 1 back, after the fields before it.
    proof fn lemma_field_eresult(v: SpecCMsgClientGetDepotDecryptionKeyResponse)
        ensures
            fold_fields(Self::spec_prefix(v, 0), opt_i32(1, v.eresult), Self::apply_fn())
                == Ok::<SpecCMsgClientGetDepotDecryptionKeyResponse, WireError>(Self::spec_prefix(v, 1)),
    {
        reveal(CMsgClientGetDepotDecryptionKeyResponse::spec_prefix);
        reveal(opt_i32);
        let apply = Self::apply_fn();
        let s = Self::spec_prefix(v, 0);
        lemma_fold_opt(s, 1, match v.eresult { Some(x) => Some(enc_i32(x)), None => None }, apply);
        if let Some(x) = v.eresult {
            lemma_i32_roundtrip(x);
        }
        assert(SpecCMsgClientGetDepotDecryptionKeyResponse { eresult: v.eresult, ..s } == Self::spec_prefix(v, 1));
    }

    /// Reading field 2 back, after the fields before it.
    proof fn lemma_field_depot_id(v: SpecCMsgClientGetDepotDecryptionKeyResponse)
        ensures
            fold_fields(Self::spec_prefix(v, 1), opt_u32(2, v.depot_id), Self::apply_fn())
                == Ok::<SpecCMsgClientGetDepotDecryptionKeyResponse, WireError>(Self::spec_prefix(v, 2)),
    {
        reveal(CMsgClientGetDepotDecryptionKeyResponse::spec_prefix);
        reveal(opt_u32);
        let apply = Self::apply_fn();
        let s = Self::spec_prefix(v, 1);
        lemma_fold_opt(s, 2, match v.depot_id { Some(x) => Some(enc_u32(x)), None => None }, apply);
        if let Some(x) = v.depot_id {
            lemma_u32_roundtrip(x);
        }
        assert(SpecCMsgClientGetDepotDecryptionKeyResponse { depot_id: v.depot_id, ..s } == Self::spec_prefix(v, 2));
    }

    /// Reading field 3 back, after the fields before it.
    proof fn lemma_field_depot_encryption_key(v: SpecCMsgClientGetDepotDecryptionKeyResponse)
        ensures
            fold_fields(Self::spec_prefix(v, 2), opt_bytes(3, v.depot_encryption_key), Self::apply_fn())
                == Ok::<SpecCMsgClientGetDepotDecryptionKeyResponse, WireError>(Self::spec_prefix(v, 3)),
    {
        reveal(CMsgClientGetDepotDecryptionKeyResponse::spec_prefix);
        reveal(opt_bytes);
        let apply = Self::apply_fn();
        let s = Self::spec_prefix(v, 2);
        lemma_fold_opt(s, 3, match v.depot_encryption_key { Some(x) => Some(enc_bytes(x)), None => None }, apply);
        assert(SpecCMsgClientGetDepotDecryptionKeyResponse { depot_encryption_key: v.depot_encryption_key, ..s } == Self::spec_prefix(v, 3));
    }

    /// Whether this message declares field number `n`.
    pub open spec fn declares(n: u32) -> bool {
        n == 1 || n == 2 || n == 3
    }

    /// A record with a number this message does not declare is passed over: well-formed
    /// bytes decode to the same message with such a record after them as without it.
    pub proof fn lemma_unknown_field(bytes: Seq<u8>, f: SpecField)
        requires
            parse_fields(bytes) is Ok,
            field_wf(f),
            !Self::declares(f.number),
        ensures
            Self::spec_decode(bytes + field_bytes(f)) == Self::spec_decode(bytes),
    {
        reveal(CMsgClientGetDepotDecryptionKeyResponse::spec_decode);
        lemma_parse_fields_append(bytes, f);
        let fs = parse_fields(bytes).unwrap();
        let apply = Self::apply_fn();
        lemma_fold_concat(Self::spec_default(), fs, seq![f], apply);
        assert(fs.push(f) =~= fs + seq![f]);
        if let Ok(w) = fold_fields(Self::spec_default(), fs, apply) {
            lemma_fold_single(w, f, apply);
        }
        lemma_merge_run_fold(Self::spec_default(), bytes, apply);
        lemma_merge_run_fold(Self::spec_default(), bytes + field_bytes(f), apply);
    }

    /// Decoding the encoding of a message gives the message back.
    pub proof fn lemma_decode_encode(v: SpecCMsgClientGetDepotDecryptionKeyResponse)
        requires
            Self::spec_encode(v).len() <= u64::MAX,
        ensures
            Self::spec_decode(Self::spec_encode(v)) == Ok::<SpecCMsgClientGetDepotDecryptionKeyResponse, WireError>(v),
    {
        let apply = Self::apply_fn();
        let d = Self::spec_default();
        let p0 = Seq::<SpecField>::empty();
        let l1 = opt_i32(1, v.eresult);
        let p1 = p0 + l1;
        let l2 = opt_u32(2, v.depot_id);
        let p2 = p1 + l2;
        let l3 = opt_bytes(3, v.depot_encryption_key);
        let p3 = p2 + l3;
        assert(parse_fields(Self::spec_encode(v)) == Ok::<Seq<SpecField>, WireError>(p3)) by {
            reveal(CMsgClientGetDepotDecryptionKeyResponse::spec_encode);
            assert(numbers_ok(p0) && fields_wf(p0)) by {
                reveal(numbers_ok);
                reveal(fields_wf);
            }
            lemma_opt_i32_numbered(1, v.eresult);
            lemma_fields_wf_concat(p0, l1);
            lemma_opt_u32_numbered(2, v.depot_id);
            lemma_fields_wf_concat(p1, l2);
            lemma_opt_bytes_numbered(3, v.depot_encryption_key);
            lemma_fields_wf_concat(p2, l3);
            assert(p3 == Self::spec_fields(v));
            lemma_fields_wf_from_len(p3);
            lemma_fields_roundtrip(p3);
        }
        assert(Self::spec_prefix(v, 0) == d) by {
            reveal(CMsgClientGetDepotDecryptionKeyResponse::spec_prefix);
        }
        lemma_fold_empty(d, apply);
        lemma_fold_concat(d, p0, l1, apply);
        Self::lemma_field_eresult(v);
        lemma_fold_concat(d, p1, l2, apply);
        Self::lemma_field_depot_id(v);
        lemma_fold_concat(d, p2, l3, apply);
        Self::lemma_field_depot_encryption_key(v);
        assert(Self::spec_prefix(v, 3) == v) by {
            reveal(CMsgClientGetDepotDecryptionKeyResponse::spec_prefix);
        }
        lemma_merge_run_fold(d, Self::spec_encode(v), apply);
        assert(Self::spec_decode(Self::spec_encode(v)) == Ok::<SpecCMsgClientGetDepotDecryptionKeyResponse, WireError>(v)) by {
            reveal(CMsgClientGetDepotDecryptionKeyResponse::spec_decode);
        }
    }
}

/// `CMsgClientCheckAppBetaPassword`, as Valve's schema declares it.
#[derive(Debug, Clone, PartialEq)]
pub struct CMsgClientCheckAppBetaPassword {
    /// Field 1.
    pub app_id: Option<u32>,
    /// Field 2.
    pub betapassword: Option<String>,
    /// Field 3.
    pub language: Option<i32>,
}

/// What a `CMsgClientCheckAppBetaPassword` holds, as mathematical values.
#[verifier::ext_equal]
pub struct SpecCMsgClientCheckAppBetaPassword {
    pub app_id: Option<u32>,
    pub betapassword: Option<Seq<char>>,
    pub language: Option<i32>,
}

impl View for CMsgClientCheckAppBetaPassword {
    type V = SpecCMsgClientCheckAppBetaPassword;

    open spec fn view(&self) -> SpecCMsgClientCheckAppBetaPassword {
        SpecCMsgClientCheckAppBetaPassword {
            app_id: self.app_id,
            betapassword: opt_string_view(self.betapassword),
            language: self.language,
        }
    }
}

impl Default for CMsgClientCheckAppBetaPassword {
    fn default() -> (r: Self)
        ensures
            r@ == CMsgClientCheckAppBetaPassword::spec_default(),
    {
        CMsgClientCheckAppBetaPassword {
            app_id: None,
            betapassword: None,
            language: None,
        }
    }
}

impl CMsgClientCheckAppBetaPassword {
    pub open spec fn spec_default() -> SpecCMsgClientCheckAppBetaPassword {
        SpecCMsgClientCheckAppBetaPassword {
            app_id: None,
            betapassword: None,
            language: None,
        }
    }

    /// The records a `CMsgClientCheckAppBetaPassword` is written as, in field order.
    pub open spec fn spec_fields(v: SpecCMsgClientCheckAppBetaPassword) -> Seq<SpecField> {
        Seq::<SpecField>::empty()
            + opt_u32(1, v.app_id)
            + opt_string(2, v.betapassword)
            + opt_i32(3, v.language)
    }

    #[verifier::opaque]
    pub open spec fn spec_encode(v: SpecCMsgClientCheckAppBetaPassword) -> Seq<u8> {
        fields_bytes(Self::spec_fields(v))
    }

    /// What one record does to the message: a declared number sets or extends its
    /// field, any other number is left alone.
    pub open spec fn spec_apply(v: SpecCMsgClientCheckAppBetaPassword, f: SpecField) -> Result<SpecCMsgClientCheckAppBetaPassword, WireError> {
        match f.number {
            1 => match dec_u32(f.value) {
                Ok(x) => Ok(SpecCMsgClientCheckAppBetaPassword { app_id: Some(x), ..v }),
                Err(e) => Err(e),
            },
            2 => match dec_string(f.value) {
                Ok(x) => Ok(SpecCMsgClientCheckAppBetaPassword { betapassword: Some(x), ..v }),
                Err(e) => Err(e),
            },
            3 => match dec_i32(f.value) {
                Ok(x) => Ok(SpecCMsgClientCheckAppBetaPassword { language: Some(x), ..v }),
                Err(e) => Err(e),
            },
            _ => Ok(v),
        }
    }

    pub open spec fn apply_fn() -> spec_fn(SpecCMsgClientCheckAppBetaPassword, SpecField) -> Result<SpecCMsgClientCheckAppBetaPassword, WireError> {
        |v: SpecCMsgClientCheckAppBetaPassword, f: SpecField| Self::spec_apply(v, f)
    }

    /// The message `bytes` makes of `v`: its records applied in order, or the error
    /// that stops the reading.
    pub open spec fn spec_merge(v: SpecCMsgClientCheckAppBetaPassword, bytes: Seq<u8>) -> Result<SpecCMsgClientCheckAppBetaPassword, WireError> {
        let (w, stop) = merge_run(v, bytes, Self::apply_fn());
        match stop {
            None => Ok(w),
            Some(e) => Err(e),
        }
    }

    #[verifier::opaque]
    pub open spec fn spec_decode(bytes: Seq<u8>) -> Result<SpecCMsgClientCheckAppBetaPassword, WireError> {
        Self::spec_merge(Self::spec_default(), bytes)
    }

    /// This message with one record applied to it, or, when the record is refused,
    /// the message unchanged and the reason.
    fn applied(self, f: &Field) -> (r: Result<Self, (Self, WireError)>)
        ensures
            match Self::spec_apply(self@, f@) {
                Ok(v) => r matches Ok(m) && m@ == v,
                Err(e) => r matches Err((m, x)) && x == e && m@ == self@,
            },
    {
        match f.number {
            1 => match read_u32(&f.value) {
                Ok(x) => Ok(Self { app_id: Some(x), ..self }),
                Err(e) => Err((self, e)),
            },
            2 => match read_string(&f.value) {
                Ok(x) => Ok(Self { betapassword: Some(x), ..self }),
                Err(e) => Err((self, e)),
            },
            3 => match read_i32(&f.value) {
                Ok(x) => Ok(Self { language: Some(x), ..self }),
                Err(e) => Err((self, e)),
            },
            _ => Ok(self),
        }
    }

    /// Reads the records `bytes` holds into this message, in order. When a record does
    /// not parse or is refused, the reading stops there: the message keeps what the
    /// records before it gave, and the error is returned.
    pub fn merge(&mut self, bytes: &[u8]) -> (r: Result<(), WireError>)
        ensures
            final(self)@ == merge_run(old(self)@, bytes@, Self::apply_fn()).0,
            r == match merge_run(old(self)@, bytes@, Self::apply_fn()).1 {
                None => Ok::<(), WireError>(()),
                Some(e) => Err::<(), WireError>(e),
            },
    {
        let ghost total = merge_run(self@, bytes@, Self::apply_fn());
        let mut cur = Self::default();
        std::mem::swap(&mut cur, self);
        let mut pos: usize = 0;
        assert(bytes@.skip(0) =~= bytes@);
        while pos < bytes.len()
            invariant
                pos <= bytes@.len(),
                total == merge_run(old(self)@, bytes@, Self::apply_fn()),
                merge_run(cur@, bytes@.skip(pos as int), Self::apply_fn()) == total,
            decreases bytes@.len() - pos,
        {
            let ghost s = bytes@.skip(pos as int);
            proof {
                lemma_merge_run_step(cur@, s, Self::apply_fn());
                lemma_parse_field_len(s);
            }
            match read_field(bytes, pos) {
                Ok((f, end)) => {
                    assert(bytes@.skip(end as int) =~= s.skip((end - pos) as int));
                    match cur.applied(&f) {
                        Ok(m) => {
                            cur = m;
                        },
                        Err((m, e)) => {
                            *self = m;
                            return Err(e);
                        },
                    }
                    pos = end;
                },
                Err(e) => {
                    *self = cur;
                    return Err(e);
                },
            }
        }
        assert(bytes@.skip(pos as int) =~= Seq::<u8>::empty());
        proof {
            lemma_merge_run_empty(cur@, Self::apply_fn());
        }
        *self = cur;
        Ok(())
    }

    /// Decodes a message from its encoding.
    pub fn decode(bytes: &[u8]) -> (r: Result<Self, WireError>)
        ensures
            match Self::spec_decode(bytes@) {
                Ok(v) => r matches Ok(m) && m@ == v,
                Err(e) => r matches Err(x) && x == e,
            },
    {
        proof {
            reveal(CMsgClientCheckAppBetaPassword::spec_decode);
        }
        let mut m = Self::default();
        match m.merge(bytes) {
            Ok(()) => Ok(m),
            Err(e) => Err(e),
        }
    }

    /// The encoding of this message.
    pub fn encode_to_vec(&self) -> (r: Vec<u8>)
        ensures
            r@ == Self::spec_encode(self@),
    {
        let ghost v = self@;
        let mut out: Vec<u8> = Vec::new();
        let ghost p0 = Seq::<SpecField>::empty();
        put_opt_u32(&mut out, 1, self.app_id);
        let ghost p1 = p0 + opt_u32(1, v.app_id);
        proof {
            lemma_fields_bytes_concat(p0, opt_u32(1, v.app_id));
        }
        put_opt_string(&mut out, 2, &self.betapassword);
        let ghost p2 = p1 + opt_string(2, v.betapassword);
        proof {
            lemma_fields_bytes_concat(p1, opt_string(2, v.betapassword));
        }
        put_opt_i32(&mut out, 3, self.language);
        let ghost p3 = p2 + opt_i32(3, v.language);
        proof {
            lemma_fields_bytes_concat(p2, opt_i32(3, v.language));
        }
        proof {
            reveal(CMsgClientCheckAppBetaPassword::spec_encode);
        }
        assert(p3 == Self::spec_fields(v));
        out
    }

    /// Appends the encoding of this message to `out`.
    pub fn encode_raw(&self, out: &mut Vec<u8>)
        ensures
            final(out)@ == old(out)@ + Self::spec_encode(self@),
    {
        let mut b = self.encode_to_vec();
        out.append(&mut b);
    }

    /// The first `k` fields of `v`, the others as a fresh message has them.
    #[verifier::opaque]
    pub open spec fn spec_prefix(v: SpecCMsgClientCheckAppBetaPassword, k: int) -> SpecCMsgClientCheckAppBetaPassword {
        SpecCMsgClientCheckAppBetaPassword {
            app_id: if 1 <= k { v.app_id } else { None },
            betapassword: if 2 <= k { v.betapassword } else { None },
            language: if 3 <= k { v.language } else { None },
        }
    }

    /// Reading field 1 back, after the fields before it.
    proof fn lemma_field_app_id(v: SpecCMsgClientCheckAppBetaPassword)
        ensures
            fold_fields(Self::spec_prefix(v, 0), opt_u32(1, v.app_id), Self::apply_fn())
                == Ok::<SpecCMsgClientCheckAppBetaPassword, WireError>(Self::spec_prefix(v, 1)),
    {
        reveal(CMsgClientCheckAppBetaPassword::spec_prefix);
        reveal(opt_u32);
        let apply = Self::apply_fn();
        let s = Self::spec_prefix(v, 0);
        lemma_fold_opt(s, 1, match v.app_id { Some(x) => Some(enc_u32(x)), None => None }, apply);
        if let Some(x) = v.app_id {
            lemma_u32_roundtrip(x);
        }
        assert(SpecCMsgClientCheckAppBetaPassword { app_id: v.app_id, ..s } == Self::spec_prefix(v, 1));
    }

    /// Reading field 2 back, after the fields before it.
    proof fn lemma_field_betapassword(v: SpecCMsgClientCheckAppBetaPassword)
        ensures
            fold_fields(Self::spec_prefix(v, 1), opt_string(2, v.betapassword), Self::apply_fn())
                == Ok::<SpecCMsgClientCheckAppBetaPassword, WireError>(Self::spec_prefix(v, 2)),
    {
        reveal(CMsgClientCheckAppBetaPassword::spec_prefix);
        reveal(opt_string);
        let apply = Self::apply_fn();
        let s = Self::spec_prefix(v, 1);
        lemma_fold_opt(s, 2, match v.betapassword { Some(x) => Some(enc_string(x)), None => None }, apply);
        if let Some(x) = v.betapassword {
            lemma_string_roundtrip(x);
        }
        assert(SpecCMsgClientCheckAppBetaPassword { betapassword: v.betapassword, ..s } == Self::spec_prefix(v, 2));
    }

    /// Reading field 3 back, after the fields before it.
    proof fn lemma_field_language(v: SpecCMsgClientCheckAppBetaPassword)
        ensures
            fold_fields(Self::spec_prefix(v, 2), opt_i32(3, v.language), Self::apply_fn())
                == Ok::<SpecCMsgClientCheckAppBetaPassword, WireError>(Self::spec_prefix(v, 3)),
    {
        reveal(CMsgClientCheckAppBetaPassword::spec_prefix);
        reveal(opt_i32);
        let apply = Self::apply_fn();
        let s = Self::spec_prefix(v, 2);
        lemma_fold_opt(s, 3, match v.language { Some(x) => Some(enc_i32(x)), None => None }, apply);
        if let Some(x) = v.language {
            lemma_i32_roundtrip(x);
        }
        assert(SpecCMsgClientCheckAppBetaPassword { language: v.language, ..s } == Self::spec_prefix(v, 3));
    }

    /// Whether this message declares field number `n`.
    pub open spec fn declares(n: u32) -> bool {
        n == 1 || n == 2 || n == 3
    }

    /// A record with a number this message does not declare is passed over: well-formed
    /// bytes decode to the same message with such a record after them as without it.
    pub proof fn lemma_unknown_field(bytes: Seq<u8>, f: SpecField)
        requires
            parse_fields(bytes) is Ok,
            field_wf(f),
            !Self::declares(f.number),
        ensures
            Self::spec_decode(bytes + field_bytes(f)) == Self::spec_decode(bytes),
    {
        reveal(CMsgClientCheckAppBetaPassword::spec_decode);
        lemma_parse_fields_append(bytes, f);
        let fs = parse_fields(bytes).unwrap();
        let apply = Self::apply_fn();
        lemma_fold_concat(Self::spec_default(), fs, seq![f], apply);
        assert(fs.push(f) =~= fs + seq![f]);
        if let Ok(w) = fold_fields(Self::spec_default(), fs, apply) {
            lemma_fold_single(w, f, apply);
        }
        lemma_merge_run_fold(Self::spec_default(), bytes, apply);
        lemma_merge_run_fold(Self::spec_default(), bytes + field_bytes(f), apply);
    }

    /// Decoding the encoding of a message gives the message back.
    pub proof fn lemma_decode_encode(v: SpecCMsgClientCheckAppBetaPassword)
        requires
            Self::spec_encode(v).len() <= u64::MAX,
        ensures
            Self::spec_decode(Self::spec_encode(v)) == Ok::<SpecCMsgClientCheckAppBetaPassword, WireError>(v),
    {
        let apply = Self::apply_fn();
        let d = Self::spec_default();
        let p0 = Seq::<SpecField>::empty();
        let l1 = opt_u32(1, v.app_id);
        let p1 = p0 + l1;
        let l2 = opt_string(2, v.betapassword);
        let p2 = p1 + l2;
        let l3 = opt_i32(3, v.language);
        let p3 = p2 + l3;
        assert(parse_fields(Self::spec_encode(v)) == Ok::<Seq<SpecField>, WireError>(p3)) by {
            reveal(CMsgClientCheckAppBetaPassword::spec_encode);
            assert(numbers_ok(p0) && fields_wf(p0)) by {
                reveal(numbers_ok);
                reveal(fields_wf);
            }
            lemma_opt_u32_numbered(1, v.app_id);
            lemma_fields_wf_concat(p0, l1);
            lemma_opt_string_numbered(2, v.betapassword);
            lemma_fields_wf_concat(p1, l2);
            lemma_opt_i32_numbered(3, v.language);
            lemma_fields_wf_concat(p2, l3);
            assert(p3 == Self::spec_fields(v));
            lemma_fields_wf_from_len(p3);
            lemma_fields_roundtrip(p3);
        }
        assert(Self::spec_prefix(v, 0) == d) by {
            reveal(CMsgClientCheckAppBetaPassword::spec_prefix);
        }
        lemma_fold_empty(d, apply);
        lemma_fold_concat(d, p0, l1, apply);
        Self::lemma_field_app_id(v);
        lemma_fold_concat(d, p1, l2, apply);
        Self::lemma_field_betapassword(v);
        lemma_fold_concat(d, p2, l3, apply);
        Self::lemma_field_language(v);
        assert(Self::spec_prefix(v, 3) == v) by {
            reveal(CMsgClientCheckAppBetaPassword::spec_prefix);
        }
        lemma_merge_run_fold(d, Self::spec_encode(v), apply);
        assert(Self::spec_decode(Self::spec_encode(v)) == Ok::<SpecCMsgClientCheckAppBetaPassword, WireError>(v)) by {
            reveal(CMsgClientCheckAppBetaPassword::spec_decode);
        }
    }
}

/// `CMsgClientCheckAppBetaPasswordResponse`, as Valve's schema declares it.
#[derive(Debug, Clone, PartialEq)]
pub struct CMsgClientCheckAppBetaPasswordResponse {
    /// Field 1.
    pub eresult: Option<i32>,
    /// Field 4.
    pub betapasswords: Vec<crate::steammessages_clientserver_2::c_msg_client_check_app_beta_password_response::BetaPassword>,
}

/// What a `CMsgClientCheckAppBetaPasswordResponse` holds, as mathematical values.
#[verifier::ext_equal]
pub struct SpecCMsgClientCheckAppBetaPasswordResponse {
    pub eresult: Option<i32>,
    pub betapasswords: Seq<crate::steammessages_clientserver_2::c_msg_client_check_app_beta_password_response::SpecBetaPassword>,
}

impl View for CMsgClientCheckAppBetaPasswordResponse {
    type V = SpecCMsgClientCheckAppBetaPasswordResponse;

    open spec fn view(&self) -> SpecCMsgClientCheckAppBetaPasswordResponse {
        SpecCMsgClientCheckAppBetaPasswordResponse {
            eresult: self.eresult,
            betapasswords: crate::steammessages_clientserver_2::c_msg_client_check_app_beta_password_response::BetaPassword::view_all(self.betapasswords@),
        }
    }
}

impl Default for CMsgClientCheckAppBetaPasswordResponse {
    fn default() -> (r: Self)
        ensures
            r@ == CMsgClientCheckAppBetaPasswordResponse::spec_default(),
    {
        CMsgClientCheckAppBetaPasswordResponse {
            eresult: None,
            betapasswords: Vec::new(),
        }
    }
}

impl CMsgClientCheckAppBetaPasswordResponse {
    /// Field 1, or its schema default when absent.
    pub fn eresult_or_default(&self) -> (r: i32)
        ensures
            r == match self.eresult {
                Some(x) => x,
                None => 2i32,
            },
    {
        self.eresult.unwrap_or(2i32)
    }

    pub open spec fn spec_default() -> SpecCMsgClientCheckAppBetaPasswordResponse {
        SpecCMsgClientCheckAppBetaPasswordResponse {
            eresult: None,
            betapasswords: Seq::empty(),
        }
    }

    /// The records a `CMsgClientCheckAppBetaPasswordResponse` is written as, in field order.
    pub open spec fn spec_fields(v: SpecCMsgClientCheckAppBetaPasswordResponse) -> Seq<SpecField> {
        Seq::<SpecField>::empty()
            + opt_i32(1, v.eresult)
            + rep_bytes(4, crate::steammessages_clientserver_2::c_msg_client_check_app_beta_password_response::BetaPassword::spec_encode_all(v.betapasswords))
    }

    #[verifier::opaque]
    pub open spec fn spec_encode(v: SpecCMsgClientCheckAppBetaPasswordResponse) -> Seq<u8> {
        fields_bytes(Self::spec_fields(v))
    }

    /// What one record does to the message: a declared number sets or extends its
    /// field, any other number is left alone.
    pub open spec fn spec_apply(v: SpecCMsgClientCheckAppBetaPasswordResponse, f: SpecField) -> Result<SpecCMsgClientCheckAppBetaPasswordResponse, WireError> {
        match f.number {
            1 => match dec_i32(f.value) {
                Ok(x) => Ok(SpecCMsgClientCheckAppBetaPasswordResponse { eresult: Some(x), ..v }),
                Err(e) => Err(e),
            },
            4 => match dec_bytes(f.value) {
                Ok(b) => match crate::steammessages_clientserver_2::c_msg_client_check_app_beta_password_response::BetaPassword::spec_decode(b) {
                    Ok(m) => Ok(SpecCMsgClientCheckAppBetaPasswordResponse { betapasswords: v.betapasswords.push(m), ..v }),
                    Err(e) => Err(e),
                },
                Err(e) => Err(e),
            },
            _ => Ok(v),
        }
    }

    pub open spec fn apply_fn() -> spec_fn(SpecCMsgClientCheckAppBetaPasswordResponse, SpecField) -> Result<SpecCMsgClientCheckAppBetaPasswordResponse, WireError> {
        |v: SpecCMsgClientCheckAppBetaPasswordResponse, f: SpecField| Self::spec_apply(v, f)
    }

    /// The message `bytes` makes of `v`: its records applied in order, or the error
    /// that stops the reading.
    pub open spec fn spec_merge(v: SpecCMsgClientCheckAppBetaPasswordResponse, bytes: Seq<u8>) -> Result<SpecCMsgClientCheckAppBetaPasswordResponse, WireError> {
        let (w, stop) = merge_run(v, bytes, Self::apply_fn());
        match stop {
            None => Ok(w),
            Some(e) => Err(e),
        }
    }

    #[verifier::opaque]
    pub open spec fn spec_decode(bytes: Seq<u8>) -> Result<SpecCMsgClientCheckAppBetaPasswordResponse, WireError> {
        Self::spec_merge(Self::spec_default(), bytes)
    }

    /// This message with one record applied to it, or, when the record is refused,
    /// the message unchanged and the reason.
    fn applied(self, f: &Field) -> (r: Result<Self, (Self, WireError)>)
        ensures
            match Self::spec_apply(self@, f@) {
                Ok(v) => r matches Ok(m) && m@ == v,
                Err(e) => r matches Err((m, x)) && x == e && m@ == self@,
            },
    {
        match f.number {
            1 => match read_i32(&f.value) {
                Ok(x) => Ok(Self { eresult: Some(x), ..self }),
                Err(e) => Err((self, e)),
            },
            4 => match read_payload(&f.value) {
                Ok(b) => match crate::steammessages_clientserver_2::c_msg_client_check_app_beta_password_response::BetaPassword::decode(b) {
                    Ok(x) => {
                        let mut m = self;
                        let ghost before = m.betapasswords@;
                        m.betapasswords.push(x);
                        assert(crate::steammessages_clientserver_2::c_msg_client_check_app_beta_password_response::BetaPassword::view_all(m.betapasswords@) =~= crate::steammessages_clientserver_2::c_msg_client_check_app_beta_password_response::BetaPassword::view_all(before).push(x@));
                        Ok(m)
                    },
                    Err(e) => Err((self, e)),
                },
                Err(e) => Err((self, e)),
            },
            _ => Ok(self),
        }
    }

    /// Reads the records `bytes` holds into this message, in order. When a record does
    /// not parse or is refused, the reading stops there: the message keeps what the
    /// records before it gave, and the error is returned.
    pub fn merge(&mut self, bytes: &[u8]) -> (r: Result<(), WireError>)
        ensures
            final(self)@ == merge_run(old(self)@, bytes@, Self::apply_fn()).0,
            r == match merge_run(old(self)@, bytes@, Self::apply_fn()).1 {
                None => Ok::<(), WireError>(()),
                Some(e) => Err::<(), WireError>(e),
            },
    {
        let ghost total = merge_run(self@, bytes@, Self::apply_fn());
        let mut cur = Self::default();
        std::mem::swap(&mut cur, self);
        let mut pos: usize = 0;
        assert(bytes@.skip(0) =~= bytes@);
        while pos < bytes.len()
            invariant
                pos <= bytes@.len(),
                total == merge_run(old(self)@, bytes@, Self::apply_fn()),
                merge_run(cur@, bytes@.skip(pos as int), Self::apply_fn()) == total,
            decreases bytes@.len() - pos,
        {
            let ghost s = bytes@.skip(pos as int);
            proof {
                lemma_merge_run_step(cur@, s, Self::apply_fn());
                lemma_parse_field_len(s);
            }
            match read_field(bytes, pos) {
                Ok((f, end)) => {
                    assert(bytes@.skip(end as int) =~= s.skip((end - pos) as int));
                    match cur.applied(&f) {
                        Ok(m) => {
                            cur = m;
                        },
                        Err((m, e)) => {
                            *self = m;
                            return Err(e);
                        },
                    }
                    pos = end;
                },
                Err(e) => {
                    *self = cur;
                    return Err(e);
                },
            }
        }
        assert(bytes@.skip(pos as int) =~= Seq::<u8>::empty());
        proof {
            lemma_merge_run_empty(cur@, Self::apply_fn());
        }
        *self = cur;
        Ok(())
    }

    /// Decodes a message from its encoding.
    pub fn decode(bytes: &[u8]) -> (r: Result<Self, WireError>)
        ensures
            match Self::spec_decode(bytes@) {
                Ok(v) => r matches Ok(m) && m@ == v,
                Err(e) => r matches Err(x) && x == e,
            },
    {
        proof {
            reveal(CMsgClientCheckAppBetaPasswordResponse::spec_decode);
        }
        let mut m = Self::default();
        match m.merge(bytes) {
            Ok(()) => Ok(m),
            Err(e) => Err(e),
        }
    }

    /// The encoding of this message.
    pub fn encode_to_vec(&self) -> (r: Vec<u8>)
        ensures
            r@ == Self::spec_encode(self@),
    {
        let enc_betapasswords = crate::steammessages_clientserver_2::c_msg_client_check_app_beta_password_response::BetaPassword::encode_all(&self.betapasswords);
        let ghost v = self@;
        let mut out: Vec<u8> = Vec::new();
        let ghost p0 = Seq::<SpecField>::empty();
        put_opt_i32(&mut out, 1, self.eresult);
        let ghost p1 = p0 + opt_i32(1, v.eresult);
        proof {
            lemma_fields_bytes_concat(p0, opt_i32(1, v.eresult));
        }
        put_rep_bytes(&mut out, 4, &enc_betapasswords);
        let ghost p2 = p1 + rep_bytes(4, crate::steammessages_clientserver_2::c_msg_client_check_app_beta_password_response::BetaPassword::spec_encode_all(v.betapasswords));
        proof {
            lemma_fields_bytes_concat(p1, rep_bytes(4, crate::steammessages_clientserver_2::c_msg_client_check_app_beta_password_response::BetaPassword::spec_encode_all(v.betapasswords)));
        }
        proof {
            reveal(CMsgClientCheckAppBetaPasswordResponse::spec_encode);
        }
        assert(p2 == Self::spec_fields(v));
        out
    }

    /// Appends the encoding of this message to `out`.
    pub fn encode_raw(&self, out: &mut Vec<u8>)
        ensures
            final(out)@ == old(out)@ + Self::spec_encode(self@),
    {
        let mut b = self.encode_to_vec();
        out.append(&mut b);
    }

    /// The first `k` fields of `v`, the others as a fresh message has them.
    #[verifier::opaque]
    pub open spec fn spec_prefix(v: SpecCMsgClientCheckAppBetaPasswordResponse, k: int) -> SpecCMsgClientCheckAppBetaPasswordResponse {
        SpecCMsgClientCheckAppBetaPasswordResponse {
            eresult: if 1 <= k { v.eresult } else { None },
            betapasswords: if 2 <= k { v.betapasswords } else { Seq::empty() },
        }
    }

    /// Reading field 1 back, after the fields before it.
    proof fn lemma_field_eresult(v: SpecCMsgClientCheckAppBetaPasswordResponse)
        ensures
            fold_fields(Self::spec_prefix(v, 0), opt_i32(1, v.eresult), Self::apply_fn())
                == Ok::<SpecCMsgClientCheckAppBetaPasswordResponse, WireError>(Self::spec_prefix(v, 1)),
    {
        reveal(CMsgClientCheckAppBetaPasswordResponse::spec_prefix);
        reveal(opt_i32);
        let apply = Self::apply_fn();
        let s = Self::spec_prefix(v, 0);
        lemma_fold_opt(s, 1, match v.eresult { Some(x) => Some(enc_i32(x)), None => None }, apply);
        if let Some(x) = v.eresult {
            lemma_i32_roundtrip(x);
        }
        assert(SpecCMsgClientCheckAppBetaPasswordResponse { eresult: v.eresult, ..s } == Self::spec_prefix(v, 1));
    }

    /// Reading field 4 back, after the fields before it.
    proof fn lemma_field_betapasswords(v: SpecCMsgClientCheckAppBetaPasswordResponse)
        requires
            fields_wf(rep_bytes(4, crate::steammessages_clientserver_2::c_msg_client_check_app_beta_password_response::BetaPassword::spec_encode_all(v.betapasswords))),
        ensures
            fold_fields(Self::spec_prefix(v, 1), rep_bytes(4, crate::steammessages_clientserver_2::c_msg_client_check_app_beta_password_response::BetaPassword::spec_encode_all(v.betapasswords)), Self::apply_fn())
                == Ok::<SpecCMsgClientCheckAppBetaPasswordResponse, WireError>(Self::spec_prefix(v, 2)),
    {
        reveal(CMsgClientCheckAppBetaPasswordResponse::spec_prefix);
        reveal(rep_bytes);
        reveal(fields_wf);
        let apply = Self::apply_fn();
        let s = Self::spec_prefix(v, 1);
        let l = rep_bytes(4, crate::steammessages_clientserver_2::c_msg_client_check_app_beta_password_response::BetaPassword::spec_encode_all(v.betapasswords));
        let xs = v.betapasswords;
        let st = Seq::new((xs.len() + 1) as nat, |j: int| SpecCMsgClientCheckAppBetaPasswordResponse { betapasswords: xs.take(j), ..s });
        assert forall|j: int| 0 <= j < l.len() implies #[trigger] apply(st[j], l[j]) == Ok::<SpecCMsgClientCheckAppBetaPasswordResponse, WireError>(st[j + 1]) by {
            assert(field_wf(l[j]));
            crate::steammessages_clientserver_2::c_msg_client_check_app_beta_password_response::BetaPassword::lemma_decode_encode(xs[j]);
            assert(xs.take(j).push(xs[j]) =~= xs.take(j + 1));
        }
        lemma_fold_chain(l, st, apply);
        assert(xs.take(0) =~= Seq::<crate::steammessages_clientserver_2::c_msg_client_check_app_beta_password_response::SpecBetaPassword>::empty());
        assert(xs.take(xs.len() as int) =~= xs);
        assert(st[0] == s);
        assert(st[xs.len() as int] == Self::spec_prefix(v, 2));
    }

    /// Whether this message declares field number `n`.
    pub open spec fn declares(n: u32) -> bool {
        n == 1 || n == 4
    }

    /// A record with a number this message does not declare is passed over: well-formed
    /// bytes decode to the same message with such a record after them as without it.
    pub proof fn lemma_unknown_field(bytes: Seq<u8>, f: SpecField)
        requires
            parse_fields(bytes) is Ok,
            field_wf(f),
            !Self::declares(f.number),
        ensures
            Self::spec_decode(bytes + field_bytes(f)) == Self::spec_decode(bytes),
    {
        reveal(CMsgClientCheckAppBetaPasswordResponse::spec_decode);
        lemma_parse_fields_append(bytes, f);
        let fs = parse_fields(bytes).unwrap();
        let apply = Self::apply_fn();
        lemma_fold_concat(Self::spec_default(), fs, seq![f], apply);
        assert(fs.push(f) =~= fs + seq![f]);
        if let Ok(w) = fold_fields(Self::spec_default(), fs, apply) {
            lemma_fold_single(w, f, apply);
        }
        lemma_merge_run_fold(Self::spec_default(), bytes, apply);
        lemma_merge_run_fold(Self::spec_default(), bytes + field_bytes(f), apply);
    }

    /// Decoding the encoding of a message gives the message back.
    pub proof fn lemma_decode_encode(v: SpecCMsgClientCheckAppBetaPasswordResponse)
        requires
            Self::spec_encode(v).len() <= u64::MAX,
        ensures
            Self::spec_decode(Self::spec_encode(v)) == Ok::<SpecCMsgClientCheckAppBetaPasswordResponse, WireError>(v),
    {
        let apply = Self::apply_fn();
        let d = Self::spec_default();
        let p0 = Seq::<SpecField>::empty();
        let l1 = opt_i32(1, v.eresult);
        let p1 = p0 + l1;
        let l2 = rep_bytes(4, crate::steammessages_clientserver_2::c_msg_client_check_app_beta_password_response::BetaPassword::spec_encode_all(v.betapasswords));
        let p2 = p1 + l2;
        assert(parse_fields(Self::spec_encode(v)) == Ok::<Seq<SpecField>, WireError>(p2) && fields_wf(l2)) by {
            reveal(CMsgClientCheckAppBetaPasswordResponse::spec_encode);
            assert(numbers_ok(p0) && fields_wf(p0)) by {
                reveal(numbers_ok);
                reveal(fields_wf);
            }
            lemma_opt_i32_numbered(1, v.eresult);
            lemma_fields_wf_concat(p0, l1);
            lemma_rep_bytes_numbered(4, crate::steammessages_clientserver_2::c_msg_client_check_app_beta_password_response::BetaPassword::spec_encode_all(v.betapasswords));
            lemma_fields_wf_concat(p1, l2);
            assert(p2 == Self::spec_fields(v));
            lemma_fields_wf_from_len(p2);
            lemma_fields_roundtrip(p2);
        }
        assert(Self::spec_prefix(v, 0) == d) by {
            reveal(CMsgClientCheckAppBetaPasswordResponse::spec_prefix);
        }
        lemma_fold_empty(d, apply);
        lemma_fold_concat(d, p0, l1, apply);
        Self::lemma_field_eresult(v);
        lemma_fold_concat(d, p1, l2, apply);
        Self::lemma_field_betapasswords(v);
        assert(Self::spec_prefix(v, 2) == v) by {
            reveal(CMsgClientCheckAppBetaPasswordResponse::spec_prefix);
        }
        lemma_merge_run_fold(d, Self::spec_encode(v), apply);
        assert(Self::spec_decode(Self::spec_encode(v)) == Ok::<SpecCMsgClientCheckAppBetaPasswordResponse, WireError>(v)) by {
            reveal(CMsgClientCheckAppBetaPasswordResponse::spec_decode);
        }
    }
}

/// `CMsgClientUGSGetGlobalStats`, as Valve's schema declares it.
#[derive(Debug, Clone, PartialEq)]
pub struct CMsgClientUGSGetGlobalStats {
    /// Field 1.
    pub gameid: Option<u64>,
    /// Field 2.
    pub history_days_requested: Option<u32>,
    /// Field 3.
    pub time_last_requested: Option<u32>,
    /// Field 4.
    pub first_day_cached: Option<u32>,
    /// Field 5.
    pub days_cached: Option<u32>,
}

/// What a `CMsgClientUGSGetGlobalStats` holds, as mathematical values.
#[verifier::ext_equal]
pub struct SpecCMsgClientUGSGetGlobalStats {
    pub gameid: Option<u64>,
    pub history_days_requested: Option<u32>,
    pub time_last_requested: Option<u32>,
    pub first_day_cached: Option<u32>,
    pub days_cached: Option<u32>,
}

impl View for CMsgClientUGSGetGlobalStats {
    type V = SpecCMsgClientUGSGetGlobalStats;

    open spec fn view(&self) -> SpecCMsgClientUGSGetGlobalStats {
        SpecCMsgClientUGSGetGlobalStats {
            gameid: self.gameid,
            history_days_requested: self.history_days_requested,
            time_last_requested: self.time_last_requested,
            first_day_cached: self.first_day_cached,
            days_cached: self.days_cached,
        }
    }
}

impl Default for CMsgClientUGSGetGlobalStats {
    fn default() -> (r: Self)
        ensures
            r@ == CMsgClientUGSGetGlobalStats::spec_default(),
    {
        CMsgClientUGSGetGlobalStats {
            gameid: None,
            history_days_requested: None,
            time_last_requested: None,
            first_day_cached: None,
            days_cached: None,
        }
    }
}

impl CMsgClientUGSGetGlobalStats {
    pub open spec fn spec_default() -> SpecCMsgClientUGSGetGlobalStats {
        SpecCMsgClientUGSGetGlobalStats {
            gameid: None,
            history_days_requested: None,
            time_last_requested: None,
            first_day_cached: None,
            days_cached: None,
        }
    }

    /// The records a `CMsgClientUGSGetGlobalStats` is written as, in field order.
    pub open spec fn spec_fields(v: SpecCMsgClientUGSGetGlobalStats) -> Seq<SpecField> {
        Seq::<SpecField>::empty()
            + opt_u64(1, v.gameid)
            + opt_u32(2, v.history_days_requested)
            + opt_fixed32(3, v.time_last_requested)
            + opt_u32(4, v.first_day_cached)
            + opt_u32(5, v.days_cached)
    }

    #[verifier::opaque]
    pub open spec fn spec_encode(v: SpecCMsgClientUGSGetGlobalStats) -> Seq<u8> {
        fields_bytes(Self::spec_fields(v))
    }

    /// What one record does to the message: a declared number sets or extends its
    /// field, any other number is left alone.
    pub open spec fn spec_apply(v: SpecCMsgClientUGSGetGlobalStats, f: SpecField) -> Result<SpecCMsgClientUGSGetGlobalStats, WireError> {
        match f.number {
            1 => match dec_u64(f.value) {
                Ok(x) => Ok(SpecCMsgClientUGSGetGlobalStats { gameid: Some(x), ..v }),
                Err(e) => Err(e),
            },
            2 => match dec_u32(f.value) {
                Ok(x) => Ok(SpecCMsgClientUGSGetGlobalStats { history_days_requested: Some(x), ..v }),
                Err(e) => Err(e),
            },
            3 => match dec_fixed32(f.value) {
                Ok(x) => Ok(SpecCMsgClientUGSGetGlobalStats { time_last_requested: Some(x), ..v }),
                Err(e) => Err(e),
            },
            4 => match dec_u32(f.value) {
                Ok(x) => Ok(SpecCMsgClientUGSGetGlobalStats { first_day_cached: Some(x), ..v }),
                Err(e) => Err(e),
            },
            5 => match dec_u32(f.value) {
                Ok(x) => Ok(SpecCMsgClientUGSGetGlobalStats { days_cached: Some(x), ..v }),
                Err(e) => Err(e),
            },
            _ => Ok(v),
        }
    }

    pub open spec fn apply_fn() -> spec_fn(SpecCMsgClientUGSGetGlobalStats, SpecField) -> Result<SpecCMsgClientUGSGetGlobalStats, WireError> {
        |v: SpecCMsgClientUGSGetGlobalStats, f: SpecField| Self::spec_apply(v, f)
    }

    /// The message `bytes` makes of `v`: its records applied in order, or the error
    /// that stops the reading.
    pub open spec fn spec_merge(v: SpecCMsgClientUGSGetGlobalStats, bytes: Seq<u8>) -> Result<SpecCMsgClientUGSGetGlobalStats, WireError> {
        let (w, stop) = merge_run(v, bytes, Self::apply_fn());
        match stop {
            None => Ok(w),
            Some(e) => Err(e),
        }
    }

    #[verifier::opaque]
    pub open spec fn spec_decode(bytes: Seq<u8>) -> Result<SpecCMsgClientUGSGetGlobalStats, WireError> {
        Self::spec_merge(Self::spec_default(), bytes)
    }

    /// This message with one record applied to it, or, when the record is refused,
    /// the message unchanged and the reason.
    fn applied(self, f: &Field) -> (r: Result<Self, (Self, WireError)>)
        ensures
            match Self::spec_apply(self@, f@) {
                Ok(v) => r matches Ok(m) && m@ == v,
                Err(e) => r matches Err((m, x)) && x == e && m@ == self@,
            },
    {
        match f.number {
            1 => match read_u64(&f.value) {
                Ok(x) => Ok(Self { gameid: Some(x), ..self }),
                Err(e) => Err((self, e)),
            },
            2 => match read_u32(&f.value) {
                Ok(x) => Ok(Self { history_days_requested: Some(x), ..self }),
                Err(e) => Err((self, e)),
            },
            3 => match read_fixed32(&f.value) {
                Ok(x) => Ok(Self { time_last_requested: Some(x), ..self }),
                Err(e) => Err((self, e)),
            },
            4 => match read_u32(&f.value) {
                Ok(x) => Ok(Self { first_day_cached: Some(x), ..self }),
                Err(e) => Err((self, e)),
            },
            5 => match read_u32(&f.value) {
                Ok(x) => Ok(Self { days_cached: Some(x), ..self }),
                Err(e) => Err((self, e)),
            },
            _ => Ok(self),
        }
    }

    /// Reads the records `bytes` holds into this message, in order. When a record does
    /// not parse or is refused, the reading stops there: the message keeps what the
    /// records before it gave, and the error is returned.
    pub fn merge(&mut self, bytes: &[u8]) -> (r: Result<(), WireError>)
        ensures
            final(self)@ == merge_run(old(self)@, bytes@, Self::apply_fn()).0,
            r == match merge_run(old(self)@, bytes@, Self::apply_fn()).1 {
                None => Ok::<(), WireError>(()),
                Some(e) => Err::<(), WireError>(e),
            },
    {
        let ghost total = merge_run(self@, bytes@, Self::apply_fn());
        let mut cur = Self::default();
        std::mem::swap(&mut cur, self);
        let mut pos: usize = 0;
        assert(bytes@.skip(0) =~= bytes@);
        while pos < bytes.len()
            invariant
                pos <= bytes@.len(),
                total == merge_run(old(self)@, bytes@, Self::apply_fn()),
                merge_run(cur@, bytes@.skip(pos as int), Self::apply_fn()) == total,
            decreases bytes@.len() - pos,
        {
            let ghost s = bytes@.skip(pos as int);
            proof {
                lemma_merge_run_step(cur@, s, Self::apply_fn());
                lemma_parse_field_len(s);
            }
            match read_field(bytes, pos) {
                Ok((f, end)) => {
                    assert(bytes@.skip(end as int) =~= s.skip((end - pos) as int));
                    match cur.applied(&f) {
                        Ok(m) => {
                            cur = m;
                        },
                        Err((m, e)) => {
                            *self = m;
                            return Err(e);
                        },
                    }
                    pos = end;
                },
                Err(e) => {
                    *self = cur;
                    return Err(e);
                },
            }
        }
        assert(bytes@.skip(pos as int) =~= Seq::<u8>::empty());
        proof {
            lemma_merge_run_empty(cur@, Self::apply_fn());
        }
        *self = cur;
        Ok(())
    }

    /// Decodes a message from its encoding.
    pub fn decode(bytes: &[u8]) -> (r: Result<Self, WireError>)
        ensures
            match Self::spec_decode(bytes@) {
                Ok(v) => r matches Ok(m) && m@ == v,
                Err(e) => r matches Err(x) && x == e,
            },
    {
        proof {
            reveal(CMsgClientUGSGetGlobalStats::spec_decode);
        }
        let mut m = Self::default();
        match m.merge(bytes) {
            Ok(()) => Ok(m),
            Err(e) => Err(e),
        }
    }

    /// The encoding of this message.
    pub fn encode_to_vec(&self) -> (r: Vec<u8>)
        ensures
            r@ == Self::spec_encode(self@),
    {
        let ghost v = self@;
        let mut out: Vec<u8> = Vec::new();
        let ghost p0 = Seq::<SpecField>::empty();
        put_opt_varint(&mut out, 1, self.gameid);
        let ghost p1 = p0 + opt_u64(1, v.gameid);
        proof {
            lemma_fields_bytes_concat(p0, opt_u64(1, v.gameid));
        }
        put_opt_u32(&mut out, 2, self.history_days_requested);
        let ghost p2 = p1 + opt_u32(2, v.history_days_requested);
        proof {
            lemma_fields_bytes_concat(p1, opt_u32(2, v.history_days_requested));
        }
        put_opt_fixed32(&mut out, 3, self.time_last_requested);
        let ghost p3 = p2 + opt_fixed32(3, v.time_last_requested);
        proof {
            lemma_fields_bytes_concat(p2, opt_fixed32(3, v.time_last_requested));
        }
        put_opt_u32(&mut out, 4, self.first_day_cached);
        let ghost p4 = p3 + opt_u32(4, v.first_day_cached);
        proof {
            lemma_fields_bytes_concat(p3, opt_u32(4, v.first_day_cached));
        }
        put_opt_u32(&mut out, 5, self.days_cached);
        let ghost p5 = p4 + opt_u32(5, v.days_cached);
        proof {
            lemma_fields_bytes_concat(p4, opt_u32(5, v.days_cached));
        }
        proof {
            reveal(CMsgClientUGSGetGlobalStats::spec_encode);
        }
        assert(p5 == Self::spec_fields(v));
        out
    }

    /// Appends the encoding of this message to `out`.
    pub fn encode_raw(&self, out: &mut Vec<u8>)
        ensures
            final(out)@ == old(out)@ + Self::spec_encode(self@),
    {
        let mut b = self.encode_to_vec();
        out.append(&mut b);
    }

    /// The first `k` fields of `v`, the others as a fresh message has them.
    #[verifier::opaque]
    pub open spec fn spec_prefix(v: SpecCMsgClientUGSGetGlobalStats, k: int) -> SpecCMsgClientUGSGetGlobalStats {
        SpecCMsgClientUGSGetGlobalStats {
            gameid: if 1 <= k { v.gameid } else { None },
            history_days_requested: if 2 <= k { v.history_days_requested } else { None },
            time_last_requested: if 3 <= k { v.time_last_requested } else { None },
            first_day_cached: if 4 <= k { v.first_day_cached } else { None },
            days_cached: if 5 <= k { v.days_cached } else { None },
        }
    }

    /// Reading field 1 back, after the fields before it.
    proof fn lemma_field_gameid(v: SpecCMsgClientUGSGetGlobalStats)
        ensures
            fold_fields(Self::spec_prefix(v, 0), opt_u64(1, v.gameid), Self::apply_fn())
                == Ok::<SpecCMsgClientUGSGetGlobalStats, WireError>(Self::spec_prefix(v, 1)),
    {
        reveal(CMsgClientUGSGetGlobalStats::spec_prefix);
        reveal(opt_u64);
        let apply = Self::apply_fn();
        let s = Self::spec_prefix(v, 0);
        lemma_fold_opt(s, 1, match v.gameid { Some(x) => Some(enc_u64(x)), None => None }, apply);
        if let Some(x) = v.gameid {
            lemma_u64_roundtrip(x);
        }
        assert(SpecCMsgClientUGSGetGlobalStats { gameid: v.gameid, ..s } == Self::spec_prefix(v, 1));
    }

    /// Reading field 2 back, after the fields before it.
    proof fn lemma_field_history_days_requested(v: SpecCMsgClientUGSGetGlobalStats)
        ensures
            fold_fields(Self::spec_prefix(v, 1), opt_u32(2, v.history_days_requested), Self::apply_fn())
                == Ok::<SpecCMsgClientUGSGetGlobalStats, WireError>(Self::spec_prefix(v, 2)),
    {
        reveal(CMsgClientUGSGetGlobalStats::spec_prefix);
        reveal(opt_u32);
        let apply = Self::apply_fn();
        let s = Self::spec_prefix(v, 1);
        lemma_fold_opt(s, 2, match v.history_days_requested { Some(x) => Some(enc_u32(x)), None => None }, apply);
        if let Some(x) = v.history_days_requested {
            lemma_u32_roundtrip(x);
        }
        assert(SpecCMsgClientUGSGetGlobalStats { history_days_requested: v.history_days_requested, ..s } == Self::spec_prefix(v, 2));
    }

    /// Reading field 3 back, after the fields before it.
    proof fn lemma_field_time_last_requested(v: SpecCMsgClientUGSGetGlobalStats)
        ensures
            fold_fields(Self::spec_prefix(v, 2), opt_fixed32(3, v.time_last_requested), Self::apply_fn())
                == Ok::<SpecCMsgClientUGSGetGlobalStats, WireError>(Self::spec_prefix(v, 3)),
    {
        reveal(CMsgClientUGSGetGlobalStats::spec_prefix);
        reveal(opt_fixed32);
        let apply = Self::apply_fn();
        let s = Self::spec_prefix(v, 2);
        lemma_fold_opt(s, 3, match v.time_last_requested { Some(x) => Some(enc_fixed32(x)), None => None }, apply);
        assert(SpecCMsgClientUGSGetGlobalStats { time_last_requested: v.time_last_requested, ..s } == Self::spec_prefix(v, 3));
    }

    /// Reading field 4 back, after the fields before it.
    proof fn lemma_field_first_day_cached(v: SpecCMsgClientUGSGetGlobalStats)
        ensures
            fold_fields(Self::spec_prefix(v, 3), opt_u32(4, v.first_day_cached), Self::apply_fn())
                == Ok::<SpecCMsgClientUGSGetGlobalStats, WireError>(Self::spec_prefix(v, 4)),
    {
        reveal(CMsgClientUGSGetGlobalStats::spec_prefix);
        reveal(opt_u32);
        let apply = Self::apply_fn();
        let s = Self::spec_prefix(v, 3);
        lemma_fold_opt(s, 4, match v.first_day_cached { Some(x) => Some(enc_u32(x)), None => None }, apply);
        if let Some(x) = v.first_day_cached {
            lemma_u32_roundtrip(x);
        }
        assert(SpecCMsgClientUGSGetGlobalStats { first_day_cached: v.first_day_cached, ..s } == Self::spec_prefix(v, 4));
    }

    /// Reading field 5 back, after the fields before it.
    proof fn lemma_field_days_cached(v: SpecCMsgClientUGSGetGlobalStats)
        ensures
            fold_fields(Self::spec_prefix(v, 4), opt_u32(5, v.days_cached), Self::apply_fn())
                == Ok::<SpecCMsgClientUGSGetGlobalStats, WireError>(Self::spec_prefix(v, 5)),
    {
        reveal(CMsgClientUGSGetGlobalStats::spec_prefix);
        reveal(opt_u32);
        let apply = Self::apply_fn();
        let s = Self::spec_prefix(v, 4);
        lemma_fold_opt(s, 5, match v.days_cached { Some(x) => Some(enc_u32(x)), None => None }, apply);
        if let Some(x) = v.days_cached {
            lemma_u32_roundtrip(x);
        }
        assert(SpecCMsgClientUGSGetGlobalStats { days_cached: v.days_cached, ..s } == Self::spec_prefix(v, 5));
    }

    /// Whether this message declares field number `n`.
    pub open spec fn declares(n: u32) -> bool {
        n == 1 || n == 2 || n == 3 || n == 4 || n == 5
    }

    /// A record with a number this message does not declare is passed over: well-formed
    /// bytes decode to the same message with such a record after them as without it.
    pub proof fn lemma_unknown_field(bytes: Seq<u8>, f: SpecField)
        requires
            parse_fields(bytes) is Ok,
            field_wf(f),
            !Self::declares(f.number),
        ensures
            Self::spec_decode(bytes + field_bytes(f)) == Self::spec_decode(bytes),
    {
        reveal(CMsgClientUGSGetGlobalStats::spec_decode);
        lemma_parse_fields_append(bytes, f);
        let fs = parse_fields(bytes).unwrap();
        let apply = Self::apply_fn();
        lemma_fold_concat(Self::spec_default(), fs, seq![f], apply);
        assert(fs.push(f) =~= fs + seq![f]);
        if let Ok(w) = fold_fields(Self::spec_default(), fs, apply) {
            lemma_fold_single(w, f, apply);
        }
        lemma_merge_run_fold(Self::spec_default(), bytes, apply);
        lemma_merge_run_fold(Self::spec_default(), bytes + field_bytes(f), apply);
    }

    /// Decoding the encoding of a message gives the message back.
    pub proof fn lemma_decode_encode(v: SpecCMsgClientUGSGetGlobalStats)
        requires
            Self::spec_encode(v).len() <= u64::MAX,
        ensures
            Self::spec_decode(Self::spec_encode(v)) == Ok::<SpecCMsgClientUGSGetGlobalStats, WireError>(v),
    {
        let apply = Self::apply_fn();
        let d = Self::spec_default();
        let p0 = Seq::<SpecField>::empty();
        let l1 = opt_u64(1, v.gameid);
        let p1 = p0 + l1;
        let l2 = opt_u32(2, v.history_days_requested);
        let p2 = p1 + l2;
        let l3 = opt_fixed32(3, v.time_last_requested);
        let p3 = p2 + l3;
        let l4 = opt_u32(4, v.first_day_cached);
        let p4 = p3 + l4;
        let l5 = opt_u32(5, v.days_cached);
        let p5 = p4 + l5;
        assert(parse_fields(Self::spec_encode(v)) == Ok::<Seq<SpecField>, WireError>(p5)) by {
            reveal(CMsgClientUGSGetGlobalStats::spec_encode);
            assert(numbers_ok(p0) && fields_wf(p0)) by {
                reveal(numbers_ok);
                reveal(fields_wf);
            }
            lemma_opt_u64_numbered(1, v.gameid);
            lemma_fields_wf_concat(p0, l1);
            lemma_opt_u32_numbered(2, v.history_days_requested);
            lemma_fields_wf_concat(p1, l2);
            lemma_opt_fixed32_numbered(3, v.time_last_requested);
            lemma_fields_wf_concat(p2, l3);
            lemma_opt_u32_numbered(4, v.first_day_cached);
            lemma_fields_wf_concat(p3, l4);
            lemma_opt_u32_numbered(5, v.days_cached);
            lemma_fields_wf_concat(p4, l5);
            assert(p5 == Self::spec_fields(v));
            lemma_fields_wf_from_len(p5);
            lemma_fields_roundtrip(p5);
        }
        assert(Self::spec_prefix(v, 0) == d) by {
            reveal(CMsgClientUGSGetGlobalStats::spec_prefix);
        }
        lemma_fold_empty(d, apply);
        lemma_fold_concat(d, p0, l1, apply);
        Self::lemma_field_gameid(v);
        lemma_fold_concat(d, p1, l2, apply);
        Self::lemma_field_history_days_requested(v);
        lemma_fold_concat(d, p2, l3, apply);
        Self::lemma_field_time_last_requested(v);
        lemma_fold_concat(d, p3, l4, apply);
        Self::lemma_field_first_day_cached(v);
        lemma_fold_concat(d, p4, l5, apply);
        Self::lemma_field_days_cached(v);
        assert(Self::spec_prefix(v, 5) == v) by {
            reveal(CMsgClientUGSGetGlobalStats::spec_prefix);
        }
        lemma_merge_run_fold(d, Self::spec_encode(v), apply);
        assert(Self::spec_decode(Self::spec_encode(v)) == Ok::<SpecCMsgClientUGSGetGlobalStats, WireError>(v)) by {
            reveal(CMsgClientUGSGetGlobalStats::spec_decode);
        }
    }
}

/// `CMsgClientUGSGetGlobalStatsResponse`, as Valve's schema declares it.
#[derive(Debug, Clone, PartialEq)]
pub struct CMsgClientUGSGetGlobalStatsResponse {
    /// Field 1.
    pub eresult: Option<i32>,
    /// Field 2.
    pub timestamp: Option<u32>,
    /// Field 3.
    pub day_current: Option<i32>,
    /// Field 4.
    pub days: Vec<crate::steammessages_clientserver_2::c_msg_client_ugs_get_global_stats_response::Day>,
}

/// What a `CMsgClientUGSGetGlobalStatsResponse` holds, as mathematical values.
#[verifier::ext_equal]
pub struct SpecCMsgClientUGSGetGlobalStatsResponse {
    pub eresult: Option<i32>,
    pub timestamp: Option<u32>,
    pub day_current: Option<i32>,
    pub days: Seq<crate::steammessages_clientserver_2::c_msg_client_ugs_get_global_stats_response::SpecDay>,
}

impl View for CMsgClientUGSGetGlobalStatsResponse {
    type V = SpecCMsgClientUGSGetGlobalStatsResponse;

    open spec fn view(&self) -> SpecCMsgClientUGSGetGlobalStatsResponse {
        SpecCMsgClientUGSGetGlobalStatsResponse {
            eresult: self.eresult,
            timestamp: self.timestamp,
            day_current: self.day_current,
            days: crate::steammessages_clientserver_2::c_msg_client_ugs_get_global_stats_response::Day::view_all(self.days@),
        }
    }
}

impl Default for CMsgClientUGSGetGlobalStatsResponse {
    fn default() -> (r: Self)
        ensures
            r@ == CMsgClientUGSGetGlobalStatsResponse::spec_default(),
    {
        CMsgClientUGSGetGlobalStatsResponse {
            eresult: None,
            timestamp: None,
            day_current: None,
            days: Vec::new(),
        }
    }
}

impl CMsgClientUGSGetGlobalStatsResponse {
    /// Field 1, or its schema default when absent.
    pub fn eresult_or_default(&self) -> (r: i32)
        ensures
            r == match self.eresult {
                Some(x) => x,
                None => 2i32,
            },
    {
        self.eresult.unwrap_or(2i32)
    }

    pub open spec fn spec_default() -> SpecCMsgClientUGSGetGlobalStatsResponse {
        SpecCMsgClientUGSGetGlobalStatsResponse {
            eresult: None,
            timestamp: None,
            day_current: None,
            days: Seq::empty(),
        }
    }

    /// The records a `CMsgClientUGSGetGlobalStatsResponse` is written as, in field order.
    pub open spec fn spec_fields(v: SpecCMsgClientUGSGetGlobalStatsResponse) -> Seq<SpecField> {
        Seq::<SpecField>::empty()
            + opt_i32(1, v.eresult)
            + opt_fixed32(2, v.timestamp)
            + opt_i32(3, v.day_current)
            + rep_bytes(4, crate::steammessages_clientserver_2::c_msg_client_ugs_get_global_stats_response::Day::spec_encode_all(v.days))
    }

    #[verifier::opaque]
    pub open spec fn spec_encode(v: SpecCMsgClientUGSGetGlobalStatsResponse) -> Seq<u8> {
        fields_bytes(Self::spec_fields(v))
    }

    /// What one record does to the message: a declared number sets or extends its
    /// field, any other number is left alone.
    pub open spec fn spec_apply(v: SpecCMsgClientUGSGetGlobalStatsResponse, f: SpecField) -> Result<SpecCMsgClientUGSGetGlobalStatsResponse, WireError> {
        match f.number {
            1 => match dec_i32(f.value) {
                Ok(x) => Ok(SpecCMsgClientUGSGetGlobalStatsResponse { eresult: Some(x), ..v }),
                Err(e) => Err(e),
            },
            2 => match dec_fixed32(f.value) {
                Ok(x) => Ok(SpecCMsgClientUGSGetGlobalStatsResponse { timestamp: Some(x), ..v }),
                Err(e) => Err(e),
            },
            3 => match dec_i32(f.value) {
                Ok(x) => Ok(SpecCMsgClientUGSGetGlobalStatsResponse { day_current: Some(x), ..v }),
                Err(e) => Err(e),
            },
            4 => match dec_bytes(f.value) {
                Ok(b) => match crate::steammessages_clientserver_2::c_msg_client_ugs_get_global_stats_response::Day::spec_decode(b) {
                    Ok(m) => Ok(SpecCMsgClientUGSGetGlobalStatsResponse { days: v.days.push(m), ..v }),
                    Err(e) => Err(e),
                },
                Err(e) => Err(e),
            },
            _ => Ok(v),
        }
    }

    pub open spec fn apply_fn() -> spec_fn(SpecCMsgClientUGSGetGlobalStatsResponse, SpecField) -> Result<SpecCMsgClientUGSGetGlobalStatsResponse, WireError> {
        |v: SpecCMsgClientUGSGetGlobalStatsResponse, f: SpecField| Self::spec_apply(v, f)
    }

    /// The message `bytes` makes of `v`: its records applied in order, or the error
    /// that stops the reading.
    pub open spec fn spec_merge(v: SpecCMsgClientUGSGetGlobalStatsResponse, bytes: Seq<u8>) -> Result<SpecCMsgClientUGSGetGlobalStatsResponse, WireError> {
        let (w, stop) = merge_run(v, bytes, Self::apply_fn());
        match stop {
            None => Ok(w),
            Some(e) => Err(e),
        }
    }

    #[verifier::opaque]
    pub open spec fn spec_decode(bytes: Seq<u8>) -> Result<SpecCMsgClientUGSGetGlobalStatsResponse, WireError> {
        Self::spec_merge(Self::spec_default(), bytes)
    }

    /// This message with one record applied to it, or, when the record is refused,
    /// the message unchanged and the reason.
    fn applied(self, f: &Field) -> (r: Result<Self, (Self, WireError)>)
        ensures
            match Self::spec_apply(self@, f@) {
                Ok(v) => r matches Ok(m) && m@ == v,
                Err(e) => r matches Err((m, x)) && x == e && m@ == self@,
            },
    {
        match f.number {
            1 => match read_i32(&f.value) {
                Ok(x) => Ok(Self { eresult: Some(x), ..self }),
                Err(e) => Err((self, e)),
            },
            2 => match read_fixed32(&f.value) {
                Ok(x) => Ok(Self { timestamp: Some(x), ..self }),
                Err(e) => Err((self, e)),
            },
            3 => match read_i32(&f.value) {
                Ok(x) => Ok(Self { day_current: Some(x), ..self }),
                Err(e) => Err((self, e)),
            },
            4 => match read_payload(&f.value) {
                Ok(b) => match crate::steammessages_clientserver_2::c_msg_client_ugs_get_global_stats_response::Day::decode(b) {
                    Ok(x) => {
                        let mut m = self;
                        let ghost before = m.days@;
                        m.days.push(x);
                        assert(crate::steammessages_clientserver_2::c_msg_client_ugs_get_global_stats_response::Day::view_all(m.days@) =~= crate::steammessages_clientserver_2::c_msg_client_ugs_get_global_stats_response::Day::view_all(before).push(x@));
                        Ok(m)
                    },
                    Err(e) => Err((self, e)),
                },
                Err(e) => Err((self, e)),
            },
            _ => Ok(self),
        }
    }

    /// Reads the records `bytes` holds into this message, in order. When a record does
    /// not parse or is refused, the reading stops there: the message keeps what the
    /// records before it gave, and the error is returned.
    pub fn merge(&mut self, bytes: &[u8]) -> (r: Result<(), WireError>)
        ensures
            final(self)@ == merge_run(old(self)@, bytes@, Self::apply_fn()).0,
            r == match merge_run(old(self)@, bytes@, Self::apply_fn()).1 {
                None => Ok::<(), WireError>(()),
                Some(e) => Err::<(), WireError>(e),
            },
    {
        let ghost total = merge_run(self@, bytes@, Self::apply_fn());
        let mut cur = Self::default();
        std::mem::swap(&mut cur, self);
        let mut pos: usize = 0;
        assert(bytes@.skip(0) =~= bytes@);
        while pos < bytes.len()
            invariant
                pos <= bytes@.len(),
                total == merge_run(old(self)@, bytes@, Self::apply_fn()),
                merge_run(cur@, bytes@.skip(pos as int), Self::apply_fn()) == total,
            decreases bytes@.len() - pos,
        {
            let ghost s = bytes@.skip(pos as int);
            proof {
                lemma_merge_run_step(cur@, s, Self::apply_fn());
                lemma_parse_field_len(s);
            }
            match read_field(bytes, pos) {
                Ok((f, end)) => {
                    assert(bytes@.skip(end as int) =~= s.skip((end - pos) as int));
                    match cur.applied(&f) {
                        Ok(m) => {
                            cur = m;
                        },
                        Err((m, e)) => {
                            *self = m;
                            return Err(e);
                        },
                    }
                    pos = end;
                },
                Err(e) => {
                    *self = cur;
                    return Err(e);
                },
            }
        }
        assert(bytes@.skip(pos as int) =~= Seq::<u8>::empty());
        proof {
            lemma_merge_run_empty(cur@, Self::apply_fn());
        }
        *self = cur;
        Ok(())
    }

    /// Decodes a message from its encoding.
    pub fn decode(bytes: &[u8]) -> (r: Result<Self, WireError>)
        ensures
            match Self::spec_decode(bytes@) {
                Ok(v) => r matches Ok(m) && m@ == v,
                Err(e) => r matches Err(x) && x == e,
            },
    {
        proof {
            reveal(CMsgClientUGSGetGlobalStatsResponse::spec_decode);
        }
        let mut m = Self::default();
        match m.merge(bytes) {
            Ok(()) => Ok(m),
            Err(e) => Err(e),
        }
    }

    /// The encoding of this message.
    pub fn encode_to_vec(&self) -> (r: Vec<u8>)
        ensures
            r@ == Self::spec_encode(self@),
    {
        let enc_days = crate::steammessages_clientserver_2::c_msg_client_ugs_get_global_stats_response::Day::encode_all(&self.days);
        let ghost v = self@;
        let mut out: Vec<u8> = Vec::new();
        let ghost p0 = Seq::<SpecField>::empty();
        put_opt_i32(&mut out, 1, self.eresult);
        let ghost p1 = p0 + opt_i32(1, v.eresult);
        proof {
            lemma_fields_bytes_concat(p0, opt_i32(1, v.eresult));
        }
        put_opt_fixed32(&mut out, 2, self.timestamp);
        let ghost p2 = p1 + opt_fixed32(2, v.timestamp);
        proof {
            lemma_fields_bytes_concat(p1, opt_fixed32(2, v.timestamp));
        }
        put_opt_i32(&mut out, 3, self.day_current);
        let ghost p3 = p2 + opt_i32(3, v.day_current);
        proof {
            lemma_fields_bytes_concat(p2, opt_i32(3, v.day_current));
        }
        put_rep_bytes(&mut out, 4, &enc_days);
        let ghost p4 = p3 + rep_bytes(4, crate::steammessages_clientserver_2::c_msg_client_ugs_get_global_stats_response::Day::spec_encode_all(v.days));
        proof {
            lemma_fields_bytes_concat(p3, rep_bytes(4, crate::steammessages_clientserver_2::c_msg_client_ugs_get_global_stats_response::Day::spec_encode_all(v.days)));
        }
        proof {
            reveal(CMsgClientUGSGetGlobalStatsResponse::spec_encode);
        }
        assert(p4 == Self::spec_fields(v));
        out
    }

    /// Appends the encoding of this message to `out`.
    pub fn encode_raw(&self, out: &mut Vec<u8>)
        ensures
            final(out)@ == old(out)@ + Self::spec_encode(self@),
    {
        let mut b = self.encode_to_vec();
        out.append(&mut b);
    }

    /// The first `k` fields of `v`, the others as a fresh message has them.
    #[verifier::opaque]
    pub open spec fn spec_prefix(v: SpecCMsgClientUGSGetGlobalStatsResponse, k: int) -> SpecCMsgClientUGSGetGlobalStatsResponse {
        SpecCMsgClientUGSGetGlobalStatsResponse {
            eresult: if 1 <= k { v.eresult } else { None },
            timestamp: if 2 <= k { v.timestamp } else { None },
            day_current: if 3 <= k { v.day_current } else { None },
            days: if 4 <= k { v.days } else { Seq::empty() },
        }
    }

    /// Reading field 1 back, after the fields before it.
    proof fn lemma_field_eresult(v: SpecCMsgClientUGSGetGlobalStatsResponse)
        ensures
            fold_fields(Self::spec_prefix(v, 0), opt_i32(1, v.eresult), Self::apply_fn())
                == Ok::<SpecCMsgClientUGSGetGlobalStatsResponse, WireError>(Self::spec_prefix(v, 1)),
    {
        reveal(CMsgClientUGSGetGlobalStatsResponse::spec_prefix);
        reveal(opt_i32);
        let apply = Self::apply_fn();
        let s = Self::spec_prefix(v, 0);
        lemma_fold_opt(s, 1, match v.eresult { Some(x) => Some(enc_i32(x)), None => None }, apply);
        if let Some(x) = v.eresult {
            lemma_i32_roundtrip(x);
        }
        assert(SpecCMsgClientUGSGetGlobalStatsResponse { eresult: v.eresult, ..s } == Self::spec_prefix(v, 1));
    }

    /// Reading field 2 back, after the fields before it.
    proof fn lemma_field_timestamp(v: SpecCMsgClientUGSGetGlobalStatsResponse)
        ensures
            fold_fields(Self::spec_prefix(v, 1), opt_fixed32(2, v.timestamp), Self::apply_fn())
                == Ok::<SpecCMsgClientUGSGetGlobalStatsResponse, WireError>(Self::spec_prefix(v, 2)),
    {
        reveal(CMsgClientUGSGetGlobalStatsResponse::spec_prefix);
        reveal(opt_fixed32);
        let apply = Self::apply_fn();
        let s = Self::spec_prefix(v, 1);
        lemma_fold_opt(s, 2, match v.timestamp { Some(x) => Some(enc_fixed32(x)), None => None }, apply);
        assert(SpecCMsgClientUGSGetGlobalStatsResponse { timestamp: v.timestamp, ..s } == Self::spec_prefix(v, 2));
    }

    /// Reading field 3 back, after the fields before it.
    proof fn lemma_field_day_current(v: SpecCMsgClientUGSGetGlobalStatsResponse)
        ensures
            fold_fields(Self::spec_prefix(v, 2), opt_i32(3, v.day_current), Self::apply_fn())
                == Ok::<SpecCMsgClientUGSGetGlobalStatsResponse, WireError>(Self::spec_prefix(v, 3)),
    {
        reveal(CMsgClientUGSGetGlobalStatsResponse::spec_prefix);
        reveal(opt_i32);
        let apply = Self::apply_fn();
        let s = Self::spec_prefix(v, 2);
        lemma_fold_opt(s, 3, match v.day_current { Some(x) => Some(enc_i32(x)), None => None }, apply);
        if let Some(x) = v.day_current {
            lemma_i32_roundtrip(x);
        }
        assert(SpecCMsgClientUGSGetGlobalStatsResponse { day_current: v.day_current, ..s } == Self::spec_prefix(v, 3));
    }

    /// Reading field 4 back, after the fields before it.
    proof fn lemma_field_days(v: SpecCMsgClientUGSGetGlobalStatsResponse)
        requires
            fields_wf(rep_bytes(4, crate::steammessages_clientserver_2::c_msg_client_ugs_get_global_stats_response::Day::spec_encode_all(v.days))),
        ensures
            fold_fields(Self::spec_prefix(v, 3), rep_bytes(4, crate::steammessages_clientserver_2::c_msg_client_ugs_get_global_stats_response::Day::spec_encode_all(v.days)), Self::apply_fn())
                == Ok::<SpecCMsgClientUGSGetGlobalStatsResponse, WireError>(Self::spec_prefix(v, 4)),
    {
        reveal(CMsgClientUGSGetGlobalStatsResponse::spec_prefix);
        reveal(rep_bytes);
        reveal(fields_wf);
        let apply = Self::apply_fn();
        let s = Self::spec_prefix(v, 3);
        let l = rep_bytes(4, crate::steammessages_clientserver_2::c_msg_client_ugs_get_global_stats_response::Day::spec_encode_all(v.days));
        let xs = v.days;
        let st = Seq::new((xs.len() + 1) as nat, |j: int| SpecCMsgClientUGSGetGlobalStatsResponse { days: xs.take(j), ..s });
        assert forall|j: int| 0 <= j < l.len() implies #[trigger] apply(st[j], l[j]) == Ok::<SpecCMsgClientUGSGetGlobalStatsResponse, WireError>(st[j + 1]) by {
            assert(field_wf(l[j]));
            crate::steammessages_clientserver_2::c_msg_client_ugs_get_global_stats_response::Day::lemma_decode_encode(xs[j]);
            assert(xs.take(j).push(xs[j]) =~= xs.take(j + 1));
        }
        lemma_fold_chain(l, st, apply);
        assert(xs.take(0) =~= Seq::<crate::steammessages_clientserver_2::c_msg_client_ugs_get_global_stats_response::SpecDay>::empty());
        assert(xs.take(xs.len() as int) =~= xs);
        assert(st[0] == s);
        assert(st[xs.len() as int] == Self::spec_prefix(v, 4));
    }

    /// Whether this message declares field number `n`.
    pub open spec fn declares(n: u32) -> bool {
        n == 1 || n == 2 || n == 3 || n == 4
    }

    /// A record with a number this message does not declare is passed over: well-formed
    /// bytes decode to the same message with such a record after them as without it.
    pub proof fn lemma_unknown_field(bytes: Seq<u8>, f: SpecField)
        requires
            parse_fields(bytes) is Ok,
            field_wf(f),
            !Self::declares(f.number),
        ensures
            Self::spec_decode(bytes + field_bytes(f)) == Self::spec_decode(bytes),
    {
        reveal(CMsgClientUGSGetGlobalStatsResponse::spec_decode);
        lemma_parse_fields_append(bytes, f);
        let fs = parse_fields(bytes).unwrap();
        let apply = Self::apply_fn();
        lemma_fold_concat(Self::spec_default(), fs, seq![f], apply);
        assert(fs.push(f) =~= fs + seq![f]);
        if let Ok(w) = fold_fields(Self::spec_default(), fs, apply) {
            lemma_fold_single(w, f, apply);
        }
        lemma_merge_run_fold(Self::spec_default(), bytes, apply);
        lemma_merge_run_fold(Self::spec_default(), bytes + field_bytes(f), apply);
    }

    /// Decoding the encoding of a message gives the message back.
    pub proof fn lemma_decode_encode(v: SpecCMsgClientUGSGetGlobalStatsResponse)
        requires
            Self::spec_encode(v).len() <= u64::MAX,
        ensures
            Self::spec_decode(Self::spec_encode(v)) == Ok::<SpecCMsgClientUGSGetGlobalStatsResponse, WireError>(v),
    {
        let apply = Self::apply_fn();
        let d = Self::spec_default();
        let p0 = Seq::<SpecField>::empty();
        let l1 = opt_i32(1, v.eresult);
        let p1 = p0 + l1;
        let l2 = opt_fixed32(2, v.timestamp);
        let p2 = p1 + l2;
        let l3 = opt_i32(3, v.day_current);
        let p3 = p2 + l3;
        let l4 = rep_bytes(4, crate::steammessages_clientserver_2::c_msg_client_ugs_get_global_stats_response::Day::spec_encode_all(v.days));
        let p4 = p3 + l4;
        assert(parse_fields(Self::spec_encode(v)) == Ok::<Seq<SpecField>, WireError>(p4) && fields_wf(l4)) by {
            reveal(CMsgClientUGSGetGlobalStatsResponse::spec_encode);
            assert(numbers_ok(p0) && fields_wf(p0)) by {
                reveal(numbers_ok);
                reveal(fields_wf);
            }
            lemma_opt_i32_numbered(1, v.eresult);
            lemma_fields_wf_concat(p0, l1);
            lemma_opt_fixed32_numbered(2, v.timestamp);
            lemma_fields_wf_concat(p1, l2);
            lemma_opt_i32_numbered(3, v.day_current);
            lemma_fields_wf_concat(p2, l3);
            lemma_rep_bytes_numbered(4, crate::steammessages_clientserver_2::c_msg_client_ugs_get_global_stats_response::Day::spec_encode_all(v.days));
            lemma_fields_wf_concat(p3, l4);
            assert(p4 == Self::spec_fields(v));
            lemma_fields_wf_from_len(p4);
            lemma_fields_roundtrip(p4);
        }
        assert(Self::spec_prefix(v, 0) == d) by {
            reveal(CMsgClientUGSGetGlobalStatsResponse::spec_prefix);
        }
        lemma_fold_empty(d, apply);
        lemma_fold_concat(d, p0, l1, apply);
        Self::lemma_field_eresult(v);
        lemma_fold_concat(d, p1, l2, apply);
        Self::lemma_field_timestamp(v);
        lemma_fold_concat(d, p2, l3, apply);
        Self::lemma_field_day_current(v);
        lemma_fold_concat(d, p3, l4, apply);
        Self::lemma_field_days(v);
        assert(Self::spec_prefix(v, 4) == v) by {
            reveal(CMsgClientUGSGetGlobalStatsResponse::spec_prefix);
        }
        lemma_merge_run_fold(d, Self::spec_encode(v), apply);
        assert(Self::spec_decode(Self::spec_encode(v)) == Ok::<SpecCMsgClientUGSGetGlobalStatsResponse, WireError>(v)) by {
            reveal(CMsgClientUGSGetGlobalStatsResponse::spec_decode);
        }
    }
}

/// `CMsgClientRedeemGuestPass`, as Valve's schema declares it.
#[derive(Debug, Clone, PartialEq)]
pub struct CMsgClientRedeemGuestPass {
    /// Field 1.
    pub guest_pass_id: Option<u64>,
}

/// What a `CMsgClientRedeemGuestPass` holds, as mathematical values.
#[verifier::ext_equal]
pub struct SpecCMsgClientRedeemGuestPass {
    pub guest_pass_id: Option<u64>,
}

impl View for CMsgClientRedeemGuestPass {
    type V = SpecCMsgClientRedeemGuestPass;

    open spec fn view(&self) -> SpecCMsgClientRedeemGuestPass {
        SpecCMsgClientRedeemGuestPass {
            guest_pass_id: self.guest_pass_id,
        }
    }
}

impl Default for CMsgClientRedeemGuestPass {
    fn default() -> (r: Self)
        ensures
            r@ == CMsgClientRedeemGuestPass::spec_default(),
    {
        CMsgClientRedeemGuestPass {
            guest_pass_id: None,
        }
    }
}

impl CMsgClientRedeemGuestPass {
    pub open spec fn spec_default() -> SpecCMsgClientRedeemGuestPass {
        SpecCMsgClientRedeemGuestPass {
            guest_pass_id: None,
        }
    }

    /// The records a `CMsgClientRedeemGuestPass` is written as, in field order.
    pub open spec fn spec_fields(v: SpecCMsgClientRedeemGuestPass) -> Seq<SpecField> {
        Seq::<SpecField>::empty()
            + opt_fixed64(1, v.guest_pass_id)
    }

    #[verifier::opaque]
    pub open spec fn spec_encode(v: SpecCMsgClientRedeemGuestPass) -> Seq<u8> {
        fields_bytes(Self::spec_fields(v))
    }

    /// What one record does to the message: a declared number sets or extends its
    /// field, any other number is left alone.
    pub open spec fn spec_apply(v: SpecCMsgClientRedeemGuestPass, f: SpecField) -> Result<SpecCMsgClientRedeemGuestPass, WireError> {
        match f.number {
            1 => match dec_fixed64(f.value) {
                Ok(x) => Ok(SpecCMsgClientRedeemGuestPass { guest_pass_id: Some(x), ..v }),
                Err(e) => Err(e),
            },
            _ => Ok(v),
        }
    }

    pub open spec fn apply_fn() -> spec_fn(SpecCMsgClientRedeemGuestPass, SpecField) -> Result<SpecCMsgClientRedeemGuestPass, WireError> {
        |v: SpecCMsgClientRedeemGuestPass, f: SpecField| Self::spec_apply(v, f)
    }

    /// The message `bytes` makes of `v`: its records applied in order, or the error
    /// that stops the reading.
    pub open spec fn spec_merge(v: SpecCMsgClientRedeemGuestPass, bytes: Seq<u8>) -> Result<SpecCMsgClientRedeemGuestPass, WireError> {
        let (w, stop) = merge_run(v, bytes, Self::apply_fn());
        match stop {
            None => Ok(w),
            Some(e) => Err(e),
        }
    }

    #[verifier::opaque]
    pub open spec fn spec_decode(bytes: Seq<u8>) -> Result<SpecCMsgClientRedeemGuestPass, WireError> {
        Self::spec_merge(Self::spec_default(), bytes)
    }

    /// This message with one record applied to it, or, when the record is refused,
    /// the message unchanged and the reason.
    fn applied(self, f: &Field) -> (r: Result<Self, (Self, WireError)>)
        ensures
            match Self::spec_apply(self@, f@) {
                Ok(v) => r matches Ok(m) && m@ == v,
                Err(e) => r matches Err((m, x)) && x == e && m@ == self@,
            },
    {
        match f.number {
            1 => match read_fixed64(&f.value) {
                Ok(x) => Ok(Self { guest_pass_id: Some(x), ..self }),
                Err(e) => Err((self, e)),
            },
            _ => Ok(self),
        }
    }

    /// Reads the records `bytes` holds into this message, in order. When a record does
    /// not parse or is refused, the reading stops there: the message keeps what the
    /// records before it gave, and the error is returned.
    pub fn merge(&mut self, bytes: &[u8]) -> (r: Result<(), WireError>)
        ensures
            final(self)@ == merge_run(old(self)@, bytes@, Self::apply_fn()).0,
            r == match merge_run(old(self)@, bytes@, Self::apply_fn()).1 {
                None => Ok::<(), WireError>(()),
                Some(e) => Err::<(), WireError>(e),
            },
    {
        let ghost total = merge_run(self@, bytes@, Self::apply_fn());
        let mut cur = Self::default();
        std::mem::swap(&mut cur, self);
        let mut pos: usize = 0;
        assert(bytes@.skip(0) =~= bytes@);
        while pos < bytes.len()
            invariant
                pos <= bytes@.len(),
                total == merge_run(old(self)@, bytes@, Self::apply_fn()),
                merge_run(cur@, bytes@.skip(pos as int), Self::apply_fn()) == total,
            decreases bytes@.len() - pos,
        {
            let ghost s = bytes@.skip(pos as int);
            proof {
                lemma_merge_run_step(cur@, s, Self::apply_fn());
                lemma_parse_field_len(s);
            }
            match read_field(bytes, pos) {
                Ok((f, end)) => {
                    assert(bytes@.skip(end as int) =~= s.skip((end - pos) as int));
                    match cur.applied(&f) {
                        Ok(m) => {
                            cur = m;
                        },
                        Err((m, e)) => {
                            *self = m;
                            return Err(e);
                        },
                    }
                    pos = end;
                },
                Err(e) => {
                    *self = cur;
                    return Err(e);
                },
            }
        }
        assert(bytes@.skip(pos as int) =~= Seq::<u8>::empty());
        proof {
            lemma_merge_run_empty(cur@, Self::apply_fn());
        }
        *self = cur;
        Ok(())
    }

    /// Decodes a message from its encoding.
    pub fn decode(bytes: &[u8]) -> (r: Result<Self, WireError>)
        ensures
            match Self::spec_decode(bytes@) {
                Ok(v) => r matches Ok(m) && m@ == v,
                Err(e) => r matches Err(x) && x == e,
            },
    {
        proof {
            reveal(CMsgClientRedeemGuestPass::spec_decode);
        }
        let mut m = Self::default();
        match m.merge(bytes) {
            Ok(()) => Ok(m),
            Err(e) => Err(e),
        }
    }

    /// The encoding of this message.
    pub fn encode_to_vec(&self) -> (r: Vec<u8>)
        ensures
            r@ == Self::spec_encode(self@),
    {
        let ghost v = self@;
        let mut out: Vec<u8> = Vec::new();
        let ghost p0 = Seq::<SpecField>::empty();
        put_opt_fixed64(&mut out, 1, self.guest_pass_id);
        let ghost p1 = p0 + opt_fixed64(1, v.guest_pass_id);
        proof {
            lemma_fields_bytes_concat(p0, opt_fixed64(1, v.guest_pass_id));
        }
        proof {
            reveal(CMsgClientRedeemGuestPass::spec_encode);
        }
        assert(p1 == Self::spec_fields(v));
        out
    }

    /// Appends the encoding of this message to `out`.
    pub fn encode_raw(&self, out: &mut Vec<u8>)
        ensures
            final(out)@ == old(out)@ + Self::spec_encode(self@),
    {
        let mut b = self.encode_to_vec();
        out.append(&mut b);
    }

    /// The first `k` fields of `v`, the others as a fresh message has them.
    #[verifier::opaque]
    pub open spec fn spec_prefix(v: SpecCMsgClientRedeemGuestPass, k: int) -> SpecCMsgClientRedeemGuestPass {
        SpecCMsgClientRedeemGuestPass {
            guest_pass_id: if 1 <= k { v.guest_pass_id } else { None },
        }
    }

    /// Reading field 1 back, after the fields before it.
    proof fn lemma_field_guest_pass_id(v: SpecCMsgClientRedeemGuestPass)
        ensures
            fold_fields(Self::spec_prefix(v, 0), opt_fixed64(1, v.guest_pass_id), Self::apply_fn())
                == Ok::<SpecCMsgClientRedeemGuestPass, WireError>(Self::spec_prefix(v, 1)),
    {
        reveal(CMsgClientRedeemGuestPass::spec_prefix);
        reveal(opt_fixed64);
        let apply = Self::apply_fn();
        let s = Self::spec_prefix(v, 0);
        lemma_fold_opt(s, 1, match v.guest_pass_id { Some(x) => Some(enc_fixed64(x)), None => None }, apply);
        if let Some(x) = v.guest_pass_id {
            lemma_u64_roundtrip(x);
        }
        assert(SpecCMsgClientRedeemGuestPass { guest_pass_id: v.guest_pass_id, ..s } == Self::spec_prefix(v, 1));
    }

    /// Whether this message declares field number `n`.
    pub open spec fn declares(n: u32) -> bool {
        n == 1
    }

    /// A record with a number this message does not declare is passed over: well-formed
    /// bytes decode to the same message with such a record after them as without it.
    pub proof fn lemma_unknown_field(bytes: Seq<u8>, f: SpecField)
        requires
            parse_fields(bytes) is Ok,
            field_wf(f),
            !Self::declares(f.number),
        ensures
            Self::spec_decode(bytes + field_bytes(f)) == Self::spec_decode(bytes),
    {
        reveal(CMsgClientRedeemGuestPass::spec_decode);
        lemma_parse_fields_append(bytes, f);
        let fs = parse_fields(bytes).unwrap();
        let apply = Self::apply_fn();
        lemma_fold_concat(Self::spec_default(), fs, seq![f], apply);
        assert(fs.push(f) =~= fs + seq![f]);
        if let Ok(w) = fold_fields(Self::spec_default(), fs, apply) {
            lemma_fold_single(w, f, apply);
        }
        lemma_merge_run_fold(Self::spec_default(), bytes, apply);
        lemma_merge_run_fold(Self::spec_default(), bytes + field_bytes(f), apply);
    }

    /// Decoding the encoding of a message gives the message back.
    pub proof fn lemma_decode_encode(v: SpecCMsgClientRedeemGuestPass)
        requires
            Self::spec_encode(v).len() <= u64::MAX,
        ensures
            Self::spec_decode(Self::spec_encode(v)) == Ok::<SpecCMsgClientRedeemGuestPass, WireError>(v),
    {
        let apply = Self::apply_fn();
        let d = Self::spec_default();
        let p0 = Seq::<SpecField>::empty();
        let l1 = opt_fixed64(1, v.guest_pass_id);
        let p1 = p0 + l1;
        assert(parse_fields(Self::spec_encode(v)) == Ok::<Seq<SpecField>, WireError>(p1)) by {
            reveal(CMsgClientRedeemGuestPass::spec_encode);
            assert(numbers_ok(p0) && fields_wf(p0)) by {
                reveal(numbers_ok);
                reveal(fields_wf);
            }
            lemma_opt_fixed64_numbered(1, v.guest_pass_id);
            lemma_fields_wf_concat(p0, l1);
            assert(p1 == Self::spec_fields(v));
            lemma_fields_wf_from_len(p1);
            lemma_fields_roundtrip(p1);
        }
        assert(Self::spec_prefix(v, 0) == d) by {
            reveal(CMsgClientRedeemGuestPass::spec_prefix);
        }
        lemma_fold_empty(d, apply);
        lemma_fold_concat(d, p0, l1, apply);
        Self::lemma_field_guest_pass_id(v);
        assert(Self::spec_prefix(v, 1) == v) by {
            reveal(CMsgClientRedeemGuestPass::spec_prefix);
        }
        lemma_merge_run_fold(d, Self::spec_encode(v), apply);
        assert(Self::spec_decode(Self::spec_encode(v)) == Ok::<SpecCMsgClientRedeemGuestPass, WireError>(v)) by {
            reveal(CMsgClientRedeemGuestPass::spec_decode);
        }
    }
}

/// `CMsgClientRedeemGuestPassResponse`, as Valve's schema declares it.
#[derive(Debug, Clone, PartialEq)]
pub struct CMsgClientRedeemGuestPassResponse {
    /// Field 1.
    pub eresult: Option<u32>,
    /// Field 2.
    pub package_id: Option<u32>,
    /// Field 3.
    pub must_own_appid: Option<u32>,
}

/// What a `CMsgClientRedeemGuestPassResponse` holds, as mathematical values.
#[verifier::ext_equal]
pub struct SpecCMsgClientRedeemGuestPassResponse {
    pub eresult: Option<u32>,
    pub package_id: Option<u32>,
    pub must_own_appid: Option<u32>,
}

impl View for CMsgClientRedeemGuestPassResponse {
    type V = SpecCMsgClientRedeemGuestPassResponse;

    open spec fn view(&self) -> SpecCMsgClientRedeemGuestPassResponse {
        SpecCMsgClientRedeemGuestPassResponse {
            eresult: self.eresult,
            package_id: self.package_id,
            must_own_appid: self.must_own_appid,
        }
    }
}

impl Default for CMsgClientRedeemGuestPassResponse {
    fn default() -> (r: Self)
        ensures
            r@ == CMsgClientRedeemGuestPassResponse::spec_default(),
    {
        CMsgClientRedeemGuestPassResponse {
            eresult: None,
            package_id: None,
            must_own_appid: None,
        }
    }
}

impl CMsgClientRedeemGuestPassResponse {
    /// Field 1, or its schema default when absent.
    pub fn eresult_or_default(&self) -> (r: u32)
        ensures
            r == match self.eresult {
                Some(x) => x,
                None => 2u32,
            },
    {
        self.eresult.unwrap_or(2u32)
    }

    pub open spec fn spec_default() -> SpecCMsgClientRedeemGuestPassResponse {
        SpecCMsgClientRedeemGuestPassResponse {
            eresult: None,
            package_id: None,
            must_own_appid: None,
        }
    }

    /// The records a `CMsgClientRedeemGuestPassResponse` is written as, in field order.
    pub open spec fn spec_fields(v: SpecCMsgClientRedeemGuestPassResponse) -> Seq<SpecField> {
        Seq::<SpecField>::empty()
            + opt_u32(1, v.eresult)
            + opt_u32(2, v.package_id)
            + opt_u32(3, v.must_own_appid)
    }

    #[verifier::opaque]
    pub open spec fn spec_encode(v: SpecCMsgClientRedeemGuestPassResponse) -> Seq<u8> {
        fields_bytes(Self::spec_fields(v))
    }

    /// What one record does to the message: a declared number sets or extends its
    /// field, any other number is left alone.
    pub open spec fn spec_apply(v: SpecCMsgClientRedeemGuestPassResponse, f: SpecField) -> Result<SpecCMsgClientRedeemGuestPassResponse, WireError> {
        match f.number {
            1 => match dec_u32(f.value) {
                Ok(x) => Ok(SpecCMsgClientRedeemGuestPassResponse { eresult: Some(x), ..v }),
                Err(e) => Err(e),
            },
            2 => match dec_u32(f.value) {
                Ok(x) => Ok(SpecCMsgClientRedeemGuestPassResponse { package_id: Some(x), ..v }),
                Err(e) => Err(e),
            },
            3 => match dec_u32(f.value) {
                Ok(x) => Ok(SpecCMsgClientRedeemGuestPassResponse { must_own_appid: Some(x), ..v }),
                Err(e) => Err(e),
            },
            _ => Ok(v),
        }
    }

    pub open spec fn apply_fn() -> spec_fn(SpecCMsgClientRedeemGuestPassResponse, SpecField) -> Result<SpecCMsgClientRedeemGuestPassResponse, WireError> {
        |v: SpecCMsgClientRedeemGuestPassResponse, f: SpecField| Self::spec_apply(v, f)
    }

    /// The message `bytes` makes of `v`: its records applied in order, or the error
    /// that stops the reading.
    pub open spec fn spec_merge(v: SpecCMsgClientRedeemGuestPassResponse, bytes: Seq<u8>) -> Result<SpecCMsgClientRedeemGuestPassResponse, WireError> {
        let (w, stop) = merge_run(v, bytes, Self::apply_fn());
        match stop {
            None => Ok(w),
            Some(e) => Err(e),
        }
    }

    #[verifier::opaque]
    pub open spec fn spec_decode(bytes: Seq<u8>) -> Result<SpecCMsgClientRedeemGuestPassResponse, WireError> {
        Self::spec_merge(Self::spec_default(), bytes)
    }

    /// This message with one record applied to it, or, when the record is refused,
    /// the message unchanged and the reason.
    fn applied(self, f: &Field) -> (r: Result<Self, (Self, WireError)>)
        ensures
            match Self::spec_apply(self@, f@) {
                Ok(v) => r matches Ok(m) && m@ == v,
                Err(e) => r matches Err((m, x)) && x == e && m@ == self@,
            },
    {
        match f.number {
            1 => match read_u32(&f.value) {
                Ok(x) => Ok(Self { eresult: Some(x), ..self }),
                Err(e) => Err((self, e)),
            },
            2 => match read_u32(&f.value) {
                Ok(x) => Ok(Self { package_id: Some(x), ..self }),
                Err(e) => Err((self, e)),
            },
            3 => match read_u32(&f.value) {
                Ok(x) => Ok(Self { must_own_appid: Some(x), ..self }),
                Err(e) => Err((self, e)),
            },
            _ => Ok(self),
        }
    }

    /// Reads the records `bytes` holds into this message, in order. When a record does
    /// not parse or is refused, the reading stops there: the message keeps what the
    /// records before it gave, and the error is returned.
    pub fn merge(&mut self, bytes: &[u8]) -> (r: Result<(), WireError>)
        ensures
            final(self)@ == merge_run(old(self)@, bytes@, Self::apply_fn()).0,
            r == match merge_run(old(self)@, bytes@, Self::apply_fn()).1 {
                None => Ok::<(), WireError>(()),
                Some(e) => Err::<(), WireError>(e),
            },
    {
        let ghost total = merge_run(self@, bytes@, Self::apply_fn());
        let mut cur = Self::default();
        std::mem::swap(&mut cur, self);
        let mut pos: usize = 0;
        assert(bytes@.skip(0) =~= bytes@);
        while pos < bytes.len()
            invariant
                pos <= bytes@.len(),
                total == merge_run(old(self)@, bytes@, Self::apply_fn()),
                merge_run(cur@, bytes@.skip(pos as int), Self::apply_fn()) == total,
            decreases bytes@.len() - pos,
        {
            let ghost s = bytes@.skip(pos as int);
            proof {
                lemma_merge_run_step(cur@, s, Self::apply_fn());
                lemma_parse_field_len(s);
            }
            match read_field(bytes, pos) {
                Ok((f, end)) => {
                    assert(bytes@.skip(end as int) =~= s.skip((end - pos) as int));
                    match cur.applied(&f) {
                        Ok(m) => {
                            cur = m;
                        },
                        Err((m, e)) => {
                            *self = m;
                            return Err(e);
                        },
                    }
                    pos = end;
                },
                Err(e) => {
                    *self = cur;
                    return Err(e);
                },
            }
        }
        assert(bytes@.skip(pos as int) =~= Seq::<u8>::empty());
        proof {
            lemma_merge_run_empty(cur@, Self::apply_fn());
        }
        *self = cur;
        Ok(())
    }

    /// Decodes a message from its encoding.
    pub fn decode(bytes: &[u8]) -> (r: Result<Self, WireError>)
        ensures
            match Self::spec_decode(bytes@) {
                Ok(v) => r matches Ok(m) && m@ == v,
                Err(e) => r matches Err(x) && x == e,
            },
    {
        proof {
            reveal(CMsgClientRedeemGuestPassResponse::spec_decode);
        }
        let mut m = Self::default();
        match m.merge(bytes) {
            Ok(()) => Ok(m),
            Err(e) => Err(e),
        }
    }

    /// The encoding of this message.
    pub fn encode_to_vec(&self) -> (r: Vec<u8>)
        ensures
            r@ == Self::spec_encode(self@),
    {
        let ghost v = self@;
        let mut out: Vec<u8> = Vec::new();
        let ghost p0 = Seq::<SpecField>::empty();
        put_opt_u32(&mut out, 1, self.eresult);
        let ghost p1 = p0 + opt_u32(1, v.eresult);
        proof {
            lemma_fields_bytes_concat(p0, opt_u32(1, v.eresult));
        }
        put_opt_u32(&mut out, 2, self.package_id);
        let ghost p2 = p1 + opt_u32(2, v.package_id);
        proof {
            lemma_fields_bytes_concat(p1, opt_u32(2, v.package_id));
        }
        put_opt_u32(&mut out, 3, self.must_own_appid);
        let ghost p3 = p2 + opt_u32(3, v.must_own_appid);
        proof {
            lemma_fields_bytes_concat(p2, opt_u32(3, v.must_own_appid));
        }
        proof {
            reveal(CMsgClientRedeemGuestPassResponse::spec_encode);
        }
        assert(p3 == Self::spec_fields(v));
        out
    }

    /// Appends the encoding of this message to `out`.
    pub fn encode_raw(&self, out: &mut Vec<u8>)
        ensures
            final(out)@ == old(out)@ + Self::spec_encode(self@),
    {
        let mut b = self.encode_to_vec();
        out.append(&mut b);
    }

    /// The first `k` fields of `v`, the others as a fresh message has them.
    #[verifier::opaque]
    pub open spec fn spec_prefix(v: SpecCMsgClientRedeemGuestPassResponse, k: int) -> SpecCMsgClientRedeemGuestPassResponse {
        SpecCMsgClientRedeemGuestPassResponse {
            eresult: if 1 <= k { v.eresult } else { None },
            package_id: if 2 <= k { v.package_id } else { None },
            must_own_appid: if 3 <= k { v.must_own_appid } else { None },
        }
    }

    /// Reading field 1 back, after the fields before it.
    proof fn lemma_field_eresult(v: SpecCMsgClientRedeemGuestPassResponse)
        ensures
            fold_fields(Self::spec_prefix(v, 0), opt_u32(1, v.eresult), Self::apply_fn())
                == Ok::<SpecCMsgClientRedeemGuestPassResponse, WireError>(Self::spec_prefix(v, 1)),
    {
        reveal(CMsgClientRedeemGuestPassResponse::spec_prefix);
        reveal(opt_u32);
        let apply = Self::apply_fn();
        let s = Self::spec_prefix(v, 0);
        lemma_fold_opt(s, 1, match v.eresult { Some(x) => Some(enc_u32(x)), None => None }, apply);
        if let Some(x) = v.eresult {
            lemma_u32_roundtrip(x);
        }
        assert(SpecCMsgClientRedeemGuestPassResponse { eresult: v.eresult, ..s } == Self::spec_prefix(v, 1));
    }

    /// Reading field 2 back, after the fields before it.
    proof fn lemma_field_package_id(v: SpecCMsgClientRedeemGuestPassResponse)
        ensures
            fold_fields(Self::spec_prefix(v, 1), opt_u32(2, v.package_id), Self::apply_fn())
                == Ok::<SpecCMsgClientRedeemGuestPassResponse, WireError>(Self::spec_prefix(v, 2)),
    {
        reveal(CMsgClientRedeemGuestPassResponse::spec_prefix);
        reveal(opt_u32);
        let apply = Self::apply_fn();
        let s = Self::spec_prefix(v, 1);
        lemma_fold_opt(s, 2, match v.package_id { Some(x) => Some(enc_u32(x)), None => None }, apply);
        if let Some(x) = v.package_id {
            lemma_u32_roundtrip(x);
        }
        assert(SpecCMsgClientRedeemGuestPassResponse { package_id: v.package_id, ..s } == Self::spec_prefix(v, 2));
    }

    /// Reading field 3 back, after the fields before it.
    proof fn lemma_field_must_own_appid(v: SpecCMsgClientRedeemGuestPassResponse)
        ensures
            fold_fields(Self::spec_prefix(v, 2), opt_u32(3, v.must_own_appid), Self::apply_fn())
                == Ok::<SpecCMsgClientRedeemGuestPassResponse, WireError>(Self::spec_prefix(v, 3)),
    {
        reveal(CMsgClientRedeemGuestPassResponse::spec_prefix);
        reveal(opt_u32);
        let apply = Self::apply_fn();
        let s = Self::spec_prefix(v, 2);
        lemma_fold_opt(s, 3, match v.must_own_appid { Some(x) => Some(enc_u32(x)), None => None }, apply);
        if let Some(x) = v.must_own_appid {
            lemma_u32_roundtrip(x);
        }
        assert(SpecCMsgClientRedeemGuestPassResponse { must_own_appid: v.must_own_appid, ..s } == Self::spec_prefix(v, 3));
    }

    /// Whether this message declares field number `n`.
    pub open spec fn declares(n: u32) -> bool {
        n == 1 || n == 2 || n == 3
    }

    /// A record with a number this message does not declare is passed over: well-formed
    /// bytes decode to the same message with such a record after them as without it.
    pub proof fn lemma_unknown_field(bytes: Seq<u8>, f: SpecField)
        requires
            parse_fields(bytes) is Ok,
            field_wf(f),
            !Self::declares(f.number),
        ensures
            Self::spec_decode(bytes + field_bytes(f)) == Self::spec_decode(bytes),
    {
        reveal(CMsgClientRedeemGuestPassResponse::spec_decode);
        lemma_parse_fields_append(bytes, f);
        let fs = parse_fields(bytes).unwrap();
        let apply = Self::apply_fn();
        lemma_fold_concat(Self::spec_default(), fs, seq![f], apply);
        assert(fs.push(f) =~= fs + seq![f]);
        if let Ok(w) = fold_fields(Self::spec_default(), fs, apply) {
            lemma_fold_single(w, f, apply);
        }
        lemma_merge_run_fold(Self::spec_default(), bytes, apply);
        lemma_merge_run_fold(Self::spec_default(), bytes + field_bytes(f), apply);
    }

    /// Decoding the encoding of a message gives the message back.
    pub proof fn lemma_decode_encode(v: SpecCMsgClientRedeemGuestPassResponse)
        requires
            Self::spec_encode(v).len() <= u64::MAX,
        ensures
            Self::spec_decode(Self::spec_encode(v)) == Ok::<SpecCMsgClientRedeemGuestPassResponse, WireError>(v),
    {
        let apply = Self::apply_fn();
        let d = Self::spec_default();
        let p0 = Seq::<SpecField>::empty();
        let l1 = opt_u32(1, v.eresult);
        let p1 = p0 + l1;
        let l2 = opt_u32(2, v.package_id);
        let p2 = p1 + l2;
        let l3 = opt_u32(3, v.must_own_appid);
        let p3 = p2 + l3;
        assert(parse_fields(Self::spec_encode(v)) == Ok::<Seq<SpecField>, WireError>(p3)) by {
            reveal(CMsgClientRedeemGuestPassResponse::spec_encode);
            assert(numbers_ok(p0) && fields_wf(p0)) by {
                reveal(numbers_ok);
                reveal(fields_wf);
            }
            lemma_opt_u32_numbered(1, v.eresult);
            lemma_fields_wf_concat(p0, l1);
            lemma_opt_u32_numbered(2, v.package_id);
            lemma_fields_wf_concat(p1, l2);
            lemma_opt_u32_numbered(3, v.must_own_appid);
            lemma_fields_wf_concat(p2, l3);
            assert(p3 == Self::spec_fields(v));
            lemma_fields_wf_from_len(p3);
            lemma_fields_roundtrip(p3);
        }
        assert(Self::spec_prefix(v, 0) == d) by {
            reveal(CMsgClientRedeemGuestPassResponse::spec_prefix);
        }
        lemma_fold_empty(d, apply);
        lemma_fold_concat(d, p0, l1, apply);
        Self::lemma_field_eresult(v);
        lemma_fold_concat(d, p1, l2, apply);
        Self::lemma_field_package_id(v);
        lemma_fold_concat(d, p2, l3, apply);
        Self::lemma_field_must_own_appid(v);
        assert(Self::spec_prefix(v, 3) == v) by {
            reveal(CMsgClientRedeemGuestPassResponse::spec_prefix);
        }
        lemma_merge_run_fold(d, Self::spec_encode(v), apply);
        assert(Self::spec_decode(Self::spec_encode(v)) == Ok::<SpecCMsgClientRedeemGuestPassResponse, WireError>(v)) by {
            reveal(CMsgClientRedeemGuestPassResponse::spec_decode);
        }
    }
}

/// `CMsgClientGetClanActivityCounts`, as Valve's schema declares it.
#[derive(Debug, Clone, PartialEq)]
pub struct CMsgClientGetClanActivityCounts {
    /// Field 1.
    pub steamid_clans: Vec<u64>,
}

/// What a `CMsgClientGetClanActivityCounts` holds, as mathematical values.
#[verifier::ext_equal]
pub struct SpecCMsgClientGetClanActivityCounts {
    pub steamid_clans: Seq<u64>,
}

impl View for CMsgClientGetClanActivityCounts {
    type V = SpecCMsgClientGetClanActivityCounts;

    open spec fn view(&self) -> SpecCMsgClientGetClanActivityCounts {
        SpecCMsgClientGetClanActivityCounts {
            steamid_clans: self.steamid_clans@,
        }
    }
}

impl Default for CMsgClientGetClanActivityCounts {
    fn default() -> (r: Self)
        ensures
            r@ == CMsgClientGetClanActivityCounts::spec_default(),
    {
        CMsgClientGetClanActivityCounts {
            steamid_clans: Vec::new(),
        }
    }
}

impl CMsgClientGetClanActivityCounts {
    pub open spec fn spec_default() -> SpecCMsgClientGetClanActivityCounts {
        SpecCMsgClientGetClanActivityCounts {
            steamid_clans: Seq::empty(),
        }
    }

    /// The records a `CMsgClientGetClanActivityCounts` is written as, in field order.
    pub open spec fn spec_fields(v: SpecCMsgClientGetClanActivityCounts) -> Seq<SpecField> {
        Seq::<SpecField>::empty()
            + rep_u64(1, v.steamid_clans)
    }

    #[verifier::opaque]
    pub open spec fn spec_encode(v: SpecCMsgClientGetClanActivityCounts) -> Seq<u8> {
        fields_bytes(Self::spec_fields(v))
    }

    /// What one record does to the message: a declared number sets or extends its
    /// field, any other number is left alone.
    pub open spec fn spec_apply(v: SpecCMsgClientGetClanActivityCounts, f: SpecField) -> Result<SpecCMsgClientGetClanActivityCounts, WireError> {
        match f.number {
            1 => match dec_packed_varint(f.value) {
                Ok(xs) => Ok(SpecCMsgClientGetClanActivityCounts { steamid_clans: v.steamid_clans + xs, ..v }),
                Err(e) => Err(e),
            },
            _ => Ok(v),
        }
    }

    pub open spec fn apply_fn() -> spec_fn(SpecCMsgClientGetClanActivityCounts, SpecField) -> Result<SpecCMsgClientGetClanActivityCounts, WireError> {
        |v: SpecCMsgClientGetClanActivityCounts, f: SpecField| Self::spec_apply(v, f)
    }

    /// The message `bytes` makes of `v`: its records applied in order, or the error
    /// that stops the reading.
    pub open spec fn spec_merge(v: SpecCMsgClientGetClanActivityCounts, bytes: Seq<u8>) -> Result<SpecCMsgClientGetClanActivityCounts, WireError> {
        let (w, stop) = merge_run(v, bytes, Self::apply_fn());
        match stop {
            None => Ok(w),
            Some(e) => Err(e),
        }
    }

    #[verifier::opaque]
    pub open spec fn spec_decode(bytes: Seq<u8>) -> Result<SpecCMsgClientGetClanActivityCounts, WireError> {
        Self::spec_merge(Self::spec_default(), bytes)
    }

    /// This message with one record applied to it, or, when the record is refused,
    /// the message unchanged and the reason.
    fn applied(self, f: &Field) -> (r: Result<Self, (Self, WireError)>)
        ensures
            match Self::spec_apply(self@, f@) {
                Ok(v) => r matches Ok(m) && m@ == v,
                Err(e) => r matches Err((m, x)) && x == e && m@ == self@,
            },
    {
        match f.number {
            1 => match read_packed_varints(&f.value) {
                Ok(xs) => {
                    let mut m = self;
                    let mut xs = xs;
                    m.steamid_clans.append(&mut xs);
                    Ok(m)
                },
                Err(e) => Err((self, e)),
            },
            _ => Ok(self),
        }
    }

    /// Reads the records `bytes` holds into this message, in order. When a record does
    /// not parse or is refused, the reading stops there: the message keeps what the
    /// records before it gave, and the error is returned.
    pub fn merge(&mut self, bytes: &[u8]) -> (r: Result<(), WireError>)
        ensures
            final(self)@ == merge_run(old(self)@, bytes@, Self::apply_fn()).0,
            r == match merge_run(old(self)@, bytes@, Self::apply_fn()).1 {
                None => Ok::<(), WireError>(()),
                Some(e) => Err::<(), WireError>(e),
            },
    {
        let ghost total = merge_run(self@, bytes@, Self::apply_fn());
        let mut cur = Self::default();
        std::mem::swap(&mut cur, self);
        let mut pos: usize = 0;
        assert(bytes@.skip(0) =~= bytes@);
        while pos < bytes.len()
            invariant
                pos <= bytes@.len(),
                total == merge_run(old(self)@, bytes@, Self::apply_fn()),
                merge_run(cur@, bytes@.skip(pos as int), Self::apply_fn()) == total,
            decreases bytes@.len() - pos,
        {
            let ghost s = bytes@.skip(pos as int);
            proof {
                lemma_merge_run_step(cur@, s, Self::apply_fn());
                lemma_parse_field_len(s);
            }
            match read_field(bytes, pos) {
                Ok((f, end)) => {
                    assert(bytes@.skip(end as int) =~= s.skip((end - pos) as int));
                    match cur.applied(&f) {
                        Ok(m) => {
                            cur = m;
                        },
                        Err((m, e)) => {
                            *self = m;
                            return Err(e);
                        },
                    }
                    pos = end;
                },
                Err(e) => {
                    *self = cur;
                    return Err(e);
                },
            }
        }
        assert(bytes@.skip(pos as int) =~= Seq::<u8>::empty());
        proof {
            lemma_merge_run_empty(cur@, Self::apply_fn());
        }
        *self = cur;
        Ok(())
    }

    /// Decodes a message from its encoding.
    pub fn decode(bytes: &[u8]) -> (r: Result<Self, WireError>)
        ensures
            match Self::spec_decode(bytes@) {
                Ok(v) => r matches Ok(m) && m@ == v,
                Err(e) => r matches Err(x) && x == e,
            },
    {
        proof {
            reveal(CMsgClientGetClanActivityCounts::spec_decode);
        }
        let mut m = Self::default();
        match m.merge(bytes) {
            Ok(()) => Ok(m),
            Err(e) => Err(e),
        }
    }

    /// The encoding of this message.
    pub fn encode_to_vec(&self) -> (r: Vec<u8>)
        ensures
            r@ == Self::spec_encode(self@),
    {
        let ghost v = self@;
        let mut out: Vec<u8> = Vec::new();
        let ghost p0 = Seq::<SpecField>::empty();
        put_rep_u64(&mut out, 1, &self.steamid_clans);
        let ghost p1 = p0 + rep_u64(1, v.steamid_clans);
        proof {
            lemma_fields_bytes_concat(p0, rep_u64(1, v.steamid_clans));
        }
        proof {
            reveal(CMsgClientGetClanActivityCounts::spec_encode);
        }
        assert(p1 == Self::spec_fields(v));
        out
    }

    /// Appends the encoding of this message to `out`.
    pub fn encode_raw(&self, out: &mut Vec<u8>)
        ensures
            final(out)@ == old(out)@ + Self::spec_encode(self@),
    {
        let mut b = self.encode_to_vec();
        out.append(&mut b);
    }

    /// The first `k` fields of `v`, the others as a fresh message has them.
    #[verifier::opaque]
    pub open spec fn spec_prefix(v: SpecCMsgClientGetClanActivityCounts, k: int) -> SpecCMsgClientGetClanActivityCounts {
        SpecCMsgClientGetClanActivityCounts {
            steamid_clans: if 1 <= k { v.steamid_clans } else { Seq::empty() },
        }
    }

    /// Reading field 1 back, after the fields before it.
    proof fn lemma_field_steamid_clans(v: SpecCMsgClientGetClanActivityCounts)
        ensures
            fold_fields(Self::spec_prefix(v, 0), rep_u64(1, v.steamid_clans), Self::apply_fn())
                == Ok::<SpecCMsgClientGetClanActivityCounts, WireError>(Self::spec_prefix(v, 1)),
    {
        reveal(CMsgClientGetClanActivityCounts::spec_prefix);
        reveal(rep_u64);
        let apply = Self::apply_fn();
        let s = Self::spec_prefix(v, 0);
        let l = rep_u64(1, v.steamid_clans);
        let xs = v.steamid_clans;
        let st = Seq::new((xs.len() + 1) as nat, |j: int| SpecCMsgClientGetClanActivityCounts { steamid_clans: xs.take(j), ..s });
        assert forall|j: int| 0 <= j < l.len() implies #[trigger] apply(st[j], l[j]) == Ok::<SpecCMsgClientGetClanActivityCounts, WireError>(st[j + 1]) by {
            lemma_u64_roundtrip(xs[j]);
            assert(xs.take(j) + seq![xs[j]] =~= xs.take(j + 1));
        }
        lemma_fold_chain(l, st, apply);
        assert(xs.take(0) =~= Seq::<u64>::empty());
        assert(xs.take(xs.len() as int) =~= xs);
        assert(st[0] == s);
        assert(st[xs.len() as int] == Self::spec_prefix(v, 1));
    }

    /// Whether this message declares field number `n`.
    pub open spec fn declares(n: u32) -> bool {
        n == 1
    }

    /// A record with a number this message does not declare is passed over: well-formed
    /// bytes decode to the same message with such a record after them as without it.
    pub proof fn lemma_unknown_field(bytes: Seq<u8>, f: SpecField)
        requires
            parse_fields(bytes) is Ok,
            field_wf(f),
            !Self::declares(f.number),
        ensures
            Self::spec_decode(bytes + field_bytes(f)) == Self::spec_decode(bytes),
    {
        reveal(CMsgClientGetClanActivityCounts::spec_decode);
        lemma_parse_fields_append(bytes, f);
        let fs = parse_fields(bytes).unwrap();
        let apply = Self::apply_fn();
        lemma_fold_concat(Self::spec_default(), fs, seq![f], apply);
        assert(fs.push(f) =~= fs + seq![f]);
        if let Ok(w) = fold_fields(Self::spec_default(), fs, apply) {
            lemma_fold_single(w, f, apply);
        }
        lemma_merge_run_fold(Self::spec_default(), bytes, apply);
        lemma_merge_run_fold(Self::spec_default(), bytes + field_bytes(f), apply);
    }

    /// Decoding the encoding of a message gives the message back.
    pub proof fn lemma_decode_encode(v: SpecCMsgClientGetClanActivityCounts)
        requires
            Self::spec_encode(v).len() <= u64::MAX,
        ensures
            Self::spec_decode(Self::spec_encode(v)) == Ok::<SpecCMsgClientGetClanActivityCounts, WireError>(v),
    {
        let apply = Self::apply_fn();
        let d = Self::spec_default();
        let p0 = Seq::<SpecField>::empty();
        let l1 = rep_u64(1, v.steamid_clans);
        let p1 = p0 + l1;
        assert(parse_fields(Self::spec_encode(v)) == Ok::<Seq<SpecField>, WireError>(p1)) by {
            reveal(CMsgClientGetClanActivityCounts::spec_encode);
            assert(numbers_ok(p0) && fields_wf(p0)) by {
                reveal(numbers_ok);
                reveal(fields_wf);
            }
            lemma_rep_u64_numbered(1, v.steamid_clans);
            lemma_fields_wf_concat(p0, l1);
            assert(p1 == Self::spec_fields(v));
            lemma_fields_wf_from_len(p1);
            lemma_fields_roundtrip(p1);
        }
        assert(Self::spec_prefix(v, 0) == d) by {
            reveal(CMsgClientGetClanActivityCounts::spec_prefix);
        }
        lemma_fold_empty(d, apply);
        lemma_fold_concat(d, p0, l1, apply);
        Self::lemma_field_steamid_clans(v);
        assert(Self::spec_prefix(v, 1) == v) by {
            reveal(CMsgClientGetClanActivityCounts::spec_prefix);
        }
        lemma_merge_run_fold(d, Self::spec_encode(v), apply);
        assert(Self::spec_decode(Self::spec_encode(v)) == Ok::<SpecCMsgClientGetClanActivityCounts, WireError>(v)) by {
            reveal(CMsgClientGetClanActivityCounts::spec_decode);
        }
    }
}

/// `CMsgClientGetClanActivityCountsResponse`, as Valve's schema declares it.
#[derive(Debug, Clone, PartialEq)]
pub struct CMsgClientGetClanActivityCountsResponse {
    /// Field 1.
    pub eresult: Option<u32>,
}

/// What a `CMsgClientGetClanActivityCountsResponse` holds, as mathematical values.
#[verifier::ext_equal]
pub struct SpecCMsgClientGetClanActivityCountsResponse {
    pub eresult: Option<u32>,
}

impl View for CMsgClientGetClanActivityCountsResponse {
    type V = SpecCMsgClientGetClanActivityCountsResponse;

    open spec fn view(&self) -> SpecCMsgClientGetClanActivityCountsResponse {
        SpecCMsgClientGetClanActivityCountsResponse {
            eresult: self.eresult,
        }
    }
}

impl Default for CMsgClientGetClanActivityCountsResponse {
    fn default() -> (r: Self)
        ensures
            r@ == CMsgClientGetClanActivityCountsResponse::spec_default(),
    {
        CMsgClientGetClanActivityCountsResponse {
            eresult: None,
        }
    }
}

impl CMsgClientGetClanActivityCountsResponse {
    /// Field 1, or its schema default when absent.
    pub fn eresult_or_default(&self) -> (r: u32)
        ensures
            r == match self.eresult {
                Some(x) => x,
                None => 2u32,
            },
    {
        self.eresult.unwrap_or(2u32)
    }

    pub open spec fn spec_default() -> SpecCMsgClientGetClanActivityCountsResponse {
        SpecCMsgClientGetClanActivityCountsResponse {
            eresult: None,
        }
    }

    /// The records a `CMsgClientGetClanActivityCountsResponse` is written as, in field order.
    pub open spec fn spec_fields(v: SpecCMsgClientGetClanActivityCountsResponse) -> Seq<SpecField> {
        Seq::<SpecField>::empty()
            + opt_u32(1, v.eresult)
    }

    #[verifier::opaque]
    pub open spec fn spec_encode(v: SpecCMsgClientGetClanActivityCountsResponse) -> Seq<u8> {
        fields_bytes(Self::spec_fields(v))
    }

    /// What one record does to the message: a declared number sets or extends its
    /// field, any other number is left alone.
    pub open spec fn spec_apply(v: SpecCMsgClientGetClanActivityCountsResponse, f: SpecField) -> Result<SpecCMsgClientGetClanActivityCountsResponse, WireError> {
        match f.number {
            1 => match dec_u32(f.value) {
                Ok(x) => Ok(SpecCMsgClientGetClanActivityCountsResponse { eresult: Some(x), ..v }),
                Err(e) => Err(e),
            },
            _ => Ok(v),
        }
    }

    pub open spec fn apply_fn() -> spec_fn(SpecCMsgClientGetClanActivityCountsResponse, SpecField) -> Result<SpecCMsgClientGetClanActivityCountsResponse, WireError> {
        |v: SpecCMsgClientGetClanActivityCountsResponse, f: SpecField| Self::spec_apply(v, f)
    }

    /// The message `bytes` makes of `v`: its records applied in order, or the error
    /// that stops the reading.
    pub open spec fn spec_merge(v: SpecCMsgClientGetClanActivityCountsResponse, bytes: Seq<u8>) -> Result<SpecCMsgClientGetClanActivityCountsResponse, WireError> {
        let (w, stop) = merge_run(v, bytes, Self::apply_fn());
        match stop {
            None => Ok(w),
            Some(e) => Err(e),
        }
    }

    #[verifier::opaque]
    pub open spec fn spec_decode(bytes: Seq<u8>) -> Result<SpecCMsgClientGetClanActivityCountsResponse, WireError> {
        Self::spec_merge(Self::spec_default(), bytes)
    }

    /// This message with one record applied to it, or, when the record is refused,
    /// the message unchanged and the reason.
    fn applied(self, f: &Field) -> (r: Result<Self, (Self, WireError)>)
        ensures
            match Self::spec_apply(self@, f@) {
                Ok(v) => r matches Ok(m) && m@ == v,
                Err(e) => r matches Err((m, x)) && x == e && m@ == self@,
            },
    {
        match f.number {
            1 => match read_u32(&f.value) {
                Ok(x) => Ok(Self { eresult: Some(x), ..self }),
                Err(e) => Err((self, e)),
            },
            _ => Ok(self),
        }
    }

    /// Reads the records `bytes` holds into this message, in order. When a record does
    /// not parse or is refused, the reading stops there: the message keeps what the
    /// records before it gave, and the error is returned.
    pub fn merge(&mut self, bytes: &[u8]) -> (r: Result<(), WireError>)
        ensures
            final(self)@ == merge_run(old(self)@, bytes@, Self::apply_fn()).0,
            r == match merge_run(old(self)@, bytes@, Self::apply_fn()).1 {
                None => Ok::<(), WireError>(()),
                Some(e) => Err::<(), WireError>(e),
            },
    {
        let ghost total = merge_run(self@, bytes@, Self::apply_fn());
        let mut cur = Self::default();
        std::mem::swap(&mut cur, self);
        let mut pos: usize = 0;
        assert(bytes@.skip(0) =~= bytes@);
        while pos < bytes.len()
            invariant
                pos <= bytes@.len(),
                total == merge_run(old(self)@, bytes@, Self::apply_fn()),
                merge_run(cur@, bytes@.skip(pos as int), Self::apply_fn()) == total,
            decreases bytes@.len() - pos,
        {
            let ghost s = bytes@.skip(pos as int);
            proof {
                lemma_merge_run_step(cur@, s, Self::apply_fn());
                lemma_parse_field_len(s);
            }
            match read_field(bytes, pos) {
                Ok((f, end)) => {
                    assert(bytes@.skip(end as int) =~= s.skip((end - pos) as int));
                    match cur.applied(&f) {
                        Ok(m) => {
                            cur = m;
                        },
                        Err((m, e)) => {
                            *self = m;
                            return Err(e);
                        },
                    }
                    pos = end;
                },
                Err(e) => {
                    *self = cur;
                    return Err(e);
                },
            }
        }
        assert(bytes@.skip(pos as int) =~= Seq::<u8>::empty());
        proof {
            lemma_merge_run_empty(cur@, Self::apply_fn());
        }
        *self = cur;
        Ok(())
    }

    /// Decodes a message from its encoding.
    pub fn decode(bytes: &[u8]) -> (r: Result<Self, WireError>)
        ensures
            match Self::spec_decode(bytes@) {
                Ok(v) => r matches Ok(m) && m@ == v,
                Err(e) => r matches Err(x) && x == e,
            },
    {
        proof {
            reveal(CMsgClientGetClanActivityCountsResponse::spec_decode);
        }
        let mut m = Self::default();
        match m.merge(bytes) {
            Ok(()) => Ok(m),
            Err(e) => Err(e),
        }
    }

    /// The encoding of this message.
    pub fn encode_to_vec(&self) -> (r: Vec<u8>)
        ensures
            r@ == Self::spec_encode(self@),
    {
        let ghost v = self@;
        let mut out: Vec<u8> = Vec::new();
        let ghost p0 = Seq::<SpecField>::empty();
        put_opt_u32(&mut out, 1, self.eresult);
        let ghost p1 = p0 + opt_u32(1, v.eresult);
        proof {
            lemma_fields_bytes_concat(p0, opt_u32(1, v.eresult));
        }
        proof {
            reveal(CMsgClientGetClanActivityCountsResponse::spec_encode);
        }
        assert(p1 == Self::spec_fields(v));
        out
    }

    /// Appends the encoding of this message to `out`.
    pub fn encode_raw(&self, out: &mut Vec<u8>)
        ensures
            final(out)@ == old(out)@ + Self::spec_encode(self@),
    {
        let mut b = self.encode_to_vec();
        out.append(&mut b);
    }

    /// The first `k` fields of `v`, the others as a fresh message has them.
    #[verifier::opaque]
    pub open spec fn spec_prefix(v: SpecCMsgClientGetClanActivityCountsResponse, k: int) -> SpecCMsgClientGetClanActivityCountsResponse {
        SpecCMsgClientGetClanActivityCountsResponse {
            eresult: if 1 <= k { v.eresult } else { None },
        }
    }

    /// Reading field 1 back, after the fields before it.
    proof fn lemma_field_eresult(v: SpecCMsgClientGetClanActivityCountsResponse)
        ensures
            fold_fields(Self::spec_prefix(v, 0), opt_u32(1, v.eresult), Self::apply_fn())
                == Ok::<SpecCMsgClientGetClanActivityCountsResponse, WireError>(Self::spec_prefix(v, 1)),
    {
        reveal(CMsgClientGetClanActivityCountsResponse::spec_prefix);
        reveal(opt_u32);
        let apply = Self::apply_fn();
        let s = Self::spec_prefix(v, 0);
        lemma_fold_opt(s, 1, match v.eresult { Some(x) => Some(enc_u32(x)), None => None }, apply);
        if let Some(x) = v.eresult {
            lemma_u32_roundtrip(x);
        }
        assert(SpecCMsgClientGetClanActivityCountsResponse { eresult: v.eresult, ..s } == Self::spec_prefix(v, 1));
    }

    /// Whether this message declares field number `n`.
    pub open spec fn declares(n: u32) -> bool {
        n == 1
    }

    /// A record with a number this message does not declare is passed over: well-formed
    /// bytes decode to the same message with such a record after them as without it.
    pub proof fn lemma_unknown_field(bytes: Seq<u8>, f: SpecField)
        requires
            parse_fields(bytes) is Ok,
            field_wf(f),
            !Self::declares(f.number),
        ensures
            Self::spec_decode(bytes + field_bytes(f)) == Self::spec_decode(bytes),
    {
        reveal(CMsgClientGetClanActivityCountsResponse::spec_decode);
        lemma_parse_fields_append(bytes, f);
        let fs = parse_fields(bytes).unwrap();
        let apply = Self::apply_fn();
        lemma_fold_concat(Self::spec_default(), fs, seq![f], apply);
        assert(fs.push(f) =~= fs + seq![f]);
        if let Ok(w) = fold_fields(Self::spec_default(), fs, apply) {
            lemma_fold_single(w, f, apply);
        }
        lemma_merge_run_fold(Self::spec_default(), bytes, apply);
        lemma_merge_run_fold(Self::spec_default(), bytes + field_bytes(f), apply);
    }

    /// Decoding the encoding of a message gives the message back.
    pub proof fn lemma_decode_encode(v: SpecCMsgClientGetClanActivityCountsResponse)
        requires
            Self::spec_encode(v).len() <= u64::MAX,
        ensures
            Self::spec_decode(Self::spec_encode(v)) == Ok::<SpecCMsgClientGetClanActivityCountsResponse, WireError>(v),
    {
        let apply = Self::apply_fn();
        let d = Self::spec_default();
        let p0 = Seq::<SpecField>::empty();
        let l1 = opt_u32(1, v.eresult);
        let p1 = p0 + l1;
        assert(parse_fields(Self::spec_encode(v)) == Ok::<Seq<SpecField>, WireError>(p1)) by {
            reveal(CMsgClientGetClanActivityCountsResponse::spec_encode);
            assert(numbers_ok(p0) && fields_wf(p0)) by {
                reveal(numbers_ok);
                reveal(fields_wf);
            }
            lemma_opt_u32_numbered(1, v.eresult);
            lemma_fields_wf_concat(p0, l1);
            assert(p1 == Self::spec_fields(v));
            lemma_fields_wf_from_len(p1);
            lemma_fields_roundtrip(p1);
        }
        assert(Self::spec_prefix(v, 0) == d) by {
            reveal(CMsgClientGetClanActivityCountsResponse::spec_prefix);
        }
        lemma_fold_empty(d, apply);
        lemma_fold_concat(d, p0, l1, apply);
        Self::lemma_field_eresult(v);
        assert(Self::spec_prefix(v, 1) == v) by {
            reveal(CMsgClientGetClanActivityCountsResponse::spec_prefix);
        }
        lemma_merge_run_fold(d, Self::spec_encode(v), apply);
        assert(Self::spec_decode(Self::spec_encode(v)) == Ok::<SpecCMsgClientGetClanActivityCountsResponse, WireError>(v)) by {
            reveal(CMsgClientGetClanActivityCountsResponse::spec_decode);
        }
    }
}

/// `CMsgClientOGSReportString`, as Valve's schema declares it.
#[derive(Debug, Clone, PartialEq)]
pub struct CMsgClientOGSReportString {
    /// Field 1.
    pub accumulated: Option<bool>,
    /// Field 2.
    pub sessionid: Option<u64>,
    /// Field 3.
    pub severity: Option<i32>,
    /// Field 4.
    pub formatter: Option<String>,
    /// Field 5.
    pub varargs: Option<Vec<u8>>,
}

/// What a `CMsgClientOGSReportString` holds, as mathematical values.
#[verifier::ext_equal]
pub struct SpecCMsgClientOGSReportString {
    pub accumulated: Option<bool>,
    pub sessionid: Option<u64>,
    pub severity: Option<i32>,
    pub formatter: Option<Seq<char>>,
    pub varargs: Option<Seq<u8>>,
}

impl View for CMsgClientOGSReportString {
    type V = SpecCMsgClientOGSReportString;

    open spec fn view(&self) -> SpecCMsgClientOGSReportString {
        SpecCMsgClientOGSReportString {
            accumulated: self.accumulated,
            sessionid: self.sessionid,
            severity: self.severity,
            formatter: opt_string_view(self.formatter),
            varargs: opt_bytes_view(self.varargs),
        }
    }
}

impl Default for CMsgClientOGSReportString {
    fn default() -> (r: Self)
        ensures
            r@ == CMsgClientOGSReportString::spec_default(),
    {
        CMsgClientOGSReportString {
            accumulated: None,
            sessionid: None,
            severity: None,
            formatter: None,
            varargs: None,
        }
    }
}

impl CMsgClientOGSReportString {
    pub open spec fn spec_default() -> SpecCMsgClientOGSReportString {
        SpecCMsgClientOGSReportString {
            accumulated: None,
            sessionid: None,
            severity: None,
            formatter: None,
            varargs: None,
        }
    }

    /// The records a `CMsgClientOGSReportString` is written as, in field order.
    pub open spec fn spec_fields(v: SpecCMsgClientOGSReportString) -> Seq<SpecField> {
        Seq::<SpecField>::empty()
            + opt_bool(1, v.accumulated)
            + opt_u64(2, v.sessionid)
            + opt_i32(3, v.severity)
            + opt_string(4, v.formatter)
            + opt_bytes(5, v.varargs)
    }

    #[verifier::opaque]
    pub open spec fn spec_encode(v: SpecCMsgClientOGSReportString) -> Seq<u8> {
        fields_bytes(Self::spec_fields(v))
    }

    /// What one record does to the message: a declared number sets or extends its
    /// field, any other number is left alone.
    pub open spec fn spec_apply(v: SpecCMsgClientOGSReportString, f: SpecField) -> Result<SpecCMsgClientOGSReportString, WireError> {
        match f.number {
            1 => match dec_bool(f.value) {
                Ok(x) => Ok(SpecCMsgClientOGSReportString { accumulated: Some(x), ..v }),
                Err(e) => Err(e),
            },
            2 => match dec_u64(f.value) {
                Ok(x) => Ok(SpecCMsgClientOGSReportString { sessionid: Some(x), ..v }),
                Err(e) => Err(e),
            },
            3 => match dec_i32(f.value) {
                Ok(x) => Ok(SpecCMsgClientOGSReportString { severity: Some(x), ..v }),
                Err(e) => Err(e),
            },
            4 => match dec_string(f.value) {
                Ok(x) => Ok(SpecCMsgClientOGSReportString { formatter: Some(x), ..v }),
                Err(e) => Err(e),
            },
            5 => match dec_bytes(f.value) {
                Ok(x) => Ok(SpecCMsgClientOGSReportString { varargs: Some(x), ..v }),
                Err(e) => Err(e),
            },
            _ => Ok(v),
        }
    }

    pub open spec fn apply_fn() -> spec_fn(SpecCMsgClientOGSReportString, SpecField) -> Result<SpecCMsgClientOGSReportString, WireError> {
        |v: SpecCMsgClientOGSReportString, f: SpecField| Self::spec_apply(v, f)
    }

    /// The message `bytes` makes of `v`: its records applied in order, or the error
    /// that stops the reading.
    pub open spec fn spec_merge(v: SpecCMsgClientOGSReportString, bytes: Seq<u8>) -> Result<SpecCMsgClientOGSReportString, WireError> {
        let (w, stop) = merge_run(v, bytes, Self::apply_fn());
        match stop {
            None => Ok(w),
            Some(e) => Err(e),
        }
    }

    #[verifier::opaque]
    pub open spec fn spec_decode(bytes: Seq<u8>) -> Result<SpecCMsgClientOGSReportString, WireError> {
        Self::spec_merge(Self::spec_default(), bytes)
    }

    /// This message with one record applied to it, or, when the record is refused,
    /// the message unchanged and the reason.
    fn applied(self, f: &Field) -> (r: Result<Self, (Self, WireError)>)
        ensures
            match Self::spec_apply(self@, f@) {
                Ok(v) => r matches Ok(m) && m@ == v,
                Err(e) => r matches Err((m, x)) && x == e && m@ == self@,
            },
    {
        match f.number {
            1 => match read_bool(&f.value) {
                Ok(x) => Ok(Self { accumulated: Some(x), ..self }),
                Err(e) => Err((self, e)),
            },
            2 => match read_u64(&f.value) {
                Ok(x) => Ok(Self { sessionid: Some(x), ..self }),
                Err(e) => Err((self, e)),
            },
            3 => match read_i32(&f.value) {
                Ok(x) => Ok(Self { severity: Some(x), ..self }),
                Err(e) => Err((self, e)),
            },
            4 => match read_string(&f.value) {
                Ok(x) => Ok(Self { formatter: Some(x), ..self }),
                Err(e) => Err((self, e)),
            },
            5 => match read_bytes(&f.value) {
                Ok(x) => Ok(Self { varargs: Some(x), ..self }),
                Err(e) => Err((self, e)),
            },
            _ => Ok(self),
        }
    }

    /// Reads the records `bytes` holds into this message, in order. When a record does
    /// not parse or is refused, the reading stops there: the message keeps what the
    /// records before it gave, and the error is returned.
    pub fn merge(&mut self, bytes: &[u8]) -> (r: Result<(), WireError>)
        ensures
            final(self)@ == merge_run(old(self)@, bytes@, Self::apply_fn()).0,
            r == match merge_run(old(self)@, bytes@, Self::apply_fn()).1 {
                None => Ok::<(), WireError>(()),
                Some(e) => Err::<(), WireError>(e),
            },
    {
        let ghost total = merge_run(self@, bytes@, Self::apply_fn());
        let mut cur = Self::default();
        std::mem::swap(&mut cur, self);
        let mut pos: usize = 0;
        assert(bytes@.skip(0) =~= bytes@);
        while pos < bytes.len()
            invariant
                pos <= bytes@.len(),
                total == merge_run(old(self)@, bytes@, Self::apply_fn()),
                merge_run(cur@, bytes@.skip(pos as int), Self::apply_fn()) == total,
            decreases bytes@.len() - pos,
        {
            let ghost s = bytes@.skip(pos as int);
            proof {
                lemma_merge_run_step(cur@, s, Self::apply_fn());
                lemma_parse_field_len(s);
            }
            match read_field(bytes, pos) {
                Ok((f, end)) => {
                    assert(bytes@.skip(end as int) =~= s.skip((end - pos) as int));
                    match cur.applied(&f) {
                        Ok(m) => {
                            cur = m;
                        },
                        Err((m, e)) => {
                            *self = m;
                            return Err(e);
                        },
                    }
                    pos = end;
                },
                Err(e) => {
                    *self = cur;
                    return Err(e);
                },
            }
        }
        assert(bytes@.skip(pos as int) =~= Seq::<u8>::empty());
        proof {
            lemma_merge_run_empty(cur@, Self::apply_fn());
        }
        *self = cur;
        Ok(())
    }

    /// Decodes a message from its encoding.
    pub fn decode(bytes: &[u8]) -> (r: Result<Self, WireError>)
        ensures
            match Self::spec_decode(bytes@) {
                Ok(v) => r matches Ok(m) && m@ == v,
                Err(e) => r matches Err(x) && x == e,
            },
    {
        proof {
            reveal(CMsgClientOGSReportString::spec_decode);
        }
        let mut m = Self::default();
        match m.merge(bytes) {
            Ok(()) => Ok(m),
            Err(e) => Err(e),
        }
    }

    /// The encoding of this message.
    pub fn encode_to_vec(&self) -> (r: Vec<u8>)
        ensures
            r@ == Self::spec_encode(self@),
    {
        let ghost v = self@;
        let mut out: Vec<u8> = Vec::new();
        let ghost p0 = Seq::<SpecField>::empty();
        put_opt_bool(&mut out, 1, self.accumulated);
        let ghost p1 = p0 + opt_bool(1, v.accumulated);
        proof {
            lemma_fields_bytes_concat(p0, opt_bool(1, v.accumulated));
        }
        put_opt_varint(&mut out, 2, self.sessionid);
        let ghost p2 = p1 + opt_u64(2, v.sessionid);
        proof {
            lemma_fields_bytes_concat(p1, opt_u64(2, v.sessionid));
        }
        put_opt_i32(&mut out, 3, self.severity);
        let ghost p3 = p2 + opt_i32(3, v.severity);
        proof {
            lemma_fields_bytes_concat(p2, opt_i32(3, v.severity));
        }
        put_opt_string(&mut out, 4, &self.formatter);
        let ghost p4 = p3 + opt_string(4, v.formatter);
        proof {
            lemma_fields_bytes_concat(p3, opt_string(4, v.formatter));
        }
        put_opt_bytes(&mut out, 5, &self.varargs);
        let ghost p5 = p4 + opt_bytes(5, v.varargs);
        proof {
            lemma_fields_bytes_concat(p4, opt_bytes(5, v.varargs));
        }
        proof {
            reveal(CMsgClientOGSReportString::spec_encode);
        }
        assert(p5 == Self::spec_fields(v));
        out
    }

    /// Appends the encoding of this message to `out`.
    pub fn encode_raw(&self, out: &mut Vec<u8>)
        ensures
            final(out)@ == old(out)@ + Self::spec_encode(self@),
    {
        let mut b = self.encode_to_vec();
        out.append(&mut b);
    }

    /// The first `k` fields of `v`, the others as a fresh message has them.
    #[verifier::opaque]
    pub open spec fn spec_prefix(v: SpecCMsgClientOGSReportString, k: int) -> SpecCMsgClientOGSReportString {
        SpecCMsgClientOGSReportString {
            accumulated: if 1 <= k { v.accumulated } else { None },
            sessionid: if 2 <= k { v.sessionid } else { None },
            severity: if 3 <= k { v.severity } else { None },
            formatter: if 4 <= k { v.formatter } else { None },
            varargs: if 5 <= k { v.varargs } else { None },
        }
    }

    /// Reading field 1 back, after the fields before it.
    proof fn lemma_field_accumulated(v: SpecCMsgClientOGSReportString)
        ensures
            fold_fields(Self::spec_prefix(v, 0), opt_bool(1, v.accumulated), Self::apply_fn())
                == Ok::<SpecCMsgClientOGSReportString, WireError>(Self::spec_prefix(v, 1)),
    {
        reveal(CMsgClientOGSReportString::spec_prefix);
        reveal(opt_bool);
        let apply = Self::apply_fn();
        let s = Self::spec_prefix(v, 0);
        lemma_fold_opt(s, 1, match v.accumulated { Some(x) => Some(enc_bool(x)), None => None }, apply);
        assert(SpecCMsgClientOGSReportString { accumulated: v.accumulated, ..s } == Self::spec_prefix(v, 1));
    }

    /// Reading field 2 back, after the fields before it.
    proof fn lemma_field_sessionid(v: SpecCMsgClientOGSReportString)
        ensures
            fold_fields(Self::spec_prefix(v, 1), opt_u64(2, v.sessionid), Self::apply_fn())
                == Ok::<SpecCMsgClientOGSReportString, WireError>(Self::spec_prefix(v, 2)),
    {
        reveal(CMsgClientOGSReportString::spec_prefix);
        reveal(opt_u64);
        let apply = Self::apply_fn();
        let s = Self::spec_prefix(v, 1);
        lemma_fold_opt(s, 2, match v.sessionid { Some(x) => Some(enc_u64(x)), None => None }, apply);
        if let Some(x) = v.sessionid {
            lemma_u64_roundtrip(x);
        }
        assert(SpecCMsgClientOGSReportString { sessionid: v.sessionid, ..s } == Self::spec_prefix(v, 2));
    }

    /// Reading field 3 back, after the fields before it.
    proof fn lemma_field_severity(v: SpecCMsgClientOGSReportString)
        ensures
            fold_fields(Self::spec_prefix(v, 2), opt_i32(3, v.severity), Self::apply_fn())
                == Ok::<SpecCMsgClientOGSReportString, WireError>(Self::spec_prefix(v, 3)),
    {
        reveal(CMsgClientOGSReportString::spec_prefix);
        reveal(opt_i32);
        let apply = Self::apply_fn();
        let s = Self::spec_prefix(v, 2);
        lemma_fold_opt(s, 3, match v.severity { Some(x) => Some(enc_i32(x)), None => None }, apply);
        if let Some(x) = v.severity {
            lemma_i32_roundtrip(x);
        }
        assert(SpecCMsgClientOGSReportString { severity: v.severity, ..s } == Self::spec_prefix(v, 3));
    }

    /// Reading field 4 back, after the fields before it.
    proof fn lemma_field_formatter(v: SpecCMsgClientOGSReportString)
        ensures
            fold_fields(Self::spec_prefix(v, 3), opt_string(4, v.formatter), Self::apply_fn())
                == Ok::<SpecCMsgClientOGSReportString, WireError>(Self::spec_prefix(v, 4)),
    {
        reveal(CMsgClientOGSReportString::spec_prefix);
        reveal(opt_string);
        let apply = Self::apply_fn();
        let s = Self::spec_prefix(v, 3);
        lemma_fold_opt(s, 4, match v.formatter { Some(x) => Some(enc_string(x)), None => None }, apply);
        if let Some(x) = v.formatter {
            lemma_string_roundtrip(x);
        }
        assert(SpecCMsgClientOGSReportString { formatter: v.formatter, ..s } == Self::spec_prefix(v, 4));
    }

    /// Reading field 5 back, after the fields before it.
    proof fn lemma_field_varargs(v: SpecCMsgClientOGSReportString)
        ensures
            fold_fields(Self::spec_prefix(v, 4), opt_bytes(5, v.varargs), Self::apply_fn())
                == Ok::<SpecCMsgClientOGSReportString, WireError>(Self::spec_prefix(v, 5)),
    {
        reveal(CMsgClientOGSReportString::spec_prefix);
        reveal(opt_bytes);
        let apply = Self::apply_fn();
        let s = Self::spec_prefix(v, 4);
        lemma_fold_opt(s, 5, match v.varargs { Some(x) => Some(enc_bytes(x)), None => None }, apply);
        assert(SpecCMsgClientOGSReportString { varargs: v.varargs, ..s } == Self::spec_prefix(v, 5));
    }

    /// Whether this message declares field number `n`.
    pub open spec fn declares(n: u32) -> bool {
        n == 1 || n == 2 || n == 3 || n == 4 || n == 5
    }

    /// A record with a number this message does not declare is passed over: well-formed
    /// bytes decode to the same message with such a record after them as without it.
    pub proof fn lemma_unknown_field(bytes: Seq<u8>, f: SpecField)
        requires
            parse_fields(bytes) is Ok,
            field_wf(f),
            !Self::declares(f.number),
        ensures
            Self::spec_decode(bytes + field_bytes(f)) == Self::spec_decode(bytes),
    {
        reveal(CMsgClientOGSReportString::spec_decode);
        lemma_parse_fields_append(bytes, f);
        let fs = parse_fields(bytes).unwrap();
        let apply = Self::apply_fn();
        lemma_fold_concat(Self::spec_default(), fs, seq![f], apply);
        assert(fs.push(f) =~= fs + seq![f]);
        if let Ok(w) = fold_fields(Self::spec_default(), fs, apply) {
            lemma_fold_single(w, f, apply);
        }
        lemma_merge_run_fold(Self::spec_default(), bytes, apply);
        lemma_merge_run_fold(Self::spec_default(), bytes + field_bytes(f), apply);
    }

    /// Decoding the encoding of a message gives the message back.
    pub proof fn lemma_decode_encode(v: SpecCMsgClientOGSReportString)
        requires
            Self::spec_encode(v).len() <= u64::MAX,
        ensures
            Self::spec_decode(Self::spec_encode(v)) == Ok::<SpecCMsgClientOGSReportString, WireError>(v),
    {
        let apply = Self::apply_fn();
        let d = Self::spec_default();
        let p0 = Seq::<SpecField>::empty();
        let l1 = opt_bool(1, v.accumulated);
        let p1 = p0 + l1;
        let l2 = opt_u64(2, v.sessionid);
        let p2 = p1 + l2;
        let l3 = opt_i32(3, v.severity);
        let p3 = p2 + l3;
        let l4 = opt_string(4, v.formatter);
        let p4 = p3 + l4;
        let l5 = opt_bytes(5, v.varargs);
        let p5 = p4 + l5;
        assert(parse_fields(Self::spec_encode(v)) == Ok::<Seq<SpecField>, WireError>(p5)) by {
            reveal(CMsgClientOGSReportString::spec_encode);
            assert(numbers_ok(p0) && fields_wf(p0)) by {
                reveal(numbers_ok);
                reveal(fields_wf);
            }
            lemma_opt_bool_numbered(1, v.accumulated);
            lemma_fields_wf_concat(p0, l1);
            lemma_opt_u64_numbered(2, v.sessionid);
            lemma_fields_wf_concat(p1, l2);
            lemma_opt_i32_numbered(3, v.severity);
            lemma_fields_wf_concat(p2, l3);
            lemma_opt_string_numbered(4, v.formatter);
            lemma_fields_wf_concat(p3, l4);
            lemma_opt_bytes_numbered(5, v.varargs);
            lemma_fields_wf_concat(p4, l5);
            assert(p5 == Self::spec_fields(v));
            lemma_fields_wf_from_len(p5);
            lemma_fields_roundtrip(p5);
        }
        assert(Self::spec_prefix(v, 0) == d) by {
            reveal(CMsgClientOGSReportString::spec_prefix);
        }
        lemma_fold_empty(d, apply);
        lemma_fold_concat(d, p0, l1, apply);
        Self::lemma_field_accumulated(v);
        lemma_fold_concat(d, p1, l2, apply);
        Self::lemma_field_sessionid(v);
        lemma_fold_concat(d, p2, l3, apply);
        Self::lemma_field_severity(v);
        lemma_fold_concat(d, p3, l4, apply);
        Self::lemma_field_formatter(v);
        lemma_fold_concat(d, p4, l5, apply);
        Self::lemma_field_varargs(v);
        assert(Self::spec_prefix(v, 5) == v) by {
            reveal(CMsgClientOGSReportString::spec_prefix);
        }
        lemma_merge_run_fold(d, Self::spec_encode(v), apply);
        assert(Self::spec_decode(Self::spec_encode(v)) == Ok::<SpecCMsgClientOGSReportString, WireError>(v)) by {
            reveal(CMsgClientOGSReportString::spec_decode);
        }
    }
}

/// `CMsgClientOGSReportBug`, as Valve's schema declares it.
#[derive(Debug, Clone, PartialEq)]
pub struct CMsgClientOGSReportBug {
    /// Field 1.
    pub sessionid: Option<u64>,
    /// Field 2.
    pub bugtext: Option<String>,
    /// Field 3.
    pub screenshot: Option<Vec<u8>>,
}

/// What a `CMsgClientOGSReportBug` holds, as mathematical values.
#[verifier::ext_equal]
pub struct SpecCMsgClientOGSReportBug {
    pub sessionid: Option<u64>,
    pub bugtext: Option<Seq<char>>,
    pub screenshot: Option<Seq<u8>>,
}

impl View for CMsgClientOGSReportBug {
    type V = SpecCMsgClientOGSReportBug;

    open spec fn view(&self) -> SpecCMsgClientOGSReportBug {
        SpecCMsgClientOGSReportBug {
            sessionid: self.sessionid,
            bugtext: opt_string_view(self.bugtext),
            screenshot: opt_bytes_view(self.screenshot),
        }
    }
}

impl Default for CMsgClientOGSReportBug {
    fn default() -> (r: Self)
        ensures
            r@ == CMsgClientOGSReportBug::spec_default(),
    {
        CMsgClientOGSReportBug {
            sessionid: None,
            bugtext: None,
            screenshot: None,
        }
    }
}

impl CMsgClientOGSReportBug {
    pub open spec fn spec_default() -> SpecCMsgClientOGSReportBug {
        SpecCMsgClientOGSReportBug {
            sessionid: None,
            bugtext: None,
            screenshot: None,
        }
    }

    /// The records a `CMsgClientOGSReportBug` is written as, in field order.
    pub open spec fn spec_fields(v: SpecCMsgClientOGSReportBug) -> Seq<SpecField> {
        Seq::<SpecField>::empty()
            + opt_u64(1, v.sessionid)
            + opt_string(2, v.bugtext)
            + opt_bytes(3, v.screenshot)
    }

    #[verifier::opaque]
    pub open spec fn spec_encode(v: SpecCMsgClientOGSReportBug) -> Seq<u8> {
        fields_bytes(Self::spec_fields(v))
    }

    /// What one record does to the message: a declared number sets or extends its
    /// field, any other number is left alone.
    pub open spec fn spec_apply(v: SpecCMsgClientOGSReportBug, f: SpecField) -> Result<SpecCMsgClientOGSReportBug, WireError> {
        match f.number {
            1 => match dec_u64(f.value) {
                Ok(x) => Ok(SpecCMsgClientOGSReportBug { sessionid: Some(x), ..v }),
                Err(e) => Err(e),
            },
            2 => match dec_string(f.value) {
                Ok(x) => Ok(SpecCMsgClientOGSReportBug { bugtext: Some(x), ..v }),
                Err(e) => Err(e),
            },
            3 => match dec_bytes(f.value) {
                Ok(x) => Ok(SpecCMsgClientOGSReportBug { screenshot: Some(x), ..v }),
                Err(e) => Err(e),
            },
            _ => Ok(v),
        }
    }

    pub open spec fn apply_fn() -> spec_fn(SpecCMsgClientOGSReportBug, SpecField) -> Result<SpecCMsgClientOGSReportBug, WireError> {
        |v: SpecCMsgClientOGSReportBug, f: SpecField| Self::spec_apply(v, f)
    }

    /// The message `bytes` makes of `v`: its records applied in order, or the error
    /// that stops the reading.
    pub open spec fn spec_merge(v: SpecCMsgClientOGSReportBug, bytes: Seq<u8>) -> Result<SpecCMsgClientOGSReportBug, WireError> {
        let (w, stop) = merge_run(v, bytes, Self::apply_fn());
        match stop {
            None => Ok(w),
            Some(e) => Err(e),
        }
    }

    #[verifier::opaque]
    pub open spec fn spec_decode(bytes: Seq<u8>) -> Result<SpecCMsgClientOGSReportBug, WireError> {
        Self::spec_merge(Self::spec_default(), bytes)
    }

    /// This message with one record applied to it, or, when the record is refused,
    /// the message unchanged and the reason.
    fn applied(self, f: &Field) -> (r: Result<Self, (Self, WireError)>)
        ensures
            match Self::spec_apply(self@, f@) {
                Ok(v) => r matches Ok(m) && m@ == v,
                Err(e) => r matches Err((m, x)) && x == e && m@ == self@,
            },
    {
        match f.number {
            1 => match read_u64(&f.value) {
                Ok(x) => Ok(Self { sessionid: Some(x), ..self }),
                Err(e) => Err((self, e)),
            },
            2 => match read_string(&f.value) {
                Ok(x) => Ok(Self { bugtext: Some(x), ..self }),
                Err(e) => Err((self, e)),
            },
            3 => match read_bytes(&f.value) {
                Ok(x) => Ok(Self { screenshot: Some(x), ..self }),
                Err(e) => Err((self, e)),
            },
            _ => Ok(self),
        }
    }

    /// Reads the records `bytes` holds into this message, in order. When a record does
    /// not parse or is refused, the reading stops there: the message keeps what the
    /// records before it gave, and the error is returned.
    pub fn merge(&mut self, bytes: &[u8]) -> (r: Result<(), WireError>)
        ensures
            final(self)@ == merge_run(old(self)@, bytes@, Self::apply_fn()).0,
            r == match merge_run(old(self)@, bytes@, Self::apply_fn()).1 {
                None => Ok::<(), WireError>(()),
                Some(e) => Err::<(), WireError>(e),
            },
    {
        let ghost total = merge_run(self@, bytes@, Self::apply_fn());
        let mut cur = Self::default();
        std::mem::swap(&mut cur, self);
        let mut pos: usize = 0;
        assert(bytes@.skip(0) =~= bytes@);
        while pos < bytes.len()
            invariant
                pos <= bytes@.len(),
                total == merge_run(old(self)@, bytes@, Self::apply_fn()),
                merge_run(cur@, bytes@.skip(pos as int), Self::apply_fn()) == total,
            decreases bytes@.len() - pos,
        {
            let ghost s = bytes@.skip(pos as int);
            proof {
                lemma_merge_run_step(cur@, s, Self::apply_fn());
                lemma_parse_field_len(s);
            }
            match read_field(bytes, pos) {
                Ok((f, end)) => {
                    assert(bytes@.skip(end as int) =~= s.skip((end - pos) as int));
                    match cur.applied(&f) {
                        Ok(m) => {
                            cur = m;
                        },
                        Err((m, e)) => {
                            *self = m;
                            return Err(e);
                        },
                    }
                    pos = end;
                },
                Err(e) => {
                    *self = cur;
                    return Err(e);
                },
            }
        }
        assert(bytes@.skip(pos as int) =~= Seq::<u8>::empty());
        proof {
            lemma_merge_run_empty(cur@, Self::apply_fn());
        }
        *self = cur;
        Ok(())
    }

    /// Decodes a message from its encoding.
    pub fn decode(bytes: &[u8]) -> (r: Result<Self, WireError>)
        ensures
            match Self::spec_decode(bytes@) {
                Ok(v) => r matches Ok(m) && m@ == v,
                Err(e) => r matches Err(x) && x == e,
            },
    {
        proof {
            reveal(CMsgClientOGSReportBug::spec_decode);
        }
        let mut m = Self::default();
        match m.merge(bytes) {
            Ok(()) => Ok(m),
            Err(e) => Err(e),
        }
    }

    /// The encoding of this message.
    pub fn encode_to_vec(&self) -> (r: Vec<u8>)
        ensures
            r@ == Self::spec_encode(self@),
    {
        let ghost v = self@;
        let mut out: Vec<u8> = Vec::new();
        let ghost p0 = Seq::<SpecField>::empty();
        put_opt_varint(&mut out, 1, self.sessionid);
        let ghost p1 = p0 + opt_u64(1, v.sessionid);
        proof {
            lemma_fields_bytes_concat(p0, opt_u64(1, v.sessionid));
        }
        put_opt_string(&mut out, 2, &self.bugtext);
        let ghost p2 = p1 + opt_string(2, v.bugtext);
        proof {
            lemma_fields_bytes_concat(p1, opt_string(2, v.bugtext));
        }
        put_opt_bytes(&mut out, 3, &self.screenshot);
        let ghost p3 = p2 + opt_bytes(3, v.screenshot);
        proof {
            lemma_fields_bytes_concat(p2, opt_bytes(3, v.screenshot));
        }
        proof {
            reveal(CMsgClientOGSReportBug::spec_encode);
        }
        assert(p3 == Self::spec_fields(v));
        out
    }

    /// Appends the encoding of this message to `out`.
    pub fn encode_raw(&self, out: &mut Vec<u8>)
        ensures
            final(out)@ == old(out)@ + Self::spec_encode(self@),
    {
        let mut b = self.encode_to_vec();
        out.append(&mut b);
    }

    /// The first `k` fields of `v`, the others as a fresh message has them.
    #[verifier::opaque]
    pub open spec fn spec_prefix(v: SpecCMsgClientOGSReportBug, k: int) -> SpecCMsgClientOGSReportBug {
        SpecCMsgClientOGSReportBug {
            sessionid: if 1 <= k { v.sessionid } else { None },
            bugtext: if 2 <= k { v.bugtext } else { None },
            screenshot: if 3 <= k { v.screenshot } else { None },
        }
    }

    /// Reading field 1 back, after the fields before it.
    proof fn lemma_field_sessionid(v: SpecCMsgClientOGSReportBug)
        ensures
            fold_fields(Self::spec_prefix(v, 0), opt_u64(1, v.sessionid), Self::apply_fn())
                == Ok::<SpecCMsgClientOGSReportBug, WireError>(Self::spec_prefix(v, 1)),
    {
        reveal(CMsgClientOGSReportBug::spec_prefix);
        reveal(opt_u64);
        let apply = Self::apply_fn();
        let s = Self::spec_prefix(v, 0);
        lemma_fold_opt(s, 1, match v.sessionid { Some(x) => Some(enc_u64(x)), None => None }, apply);
        if let Some(x) = v.sessionid {
            lemma_u64_roundtrip(x);
        }
        assert(SpecCMsgClientOGSReportBug { sessionid: v.sessionid, ..s } == Self::spec_prefix(v, 1));
    }

    /// Reading field 2 back, after the fields before it.
    proof fn lemma_field_bugtext(v: SpecCMsgClientOGSReportBug)
        ensures
            fold_fields(Self::spec_prefix(v, 1), opt_string(2, v.bugtext), Self::apply_fn())
                == Ok::<SpecCMsgClientOGSReportBug, WireError>(Self::spec_prefix(v, 2)),
    {
        reveal(CMsgClientOGSReportBug::spec_prefix);
        reveal(opt_string);
        let apply = Self::apply_fn();
        let s = Self::spec_prefix(v, 1);
        lemma_fold_opt(s, 2, match v.bugtext { Some(x) => Some(enc_string(x)), None => None }, apply);
        if let Some(x) = v.bugtext {
            lemma_string_roundtrip(x);
        }
        assert(SpecCMsgClientOGSReportBug { bugtext: v.bugtext, ..s } == Self::spec_prefix(v, 2));
    }

    /// Reading field 3 back, after the fields before it.
    proof fn lemma_field_screenshot(v: SpecCMsgClientOGSReportBug)
        ensures
            fold_fields(Self::spec_prefix(v, 2), opt_bytes(3, v.screenshot), Self::apply_fn())
                == Ok::<SpecCMsgClientOGSReportBug, WireError>(Self::spec_prefix(v, 3)),
    {
        reveal(CMsgClientOGSReportBug::spec_prefix);
        reveal(opt_bytes);
        let apply = Self::apply_fn();
        let s = Self::spec_prefix(v, 2);
        lemma_fold_opt(s, 3, match v.screenshot { Some(x) => Some(enc_bytes(x)), None => None }, apply);
        assert(SpecCMsgClientOGSReportBug { screenshot: v.screenshot, ..s } == Self::spec_prefix(v, 3));
    }

    /// Whether this message declares field number `n`.
    pub open spec fn declares(n: u32) -> bool {
        n == 1 || n == 2 || n == 3
    }

    /// A record with a number this message does not declare is passed over: well-formed
    /// bytes decode to the same message with such a record after them as without it.
    pub proof fn lemma_unknown_field(bytes: Seq<u8>, f: SpecField)
        requires
            parse_fields(bytes) is Ok,
            field_wf(f),
            !Self::declares(f.number),
        ensures
            Self::spec_decode(bytes + field_bytes(f)) == Self::spec_decode(bytes),
    {
        reveal(CMsgClientOGSReportBug::spec_decode);
        lemma_parse_fields_append(bytes, f);
        let fs = parse_fields(bytes).unwrap();
        let apply = Self::apply_fn();
        lemma_fold_concat(Self::spec_default(), fs, seq![f], apply);
        assert(fs.push(f) =~= fs + seq![f]);
        if let Ok(w) = fold_fields(Self::spec_default(), fs, apply) {
            lemma_fold_single(w, f, apply);
        }
        lemma_merge_run_fold(Self::spec_default(), bytes, apply);
        lemma_merge_run_fold(Self::spec_default(), bytes + field_bytes(f), apply);
    }

    /// Decoding the encoding of a message gives the message back.
    pub proof fn lemma_decode_encode(v: SpecCMsgClientOGSReportBug)
        requires
            Self::spec_encode(v).len() <= u64::MAX,
        ensures
            Self::spec_decode(Self::spec_encode(v)) == Ok::<SpecCMsgClientOGSReportBug, WireError>(v),
    {
        let apply = Self::apply_fn();
        let d = Self::spec_default();
        let p0 = Seq::<SpecField>::empty();
        let l1 = opt_u64(1, v.sessionid);
        let p1 = p0 + l1;
        let l2 = opt_string(2, v.bugtext);
        let p2 = p1 + l2;
        let l3 = opt_bytes(3, v.screenshot);
        let p3 = p2 + l3;
        assert(parse_fields(Self::spec_encode(v)) == Ok::<Seq<SpecField>, WireError>(p3)) by {
            reveal(CMsgClientOGSReportBug::spec_encode);
            assert(numbers_ok(p0) && fields_wf(p0)) by {
                reveal(numbers_ok);
                reveal(fields_wf);
            }
            lemma_opt_u64_numbered(1, v.sessionid);
            lemma_fields_wf_concat(p0, l1);
            lemma_opt_string_numbered(2, v.bugtext);
            lemma_fields_wf_concat(p1, l2);
            lemma_opt_bytes_numbered(3, v.screenshot);
            lemma_fields_wf_concat(p2, l3);
            assert(p3 == Self::spec_fields(v));
            lemma_fields_wf_from_len(p3);
            lemma_fields_roundtrip(p3);
        }
        assert(Self::spec_prefix(v, 0) == d) by {
            reveal(CMsgClientOGSReportBug::spec_prefix);
        }
        lemma_fold_empty(d, apply);
        lemma_fold_concat(d, p0, l1, apply);
        Self::lemma_field_sessionid(v);
        lemma_fold_concat(d, p1, l2, apply);
        Self::lemma_field_bugtext(v);
        lemma_fold_concat(d, p2, l3, apply);
        Self::lemma_field_screenshot(v);
        assert(Self::spec_prefix(v, 3) == v) by {
            reveal(CMsgClientOGSReportBug::spec_prefix);
        }
        lemma_merge_run_fold(d, Self::spec_encode(v), apply);
        assert(Self::spec_decode(Self::spec_encode(v)) == Ok::<SpecCMsgClientOGSReportBug, WireError>(v)) by {
            reveal(CMsgClientOGSReportBug::spec_decode);
        }
    }
}

/// `CMsgClientSentLogs`, as Valve's schema declares it.
#[derive(Debug, Clone, PartialEq)]
pub struct CMsgClientSentLogs {}

/// What a `CMsgClientSentLogs` holds, as mathematical values.
#[verifier::ext_equal]
pub struct SpecCMsgClientSentLogs {}

impl View for CMsgClientSentLogs {
    type V = SpecCMsgClientSentLogs;

    open spec fn view(&self) -> SpecCMsgClientSentLogs {
        SpecCMsgClientSentLogs {}
    }
}

impl Default for CMsgClientSentLogs {
    fn default() -> (r: Self)
        ensures
            r@ == CMsgClientSentLogs::spec_default(),
    {
        CMsgClientSentLogs {}
    }
}

impl CMsgClientSentLogs {
    pub open spec fn spec_default() -> SpecCMsgClientSentLogs {
        SpecCMsgClientSentLogs {}
    }

    /// The records a `CMsgClientSentLogs` is written as, in field order.
    pub open spec fn spec_fields(v: SpecCMsgClientSentLogs) -> Seq<SpecField> {
        Seq::<SpecField>::empty()
    }

    #[verifier::opaque]
    pub open spec fn spec_encode(v: SpecCMsgClientSentLogs) -> Seq<u8> {
        fields_bytes(Self::spec_fields(v))
    }

    /// What one record does to the message: a declared number sets or extends its
    /// field, any other number is left alone.
    pub open spec fn spec_apply(v: SpecCMsgClientSentLogs, f: SpecField) -> Result<SpecCMsgClientSentLogs, WireError> {
        match f.number {
            _ => Ok(v),
        }
    }

    pub open spec fn apply_fn() -> spec_fn(SpecCMsgClientSentLogs, SpecField) -> Result<SpecCMsgClientSentLogs, WireError> {
        |v: SpecCMsgClientSentLogs, f: SpecField| Self::spec_apply(v, f)
    }

    /// The message `bytes` makes of `v`: its records applied in order, or the error
    /// that stops the reading.
    pub open spec fn spec_merge(v: SpecCMsgClientSentLogs, bytes: Seq<u8>) -> Result<SpecCMsgClientSentLogs, WireError> {
        let (w, stop) = merge_run(v, bytes, Self::apply_fn());
        match stop {
            None => Ok(w),
            Some(e) => Err(e),
        }
    }

    #[verifier::opaque]
    pub open spec fn spec_decode(bytes: Seq<u8>) -> Result<SpecCMsgClientSentLogs, WireError> {
        Self::spec_merge(Self::spec_default(), bytes)
    }

    /// This message with one record applied to it, or, when the record is refused,
    /// the message unchanged and the reason.
    fn applied(self, f: &Field) -> (r: Result<Self, (Self, WireError)>)
        ensures
            match Self::spec_apply(self@, f@) {
                Ok(v) => r matches Ok(m) && m@ == v,
                Err(e) => r matches Err((m, x)) && x == e && m@ == self@,
            },
    {
        match f.number {
            _ => Ok(self),
        }
    }

    /// Reads the records `bytes` holds into this message, in order. When a record does
    /// not parse or is refused, the reading stops there: the message keeps what the
    /// records before it gave, and the error is returned.
    pub fn merge(&mut self, bytes: &[u8]) -> (r: Result<(), WireError>)
        ensures
            final(self)@ == merge_run(old(self)@, bytes@, Self::apply_fn()).0,
            r == match merge_run(old(self)@, bytes@, Self::apply_fn()).1 {
                None => Ok::<(), WireError>(()),
                Some(e) => Err::<(), WireError>(e),
            },
    {
        let ghost total = merge_run(self@, bytes@, Self::apply_fn());
        let mut cur = Self::default();
        std::mem::swap(&mut cur, self);
        let mut pos: usize = 0;
        assert(bytes@.skip(0) =~= bytes@);
        while pos < bytes.len()
            invariant
                pos <= bytes@.len(),
                total == merge_run(old(self)@, bytes@, Self::apply_fn()),
                merge_run(cur@, bytes@.skip(pos as int), Self::apply_fn()) == total,
            decreases bytes@.len() - pos,
        {
            let ghost s = bytes@.skip(pos as int);
            proof {
                lemma_merge_run_step(cur@, s, Self::apply_fn());
                lemma_parse_field_len(s);
            }
            match read_field(bytes, pos) {
                Ok((f, end)) => {
                    assert(bytes@.skip(end as int) =~= s.skip((end - pos) as int));
                    match cur.applied(&f) {
                        Ok(m) => {
                            cur = m;
                        },
                        Err((m, e)) => {
                            *self = m;
                            return Err(e);
                        },
                    }
                    pos = end;
                },
                Err(e) => {
                    *self = cur;
                    return Err(e);
                },
            }
        }
        assert(bytes@.skip(pos as int) =~= Seq::<u8>::empty());
        proof {
            lemma_merge_run_empty(cur@, Self::apply_fn());
        }
        *self = cur;
        Ok(())
    }

    /// Decodes a message from its encoding.
    pub fn decode(bytes: &[u8]) -> (r: Result<Self, WireError>)
        ensures
            match Self::spec_decode(bytes@) {
                Ok(v) => r matches Ok(m) && m@ == v,
                Err(e) => r matches Err(x) && x == e,
            },
    {
        proof {
            reveal(CMsgClientSentLogs::spec_decode);
        }
        let mut m = Self::default();
        match m.merge(bytes) {
            Ok(()) => Ok(m),
            Err(e) => Err(e),
        }
    }

    /// The encoding of this message.
    pub fn encode_to_vec(&self) -> (r: Vec<u8>)
        ensures
            r@ == Self::spec_encode(self@),
    {
        let ghost v = self@;
        let mut out: Vec<u8> = Vec::new();
        let ghost p0 = Seq::<SpecField>::empty();
        proof {
            reveal(CMsgClientSentLogs::spec_encode);
        }
        assert(p0 == Self::spec_fields(v));
        assert(out@ =~= fields_bytes(p0));
        out
    }

    /// Appends the encoding of this message to `out`.
    pub fn encode_raw(&self, out: &mut Vec<u8>)
        ensures
            final(out)@ == old(out)@ + Self::spec_encode(self@),
    {
        let mut b = self.encode_to_vec();
        out.append(&mut b);
    }

    /// The first `k` fields of `v`, the others as a fresh message has them.
    #[verifier::opaque]
    pub open spec fn spec_prefix(v: SpecCMsgClientSentLogs, k: int) -> SpecCMsgClientSentLogs {
        SpecCMsgClientSentLogs {}
    }

    /// Whether this message declares field number `n`.
    pub open spec fn declares(n: u32) -> bool {
        false
    }

    /// A record with a number this message does not declare is passed over: well-formed
    /// bytes decode to the same message with such a record after them as without it.
    pub proof fn lemma_unknown_field(bytes: Seq<u8>, f: SpecField)
        requires
            parse_fields(bytes) is Ok,
            field_wf(f),
            !Self::declares(f.number),
        ensures
            Self::spec_decode(bytes + field_bytes(f)) == Self::spec_decode(bytes),
    {
        reveal(CMsgClientSentLogs::spec_decode);
        lemma_parse_fields_append(bytes, f);
        let fs = parse_fields(bytes).unwrap();
        let apply = Self::apply_fn();
        lemma_fold_concat(Self::spec_default(), fs, seq![f], apply);
        assert(fs.push(f) =~= fs + seq![f]);
        if let Ok(w) = fold_fields(Self::spec_default(), fs, apply) {
            lemma_fold_single(w, f, apply);
        }
        lemma_merge_run_fold(Self::spec_default(), bytes, apply);
        lemma_merge_run_fold(Self::spec_default(), bytes + field_bytes(f), apply);
    }

    /// Decoding the encoding of a message gives the message back.
    pub proof fn lemma_decode_encode(v: SpecCMsgClientSentLogs)
        requires
            Self::spec_encode(v).len() <= u64::MAX,
        ensures
            Self::spec_decode(Self::spec_encode(v)) == Ok::<SpecCMsgClientSentLogs, WireError>(v),
    {
        let apply = Self::apply_fn();
        let d = Self::spec_default();
        let p0 = Seq::<SpecField>::empty();
        assert(parse_fields(Self::spec_encode(v)) == Ok::<Seq<SpecField>, WireError>(p0)) by {
            reveal(CMsgClientSentLogs::spec_encode);
            assert(numbers_ok(p0) && fields_wf(p0)) by {
                reveal(numbers_ok);
                reveal(fields_wf);
            }
            assert(p0 == Self::spec_fields(v));
            lemma_fields_wf_from_len(p0);
            lemma_fields_roundtrip(p0);
        }
        assert(Self::spec_prefix(v, 0) == d) by {
            reveal(CMsgClientSentLogs::spec_prefix);
        }
        lemma_fold_empty(d, apply);
        assert(Self::spec_prefix(v, 0) == v) by {
            reveal(CMsgClientSentLogs::spec_prefix);
        }
        lemma_merge_run_fold(d, Self::spec_encode(v), apply);
        assert(Self::spec_decode(Self::spec_encode(v)) == Ok::<SpecCMsgClientSentLogs, WireError>(v)) by {
            reveal(CMsgClientSentLogs::spec_decode);
        }
    }
}

/// `CMsgGCClient`, as Valve's schema declares it.
#[derive(Debug, Clone, PartialEq)]
pub struct CMsgGCClient {
    /// Field 1.
    pub appid: Option<u32>,
    /// Field 2.
    pub msgtype: Option<u32>,
    /// Field 3.
    pub payload: Option<Vec<u8>>,
    /// Field 4.
    pub steamid: Option<u64>,
    /// Field 5.
    pub gcname: Option<String>,
    /// Field 6.
    pub ip: Option<u32>,
    /// Field 7.
    pub flags: Option<u32>,
}

/// What a `CMsgGCClient` holds, as mathematical values.
#[verifier::ext_equal]
pub struct SpecCMsgGCClient {
    pub appid: Option<u32>,
    pub msgtype: Option<u32>,
    pub payload: Option<Seq<u8>>,
    pub steamid: Option<u64>,
    pub gcname: Option<Seq<char>>,
    pub ip: Option<u32>,
    pub flags: Option<u32>,
}

impl View for CMsgGCClient {
    type V = SpecCMsgGCClient;

    open spec fn view(&self) -> SpecCMsgGCClient {
        SpecCMsgGCClient {
            appid: self.appid,
            msgtype: self.msgtype,
            payload: opt_bytes_view(self.payload),
            steamid: self.steamid,
            gcname: opt_string_view(self.gcname),
            ip: self.ip,
            flags: self.flags,
        }
    }
}

impl Default for CMsgGCClient {
    fn default() -> (r: Self)
        ensures
            r@ == CMsgGCClient::spec_default(),
    {
        CMsgGCClient {
            appid: None,
            msgtype: None,
            payload: None,
            steamid: None,
            gcname: None,
            ip: None,
            flags: None,
        }
    }
}

impl CMsgGCClient {
    pub open spec fn spec_default() -> SpecCMsgGCClient {
        SpecCMsgGCClient {
            appid: None,
            msgtype: None,
            payload: None,
            steamid: None,
            gcname: None,
            ip: None,
            flags: None,
        }
    }

    /// The records a `CMsgGCClient` is written as, in field order.
    pub open spec fn spec_fields(v: SpecCMsgGCClient) -> Seq<SpecField> {
        Seq::<SpecField>::empty()
            + opt_u32(1, v.appid)
            + opt_u32(2, v.msgtype)
            + opt_bytes(3, v.payload)
            + opt_fixed64(4, v.steamid)
            + opt_string(5, v.gcname)
            + opt_u32(6, v.ip)
            + opt_u32(7, v.flags)
    }

    #[verifier::opaque]
    pub open spec fn spec_encode(v: SpecCMsgGCClient) -> Seq<u8> {
        fields_bytes(Self::spec_fields(v))
    }

    /// What one record does to the message: a declared number sets or extends its
    /// field, any other number is left alone.
    pub open spec fn spec_apply(v: SpecCMsgGCClient, f: SpecField) -> Result<SpecCMsgGCClient, WireError> {
        match f.number {
            1 => match dec_u32(f.value) {
                Ok(x) => Ok(SpecCMsgGCClient { appid: Some(x), ..v }),
                Err(e) => Err(e),
            },
            2 => match dec_u32(f.value) {
                Ok(x) => Ok(SpecCMsgGCClient { msgtype: Some(x), ..v }),
                Err(e) => Err(e),
            },
            3 => match dec_bytes(f.value) {
                Ok(x) => Ok(SpecCMsgGCClient { payload: Some(x), ..v }),
                Err(e) => Err(e),
            },
            4 => match dec_fixed64(f.value) {
                Ok(x) => Ok(SpecCMsgGCClient { steamid: Some(x), ..v }),
                Err(e) => Err(e),
            },
            5 => match dec_string(f.value) {
                Ok(x) => Ok(SpecCMsgGCClient { gcname: Some(x), ..v }),
                Err(e) => Err(e),
            },
            6 => match dec_u32(f.value) {
                Ok(x) => Ok(SpecCMsgGCClient { ip: Some(x), ..v }),
                Err(e) => Err(e),
            },
            7 => match dec_u32(f.value) {
                Ok(x) => Ok(SpecCMsgGCClient { flags: Some(x), ..v }),
                Err(e) => Err(e),
            },
            _ => Ok(v),
        }
    }

    pub open spec fn apply_fn() -> spec_fn(SpecCMsgGCClient, SpecField) -> Result<SpecCMsgGCClient, WireError> {
        |v: SpecCMsgGCClient, f: SpecField| Self::spec_apply(v, f)
    }

    /// The message `bytes` makes of `v`: its records applied in order, or the error
    /// that stops the reading.
    pub open spec fn spec_merge(v: SpecCMsgGCClient, bytes: Seq<u8>) -> Result<SpecCMsgGCClient, WireError> {
        let (w, stop) = merge_run(v, bytes, Self::apply_fn());
        match stop {
            None => Ok(w),
            Some(e) => Err(e),
        }
    }

    #[verifier::opaque]
    pub open spec fn spec_decode(bytes: Seq<u8>) -> Result<SpecCMsgGCClient, WireError> {
        Self::spec_merge(Self::spec_default(), bytes)
    }

    /// This message with one record applied to it, or, when the record is refused,
    /// the message unchanged and the reason.
    fn applied(self, f: &Field) -> (r: Result<Self, (Self, WireError)>)
        ensures
            match Self::spec_apply(self@, f@) {
                Ok(v) => r matches Ok(m) && m@ == v,
                Err(e) => r matches Err((m, x)) && x == e && m@ == self@,
            },
    {
        match f.number {
            1 => match read_u32(&f.value) {
                Ok(x) => Ok(Self { appid: Some(x), ..self }),
                Err(e) => Err((self, e)),
            },
            2 => match read_u32(&f.value) {
                Ok(x) => Ok(Self { msgtype: Some(x), ..self }),
                Err(e) => Err((self, e)),
            },
            3 => match read_bytes(&f.value) {
                Ok(x) => Ok(Self { payload: Some(x), ..self }),
                Err(e) => Err((self, e)),
            },
            4 => match read_fixed64(&f.value) {
                Ok(x) => Ok(Self { steamid: Some(x), ..self }),
                Err(e) => Err((self, e)),
            },
            5 => match read_string(&f.value) {
                Ok(x) => Ok(Self { gcname: Some(x), ..self }),
                Err(e) => Err((self, e)),
            },
            6 => match read_u32(&f.value) {
                Ok(x) => Ok(Self { ip: Some(x), ..self }),
                Err(e) => Err((self, e)),
            },
            7 => match read_u32(&f.value) {
                Ok(x) => Ok(Self { flags: Some(x), ..self }),
                Err(e) => Err((self, e)),
            },
            _ => Ok(self),
        }
    }

    /// Reads the records `bytes` holds into this message, in order. When a record does
    /// not parse or is refused, the reading stops there: the message keeps what the
    /// records before it gave, and the error is returned.
    pub fn merge(&mut self, bytes: &[u8]) -> (r: Result<(), WireError>)
        ensures
            final(self)@ == merge_run(old(self)@, bytes@, Self::apply_fn()).0,
            r == match merge_run(old(self)@, bytes@, Self::apply_fn()).1 {
                None => Ok::<(), WireError>(()),
                Some(e) => Err::<(), WireError>(e),
            },
    {
        let ghost total = merge_run(self@, bytes@, Self::apply_fn());
        let mut cur = Self::default();
        std::mem::swap(&mut cur, self);
        let mut pos: usize = 0;
        assert(bytes@.skip(0) =~= bytes@);
        while pos < bytes.len()
            invariant
                pos <= bytes@.len(),
                total == merge_run(old(self)@, bytes@, Self::apply_fn()),
                merge_run(cur@, bytes@.skip(pos as int), Self::apply_fn()) == total,
            decreases bytes@.len() - pos,
        {
            let ghost s = bytes@.skip(pos as int);
            proof {
                lemma_merge_run_step(cur@, s, Self::apply_fn());
                lemma_parse_field_len(s);
            }
            match read_field(bytes, pos) {
                Ok((f, end)) => {
                    assert(bytes@.skip(end as int) =~= s.skip((end - pos) as int));
                    match cur.applied(&f) {
                        Ok(m) => {
                            cur = m;
                        },
                        Err((m, e)) => {
                            *self = m;
                            return Err(e);
                        },
                    }
                    pos = end;
                },
                Err(e) => {
                    *self = cur;
                    return Err(e);
                },
            }
        }
        assert(bytes@.skip(pos as int) =~= Seq::<u8>::empty());
        proof {
            lemma_merge_run_empty(cur@, Self::apply_fn());
        }
        *self = cur;
        Ok(())
    }

    /// Decodes a message from its encoding.
    pub fn decode(bytes: &[u8]) -> (r: Result<Self, WireError>)
        ensures
            match Self::spec_decode(bytes@) {
                Ok(v) => r matches Ok(m) && m@ == v,
                Err(e) => r matches Err(x) && x == e,
            },
    {
        proof {
            reveal(CMsgGCClient::spec_decode);
        }
        let mut m = Self::default();
        match m.merge(bytes) {
            Ok(()) => Ok(m),
            Err(e) => Err(e),
        }
    }

    /// The encoding of this message.
    pub fn encode_to_vec(&self) -> (r: Vec<u8>)
        ensures
            r@ == Self::spec_encode(self@),
    {
        let ghost v = self@;
        let mut out: Vec<u8> = Vec::new();
        let ghost p0 = Seq::<SpecField>::empty();
        put_opt_u32(&mut out, 1, self.appid);
        let ghost p1 = p0 + opt_u32(1, v.appid);
        proof {
            lemma_fields_bytes_concat(p0, opt_u32(1, v.appid));
        }
        put_opt_u32(&mut out, 2, self.msgtype);
        let ghost p2 = p1 + opt_u32(2, v.msgtype);
        proof {
            lemma_fields_bytes_concat(p1, opt_u32(2, v.msgtype));
        }
        put_opt_bytes(&mut out, 3, &self.payload);
        let ghost p3 = p2 + opt_bytes(3, v.payload);
        proof {
            lemma_fields_bytes_concat(p2, opt_bytes(3, v.payload));
        }
        put_opt_fixed64(&mut out, 4, self.steamid);
        let ghost p4 = p3 + opt_fixed64(4, v.steamid);
        proof {
            lemma_fields_bytes_concat(p3, opt_fixed64(4, v.steamid));
        }
        put_opt_string(&mut out, 5, &self.gcname);
        let ghost p5 = p4 + opt_string(5, v.gcname);
        proof {
            lemma_fields_bytes_concat(p4, opt_string(5, v.gcname));
        }
        put_opt_u32(&mut out, 6, self.ip);
        let ghost p6 = p5 + opt_u32(6, v.ip);
        proof {
            lemma_fields_bytes_concat(p5, opt_u32(6, v.ip));
        }
        put_opt_u32(&mut out, 7, self.flags);
        let ghost p7 = p6 + opt_u32(7, v.flags);
        proof {
            lemma_fields_bytes_concat(p6, opt_u32(7, v.flags));
        }
        proof {
            reveal(CMsgGCClient::spec_encode);
        }
        assert(p7 == Self::spec_fields(v));
        out
    }

    /// Appends the encoding of this message to `out`.
    pub fn encode_raw(&self, out: &mut Vec<u8>)
        ensures
            final(out)@ == old(out)@ + Self::spec_encode(self@),
    {
        let mut b = self.encode_to_vec();
        out.append(&mut b);
    }

    /// The first `k` fields of `v`, the others as a fresh message has them.
    #[verifier::opaque]
    pub open spec fn spec_prefix(v: SpecCMsgGCClient, k: int) -> SpecCMsgGCClient {
        SpecCMsgGCClient {
            appid: if 1 <= k { v.appid } else { None },
            msgtype: if 2 <= k { v.msgtype } else { None },
            payload: if 3 <= k { v.payload } else { None },
            steamid: if 4 <= k { v.steamid } else { None },
            gcname: if 5 <= k { v.gcname } else { None },
            ip: if 6 <= k { v.ip } else { None },
            flags: if 7 <= k { v.flags } else { None },
        }
    }

    /// Reading field 1 back, after the fields before it.
    proof fn lemma_field_appid(v: SpecCMsgGCClient)
        ensures
            fold_fields(Self::spec_prefix(v, 0), opt_u32(1, v.appid), Self::apply_fn())
                == Ok::<SpecCMsgGCClient, WireError>(Self::spec_prefix(v, 1)),
    {
        reveal(CMsgGCClient::spec_prefix);
        reveal(opt_u32);
        let apply = Self::apply_fn();
        let s = Self::spec_prefix(v, 0);
        lemma_fold_opt(s, 1, match v.appid { Some(x) => Some(enc_u32(x)), None => None }, apply);
        if let Some(x) = v.appid {
            lemma_u32_roundtrip(x);
        }
        assert(SpecCMsgGCClient { appid: v.appid, ..s } == Self::spec_prefix(v, 1));
    }

    /// Reading field 2 back, after the fields before it.
    proof fn lemma_field_msgtype(v: SpecCMsgGCClient)
        ensures
            fold_fields(Self::spec_prefix(v, 1), opt_u32(2, v.msgtype), Self::apply_fn())
                == Ok::<SpecCMsgGCClient, WireError>(Self::spec_prefix(v, 2)),
    {
        reveal(CMsgGCClient::spec_prefix);
        reveal(opt_u32);
        let apply = Self::apply_fn();
        let s = Self::spec_prefix(v, 1);
        lemma_fold_opt(s, 2, match v.msgtype { Some(x) => Some(enc_u32(x)), None => None }, apply);
        if let Some(x) = v.msgtype {
            lemma_u32_roundtrip(x);
        }
        assert(SpecCMsgGCClient { msgtype: v.msgtype, ..s } == Self::spec_prefix(v, 2));
    }

    /// Reading field 3 back, after the fields before it.
    proof fn lemma_field_payload(v: SpecCMsgGCClient)
        ensures
            fold_fields(Self::spec_prefix(v, 2), opt_bytes(3, v.payload), Self::apply_fn())
                == Ok::<SpecCMsgGCClient, WireError>(Self::spec_prefix(v, 3)),
    {
        reveal(CMsgGCClient::spec_prefix);
        reveal(opt_bytes);
        let apply = Self::apply_fn();
        let s = Self::spec_prefix(v, 2);
        lemma_fold_opt(s, 3, match v.payload { Some(x) => Some(enc_bytes(x)), None => None }, apply);
        assert(SpecCMsgGCClient { payload: v.payload, ..s } == Self::spec_prefix(v, 3));
    }

    /// Reading field 4 back, after the fields before it.
    proof fn lemma_field_steamid(v: SpecCMsgGCClient)
        ensures
            fold_fields(Self::spec_prefix(v, 3), opt_fixed64(4, v.steamid), Self::apply_fn())
                == Ok::<SpecCMsgGCClient, WireError>(Self::spec_prefix(v, 4)),
    {
        reveal(CMsgGCClient::spec_prefix);
        reveal(opt_fixed64);
        let apply = Self::apply_fn();
        let s = Self::spec_prefix(v, 3);
        lemma_fold_opt(s, 4, match v.steamid { Some(x) => Some(enc_fixed64(x)), None => None }, apply);
        if let Some(x) = v.steamid {
            lemma_u64_roundtrip(x);
        }
        assert(SpecCMsgGCClient { steamid: v.steamid, ..s } == Self::spec_prefix(v, 4));
    }

    /// Reading field 5 back, after the fields before it.
    proof fn lemma_field_gcname(v: SpecCMsgGCClient)
        ensures
            fold_fields(Self::spec_prefix(v, 4), opt_string(5, v.gcname), Self::apply_fn())
                == Ok::<SpecCMsgGCClient, WireError>(Self::spec_prefix(v, 5)),
    {
        reveal(CMsgGCClient::spec_prefix);
        reveal(opt_string);
        let apply = Self::apply_fn();
        let s = Self::spec_prefix(v, 4);
        lemma_fold_opt(s, 5, match v.gcname { Some(x) => Some(enc_string(x)), None => None }, apply);
        if let Some(x) = v.gcname {
            lemma_string_roundtrip(x);
        }
        assert(SpecCMsgGCClient { gcname: v.gcname, ..s } == Self::spec_prefix(v, 5));
    }

    /// Reading field 6 back, after the fields before it.
    proof fn lemma_field_ip(v: SpecCMsgGCClient)
        ensures
            fold_fields(Self::spec_prefix(v, 5), opt_u32(6, v.ip), Self::apply_fn())
                == Ok::<SpecCMsgGCClient, WireError>(Self::spec_prefix(v, 6)),
    {
        reveal(CMsgGCClient::spec_prefix);
        reveal(opt_u32);
        let apply = Self::apply_fn();
        let s = Self::spec_prefix(v, 5);
        lemma_fold_opt(s, 6, match v.ip { Some(x) => Some(enc_u32(x)), None => None }, apply);
        if let Some(x) = v.ip {
            lemma_u32_roundtrip(x);
        }
        assert(SpecCMsgGCClient { ip: v.ip, ..s } == Self::spec_prefix(v, 6));
    }

    /// Reading field 7 back, after the fields before it.
    proof fn lemma_field_flags(v: SpecCMsgGCClient)
        ensures
            fold_fields(Self::spec_prefix(v, 6), opt_u32(7, v.flags), Self::apply_fn())
                == Ok::<SpecCMsgGCClient, WireError>(Self::spec_prefix(v, 7)),
    {
        reveal(CMsgGCClient::spec_prefix);
        reveal(opt_u32);
        let apply = Self::apply_fn();
        let s = Self::spec_prefix(v, 6);
        lemma_fold_opt(s, 7, match v.flags { Some(x) => Some(enc_u32(x)), None => None }, apply);
        if let Some(x) = v.flags {
            lemma_u32_roundtrip(x);
        }
        assert(SpecCMsgGCClient { flags: v.flags, ..s } == Self::spec_prefix(v, 7));
    }

    /// Whether this message declares field number `n`.
    pub open spec fn declares(n: u32) -> bool {
        n == 1 || n == 2 || n == 3 || n == 4 || n == 5 || n == 6 || n == 7
    }

    /// A record with a number this message does not declare is passed over: well-formed
    /// bytes decode to the same message with such a record after them as without it.
    pub proof fn lemma_unknown_field(bytes: Seq<u8>, f: SpecField)
        requires
            parse_fields(bytes) is Ok,
            field_wf(f),
            !Self::declares(f.number),
        ensures
            Self::spec_decode(bytes + field_bytes(f)) == Self::spec_decode(bytes),
    {
        reveal(CMsgGCClient::spec_decode);
        lemma_parse_fields_append(bytes, f);
        let fs = parse_fields(bytes).unwrap();
        let apply = Self::apply_fn();
        lemma_fold_concat(Self::spec_default(), fs, seq![f], apply);
        assert(fs.push(f) =~= fs + seq![f]);
        if let Ok(w) = fold_fields(Self::spec_default(), fs, apply) {
            lemma_fold_single(w, f, apply);
        }
        lemma_merge_run_fold(Self::spec_default(), bytes, apply);
        lemma_merge_run_fold(Self::spec_default(), bytes + field_bytes(f), apply);
    }

    /// Decoding the encoding of a message gives the message back.
    pub proof fn lemma_decode_encode(v: SpecCMsgGCClient)
        requires
            Self::spec_encode(v).len() <= u64::MAX,
        ensures
            Self::spec_decode(Self::spec_encode(v)) == Ok::<SpecCMsgGCClient, WireError>(v),
    {
        let apply = Self::apply_fn();
        let d = Self::spec_default();
        let p0 = Seq::<SpecField>::empty();
        let l1 = opt_u32(1, v.appid);
        let p1 = p0 + l1;
        let l2 = opt_u32(2, v.msgtype);
        let p2 = p1 + l2;
        let l3 = opt_bytes(3, v.payload);
        let p3 = p2 + l3;
        let l4 = opt_fixed64(4, v.steamid);
        let p4 = p3 + l4;
        let l5 = opt_string(5, v.gcname);
        let p5 = p4 + l5;
        let l6 = opt_u32(6, v.ip);
        let p6 = p5 + l6;
        let l7 = opt_u32(7, v.flags);
        let p7 = p6 + l7;
        assert(parse_fields(Self::spec_encode(v)) == Ok::<Seq<SpecField>, WireError>(p7)) by {
            reveal(CMsgGCClient::spec_encode);
            assert(numbers_ok(p0) && fields_wf(p0)) by {
                reveal(numbers_ok);
                reveal(fields_wf);
            }
            lemma_opt_u32_numbered(1, v.appid);
            lemma_fields_wf_concat(p0, l1);
            lemma_opt_u32_numbered(2, v.msgtype);
            lemma_fields_wf_concat(p1, l2);
            lemma_opt_bytes_numbered(3, v.payload);
            lemma_fields_wf_concat(p2, l3);
            lemma_opt_fixed64_numbered(4, v.steamid);
            lemma_fields_wf_concat(p3, l4);
            lemma_opt_string_numbered(5, v.gcname);
            lemma_fields_wf_concat(p4, l5);
            lemma_opt_u32_numbered(6, v.ip);
            lemma_fields_wf_concat(p5, l6);
            lemma_opt_u32_numbered(7, v.flags);
            lemma_fields_wf_concat(p6, l7);
            assert(p7 == Self::spec_fields(v));
            lemma_fields_wf_from_len(p7);
            lemma_fields_roundtrip(p7);
        }
        assert(Self::spec_prefix(v, 0) == d) by {
            reveal(CMsgGCClient::spec_prefix);
        }
        lemma_fold_empty(d, apply);
        lemma_fold_concat(d, p0, l1, apply);
        Self::lemma_field_appid(v);
        lemma_fold_concat(d, p1, l2, apply);
        Self::lemma_field_msgtype(v);
        lemma_fold_concat(d, p2, l3, apply);
        Self::lemma_field_payload(v);
        lemma_fold_concat(d, p3, l4, apply);
        Self::lemma_field_steamid(v);
        lemma_fold_concat(d, p4, l5, apply);
        Self::lemma_field_gcname(v);
        lemma_fold_concat(d, p5, l6, apply);
        Self::lemma_field_ip(v);
        lemma_fold_concat(d, p6, l7, apply);
        Self::lemma_field_flags(v);
        assert(Self::spec_prefix(v, 7) == v) by {
            reveal(CMsgGCClient::spec_prefix);
        }
        lemma_merge_run_fold(d, Self::spec_encode(v), apply);
        assert(Self::spec_decode(Self::spec_encode(v)) == Ok::<SpecCMsgGCClient, WireError>(v)) by {
            reveal(CMsgGCClient::spec_decode);
        }
    }
}

/// `CMsgClientRequestFreeLicense`, as Valve's schema declares it.
#[derive(Debug, Clone, PartialEq)]
pub struct CMsgClientRequestFreeLicense {
    /// Field 2.
    pub appids: Vec<u32>,
}

/// What a `CMsgClientRequestFreeLicense` holds, as mathematical values.
#[verifier::ext_equal]
pub struct SpecCMsgClientRequestFreeLicense {
    pub appids: Seq<u32>,
}

impl View for CMsgClientRequestFreeLicense {
    type V = SpecCMsgClientRequestFreeLicense;

    open spec fn view(&self) -> SpecCMsgClientRequestFreeLicense {
        SpecCMsgClientRequestFreeLicense {
            appids: self.appids@,
        }
    }
}

impl Default for CMsgClientRequestFreeLicense {
    fn default() -> (r: Self)
        ensures
            r@ == CMsgClientRequestFreeLicense::spec_default(),
    {
        CMsgClientRequestFreeLicense {
            appids: Vec::new(),
        }
    }
}

impl CMsgClientRequestFreeLicense {
    pub open spec fn spec_default() -> SpecCMsgClientRequestFreeLicense {
        SpecCMsgClientRequestFreeLicense {
            appids: Seq::empty(),
        }
    }

    /// The records a `CMsgClientRequestFreeLicense` is written as, in field order.
    pub open spec fn spec_fields(v: SpecCMsgClientRequestFreeLicense) -> Seq<SpecField> {
        Seq::<SpecField>::empty()
            + rep_u32(2, v.appids)
    }

    #[verifier::opaque]
    pub open spec fn spec_encode(v: SpecCMsgClientRequestFreeLicense) -> Seq<u8> {
        fields_bytes(Self::spec_fields(v))
    }

    /// What one record does to the message: a declared number sets or extends its
    /// field, any other number is left alone.
    pub open spec fn spec_apply(v: SpecCMsgClientRequestFreeLicense, f: SpecField) -> Result<SpecCMsgClientRequestFreeLicense, WireError> {
        match f.number {
            2 => match dec_packed_u32(f.value) {
                Ok(xs) => Ok(SpecCMsgClientRequestFreeLicense { appids: v.appids + xs, ..v }),
                Err(e) => Err(e),
            },
            _ => Ok(v),
        }
    }

    pub open spec fn apply_fn() -> spec_fn(SpecCMsgClientRequestFreeLicense, SpecField) -> Result<SpecCMsgClientRequestFreeLicense, WireError> {
        |v: SpecCMsgClientRequestFreeLicense, f: SpecField| Self::spec_apply(v, f)
    }

    /// The message `bytes` makes of `v`: its records applied in order, or the error
    /// that stops the reading.
    pub open spec fn spec_merge(v: SpecCMsgClientRequestFreeLicense, bytes: Seq<u8>) -> Result<SpecCMsgClientRequestFreeLicense, WireError> {
        let (w, stop) = merge_run(v, bytes, Self::apply_fn());
        match stop {
            None => Ok(w),
            Some(e) => Err(e),
        }
    }

    #[verifier::opaque]
    pub open spec fn spec_decode(bytes: Seq<u8>) -> Result<SpecCMsgClientRequestFreeLicense, WireError> {
        Self::spec_merge(Self::spec_default(), bytes)
    }

    /// This message with one record applied to it, or, when the record is refused,
    /// the message unchanged and the reason.
    fn applied(self, f: &Field) -> (r: Result<Self, (Self, WireError)>)
        ensures
            match Self::spec_apply(self@, f@) {
                Ok(v) => r matches Ok(m) && m@ == v,
                Err(e) => r matches Err((m, x)) && x == e && m@ == self@,
            },
    {
        match f.number {
            2 => match read_packed_u32(&f.value) {
                Ok(xs) => {
                    let mut m = self;
                    let mut xs = xs;
                    m.appids.append(&mut xs);
                    Ok(m)
                },
                Err(e) => Err((self, e)),
            },
            _ => Ok(self),
        }
    }

    /// Reads the records `bytes` holds into this message, in order. When a record does
    /// not parse or is refused, the reading stops there: the message keeps what the
    /// records before it gave, and the error is returned.
    pub fn merge(&mut self, bytes: &[u8]) -> (r: Result<(), WireError>)
        ensures
            final(self)@ == merge_run(old(self)@, bytes@, Self::apply_fn()).0,
            r == match merge_run(old(self)@, bytes@, Self::apply_fn()).1 {
                None => Ok::<(), WireError>(()),
                Some(e) => Err::<(), WireError>(e),
            },
    {
        let ghost total = merge_run(self@, bytes@, Self::apply_fn());
        let mut cur = Self::default();
        std::mem::swap(&mut cur, self);
        let mut pos: usize = 0;
        assert(bytes@.skip(0) =~= bytes@);
        while pos < bytes.len()
            invariant
                pos <= bytes@.len(),
                total == merge_run(old(self)@, bytes@, Self::apply_fn()),
                merge_run(cur@, bytes@.skip(pos as int), Self::apply_fn()) == total,
            decreases bytes@.len() - pos,
        {
            let ghost s = bytes@.skip(pos as int);
            proof {
                lemma_merge_run_step(cur@, s, Self::apply_fn());
                lemma_parse_field_len(s);
            }
            match read_field(bytes, pos) {
                Ok((f, end)) => {
                    assert(bytes@.skip(end as int) =~= s.skip((end - pos) as int));
                    match cur.applied(&f) {
                        Ok(m) => {
                            cur = m;
                        },
                        Err((m, e)) => {
                            *self = m;
                            return Err(e);
                        },
                    }
                    pos = end;
                },
                Err(e) => {
                    *self = cur;
                    return Err(e);
                },
            }
        }
        assert(bytes@.skip(pos as int) =~= Seq::<u8>::empty());
        proof {
            lemma_merge_run_empty(cur@, Self::apply_fn());
        }
        *self = cur;
        Ok(())
    }

    /// Decodes a message from its encoding.
    pub fn decode(bytes: &[u8]) -> (r: Result<Self, WireError>)
        ensures
            match Self::spec_decode(bytes@) {
                Ok(v) => r matches Ok(m) && m@ == v,
                Err(e) => r matches Err(x) && x == e,
            },
    {
        proof {
            reveal(CMsgClientRequestFreeLicense::spec_decode);
        }
        let mut m = Self::default();
        match m.merge(bytes) {
            Ok(()) => Ok(m),
            Err(e) => Err(e),
        }
    }

    /// The encoding of this message.
    pub fn encode_to_vec(&self) -> (r: Vec<u8>)
        ensures
            r@ == Self::spec_encode(self@),
    {
        let ghost v = self@;
        let mut out: Vec<u8> = Vec::new();
        let ghost p0 = Seq::<SpecField>::empty();
        put_rep_u32(&mut out, 2, &self.appids);
        let ghost p1 = p0 + rep_u32(2, v.appids);
        proof {
            lemma_fields_bytes_concat(p0, rep_u32(2, v.appids));
        }
        proof {
            reveal(CMsgClientRequestFreeLicense::spec_encode);
        }
        assert(p1 == Self::spec_fields(v));
        out
    }

    /// Appends the encoding of this message to `out`.
    pub fn encode_raw(&self, out: &mut Vec<u8>)
        ensures
            final(out)@ == old(out)@ + Self::spec_encode(self@),
    {
        let mut b = self.encode_to_vec();
        out.append(&mut b);
    }

    /// The first `k` fields of `v`, the others as a fresh message has them.
    #[verifier::opaque]
    pub open spec fn spec_prefix(v: SpecCMsgClientRequestFreeLicense, k: int) -> SpecCMsgClientRequestFreeLicense {
        SpecCMsgClientRequestFreeLicense {
            appids: if 1 <= k { v.appids } else { Seq::empty() },
        }
    }

    /// Reading field 2 back, after the fields before it.
    proof fn lemma_field_appids(v: SpecCMsgClientRequestFreeLicense)
        ensures
            fold_fields(Self::spec_prefix(v, 0), rep_u32(2, v.appids), Self::apply_fn())
                == Ok::<SpecCMsgClientRequestFreeLicense, WireError>(Self::spec_prefix(v, 1)),
    {
        reveal(CMsgClientRequestFreeLicense::spec_prefix);
        reveal(rep_u32);
        let apply = Self::apply_fn();
        let s = Self::spec_prefix(v, 0);
        let l = rep_u32(2, v.appids);
        let xs = v.appids;
        let st = Seq::new((xs.len() + 1) as nat, |j: int| SpecCMsgClientRequestFreeLicense { appids: xs.take(j), ..s });
        assert forall|j: int| 0 <= j < l.len() implies #[trigger] apply(st[j], l[j]) == Ok::<SpecCMsgClientRequestFreeLicense, WireError>(st[j + 1]) by {
            lemma_u32_roundtrip(xs[j]);
            assert(xs.take(j) + seq![xs[j]] =~= xs.take(j + 1));
        }
        lemma_fold_chain(l, st, apply);
        assert(xs.take(0) =~= Seq::<u32>::empty());
        assert(xs.take(xs.len() as int) =~= xs);
        assert(st[0] == s);
        assert(st[xs.len() as int] == Self::spec_prefix(v, 1));
    }

    /// Whether this message declares field number `n`.
    pub open spec fn declares(n: u32) -> bool {
        n == 2
    }

    /// A record with a number this message does not declare is passed over: well-formed
    /// bytes decode to the same message with such a record after them as without it.
    pub proof fn lemma_unknown_field(bytes: Seq<u8>, f: SpecField)
        requires
            parse_fields(bytes) is Ok,
            field_wf(f),
            !Self::declares(f.number),
        ensures
            Self::spec_decode(bytes + field_bytes(f)) == Self::spec_decode(bytes),
    {
        reveal(CMsgClientRequestFreeLicense::spec_decode);
        lemma_parse_fields_append(bytes, f);
        let fs = parse_fields(bytes).unwrap();
        let apply = Self::apply_fn();
        lemma_fold_concat(Self::spec_default(), fs, seq![f], apply);
        assert(fs.push(f) =~= fs + seq![f]);
        if let Ok(w) = fold_fields(Self::spec_default(), fs, apply) {
            lemma_fold_single(w, f, apply);
        }
        lemma_merge_run_fold(Self::spec_default(), bytes, apply);
        lemma_merge_run_fold(Self::spec_default(), bytes + field_bytes(f), apply);
    }

    /// Decoding the encoding of a message gives the message back.
    pub proof fn lemma_decode_encode(v: SpecCMsgClientRequestFreeLicense)
        requires
            Self::spec_encode(v).len() <= u64::MAX,
        ensures
            Self::spec_decode(Self::spec_encode(v)) == Ok::<SpecCMsgClientRequestFreeLicense, WireError>(v),
    {
        let apply = Self::apply_fn();
        let d = Self::spec_default();
        let p0 = Seq::<SpecField>::empty();
        let l1 = rep_u32(2, v.appids);
        let p1 = p0 + l1;
        assert(parse_fields(Self::spec_encode(v)) == Ok::<Seq<SpecField>, WireError>(p1)) by {
            reveal(CMsgClientRequestFreeLicense::spec_encode);
            assert(numbers_ok(p0) && fields_wf(p0)) by {
                reveal(numbers_ok);
                reveal(fields_wf);
            }
            lemma_rep_u32_numbered(2, v.appids);
            lemma_fields_wf_concat(p0, l1);
            assert(p1 == Self::spec_fields(v));
            lemma_fields_wf_from_len(p1);
            lemma_fields_roundtrip(p1);
        }
        assert(Self::spec_prefix(v, 0) == d) by {
            reveal(CMsgClientRequestFreeLicense::spec_prefix);
        }
        lemma_fold_empty(d, apply);
        lemma_fold_concat(d, p0, l1, apply);
        Self::lemma_field_appids(v);
        assert(Self::spec_prefix(v, 1) == v) by {
            reveal(CMsgClientRequestFreeLicense::spec_prefix);
        }
        lemma_merge_run_fold(d, Self::spec_encode(v), apply);
        assert(Self::spec_decode(Self::spec_encode(v)) == Ok::<SpecCMsgClientRequestFreeLicense, WireError>(v)) by {
            reveal(CMsgClientRequestFreeLicense::spec_decode);
        }
    }
}

/// `CMsgClientRequestFreeLicenseResponse`, as Valve's schema declares it.
#[derive(Debug, Clone, PartialEq)]
pub struct CMsgClientRequestFreeLicenseResponse {
    /// Field 1.
    pub eresult: Option<u32>,
    /// Field 2.
    pub granted_packageids: Vec<u32>,
    /// Field 3.
    pub granted_appids: Vec<u32>,
}

/// What a `CMsgClientRequestFreeLicenseResponse` holds, as mathematical values.
#[verifier::ext_equal]
pub struct SpecCMsgClientRequestFreeLicenseResponse {
    pub eresult: Option<u32>,
    pub granted_packageids: Seq<u32>,
    pub granted_appids: Seq<u32>,
}

impl View for CMsgClientRequestFreeLicenseResponse {
    type V = SpecCMsgClientRequestFreeLicenseResponse;

    open spec fn view(&self) -> SpecCMsgClientRequestFreeLicenseResponse {
        SpecCMsgClientRequestFreeLicenseResponse {
            eresult: self.eresult,
            granted_packageids: self.granted_packageids@,
            granted_appids: self.granted_appids@,
        }
    }
}

impl Default for CMsgClientRequestFreeLicenseResponse {
    fn default() -> (r: Self)
        ensures
            r@ == CMsgClientRequestFreeLicenseResponse::spec_default(),
    {
        CMsgClientRequestFreeLicenseResponse {
            eresult: None,
            granted_packageids: Vec::new(),
            granted_appids: Vec::new(),
        }
    }
}

impl CMsgClientRequestFreeLicenseResponse {
    /// Field 1, or its schema default when absent.
    pub fn eresult_or_default(&self) -> (r: u32)
        ensures
            r == match self.eresult {
                Some(x) => x,
                None => 2u32,
            },
    {
        self.eresult.unwrap_or(2u32)
    }

    pub open spec fn spec_default() -> SpecCMsgClientRequestFreeLicenseResponse {
        SpecCMsgClientRequestFreeLicenseResponse {
            eresult: None,
            granted_packageids: Seq::empty(),
            granted_appids: Seq::empty(),
        }
    }

    /// The records a `CMsgClientRequestFreeLicenseResponse` is written as, in field order.
    pub open spec fn spec_fields(v: SpecCMsgClientRequestFreeLicenseResponse) -> Seq<SpecField> {
        Seq::<SpecField>::empty()
            + opt_u32(1, v.eresult)
            + rep_u32(2, v.granted_packageids)
            + rep_u32(3, v.granted_appids)
    }

    #[verifier::opaque]
    pub open spec fn spec_encode(v: SpecCMsgClientRequestFreeLicenseResponse) -> Seq<u8> {
        fields_bytes(Self::spec_fields(v))
    }

    /// What one record does to the message: a declared number sets or extends its
    /// field, any other number is left alone.
    pub open spec fn spec_apply(v: SpecCMsgClientRequestFreeLicenseResponse, f: SpecField) -> Result<SpecCMsgClientRequestFreeLicenseResponse, WireError> {
        match f.number {
            1 => match dec_u32(f.value) {
                Ok(x) => Ok(SpecCMsgClientRequestFreeLicenseResponse { eresult: Some(x), ..v }),
                Err(e) => Err(e),
            },
            2 => match dec_packed_u32(f.value) {
                Ok(xs) => Ok(SpecCMsgClientRequestFreeLicenseResponse { granted_packageids: v.granted_packageids + xs, ..v }),
                Err(e) => Err(e),
            },
            3 => match dec_packed_u32(f.value) {
                Ok(xs) => Ok(SpecCMsgClientRequestFreeLicenseResponse { granted_appids: v.granted_appids + xs, ..v }),
                Err(e) => Err(e),
            },
            _ => Ok(v),
        }
    }

    pub open spec fn apply_fn() -> spec_fn(SpecCMsgClientRequestFreeLicenseResponse, SpecField) -> Result<SpecCMsgClientRequestFreeLicenseResponse, WireError> {
        |v: SpecCMsgClientRequestFreeLicenseResponse, f: SpecField| Self::spec_apply(v, f)
    }

    /// The message `bytes` makes of `v`: its records applied in order, or the error
    /// that stops the reading.
    pub open spec fn spec_merge(v: SpecCMsgClientRequestFreeLicenseResponse, bytes: Seq<u8>) -> Result<SpecCMsgClientRequestFreeLicenseResponse, WireError> {
        let (w, stop) = merge_run(v, bytes, Self::apply_fn());
        match stop {
            None => Ok(w),
            Some(e) => Err(e),
        }
    }

    #[verifier::opaque]
    pub open spec fn spec_decode(bytes: Seq<u8>) -> Result<SpecCMsgClientRequestFreeLicenseResponse, WireError> {
        Self::spec_merge(Self::spec_default(), bytes)
    }

    /// This message with one record applied to it, or, when the record is refused,
    /// the message unchanged and the reason.
    fn applied(self, f: &Field) -> (r: Result<Self, (Self, WireError)>)
        ensures
            match Self::spec_apply(self@, f@) {
                Ok(v) => r matches Ok(m) && m@ == v,
                Err(e) => r matches Err((m, x)) && x == e && m@ == self@,
            },
    {
        match f.number {
            1 => match read_u32(&f.value) {
                Ok(x) => Ok(Self { eresult: Some(x), ..self }),
                Err(e) => Err((self, e)),
            },
            2 => match read_packed_u32(&f.value) {
                Ok(xs) => {
                    let mut m = self;
                    let mut xs = xs;
                    m.granted_packageids.append(&mut xs);
                    Ok(m)
                },
                Err(e) => Err((self, e)),
            },
            3 => match read_packed_u32(&f.value) {
                Ok(xs) => {
                    let mut m = self;
                    let mut xs = xs;
                    m.granted_appids.append(&mut xs);
                    Ok(m)
                },
                Err(e) => Err((self, e)),
            },
            _ => Ok(self),
        }
    }

    /// Reads the records `bytes` holds into this message, in order. When a record does
    /// not parse or is refused, the reading stops there: the message keeps what the
    /// records before it gave, and the error is returned.
    pub fn merge(&mut self, bytes: &[u8]) -> (r: Result<(), WireError>)
        ensures
            final(self)@ == merge_run(old(self)@, bytes@, Self::apply_fn()).0,
            r == match merge_run(old(self)@, bytes@, Self::apply_fn()).1 {
                None => Ok::<(), WireError>(()),
                Some(e) => Err::<(), WireError>(e),
            },
    {
        let ghost total = merge_run(self@, bytes@, Self::apply_fn());
        let mut cur = Self::default();
        std::mem::swap(&mut cur, self);
        let mut pos: usize = 0;
        assert(bytes@.skip(0) =~= bytes@);
        while pos < bytes.len()
            invariant
                pos <= bytes@.len(),
                total == merge_run(old(self)@, bytes@, Self::apply_fn()),
                merge_run(cur@, bytes@.skip(pos as int), Self::apply_fn()) == total,
            decreases bytes@.len() - pos,
        {
            let ghost s = bytes@.skip(pos as int);
            proof {
                lemma_merge_run_step(cur@, s, Self::apply_fn());
                lemma_parse_field_len(s);
            }
            match read_field(bytes, pos) {
                Ok((f, end)) => {
                    assert(bytes@.skip(end as int) =~= s.skip((end - pos) as int));
                    match cur.applied(&f) {
                        Ok(m) => {
                            cur = m;
                        },
                        Err((m, e)) => {
                            *self = m;
                            return Err(e);
                        },
                    }
                    pos = end;
                },
                Err(e) => {
                    *self = cur;
                    return Err(e);
                },
            }
        }
        assert(bytes@.skip(pos as int) =~= Seq::<u8>::empty());
        proof {
            lemma_merge_run_empty(cur@, Self::apply_fn());
        }
        *self = cur;
        Ok(())
    }

    /// Decodes a message from its encoding.
    pub fn decode(bytes: &[u8]) -> (r: Result<Self, WireError>)
        ensures
            match Self::spec_decode(bytes@) {
                Ok(v) => r matches Ok(m) && m@ == v,
                Err(e) => r matches Err(x) && x == e,
            },
    {
        proof {
            reveal(CMsgClientRequestFreeLicenseResponse::spec_decode);
        }
        let mut m = Self::default();
        match m.merge(bytes) {
            Ok(()) => Ok(m),
            Err(e) => Err(e),
        }
    }

    /// The encoding of this message.
    pub fn encode_to_vec(&self) -> (r: Vec<u8>)
        ensures
            r@ == Self::spec_encode(self@),
    {
        let ghost v = self@;
        let mut out: Vec<u8> = Vec::new();
        let ghost p0 = Seq::<SpecField>::empty();
        put_opt_u32(&mut out, 1, self.eresult);
        let ghost p1 = p0 + opt_u32(1, v.eresult);
        proof {
            lemma_fields_bytes_concat(p0, opt_u32(1, v.eresult));
        }
        put_rep_u32(&mut out, 2, &self.granted_packageids);
        let ghost p2 = p1 + rep_u32(2, v.granted_packageids);
        proof {
            lemma_fields_bytes_concat(p1, rep_u32(2, v.granted_packageids));
        }
        put_rep_u32(&mut out, 3, &self.granted_appids);
        let ghost p3 = p2 + rep_u32(3, v.granted_appids);
        proof {
            lemma_fields_bytes_concat(p2, rep_u32(3, v.granted_appids));
        }
        proof {
            reveal(CMsgClientRequestFreeLicenseResponse::spec_encode);
        }
        assert(p3 == Self::spec_fields(v));
        out
    }

    /// Appends the encoding of this message to `out`.
    pub fn encode_raw(&self, out: &mut Vec<u8>)
        ensures
            final(out)@ == old(out)@ + Self::spec_encode(self@),
    {
        let mut b = self.encode_to_vec();
        out.append(&mut b);
    }

    /// The first `k` fields of `v`, the others as a fresh message has them.
    #[verifier::opaque]
    pub open spec fn spec_prefix(v: SpecCMsgClientRequestFreeLicenseResponse, k: int) -> SpecCMsgClientRequestFreeLicenseResponse {
        SpecCMsgClientRequestFreeLicenseResponse {
            eresult: if 1 <= k { v.eresult } else { None },
            granted_packageids: if 2 <= k { v.granted_packageids } else { Seq::empty() },
            granted_appids: if 3 <= k { v.granted_appids } else { Seq::empty() },
        }
    }

    /// Reading field 1 back, after the fields before it.
    proof fn lemma_field_eresult(v: SpecCMsgClientRequestFreeLicenseResponse)
        ensures
            fold_fields(Self::spec_prefix(v, 0), opt_u32(1, v.eresult), Self::apply_fn())
                == Ok::<SpecCMsgClientRequestFreeLicenseResponse, WireError>(Self::spec_prefix(v, 1)),
    {
        reveal(CMsgClientRequestFreeLicenseResponse::spec_prefix);
        reveal(opt_u32);
        let apply = Self::apply_fn();
        let s = Self::spec_prefix(v, 0);
        lemma_fold_opt(s, 1, match v.eresult { Some(x) => Some(enc_u32(x)), None => None }, apply);
        if let Some(x) = v.eresult {
            lemma_u32_roundtrip(x);
        }
        assert(SpecCMsgClientRequestFreeLicenseResponse { eresult: v.eresult, ..s } == Self::spec_prefix(v, 1));
    }

    /// Reading field 2 back, after the fields before it.
    proof fn lemma_field_granted_packageids(v: SpecCMsgClientRequestFreeLicenseResponse)
        ensures
            fold_fields(Self::spec_prefix(v, 1), rep_u32(2, v.granted_packageids), Self::apply_fn())
                == Ok::<SpecCMsgClientRequestFreeLicenseResponse, WireError>(Self::spec_prefix(v, 2)),
    {
        reveal(CMsgClientRequestFreeLicenseResponse::spec_prefix);
        reveal(rep_u32);
        let apply = Self::apply_fn();
        let s = Self::spec_prefix(v, 1);
        let l = rep_u32(2, v.granted_packageids);
        let xs = v.granted_packageids;
        let st = Seq::new((xs.len() + 1) as nat, |j: int| SpecCMsgClientRequestFreeLicenseResponse { granted_packageids: xs.take(j), ..s });
        assert forall|j: int| 0 <= j < l.len() implies #[trigger] apply(st[j], l[j]) == Ok::<SpecCMsgClientRequestFreeLicenseResponse, WireError>(st[j + 1]) by {
            lemma_u32_roundtrip(xs[j]);
            assert(xs.take(j) + seq![xs[j]] =~= xs.take(j + 1));
        }
        lemma_fold_chain(l, st, apply);
        assert(xs.take(0) =~= Seq::<u32>::empty());
        assert(xs.take(xs.len() as int) =~= xs);
        assert(st[0] == s);
        assert(st[xs.len() as int] == Self::spec_prefix(v, 2));
    }

    /// Reading field 3 back, after the fields before it.
    proof fn lemma_field_granted_appids(v: SpecCMsgClientRequestFreeLicenseResponse)
        ensures
            fold_fields(Self::spec_prefix(v, 2), rep_u32(3, v.granted_appids), Self::apply_fn())
                == Ok::<SpecCMsgClientRequestFreeLicenseResponse, WireError>(Self::spec_prefix(v, 3)),
    {
        reveal(CMsgClientRequestFreeLicenseResponse::spec_prefix);
        reveal(rep_u32);
        let apply = Self::apply_fn();
        let s = Self::spec_prefix(v, 2);
        let l = rep_u32(3, v.granted_appids);
        let xs = v.granted_appids;
        let st = Seq::new((xs.len() + 1) as nat, |j: int| SpecCMsgClientRequestFreeLicenseResponse { granted_appids: xs.take(j), ..s });
        assert forall|j: int| 0 <= j < l.len() implies #[trigger] apply(st[j], l[j]) == Ok::<SpecCMsgClientRequestFreeLicenseResponse, WireError>(st[j + 1]) by {
            lemma_u32_roundtrip(xs[j]);
            assert(xs.take(j) + seq![xs[j]] =~= xs.take(j + 1));
        }
        lemma_fold_chain(l, st, apply);
        assert(xs.take(0) =~= Seq::<u32>::empty());
        assert(xs.take(xs.len() as int) =~= xs);
        assert(st[0] == s);
        assert(st[xs.len() as int] == Self::spec_prefix(v, 3));
    }

    /// Whether this message declares field number `n`.
    pub open spec fn declares(n: u32) -> bool {
        n == 1 || n == 2 || n == 3
    }

    /// A record with a number this message does not declare is passed over: well-formed
    /// bytes decode to the same message with such a record after them as without it.
    pub proof fn lemma_unknown_field(bytes: Seq<u8>, f: SpecField)
        requires
            parse_fields(bytes) is Ok,
            field_wf(f),
            !Self::declares(f.number),
        ensures
            Self::spec_decode(bytes + field_bytes(f)) == Self::spec_decode(bytes),
    {
        reveal(CMsgClientRequestFreeLicenseResponse::spec_decode);
        lemma_parse_fields_append(bytes, f);
        let fs = parse_fields(bytes).unwrap();
        let apply = Self::apply_fn();
        lemma_fold_concat(Self::spec_default(), fs, seq![f], apply);
        assert(fs.push(f) =~= fs + seq![f]);
        if let Ok(w) = fold_fields(Self::spec_default(), fs, apply) {
            lemma_fold_single(w, f, apply);
        }
        lemma_merge_run_fold(Self::spec_default(), bytes, apply);
        lemma_merge_run_fold(Self::spec_default(), bytes + field_bytes(f), apply);
    }

    /// Decoding the encoding of a message gives the message back.
    pub proof fn lemma_decode_encode(v: SpecCMsgClientRequestFreeLicenseResponse)
        requires
            Self::spec_encode(v).len() <= u64::MAX,
        ensures
            Self::spec_decode(Self::spec_encode(v)) == Ok::<SpecCMsgClientRequestFreeLicenseResponse, WireError>(v),
    {
        let apply = Self::apply_fn();
        let d = Self::spec_default();
        let p0 = Seq::<SpecField>::empty();
        let l1 = opt_u32(1, v.eresult);
        let p1 = p0 + l1;
        let l2 = rep_u32(2, v.granted_packageids);
        let p2 = p1 + l2;
        let l3 = rep_u32(3, v.granted_appids);
        let p3 = p2 + l3;
        assert(parse_fields(Self::spec_encode(v)) == Ok::<Seq<SpecField>, WireError>(p3)) by {
            reveal(CMsgClientRequestFreeLicenseResponse::spec_encode);
            assert(numbers_ok(p0) && fields_wf(p0)) by {
                reveal(numbers_ok);
                reveal(fields_wf);
            }
            lemma_opt_u32_numbered(1, v.eresult);
            lemma_fields_wf_concat(p0, l1);
            lemma_rep_u32_numbered(2, v.granted_packageids);
            lemma_fields_wf_concat(p1, l2);
            lemma_rep_u32_numbered(3, v.granted_appids);
            lemma_fields_wf_concat(p2, l3);
            assert(p3 == Self::spec_fields(v));
            lemma_fields_wf_from_len(p3);
            lemma_fields_roundtrip(p3);
        }
        assert(Self::spec_prefix(v, 0) == d) by {
            reveal(CMsgClientRequestFreeLicenseResponse::spec_prefix);
        }
        lemma_fold_empty(d, apply);
        lemma_fold_concat(d, p0, l1, apply);
        Self::lemma_field_eresult(v);
        lemma_fold_concat(d, p1, l2, apply);
        Self::lemma_field_granted_packageids(v);
        lemma_fold_concat(d, p2, l3, apply);
        Self::lemma_field_granted_appids(v);
        assert(Self::spec_prefix(v, 3) == v) by {
            reveal(CMsgClientRequestFreeLicenseResponse::spec_prefix);
        }
        lemma_merge_run_fold(d, Self::spec_encode(v), apply);
        assert(Self::spec_decode(Self::spec_encode(v)) == Ok::<SpecCMsgClientRequestFreeLicenseResponse, WireError>(v)) by {
            reveal(CMsgClientRequestFreeLicenseResponse::spec_decode);
        }
    }
}

/// `CMsgDRMDownloadRequestWithCrashData`, as Valve's schema declares it.
#[derive(Debug, Clone, PartialEq)]
pub struct CMsgDRMDownloadRequestWithCrashData {
    /// Field 1.
    pub download_flags: Option<u32>,
    /// Field 2.
    pub download_types_known: Option<u32>,
    /// Field 3.
    pub guid_drm: Option<Vec<u8>>,
    /// Field 4.
    pub guid_split: Option<Vec<u8>>,
    /// Field 5.
    pub guid_merge: Option<Vec<u8>>,
    /// Field 6.
    pub module_name: Option<String>,
    /// Field 7.
    pub module_path_: Option<String>,
    /// Field 8.
    pub crash_data: Option<Vec<u8>>,
}

/// What a `CMsgDRMDownloadRequestWithCrashData` holds, as mathematical values.
#[verifier::ext_equal]
pub struct SpecCMsgDRMDownloadRequestWithCrashData {
    pub download_flags: Option<u32>,
    pub download_types_known: Option<u32>,
    pub guid_drm: Option<Seq<u8>>,
    pub guid_split: Option<Seq<u8>>,
    pub guid_merge: Option<Seq<u8>>,
    pub module_name: Option<Seq<char>>,
    pub module_path_: Option<Seq<char>>,
    pub crash_data: Option<Seq<u8>>,
}

impl View for CMsgDRMDownloadRequestWithCrashData {
    type V = SpecCMsgDRMDownloadRequestWithCrashData;

    open spec fn view(&self) -> SpecCMsgDRMDownloadRequestWithCrashData {
        SpecCMsgDRMDownloadRequestWithCrashData {
            download_flags: self.download_flags,
            download_types_known: self.download_types_known,
            guid_drm: opt_bytes_view(self.guid_drm),
            guid_split: opt_bytes_view(self.guid_split),
            guid_merge: opt_bytes_view(self.guid_merge),
            module_name: opt_string_view(self.module_name),
            module_path_: opt_string_view(self.module_path_),
            crash_data: opt_bytes_view(self.crash_data),
        }
    }
}

impl Default for CMsgDRMDownloadRequestWithCrashData {
    fn default() -> (r: Self)
        ensures
            r@ == CMsgDRMDownloadRequestWithCrashData::spec_default(),
    {
        CMsgDRMDownloadRequestWithCrashData {
            download_flags: None,
            download_types_known: None,
            guid_drm: None,
            guid_split: None,
            guid_merge: None,
            module_name: None,
            module_path_: None,
            crash_data: None,
        }
    }
}

impl CMsgDRMDownloadRequestWithCrashData {
    pub open spec fn spec_default() -> SpecCMsgDRMDownloadRequestWithCrashData {
        SpecCMsgDRMDownloadRequestWithCrashData {
            download_flags: None,
            download_types_known: None,
            guid_drm: None,
            guid_split: None,
            guid_merge: None,
            module_name: None,
            module_path_: None,
            crash_data: None,
        }
    }

    /// The records a `CMsgDRMDownloadRequestWithCrashData` is written as, in field order.
    pub open spec fn spec_fields(v: SpecCMsgDRMDownloadRequestWithCrashData) -> Seq<SpecField> {
        Seq::<SpecField>::empty()
            + opt_u32(1, v.download_flags)
            + opt_u32(2, v.download_types_known)
            + opt_bytes(3, v.guid_drm)
            + opt_bytes(4, v.guid_split)
            + opt_bytes(5, v.guid_merge)
            + opt_string(6, v.module_name)
            + opt_string(7, v.module_path_)
            + opt_bytes(8, v.crash_data)
    }

    #[verifier::opaque]
    pub open spec fn spec_encode(v: SpecCMsgDRMDownloadRequestWithCrashData) -> Seq<u8> {
        fields_bytes(Self::spec_fields(v))
    }

    /// What one record does to the message: a declared number sets or extends its
    /// field, any other number is left alone.
    pub open spec fn spec_apply(v: SpecCMsgDRMDownloadRequestWithCrashData, f: SpecField) -> Result<SpecCMsgDRMDownloadRequestWithCrashData, WireError> {
        match f.number {
            1 => match dec_u32(f.value) {
                Ok(x) => Ok(SpecCMsgDRMDownloadRequestWithCrashData { download_flags: Some(x), ..v }),
                Err(e) => Err(e),
            },
            2 => match dec_u32(f.value) {
                Ok(x) => Ok(SpecCMsgDRMDownloadRequestWithCrashData { download_types_known: Some(x), ..v }),
                Err(e) => Err(e),
            },
            3 => match dec_bytes(f.value) {
                Ok(x) => Ok(SpecCMsgDRMDownloadRequestWithCrashData { guid_drm: Some(x), ..v }),
                Err(e) => Err(e),
            },
            4 => match dec_bytes(f.value) {
                Ok(x) => Ok(SpecCMsgDRMDownloadRequestWithCrashData { guid_split: Some(x), ..v }),
                Err(e) => Err(e),
            },
            5 => match dec_bytes(f.value) {
                Ok(x) => Ok(SpecCMsgDRMDownloadRequestWithCrashData { guid_merge: Some(x), ..v }),
                Err(e) => Err(e),
            },
            6 => match dec_string(f.value) {
                Ok(x) => Ok(SpecCMsgDRMDownloadRequestWithCrashData { module_name: Some(x), ..v }),
                Err(e) => Err(e),
            },
            7 => match dec_string(f.value) {
                Ok(x) => Ok(SpecCMsgDRMDownloadRequestWithCrashData { module_path_: Some(x), ..v }),
                Err(e) => Err(e),
            },
            8 => match dec_bytes(f.value) {
                Ok(x) => Ok(SpecCMsgDRMDownloadRequestWithCrashData { crash_data: Some(x), ..v }),
                Err(e) => Err(e),
            },
            _ => Ok(v),
        }
    }

    pub open spec fn apply_fn() -> spec_fn(SpecCMsgDRMDownloadRequestWithCrashData, SpecField) -> Result<SpecCMsgDRMDownloadRequestWithCrashData, WireError> {
        |v: SpecCMsgDRMDownloadRequestWithCrashData, f: SpecField| Self::spec_apply(v, f)
    }

    /// The message `bytes` makes of `v`: its records applied in order, or the error
    /// that stops the reading.
    pub open spec fn spec_merge(v: SpecCMsgDRMDownloadRequestWithCrashData, bytes: Seq<u8>) -> Result<SpecCMsgDRMDownloadRequestWithCrashData, WireError> {
        let (w, stop) = merge_run(v, bytes, Self::apply_fn());
        match stop {
            None => Ok(w),
            Some(e) => Err(e),
        }
    }

    #[verifier::opaque]
    pub open spec fn spec_decode(bytes: Seq<u8>) -> Result<SpecCMsgDRMDownloadRequestWithCrashData, WireError> {
        Self::spec_merge(Self::spec_default(), bytes)
    }

    /// This message with one record applied to it, or, when the record is refused,
    /// the message unchanged and the reason.
    fn applied(self, f: &Field) -> (r: Result<Self, (Self, WireError)>)
        ensures
            match Self::spec_apply(self@, f@) {
                Ok(v) => r matches Ok(m) && m@ == v,
                Err(e) => r matches Err((m, x)) && x == e && m@ == self@,
            },
    {
        match f.number {
            1 => match read_u32(&f.value) {
                Ok(x) => Ok(Self { download_flags: Some(x), ..self }),
                Err(e) => Err((self, e)),
            },
            2 => match read_u32(&f.value) {
                Ok(x) => Ok(Self { download_types_known: Some(x), ..self }),
                Err(e) => Err((self, e)),
            },
            3 => match read_bytes(&f.value) {
                Ok(x) => Ok(Self { guid_drm: Some(x), ..self }),
                Err(e) => Err((self, e)),
            },
            4 => match read_bytes(&f.value) {
                Ok(x) => Ok(Self { guid_split: Some(x), ..self }),
                Err(e) => Err((self, e)),
            },
            5 => match read_bytes(&f.value) {
                Ok(x) => Ok(Self { guid_merge: Some(x), ..self }),
                Err(e) => Err((self, e)),
            },
            6 => match read_string(&f.value) {
                Ok(x) => Ok(Self { module_name: Some(x), ..self }),
                Err(e) => Err((self, e)),
            },
            7 => match read_string(&f.value) {
                Ok(x) => Ok(Self { module_path_: Some(x), ..self }),
                Err(e) => Err((self, e)),
            },
            8 => match read_bytes(&f.value) {
                Ok(x) => Ok(Self { crash_data: Some(x), ..self }),
                Err(e) => Err((self, e)),
            },
            _ => Ok(self),
        }
    }

    /// Reads the records `bytes` holds into this message, in order. When a record does
    /// not parse or is refused, the reading stops there: the message keeps what the
    /// records before it gave, and the error is returned.
    pub fn merge(&mut self, bytes: &[u8]) -> (r: Result<(), WireError>)
        ensures
            final(self)@ == merge_run(old(self)@, bytes@, Self::apply_fn()).0,
            r == match merge_run(old(self)@, bytes@, Self::apply_fn()).1 {
                None => Ok::<(), WireError>(()),
                Some(e) => Err::<(), WireError>(e),
            },
    {
        let ghost total = merge_run(self@, bytes@, Self::apply_fn());
        let mut cur = Self::default();
        std::mem::swap(&mut cur, self);
        let mut pos: usize = 0;
        assert(bytes@.skip(0) =~= bytes@);
        while pos < bytes.len()
            invariant
                pos <= bytes@.len(),
                total == merge_run(old(self)@, bytes@, Self::apply_fn()),
                merge_run(cur@, bytes@.skip(pos as int), Self::apply_fn()) == total,
            decreases bytes@.len() - pos,
        {
            let ghost s = bytes@.skip(pos as int);
            proof {
                lemma_merge_run_step(cur@, s, Self::apply_fn());
                lemma_parse_field_len(s);
            }
            match read_field(bytes, pos) {
                Ok((f, end)) => {
                    assert(bytes@.skip(end as int) =~= s.skip((end - pos) as int));
                    match cur.applied(&f) {
                        Ok(m) => {
                            cur = m;
                        },
                        Err((m, e)) => {
                            *self = m;
                            return Err(e);
                        },
                    }
                    pos = end;
                },
                Err(e) => {
                    *self = cur;
                    return Err(e);
                },
            }
        }
        assert(bytes@.skip(pos as int) =~= Seq::<u8>::empty());
        proof {
            lemma_merge_run_empty(cur@, Self::apply_fn());
        }
        *self = cur;
        Ok(())
    }

    /// Decodes a message from its encoding.
    pub fn decode(bytes: &[u8]) -> (r: Result<Self, WireError>)
        ensures
            match Self::spec_decode(bytes@) {
                Ok(v) => r matches Ok(m) && m@ == v,
                Err(e) => r matches Err(x) && x == e,
            },
    {
        proof {
            reveal(CMsgDRMDownloadRequestWithCrashData::spec_decode);
        }
        let mut m = Self::default();
        match m.merge(bytes) {
            Ok(()) => Ok(m),
            Err(e) => Err(e),
        }
    }

    /// The encoding of this message.
    pub fn encode_to_vec(&self) -> (r: Vec<u8>)
        ensures
            r@ == Self::spec_encode(self@),
    {
        let ghost v = self@;
        let mut out: Vec<u8> = Vec::new();
        let ghost p0 = Seq::<SpecField>::empty();
        put_opt_u32(&mut out, 1, self.download_flags);
        let ghost p1 = p0 + opt_u32(1, v.download_flags);
        proof {
            lemma_fields_bytes_concat(p0, opt_u32(1, v.download_flags));
        }
        put_opt_u32(&mut out, 2, self.download_types_known);
        let ghost p2 = p1 + opt_u32(2, v.download_types_known);
        proof {
            lemma_fields_bytes_concat(p1, opt_u32(2, v.download_types_known));
        }
        put_opt_bytes(&mut out, 3, &self.guid_drm);
        let ghost p3 = p2 + opt_bytes(3, v.guid_drm);
        proof {
            lemma_fields_bytes_concat(p2, opt_bytes(3, v.guid_drm));
        }
        put_opt_bytes(&mut out, 4, &self.guid_split);
        let ghost p4 = p3 + opt_bytes(4, v.guid_split);
        proof {
            lemma_fields_bytes_concat(p3, opt_bytes(4, v.guid_split));
        }
        put_opt_bytes(&mut out, 5, &self.guid_merge);
        let ghost p5 = p4 + opt_bytes(5, v.guid_merge);
        proof {
            lemma_fields_bytes_concat(p4, opt_bytes(5, v.guid_merge));
        }
        put_opt_string(&mut out, 6, &self.module_name);
        let ghost p6 = p5 + opt_string(6, v.module_name);
        proof {
            lemma_fields_bytes_concat(p5, opt_string(6, v.module_name));
        }
        put_opt_string(&mut out, 7, &self.module_path_);
        let ghost p7 = p6 + opt_string(7, v.module_path_);
        proof {
            lemma_fields_bytes_concat(p6, opt_string(7, v.module_path_));
        }
        put_opt_bytes(&mut out, 8, &self.crash_data);
        let ghost p8 = p7 + opt_bytes(8, v.crash_data);
        proof {
            lemma_fields_bytes_concat(p7, opt_bytes(8, v.crash_data));
        }
        proof {
            reveal(CMsgDRMDownloadRequestWithCrashData::spec_encode);
        }
        assert(p8 == Self::spec_fields(v));
        out
    }

    /// Appends the encoding of this message to `out`.
    pub fn encode_raw(&self, out: &mut Vec<u8>)
        ensures
            final(out)@ == old(out)@ + Self::spec_encode(self@),
    {
        let mut b = self.encode_to_vec();
        out.append(&mut b);
    }

    /// The first `k` fields of `v`, the others as a fresh message has them.
    #[verifier::opaque]
    pub open spec fn spec_prefix(v: SpecCMsgDRMDownloadRequestWithCrashData, k: int) -> SpecCMsgDRMDownloadRequestWithCrashData {
        SpecCMsgDRMDownloadRequestWithCrashData {
            download_flags: if 1 <= k { v.download_flags } else { None },
            download_types_known: if 2 <= k { v.download_types_known } else { None },
            guid_drm: if 3 <= k { v.guid_drm } else { None },
            guid_split: if 4 <= k { v.guid_split } else { None },
            guid_merge: if 5 <= k { v.guid_merge } else { None },
            module_name: if 6 <= k { v.module_name } else { None },
            module_path_: if 7 <= k { v.module_path_ } else { None },
            crash_data: if 8 <= k { v.crash_data } else { None },
        }
    }

    /// Reading field 1 back, after the fields before it.
    proof fn lemma_field_download_flags(v: SpecCMsgDRMDownloadRequestWithCrashData)
        ensures
            fold_fields(Self::spec_prefix(v, 0), opt_u32(1, v.download_flags), Self::apply_fn())
                == Ok::<SpecCMsgDRMDownloadRequestWithCrashData, WireError>(Self::spec_prefix(v, 1)),
    {
        reveal(CMsgDRMDownloadRequestWithCrashData::spec_prefix);
        reveal(opt_u32);
        let apply = Self::apply_fn();
        let s = Self::spec_prefix(v, 0);
        lemma_fold_opt(s, 1, match v.download_flags { Some(x) => Some(enc_u32(x)), None => None }, apply);
        if let Some(x) = v.download_flags {
            lemma_u32_roundtrip(x);
        }
        assert(SpecCMsgDRMDownloadRequestWithCrashData { download_flags: v.download_flags, ..s } == Self::spec_prefix(v, 1));
    }

    /// Reading field 2 back, after the fields before it.
    proof fn lemma_field_download_types_known(v: SpecCMsgDRMDownloadRequestWithCrashData)
        ensures
            fold_fields(Self::spec_prefix(v, 1), opt_u32(2, v.download_types_known), Self::apply_fn())
                == Ok::<SpecCMsgDRMDownloadRequestWithCrashData, WireError>(Self::spec_prefix(v, 2)),
    {
        reveal(CMsgDRMDownloadRequestWithCrashData::spec_prefix);
        reveal(opt_u32);
        let apply = Self::apply_fn();
        let s = Self::spec_prefix(v, 1);
        lemma_fold_opt(s, 2, match v.download_types_known { Some(x) => Some(enc_u32(x)), None => None }, apply);
        if let Some(x) = v.download_types_known {
            lemma_u32_roundtrip(x);
        }
        assert(SpecCMsgDRMDownloadRequestWithCrashData { download_types_known: v.download_types_known, ..s } == Self::spec_prefix(v, 2));
    }

    /// Reading field 3 back, after the fields before it.
    proof fn lemma_field_guid_drm(v: SpecCMsgDRMDownloadRequestWithCrashData)
        ensures
            fold_fields(Self::spec_prefix(v, 2), opt_bytes(3, v.guid_drm), Self::apply_fn())
                == Ok::<SpecCMsgDRMDownloadRequestWithCrashData, WireError>(Self::spec_prefix(v, 3)),
    {
        reveal(CMsgDRMDownloadRequestWithCrashData::spec_prefix);
        reveal(opt_bytes);
        let apply = Self::apply_fn();
        let s = Self::spec_prefix(v, 2);
        lemma_fold_opt(s, 3, match v.guid_drm { Some(x) => Some(enc_bytes(x)), None => None }, apply);
        assert(SpecCMsgDRMDownloadRequestWithCrashData { guid_drm: v.guid_drm, ..s } == Self::spec_prefix(v, 3));
    }

    /// Reading field 4 back, after the fields before it.
    proof fn lemma_field_guid_split(v: SpecCMsgDRMDownloadRequestWithCrashData)
        ensures
            fold_fields(Self::spec_prefix(v, 3), opt_bytes(4, v.guid_split), Self::apply_fn())
                == Ok::<SpecCMsgDRMDownloadRequestWithCrashData, WireError>(Self::spec_prefix(v, 4)),
    {
        reveal(CMsgDRMDownloadRequestWithCrashData::spec_prefix);
        reveal(opt_bytes);
        let apply = Self::apply_fn();
        let s = Self::spec_prefix(v, 3);
        lemma_fold_opt(s, 4, match v.guid_split { Some(x) => Some(enc_bytes(x)), None => None }, apply);
        assert(SpecCMsgDRMDownloadRequestWithCrashData { guid_split: v.guid_split, ..s } == Self::spec_prefix(v, 4));
    }

    /// Reading field 5 back, after the fields before it.
    proof fn lemma_field_guid_merge(v: SpecCMsgDRMDownloadRequestWithCrashData)
        ensures
            fold_fields(Self::spec_prefix(v, 4), opt_bytes(5, v.guid_merge), Self::apply_fn())
                == Ok::<SpecCMsgDRMDownloadRequestWithCrashData, WireError>(Self::spec_prefix(v, 5)),
    {
        reveal(CMsgDRMDownloadRequestWithCrashData::spec_prefix);
        reveal(opt_bytes);
        let apply = Self::apply_fn();
        let s = Self::spec_prefix(v, 4);
        lemma_fold_opt(s, 5, match v.guid_merge { Some(x) => Some(enc_bytes(x)), None => None }, apply);
        assert(SpecCMsgDRMDownloadRequestWithCrashData { guid_merge: v.guid_merge, ..s } == Self::spec_prefix(v, 5));
    }

    /// Reading field 6 back, after the fields before it.
    proof fn lemma_field_module_name(v: SpecCMsgDRMDownloadRequestWithCrashData)
        ensures
            fold_fields(Self::spec_prefix(v, 5), opt_string(6, v.module_name), Self::apply_fn())
                == Ok::<SpecCMsgDRMDownloadRequestWithCrashData, WireError>(Self::spec_prefix(v, 6)),
    {
        reveal(CMsgDRMDownloadRequestWithCrashData::spec_prefix);
        reveal(opt_string);
        let apply = Self::apply_fn();
        let s = Self::spec_prefix(v, 5);
        lemma_fold_opt(s, 6, match v.module_name { Some(x) => Some(enc_string(x)), None => None }, apply);
        if let Some(x) = v.module_name {
            lemma_string_roundtrip(x);
        }
        assert(SpecCMsgDRMDownloadRequestWithCrashData { module_name: v.module_name, ..s } == Self::spec_prefix(v, 6));
    }

    /// Reading field 7 back, after the fields before it.
    proof fn lemma_field_module_path(v: SpecCMsgDRMDownloadRequestWithCrashData)
        ensures
            fold_fields(Self::spec_prefix(v, 6), opt_string(7, v.module_path_), Self::apply_fn())
                == Ok::<SpecCMsgDRMDownloadRequestWithCrashData, WireError>(Self::spec_prefix(v, 7)),
    {
        reveal(CMsgDRMDownloadRequestWithCrashData::spec_prefix);
        reveal(opt_string);
        let apply = Self::apply_fn();
        let s = Self::spec_prefix(v, 6);
        lemma_fold_opt(s, 7, match v.module_path_ { Some(x) => Some(enc_string(x)), None => None }, apply);
        if let Some(x) = v.module_path_ {
            lemma_string_roundtrip(x);
        }
        assert(SpecCMsgDRMDownloadRequestWithCrashData { module_path_: v.module_path_, ..s } == Self::spec_prefix(v, 7));
    }

    /// Reading field 8 back, after the fields before it.
    proof fn lemma_field_crash_data(v: SpecCMsgDRMDownloadRequestWithCrashData)
        ensures
            fold_fields(Self::spec_prefix(v, 7), opt_bytes(8, v.crash_data), Self::apply_fn())
                == Ok::<SpecCMsgDRMDownloadRequestWithCrashData, WireError>(Self::spec_prefix(v, 8)),
    {
        reveal(CMsgDRMDownloadRequestWithCrashData::spec_prefix);
        reveal(opt_bytes);
        let apply = Self::apply_fn();
        let s = Self::spec_prefix(v, 7);
        lemma_fold_opt(s, 8, match v.crash_data { Some(x) => Some(enc_bytes(x)), None => None }, apply);
        assert(SpecCMsgDRMDownloadRequestWithCrashData { crash_data: v.crash_data, ..s } == Self::spec_prefix(v, 8));
    }

    /// Whether this message declares field number `n`.
    pub open spec fn declares(n: u32) -> bool {
        n == 1 || n == 2 || n == 3 || n == 4 || n == 5 || n == 6 || n == 7 || n == 8
    }

    /// A record with a number this message does not declare is passed over: well-formed
    /// bytes decode to the same message with such a record after them as without it.
    pub proof fn lemma_unknown_field(bytes: Seq<u8>, f: SpecField)
        requires
            parse_fields(bytes) is Ok,
            field_wf(f),
            !Self::declares(f.number),
        ensures
            Self::spec_decode(bytes + field_bytes(f)) == Self::spec_decode(bytes),
    {
        reveal(CMsgDRMDownloadRequestWithCrashData::spec_decode);
        lemma_parse_fields_append(bytes, f);
        let fs = parse_fields(bytes).unwrap();
        let apply = Self::apply_fn();
        lemma_fold_concat(Self::spec_default(), fs, seq![f], apply);
        assert(fs.push(f) =~= fs + seq![f]);
        if let Ok(w) = fold_fields(Self::spec_default(), fs, apply) {
            lemma_fold_single(w, f, apply);
        }
        lemma_merge_run_fold(Self::spec_default(), bytes, apply);
        lemma_merge_run_fold(Self::spec_default(), bytes + field_bytes(f), apply);
    }

    /// Decoding the encoding of a message gives the message back.
    pub proof fn lemma_decode_encode(v: SpecCMsgDRMDownloadRequestWithCrashData)
        requires
            Self::spec_encode(v).len() <= u64::MAX,
        ensures
            Self::spec_decode(Self::spec_encode(v)) == Ok::<SpecCMsgDRMDownloadRequestWithCrashData, WireError>(v),
    {
        let apply = Self::apply_fn();
        let d = Self::spec_default();
        let p0 = Seq::<SpecField>::empty();
        let l1 = opt_u32(1, v.download_flags);
        let p1 = p0 + l1;
        let l2 = opt_u32(2, v.download_types_known);
        let p2 = p1 + l2;
        let l3 = opt_bytes(3, v.guid_drm);
        let p3 = p2 + l3;
        let l4 = opt_bytes(4, v.guid_split);
        let p4 = p3 + l4;
        let l5 = opt_bytes(5, v.guid_merge);
        let p5 = p4 + l5;
        let l6 = opt_string(6, v.module_name);
        let p6 = p5 + l6;
        let l7 = opt_string(7, v.module_path_);
        let p7 = p6 + l7;
        let l8 = opt_bytes(8, v.crash_data);
        let p8 = p7 + l8;
        assert(parse_fields(Self::spec_encode(v)) == Ok::<Seq<SpecField>, WireError>(p8)) by {
            reveal(CMsgDRMDownloadRequestWithCrashData::spec_encode);
            assert(numbers_ok(p0) && fields_wf(p0)) by {
                reveal(numbers_ok);
                reveal(fields_wf);
            }
            lemma_opt_u32_numbered(1, v.download_flags);
            lemma_fields_wf_concat(p0, l1);
            lemma_opt_u32_numbered(2, v.download_types_known);
            lemma_fields_wf_concat(p1, l2);
            lemma_opt_bytes_numbered(3, v.guid_drm);
            lemma_fields_wf_concat(p2, l3);
            lemma_opt_bytes_numbered(4, v.guid_split);
            lemma_fields_wf_concat(p3, l4);
            lemma_opt_bytes_numbered(5, v.guid_merge);
            lemma_fields_wf_concat(p4, l5);
            lemma_opt_string_numbered(6, v.module_name);
            lemma_fields_wf_concat(p5, l6);
            lemma_opt_string_numbered(7, v.module_path_);
            lemma_fields_wf_concat(p6, l7);
            lemma_opt_bytes_numbered(8, v.crash_data);
            lemma_fields_wf_concat(p7, l8);
            assert(p8 == Self::spec_fields(v));
            lemma_fields_wf_from_len(p8);
            lemma_fields_roundtrip(p8);
        }
        assert(Self::spec_prefix(v, 0) == d) by {
            reveal(CMsgDRMDownloadRequestWithCrashData::spec_prefix);
        }
        lemma_fold_empty(d, apply);
        lemma_fold_concat(d, p0, l1, apply);
        Self::lemma_field_download_flags(v);
        lemma_fold_concat(d, p1, l2, apply);
        Self::lemma_field_download_types_known(v);
        lemma_fold_concat(d, p2, l3, apply);
        Self::lemma_field_guid_drm(v);
        lemma_fold_concat(d, p3, l4, apply);
        Self::lemma_field_guid_split(v);
        lemma_fold_concat(d, p4, l5, apply);
        Self::lemma_field_guid_merge(v);
        lemma_fold_concat(d, p5, l6, apply);
        Self::lemma_field_module_name(v);
        lemma_fold_concat(d, p6, l7, apply);
        Self::lemma_field_module_path(v);
        lemma_fold_concat(d, p7, l8, apply);
        Self::lemma_field_crash_data(v);
        assert(Self::spec_prefix(v, 8) == v) by {
            reveal(CMsgDRMDownloadRequestWithCrashData::spec_prefix);
        }
        lemma_merge_run_fold(d, Self::spec_encode(v), apply);
        assert(Self::spec_decode(Self::spec_encode(v)) == Ok::<SpecCMsgDRMDownloadRequestWithCrashData, WireError>(v)) by {
            reveal(CMsgDRMDownloadRequestWithCrashData::spec_decode);
        }
    }
}

/// `CMsgDRMDownloadResponse`, as Valve's schema declares it.
#[derive(Debug, Clone, PartialEq)]
pub struct CMsgDRMDownloadResponse {
    /// Field 1.
    pub eresult: Option<u32>,
    /// Field 2.
    pub app_id: Option<u32>,
    /// Field 3.
    pub blob_download_type: Option<u32>,
    /// Field 4.
    pub merge_guid: Option<Vec<u8>>,
    /// Field 5.
    pub download_file_dfs_ip: Option<u32>,
    /// Field 6.
    pub download_file_dfs_port: Option<u32>,
    /// Field 7.
    pub download_file_url: Option<String>,
    /// Field 8.
    pub module_path_: Option<String>,
}

/// What a `CMsgDRMDownloadResponse` holds, as mathematical values.
#[verifier::ext_equal]
pub struct SpecCMsgDRMDownloadResponse {
    pub eresult: Option<u32>,
    pub app_id: Option<u32>,
    pub blob_download_type: Option<u32>,
    pub merge_guid: Option<Seq<u8>>,
    pub download_file_dfs_ip: Option<u32>,
    pub download_file_dfs_port: Option<u32>,
    pub download_file_url: Option<Seq<char>>,
    pub module_path_: Option<Seq<char>>,
}

impl View for CMsgDRMDownloadResponse {
    type V = SpecCMsgDRMDownloadResponse;

    open spec fn view(&self) -> SpecCMsgDRMDownloadResponse {
        SpecCMsgDRMDownloadResponse {
            eresult: self.eresult,
            app_id: self.app_id,
            blob_download_type: self.blob_download_type,
            merge_guid: opt_bytes_view(self.merge_guid),
            download_file_dfs_ip: self.download_file_dfs_ip,
            download_file_dfs_port: self.download_file_dfs_port,
            download_file_url: opt_string_view(self.download_file_url),
            module_path_: opt_string_view(self.module_path_),
        }
    }
}

impl Default for CMsgDRMDownloadResponse {
    fn default() -> (r: Self)
        ensures
            r@ == CMsgDRMDownloadResponse::spec_default(),
    {
        CMsgDRMDownloadResponse {
            eresult: None,
            app_id: None,
            blob_download_type: None,
            merge_guid: None,
            download_file_dfs_ip: None,
            download_file_dfs_port: None,
            download_file_url: None,
            module_path_: None,
        }
    }
}

impl CMsgDRMDownloadResponse {
    /// Field 1, or its schema default when absent.
    pub fn eresult_or_default(&self) -> (r: u32)
        ensures
            r == match self.eresult {
                Some(x) => x,
                None => 2u32,
            },
    {
        self.eresult.unwrap_or(2u32)
    }

    pub open spec fn spec_default() -> SpecCMsgDRMDownloadResponse {
        SpecCMsgDRMDownloadResponse {
            eresult: None,
            app_id: None,
            blob_download_type: None,
            merge_guid: None,
            download_file_dfs_ip: None,
            download_file_dfs_port: None,
            download_file_url: None,
            module_path_: None,
        }
    }

    /// The records a `CMsgDRMDownloadResponse` is written as, in field order.
    pub open spec fn spec_fields(v: SpecCMsgDRMDownloadResponse) -> Seq<SpecField> {
        Seq::<SpecField>::empty()
            + opt_u32(1, v.eresult)
            + opt_u32(2, v.app_id)
            + opt_u32(3, v.blob_download_type)
            + opt_bytes(4, v.merge_guid)
            + opt_u32(5, v.download_file_dfs_ip)
            + opt_u32(6, v.download_file_dfs_port)
            + opt_string(7, v.download_file_url)
            + opt_string(8, v.module_path_)
    }

    #[verifier::opaque]
    pub open spec fn spec_encode(v: SpecCMsgDRMDownloadResponse) -> Seq<u8> {
        fields_bytes(Self::spec_fields(v))
    }

    /// What one record does to the message: a declared number sets or extends its
    /// field, any other number is left alone.
    pub open spec fn spec_apply(v: SpecCMsgDRMDownloadResponse, f: SpecField) -> Result<SpecCMsgDRMDownloadResponse, WireError> {
        match f.number {
            1 => match dec_u32(f.value) {
                Ok(x) => Ok(SpecCMsgDRMDownloadResponse { eresult: Some(x), ..v }),
                Err(e) => Err(e),
            },
            2 => match dec_u32(f.value) {
                Ok(x) => Ok(SpecCMsgDRMDownloadResponse { app_id: Some(x), ..v }),
                Err(e) => Err(e),
            },
            3 => match dec_u32(f.value) {
                Ok(x) => Ok(SpecCMsgDRMDownloadResponse { blob_download_type: Some(x), ..v }),
                Err(e) => Err(e),
            },
            4 => match dec_bytes(f.value) {
                Ok(x) => Ok(SpecCMsgDRMDownloadResponse { merge_guid: Some(x), ..v }),
                Err(e) => Err(e),
            },
            5 => match dec_u32(f.value) {
                Ok(x) => Ok(SpecCMsgDRMDownloadResponse { download_file_dfs_ip: Some(x), ..v }),
                Err(e) => Err(e),
            },
            6 => match dec_u32(f.value) {
                Ok(x) => Ok(SpecCMsgDRMDownloadResponse { download_file_dfs_port: Some(x), ..v }),
                Err(e) => Err(e),
            },
            7 => match dec_string(f.value) {
                Ok(x) => Ok(SpecCMsgDRMDownloadResponse { download_file_url: Some(x), ..v }),
                Err(e) => Err(e),
            },
            8 => match dec_string(f.value) {
                Ok(x) => Ok(SpecCMsgDRMDownloadResponse { module_path_: Some(x), ..v }),
                Err(e) => Err(e),
            },
            _ => Ok(v),
        }
    }

    pub open spec fn apply_fn() -> spec_fn(SpecCMsgDRMDownloadResponse, SpecField) -> Result<SpecCMsgDRMDownloadResponse, WireError> {
        |v: SpecCMsgDRMDownloadResponse, f: SpecField| Self::spec_apply(v, f)
    }

    /// The message `bytes` makes of `v`: its records applied in order, or the error
    /// that stops the reading.
    pub open spec fn spec_merge(v: SpecCMsgDRMDownloadResponse, bytes: Seq<u8>) -> Result<SpecCMsgDRMDownloadResponse, WireError> {
        let (w, stop) = merge_run(v, bytes, Self::apply_fn());
        match stop {
            None => Ok(w),
            Some(e) => Err(e),
        }
    }

    #[verifier::opaque]
    pub open spec fn spec_decode(bytes: Seq<u8>) -> Result<SpecCMsgDRMDownloadResponse, WireError> {
        Self::spec_merge(Self::spec_default(), bytes)
    }

    /// This message with one record applied to it, or, when the record is refused,
    /// the message unchanged and the reason.
    fn applied(self, f: &Field) -> (r: Result<Self, (Self, WireError)>)
        ensures
            match Self::spec_apply(self@, f@) {
                Ok(v) => r matches Ok(m) && m@ == v,
                Err(e) => r matches Err((m, x)) && x == e && m@ == self@,
            },
    {
        match f.number {
            1 => match read_u32(&f.value) {
                Ok(x) => Ok(Self { eresult: Some(x), ..self }),
                Err(e) => Err((self, e)),
            },
            2 => match read_u32(&f.value) {
                Ok(x) => Ok(Self { app_id: Some(x), ..self }),
                Err(e) => Err((self, e)),
            },
            3 => match read_u32(&f.value) {
                Ok(x) => Ok(Self { blob_download_type: Some(x), ..self }),
                Err(e) => Err((self, e)),
            },
            4 => match read_bytes(&f.value) {
                Ok(x) => Ok(Self { merge_guid: Some(x), ..self }),
                Err(e) => Err((self, e)),
            },
            5 => match read_u32(&f.value) {
                Ok(x) => Ok(Self { download_file_dfs_ip: Some(x), ..self }),
                Err(e) => Err((self, e)),
            },
            6 => match read_u32(&f.value) {
                Ok(x) => Ok(Self { download_file_dfs_port: Some(x), ..self }),
                Err(e) => Err((self, e)),
            },
            7 => match read_string(&f.value) {
                Ok(x) => Ok(Self { download_file_url: Some(x), ..self }),
                Err(e) => Err((self, e)),
            },
            8 => match read_string(&f.value) {
                Ok(x) => Ok(Self { module_path_: Some(x), ..self }),
                Err(e) => Err((self, e)),
            },
            _ => Ok(self),
        }
    }

    /// Reads the records `bytes` holds into this message, in order. When a record does
    /// not parse or is refused, the reading stops there: the message keeps what the
    /// records before it gave, and the error is returned.
    pub fn merge(&mut self, bytes: &[u8]) -> (r: Result<(), WireError>)
        ensures
            final(self)@ == merge_run(old(self)@, bytes@, Self::apply_fn()).0,
            r == match merge_run(old(self)@, bytes@, Self::apply_fn()).1 {
                None => Ok::<(), WireError>(()),
                Some(e) => Err::<(), WireError>(e),
            },
    {
        let ghost total = merge_run(self@, bytes@, Self::apply_fn());
        let mut cur = Self::default();
        std::mem::swap(&mut cur, self);
        let mut pos: usize = 0;
        assert(bytes@.skip(0) =~= bytes@);
        while pos < bytes.len()
            invariant
                pos <= bytes@.len(),
                total == merge_run(old(self)@, bytes@, Self::apply_fn()),
                merge_run(cur@, bytes@.skip(pos as int), Self::apply_fn()) == total,
            decreases bytes@.len() - pos,
        {
            let ghost s = bytes@.skip(pos as int);
            proof {
                lemma_merge_run_step(cur@, s, Self::apply_fn());
                lemma_parse_field_len(s);
            }
            match read_field(bytes, pos) {
                Ok((f, end)) => {
                    assert(bytes@.skip(end as int) =~= s.skip((end - pos) as int));
                    match cur.applied(&f) {
                        Ok(m) => {
                            cur = m;
                        },
                        Err((m, e)) => {
                            *self = m;
                            return Err(e);
                        },
                    }
                    pos = end;
                },
                Err(e) => {
                    *self = cur;
                    return Err(e);
                },
            }
        }
        assert(bytes@.skip(pos as int) =~= Seq::<u8>::empty());
        proof {
            lemma_merge_run_empty(cur@, Self::apply_fn());
        }
        *self = cur;
        Ok(())
    }

    /// Decodes a message from its encoding.
    pub fn decode(bytes: &[u8]) -> (r: Result<Self, WireError>)
        ensures
            match Self::spec_decode(bytes@) {
                Ok(v) => r matches Ok(m) && m@ == v,
                Err(e) => r matches Err(x) && x == e,
            },
    {
        proof {
            reveal(CMsgDRMDownloadResponse::spec_decode);
        }
        let mut m = Self::default();
        match m.merge(bytes) {
            Ok(()) => Ok(m),
            Err(e) => Err(e),
        }
    }

    /// The encoding of this message.
    pub fn encode_to_vec(&self) -> (r: Vec<u8>)
        ensures
            r@ == Self::spec_encode(self@),
    {
        let ghost v = self@;
        let mut out: Vec<u8> = Vec::new();
        let ghost p0 = Seq::<SpecField>::empty();
        put_opt_u32(&mut out, 1, self.eresult);
        let ghost p1 = p0 + opt_u32(1, v.eresult);
        proof {
            lemma_fields_bytes_concat(p0, opt_u32(1, v.eresult));
        }
        put_opt_u32(&mut out, 2, self.app_id);
        let ghost p2 = p1 + opt_u32(2, v.app_id);
        proof {
            lemma_fields_bytes_concat(p1, opt_u32(2, v.app_id));
        }
        put_opt_u32(&mut out, 3, self.blob_download_type);
        let ghost p3 = p2 + opt_u32(3, v.blob_download_type);
        proof {
            lemma_fields_bytes_concat(p2, opt_u32(3, v.blob_download_type));
        }
        put_opt_bytes(&mut out, 4, &self.merge_guid);
        let ghost p4 = p3 + opt_bytes(4, v.merge_guid);
        proof {
            lemma_fields_bytes_concat(p3, opt_bytes(4, v.merge_guid));
        }
        put_opt_u32(&mut out, 5, self.download_file_dfs_ip);
        let ghost p5 = p4 + opt_u32(5, v.download_file_dfs_ip);
        proof {
            lemma_fields_bytes_concat(p4, opt_u32(5, v.download_file_dfs_ip));
        }
        put_opt_u32(&mut out, 6, self.download_file_dfs_port);
        let ghost p6 = p5 + opt_u32(6, v.download_file_dfs_port);
        proof {
            lemma_fields_bytes_concat(p5, opt_u32(6, v.download_file_dfs_port));
        }
        put_opt_string(&mut out, 7, &self.download_file_url);
        let ghost p7 = p6 + opt_string(7, v.download_file_url);
        proof {
            lemma_fields_bytes_concat(p6, opt_string(7, v.download_file_url));
        }
        put_opt_string(&mut out, 8, &self.module_path_);
        let ghost p8 = p7 + opt_string(8, v.module_path_);
        proof {
            lemma_fields_bytes_concat(p7, opt_string(8, v.module_path_));
        }
        proof {
            reveal(CMsgDRMDownloadResponse::spec_encode);
        }
        assert(p8 == Self::spec_fields(v));
        out
    }

    /// Appends the encoding of this message to `out`.
    pub fn encode_raw(&self, out: &mut Vec<u8>)
        ensures
            final(out)@ == old(out)@ + Self::spec_encode(self@),
    {
        let mut b = self.encode_to_vec();
        out.append(&mut b);
    }

    /// The first `k` fields of `v`, the others as a fresh message has them.
    #[verifier::opaque]
    pub open spec fn spec_prefix(v: SpecCMsgDRMDownloadResponse, k: int) -> SpecCMsgDRMDownloadResponse {
        SpecCMsgDRMDownloadResponse {
            eresult: if 1 <= k { v.eresult } else { None },
            app_id: if 2 <= k { v.app_id } else { None },
            blob_download_type: if 3 <= k { v.blob_download_type } else { None },
            merge_guid: if 4 <= k { v.merge_guid } else { None },
            download_file_dfs_ip: if 5 <= k { v.download_file_dfs_ip } else { None },
            download_file_dfs_port: if 6 <= k { v.download_file_dfs_port } else { None },
            download_file_url: if 7 <= k { v.download_file_url } else { None },
            module_path_: if 8 <= k { v.module_path_ } else { None },
        }
    }

    /// Reading field 1 back, after the fields before it.
    proof fn lemma_field_eresult(v: SpecCMsgDRMDownloadResponse)
        ensures
            fold_fields(Self::spec_prefix(v, 0), opt_u32(1, v.eresult), Self::apply_fn())
                == Ok::<SpecCMsgDRMDownloadResponse, WireError>(Self::spec_prefix(v, 1)),
    {
        reveal(CMsgDRMDownloadResponse::spec_prefix);
        reveal(opt_u32);
        let apply = Self::apply_fn();
        let s = Self::spec_prefix(v, 0);
        lemma_fold_opt(s, 1, match v.eresult { Some(x) => Some(enc_u32(x)), None => None }, apply);
        if let Some(x) = v.eresult {
            lemma_u32_roundtrip(x);
        }
        assert(SpecCMsgDRMDownloadResponse { eresult: v.eresult, ..s } == Self::spec_prefix(v, 1));
    }

    /// Reading field 2 back, after the fields before it.
    proof fn lemma_field_app_id(v: SpecCMsgDRMDownloadResponse)
        ensures
            fold_fields(Self::spec_prefix(v, 1), opt_u32(2, v.app_id), Self::apply_fn())
                == Ok::<SpecCMsgDRMDownloadResponse, WireError>(Self::spec_prefix(v, 2)),
    {
        reveal(CMsgDRMDownloadResponse::spec_prefix);
        reveal(opt_u32);
        let apply = Self::apply_fn();
        let s = Self::spec_prefix(v, 1);
        lemma_fold_opt(s, 2, match v.app_id { Some(x) => Some(enc_u32(x)), None => None }, apply);
        if let Some(x) = v.app_id {
            lemma_u32_roundtrip(x);
        }
        assert(SpecCMsgDRMDownloadResponse { app_id: v.app_id, ..s } == Self::spec_prefix(v, 2));
    }

    /// Reading field 3 back, after the fields before it.
    proof fn lemma_field_blob_download_type(v: SpecCMsgDRMDownloadResponse)
        ensures
            fold_fields(Self::spec_prefix(v, 2), opt_u32(3, v.blob_download_type), Self::apply_fn())
                == Ok::<SpecCMsgDRMDownloadResponse, WireError>(Self::spec_prefix(v, 3)),
    {
        reveal(CMsgDRMDownloadResponse::spec_prefix);
        reveal(opt_u32);
        let apply = Self::apply_fn();
        let s = Self::spec_prefix(v, 2);
        lemma_fold_opt(s, 3, match v.blob_download_type { Some(x) => Some(enc_u32(x)), None => None }, apply);
        if let Some(x) = v.blob_download_type {
            lemma_u32_roundtrip(x);
        }
        assert(SpecCMsgDRMDownloadResponse { blob_download_type: v.blob_download_type, ..s } == Self::spec_prefix(v, 3));
    }

    /// Reading field 4 back, after the fields before it.
    proof fn lemma_field_merge_guid(v: SpecCMsgDRMDownloadResponse)
        ensures
            fold_fields(Self::spec_prefix(v, 3), opt_bytes(4, v.merge_guid), Self::apply_fn())
                == Ok::<SpecCMsgDRMDownloadResponse, WireError>(Self::spec_prefix(v, 4)),
    {
        reveal(CMsgDRMDownloadResponse::spec_prefix);
        reveal(opt_bytes);
        let apply = Self::apply_fn();
        let s = Self::spec_prefix(v, 3);
        lemma_fold_opt(s, 4, match v.merge_guid { Some(x) => Some(enc_bytes(x)), None => None }, apply);
        assert(SpecCMsgDRMDownloadResponse { merge_guid: v.merge_guid, ..s } == Self::spec_prefix(v, 4));
    }

    /// Reading field 5 back, after the fields before it.
    proof fn lemma_field_download_file_dfs_ip(v: SpecCMsgDRMDownloadResponse)
        ensures
            fold_fields(Self::spec_prefix(v, 4), opt_u32(5, v.download_file_dfs_ip), Self::apply_fn())
                == Ok::<SpecCMsgDRMDownloadResponse, WireError>(Self::spec_prefix(v, 5)),
    {
        reveal(CMsgDRMDownloadResponse::spec_prefix);
        reveal(opt_u32);
        let apply = Self::apply_fn();
        let s = Self::spec_prefix(v, 4);
        lemma_fold_opt(s, 5, match v.download_file_dfs_ip { Some(x) => Some(enc_u32(x)), None => None }, apply);
        if let Some(x) = v.download_file_dfs_ip {
            lemma_u32_roundtrip(x);
        }
        assert(SpecCMsgDRMDownloadResponse { download_file_dfs_ip: v.download_file_dfs_ip, ..s } == Self::spec_prefix(v, 5));
    }

    /// Reading field 6 back, after the fields before it.
    proof fn lemma_field_download_file_dfs_port(v: SpecCMsgDRMDownloadResponse)
        ensures
            fold_fields(Self::spec_prefix(v, 5), opt_u32(6, v.download_file_dfs_port), Self::apply_fn())
                == Ok::<SpecCMsgDRMDownloadResponse, WireError>(Self::spec_prefix(v, 6)),
    {
        reveal(CMsgDRMDownloadResponse::spec_prefix);
        reveal(opt_u32);
        let apply = Self::apply_fn();
        let s = Self::spec_prefix(v, 5);
        lemma_fold_opt(s, 6, match v.download_file_dfs_port { Some(x) => Some(enc_u32(x)), None => None }, apply);
        if let Some(x) = v.download_file_dfs_port {
            lemma_u32_roundtrip(x);
        }
        assert(SpecCMsgDRMDownloadResponse { download_file_dfs_port: v.download_file_dfs_port, ..s } == Self::spec_prefix(v, 6));
    }

    /// Reading field 7 back, after the fields before it.
    proof fn lemma_field_download_file_url(v: SpecCMsgDRMDownloadResponse)
        ensures
            fold_fields(Self::spec_prefix(v, 6), opt_string(7, v.download_file_url), Self::apply_fn())
                == Ok::<SpecCMsgDRMDownloadResponse, WireError>(Self::spec_prefix(v, 7)),
    {
        reveal(CMsgDRMDownloadResponse::spec_prefix);
        reveal(opt_string);
        let apply = Self::apply_fn();
        let s = Self::spec_prefix(v, 6);
        lemma_fold_opt(s, 7, match v.download_file_url { Some(x) => Some(enc_string(x)), None => None }, apply);
        if let Some(x) = v.download_file_url {
            lemma_string_roundtrip(x);
        }
        assert(SpecCMsgDRMDownloadResponse { download_file_url: v.download_file_url, ..s } == Self::spec_prefix(v, 7));
    }

    /// Reading field 8 back, after the fields before it.
    proof fn lemma_field_module_path(v: SpecCMsgDRMDownloadResponse)
        ensures
            fold_fields(Self::spec_prefix(v, 7), opt_string(8, v.module_path_), Self::apply_fn())
                == Ok::<SpecCMsgDRMDownloadResponse, WireError>(Self::spec_prefix(v, 8)),
    {
        reveal(CMsgDRMDownloadResponse::spec_prefix);
        reveal(opt_string);
        let apply = Self::apply_fn();
        let s = Self::spec_prefix(v, 7);
        lemma_fold_opt(s, 8, match v.module_path_ { Some(x) => Some(enc_string(x)), None => None }, apply);
        if let Some(x) = v.module_path_ {
            lemma_string_roundtrip(x);
        }
        assert(SpecCMsgDRMDownloadResponse { module_path_: v.module_path_, ..s } == Self::spec_prefix(v, 8));
    }

    /// Whether this message declares field number `n`.
    pub open spec fn declares(n: u32) -> bool {
        n == 1 || n == 2 || n == 3 || n == 4 || n == 5 || n == 6 || n == 7 || n == 8
    }

    /// A record with a number this message does not declare is passed over: well-formed
    /// bytes decode to the same message with such a record after them as without it.
    pub proof fn lemma_unknown_field(bytes: Seq<u8>, f: SpecField)
        requires
            parse_fields(bytes) is Ok,
            field_wf(f),
            !Self::declares(f.number),
        ensures
            Self::spec_decode(bytes + field_bytes(f)) == Self::spec_decode(bytes),
    {
        reveal(CMsgDRMDownloadResponse::spec_decode);
        lemma_parse_fields_append(bytes, f);
        let fs = parse_fields(bytes).unwrap();
        let apply = Self::apply_fn();
        lemma_fold_concat(Self::spec_default(), fs, seq![f], apply);
        assert(fs.push(f) =~= fs + seq![f]);
        if let Ok(w) = fold_fields(Self::spec_default(), fs, apply) {
            lemma_fold_single(w, f, apply);
        }
        lemma_merge_run_fold(Self::spec_default(), bytes, apply);
        lemma_merge_run_fold(Self::spec_default(), bytes + field_bytes(f), apply);
    }

    /// Decoding the encoding of a message gives the message back.
    pub proof fn lemma_decode_encode(v: SpecCMsgDRMDownloadResponse)
        requires
            Self::spec_encode(v).len() <= u64::MAX,
        ensures
            Self::spec_decode(Self::spec_encode(v)) == Ok::<SpecCMsgDRMDownloadResponse, WireError>(v),
    {
        let apply = Self::apply_fn();
        let d = Self::spec_default();
        let p0 = Seq::<SpecField>::empty();
        let l1 = opt_u32(1, v.eresult);
        let p1 = p0 + l1;
        let l2 = opt_u32(2, v.app_id);
        let p2 = p1 + l2;
        let l3 = opt_u32(3, v.blob_download_type);
        let p3 = p2 + l3;
        let l4 = opt_bytes(4, v.merge_guid);
        let p4 = p3 + l4;
        let l5 = opt_u32(5, v.download_file_dfs_ip);
        let p5 = p4 + l5;
        let l6 = opt_u32(6, v.download_file_dfs_port);
        let p6 = p5 + l6;
        let l7 = opt_string(7, v.download_file_url);
        let p7 = p6 + l7;
        let l8 = opt_string(8, v.module_path_);
        let p8 = p7 + l8;
        assert(parse_fields(Self::spec_encode(v)) == Ok::<Seq<SpecField>, WireError>(p8)) by {
            reveal(CMsgDRMDownloadResponse::spec_encode);
            assert(numbers_ok(p0) && fields_wf(p0)) by {
                reveal(numbers_ok);
                reveal(fields_wf);
            }
            lemma_opt_u32_numbered(1, v.eresult);
            lemma_fields_wf_concat(p0, l1);
            lemma_opt_u32_numbered(2, v.app_id);
            lemma_fields_wf_concat(p1, l2);
            lemma_opt_u32_numbered(3, v.blob_download_type);
            lemma_fields_wf_concat(p2, l3);
            lemma_opt_bytes_numbered(4, v.merge_guid);
            lemma_fields_wf_concat(p3, l4);
            lemma_opt_u32_numbered(5, v.download_file_dfs_ip);
            lemma_fields_wf_concat(p4, l5);
            lemma_opt_u32_numbered(6, v.download_file_dfs_port);
            lemma_fields_wf_concat(p5, l6);
            lemma_opt_string_numbered(7, v.download_file_url);
            lemma_fields_wf_concat(p6, l7);
            lemma_opt_string_numbered(8, v.module_path_);
            lemma_fields_wf_concat(p7, l8);
            assert(p8 == Self::spec_fields(v));
            lemma_fields_wf_from_len(p8);
            lemma_fields_roundtrip(p8);
        }
        assert(Self::spec_prefix(v, 0) == d) by {
            reveal(CMsgDRMDownloadResponse::spec_prefix);
        }
        lemma_fold_empty(d, apply);
        lemma_fold_concat(d, p0, l1, apply);
        Self::lemma_field_eresult(v);
        lemma_fold_concat(d, p1, l2, apply);
        Self::lemma_field_app_id(v);
        lemma_fold_concat(d, p2, l3, apply);
        Self::lemma_field_blob_download_type(v);
        lemma_fold_concat(d, p3, l4, apply);
        Self::lemma_field_merge_guid(v);
        lemma_fold_concat(d, p4, l5, apply);
        Self::lemma_field_download_file_dfs_ip(v);
        lemma_fold_concat(d, p5, l6, apply);
        Self::lemma_field_download_file_dfs_port(v);
        lemma_fold_concat(d, p6, l7, apply);
        Self::lemma_field_download_file_url(v);
        lemma_fold_concat(d, p7, l8, apply);
        Self::lemma_field_module_path(v);
        assert(Self::spec_prefix(v, 8) == v) by {
            reveal(CMsgDRMDownloadResponse::spec_prefix);
        }
        lemma_merge_run_fold(d, Self::spec_encode(v), apply);
        assert(Self::spec_decode(Self::spec_encode(v)) == Ok::<SpecCMsgDRMDownloadResponse, WireError>(v)) by {
            reveal(CMsgDRMDownloadResponse::spec_decode);
        }
    }
}

/// `CMsgDRMFinalResult`, as Valve's schema declares it.
#[derive(Debug, Clone, PartialEq)]
pub struct CMsgDRMFinalResult {
    /// Field 1.
    pub e_result: Option<u32>,
    /// Field 2.
    pub app_id: Option<u32>,
    /// Field 3.
    pub blob_download_type: Option<u32>,
    /// Field 4.
    pub error_detail: Option<u32>,
    /// Field 5.
    pub merge_guid: Option<Vec<u8>>,
    /// Field 6.
    pub download_file_dfs_ip: Option<u32>,
    /// Field 7.
    pub download_file_dfs_port: Option<u32>,
    /// Field 8.
    pub download_file_url: Option<String>,
}

/// What a `CMsgDRMFinalResult` holds, as mathematical values.
#[verifier::ext_equal]
pub struct SpecCMsgDRMFinalResult {
    pub e_result: Option<u32>,
    pub app_id: Option<u32>,
    pub blob_download_type: Option<u32>,
    pub error_detail: Option<u32>,
    pub merge_guid: Option<Seq<u8>>,
    pub download_file_dfs_ip: Option<u32>,
    pub download_file_dfs_port: Option<u32>,
    pub download_file_url: Option<Seq<char>>,
}

impl View for CMsgDRMFinalResult {
    type V = SpecCMsgDRMFinalResult;

    open spec fn view(&self) -> SpecCMsgDRMFinalResult {
        SpecCMsgDRMFinalResult {
            e_result: self.e_result,
            app_id: self.app_id,
            blob_download_type: self.blob_download_type,
            error_detail: self.error_detail,
            merge_guid: opt_bytes_view(self.merge_guid),
            download_file_dfs_ip: self.download_file_dfs_ip,
            download_file_dfs_port: self.download_file_dfs_port,
            download_file_url: opt_string_view(self.download_file_url),
        }
    }
}

impl Default for CMsgDRMFinalResult {
    fn default() -> (r: Self)
        ensures
            r@ == CMsgDRMFinalResult::spec_default(),
    {
        CMsgDRMFinalResult {
            e_result: None,
            app_id: None,
            blob_download_type: None,
            error_detail: None,
            merge_guid: None,
            download_file_dfs_ip: None,
            download_file_dfs_port: None,
            download_file_url: None,
        }
    }
}

impl CMsgDRMFinalResult {
    /// Field 1, or its schema default when absent.
    pub fn e_result_or_default(&self) -> (r: u32)
        ensures
            r == match self.e_result {
                Some(x) => x,
                None => 2u32,
            },
    {
        self.e_result.unwrap_or(2u32)
    }

    pub open spec fn spec_default() -> SpecCMsgDRMFinalResult {
        SpecCMsgDRMFinalResult {
            e_result: None,
            app_id: None,
            blob_download_type: None,
            error_detail: None,
            merge_guid: None,
            download_file_dfs_ip: None,
            download_file_dfs_port: None,
            download_file_url: None,
        }
    }

    /// The records a `CMsgDRMFinalResult` is written as, in field order.
    pub open spec fn spec_fields(v: SpecCMsgDRMFinalResult) -> Seq<SpecField> {
        Seq::<SpecField>::empty()
            + opt_u32(1, v.e_result)
            + opt_u32(2, v.app_id)
            + opt_u32(3, v.blob_download_type)
            + opt_u32(4, v.error_detail)
            + opt_bytes(5, v.merge_guid)
            + opt_u32(6, v.download_file_dfs_ip)
            + opt_u32(7, v.download_file_dfs_port)
            + opt_string(8, v.download_file_url)
    }

    #[verifier::opaque]
    pub open spec fn spec_encode(v: SpecCMsgDRMFinalResult) -> Seq<u8> {
        fields_bytes(Self::spec_fields(v))
    }

    /// What one record does to the message: a declared number sets or extends its
    /// field, any other number is left alone.
    pub open spec fn spec_apply(v: SpecCMsgDRMFinalResult, f: SpecField) -> Result<SpecCMsgDRMFinalResult, WireError> {
        match f.number {
            1 => match dec_u32(f.value) {
                Ok(x) => Ok(SpecCMsgDRMFinalResult { e_result: Some(x), ..v }),
                Err(e) => Err(e),
            },
            2 => match dec_u32(f.value) {
                Ok(x) => Ok(SpecCMsgDRMFinalResult { app_id: Some(x), ..v }),
                Err(e) => Err(e),
            },
            3 => match dec_u32(f.value) {
                Ok(x) => Ok(SpecCMsgDRMFinalResult { blob_download_type: Some(x), ..v }),
                Err(e) => Err(e),
            },
            4 => match dec_u32(f.value) {
                Ok(x) => Ok(SpecCMsgDRMFinalResult { error_detail: Some(x), ..v }),
                Err(e) => Err(e),
            },
            5 => match dec_bytes(f.value) {
                Ok(x) => Ok(SpecCMsgDRMFinalResult { merge_guid: Some(x), ..v }),
                Err(e) => Err(e),
            },
            6 => match dec_u32(f.value) {
                Ok(x) => Ok(SpecCMsgDRMFinalResult { download_file_dfs_ip: Some(x), ..v }),
                Err(e) => Err(e),
            },
            7 => match dec_u32(f.value) {
                Ok(x) => Ok(SpecCMsgDRMFinalResult { download_file_dfs_port: Some(x), ..v }),
                Err(e) => Err(e),
            },
            8 => match dec_string(f.value) {
                Ok(x) => Ok(SpecCMsgDRMFinalResult { download_file_url: Some(x), ..v }),
                Err(e) => Err(e),
            },
            _ => Ok(v),
        }
    }

    pub open spec fn apply_fn() -> spec_fn(SpecCMsgDRMFinalResult, SpecField) -> Result<SpecCMsgDRMFinalResult, WireError> {
        |v: SpecCMsgDRMFinalResult, f: SpecField| Self::spec_apply(v, f)
    }

    /// The message `bytes` makes of `v`: its records applied in order, or the error
    /// that stops the reading.
    pub open spec fn spec_merge(v: SpecCMsgDRMFinalResult, bytes: Seq<u8>) -> Result<SpecCMsgDRMFinalResult, WireError> {
        let (w, stop) = merge_run(v, bytes, Self::apply_fn());
        match stop {
            None => Ok(w),
            Some(e) => Err(e),
        }
    }

    #[verifier::opaque]
    pub open spec fn spec_decode(bytes: Seq<u8>) -> Result<SpecCMsgDRMFinalResult, WireError> {
        Self::spec_merge(Self::spec_default(), bytes)
    }

    /// This message with one record applied to it, or, when the record is refused,
    /// the message unchanged and the reason.
    fn applied(self, f: &Field) -> (r: Result<Self, (Self, WireError)>)
        ensures
            match Self::spec_apply(self@, f@) {
                Ok(v) => r matches Ok(m) && m@ == v,
                Err(e) => r matches Err((m, x)) && x == e && m@ == self@,
            },
    {
        match f.number {
            1 => match read_u32(&f.value) {
                Ok(x) => Ok(Self { e_result: Some(x), ..self }),
                Err(e) => Err((self, e)),
            },
            2 => match read_u32(&f.value) {
                Ok(x) => Ok(Self { app_id: Some(x), ..self }),
                Err(e) => Err((self, e)),
            },
            3 => match read_u32(&f.value) {
                Ok(x) => Ok(Self { blob_download_type: Some(x), ..self }),
                Err(e) => Err((self, e)),
            },
            4 => match read_u32(&f.value) {
                Ok(x) => Ok(Self { error_detail: Some(x), ..self }),
                Err(e) => Err((self, e)),
            },
            5 => match read_bytes(&f.value) {
                Ok(x) => Ok(Self { merge_guid: Some(x), ..self }),
                Err(e) => Err((self, e)),
            },
            6 => match read_u32(&f.value) {
                Ok(x) => Ok(Self { download_file_dfs_ip: Some(x), ..self }),
                Err(e) => Err((self, e)),
            },
            7 => match read_u32(&f.value) {
                Ok(x) => Ok(Self { download_file_dfs_port: Some(x), ..self }),
                Err(e) => Err((self, e)),
            },
            8 => match read_string(&f.value) {
                Ok(x) => Ok(Self { download_file_url: Some(x), ..self }),
                Err(e) => Err((self, e)),
            },
            _ => Ok(self),
        }
    }

    /// Reads the records `bytes` holds into this message, in order. When a record does
    /// not parse or is refused, the reading stops there: the message keeps what the
    /// records before it gave, and the error is returned.
    pub fn merge(&mut self, bytes: &[u8]) -> (r: Result<(), WireError>)
        ensures
            final(self)@ == merge_run(old(self)@, bytes@, Self::apply_fn()).0,
            r == match merge_run(old(self)@, bytes@, Self::apply_fn()).1 {
                None => Ok::<(), WireError>(()),
                Some(e) => Err::<(), WireError>(e),
            },
    {
        let ghost total = merge_run(self@, bytes@, Self::apply_fn());
        let mut cur = Self::default();
        std::mem::swap(&mut cur, self);
        let mut pos: usize = 0;
        assert(bytes@.skip(0) =~= bytes@);
        while pos < bytes.len()
            invariant
                pos <= bytes@.len(),
                total == merge_run(old(self)@, bytes@, Self::apply_fn()),
                merge_run(cur@, bytes@.skip(pos as int), Self::apply_fn()) == total,
            decreases bytes@.len() - pos,
        {
            let ghost s = bytes@.skip(pos as int);
            proof {
                lemma_merge_run_step(cur@, s, Self::apply_fn());
                lemma_parse_field_len(s);
            }
            match read_field(bytes, pos) {
                Ok((f, end)) => {
                    assert(bytes@.skip(end as int) =~= s.skip((end - pos) as int));
                    match cur.applied(&f) {
                        Ok(m) => {
                            cur = m;
                        },
                        Err((m, e)) => {
                            *self = m;
                            return Err(e);
                        },
                    }
                    pos = end;
                },
                Err(e) => {
                    *self = cur;
                    return Err(e);
                },
            }
        }
        assert(bytes@.skip(pos as int) =~= Seq::<u8>::empty());
        proof {
            lemma_merge_run_empty(cur@, Self::apply_fn());
        }
        *self = cur;
        Ok(())
    }

    /// Decodes a message from its encoding.
    pub fn decode(bytes: &[u8]) -> (r: Result<Self, WireError>)
        ensures
            match Self::spec_decode(bytes@) {
                Ok(v) => r matches Ok(m) && m@ == v,
                Err(e) => r matches Err(x) && x == e,
            },
    {
        proof {
            reveal(CMsgDRMFinalResult::spec_decode);
        }
        let mut m = Self::default();
        match m.merge(bytes) {
            Ok(()) => Ok(m),
            Err(e) => Err(e),
        }
    }

    /// The encoding of this message.
    pub fn encode_to_vec(&self) -> (r: Vec<u8>)
        ensures
            r@ == Self::spec_encode(self@),
    {
        let ghost v = self@;
        let mut out: Vec<u8> = Vec::new();
        let ghost p0 = Seq::<SpecField>::empty();
        put_opt_u32(&mut out, 1, self.e_result);
        let ghost p1 = p0 + opt_u32(1, v.e_result);
        proof {
            lemma_fields_bytes_concat(p0, opt_u32(1, v.e_result));
        }
        put_opt_u32(&mut out, 2, self.app_id);
        let ghost p2 = p1 + opt_u32(2, v.app_id);
        proof {
            lemma_fields_bytes_concat(p1, opt_u32(2, v.app_id));
        }
        put_opt_u32(&mut out, 3, self.blob_download_type);
        let ghost p3 = p2 + opt_u32(3, v.blob_download_type);
        proof {
            lemma_fields_bytes_concat(p2, opt_u32(3, v.blob_download_type));
        }
        put_opt_u32(&mut out, 4, self.error_detail);
        let ghost p4 = p3 + opt_u32(4, v.error_detail);
        proof {
            lemma_fields_bytes_concat(p3, opt_u32(4, v.error_detail));
        }
        put_opt_bytes(&mut out, 5, &self.merge_guid);
        let ghost p5 = p4 + opt_bytes(5, v.merge_guid);
        proof {
            lemma_fields_bytes_concat(p4, opt_bytes(5, v.merge_guid));
        }
        put_opt_u32(&mut out, 6, self.download_file_dfs_ip);
        let ghost p6 = p5 + opt_u32(6, v.download_file_dfs_ip);
        proof {
            lemma_fields_bytes_concat(p5, opt_u32(6, v.download_file_dfs_ip));
        }
        put_opt_u32(&mut out, 7, self.download_file_dfs_port);
        let ghost p7 = p6 + opt_u32(7, v.download_file_dfs_port);
        proof {
            lemma_fields_bytes_concat(p6, opt_u32(7, v.download_file_dfs_port));
        }
        put_opt_string(&mut out, 8, &self.download_file_url);
        let ghost p8 = p7 + opt_string(8, v.download_file_url);
        proof {
            lemma_fields_bytes_concat(p7, opt_string(8, v.download_file_url));
        }
        proof {
            reveal(CMsgDRMFinalResult::spec_encode);
        }
        assert(p8 == Self::spec_fields(v));
        out
    }

    /// Appends the encoding of this message to `out`.
    pub fn encode_raw(&self, out: &mut Vec<u8>)
        ensures
            final(out)@ == old(out)@ + Self::spec_encode(self@),
    {
        let mut b = self.encode_to_vec();
        out.append(&mut b);
    }

    /// The first `k` fields of `v`, the others as a fresh message has them.
    #[verifier::opaque]
    pub open spec fn spec_prefix(v: SpecCMsgDRMFinalResult, k: int) -> SpecCMsgDRMFinalResult {
        SpecCMsgDRMFinalResult {
            e_result: if 1 <= k { v.e_result } else { None },
            app_id: if 2 <= k { v.app_id } else { None },
            blob_download_type: if 3 <= k { v.blob_download_type } else { None },
            error_detail: if 4 <= k { v.error_detail } else { None },
            merge_guid: if 5 <= k { v.merge_guid } else { None },
            download_file_dfs_ip: if 6 <= k { v.download_file_dfs_ip } else { None },
            download_file_dfs_port: if 7 <= k { v.download_file_dfs_port } else { None },
            download_file_url: if 8 <= k { v.download_file_url } else { None },
        }
    }

    /// Reading field 1 back, after the fields before it.
    proof fn lemma_field_e_result(v: SpecCMsgDRMFinalResult)
        ensures
            fold_fields(Self::spec_prefix(v, 0), opt_u32(1, v.e_result), Self::apply_fn())
                == Ok::<SpecCMsgDRMFinalResult, WireError>(Self::spec_prefix(v, 1)),
    {
        reveal(CMsgDRMFinalResult::spec_prefix);
        reveal(opt_u32);
        let apply = Self::apply_fn();
        let s = Self::spec_prefix(v, 0);
        lemma_fold_opt(s, 1, match v.e_result { Some(x) => Some(enc_u32(x)), None => None }, apply);
        if let Some(x) = v.e_result {
            lemma_u32_roundtrip(x);
        }
        assert(SpecCMsgDRMFinalResult { e_result: v.e_result, ..s } == Self::spec_prefix(v, 1));
    }

    /// Reading field 2 back, after the fields before it.
    proof fn lemma_field_app_id(v: SpecCMsgDRMFinalResult)
        ensures
            fold_fields(Self::spec_prefix(v, 1), opt_u32(2, v.app_id), Self::apply_fn())
                == Ok::<SpecCMsgDRMFinalResult, WireError>(Self::spec_prefix(v, 2)),
    {
        reveal(CMsgDRMFinalResult::spec_prefix);
        reveal(opt_u32);
        let apply = Self::apply_fn();
        let s = Self::spec_prefix(v, 1);
        lemma_fold_opt(s, 2, match v.app_id { Some(x) => Some(enc_u32(x)), None => None }, apply);
        if let Some(x) = v.app_id {
            lemma_u32_roundtrip(x);
        }
        assert(SpecCMsgDRMFinalResult { app_id: v.app_id, ..s } == Self::spec_prefix(v, 2));
    }

    /// Reading field 3 back, after the fields before it.
    proof fn lemma_field_blob_download_type(v: SpecCMsgDRMFinalResult)
        ensures
            fold_fields(Self::spec_prefix(v, 2), opt_u32(3, v.blob_download_type), Self::apply_fn())
                == Ok::<SpecCMsgDRMFinalResult, WireError>(Self::spec_prefix(v, 3)),
    {
        reveal(CMsgDRMFinalResult::spec_prefix);
        reveal(opt_u32);
        let apply = Self::apply_fn();
        let s = Self::spec_prefix(v, 2);
        lemma_fold_opt(s, 3, match v.blob_download_type { Some(x) => Some(enc_u32(x)), None => None }, apply);
        if let Some(x) = v.blob_download_type {
            lemma_u32_roundtrip(x);
        }
        assert(SpecCMsgDRMFinalResult { blob_download_type: v.blob_download_type, ..s } == Self::spec_prefix(v, 3));
    }

    /// Reading field 4 back, after the fields before it.
    proof fn lemma_field_error_detail(v: SpecCMsgDRMFinalResult)
        ensures
            fold_fields(Self::spec_prefix(v, 3), opt_u32(4, v.error_detail), Self::apply_fn())
                == Ok::<SpecCMsgDRMFinalResult, WireError>(Self::spec_prefix(v, 4)),
    {
        reveal(CMsgDRMFinalResult::spec_prefix);
        reveal(opt_u32);
        let apply = Self::apply_fn();
        let s = Self::spec_prefix(v, 3);
        lemma_fold_opt(s, 4, match v.error_detail { Some(x) => Some(enc_u32(x)), None => None }, apply);
        if let Some(x) = v.error_detail {
            lemma_u32_roundtrip(x);
        }
        assert(SpecCMsgDRMFinalResult { error_detail: v.error_detail, ..s } == Self::spec_prefix(v, 4));
    }

    /// Reading field 5 back, after the fields before it.
    proof fn lemma_field_merge_guid(v: SpecCMsgDRMFinalResult)
        ensures
            fold_fields(Self::spec_prefix(v, 4), opt_bytes(5, v.merge_guid), Self::apply_fn())
                == Ok::<SpecCMsgDRMFinalResult, WireError>(Self::spec_prefix(v, 5)),
    {
        reveal(CMsgDRMFinalResult::spec_prefix);
        reveal(opt_bytes);
        let apply = Self::apply_fn();
        let s = Self::spec_prefix(v, 4);
        lemma_fold_opt(s, 5, match v.merge_guid { Some(x) => Some(enc_bytes(x)), None => None }, apply);
        assert(SpecCMsgDRMFinalResult { merge_guid: v.merge_guid, ..s } == Self::spec_prefix(v, 5));
    }

    /// Reading field 6 back, after the fields before it.
    proof fn lemma_field_download_file_dfs_ip(v: SpecCMsgDRMFinalResult)
        ensures
            fold_fields(Self::spec_prefix(v, 5), opt_u32(6, v.download_file_dfs_ip), Self::apply_fn())
                == Ok::<SpecCMsgDRMFinalResult, WireError>(Self::spec_prefix(v, 6)),
    {
        reveal(CMsgDRMFinalResult::spec_prefix);
        reveal(opt_u32);
        let apply = Self::apply_fn();
        let s = Self::spec_prefix(v, 5);
        lemma_fold_opt(s, 6, match v.download_file_dfs_ip { Some(x) => Some(enc_u32(x)), None => None }, apply);
        if let Some(x) = v.download_file_dfs_ip {
            lemma_u32_roundtrip(x);
        }
        assert(SpecCMsgDRMFinalResult { download_file_dfs_ip: v.download_file_dfs_ip, ..s } == Self::spec_prefix(v, 6));
    }

    /// Reading field 7 back, after the fields before it.
    proof fn lemma_field_download_file_dfs_port(v: SpecCMsgDRMFinalResult)
        ensures
            fold_fields(Self::spec_prefix(v, 6), opt_u32(7, v.download_file_dfs_port), Self::apply_fn())
                == Ok::<SpecCMsgDRMFinalResult, WireError>(Self::spec_prefix(v, 7)),
    {
        reveal(CMsgDRMFinalResult::spec_prefix);
        reveal(opt_u32);
        let apply = Self::apply_fn();
        let s = Self::spec_prefix(v, 6);
        lemma_fold_opt(s, 7, match v.download_file_dfs_port { Some(x) => Some(enc_u32(x)), None => None }, apply);
        if let Some(x) = v.download_file_dfs_port {
            lemma_u32_roundtrip(x);
        }
        assert(SpecCMsgDRMFinalResult { download_file_dfs_port: v.download_file_dfs_port, ..s } == Self::spec_prefix(v, 7));
    }

    /// Reading field 8 back, after the fields before it.
    proof fn lemma_field_download_file_url(v: SpecCMsgDRMFinalResult)
        ensures
            fold_fields(Self::spec_prefix(v, 7), opt_string(8, v.download_file_url), Self::apply_fn())
                == Ok::<SpecCMsgDRMFinalResult, WireError>(Self::spec_prefix(v, 8)),
    {
        reveal(CMsgDRMFinalResult::spec_prefix);
        reveal(opt_string);
        let apply = Self::apply_fn();
        let s = Self::spec_prefix(v, 7);
        lemma_fold_opt(s, 8, match v.download_file_url { Some(x) => Some(enc_string(x)), None => None }, apply);
        if let Some(x) = v.download_file_url {
            lemma_string_roundtrip(x);
        }
        assert(SpecCMsgDRMFinalResult { download_file_url: v.download_file_url, ..s } == Self::spec_prefix(v, 8));
    }

    /// Whether this message declares field number `n`.
    pub open spec fn declares(n: u32) -> bool {
        n == 1 || n == 2 || n == 3 || n == 4 || n == 5 || n == 6 || n == 7 || n == 8
    }

    /// A record with a number this message does not declare is passed over: well-formed
    /// bytes decode to the same message with such a record after them as without it.
    pub proof fn lemma_unknown_field(bytes: Seq<u8>, f: SpecField)
        requires
            parse_fields(bytes) is Ok,
            field_wf(f),
            !Self::declares(f.number),
        ensures
            Self::spec_decode(bytes + field_bytes(f)) == Self::spec_decode(bytes),
    {
        reveal(CMsgDRMFinalResult::spec_decode);
        lemma_parse_fields_append(bytes, f);
        let fs = parse_fields(bytes).unwrap();
        let apply = Self::apply_fn();
        lemma_fold_concat(Self::spec_default(), fs, seq![f], apply);
        assert(fs.push(f) =~= fs + seq![f]);
        if let Ok(w) = fold_fields(Self::spec_default(), fs, apply) {
            lemma_fold_single(w, f, apply);
        }
        lemma_merge_run_fold(Self::spec_default(), bytes, apply);
        lemma_merge_run_fold(Self::spec_default(), bytes + field_bytes(f), apply);
    }

    /// Decoding the encoding of a message gives the message back.
    pub proof fn lemma_decode_encode(v: SpecCMsgDRMFinalResult)
        requires
            Self::spec_encode(v).len() <= u64::MAX,
        ensures
            Self::spec_decode(Self::spec_encode(v)) == Ok::<SpecCMsgDRMFinalResult, WireError>(v),
    {
        let apply = Self::apply_fn();
        let d = Self::spec_default();
        let p0 = Seq::<SpecField>::empty();
        let l1 = opt_u32(1, v.e_result);
        let p1 = p0 + l1;
        let l2 = opt_u32(2, v.app_id);
        let p2 = p1 + l2;
        let l3 = opt_u32(3, v.blob_download_type);
        let p3 = p2 + l3;
        let l4 = opt_u32(4, v.error_detail);
        let p4 = p3 + l4;
        let l5 = opt_bytes(5, v.merge_guid);
        let p5 = p4 + l5;
        let l6 = opt_u32(6, v.download_file_dfs_ip);
        let p6 = p5 + l6;
        let l7 = opt_u32(7, v.download_file_dfs_port);
        let p7 = p6 + l7;
        let l8 = opt_string(8, v.download_file_url);
        let p8 = p7 + l8;
        assert(parse_fields(Self::spec_encode(v)) == Ok::<Seq<SpecField>, WireError>(p8)) by {
            reveal(CMsgDRMFinalResult::spec_encode);
            assert(numbers_ok(p0) && fields_wf(p0)) by {
                reveal(numbers_ok);
                reveal(fields_wf);
            }
            lemma_opt_u32_numbered(1, v.e_result);
            lemma_fields_wf_concat(p0, l1);
            lemma_opt_u32_numbered(2, v.app_id);
            lemma_fields_wf_concat(p1, l2);
            lemma_opt_u32_numbered(3, v.blob_download_type);
            lemma_fields_wf_concat(p2, l3);
            lemma_opt_u32_numbered(4, v.error_detail);
            lemma_fields_wf_concat(p3, l4);
            lemma_opt_bytes_numbered(5, v.merge_guid);
            lemma_fields_wf_concat(p4, l5);
            lemma_opt_u32_numbered(6, v.download_file_dfs_ip);
            lemma_fields_wf_concat(p5, l6);
            lemma_opt_u32_numbered(7, v.download_file_dfs_port);
            lemma_fields_wf_concat(p6, l7);
            lemma_opt_string_numbered(8, v.download_file_url);
            lemma_fields_wf_concat(p7, l8);
            assert(p8 == Self::spec_fields(v));
            lemma_fields_wf_from_len(p8);
            lemma_fields_roundtrip(p8);
        }
        assert(Self::spec_prefix(v, 0) == d) by {
            reveal(CMsgDRMFinalResult::spec_prefix);
        }
        lemma_fold_empty(d, apply);
        lemma_fold_concat(d, p0, l1, apply);
        Self::lemma_field_e_result(v);
        lemma_fold_concat(d, p1, l2, apply);
        Self::lemma_field_app_id(v);
        lemma_fold_concat(d, p2, l3, apply);
        Self::lemma_field_blob_download_type(v);
        lemma_fold_concat(d, p3, l4, apply);
        Self::lemma_field_error_detail(v);
        lemma_fold_concat(d, p4, l5, apply);
        Self::lemma_field_merge_guid(v);
        lemma_fold_concat(d, p5, l6, apply);
        Self::lemma_field_download_file_dfs_ip(v);
        lemma_fold_concat(d, p6, l7, apply);
        Self::lemma_field_download_file_dfs_port(v);
        lemma_fold_concat(d, p7, l8, apply);
        Self::lemma_field_download_file_url(v);
        assert(Self::spec_prefix(v, 8) == v) by {
            reveal(CMsgDRMFinalResult::spec_prefix);
        }
        lemma_merge_run_fold(d, Self::spec_encode(v), apply);
        assert(Self::spec_decode(Self::spec_encode(v)) == Ok::<SpecCMsgDRMFinalResult, WireError>(v)) by {
            reveal(CMsgDRMFinalResult::spec_decode);
        }
    }
}

/// `CMsgClientDPCheckSpecialSurvey`, as Valve's schema declares it.
#[derive(Debug, Clone, PartialEq)]
pub struct CMsgClientDPCheckSpecialSurvey {
    /// Field 1.
    pub survey_id: Option<u32>,
}

/// What a `CMsgClientDPCheckSpecialSurvey` holds, as mathematical values.
#[verifier::ext_equal]
pub struct SpecCMsgClientDPCheckSpecialSurvey {
    pub survey_id: Option<u32>,
}

impl View for CMsgClientDPCheckSpecialSurvey {
    type V = SpecCMsgClientDPCheckSpecialSurvey;

    open spec fn view(&self) -> SpecCMsgClientDPCheckSpecialSurvey {
        SpecCMsgClientDPCheckSpecialSurvey {
            survey_id: self.survey_id,
        }
    }
}

impl Default for CMsgClientDPCheckSpecialSurvey {
    fn default() -> (r: Self)
        ensures
            r@ == CMsgClientDPCheckSpecialSurvey::spec_default(),
    {
        CMsgClientDPCheckSpecialSurvey {
            survey_id: None,
        }
    }
}

impl CMsgClientDPCheckSpecialSurvey {
    pub open spec fn spec_default() -> SpecCMsgClientDPCheckSpecialSurvey {
        SpecCMsgClientDPCheckSpecialSurvey {
            survey_id: None,
        }
    }

    /// The records a `CMsgClientDPCheckSpecialSurvey` is written as, in field order.
    pub open spec fn spec_fields(v: SpecCMsgClientDPCheckSpecialSurvey) -> Seq<SpecField> {
        Seq::<SpecField>::empty()
            + opt_u32(1, v.survey_id)
    }

    #[verifier::opaque]
    pub open spec fn spec_encode(v: SpecCMsgClientDPCheckSpecialSurvey) -> Seq<u8> {
        fields_bytes(Self::spec_fields(v))
    }

    /// What one record does to the message: a declared number sets or extends its
    /// field, any other number is left alone.
    pub open spec fn spec_apply(v: SpecCMsgClientDPCheckSpecialSurvey, f: SpecField) -> Result<SpecCMsgClientDPCheckSpecialSurvey, WireError> {
        match f.number {
            1 => match dec_u32(f.value) {
                Ok(x) => Ok(SpecCMsgClientDPCheckSpecialSurvey { survey_id: Some(x), ..v }),
                Err(e) => Err(e),
            },
            _ => Ok(v),
        }
    }

    pub open spec fn apply_fn() -> spec_fn(SpecCMsgClientDPCheckSpecialSurvey, SpecField) -> Result<SpecCMsgClientDPCheckSpecialSurvey, WireError> {
        |v: SpecCMsgClientDPCheckSpecialSurvey, f: SpecField| Self::spec_apply(v, f)
    }

    /// The message `bytes` makes of `v`: its records applied in order, or the error
    /// that stops the reading.
    pub open spec fn spec_merge(v: SpecCMsgClientDPCheckSpecialSurvey, bytes: Seq<u8>) -> Result<SpecCMsgClientDPCheckSpecialSurvey, WireError> {
        let (w, stop) = merge_run(v, bytes, Self::apply_fn());
        match stop {
            None => Ok(w),
            Some(e) => Err(e),
        }
    }

    #[verifier::opaque]
    pub open spec fn spec_decode(bytes: Seq<u8>) -> Result<SpecCMsgClientDPCheckSpecialSurvey, WireError> {
        Self::spec_merge(Self::spec_default(), bytes)
    }

    /// This message with one record applied to it, or, when the record is refused,
    /// the message unchanged and the reason.
    fn applied(self, f: &Field) -> (r: Result<Self, (Self, WireError)>)
        ensures
            match Self::spec_apply(self@, f@) {
                Ok(v) => r matches Ok(m) && m@ == v,
                Err(e) => r matches Err((m, x)) && x == e && m@ == self@,
            },
    {
        match f.number {
            1 => match read_u32(&f.value) {
                Ok(x) => Ok(Self { survey_id: Some(x), ..self }),
                Err(e) => Err((self, e)),
            },
            _ => Ok(self),
        }
    }

    /// Reads the records `bytes` holds into this message, in order. When a record does
    /// not parse or is refused, the reading stops there: the message keeps what the
    /// records before it gave, and the error is returned.
    pub fn merge(&mut self, bytes: &[u8]) -> (r: Result<(), WireError>)
        ensures
            final(self)@ == merge_run(old(self)@, bytes@, Self::apply_fn()).0,
            r == match merge_run(old(self)@, bytes@, Self::apply_fn()).1 {
                None => Ok::<(), WireError>(()),
                Some(e) => Err::<(), WireError>(e),
            },
    {
        let ghost total = merge_run(self@, bytes@, Self::apply_fn());
        let mut cur = Self::default();
        std::mem::swap(&mut cur, self);
        let mut pos: usize = 0;
        assert(bytes@.skip(0) =~= bytes@);
        while pos < bytes.len()
            invariant
                pos <= bytes@.len(),
                total == merge_run(old(self)@, bytes@, Self::apply_fn()),
                merge_run(cur@, bytes@.skip(pos as int), Self::apply_fn()) == total,
            decreases bytes@.len() - pos,
        {
            let ghost s = bytes@.skip(pos as int);
            proof {
                lemma_merge_run_step(cur@, s, Self::apply_fn());
                lemma_parse_field_len(s);
            }
            match read_field(bytes, pos) {
                Ok((f, end)) => {
                    assert(bytes@.skip(end as int) =~= s.skip((end - pos) as int));
                    match cur.applied(&f) {
                        Ok(m) => {
                            cur = m;
                        },
                        Err((m, e)) => {
                            *self = m;
                            return Err(e);
                        },
                    }
                    pos = end;
                },
                Err(e) => {
                    *self = cur;
                    return Err(e);
                },
            }
        }
        assert(bytes@.skip(pos as int) =~= Seq::<u8>::empty());
        proof {
            lemma_merge_run_empty(cur@, Self::apply_fn());
        }
        *self = cur;
        Ok(())
    }

    /// Decodes a message from its encoding.
    pub fn decode(bytes: &[u8]) -> (r: Result<Self, WireError>)
        ensures
            match Self::spec_decode(bytes@) {
                Ok(v) => r matches Ok(m) && m@ == v,
                Err(e) => r matches Err(x) && x == e,
            },
    {
        proof {
            reveal(CMsgClientDPCheckSpecialSurvey::spec_decode);
        }
        let mut m = Self::default();
        match m.merge(bytes) {
            Ok(()) => Ok(m),
            Err(e) => Err(e),
        }
    }

    /// The encoding of this message.
    pub fn encode_to_vec(&self) -> (r: Vec<u8>)
        ensures
            r@ == Self::spec_encode(self@),
    {
        let ghost v = self@;
        let mut out: Vec<u8> = Vec::new();
        let ghost p0 = Seq::<SpecField>::empty();
        put_opt_u32(&mut out, 1, self.survey_id);
        let ghost p1 = p0 + opt_u32(1, v.survey_id);
        proof {
            lemma_fields_bytes_concat(p0, opt_u32(1, v.survey_id));
        }
        proof {
            reveal(CMsgClientDPCheckSpecialSurvey::spec_encode);
        }
        assert(p1 == Self::spec_fields(v));
        out
    }

    /// Appends the encoding of this message to `out`.
    pub fn encode_raw(&self, out: &mut Vec<u8>)
        ensures
            final(out)@ == old(out)@ + Self::spec_encode(self@),
    {
        let mut b = self.encode_to_vec();
        out.append(&mut b);
    }

    /// The first `k` fields of `v`, the others as a fresh message has them.
    #[verifier::opaque]
    pub open spec fn spec_prefix(v: SpecCMsgClientDPCheckSpecialSurvey, k: int) -> SpecCMsgClientDPCheckSpecialSurvey {
        SpecCMsgClientDPCheckSpecialSurvey {
            survey_id: if 1 <= k { v.survey_id } else { None },
        }
    }

    /// Reading field 1 back, after the fields before it.
    proof fn lemma_field_survey_id(v: SpecCMsgClientDPCheckSpecialSurvey)
        ensures
            fold_fields(Self::spec_prefix(v, 0), opt_u32(1, v.survey_id), Self::apply_fn())
                == Ok::<SpecCMsgClientDPCheckSpecialSurvey, WireError>(Self::spec_prefix(v, 1)),
    {
        reveal(CMsgClientDPCheckSpecialSurvey::spec_prefix);
        reveal(opt_u32);
        let apply = Self::apply_fn();
        let s = Self::spec_prefix(v, 0);
        lemma_fold_opt(s, 1, match v.survey_id { Some(x) => Some(enc_u32(x)), None => None }, apply);
        if let Some(x) = v.survey_id {
            lemma_u32_roundtrip(x);
        }
        assert(SpecCMsgClientDPCheckSpecialSurvey { survey_id: v.survey_id, ..s } == Self::spec_prefix(v, 1));
    }

    /// Whether this message declares field number `n`.
    pub open spec fn declares(n: u32) -> bool {
        n == 1
    }

    /// A record with a number this message does not declare is passed over: well-formed
    /// bytes decode to the same message with such a record after them as without it.
    pub proof fn lemma_unknown_field(bytes: Seq<u8>, f: SpecField)
        requires
            parse_fields(bytes) is Ok,
            field_wf(f),
            !Self::declares(f.number),
        ensures
            Self::spec_decode(bytes + field_bytes(f)) == Self::spec_decode(bytes),
    {
        reveal(CMsgClientDPCheckSpecialSurvey::spec_decode);
        lemma_parse_fields_append(bytes, f);
        let fs = parse_fields(bytes).unwrap();
        let apply = Self::apply_fn();
        lemma_fold_concat(Self::spec_default(), fs, seq![f], apply);
        assert(fs.push(f) =~= fs + seq![f]);
        if let Ok(w) = fold_fields(Self::spec_default(), fs, apply) {
            lemma_fold_single(w, f, apply);
        }
        lemma_merge_run_fold(Self::spec_default(), bytes, apply);
        lemma_merge_run_fold(Self::spec_default(), bytes + field_bytes(f), apply);
    }

    /// Decoding the encoding of a message gives the message back.
    pub proof fn lemma_decode_encode(v: SpecCMsgClientDPCheckSpecialSurvey)
        requires
            Self::spec_encode(v).len() <= u64::MAX,
        ensures
            Self::spec_decode(Self::spec_encode(v)) == Ok::<SpecCMsgClientDPCheckSpecialSurvey, WireError>(v),
    {
        let apply = Self::apply_fn();
        let d = Self::spec_default();
        let p0 = Seq::<SpecField>::empty();
        let l1 = opt_u32(1, v.survey_id);
        let p1 = p0 + l1;
        assert(parse_fields(Self::spec_encode(v)) == Ok::<Seq<SpecField>, WireError>(p1)) by {
            reveal(CMsgClientDPCheckSpecialSurvey::spec_encode);
            assert(numbers_ok(p0) && fields_wf(p0)) by {
                reveal(numbers_ok);
                reveal(fields_wf);
            }
            lemma_opt_u32_numbered(1, v.survey_id);
            lemma_fields_wf_concat(p0, l1);
            assert(p1 == Self::spec_fields(v));
            lemma_fields_wf_from_len(p1);
            lemma_fields_roundtrip(p1);
        }
        assert(Self::spec_prefix(v, 0) == d) by {
            reveal(CMsgClientDPCheckSpecialSurvey::spec_prefix);
        }
        lemma_fold_empty(d, apply);
        lemma_fold_concat(d, p0, l1, apply);
        Self::lemma_field_survey_id(v);
        assert(Self::spec_prefix(v, 1) == v) by {
            reveal(CMsgClientDPCheckSpecialSurvey::spec_prefix);
        }
        lemma_merge_run_fold(d, Self::spec_encode(v), apply);
        assert(Self::spec_decode(Self::spec_encode(v)) == Ok::<SpecCMsgClientDPCheckSpecialSurvey, WireError>(v)) by {
            reveal(CMsgClientDPCheckSpecialSurvey::spec_decode);
        }
    }
}

/// `CMsgClientDPCheckSpecialSurveyResponse`, as Valve's schema declares it.
#[derive(Debug, Clone, PartialEq)]
pub struct CMsgClientDPCheckSpecialSurveyResponse {
    /// Field 1.
    pub e_result: Option<u32>,
    /// Field 2.
    pub state: Option<u32>,
    /// Field 3.
    pub name: Option<String>,
    /// Field 4.
    pub custom_url: Option<String>,
    /// Field 5.
    pub include_software: Option<bool>,
    /// Field 6.
    pub token: Option<Vec<u8>>,
}

/// What a `CMsgClientDPCheckSpecialSurveyResponse` holds, as mathematical values.
#[verifier::ext_equal]
pub struct SpecCMsgClientDPCheckSpecialSurveyResponse {
    pub e_result: Option<u32>,
    pub state: Option<u32>,
    pub name: Option<Seq<char>>,
    pub custom_url: Option<Seq<char>>,
    pub include_software: Option<bool>,
    pub token: Option<Seq<u8>>,
}

impl View for CMsgClientDPCheckSpecialSurveyResponse {
    type V = SpecCMsgClientDPCheckSpecialSurveyResponse;

    open spec fn view(&self) -> SpecCMsgClientDPCheckSpecialSurveyResponse {
        SpecCMsgClientDPCheckSpecialSurveyResponse {
            e_result: self.e_result,
            state: self.state,
            name: opt_string_view(self.name),
            custom_url: opt_string_view(self.custom_url),
            include_software: self.include_software,
            token: opt_bytes_view(self.token),
        }
    }
}

impl Default for CMsgClientDPCheckSpecialSurveyResponse {
    fn default() -> (r: Self)
        ensures
            r@ == CMsgClientDPCheckSpecialSurveyResponse::spec_default(),
    {
        CMsgClientDPCheckSpecialSurveyResponse {
            e_result: None,
            state: None,
            name: None,
            custom_url: None,
            include_software: None,
            token: None,
        }
    }
}

impl CMsgClientDPCheckSpecialSurveyResponse {
    /// Field 1, or its schema default when absent.
    pub fn e_result_or_default(&self) -> (r: u32)
        ensures
            r == match self.e_result {
                Some(x) => x,
                None => 2u32,
            },
    {
        self.e_result.unwrap_or(2u32)
    }

    pub open spec fn spec_default() -> SpecCMsgClientDPCheckSpecialSurveyResponse {
        SpecCMsgClientDPCheckSpecialSurveyResponse {
            e_result: None,
            state: None,
            name: None,
            custom_url: None,
            include_software: None,
            token: None,
        }
    }

    /// The records a `CMsgClientDPCheckSpecialSurveyResponse` is written as, in field order.
    pub open spec fn spec_fields(v: SpecCMsgClientDPCheckSpecialSurveyResponse) -> Seq<SpecField> {
        Seq::<SpecField>::empty()
            + opt_u32(1, v.e_result)
            + opt_u32(2, v.state)
            + opt_string(3, v.name)
            + opt_string(4, v.custom_url)
            + opt_bool(5, v.include_software)
            + opt_bytes(6, v.token)
    }

    #[verifier::opaque]
    pub open spec fn spec_encode(v: SpecCMsgClientDPCheckSpecialSurveyResponse) -> Seq<u8> {
        fields_bytes(Self::spec_fields(v))
    }

    /// What one record does to the message: a declared number sets or extends its
    /// field, any other number is left alone.
    pub open spec fn spec_apply(v: SpecCMsgClientDPCheckSpecialSurveyResponse, f: SpecField) -> Result<SpecCMsgClientDPCheckSpecialSurveyResponse, WireError> {
        match f.number {
            1 => match dec_u32(f.value) {
                Ok(x) => Ok(SpecCMsgClientDPCheckSpecialSurveyResponse { e_result: Some(x), ..v }),
                Err(e) => Err(e),
            },
            2 => match dec_u32(f.value) {
                Ok(x) => Ok(SpecCMsgClientDPCheckSpecialSurveyResponse { state: Some(x), ..v }),
                Err(e) => Err(e),
            },
            3 => match dec_string(f.value) {
                Ok(x) => Ok(SpecCMsgClientDPCheckSpecialSurveyResponse { name: Some(x), ..v }),
                Err(e) => Err(e),
            },
            4 => match dec_string(f.value) {
                Ok(x) => Ok(SpecCMsgClientDPCheckSpecialSurveyResponse { custom_url: Some(x), ..v }),
                Err(e) => Err(e),
            },
            5 => match dec_bool(f.value) {
                Ok(x) => Ok(SpecCMsgClientDPCheckSpecialSurveyResponse { include_software: Some(x), ..v }),
                Err(e) => Err(e),
            },
            6 => match dec_bytes(f.value) {
                Ok(x) => Ok(SpecCMsgClientDPCheckSpecialSurveyResponse { token: Some(x), ..v }),
                Err(e) => Err(e),
            },
            _ => Ok(v),
        }
    }

    pub open spec fn apply_fn() -> spec_fn(SpecCMsgClientDPCheckSpecialSurveyResponse, SpecField) -> Result<SpecCMsgClientDPCheckSpecialSurveyResponse, WireError> {
        |v: SpecCMsgClientDPCheckSpecialSurveyResponse, f: SpecField| Self::spec_apply(v, f)
    }

    /// The message `bytes` makes of `v`: its records applied in order, or the error
    /// that stops the reading.
    pub open spec fn spec_merge(v: SpecCMsgClientDPCheckSpecialSurveyResponse, bytes: Seq<u8>) -> Result<SpecCMsgClientDPCheckSpecialSurveyResponse, WireError> {
        let (w, stop) = merge_run(v, bytes, Self::apply_fn());
        match stop {
            None => Ok(w),
            Some(e) => Err(e),
        }
    }

    #[verifier::opaque]
    pub open spec fn spec_decode(bytes: Seq<u8>) -> Result<SpecCMsgClientDPCheckSpecialSurveyResponse, WireError> {
        Self::spec_merge(Self::spec_default(), bytes)
    }

    /// This message with one record applied to it, or, when the record is refused,
    /// the message unchanged and the reason.
    fn applied(self, f: &Field) -> (r: Result<Self, (Self, WireError)>)
        ensures
            match Self::spec_apply(self@, f@) {
                Ok(v) => r matches Ok(m) && m@ == v,
                Err(e) => r matches Err((m, x)) && x == e && m@ == self@,
            },
    {
        match f.number {
            1 => match read_u32(&f.value) {
                Ok(x) => Ok(Self { e_result: Some(x), ..self }),
                Err(e) => Err((self, e)),
            },
            2 => match read_u32(&f.value) {
                Ok(x) => Ok(Self { state: Some(x), ..self }),
                Err(e) => Err((self, e)),
            },
            3 => match read_string(&f.value) {
                Ok(x) => Ok(Self { name: Some(x), ..self }),
                Err(e) => Err((self, e)),
            },
            4 => match read_string(&f.value) {
                Ok(x) => Ok(Self { custom_url: Some(x), ..self }),
                Err(e) => Err((self, e)),
            },
            5 => match read_bool(&f.value) {
                Ok(x) => Ok(Self { include_software: Some(x), ..self }),
                Err(e) => Err((self, e)),
            },
            6 => match read_bytes(&f.value) {
                Ok(x) => Ok(Self { token: Some(x), ..self }),
                Err(e) => Err((self, e)),
            },
            _ => Ok(self),
        }
    }

    /// Reads the records `bytes` holds into this message, in order. When a record does
    /// not parse or is refused, the reading stops there: the message keeps what the
    /// records before it gave, and the error is returned.
    pub fn merge(&mut self, bytes: &[u8]) -> (r: Result<(), WireError>)
        ensures
            final(self)@ == merge_run(old(self)@, bytes@, Self::apply_fn()).0,
            r == match merge_run(old(self)@, bytes@, Self::apply_fn()).1 {
                None => Ok::<(), WireError>(()),
                Some(e) => Err::<(), WireError>(e),
            },
    {
        let ghost total = merge_run(self@, bytes@, Self::apply_fn());
        let mut cur = Self::default();
        std::mem::swap(&mut cur, self);
        let mut pos: usize = 0;
        assert(bytes@.skip(0) =~= bytes@);
        while pos < bytes.len()
            invariant
                pos <= bytes@.len(),
                total == merge_run(old(self)@, bytes@, Self::apply_fn()),
                merge_run(cur@, bytes@.skip(pos as int), Self::apply_fn()) == total,
            decreases bytes@.len() - pos,
        {
            let ghost s = bytes@.skip(pos as int);
            proof {
                lemma_merge_run_step(cur@, s, Self::apply_fn());
                lemma_parse_field_len(s);
            }
            match read_field(bytes, pos) {
                Ok((f, end)) => {
                    assert(bytes@.skip(end as int) =~= s.skip((end - pos) as int));
                    match cur.applied(&f) {
                        Ok(m) => {
                            cur = m;
                        },
                        Err((m, e)) => {
                            *self = m;
                            return Err(e);
                        },
                    }
                    pos = end;
                },
                Err(e) => {
                    *self = cur;
                    return Err(e);
                },
            }
        }
        assert(bytes@.skip(pos as int) =~= Seq::<u8>::empty());
        proof {
            lemma_merge_run_empty(cur@, Self::apply_fn());
        }
        *self = cur;
        Ok(())
    }

    /// Decodes a message from its encoding.
    pub fn decode(bytes: &[u8]) -> (r: Result<Self, WireError>)
        ensures
            match Self::spec_decode(bytes@) {
                Ok(v) => r matches Ok(m) && m@ == v,
                Err(e) => r matches Err(x) && x == e,
            },
    {
        proof {
            reveal(CMsgClientDPCheckSpecialSurveyResponse::spec_decode);
        }
        let mut m = Self::default();
        match m.merge(bytes) {
            Ok(()) => Ok(m),
            Err(e) => Err(e),
        }
    }

    /// The encoding of this message.
    pub fn encode_to_vec(&self) -> (r: Vec<u8>)
        ensures
            r@ == Self::spec_encode(self@),
    {
        let ghost v = self@;
        let mut out: Vec<u8> = Vec::new();
        let ghost p0 = Seq::<SpecField>::empty();
        put_opt_u32(&mut out, 1, self.e_result);
        let ghost p1 = p0 + opt_u32(1, v.e_result);
        proof {
            lemma_fields_bytes_concat(p0, opt_u32(1, v.e_result));
        }
        put_opt_u32(&mut out, 2, self.state);
        let ghost p2 = p1 + opt_u32(2, v.state);
        proof {
            lemma_fields_bytes_concat(p1, opt_u32(2, v.state));
        }
        put_opt_string(&mut out, 3, &self.name);
        let ghost p3 = p2 + opt_string(3, v.name);
        proof {
            lemma_fields_bytes_concat(p2, opt_string(3, v.name));
        }
        put_opt_string(&mut out, 4, &self.custom_url);
        let ghost p4 = p3 + opt_string(4, v.custom_url);
        proof {
            lemma_fields_bytes_concat(p3, opt_string(4, v.custom_url));
        }
        put_opt_bool(&mut out, 5, self.include_software);
        let ghost p5 = p4 + opt_bool(5, v.include_software);
        proof {
            lemma_fields_bytes_concat(p4, opt_bool(5, v.include_software));
        }
        put_opt_bytes(&mut out, 6, &self.token);
        let ghost p6 = p5 + opt_bytes(6, v.token);
        proof {
            lemma_fields_bytes_concat(p5, opt_bytes(6, v.token));
        }
        proof {
            reveal(CMsgClientDPCheckSpecialSurveyResponse::spec_encode);
        }
        assert(p6 == Self::spec_fields(v));
        out
    }

    /// Appends the encoding of this message to `out`.
    pub fn encode_raw(&self, out: &mut Vec<u8>)
        ensures
            final(out)@ == old(out)@ + Self::spec_encode(self@),
    {
        let mut b = self.encode_to_vec();
        out.append(&mut b);
    }

    /// The first `k` fields of `v`, the others as a fresh message has them.
    #[verifier::opaque]
    pub open spec fn spec_prefix(v: SpecCMsgClientDPCheckSpecialSurveyResponse, k: int) -> SpecCMsgClientDPCheckSpecialSurveyResponse {
        SpecCMsgClientDPCheckSpecialSurveyResponse {
            e_result: if 1 <= k { v.e_result } else { None },
            state: if 2 <= k { v.state } else { None },
            name: if 3 <= k { v.name } else { None },
            custom_url: if 4 <= k { v.custom_url } else { None },
            include_software: if 5 <= k { v.include_software } else { None },
            token: if 6 <= k { v.token } else { None },
        }
    }

    /// Reading field 1 back, after the fields before it.
    proof fn lemma_field_e_result(v: SpecCMsgClientDPCheckSpecialSurveyResponse)
        ensures
            fold_fields(Self::spec_prefix(v, 0), opt_u32(1, v.e_result), Self::apply_fn())
                == Ok::<SpecCMsgClientDPCheckSpecialSurveyResponse, WireError>(Self::spec_prefix(v, 1)),
    {
        reveal(CMsgClientDPCheckSpecialSurveyResponse::spec_prefix);
        reveal(opt_u32);
        let apply = Self::apply_fn();
        let s = Self::spec_prefix(v, 0);
        lemma_fold_opt(s, 1, match v.e_result { Some(x) => Some(enc_u32(x)), None => None }, apply);
        if let Some(x) = v.e_result {
            lemma_u32_roundtrip(x);
        }
        assert(SpecCMsgClientDPCheckSpecialSurveyResponse { e_result: v.e_result, ..s } == Self::spec_prefix(v, 1));
    }

    /// Reading field 2 back, after the fields before it.
    proof fn lemma_field_state(v: SpecCMsgClientDPCheckSpecialSurveyResponse)
        ensures
            fold_fields(Self::spec_prefix(v, 1), opt_u32(2, v.state), Self::apply_fn())
                == Ok::<SpecCMsgClientDPCheckSpecialSurveyResponse, WireError>(Self::spec_prefix(v, 2)),
    {
        reveal(CMsgClientDPCheckSpecialSurveyResponse::spec_prefix);
        reveal(opt_u32);
        let apply = Self::apply_fn();
        let s = Self::spec_prefix(v, 1);
        lemma_fold_opt(s, 2, match v.state { Some(x) => Some(enc_u32(x)), None => None }, apply);
        if let Some(x) = v.state {
            lemma_u32_roundtrip(x);
        }
        assert(SpecCMsgClientDPCheckSpecialSurveyResponse { state: v.state, ..s } == Self::spec_prefix(v, 2));
    }

    /// Reading field 3 back, after the fields before it.
    proof fn lemma_field_name(v: SpecCMsgClientDPCheckSpecialSurveyResponse)
        ensures
            fold_fields(Self::spec_prefix(v, 2), opt_string(3, v.name), Self::apply_fn())
                == Ok::<SpecCMsgClientDPCheckSpecialSurveyResponse, WireError>(Self::spec_prefix(v, 3)),
    {
        reveal(CMsgClientDPCheckSpecialSurveyResponse::spec_prefix);
        reveal(opt_string);
        let apply = Self::apply_fn();
        let s = Self::spec_prefix(v, 2);
        lemma_fold_opt(s, 3, match v.name { Some(x) => Some(enc_string(x)), None => None }, apply);
        if let Some(x) = v.name {
            lemma_string_roundtrip(x);
        }
        assert(SpecCMsgClientDPCheckSpecialSurveyResponse { name: v.name, ..s } == Self::spec_prefix(v, 3));
    }

    /// Reading field 4 back, after the fields before it.
    proof fn lemma_field_custom_url(v: SpecCMsgClientDPCheckSpecialSurveyResponse)
        ensures
            fold_fields(Self::spec_prefix(v, 3), opt_string(4, v.custom_url), Self::apply_fn())
                == Ok::<SpecCMsgClientDPCheckSpecialSurveyResponse, WireError>(Self::spec_prefix(v, 4)),
    {
        reveal(CMsgClientDPCheckSpecialSurveyResponse::spec_prefix);
        reveal(opt_string);
        let apply = Self::apply_fn();
        let s = Self::spec_prefix(v, 3);
        lemma_fold_opt(s, 4, match v.custom_url { Some(x) => Some(enc_string(x)), None => None }, apply);
        if let Some(x) = v.custom_url {
            lemma_string_roundtrip(x);
        }
        assert(SpecCMsgClientDPCheckSpecialSurveyResponse { custom_url: v.custom_url, ..s } == Self::spec_prefix(v, 4));
    }

    /// Reading field 5 back, after the fields before it.
    proof fn lemma_field_include_software(v: SpecCMsgClientDPCheckSpecialSurveyResponse)
        ensures
            fold_fields(Self::spec_prefix(v, 4), opt_bool(5, v.include_software), Self::apply_fn())
                == Ok::<SpecCMsgClientDPCheckSpecialSurveyResponse, WireError>(Self::spec_prefix(v, 5)),
    {
        reveal(CMsgClientDPCheckSpecialSurveyResponse::spec_prefix);
        reveal(opt_bool);
        let apply = Self::apply_fn();
        let s = Self::spec_prefix(v, 4);
        lemma_fold_opt(s, 5, match v.include_software { Some(x) => Some(enc_bool(x)), None => None }, apply);
        assert(SpecCMsgClientDPCheckSpecialSurveyResponse { include_software: v.include_software, ..s } == Self::spec_prefix(v, 5));
    }

    /// Reading field 6 back, after the fields before it.
    proof fn lemma_field_token(v: SpecCMsgClientDPCheckSpecialSurveyResponse)
        ensures
            fold_fields(Self::spec_prefix(v, 5), opt_bytes(6, v.token), Self::apply_fn())
                == Ok::<SpecCMsgClientDPCheckSpecialSurveyResponse, WireError>(Self::spec_prefix(v, 6)),
    {
        reveal(CMsgClientDPCheckSpecialSurveyResponse::spec_prefix);
        reveal(opt_bytes);
        let apply = Self::apply_fn();
        let s = Self::spec_prefix(v, 5);
        lemma_fold_opt(s, 6, match v.token { Some(x) => Some(enc_bytes(x)), None => None }, apply);
        assert(SpecCMsgClientDPCheckSpecialSurveyResponse { token: v.token, ..s } == Self::spec_prefix(v, 6));
    }

    /// Whether this message declares field number `n`.
    pub open spec fn declares(n: u32) -> bool {
        n == 1 || n == 2 || n == 3 || n == 4 || n == 5 || n == 6
    }

    /// A record with a number this message does not declare is passed over: well-formed
    /// bytes decode to the same message with such a record after them as without it.
    pub proof fn lemma_unknown_field(bytes: Seq<u8>, f: SpecField)
        requires
            parse_fields(bytes) is Ok,
            field_wf(f),
            !Self::declares(f.number),
        ensures
            Self::spec_decode(bytes + field_bytes(f)) == Self::spec_decode(bytes),
    {
        reveal(CMsgClientDPCheckSpecialSurveyResponse::spec_decode);
        lemma_parse_fields_append(bytes, f);
        let fs = parse_fields(bytes).unwrap();
        let apply = Self::apply_fn();
        lemma_fold_concat(Self::spec_default(), fs, seq![f], apply);
        assert(fs.push(f) =~= fs + seq![f]);
        if let Ok(w) = fold_fields(Self::spec_default(), fs, apply) {
            lemma_fold_single(w, f, apply);
        }
        lemma_merge_run_fold(Self::spec_default(), bytes, apply);
        lemma_merge_run_fold(Self::spec_default(), bytes + field_bytes(f), apply);
    }

    /// Decoding the encoding of a message gives the message back.
    pub proof fn lemma_decode_encode(v: SpecCMsgClientDPCheckSpecialSurveyResponse)
        requires
            Self::spec_encode(v).len() <= u64::MAX,
        ensures
            Self::spec_decode(Self::spec_encode(v)) == Ok::<SpecCMsgClientDPCheckSpecialSurveyResponse, WireError>(v),
    {
        let apply = Self::apply_fn();
        let d = Self::spec_default();
        let p0 = Seq::<SpecField>::empty();
        let l1 = opt_u32(1, v.e_result);
        let p1 = p0 + l1;
        let l2 = opt_u32(2, v.state);
        let p2 = p1 + l2;
        let l3 = opt_string(3, v.name);
        let p3 = p2 + l3;
        let l4 = opt_string(4, v.custom_url);
        let p4 = p3 + l4;
        let l5 = opt_bool(5, v.include_software);
        let p5 = p4 + l5;
        let l6 = opt_bytes(6, v.token);
        let p6 = p5 + l6;
        assert(parse_fields(Self::spec_encode(v)) == Ok::<Seq<SpecField>, WireError>(p6)) by {
            reveal(CMsgClientDPCheckSpecialSurveyResponse::spec_encode);
            assert(numbers_ok(p0) && fields_wf(p0)) by {
                reveal(numbers_ok);
                reveal(fields_wf);
            }
            lemma_opt_u32_numbered(1, v.e_result);
            lemma_fields_wf_concat(p0, l1);
            lemma_opt_u32_numbered(2, v.state);
            lemma_fields_wf_concat(p1, l2);
            lemma_opt_string_numbered(3, v.name);
            lemma_fields_wf_concat(p2, l3);
            lemma_opt_string_numbered(4, v.custom_url);
            lemma_fields_wf_concat(p3, l4);
            lemma_opt_bool_numbered(5, v.include_software);
            lemma_fields_wf_concat(p4, l5);
            lemma_opt_bytes_numbered(6, v.token);
            lemma_fields_wf_concat(p5, l6);
            assert(p6 == Self::spec_fields(v));
            lemma_fields_wf_from_len(p6);
            lemma_fields_roundtrip(p6);
        }
        assert(Self::spec_prefix(v, 0) == d) by {
            reveal(CMsgClientDPCheckSpecialSurveyResponse::spec_prefix);
        }
        lemma_fold_empty(d, apply);
        lemma_fold_concat(d, p0, l1, apply);
        Self::lemma_field_e_result(v);
        lemma_fold_concat(d, p1, l2, apply);
        Self::lemma_field_state(v);
        lemma_fold_concat(d, p2, l3, apply);
        Self::lemma_field_name(v);
        lemma_fold_concat(d, p3, l4, apply);
        Self::lemma_field_custom_url(v);
        lemma_fold_concat(d, p4, l5, apply);
        Self::lemma_field_include_software(v);
        lemma_fold_concat(d, p5, l6, apply);
        Self::lemma_field_token(v);
        assert(Self::spec_prefix(v, 6) == v) by {
            reveal(CMsgClientDPCheckSpecialSurveyResponse::spec_prefix);
        }
        lemma_merge_run_fold(d, Self::spec_encode(v), apply);
        assert(Self::spec_decode(Self::spec_encode(v)) == Ok::<SpecCMsgClientDPCheckSpecialSurveyResponse, WireError>(v)) by {
            reveal(CMsgClientDPCheckSpecialSurveyResponse::spec_decode);
        }
    }
}

/// `CMsgClientDPSendSpecialSurveyResponse`, as Valve's schema declares it.
#[derive(Debug, Clone, PartialEq)]
pub struct CMsgClientDPSendSpecialSurveyResponse {
    /// Field 1.
    pub survey_id: Option<u32>,
    /// Field 2.
    pub data: Option<Vec<u8>>,
}

/// What a `CMsgClientDPSendSpecialSurveyResponse` holds, as mathematical values.
#[verifier::ext_equal]
pub struct SpecCMsgClientDPSendSpecialSurveyResponse {
    pub survey_id: Option<u32>,
    pub data: Option<Seq<u8>>,
}

impl View for CMsgClientDPSendSpecialSurveyResponse {
    type V = SpecCMsgClientDPSendSpecialSurveyResponse;

    open spec fn view(&self) -> SpecCMsgClientDPSendSpecialSurveyResponse {
        SpecCMsgClientDPSendSpecialSurveyResponse {
            survey_id: self.survey_id,
            data: opt_bytes_view(self.data),
        }
    }
}

impl Default for CMsgClientDPSendSpecialSurveyResponse {
    fn default() -> (r: Self)
        ensures
            r@ == CMsgClientDPSendSpecialSurveyResponse::spec_default(),
    {
        CMsgClientDPSendSpecialSurveyResponse {
            survey_id: None,
            data: None,
        }
    }
}

impl CMsgClientDPSendSpecialSurveyResponse {
    pub open spec fn spec_default() -> SpecCMsgClientDPSendSpecialSurveyResponse {
        SpecCMsgClientDPSendSpecialSurveyResponse {
            survey_id: None,
            data: None,
        }
    }

    /// The records a `CMsgClientDPSendSpecialSurveyResponse` is written as, in field order.
    pub open spec fn spec_fields(v: SpecCMsgClientDPSendSpecialSurveyResponse) -> Seq<SpecField> {
        Seq::<SpecField>::empty()
            + opt_u32(1, v.survey_id)
            + opt_bytes(2, v.data)
    }

    #[verifier::opaque]
    pub open spec fn spec_encode(v: SpecCMsgClientDPSendSpecialSurveyResponse) -> Seq<u8> {
        fields_bytes(Self::spec_fields(v))
    }

    /// What one record does to the message: a declared number sets or extends its
    /// field, any other number is left alone.
    pub open spec fn spec_apply(v: SpecCMsgClientDPSendSpecialSurveyResponse, f: SpecField) -> Result<SpecCMsgClientDPSendSpecialSurveyResponse, WireError> {
        match f.number {
            1 => match dec_u32(f.value) {
                Ok(x) => Ok(SpecCMsgClientDPSendSpecialSurveyResponse { survey_id: Some(x), ..v }),
                Err(e) => Err(e),
            },
            2 => match dec_bytes(f.value) {
                Ok(x) => Ok(SpecCMsgClientDPSendSpecialSurveyResponse { data: Some(x), ..v }),
                Err(e) => Err(e),
            },
            _ => Ok(v),
        }
    }

    pub open spec fn apply_fn() -> spec_fn(SpecCMsgClientDPSendSpecialSurveyResponse, SpecField) -> Result<SpecCMsgClientDPSendSpecialSurveyResponse, WireError> {
        |v: SpecCMsgClientDPSendSpecialSurveyResponse, f: SpecField| Self::spec_apply(v, f)
    }

    /// The message `bytes` makes of `v`: its records applied in order, or the error
    /// that stops the reading.
    pub open spec fn spec_merge(v: SpecCMsgClientDPSendSpecialSurveyResponse, bytes: Seq<u8>) -> Result<SpecCMsgClientDPSendSpecialSurveyResponse, WireError> {
        let (w, stop) = merge_run(v, bytes, Self::apply_fn());
        match stop {
            None => Ok(w),
            Some(e) => Err(e),
        }
    }

    #[verifier::opaque]
    pub open spec fn spec_decode(bytes: Seq<u8>) -> Result<SpecCMsgClientDPSendSpecialSurveyResponse, WireError> {
        Self::spec_merge(Self::spec_default(), bytes)
    }

    /// This message with one record applied to it, or, when the record is refused,
    /// the message unchanged and the reason.
    fn applied(self, f: &Field) -> (r: Result<Self, (Self, WireError)>)
        ensures
            match Self::spec_apply(self@, f@) {
                Ok(v) => r matches Ok(m) && m@ == v,
                Err(e) => r matches Err((m, x)) && x == e && m@ == self@,
            },
    {
        match f.number {
            1 => match read_u32(&f.value) {
                Ok(x) => Ok(Self { survey_id: Some(x), ..self }),
                Err(e) => Err((self, e)),
            },
            2 => match read_bytes(&f.value) {
                Ok(x) => Ok(Self { data: Some(x), ..self }),
                Err(e) => Err((self, e)),
            },
            _ => Ok(self),
        }
    }

    /// Reads the records `bytes` holds into this message, in order. When a record does
    /// not parse or is refused, the reading stops there: the message keeps what the
    /// records before it gave, and the error is returned.
    pub fn merge(&mut self, bytes: &[u8]) -> (r: Result<(), WireError>)
        ensures
            final(self)@ == merge_run(old(self)@, bytes@, Self::apply_fn()).0,
            r == match merge_run(old(self)@, bytes@, Self::apply_fn()).1 {
                None => Ok::<(), WireError>(()),
                Some(e) => Err::<(), WireError>(e),
            },
    {
        let ghost total = merge_run(self@, bytes@, Self::apply_fn());
        let mut cur = Self::default();
        std::mem::swap(&mut cur, self);
        let mut pos: usize = 0;
        assert(bytes@.skip(0) =~= bytes@);
        while pos < bytes.len()
            invariant
                pos <= bytes@.len(),
                total == merge_run(old(self)@, bytes@, Self::apply_fn()),
                merge_run(cur@, bytes@.skip(pos as int), Self::apply_fn()) == total,
            decreases bytes@.len() - pos,
        {
            let ghost s = bytes@.skip(pos as int);
            proof {
                lemma_merge_run_step(cur@, s, Self::apply_fn());
                lemma_parse_field_len(s);
            }
            match read_field(bytes, pos) {
                Ok((f, end)) => {
                    assert(bytes@.skip(end as int) =~= s.skip((end - pos) as int));
                    match cur.applied(&f) {
                        Ok(m) => {
                            cur = m;
                        },
                        Err((m, e)) => {
                            *self = m;
                            return Err(e);
                        },
                    }
                    pos = end;
                },
                Err(e) => {
                    *self = cur;
                    return Err(e);
                },
            }
        }
        assert(bytes@.skip(pos as int) =~= Seq::<u8>::empty());
        proof {
            lemma_merge_run_empty(cur@, Self::apply_fn());
        }
        *self = cur;
        Ok(())
    }

    /// Decodes a message from its encoding.
    pub fn decode(bytes: &[u8]) -> (r: Result<Self, WireError>)
        ensures
            match Self::spec_decode(bytes@) {
                Ok(v) => r matches Ok(m) && m@ == v,
                Err(e) => r matches Err(x) && x == e,
            },
    {
        proof {
            reveal(CMsgClientDPSendSpecialSurveyResponse::spec_decode);
        }
        let mut m = Self::default();
        match m.merge(bytes) {
            Ok(()) => Ok(m),
            Err(e) => Err(e),
        }
    }

    /// The encoding of this message.
    pub fn encode_to_vec(&self) -> (r: Vec<u8>)
        ensures
            r@ == Self::spec_encode(self@),
    {
        let ghost v = self@;
        let mut out: Vec<u8> = Vec::new();
        let ghost p0 = Seq::<SpecField>::empty();
        put_opt_u32(&mut out, 1, self.survey_id);
        let ghost p1 = p0 + opt_u32(1, v.survey_id);
        proof {
            lemma_fields_bytes_concat(p0, opt_u32(1, v.survey_id));
        }
        put_opt_bytes(&mut out, 2, &self.data);
        let ghost p2 = p1 + opt_bytes(2, v.data);
        proof {
            lemma_fields_bytes_concat(p1, opt_bytes(2, v.data));
        }
        proof {
            reveal(CMsgClientDPSendSpecialSurveyResponse::spec_encode);
        }
        assert(p2 == Self::spec_fields(v));
        out
    }

    /// Appends the encoding of this message to `out`.
    pub fn encode_raw(&self, out: &mut Vec<u8>)
        ensures
            final(out)@ == old(out)@ + Self::spec_encode(self@),
    {
        let mut b = self.encode_to_vec();
        out.append(&mut b);
    }

    /// The first `k` fields of `v`, the others as a fresh message has them.
    #[verifier::opaque]
    pub open spec fn spec_prefix(v: SpecCMsgClientDPSendSpecialSurveyResponse, k: int) -> SpecCMsgClientDPSendSpecialSurveyResponse {
        SpecCMsgClientDPSendSpecialSurveyResponse {
            survey_id: if 1 <= k { v.survey_id } else { None },
            data: if 2 <= k { v.data } else { None },
        }
    }

    /// Reading field 1 back, after the fields before it.
    proof fn lemma_field_survey_id(v: SpecCMsgClientDPSendSpecialSurveyResponse)
        ensures
            fold_fields(Self::spec_prefix(v, 0), opt_u32(1, v.survey_id), Self::apply_fn())
                == Ok::<SpecCMsgClientDPSendSpecialSurveyResponse, WireError>(Self::spec_prefix(v, 1)),
    {
        reveal(CMsgClientDPSendSpecialSurveyResponse::spec_prefix);
        reveal(opt_u32);
        let apply = Self::apply_fn();
        let s = Self::spec_prefix(v, 0);
        lemma_fold_opt(s, 1, match v.survey_id { Some(x) => Some(enc_u32(x)), None => None }, apply);
        if let Some(x) = v.survey_id {
            lemma_u32_roundtrip(x);
        }
        assert(SpecCMsgClientDPSendSpecialSurveyResponse { survey_id: v.survey_id, ..s } == Self::spec_prefix(v, 1));
    }

    /// Reading field 2 back, after the fields before it.
    proof fn lemma_field_data(v: SpecCMsgClientDPSendSpecialSurveyResponse)
        ensures
            fold_fields(Self::spec_prefix(v, 1), opt_bytes(2, v.data), Self::apply_fn())
                == Ok::<SpecCMsgClientDPSendSpecialSurveyResponse, WireError>(Self::spec_prefix(v, 2)),
    {
        reveal(CMsgClientDPSendSpecialSurveyResponse::spec_prefix);
        reveal(opt_bytes);
        let apply = Self::apply_fn();
        let s = Self::spec_prefix(v, 1);
        lemma_fold_opt(s, 2, match v.data { Some(x) => Some(enc_bytes(x)), None => None }, apply);
        assert(SpecCMsgClientDPSendSpecialSurveyResponse { data: v.data, ..s } == Self::spec_prefix(v, 2));
    }

    /// Whether this message declares field number `n`.
    pub open spec fn declares(n: u32) -> bool {
        n == 1 || n == 2
    }

    /// A record with a number this message does not declare is passed over: well-formed
    /// bytes decode to the same message with such a record after them as without it.
    pub proof fn lemma_unknown_field(bytes: Seq<u8>, f: SpecField)
        requires
            parse_fields(bytes) is Ok,
            field_wf(f),
            !Self::declares(f.number),
        ensures
            Self::spec_decode(bytes + field_bytes(f)) == Self::spec_decode(bytes),
    {
        reveal(CMsgClientDPSendSpecialSurveyResponse::spec_decode);
        lemma_parse_fields_append(bytes, f);
        let fs = parse_fields(bytes).unwrap();
        let apply = Self::apply_fn();
        lemma_fold_concat(Self::spec_default(), fs, seq![f], apply);
        assert(fs.push(f) =~= fs + seq![f]);
        if let Ok(w) = fold_fields(Self::spec_default(), fs, apply) {
            lemma_fold_single(w, f, apply);
        }
        lemma_merge_run_fold(Self::spec_default(), bytes, apply);
        lemma_merge_run_fold(Self::spec_default(), bytes + field_bytes(f), apply);
    }

    /// Decoding the encoding of a message gives the message back.
    pub proof fn lemma_decode_encode(v: SpecCMsgClientDPSendSpecialSurveyResponse)
        requires
            Self::spec_encode(v).len() <= u64::MAX,
        ensures
            Self::spec_decode(Self::spec_encode(v)) == Ok::<SpecCMsgClientDPSendSpecialSurveyResponse, WireError>(v),
    {
        let apply = Self::apply_fn();
        let d = Self::spec_default();
        let p0 = Seq::<SpecField>::empty();
        let l1 = opt_u32(1, v.survey_id);
        let p1 = p0 + l1;
        let l2 = opt_bytes(2, v.data);
        let p2 = p1 + l2;
        assert(parse_fields(Self::spec_encode(v)) == Ok::<Seq<SpecField>, WireError>(p2)) by {
            reveal(CMsgClientDPSendSpecialSurveyResponse::spec_encode);
            assert(numbers_ok(p0) && fields_wf(p0)) by {
                reveal(numbers_ok);
                reveal(fields_wf);
            }
            lemma_opt_u32_numbered(1, v.survey_id);
            lemma_fields_wf_concat(p0, l1);
            lemma_opt_bytes_numbered(2, v.data);
            lemma_fields_wf_concat(p1, l2);
            assert(p2 == Self::spec_fields(v));
            lemma_fields_wf_from_len(p2);
            lemma_fields_roundtrip(p2);
        }
        assert(Self::spec_prefix(v, 0) == d) by {
            reveal(CMsgClientDPSendSpecialSurveyResponse::spec_prefix);
        }
        lemma_fold_empty(d, apply);
        lemma_fold_concat(d, p0, l1, apply);
        Self::lemma_field_survey_id(v);
        lemma_fold_concat(d, p1, l2, apply);
        Self::lemma_field_data(v);
        assert(Self::spec_prefix(v, 2) == v) by {
            reveal(CMsgClientDPSendSpecialSurveyResponse::spec_prefix);
        }
        lemma_merge_run_fold(d, Self::spec_encode(v), apply);
        assert(Self::spec_decode(Self::spec_encode(v)) == Ok::<SpecCMsgClientDPSendSpecialSurveyResponse, WireError>(v)) by {
            reveal(CMsgClientDPSendSpecialSurveyResponse::spec_decode);
        }
    }
}

/// `CMsgClientDPSendSpecialSurveyResponseReply`, as Valve's schema declares it.
#[derive(Debug, Clone, PartialEq)]
pub struct CMsgClientDPSendSpecialSurveyResponseReply {
    /// Field 1.
    pub e_result: Option<u32>,
    /// Field 2.
    pub token: Option<Vec<u8>>,
}

/// What a `CMsgClientDPSendSpecialSurveyResponseReply` holds, as mathematical values.
#[verifier::ext_equal]
pub struct SpecCMsgClientDPSendSpecialSurveyResponseReply {
    pub e_result: Option<u32>,
    pub token: Option<Seq<u8>>,
}

impl View for CMsgClientDPSendSpecialSurveyResponseReply {
    type V = SpecCMsgClientDPSendSpecialSurveyResponseReply;

    open spec fn view(&self) -> SpecCMsgClientDPSendSpecialSurveyResponseReply {
        SpecCMsgClientDPSendSpecialSurveyResponseReply {
            e_result: self.e_result,
            token: opt_bytes_view(self.token),
        }
    }
}

impl Default for CMsgClientDPSendSpecialSurveyResponseReply {
    fn default() -> (r: Self)
        ensures
            r@ == CMsgClientDPSendSpecialSurveyResponseReply::spec_default(),
    {
        CMsgClientDPSendSpecialSurveyResponseReply {
            e_result: None,
            token: None,
        }
    }
}

impl CMsgClientDPSendSpecialSurveyResponseReply {
    /// Field 1, or its schema default when absent.
    pub fn e_result_or_default(&self) -> (r: u32)
        ensures
            r == match self.e_result {
                Some(x) => x,
                None => 2u32,
            },
    {
        self.e_result.unwrap_or(2u32)
    }

    pub open spec fn spec_default() -> SpecCMsgClientDPSendSpecialSurveyResponseReply {
        SpecCMsgClientDPSendSpecialSurveyResponseReply {
            e_result: None,
            token: None,
        }
    }

    /// The records a `CMsgClientDPSendSpecialSurveyResponseReply` is written as, in field order.
    pub open spec fn spec_fields(v: SpecCMsgClientDPSendSpecialSurveyResponseReply) -> Seq<SpecField> {
        Seq::<SpecField>::empty()
            + opt_u32(1, v.e_result)
            + opt_bytes(2, v.token)
    }

    #[verifier::opaque]
    pub open spec fn spec_encode(v: SpecCMsgClientDPSendSpecialSurveyResponseReply) -> Seq<u8> {
        fields_bytes(Self::spec_fields(v))
    }

    /// What one record does to the message: a declared number sets or extends its
    /// field, any other number is left alone.
    pub open spec fn spec_apply(v: SpecCMsgClientDPSendSpecialSurveyResponseReply, f: SpecField) -> Result<SpecCMsgClientDPSendSpecialSurveyResponseReply, WireError> {
        match f.number {
            1 => match dec_u32(f.value) {
                Ok(x) => Ok(SpecCMsgClientDPSendSpecialSurveyResponseReply { e_result: Some(x), ..v }),
                Err(e) => Err(e),
            },
            2 => match dec_bytes(f.value) {
                Ok(x) => Ok(SpecCMsgClientDPSendSpecialSurveyResponseReply { token: Some(x), ..v }),
                Err(e) => Err(e),
            },
            _ => Ok(v),
        }
    }

    pub open spec fn apply_fn() -> spec_fn(SpecCMsgClientDPSendSpecialSurveyResponseReply, SpecField) -> Result<SpecCMsgClientDPSendSpecialSurveyResponseReply, WireError> {
        |v: SpecCMsgClientDPSendSpecialSurveyResponseReply, f: SpecField| Self::spec_apply(v, f)
    }

    /// The message `bytes` makes of `v`: its records applied in order, or the error
    /// that stops the reading.
    pub open spec fn spec_merge(v: SpecCMsgClientDPSendSpecialSurveyResponseReply, bytes: Seq<u8>) -> Result<SpecCMsgClientDPSendSpecialSurveyResponseReply, WireError> {
        let (w, stop) = merge_run(v, bytes, Self::apply_fn());
        match stop {
            None => Ok(w),
            Some(e) => Err(e),
        }
    }

    #[verifier::opaque]
    pub open spec fn spec_decode(bytes: Seq<u8>) -> Result<SpecCMsgClientDPSendSpecialSurveyResponseReply, WireError> {
        Self::spec_merge(Self::spec_default(), bytes)
    }

    /// This message with one record applied to it, or, when the record is refused,
    /// the message unchanged and the reason.
    fn applied(self, f: &Field) -> (r: Result<Self, (Self, WireError)>)
        ensures
            match Self::spec_apply(self@, f@) {
                Ok(v) => r matches Ok(m) && m@ == v,
                Err(e) => r matches Err((m, x)) && x == e && m@ == self@,
            },
    {
        match f.number {
            1 => match read_u32(&f.value) {
                Ok(x) => Ok(Self { e_result: Some(x), ..self }),
                Err(e) => Err((self, e)),
            },
            2 => match read_bytes(&f.value) {
                Ok(x) => Ok(Self { token: Some(x), ..self }),
                Err(e) => Err((self, e)),
            },
            _ => Ok(self),
        }
    }

    /// Reads the records `bytes` holds into this message, in order. When a record does
    /// not parse or is refused, the reading stops there: the message keeps what the
    /// records before it gave, and the error is returned.
    pub fn merge(&mut self, bytes: &[u8]) -> (r: Result<(), WireError>)
        ensures
            final(self)@ == merge_run(old(self)@, bytes@, Self::apply_fn()).0,
            r == match merge_run(old(self)@, bytes@, Self::apply_fn()).1 {
                None => Ok::<(), WireError>(()),
                Some(e) => Err::<(), WireError>(e),
            },
    {
        let ghost total = merge_run(self@, bytes@, Self::apply_fn());
        let mut cur = Self::default();
        std::mem::swap(&mut cur, self);
        let mut pos: usize = 0;
        assert(bytes@.skip(0) =~= bytes@);
        while pos < bytes.len()
            invariant
                pos <= bytes@.len(),
                total == merge_run(old(self)@, bytes@, Self::apply_fn()),
                merge_run(cur@, bytes@.skip(pos as int), Self::apply_fn()) == total,
            decreases bytes@.len() - pos,
        {
            let ghost s = bytes@.skip(pos as int);
            proof {
                lemma_merge_run_step(cur@, s, Self::apply_fn());
                lemma_parse_field_len(s);
            }
            match read_field(bytes, pos) {
                Ok((f, end)) => {
                    assert(bytes@.skip(end as int) =~= s.skip((end - pos) as int));
                    match cur.applied(&f) {
                        Ok(m) => {
                            cur = m;
                        },
                        Err((m, e)) => {
                            *self = m;
                            return Err(e);
                        },
                    }
                    pos = end;
                },
                Err(e) => {
                    *self = cur;
                    return Err(e);
                },
            }
        }
        assert(bytes@.skip(pos as int) =~= Seq::<u8>::empty());
        proof {
            lemma_merge_run_empty(cur@, Self::apply_fn());
        }
        *self = cur;
        Ok(())
    }

    /// Decodes a message from its encoding.
    pub fn decode(bytes: &[u8]) -> (r: Result<Self, WireError>)
        ensures
            match Self::spec_decode(bytes@) {
                Ok(v) => r matches Ok(m) && m@ == v,
                Err(e) => r matches Err(x) && x == e,
            },
    {
        proof {
            reveal(CMsgClientDPSendSpecialSurveyResponseReply::spec_decode);
        }
        let mut m = Self::default();
        match m.merge(bytes) {
            Ok(()) => Ok(m),
            Err(e) => Err(e),
        }
    }

    /// The encoding of this message.
    pub fn encode_to_vec(&self) -> (r: Vec<u8>)
        ensures
            r@ == Self::spec_encode(self@),
    {
        let ghost v = self@;
        let mut out: Vec<u8> = Vec::new();
        let ghost p0 = Seq::<SpecField>::empty();
        put_opt_u32(&mut out, 1, self.e_result);
        let ghost p1 = p0 + opt_u32(1, v.e_result);
        proof {
            lemma_fields_bytes_concat(p0, opt_u32(1, v.e_result));
        }
        put_opt_bytes(&mut out, 2, &self.token);
        let ghost p2 = p1 + opt_bytes(2, v.token);
        proof {
            lemma_fields_bytes_concat(p1, opt_bytes(2, v.token));
        }
        proof {
            reveal(CMsgClientDPSendSpecialSurveyResponseReply::spec_encode);
        }
        assert(p2 == Self::spec_fields(v));
        out
    }

    /// Appends the encoding of this message to `out`.
    pub fn encode_raw(&self, out: &mut Vec<u8>)
        ensures
            final(out)@ == old(out)@ + Self::spec_encode(self@),
    {
        let mut b = self.encode_to_vec();
        out.append(&mut b);
    }

    /// The first `k` fields of `v`, the others as a fresh message has them.
    #[verifier::opaque]
    pub open spec fn spec_prefix(v: SpecCMsgClientDPSendSpecialSurveyResponseReply, k: int) -> SpecCMsgClientDPSendSpecialSurveyResponseReply {
        SpecCMsgClientDPSendSpecialSurveyResponseReply {
            e_result: if 1 <= k { v.e_result } else { None },
            token: if 2 <= k { v.token } else { None },
        }
    }

    /// Reading field 1 back, after the fields before it.
    proof fn lemma_field_e_result(v: SpecCMsgClientDPSendSpecialSurveyResponseReply)
        ensures
            fold_fields(Self::spec_prefix(v, 0), opt_u32(1, v.e_result), Self::apply_fn())
                == Ok::<SpecCMsgClientDPSendSpecialSurveyResponseReply, WireError>(Self::spec_prefix(v, 1)),
    {
        reveal(CMsgClientDPSendSpecialSurveyResponseReply::spec_prefix);
        reveal(opt_u32);
        let apply = Self::apply_fn();
        let s = Self::spec_prefix(v, 0);
        lemma_fold_opt(s, 1, match v.e_result { Some(x) => Some(enc_u32(x)), None => None }, apply);
        if let Some(x) = v.e_result {
            lemma_u32_roundtrip(x);
        }
        assert(SpecCMsgClientDPSendSpecialSurveyResponseReply { e_result: v.e_result, ..s } == Self::spec_prefix(v, 1));
    }

    /// Reading field 2 back, after the fields before it.
    proof fn lemma_field_token(v: SpecCMsgClientDPSendSpecialSurveyResponseReply)
        ensures
            fold_fields(Self::spec_prefix(v, 1), opt_bytes(2, v.token), Self::apply_fn())
                == Ok::<SpecCMsgClientDPSendSpecialSurveyResponseReply, WireError>(Self::spec_prefix(v, 2)),
    {
        reveal(CMsgClientDPSendSpecialSurveyResponseReply::spec_prefix);
        reveal(opt_bytes);
        let apply = Self::apply_fn();
        let s = Self::spec_prefix(v, 1);
        lemma_fold_opt(s, 2, match v.token { Some(x) => Some(enc_bytes(x)), None => None }, apply);
        assert(SpecCMsgClientDPSendSpecialSurveyResponseReply { token: v.token, ..s } == Self::spec_prefix(v, 2));
    }

    /// Whether this message declares field number `n`.
    pub open spec fn declares(n: u32) -> bool {
        n == 1 || n == 2
    }

    /// A record with a number this message does not declare is passed over: well-formed
    /// bytes decode to the same message with such a record after them as without it.
    pub proof fn lemma_unknown_field(bytes: Seq<u8>, f: SpecField)
        requires
            parse_fields(bytes) is Ok,
            field_wf(f),
            !Self::declares(f.number),
        ensures
            Self::spec_decode(bytes + field_bytes(f)) == Self::spec_decode(bytes),
    {
        reveal(CMsgClientDPSendSpecialSurveyResponseReply::spec_decode);
        lemma_parse_fields_append(bytes, f);
        let fs = parse_fields(bytes).unwrap();
        let apply = Self::apply_fn();
        lemma_fold_concat(Self::spec_default(), fs, seq![f], apply);
        assert(fs.push(f) =~= fs + seq![f]);
        if let Ok(w) = fold_fields(Self::spec_default(), fs, apply) {
            lemma_fold_single(w, f, apply);
        }
        lemma_merge_run_fold(Self::spec_default(), bytes, apply);
        lemma_merge_run_fold(Self::spec_default(), bytes + field_bytes(f), apply);
    }

    /// Decoding the encoding of a message gives the message back.
    pub proof fn lemma_decode_encode(v: SpecCMsgClientDPSendSpecialSurveyResponseReply)
        requires
            Self::spec_encode(v).len() <= u64::MAX,
        ensures
            Self::spec_decode(Self::spec_encode(v)) == Ok::<SpecCMsgClientDPSendSpecialSurveyResponseReply, WireError>(v),
    {
        let apply = Self::apply_fn();
        let d = Self::spec_default();
        let p0 = Seq::<SpecField>::empty();
        let l1 = opt_u32(1, v.e_result);
        let p1 = p0 + l1;
        let l2 = opt_bytes(2, v.token);
        let p2 = p1 + l2;
        assert(parse_fields(Self::spec_encode(v)) == Ok::<Seq<SpecField>, WireError>(p2)) by {
            reveal(CMsgClientDPSendSpecialSurveyResponseReply::spec_encode);
            assert(numbers_ok(p0) && fields_wf(p0)) by {
                reveal(numbers_ok);
                reveal(fields_wf);
            }
            lemma_opt_u32_numbered(1, v.e_result);
            lemma_fields_wf_concat(p0, l1);
            lemma_opt_bytes_numbered(2, v.token);
            lemma_fields_wf_concat(p1, l2);
            assert(p2 == Self::spec_fields(v));
            lemma_fields_wf_from_len(p2);
            lemma_fields_roundtrip(p2);
        }
        assert(Self::spec_prefix(v, 0) == d) by {
            reveal(CMsgClientDPSendSpecialSurveyResponseReply::spec_prefix);
        }
        lemma_fold_empty(d, apply);
        lemma_fold_concat(d, p0, l1, apply);
        Self::lemma_field_e_result(v);
        lemma_fold_concat(d, p1, l2, apply);
        Self::lemma_field_token(v);
        assert(Self::spec_prefix(v, 2) == v) by {
            reveal(CMsgClientDPSendSpecialSurveyResponseReply::spec_prefix);
        }
        lemma_merge_run_fold(d, Self::spec_encode(v), apply);
        assert(Self::spec_decode(Self::spec_encode(v)) == Ok::<SpecCMsgClientDPSendSpecialSurveyResponseReply, WireError>(v)) by {
            reveal(CMsgClientDPSendSpecialSurveyResponseReply::spec_decode);
        }
    }
}

/// `CMsgClientRequestForgottenPasswordEmail`, as Valve's schema declares it.
#[derive(Debug, Clone, PartialEq)]
pub struct CMsgClientRequestForgottenPasswordEmail {
    /// Field 1.
    pub account_name: Option<String>,
    /// Field 2.
    pub password_tried: Option<String>,
}

/// What a `CMsgClientRequestForgottenPasswordEmail` holds, as mathematical values.
#[verifier::ext_equal]
pub struct SpecCMsgClientRequestForgottenPasswordEmail {
    pub account_name: Option<Seq<char>>,
    pub password_tried: Option<Seq<char>>,
}

impl View for CMsgClientRequestForgottenPasswordEmail {
    type V = SpecCMsgClientRequestForgottenPasswordEmail;

    open spec fn view(&self) -> SpecCMsgClientRequestForgottenPasswordEmail {
        SpecCMsgClientRequestForgottenPasswordEmail {
            account_name: opt_string_view(self.account_name),
            password_tried: opt_string_view(self.password_tried),
        }
    }
}

impl Default for CMsgClientRequestForgottenPasswordEmail {
    fn default() -> (r: Self)
        ensures
            r@ == CMsgClientRequestForgottenPasswordEmail::spec_default(),
    {
        CMsgClientRequestForgottenPasswordEmail {
            account_name: None,
            password_tried: None,
        }
    }
}

impl CMsgClientRequestForgottenPasswordEmail {
    pub open spec fn spec_default() -> SpecCMsgClientRequestForgottenPasswordEmail {
        SpecCMsgClientRequestForgottenPasswordEmail {
            account_name: None,
            password_tried: None,
        }
    }

    /// The records a `CMsgClientRequestForgottenPasswordEmail` is written as, in field order.
    pub open spec fn spec_fields(v: SpecCMsgClientRequestForgottenPasswordEmail) -> Seq<SpecField> {
        Seq::<SpecField>::empty()
            + opt_string(1, v.account_name)
            + opt_string(2, v.password_tried)
    }

    #[verifier::opaque]
    pub open spec fn spec_encode(v: SpecCMsgClientRequestForgottenPasswordEmail) -> Seq<u8> {
        fields_bytes(Self::spec_fields(v))
    }

    /// What one record does to the message: a declared number sets or extends its
    /// field, any other number is left alone.
    pub open spec fn spec_apply(v: SpecCMsgClientRequestForgottenPasswordEmail, f: SpecField) -> Result<SpecCMsgClientRequestForgottenPasswordEmail, WireError> {
        match f.number {
            1 => match dec_string(f.value) {
                Ok(x) => Ok(SpecCMsgClientRequestForgottenPasswordEmail { account_name: Some(x), ..v }),
                Err(e) => Err(e),
            },
            2 => match dec_string(f.value) {
                Ok(x) => Ok(SpecCMsgClientRequestForgottenPasswordEmail { password_tried: Some(x), ..v }),
                Err(e) => Err(e),
            },
            _ => Ok(v),
        }
    }

    pub open spec fn apply_fn() -> spec_fn(SpecCMsgClientRequestForgottenPasswordEmail, SpecField) -> Result<SpecCMsgClientRequestForgottenPasswordEmail, WireError> {
        |v: SpecCMsgClientRequestForgottenPasswordEmail, f: SpecField| Self::spec_apply(v, f)
    }

    /// The message `bytes` makes of `v`: its records applied in order, or the error
    /// that stops the reading.
    pub open spec fn spec_merge(v: SpecCMsgClientRequestForgottenPasswordEmail, bytes: Seq<u8>) -> Result<SpecCMsgClientRequestForgottenPasswordEmail, WireError> {
        let (w, stop) = merge_run(v, bytes, Self::apply_fn());
        match stop {
            None => Ok(w),
            Some(e) => Err(e),
        }
    }

    #[verifier::opaque]
    pub open spec fn spec_decode(bytes: Seq<u8>) -> Result<SpecCMsgClientRequestForgottenPasswordEmail, WireError> {
        Self::spec_merge(Self::spec_default(), bytes)
    }

    /// This message with one record applied to it, or, when the record is refused,
    /// the message unchanged and the reason.
    fn applied(self, f: &Field) -> (r: Result<Self, (Self, WireError)>)
        ensures
            match Self::spec_apply(self@, f@) {
                Ok(v) => r matches Ok(m) && m@ == v,
                Err(e) => r matches Err((m, x)) && x == e && m@ == self@,
            },
    {
        match f.number {
            1 => match read_string(&f.value) {
                Ok(x) => Ok(Self { account_name: Some(x), ..self }),
                Err(e) => Err((self, e)),
            },
            2 => match read_string(&f.value) {
                Ok(x) => Ok(Self { password_tried: Some(x), ..self }),
                Err(e) => Err((self, e)),
            },
            _ => Ok(self),
        }
    }

    /// Reads the records `bytes` holds into this message, in order. When a record does
    /// not parse or is refused, the reading stops there: the message keeps what the
    /// records before it gave, and the error is returned.
    pub fn merge(&mut self, bytes: &[u8]) -> (r: Result<(), WireError>)
        ensures
            final(self)@ == merge_run(old(self)@, bytes@, Self::apply_fn()).0,
            r == match merge_run(old(self)@, bytes@, Self::apply_fn()).1 {
                None => Ok::<(), WireError>(()),
                Some(e) => Err::<(), WireError>(e),
            },
    {
        let ghost total = merge_run(self@, bytes@, Self::apply_fn());
        let mut cur = Self::default();
        std::mem::swap(&mut cur, self);
        let mut pos: usize = 0;
        assert(bytes@.skip(0) =~= bytes@);
        while pos < bytes.len()
            invariant
                pos <= bytes@.len(),
                total == merge_run(old(self)@, bytes@, Self::apply_fn()),
                merge_run(cur@, bytes@.skip(pos as int), Self::apply_fn()) == total,
            decreases bytes@.len() - pos,
        {
            let ghost s = bytes@.skip(pos as int);
            proof {
                lemma_merge_run_step(cur@, s, Self::apply_fn());
                lemma_parse_field_len(s);
            }
            match read_field(bytes, pos) {
                Ok((f, end)) => {
                    assert(bytes@.skip(end as int) =~= s.skip((end - pos) as int));
                    match cur.applied(&f) {
                        Ok(m) => {
                            cur = m;
                        },
                        Err((m, e)) => {
                            *self = m;
                            return Err(e);
                        },
                    }
                    pos = end;
                },
                Err(e) => {
                    *self = cur;
                    return Err(e);
                },
            }
        }
        assert(bytes@.skip(pos as int) =~= Seq::<u8>::empty());
        proof {
            lemma_merge_run_empty(cur@, Self::apply_fn());
        }
        *self = cur;
        Ok(())
    }

    /// Decodes a message from its encoding.
    pub fn decode(bytes: &[u8]) -> (r: Result<Self, WireError>)
        ensures
            match Self::spec_decode(bytes@) {
                Ok(v) => r matches Ok(m) && m@ == v,
                Err(e) => r matches Err(x) && x == e,
            },
    {
        proof {
            reveal(CMsgClientRequestForgottenPasswordEmail::spec_decode);
        }
        let mut m = Self::default();
        match m.merge(bytes) {
            Ok(()) => Ok(m),
            Err(e) => Err(e),
        }
    }

    /// The encoding of this message.
    pub fn encode_to_vec(&self) -> (r: Vec<u8>)
        ensures
            r@ == Self::spec_encode(self@),
    {
        let ghost v = self@;
        let mut out: Vec<u8> = Vec::new();
        let ghost p0 = Seq::<SpecField>::empty();
        put_opt_string(&mut out, 1, &self.account_name);
        let ghost p1 = p0 + opt_string(1, v.account_name);
        proof {
            lemma_fields_bytes_concat(p0, opt_string(1, v.account_name));
        }
        put_opt_string(&mut out, 2, &self.password_tried);
        let ghost p2 = p1 + opt_string(2, v.password_tried);
        proof {
            lemma_fields_bytes_concat(p1, opt_string(2, v.password_tried));
        }
        proof {
            reveal(CMsgClientRequestForgottenPasswordEmail::spec_encode);
        }
        assert(p2 == Self::spec_fields(v));
        out
    }

    /// Appends the encoding of this message to `out`.
    pub fn encode_raw(&self, out: &mut Vec<u8>)
        ensures
            final(out)@ == old(out)@ + Self::spec_encode(self@),
    {
        let mut b = self.encode_to_vec();
        out.append(&mut b);
    }

    /// The first `k` fields of `v`, the others as a fresh message has them.
    #[verifier::opaque]
    pub open spec fn spec_prefix(v: SpecCMsgClientRequestForgottenPasswordEmail, k: int) -> SpecCMsgClientRequestForgottenPasswordEmail {
        SpecCMsgClientRequestForgottenPasswordEmail {
            account_name: if 1 <= k { v.account_name } else { None },
            password_tried: if 2 <= k { v.password_tried } else { None },
        }
    }

    /// Reading field 1 back, after the fields before it.
    proof fn lemma_field_account_name(v: SpecCMsgClientRequestForgottenPasswordEmail)
        ensures
            fold_fields(Self::spec_prefix(v, 0), opt_string(1, v.account_name), Self::apply_fn())
                == Ok::<SpecCMsgClientRequestForgottenPasswordEmail, WireError>(Self::spec_prefix(v, 1)),
    {
        reveal(CMsgClientRequestForgottenPasswordEmail::spec_prefix);
        reveal(opt_string);
        let apply = Self::apply_fn();
        let s = Self::spec_prefix(v, 0);
        lemma_fold_opt(s, 1, match v.account_name { Some(x) => Some(enc_string(x)), None => None }, apply);
        if let Some(x) = v.account_name {
            lemma_string_roundtrip(x);
        }
        assert(SpecCMsgClientRequestForgottenPasswordEmail { account_name: v.account_name, ..s } == Self::spec_prefix(v, 1));
    }

    /// Reading field 2 back, after the fields before it.
    proof fn lemma_field_password_tried(v: SpecCMsgClientRequestForgottenPasswordEmail)
        ensures
            fold_fields(Self::spec_prefix(v, 1), opt_string(2, v.password_tried), Self::apply_fn())
                == Ok::<SpecCMsgClientRequestForgottenPasswordEmail, WireError>(Self::spec_prefix(v, 2)),
    {
        reveal(CMsgClientRequestForgottenPasswordEmail::spec_prefix);
        reveal(opt_string);
        let apply = Self::apply_fn();
        let s = Self::spec_prefix(v, 1);
        lemma_fold_opt(s, 2, match v.password_tried { Some(x) => Some(enc_string(x)), None => None }, apply);
        if let Some(x) = v.password_tried {
            lemma_string_roundtrip(x);
        }
        assert(SpecCMsgClientRequestForgottenPasswordEmail { password_tried: v.password_tried, ..s } == Self::spec_prefix(v, 2));
    }

    /// Whether this message declares field number `n`.
    pub open spec fn declares(n: u32) -> bool {
        n == 1 || n == 2
    }

    /// A record with a number this message does not declare is passed over: well-formed
    /// bytes decode to the same message with such a record after them as without it.
    pub proof fn lemma_unknown_field(bytes: Seq<u8>, f: SpecField)
        requires
            parse_fields(bytes) is Ok,
            field_wf(f),
            !Self::declares(f.number),
        ensures
            Self::spec_decode(bytes + field_bytes(f)) == Self::spec_decode(bytes),
    {
        reveal(CMsgClientRequestForgottenPasswordEmail::spec_decode);
        lemma_parse_fields_append(bytes, f);
        let fs = parse_fields(bytes).unwrap();
        let apply = Self::apply_fn();
        lemma_fold_concat(Self::spec_default(), fs, seq![f], apply);
        assert(fs.push(f) =~= fs + seq![f]);
        if let Ok(w) = fold_fields(Self::spec_default(), fs, apply) {
            lemma_fold_single(w, f, apply);
        }
        lemma_merge_run_fold(Self::spec_default(), bytes, apply);
        lemma_merge_run_fold(Self::spec_default(), bytes + field_bytes(f), apply);
    }

    /// Decoding the encoding of a message gives the message back.
    pub proof fn lemma_decode_encode(v: SpecCMsgClientRequestForgottenPasswordEmail)
        requires
            Self::spec_encode(v).len() <= u64::MAX,
        ensures
            Self::spec_decode(Self::spec_encode(v)) == Ok::<SpecCMsgClientRequestForgottenPasswordEmail, WireError>(v),
    {
        let apply = Self::apply_fn();
        let d = Self::spec_default();
        let p0 = Seq::<SpecField>::empty();
        let l1 = opt_string(1, v.account_name);
        let p1 = p0 + l1;
        let l2 = opt_string(2, v.password_tried);
        let p2 = p1 + l2;
        assert(parse_fields(Self::spec_encode(v)) == Ok::<Seq<SpecField>, WireError>(p2)) by {
            reveal(CMsgClientRequestForgottenPasswordEmail::spec_encode);
            assert(numbers_ok(p0) && fields_wf(p0)) by {
                reveal(numbers_ok);
                reveal(fields_wf);
            }
            lemma_opt_string_numbered(1, v.account_name);
            lemma_fields_wf_concat(p0, l1);
            lemma_opt_string_numbered(2, v.password_tried);
            lemma_fields_wf_concat(p1, l2);
            assert(p2 == Self::spec_fields(v));
            lemma_fields_wf_from_len(p2);
            lemma_fields_roundtrip(p2);
        }
        assert(Self::spec_prefix(v, 0) == d) by {
            reveal(CMsgClientRequestForgottenPasswordEmail::spec_prefix);
        }
        lemma_fold_empty(d, apply);
        lemma_fold_concat(d, p0, l1, apply);
        Self::lemma_field_account_name(v);
        lemma_fold_concat(d, p1, l2, apply);
        Self::lemma_field_password_tried(v);
        assert(Self::spec_prefix(v, 2) == v) by {
            reveal(CMsgClientRequestForgottenPasswordEmail::spec_prefix);
        }
        lemma_merge_run_fold(d, Self::spec_encode(v), apply);
        assert(Self::spec_decode(Self::spec_encode(v)) == Ok::<SpecCMsgClientRequestForgottenPasswordEmail, WireError>(v)) by {
            reveal(CMsgClientRequestForgottenPasswordEmail::spec_decode);
        }
    }
}

/// `CMsgClientRequestForgottenPasswordEmailResponse`, as Valve's schema declares it.
#[derive(Debug, Clone, PartialEq)]
pub struct CMsgClientRequestForgottenPasswordEmailResponse {
    /// Field 1.
    pub e_result: Option<u32>,
    /// Field 2.
    pub use_secret_question: Option<bool>,
}

/// What a `CMsgClientRequestForgottenPasswordEmailResponse` holds, as mathematical values.
#[verifier::ext_equal]
pub struct SpecCMsgClientRequestForgottenPasswordEmailResponse {
    pub e_result: Option<u32>,
    pub use_secret_question: Option<bool>,
}

impl View for CMsgClientRequestForgottenPasswordEmailResponse {
    type V = SpecCMsgClientRequestForgottenPasswordEmailResponse;

    open spec fn view(&self) -> SpecCMsgClientRequestForgottenPasswordEmailResponse {
        SpecCMsgClientRequestForgottenPasswordEmailResponse {
            e_result: self.e_result,
            use_secret_question: self.use_secret_question,
        }
    }
}

impl Default for CMsgClientRequestForgottenPasswordEmailResponse {
    fn default() -> (r: Self)
        ensures
            r@ == CMsgClientRequestForgottenPasswordEmailResponse::spec_default(),
    {
        CMsgClientRequestForgottenPasswordEmailResponse {
            e_result: None,
            use_secret_question: None,
        }
    }
}

impl CMsgClientRequestForgottenPasswordEmailResponse {
    pub open spec fn spec_default() -> SpecCMsgClientRequestForgottenPasswordEmailResponse {
        SpecCMsgClientRequestForgottenPasswordEmailResponse {
            e_result: None,
            use_secret_question: None,
        }
    }

    /// The records a `CMsgClientRequestForgottenPasswordEmailResponse` is written as, in field order.
    pub open spec fn spec_fields(v: SpecCMsgClientRequestForgottenPasswordEmailResponse) -> Seq<SpecField> {
        Seq::<SpecField>::empty()
            + opt_u32(1, v.e_result)
            + opt_bool(2, v.use_secret_question)
    }

    #[verifier::opaque]
    pub open spec fn spec_encode(v: SpecCMsgClientRequestForgottenPasswordEmailResponse) -> Seq<u8> {
        fields_bytes(Self::spec_fields(v))
    }

    /// What one record does to the message: a declared number sets or extends its
    /// field, any other number is left alone.
    pub open spec fn spec_apply(v: SpecCMsgClientRequestForgottenPasswordEmailResponse, f: SpecField) -> Result<SpecCMsgClientRequestForgottenPasswordEmailResponse, WireError> {
        match f.number {
            1 => match dec_u32(f.value) {
                Ok(x) => Ok(SpecCMsgClientRequestForgottenPasswordEmailResponse { e_result: Some(x), ..v }),
                Err(e) => Err(e),
            },
            2 => match dec_bool(f.value) {
                Ok(x) => Ok(SpecCMsgClientRequestForgottenPasswordEmailResponse { use_secret_question: Some(x), ..v }),
                Err(e) => Err(e),
            },
            _ => Ok(v),
        }
    }

    pub open spec fn apply_fn() -> spec_fn(SpecCMsgClientRequestForgottenPasswordEmailResponse, SpecField) -> Result<SpecCMsgClientRequestForgottenPasswordEmailResponse, WireError> {
        |v: SpecCMsgClientRequestForgottenPasswordEmailResponse, f: SpecField| Self::spec_apply(v, f)
    }

    /// The message `bytes` makes of `v`: its records applied in order, or the error
    /// that stops the reading.
    pub open spec fn spec_merge(v: SpecCMsgClientRequestForgottenPasswordEmailResponse, bytes: Seq<u8>) -> Result<SpecCMsgClientRequestForgottenPasswordEmailResponse, WireError> {
        let (w, stop) = merge_run(v, bytes, Self::apply_fn());
        match stop {
            None => Ok(w),
            Some(e) => Err(e),
        }
    }

    #[verifier::opaque]
    pub open spec fn spec_decode(bytes: Seq<u8>) -> Result<SpecCMsgClientRequestForgottenPasswordEmailResponse, WireError> {
        Self::spec_merge(Self::spec_default(), bytes)
    }

    /// This message with one record applied to it, or, when the record is refused,
    /// the message unchanged and the reason.
    fn applied(self, f: &Field) -> (r: Result<Self, (Self, WireError)>)
        ensures
            match Self::spec_apply(self@, f@) {
                Ok(v) => r matches Ok(m) && m@ == v,
                Err(e) => r matches Err((m, x)) && x == e && m@ == self@,
            },
    {
        match f.number {
            1 => match read_u32(&f.value) {
                Ok(x) => Ok(Self { e_result: Some(x), ..self }),
                Err(e) => Err((self, e)),
            },
            2 => match read_bool(&f.value) {
                Ok(x) => Ok(Self { use_secret_question: Some(x), ..self }),
                Err(e) => Err((self, e)),
            },
            _ => Ok(self),
        }
    }

    /// Reads the records `bytes` holds into this message, in order. When a record does
    /// not parse or is refused, the reading stops there: the message keeps what the
    /// records before it gave, and the error is returned.
    pub fn merge(&mut self, bytes: &[u8]) -> (r: Result<(), WireError>)
        ensures
            final(self)@ == merge_run(old(self)@, bytes@, Self::apply_fn()).0,
            r == match merge_run(old(self)@, bytes@, Self::apply_fn()).1 {
                None => Ok::<(), WireError>(()),
                Some(e) => Err::<(), WireError>(e),
            },
    {
        let ghost total = merge_run(self@, bytes@, Self::apply_fn());
        let mut cur = Self::default();
        std::mem::swap(&mut cur, self);
        let mut pos: usize = 0;
        assert(bytes@.skip(0) =~= bytes@);
        while pos < bytes.len()
            invariant
                pos <= bytes@.len(),
                total == merge_run(old(self)@, bytes@, Self::apply_fn()),
                merge_run(cur@, bytes@.skip(pos as int), Self::apply_fn()) == total,
            decreases bytes@.len() - pos,
        {
            let ghost s = bytes@.skip(pos as int);
            proof {
                lemma_merge_run_step(cur@, s, Self::apply_fn());
                lemma_parse_field_len(s);
            }
            match read_field(bytes, pos) {
                Ok((f, end)) => {
                    assert(bytes@.skip(end as int) =~= s.skip((end - pos) as int));
                    match cur.applied(&f) {
                        Ok(m) => {
                            cur = m;
                        },
                        Err((m, e)) => {
                            *self = m;
                            return Err(e);
                        },
                    }
                    pos = end;
                },
                Err(e) => {
                    *self = cur;
                    return Err(e);
                },
            }
        }
        assert(bytes@.skip(pos as int) =~= Seq::<u8>::empty());
        proof {
            lemma_merge_run_empty(cur@, Self::apply_fn());
        }
        *self = cur;
        Ok(())
    }

    /// Decodes a message from its encoding.
    pub fn decode(bytes: &[u8]) -> (r: Result<Self, WireError>)
        ensures
            match Self::spec_decode(bytes@) {
                Ok(v) => r matches Ok(m) && m@ == v,
                Err(e) => r matches Err(x) && x == e,
            },
    {
        proof {
            reveal(CMsgClientRequestForgottenPasswordEmailResponse::spec_decode);
        }
        let mut m = Self::default();
        match m.merge(bytes) {
            Ok(()) => Ok(m),
            Err(e) => Err(e),
        }
    }

    /// The encoding of this message.
    pub fn encode_to_vec(&self) -> (r: Vec<u8>)
        ensures
            r@ == Self::spec_encode(self@),
    {
        let ghost v = self@;
        let mut out: Vec<u8> = Vec::new();
        let ghost p0 = Seq::<SpecField>::empty();
        put_opt_u32(&mut out, 1, self.e_result);
        let ghost p1 = p0 + opt_u32(1, v.e_result);
        proof {
            lemma_fields_bytes_concat(p0, opt_u32(1, v.e_result));
        }
        put_opt_bool(&mut out, 2, self.use_secret_question);
        let ghost p2 = p1 + opt_bool(2, v.use_secret_question);
        proof {
            lemma_fields_bytes_concat(p1, opt_bool(2, v.use_secret_question));
        }
        proof {
            reveal(CMsgClientRequestForgottenPasswordEmailResponse::spec_encode);
        }
        assert(p2 == Self::spec_fields(v));
        out
    }

    /// Appends the encoding of this message to `out`.
    pub fn encode_raw(&self, out: &mut Vec<u8>)
        ensures
            final(out)@ == old(out)@ + Self::spec_encode(self@),
    {
        let mut b = self.encode_to_vec();
        out.append(&mut b);
    }

    /// The first `k` fields of `v`, the others as a fresh message has them.
    #[verifier::opaque]
    pub open spec fn spec_prefix(v: SpecCMsgClientRequestForgottenPasswordEmailResponse, k: int) -> SpecCMsgClientRequestForgottenPasswordEmailResponse {
        SpecCMsgClientRequestForgottenPasswordEmailResponse {
            e_result: if 1 <= k { v.e_result } else { None },
            use_secret_question: if 2 <= k { v.use_secret_question } else { None },
        }
    }

    /// Reading field 1 back, after the fields before it.
    proof fn lemma_field_e_result(v: SpecCMsgClientRequestForgottenPasswordEmailResponse)
        ensures
            fold_fields(Self::spec_prefix(v, 0), opt_u32(1, v.e_result), Self::apply_fn())
                == Ok::<SpecCMsgClientRequestForgottenPasswordEmailResponse, WireError>(Self::spec_prefix(v, 1)),
    {
        reveal(CMsgClientRequestForgottenPasswordEmailResponse::spec_prefix);
        reveal(opt_u32);
        let apply = Self::apply_fn();
        let s = Self::spec_prefix(v, 0);
        lemma_fold_opt(s, 1, match v.e_result { Some(x) => Some(enc_u32(x)), None => None }, apply);
        if let Some(x) = v.e_result {
            lemma_u32_roundtrip(x);
        }
        assert(SpecCMsgClientRequestForgottenPasswordEmailResponse { e_result: v.e_result, ..s } == Self::spec_prefix(v, 1));
    }

    /// Reading field 2 back, after the fields before it.
    proof fn lemma_field_use_secret_question(v: SpecCMsgClientRequestForgottenPasswordEmailResponse)
        ensures
            fold_fields(Self::spec_prefix(v, 1), opt_bool(2, v.use_secret_question), Self::apply_fn())
                == Ok::<SpecCMsgClientRequestForgottenPasswordEmailResponse, WireError>(Self::spec_prefix(v, 2)),
    {
        reveal(CMsgClientRequestForgottenPasswordEmailResponse::spec_prefix);
        reveal(opt_bool);
        let apply = Self::apply_fn();
        let s = Self::spec_prefix(v, 1);
        lemma_fold_opt(s, 2, match v.use_secret_question { Some(x) => Some(enc_bool(x)), None => None }, apply);
        assert(SpecCMsgClientRequestForgottenPasswordEmailResponse { use_secret_question: v.use_secret_question, ..s } == Self::spec_prefix(v, 2));
    }

    /// Whether this message declares field number `n`.
    pub open spec fn declares(n: u32) -> bool {
        n == 1 || n == 2
    }

    /// A record with a number this message does not declare is passed over: well-formed
    /// bytes decode to the same message with such a record after them as without it.
    pub proof fn lemma_unknown_field(bytes: Seq<u8>, f: SpecField)
        requires
            parse_fields(bytes) is Ok,
            field_wf(f),
            !Self::declares(f.number),
        ensures
            Self::spec_decode(bytes + field_bytes(f)) == Self::spec_decode(bytes),
    {
        reveal(CMsgClientRequestForgottenPasswordEmailResponse::spec_decode);
        lemma_parse_fields_append(bytes, f);
        let fs = parse_fields(bytes).unwrap();
        let apply = Self::apply_fn();
        lemma_fold_concat(Self::spec_default(), fs, seq![f], apply);
        assert(fs.push(f) =~= fs + seq![f]);
        if let Ok(w) = fold_fields(Self::spec_default(), fs, apply) {
            lemma_fold_single(w, f, apply);
        }
        lemma_merge_run_fold(Self::spec_default(), bytes, apply);
        lemma_merge_run_fold(Self::spec_default(), bytes + field_bytes(f), apply);
    }

    /// Decoding the encoding of a message gives the message back.
    pub proof fn lemma_decode_encode(v: SpecCMsgClientRequestForgottenPasswordEmailResponse)
        requires
            Self::spec_encode(v).len() <= u64::MAX,
        ensures
            Self::spec_decode(Self::spec_encode(v)) == Ok::<SpecCMsgClientRequestForgottenPasswordEmailResponse, WireError>(v),
    {
        let apply = Self::apply_fn();
        let d = Self::spec_default();
        let p0 = Seq::<SpecField>::empty();
        let l1 = opt_u32(1, v.e_result);
        let p1 = p0 + l1;
        let l2 = opt_bool(2, v.use_secret_question);
        let p2 = p1 + l2;
        assert(parse_fields(Self::spec_encode(v)) == Ok::<Seq<SpecField>, WireError>(p2)) by {
            reveal(CMsgClientRequestForgottenPasswordEmailResponse::spec_encode);
            assert(numbers_ok(p0) && fields_wf(p0)) by {
                reveal(numbers_ok);
                reveal(fields_wf);
            }
            lemma_opt_u32_numbered(1, v.e_result);
            lemma_fields_wf_concat(p0, l1);
            lemma_opt_bool_numbered(2, v.use_secret_question);
            lemma_fields_wf_concat(p1, l2);
            assert(p2 == Self::spec_fields(v));
            lemma_fields_wf_from_len(p2);
            lemma_fields_roundtrip(p2);
        }
        assert(Self::spec_prefix(v, 0) == d) by {
            reveal(CMsgClientRequestForgottenPasswordEmailResponse::spec_prefix);
        }
        lemma_fold_empty(d, apply);
        lemma_fold_concat(d, p0, l1, apply);
        Self::lemma_field_e_result(v);
        lemma_fold_concat(d, p1, l2, apply);
        Self::lemma_field_use_secret_question(v);
        assert(Self::spec_prefix(v, 2) == v) by {
            reveal(CMsgClientRequestForgottenPasswordEmailResponse::spec_prefix);
        }
        lemma_merge_run_fold(d, Self::spec_encode(v), apply);
        assert(Self::spec_decode(Self::spec_encode(v)) == Ok::<SpecCMsgClientRequestForgottenPasswordEmailResponse, WireError>(v)) by {
            reveal(CMsgClientRequestForgottenPasswordEmailResponse::spec_decode);
        }
    }
}

/// `CMsgClientItemAnnouncements`, as Valve's schema declares it.
#[derive(Debug, Clone, PartialEq)]
pub struct CMsgClientItemAnnouncements {
    /// Field 1.
    pub count_new_items: Option<u32>,
    /// Field 2.
    pub unseen_items: Vec<crate::steammessages_clientserver_2::c_msg_client_item_announcements::UnseenItem>,
}

/// What a `CMsgClientItemAnnouncements` holds, as mathematical values.
#[verifier::ext_equal]
pub struct SpecCMsgClientItemAnnouncements {
    pub count_new_items: Option<u32>,
    pub unseen_items: Seq<crate::steammessages_clientserver_2::c_msg_client_item_announcements::SpecUnseenItem>,
}

impl View for CMsgClientItemAnnouncements {
    type V = SpecCMsgClientItemAnnouncements;

    open spec fn view(&self) -> SpecCMsgClientItemAnnouncements {
        SpecCMsgClientItemAnnouncements {
            count_new_items: self.count_new_items,
            unseen_items: crate::steammessages_clientserver_2::c_msg_client_item_announcements::UnseenItem::view_all(self.unseen_items@),
        }
    }
}

impl Default for CMsgClientItemAnnouncements {
    fn default() -> (r: Self)
        ensures
            r@ == CMsgClientItemAnnouncements::spec_default(),
    {
        CMsgClientItemAnnouncements {
            count_new_items: None,
            unseen_items: Vec::new(),
        }
    }
}

impl CMsgClientItemAnnouncements {
    pub open spec fn spec_default() -> SpecCMsgClientItemAnnouncements {
        SpecCMsgClientItemAnnouncements {
            count_new_items: None,
            unseen_items: Seq::empty(),
        }
    }

    /// The records a `CMsgClientItemAnnouncements` is written as, in field order.
    pub open spec fn spec_fields(v: SpecCMsgClientItemAnnouncements) -> Seq<SpecField> {
        Seq::<SpecField>::empty()
            + opt_u32(1, v.count_new_items)
            + rep_bytes(2, crate::steammessages_clientserver_2::c_msg_client_item_announcements::UnseenItem::spec_encode_all(v.unseen_items))
    }

    #[verifier::opaque]
    pub open spec fn spec_encode(v: SpecCMsgClientItemAnnouncements) -> Seq<u8> {
        fields_bytes(Self::spec_fields(v))
    }

    /// What one record does to the message: a declared number sets or extends its
    /// field, any other number is left alone.
    pub open spec fn spec_apply(v: SpecCMsgClientItemAnnouncements, f: SpecField) -> Result<SpecCMsgClientItemAnnouncements, WireError> {
        match f.number {
            1 => match dec_u32(f.value) {
                Ok(x) => Ok(SpecCMsgClientItemAnnouncements { count_new_items: Some(x), ..v }),
                Err(e) => Err(e),
            },
            2 => match dec_bytes(f.value) {
                Ok(b) => match crate::steammessages_clientserver_2::c_msg_client_item_announcements::UnseenItem::spec_decode(b) {
                    Ok(m) => Ok(SpecCMsgClientItemAnnouncements { unseen_items: v.unseen_items.push(m), ..v }),
                    Err(e) => Err(e),
                },
                Err(e) => Err(e),
            },
            _ => Ok(v),
        }
    }

    pub open spec fn apply_fn() -> spec_fn(SpecCMsgClientItemAnnouncements, SpecField) -> Result<SpecCMsgClientItemAnnouncements, WireError> {
        |v: SpecCMsgClientItemAnnouncements, f: SpecField| Self::spec_apply(v, f)
    }

    /// The message `bytes` makes of `v`: its records applied in order, or the error
    /// that stops the reading.
    pub open spec fn spec_merge(v: SpecCMsgClientItemAnnouncements, bytes: Seq<u8>) -> Result<SpecCMsgClientItemAnnouncements, WireError> {
        let (w, stop) = merge_run(v, bytes, Self::apply_fn());
        match stop {
            None => Ok(w),
            Some(e) => Err(e),
        }
    }

    #[verifier::opaque]
    pub open spec fn spec_decode(bytes: Seq<u8>) -> Result<SpecCMsgClientItemAnnouncements, WireError> {
        Self::spec_merge(Self::spec_default(), bytes)
    }

    /// This message with one record applied to it, or, when the record is refused,
    /// the message unchanged and the reason.
    fn applied(self, f: &Field) -> (r: Result<Self, (Self, WireError)>)
        ensures
            match Self::spec_apply(self@, f@) {
                Ok(v) => r matches Ok(m) && m@ == v,
                Err(e) => r matches Err((m, x)) && x == e && m@ == self@,
            },
    {
        match f.number {
            1 => match read_u32(&f.value) {
                Ok(x) => Ok(Self { count_new_items: Some(x), ..self }),
                Err(e) => Err((self, e)),
            },
            2 => match read_payload(&f.value) {
                Ok(b) => match crate::steammessages_clientserver_2::c_msg_client_item_announcements::UnseenItem::decode(b) {
                    Ok(x) => {
                        let mut m = self;
                        let ghost before = m.unseen_items@;
                        m.unseen_items.push(x);
                        assert(crate::steammessages_clientserver_2::c_msg_client_item_announcements::UnseenItem::view_all(m.unseen_items@) =~= crate::steammessages_clientserver_2::c_msg_client_item_announcements::UnseenItem::view_all(before).push(x@));
                        Ok(m)
                    },
                    Err(e) => Err((self, e)),
                },
                Err(e) => Err((self, e)),
            },
            _ => Ok(self),
        }
    }

    /// Reads the records `bytes` holds into this message, in order. When a record does
    /// not parse or is refused, the reading stops there: the message keeps what the
    /// records before it gave, and the error is returned.
    pub fn merge(&mut self, bytes: &[u8]) -> (r: Result<(), WireError>)
        ensures
            final(self)@ == merge_run(old(self)@, bytes@, Self::apply_fn()).0,
            r == match merge_run(old(self)@, bytes@, Self::apply_fn()).1 {
                None => Ok::<(), WireError>(()),
                Some(e) => Err::<(), WireError>(e),
            },
    {
        let ghost total = merge_run(self@, bytes@, Self::apply_fn());
        let mut cur = Self::default();
        std::mem::swap(&mut cur, self);
        let mut pos: usize = 0;
        assert(bytes@.skip(0) =~= bytes@);
        while pos < bytes.len()
            invariant
                pos <= bytes@.len(),
                total == merge_run(old(self)@, bytes@, Self::apply_fn()),
                merge_run(cur@, bytes@.skip(pos as int), Self::apply_fn()) == total,
            decreases bytes@.len() - pos,
        {
            let ghost s = bytes@.skip(pos as int);
            proof {
                lemma_merge_run_step(cur@, s, Self::apply_fn());
                lemma_parse_field_len(s);
            }
            match read_field(bytes, pos) {
                Ok((f, end)) => {
                    assert(bytes@.skip(end as int) =~= s.skip((end - pos) as int));
                    match cur.applied(&f) {
                        Ok(m) => {
                            cur = m;
                        },
                        Err((m, e)) => {
                            *self = m;
                            return Err(e);
                        },
                    }
                    pos = end;
                },
                Err(e) => {
                    *self = cur;
                    return Err(e);
                },
            }
        }
        assert(bytes@.skip(pos as int) =~= Seq::<u8>::empty());
        proof {
            lemma_merge_run_empty(cur@, Self::apply_fn());
        }
        *self = cur;
        Ok(())
    }

    /// Decodes a message from its encoding.
    pub fn decode(bytes: &[u8]) -> (r: Result<Self, WireError>)
        ensures
            match Self::spec_decode(bytes@) {
                Ok(v) => r matches Ok(m) && m@ == v,
                Err(e) => r matches Err(x) && x == e,
            },
    {
        proof {
            reveal(CMsgClientItemAnnouncements::spec_decode);
        }
        let mut m = Self::default();
        match m.merge(bytes) {
            Ok(()) => Ok(m),
            Err(e) => Err(e),
        }
    }

    /// The encoding of this message.
    pub fn encode_to_vec(&self) -> (r: Vec<u8>)
        ensures
            r@ == Self::spec_encode(self@),
    {
        let enc_unseen_items = crate::steammessages_clientserver_2::c_msg_client_item_announcements::UnseenItem::encode_all(&self.unseen_items);
        let ghost v = self@;
        let mut out: Vec<u8> = Vec::new();
        let ghost p0 = Seq::<SpecField>::empty();
        put_opt_u32(&mut out, 1, self.count_new_items);
        let ghost p1 = p0 + opt_u32(1, v.count_new_items);
        proof {
            lemma_fields_bytes_concat(p0, opt_u32(1, v.count_new_items));
        }
        put_rep_bytes(&mut out, 2, &enc_unseen_items);
        let ghost p2 = p1 + rep_bytes(2, crate::steammessages_clientserver_2::c_msg_client_item_announcements::UnseenItem::spec_encode_all(v.unseen_items));
        proof {
            lemma_fields_bytes_concat(p1, rep_bytes(2, crate::steammessages_clientserver_2::c_msg_client_item_announcements::UnseenItem::spec_encode_all(v.unseen_items)));
        }
        proof {
            reveal(CMsgClientItemAnnouncements::spec_encode);
        }
        assert(p2 == Self::spec_fields(v));
        out
    }

    /// Appends the encoding of this message to `out`.
    pub fn encode_raw(&self, out: &mut Vec<u8>)
        ensures
            final(out)@ == old(out)@ + Self::spec_encode(self@),
    {
        let mut b = self.encode_to_vec();
        out.append(&mut b);
    }

    /// The first `k` fields of `v`, the others as a fresh message has them.
    #[verifier::opaque]
    pub open spec fn spec_prefix(v: SpecCMsgClientItemAnnouncements, k: int) -> SpecCMsgClientItemAnnouncements {
        SpecCMsgClientItemAnnouncements {
            count_new_items: if 1 <= k { v.count_new_items } else { None },
            unseen_items: if 2 <= k { v.unseen_items } else { Seq::empty() },
        }
    }

    /// Reading field 1 back, after the fields before it.
    proof fn lemma_field_count_new_items(v: SpecCMsgClientItemAnnouncements)
        ensures
            fold_fields(Self::spec_prefix(v, 0), opt_u32(1, v.count_new_items), Self::apply_fn())
                == Ok::<SpecCMsgClientItemAnnouncements, WireError>(Self::spec_prefix(v, 1)),
    {
        reveal(CMsgClientItemAnnouncements::spec_prefix);
        reveal(opt_u32);
        let apply = Self::apply_fn();
        let s = Self::spec_prefix(v, 0);
        lemma_fold_opt(s, 1, match v.count_new_items { Some(x) => Some(enc_u32(x)), None => None }, apply);
        if let Some(x) = v.count_new_items {
            lemma_u32_roundtrip(x);
        }
        assert(SpecCMsgClientItemAnnouncements { count_new_items: v.count_new_items, ..s } == Self::spec_prefix(v, 1));
    }

    /// Reading field 2 back, after the fields before it.
    proof fn lemma_field_unseen_items(v: SpecCMsgClientItemAnnouncements)
        requires
            fields_wf(rep_bytes(2, crate::steammessages_clientserver_2::c_msg_client_item_announcements::UnseenItem::spec_encode_all(v.unseen_items))),
        ensures
            fold_fields(Self::spec_prefix(v, 1), rep_bytes(2, crate::steammessages_clientserver_2::c_msg_client_item_announcements::UnseenItem::spec_encode_all(v.unseen_items)), Self::apply_fn())
                == Ok::<SpecCMsgClientItemAnnouncements, WireError>(Self::spec_prefix(v, 2)),
    {
        reveal(CMsgClientItemAnnouncements::spec_prefix);
        reveal(rep_bytes);
        reveal(fields_wf);
        let apply = Self::apply_fn();
        let s = Self::spec_prefix(v, 1);
        let l = rep_bytes(2, crate::steammessages_clientserver_2::c_msg_client_item_announcements::UnseenItem::spec_encode_all(v.unseen_items));
        let xs = v.unseen_items;
        let st = Seq::new((xs.len() + 1) as nat, |j: int| SpecCMsgClientItemAnnouncements { unseen_items: xs.take(j), ..s });
        assert forall|j: int| 0 <= j < l.len() implies #[trigger] apply(st[j], l[j]) == Ok::<SpecCMsgClientItemAnnouncements, WireError>(st[j + 1]) by {
            assert(field_wf(l[j]));
            crate::steammessages_clientserver_2::c_msg_client_item_announcements::UnseenItem::lemma_decode_encode(xs[j]);
            assert(xs.take(j).push(xs[j]) =~= xs.take(j + 1));
        }
        lemma_fold_chain(l, st, apply);
        assert(xs.take(0) =~= Seq::<crate::steammessages_clientserver_2::c_msg_client_item_announcements::SpecUnseenItem>::empty());
        assert(xs.take(xs.len() as int) =~= xs);
        assert(st[0] == s);
        assert(st[xs.len() as int] == Self::spec_prefix(v, 2));
    }

    /// Whether this message declares field number `n`.
    pub open spec fn declares(n: u32) -> bool {
        n == 1 || n == 2
    }

    /// A record with a number this message does not declare is passed over: well-formed
    /// bytes decode to the same message with such a record after them as without it.
    pub proof fn lemma_unknown_field(bytes: Seq<u8>, f: SpecField)
        requires
            parse_fields(bytes) is Ok,
            field_wf(f),
            !Self::declares(f.number),
        ensures
            Self::spec_decode(bytes + field_bytes(f)) == Self::spec_decode(bytes),
    {
        reveal(CMsgClientItemAnnouncements::spec_decode);
        lemma_parse_fields_append(bytes, f);
        let fs = parse_fields(bytes).unwrap();
        let apply = Self::apply_fn();
        lemma_fold_concat(Self::spec_default(), fs, seq![f], apply);
        assert(fs.push(f) =~= fs + seq![f]);
        if let Ok(w) = fold_fields(Self::spec_default(), fs, apply) {
            lemma_fold_single(w, f, apply);
        }
        lemma_merge_run_fold(Self::spec_default(), bytes, apply);
        lemma_merge_run_fold(Self::spec_default(), bytes + field_bytes(f), apply);
    }

    /// Decoding the encoding of a message gives the message back.
    pub proof fn lemma_decode_encode(v: SpecCMsgClientItemAnnouncements)
        requires
            Self::spec_encode(v).len() <= u64::MAX,
        ensures
            Self::spec_decode(Self::spec_encode(v)) == Ok::<SpecCMsgClientItemAnnouncements, WireError>(v),
    {
        let apply = Self::apply_fn();
        let d = Self::spec_default();
        let p0 = Seq::<SpecField>::empty();
        let l1 = opt_u32(1, v.count_new_items);
        let p1 = p0 + l1;
        let l2 = rep_bytes(2, crate::steammessages_clientserver_2::c_msg_client_item_announcements::UnseenItem::spec_encode_all(v.unseen_items));
        let p2 = p1 + l2;
        assert(parse_fields(Self::spec_encode(v)) == Ok::<Seq<SpecField>, WireError>(p2) && fields_wf(l2)) by {
            reveal(CMsgClientItemAnnouncements::spec_encode);
            assert(numbers_ok(p0) && fields_wf(p0)) by {
                reveal(numbers_ok);
                reveal(fields_wf);
            }
            lemma_opt_u32_numbered(1, v.count_new_items);
            lemma_fields_wf_concat(p0, l1);
            lemma_rep_bytes_numbered(2, crate::steammessages_clientserver_2::c_msg_client_item_announcements::UnseenItem::spec_encode_all(v.unseen_items));
            lemma_fields_wf_concat(p1, l2);
            assert(p2 == Self::spec_fields(v));
            lemma_fields_wf_from_len(p2);
            lemma_fields_roundtrip(p2);
        }
        assert(Self::spec_prefix(v, 0) == d) by {
            reveal(CMsgClientItemAnnouncements::spec_prefix);
        }
        lemma_fold_empty(d, apply);
        lemma_fold_concat(d, p0, l1, apply);
        Self::lemma_field_count_new_items(v);
        lemma_fold_concat(d, p1, l2, apply);
        Self::lemma_field_unseen_items(v);
        assert(Self::spec_prefix(v, 2) == v) by {
            reveal(CMsgClientItemAnnouncements::spec_prefix);
        }
        lemma_merge_run_fold(d, Self::spec_encode(v), apply);
        assert(Self::spec_decode(Self::spec_encode(v)) == Ok::<SpecCMsgClientItemAnnouncements, WireError>(v)) by {
            reveal(CMsgClientItemAnnouncements::spec_decode);
        }
    }
}

/// `CMsgClientRequestItemAnnouncements`, as Valve's schema declares it.
#[derive(Debug, Clone, PartialEq)]
pub struct CMsgClientRequestItemAnnouncements {}

/// What a `CMsgClientRequestItemAnnouncements` holds, as mathematical values.
#[verifier::ext_equal]
pub struct SpecCMsgClientRequestItemAnnouncements {}

impl View for CMsgClientRequestItemAnnouncements {
    type V = SpecCMsgClientRequestItemAnnouncements;

    open spec fn view(&self) -> SpecCMsgClientRequestItemAnnouncements {
        SpecCMsgClientRequestItemAnnouncements {}
    }
}

impl Default for CMsgClientRequestItemAnnouncements {
    fn default() -> (r: Self)
        ensures
            r@ == CMsgClientRequestItemAnnouncements::spec_default(),
    {
        CMsgClientRequestItemAnnouncements {}
    }
}

impl CMsgClientRequestItemAnnouncements {
    pub open spec fn spec_default() -> SpecCMsgClientRequestItemAnnouncements {
        SpecCMsgClientRequestItemAnnouncements {}
    }

    /// The records a `CMsgClientRequestItemAnnouncements` is written as, in field order.
    pub open spec fn spec_fields(v: SpecCMsgClientRequestItemAnnouncements) -> Seq<SpecField> {
        Seq::<SpecField>::empty()
    }

    #[verifier::opaque]
    pub open spec fn spec_encode(v: SpecCMsgClientRequestItemAnnouncements) -> Seq<u8> {
        fields_bytes(Self::spec_fields(v))
    }

    /// What one record does to the message: a declared number sets or extends its
    /// field, any other number is left alone.
    pub open spec fn spec_apply(v: SpecCMsgClientRequestItemAnnouncements, f: SpecField) -> Result<SpecCMsgClientRequestItemAnnouncements, WireError> {
        match f.number {
            _ => Ok(v),
        }
    }

    pub open spec fn apply_fn() -> spec_fn(SpecCMsgClientRequestItemAnnouncements, SpecField) -> Result<SpecCMsgClientRequestItemAnnouncements, WireError> {
        |v: SpecCMsgClientRequestItemAnnouncements, f: SpecField| Self::spec_apply(v, f)
    }

    /// The message `bytes` makes of `v`: its records applied in order, or the error
    /// that stops the reading.
    pub open spec fn spec_merge(v: SpecCMsgClientRequestItemAnnouncements, bytes: Seq<u8>) -> Result<SpecCMsgClientRequestItemAnnouncements, WireError> {
        let (w, stop) = merge_run(v, bytes, Self::apply_fn());
        match stop {
            None => Ok(w),
            Some(e) => Err(e),
        }
    }

    #[verifier::opaque]
    pub open spec fn spec_decode(bytes: Seq<u8>) -> Result<SpecCMsgClientRequestItemAnnouncements, WireError> {
        Self::spec_merge(Self::spec_default(), bytes)
    }

    /// This message with one record applied to it, or, when the record is refused,
    /// the message unchanged and the reason.
    fn applied(self, f: &Field) -> (r: Result<Self, (Self, WireError)>)
        ensures
            match Self::spec_apply(self@, f@) {
                Ok(v) => r matches Ok(m) && m@ == v,
                Err(e) => r matches Err((m, x)) && x == e && m@ == self@,
            },
    {
        match f.number {
            _ => Ok(self),
        }
    }

    /// Reads the records `bytes` holds into this message, in order. When a record does
    /// not parse or is refused, the reading stops there: the message keeps what the
    /// records before it gave, and the error is returned.
    pub fn merge(&mut self, bytes: &[u8]) -> (r: Result<(), WireError>)
        ensures
            final(self)@ == merge_run(old(self)@, bytes@, Self::apply_fn()).0,
            r == match merge_run(old(self)@, bytes@, Self::apply_fn()).1 {
                None => Ok::<(), WireError>(()),
                Some(e) => Err::<(), WireError>(e),
            },
    {
        let ghost total = merge_run(self@, bytes@, Self::apply_fn());
        let mut cur = Self::default();
        std::mem::swap(&mut cur, self);
        let mut pos: usize = 0;
        assert(bytes@.skip(0) =~= bytes@);
        while pos < bytes.len()
            invariant
                pos <= bytes@.len(),
                total == merge_run(old(self)@, bytes@, Self::apply_fn()),
                merge_run(cur@, bytes@.skip(pos as int), Self::apply_fn()) == total,
            decreases bytes@.len() - pos,
        {
            let ghost s = bytes@.skip(pos as int);
            proof {
                lemma_merge_run_step(cur@, s, Self::apply_fn());
                lemma_parse_field_len(s);
            }
            match read_field(bytes, pos) {
                Ok((f, end)) => {
                    assert(bytes@.skip(end as int) =~= s.skip((end - pos) as int));
                    match cur.applied(&f) {
                        Ok(m) => {
                            cur = m;
                        },
                        Err((m, e)) => {
                            *self = m;
                            return Err(e);
                        },
                    }
                    pos = end;
                },
                Err(e) => {
                    *self = cur;
                    return Err(e);
                },
            }
        }
        assert(bytes@.skip(pos as int) =~= Seq::<u8>::empty());
        proof {
            lemma_merge_run_empty(cur@, Self::apply_fn());
        }
        *self = cur;
        Ok(())
    }

    /// Decodes a message from its encoding.
    pub fn decode(bytes: &[u8]) -> (r: Result<Self, WireError>)
        ensures
            match Self::spec_decode(bytes@) {
                Ok(v) => r matches Ok(m) && m@ == v,
                Err(e) => r matches Err(x) && x == e,
            },
    {
        proof {
            reveal(CMsgClientRequestItemAnnouncements::spec_decode);
        }
        let mut m = Self::default();
        match m.merge(bytes) {
            Ok(()) => Ok(m),
            Err(e) => Err(e),
        }
    }

    /// The encoding of this message.
    pub fn encode_to_vec(&self) -> (r: Vec<u8>)
        ensures
            r@ == Self::spec_encode(self@),
    {
        let ghost v = self@;
        let mut out: Vec<u8> = Vec::new();
        let ghost p0 = Seq::<SpecField>::empty();
        proof {
            reveal(CMsgClientRequestItemAnnouncements::spec_encode);
        }
        assert(p0 == Self::spec_fields(v));
        assert(out@ =~= fields_bytes(p0));
        out
    }

    /// Appends the encoding of this message to `out`.
    pub fn encode_raw(&self, out: &mut Vec<u8>)
        ensures
            final(out)@ == old(out)@ + Self::spec_encode(self@),
    {
        let mut b = self.encode_to_vec();
        out.append(&mut b);
    }

    /// The first `k` fields of `v`, the others as a fresh message has them.
    #[verifier::opaque]
    pub open spec fn spec_prefix(v: SpecCMsgClientRequestItemAnnouncements, k: int) -> SpecCMsgClientRequestItemAnnouncements {
        SpecCMsgClientRequestItemAnnouncements {}
    }

    /// Whether this message declares field number `n`.
    pub open spec fn declares(n: u32) -> bool {
        false
    }

    /// A record with a number this message does not declare is passed over: well-formed
    /// bytes decode to the same message with such a record after them as without it.
    pub proof fn lemma_unknown_field(bytes: Seq<u8>, f: SpecField)
        requires
            parse_fields(bytes) is Ok,
            field_wf(f),
            !Self::declares(f.number),
        ensures
            Self::spec_decode(bytes + field_bytes(f)) == Self::spec_decode(bytes),
    {
        reveal(CMsgClientRequestItemAnnouncements::spec_decode);
        lemma_parse_fields_append(bytes, f);
        let fs = parse_fields(bytes).unwrap();
        let apply = Self::apply_fn();
        lemma_fold_concat(Self::spec_default(), fs, seq![f], apply);
        assert(fs.push(f) =~= fs + seq![f]);
        if let Ok(w) = fold_fields(Self::spec_default(), fs, apply) {
            lemma_fold_single(w, f, apply);
        }
        lemma_merge_run_fold(Self::spec_default(), bytes, apply);
        lemma_merge_run_fold(Self::spec_default(), bytes + field_bytes(f), apply);
    }

    /// Decoding the encoding of a message gives the message back.
    pub proof fn lemma_decode_encode(v: SpecCMsgClientRequestItemAnnouncements)
        requires
            Self::spec_encode(v).len() <= u64::MAX,
        ensures
            Self::spec_decode(Self::spec_encode(v)) == Ok::<SpecCMsgClientRequestItemAnnouncements, WireError>(v),
    {
        let apply = Self::apply_fn();
        let d = Self::spec_default();
        let p0 = Seq::<SpecField>::empty();
        assert(parse_fields(Self::spec_encode(v)) == Ok::<Seq<SpecField>, WireError>(p0)) by {
            reveal(CMsgClientRequestItemAnnouncements::spec_encode);
            assert(numbers_ok(p0) && fields_wf(p0)) by {
                reveal(numbers_ok);
                reveal(fields_wf);
            }
            assert(p0 == Self::spec_fields(v));
            lemma_fields_wf_from_len(p0);
            lemma_fields_roundtrip(p0);
        }
        assert(Self::spec_prefix(v, 0) == d) by {
            reveal(CMsgClientRequestItemAnnouncements::spec_prefix);
        }
        lemma_fold_empty(d, apply);
        assert(Self::spec_prefix(v, 0) == v) by {
            reveal(CMsgClientRequestItemAnnouncements::spec_prefix);
        }
        lemma_merge_run_fold(d, Self::spec_encode(v), apply);
        assert(Self::spec_decode(Self::spec_encode(v)) == Ok::<SpecCMsgClientRequestItemAnnouncements, WireError>(v)) by {
            reveal(CMsgClientRequestItemAnnouncements::spec_decode);
        }
    }
}

/// `CMsgClientUserNotifications`, as Valve's schema declares it.
#[derive(Debug, Clone, PartialEq)]
pub struct CMsgClientUserNotifications {
    /// Field 1.
    pub notifications: Vec<crate::steammessages_clientserver_2::c_msg_client_user_notifications::Notification>,
}

/// What a `CMsgClientUserNotifications` holds, as mathematical values.
#[verifier::ext_equal]
pub struct SpecCMsgClientUserNotifications {
    pub notifications: Seq<crate::steammessages_clientserver_2::c_msg_client_user_notifications::SpecNotification>,
}

impl View for CMsgClientUserNotifications {
    type V = SpecCMsgClientUserNotifications;

    open spec fn view(&self) -> SpecCMsgClientUserNotifications {
        SpecCMsgClientUserNotifications {
            notifications: crate::steammessages_clientserver_2::c_msg_client_user_notifications::Notification::view_all(self.notifications@),
        }
    }
}

impl Default for CMsgClientUserNotifications {
    fn default() -> (r: Self)
        ensures
            r@ == CMsgClientUserNotifications::spec_default(),
    {
        CMsgClientUserNotifications {
            notifications: Vec::new(),
        }
    }
}

impl CMsgClientUserNotifications {
    pub open spec fn spec_default() -> SpecCMsgClientUserNotifications {
        SpecCMsgClientUserNotifications {
            notifications: Seq::empty(),
        }
    }

    /// The records a `CMsgClientUserNotifications` is written as, in field order.
    pub open spec fn spec_fields(v: SpecCMsgClientUserNotifications) -> Seq<SpecField> {
        Seq::<SpecField>::empty()
            + rep_bytes(1, crate::steammessages_clientserver_2::c_msg_client_user_notifications::Notification::spec_encode_all(v.notifications))
    }

    #[verifier::opaque]
    pub open spec fn spec_encode(v: SpecCMsgClientUserNotifications) -> Seq<u8> {
        fields_bytes(Self::spec_fields(v))
    }

    /// What one record does to the message: a declared number sets or extends its
    /// field, any other number is left alone.
    pub open spec fn spec_apply(v: SpecCMsgClientUserNotifications, f: SpecField) -> Result<SpecCMsgClientUserNotifications, WireError> {
        match f.number {
            1 => match dec_bytes(f.value) {
                Ok(b) => match crate::steammessages_clientserver_2::c_msg_client_user_notifications::Notification::spec_decode(b) {
                    Ok(m) => Ok(SpecCMsgClientUserNotifications { notifications: v.notifications.push(m), ..v }),
                    Err(e) => Err(e),
                },
                Err(e) => Err(e),
            },
            _ => Ok(v),
        }
    }

    pub open spec fn apply_fn() -> spec_fn(SpecCMsgClientUserNotifications, SpecField) -> Result<SpecCMsgClientUserNotifications, WireError> {
        |v: SpecCMsgClientUserNotifications, f: SpecField| Self::spec_apply(v, f)
    }

    /// The message `bytes` makes of `v`: its records applied in order, or the error
    /// that stops the reading.
    pub open spec fn spec_merge(v: SpecCMsgClientUserNotifications, bytes: Seq<u8>) -> Result<SpecCMsgClientUserNotifications, WireError> {
        let (w, stop) = merge_run(v, bytes, Self::apply_fn());
        match stop {
            None => Ok(w),
            Some(e) => Err(e),
        }
    }

    #[verifier::opaque]
    pub open spec fn spec_decode(bytes: Seq<u8>) -> Result<SpecCMsgClientUserNotifications, WireError> {
        Self::spec_merge(Self::spec_default(), bytes)
    }

    /// This message with one record applied to it, or, when the record is refused,
    /// the message unchanged and the reason.
    fn applied(self, f: &Field) -> (r: Result<Self, (Self, WireError)>)
        ensures
            match Self::spec_apply(self@, f@) {
                Ok(v) => r matches Ok(m) && m@ == v,
                Err(e) => r matches Err((m, x)) && x == e && m@ == self@,
            },
    {
        match f.number {
            1 => match read_payload(&f.value) {
                Ok(b) => match crate::steammessages_clientserver_2::c_msg_client_user_notifications::Notification::decode(b) {
                    Ok(x) => {
                        let mut m = self;
                        let ghost before = m.notifications@;
                        m.notifications.push(x);
                        assert(crate::steammessages_clientserver_2::c_msg_client_user_notifications::Notification::view_all(m.notifications@) =~= crate::steammessages_clientserver_2::c_msg_client_user_notifications::Notification::view_all(before).push(x@));
                        Ok(m)
                    },
                    Err(e) => Err((self, e)),
                },
                Err(e) => Err((self, e)),
            },
            _ => Ok(self),
        }
    }

    /// Reads the records `bytes` holds into this message, in order. When a record does
    /// not parse or is refused, the reading stops there: the message keeps what the
    /// records before it gave, and the error is returned.
    pub fn merge(&mut self, bytes: &[u8]) -> (r: Result<(), WireError>)
        ensures
            final(self)@ == merge_run(old(self)@, bytes@, Self::apply_fn()).0,
            r == match merge_run(old(self)@, bytes@, Self::apply_fn()).1 {
                None => Ok::<(), WireError>(()),
                Some(e) => Err::<(), WireError>(e),
            },
    {
        let ghost total = merge_run(self@, bytes@, Self::apply_fn());
        let mut cur = Self::default();
        std::mem::swap(&mut cur, self);
        let mut pos: usize = 0;
        assert(bytes@.skip(0) =~= bytes@);
        while pos < bytes.len()
            invariant
                pos <= bytes@.len(),
                total == merge_run(old(self)@, bytes@, Self::apply_fn()),
                merge_run(cur@, bytes@.skip(pos as int), Self::apply_fn()) == total,
            decreases bytes@.len() - pos,
        {
            let ghost s = bytes@.skip(pos as int);
            proof {
                lemma_merge_run_step(cur@, s, Self::apply_fn());
                lemma_parse_field_len(s);
            }
            match read_field(bytes, pos) {
                Ok((f, end)) => {
                    assert(bytes@.skip(end as int) =~= s.skip((end - pos) as int));
                    match cur.applied(&f) {
                        Ok(m) => {
                            cur = m;
                        },
                        Err((m, e)) => {
                            *self = m;
                            return Err(e);
                        },
                    }
                    pos = end;
                },
                Err(e) => {
                    *self = cur;
                    return Err(e);
                },
            }
        }
        assert(bytes@.skip(pos as int) =~= Seq::<u8>::empty());
        proof {
            lemma_merge_run_empty(cur@, Self::apply_fn());
        }
        *self = cur;
        Ok(())
    }

    /// Decodes a message from its encoding.
    pub fn decode(bytes: &[u8]) -> (r: Result<Self, WireError>)
        ensures
            match Self::spec_decode(bytes@) {
                Ok(v) => r matches Ok(m) && m@ == v,
                Err(e) => r matches Err(x) && x == e,
            },
    {
        proof {
            reveal(CMsgClientUserNotifications::spec_decode);
        }
        let mut m = Self::default();
        match m.merge(bytes) {
            Ok(()) => Ok(m),
            Err(e) => Err(e),
        }
    }

    /// The encoding of this message.
    pub fn encode_to_vec(&self) -> (r: Vec<u8>)
        ensures
            r@ == Self::spec_encode(self@),
    {
        let enc_notifications = crate::steammessages_clientserver_2::c_msg_client_user_notifications::Notification::encode_all(&self.notifications);
        let ghost v = self@;
        let mut out: Vec<u8> = Vec::new();
        let ghost p0 = Seq::<SpecField>::empty();
        put_rep_bytes(&mut out, 1, &enc_notifications);
        let ghost p1 = p0 + rep_bytes(1, crate::steammessages_clientserver_2::c_msg_client_user_notifications::Notification::spec_encode_all(v.notifications));
        proof {
            lemma_fields_bytes_concat(p0, rep_bytes(1, crate::steammessages_clientserver_2::c_msg_client_user_notifications::Notification::spec_encode_all(v.notifications)));
        }
        proof {
            reveal(CMsgClientUserNotifications::spec_encode);
        }
        assert(p1 == Self::spec_fields(v));
        out
    }

    /// Appends the encoding of this message to `out`.
    pub fn encode_raw(&self, out: &mut Vec<u8>)
        ensures
            final(out)@ == old(out)@ + Self::spec_encode(self@),
    {
        let mut b = self.encode_to_vec();
        out.append(&mut b);
    }

    /// The first `k` fields of `v`, the others as a fresh message has them.
    #[verifier::opaque]
    pub open spec fn spec_prefix(v: SpecCMsgClientUserNotifications, k: int) -> SpecCMsgClientUserNotifications {
        SpecCMsgClientUserNotifications {
            notifications: if 1 <= k { v.notifications } else { Seq::empty() },
        }
    }

    /// Reading field 1 back, after the fields before it.
    proof fn lemma_field_notifications(v: SpecCMsgClientUserNotifications)
        requires
            fields_wf(rep_bytes(1, crate::steammessages_clientserver_2::c_msg_client_user_notifications::Notification::spec_encode_all(v.notifications))),
        ensures
            fold_fields(Self::spec_prefix(v, 0), rep_bytes(1, crate::steammessages_clientserver_2::c_msg_client_user_notifications::Notification::spec_encode_all(v.notifications)), Self::apply_fn())
                == Ok::<SpecCMsgClientUserNotifications, WireError>(Self::spec_prefix(v, 1)),
    {
        reveal(CMsgClientUserNotifications::spec_prefix);
        reveal(rep_bytes);
        reveal(fields_wf);
        let apply = Self::apply_fn();
        let s = Self::spec_prefix(v, 0);
        let l = rep_bytes(1, crate::steammessages_clientserver_2::c_msg_client_user_notifications::Notification::spec_encode_all(v.notifications));
        let xs = v.notifications;
        let st = Seq::new((xs.len() + 1) as nat, |j: int| SpecCMsgClientUserNotifications { notifications: xs.take(j), ..s });
        assert forall|j: int| 0 <= j < l.len() implies #[trigger] apply(st[j], l[j]) == Ok::<SpecCMsgClientUserNotifications, WireError>(st[j + 1]) by {
            assert(field_wf(l[j]));
            crate::steammessages_clientserver_2::c_msg_client_user_notifications::Notification::lemma_decode_encode(xs[j]);
            assert(xs.take(j).push(xs[j]) =~= xs.take(j + 1));
        }
        lemma_fold_chain(l, st, apply);
        assert(xs.take(0) =~= Seq::<crate::steammessages_clientserver_2::c_msg_client_user_notifications::SpecNotification>::empty());
        assert(xs.take(xs.len() as int) =~= xs);
        assert(st[0] == s);
        assert(st[xs.len() as int] == Self::spec_prefix(v, 1));
    }

    /// Whether this message declares field number `n`.
    pub open spec fn declares(n: u32) -> bool {
        n == 1
    }

    /// A record with a number this message does not declare is passed over: well-formed
    /// bytes decode to the same message with such a record after them as without it.
    pub proof fn lemma_unknown_field(bytes: Seq<u8>, f: SpecField)
        requires
            parse_fields(bytes) is Ok,
            field_wf(f),
            !Self::declares(f.number),
        ensures
            Self::spec_decode(bytes + field_bytes(f)) == Self::spec_decode(bytes),
    {
        reveal(CMsgClientUserNotifications::spec_decode);
        lemma_parse_fields_append(bytes, f);
        let fs = parse_fields(bytes).unwrap();
        let apply = Self::apply_fn();
        lemma_fold_concat(Self::spec_default(), fs, seq![f], apply);
        assert(fs.push(f) =~= fs + seq![f]);
        if let Ok(w) = fold_fields(Self::spec_default(), fs, apply) {
            lemma_fold_single(w, f, apply);
        }
        lemma_merge_run_fold(Self::spec_default(), bytes, apply);
        lemma_merge_run_fold(Self::spec_default(), bytes + field_bytes(f), apply);
    }

    /// Decoding the encoding of a message gives the message back.
    pub proof fn lemma_decode_encode(v: SpecCMsgClientUserNotifications)
        requires
            Self::spec_encode(v).len() <= u64::MAX,
        ensures
            Self::spec_decode(Self::spec_encode(v)) == Ok::<SpecCMsgClientUserNotifications, WireError>(v),
    {
        let apply = Self::apply_fn();
        let d = Self::spec_default();
        let p0 = Seq::<SpecField>::empty();
        let l1 = rep_bytes(1, crate::steammessages_clientserver_2::c_msg_client_user_notifications::Notification::spec_encode_all(v.notifications));
        let p1 = p0 + l1;
        assert(parse_fields(Self::spec_encode(v)) == Ok::<Seq<SpecField>, WireError>(p1) && fields_wf(l1)) by {
            reveal(CMsgClientUserNotifications::spec_encode);
            assert(numbers_ok(p0) && fields_wf(p0)) by {
                reveal(numbers_ok);
                reveal(fields_wf);
            }
            lemma_rep_bytes_numbered(1, crate::steammessages_clientserver_2::c_msg_client_user_notifications::Notification::spec_encode_all(v.notifications));
            lemma_fields_wf_concat(p0, l1);
            assert(p1 == Self::spec_fields(v));
            lemma_fields_wf_from_len(p1);
            lemma_fields_roundtrip(p1);
        }
        assert(Self::spec_prefix(v, 0) == d) by {
            reveal(CMsgClientUserNotifications::spec_prefix);
        }
        lemma_fold_empty(d, apply);
        lemma_fold_concat(d, p0, l1, apply);
        Self::lemma_field_notifications(v);
        assert(Self::spec_prefix(v, 1) == v) by {
            reveal(CMsgClientUserNotifications::spec_prefix);
        }
        lemma_merge_run_fold(d, Self::spec_encode(v), apply);
        assert(Self::spec_decode(Self::spec_encode(v)) == Ok::<SpecCMsgClientUserNotifications, WireError>(v)) by {
            reveal(CMsgClientUserNotifications::spec_decode);
        }
    }
}

/// `CMsgClientCommentNotifications`, as Valve's schema declares it.
#[derive(Debug, Clone, PartialEq)]
pub struct CMsgClientCommentNotifications {
    /// Field 1.
    pub count_new_comments: Option<u32>,
    /// Field 2.
    pub count_new_comments_owner: Option<u32>,
    /// Field 3.
    pub count_new_comments_subscriptions: Option<u32>,
}

/// What a `CMsgClientCommentNotifications` holds, as mathematical values.
#[verifier::ext_equal]
pub struct SpecCMsgClientCommentNotifications {
    pub count_new_comments: Option<u32>,
    pub count_new_comments_owner: Option<u32>,
    pub count_new_comments_subscriptions: Option<u32>,
}

impl View for CMsgClientCommentNotifications {
    type V = SpecCMsgClientCommentNotifications;

    open spec fn view(&self) -> SpecCMsgClientCommentNotifications {
        SpecCMsgClientCommentNotifications {
            count_new_comments: self.count_new_comments,
            count_new_comments_owner: self.count_new_comments_owner,
            count_new_comments_subscriptions: self.count_new_comments_subscriptions,
        }
    }
}

impl Default for CMsgClientCommentNotifications {
    fn default() -> (r: Self)
        ensures
            r@ == CMsgClientCommentNotifications::spec_default(),
    {
        CMsgClientCommentNotifications {
            count_new_comments: None,
            count_new_comments_owner: None,
            count_new_comments_subscriptions: None,
        }
    }
}

impl CMsgClientCommentNotifications {
    pub open spec fn spec_default() -> SpecCMsgClientCommentNotifications {
        SpecCMsgClientCommentNotifications {
            count_new_comments: None,
            count_new_comments_owner: None,
            count_new_comments_subscriptions: None,
        }
    }

    /// The records a `CMsgClientCommentNotifications` is written as, in field order.
    pub open spec fn spec_fields(v: SpecCMsgClientCommentNotifications) -> Seq<SpecField> {
        Seq::<SpecField>::empty()
            + opt_u32(1, v.count_new_comments)
            + opt_u32(2, v.count_new_comments_owner)
            + opt_u32(3, v.count_new_comments_subscriptions)
    }

    #[verifier::opaque]
    pub open spec fn spec_encode(v: SpecCMsgClientCommentNotifications) -> Seq<u8> {
        fields_bytes(Self::spec_fields(v))
    }

    /// What one record does to the message: a declared number sets or extends its
    /// field, any other number is left alone.
    pub open spec fn spec_apply(v: SpecCMsgClientCommentNotifications, f: SpecField) -> Result<SpecCMsgClientCommentNotifications, WireError> {
        match f.number {
            1 => match dec_u32(f.value) {
                Ok(x) => Ok(SpecCMsgClientCommentNotifications { count_new_comments: Some(x), ..v }),
                Err(e) => Err(e),
            },
            2 => match dec_u32(f.value) {
                Ok(x) => Ok(SpecCMsgClientCommentNotifications { count_new_comments_owner: Some(x), ..v }),
                Err(e) => Err(e),
            },
            3 => match dec_u32(f.value) {
                Ok(x) => Ok(SpecCMsgClientCommentNotifications { count_new_comments_subscriptions: Some(x), ..v }),
                Err(e) => Err(e),
            },
            _ => Ok(v),
        }
    }

    pub open spec fn apply_fn() -> spec_fn(SpecCMsgClientCommentNotifications, SpecField) -> Result<SpecCMsgClientCommentNotifications, WireError> {
        |v: SpecCMsgClientCommentNotifications, f: SpecField| Self::spec_apply(v, f)
    }

    /// The message `bytes` makes of `v`: its records applied in order, or the error
    /// that stops the reading.
    pub open spec fn spec_merge(v: SpecCMsgClientCommentNotifications, bytes: Seq<u8>) -> Result<SpecCMsgClientCommentNotifications, WireError> {
        let (w, stop) = merge_run(v, bytes, Self::apply_fn());
        match stop {
            None => Ok(w),
            Some(e) => Err(e),
        }
    }

    #[verifier::opaque]
    pub open spec fn spec_decode(bytes: Seq<u8>) -> Result<SpecCMsgClientCommentNotifications, WireError> {
        Self::spec_merge(Self::spec_default(), bytes)
    }

    /// This message with one record applied to it, or, when the record is refused,
    /// the message unchanged and the reason.
    fn applied(self, f: &Field) -> (r: Result<Self, (Self, WireError)>)
        ensures
            match Self::spec_apply(self@, f@) {
                Ok(v) => r matches Ok(m) && m@ == v,
                Err(e) => r matches Err((m, x)) && x == e && m@ == self@,
            },
    {
        match f.number {
            1 => match read_u32(&f.value) {
                Ok(x) => Ok(Self { count_new_comments: Some(x), ..self }),
                Err(e) => Err((self, e)),
            },
            2 => match read_u32(&f.value) {
                Ok(x) => Ok(Self { count_new_comments_owner: Some(x), ..self }),
                Err(e) => Err((self, e)),
            },
            3 => match read_u32(&f.value) {
                Ok(x) => Ok(Self { count_new_comments_subscriptions: Some(x), ..self }),
                Err(e) => Err((self, e)),
            },
            _ => Ok(self),
        }
    }

    /// Reads the records `bytes` holds into this message, in order. When a record does
    /// not parse or is refused, the reading stops there: the message keeps what the
    /// records before it gave, and the error is returned.
    pub fn merge(&mut self, bytes: &[u8]) -> (r: Result<(), WireError>)
        ensures
            final(self)@ == merge_run(old(self)@, bytes@, Self::apply_fn()).0,
            r == match merge_run(old(self)@, bytes@, Self::apply_fn()).1 {
                None => Ok::<(), WireError>(()),
                Some(e) => Err::<(), WireError>(e),
            },
    {
        let ghost total = merge_run(self@, bytes@, Self::apply_fn());
        let mut cur = Self::default();
        std::mem::swap(&mut cur, self);
        let mut pos: usize = 0;
        assert(bytes@.skip(0) =~= bytes@);
        while pos < bytes.len()
            invariant
                pos <= bytes@.len(),
                total == merge_run(old(self)@, bytes@, Self::apply_fn()),
                merge_run(cur@, bytes@.skip(pos as int), Self::apply_fn()) == total,
            decreases bytes@.len() - pos,
        {
            let ghost s = bytes@.skip(pos as int);
            proof {
                lemma_merge_run_step(cur@, s, Self::apply_fn());
                lemma_parse_field_len(s);
            }
            match read_field(bytes, pos) {
                Ok((f, end)) => {
                    assert(bytes@.skip(end as int) =~= s.skip((end - pos) as int));
                    match cur.applied(&f) {
                        Ok(m) => {
                            cur = m;
                        },
                        Err((m, e)) => {
                            *self = m;
                            return Err(e);
                        },
                    }
                    pos = end;
                },
                Err(e) => {
                    *self = cur;
                    return Err(e);
                },
            }
        }
        assert(bytes@.skip(pos as int) =~= Seq::<u8>::empty());
        proof {
            lemma_merge_run_empty(cur@, Self::apply_fn());
        }
        *self = cur;
        Ok(())
    }

    /// Decodes a message from its encoding.
    pub fn decode(bytes: &[u8]) -> (r: Result<Self, WireError>)
        ensures
            match Self::spec_decode(bytes@) {
                Ok(v) => r matches Ok(m) && m@ == v,
                Err(e) => r matches Err(x) && x == e,
            },
    {
        proof {
            reveal(CMsgClientCommentNotifications::spec_decode);
        }
        let mut m = Self::default();
        match m.merge(bytes) {
            Ok(()) => Ok(m),
            Err(e) => Err(e),
        }
    }

    /// The encoding of this message.
    pub fn encode_to_vec(&self) -> (r: Vec<u8>)
        ensures
            r@ == Self::spec_encode(self@),
    {
        let ghost v = self@;
        let mut out: Vec<u8> = Vec::new();
        let ghost p0 = Seq::<SpecField>::empty();
        put_opt_u32(&mut out, 1, self.count_new_comments);
        let ghost p1 = p0 + opt_u32(1, v.count_new_comments);
        proof {
            lemma_fields_bytes_concat(p0, opt_u32(1, v.count_new_comments));
        }
        put_opt_u32(&mut out, 2, self.count_new_comments_owner);
        let ghost p2 = p1 + opt_u32(2, v.count_new_comments_owner);
        proof {
            lemma_fields_bytes_concat(p1, opt_u32(2, v.count_new_comments_owner));
        }
        put_opt_u32(&mut out, 3, self.count_new_comments_subscriptions);
        let ghost p3 = p2 + opt_u32(3, v.count_new_comments_subscriptions);
        proof {
            lemma_fields_bytes_concat(p2, opt_u32(3, v.count_new_comments_subscriptions));
        }
        proof {
            reveal(CMsgClientCommentNotifications::spec_encode);
        }
        assert(p3 == Self::spec_fields(v));
        out
    }

    /// Appends the encoding of this message to `out`.
    pub fn encode_raw(&self, out: &mut Vec<u8>)
        ensures
            final(out)@ == old(out)@ + Self::spec_encode(self@),
    {
        let mut b = self.encode_to_vec();
        out.append(&mut b);
    }

    /// The first `k` fields of `v`, the others as a fresh message has them.
    #[verifier::opaque]
    pub open spec fn spec_prefix(v: SpecCMsgClientCommentNotifications, k: int) -> SpecCMsgClientCommentNotifications {
        SpecCMsgClientCommentNotifications {
            count_new_comments: if 1 <= k { v.count_new_comments } else { None },
            count_new_comments_owner: if 2 <= k { v.count_new_comments_owner } else { None },
            count_new_comments_subscriptions: if 3 <= k { v.count_new_comments_subscriptions } else { None },
        }
    }

    /// Reading field 1 back, after the fields before it.
    proof fn lemma_field_count_new_comments(v: SpecCMsgClientCommentNotifications)
        ensures
            fold_fields(Self::spec_prefix(v, 0), opt_u32(1, v.count_new_comments), Self::apply_fn())
                == Ok::<SpecCMsgClientCommentNotifications, WireError>(Self::spec_prefix(v, 1)),
    {
        reveal(CMsgClientCommentNotifications::spec_prefix);
        reveal(opt_u32);
        let apply = Self::apply_fn();
        let s = Self::spec_prefix(v, 0);
        lemma_fold_opt(s, 1, match v.count_new_comments { Some(x) => Some(enc_u32(x)), None => None }, apply);
        if let Some(x) = v.count_new_comments {
            lemma_u32_roundtrip(x);
        }
        assert(SpecCMsgClientCommentNotifications { count_new_comments: v.count_new_comments, ..s } == Self::spec_prefix(v, 1));
    }

    /// Reading field 2 back, after the fields before it.
    proof fn lemma_field_count_new_comments_owner(v: SpecCMsgClientCommentNotifications)
        ensures
            fold_fields(Self::spec_prefix(v, 1), opt_u32(2, v.count_new_comments_owner), Self::apply_fn())
                == Ok::<SpecCMsgClientCommentNotifications, WireError>(Self::spec_prefix(v, 2)),
    {
        reveal(CMsgClientCommentNotifications::spec_prefix);
        reveal(opt_u32);
        let apply = Self::apply_fn();
        let s = Self::spec_prefix(v, 1);
        lemma_fold_opt(s, 2, match v.count_new_comments_owner { Some(x) => Some(enc_u32(x)), None => None }, apply);
        if let Some(x) = v.count_new_comments_owner {
            lemma_u32_roundtrip(x);
        }
        assert(SpecCMsgClientCommentNotifications { count_new_comments_owner: v.count_new_comments_owner, ..s } == Self::spec_prefix(v, 2));
    }

    /// Reading field 3 back, after the fields before it.
    proof fn lemma_field_count_new_comments_subscriptions(v: SpecCMsgClientCommentNotifications)
        ensures
            fold_fields(Self::spec_prefix(v, 2), opt_u32(3, v.count_new_comments_subscriptions), Self::apply_fn())
                == Ok::<SpecCMsgClientCommentNotifications, WireError>(Self::spec_prefix(v, 3)),
    {
        reveal(CMsgClientCommentNotifications::spec_prefix);
        reveal(opt_u32);
        let apply = Self::apply_fn();
        let s = Self::spec_prefix(v, 2);
        lemma_fold_opt(s, 3, match v.count_new_comments_subscriptions { Some(x) => Some(enc_u32(x)), None => None }, apply);
        if let Some(x) = v.count_new_comments_subscriptions {
            lemma_u32_roundtrip(x);
        }
        assert(SpecCMsgClientCommentNotifications { count_new_comments_subscriptions: v.count_new_comments_subscriptions, ..s } == Self::spec_prefix(v, 3));
    }

    /// Whether this message declares field number `n`.
    pub open spec fn declares(n: u32) -> bool {
        n == 1 || n == 2 || n == 3
    }

    /// A record with a number this message does not declare is passed over: well-formed
    /// bytes decode to the same message with such a record after them as without it.
    pub proof fn lemma_unknown_field(bytes: Seq<u8>, f: SpecField)
        requires
            parse_fields(bytes) is Ok,
            field_wf(f),
            !Self::declares(f.number),
        ensures
            Self::spec_decode(bytes + field_bytes(f)) == Self::spec_decode(bytes),
    {
        reveal(CMsgClientCommentNotifications::spec_decode);
        lemma_parse_fields_append(bytes, f);
        let fs = parse_fields(bytes).unwrap();
        let apply = Self::apply_fn();
        lemma_fold_concat(Self::spec_default(), fs, seq![f], apply);
        assert(fs.push(f) =~= fs + seq![f]);
        if let Ok(w) = fold_fields(Self::spec_default(), fs, apply) {
            lemma_fold_single(w, f, apply);
        }
        lemma_merge_run_fold(Self::spec_default(), bytes, apply);
        lemma_merge_run_fold(Self::spec_default(), bytes + field_bytes(f), apply);
    }

    /// Decoding the encoding of a message gives the message back.
    pub proof fn lemma_decode_encode(v: SpecCMsgClientCommentNotifications)
        requires
            Self::spec_encode(v).len() <= u64::MAX,
        ensures
            Self::spec_decode(Self::spec_encode(v)) == Ok::<SpecCMsgClientCommentNotifications, WireError>(v),
    {
        let apply = Self::apply_fn();
        let d = Self::spec_default();
        let p0 = Seq::<SpecField>::empty();
        let l1 = opt_u32(1, v.count_new_comments);
        let p1 = p0 + l1;
        let l2 = opt_u32(2, v.count_new_comments_owner);
        let p2 = p1 + l2;
        let l3 = opt_u32(3, v.count_new_comments_subscriptions);
        let p3 = p2 + l3;
        assert(parse_fields(Self::spec_encode(v)) == Ok::<Seq<SpecField>, WireError>(p3)) by {
            reveal(CMsgClientCommentNotifications::spec_encode);
            assert(numbers_ok(p0) && fields_wf(p0)) by {
                reveal(numbers_ok);
                reveal(fields_wf);
            }
            lemma_opt_u32_numbered(1, v.count_new_comments);
            lemma_fields_wf_concat(p0, l1);
            lemma_opt_u32_numbered(2, v.count_new_comments_owner);
            lemma_fields_wf_concat(p1, l2);
            lemma_opt_u32_numbered(3, v.count_new_comments_subscriptions);
            lemma_fields_wf_concat(p2, l3);
            assert(p3 == Self::spec_fields(v));
            lemma_fields_wf_from_len(p3);
            lemma_fields_roundtrip(p3);
        }
        assert(Self::spec_prefix(v, 0) == d) by {
            reveal(CMsgClientCommentNotifications::spec_prefix);
        }
        lemma_fold_empty(d, apply);
        lemma_fold_concat(d, p0, l1, apply);
        Self::lemma_field_count_new_comments(v);
        lemma_fold_concat(d, p1, l2, apply);
        Self::lemma_field_count_new_comments_owner(v);
        lemma_fold_concat(d, p2, l3, apply);
        Self::lemma_field_count_new_comments_subscriptions(v);
        assert(Self::spec_prefix(v, 3) == v) by {
            reveal(CMsgClientCommentNotifications::spec_prefix);
        }
        lemma_merge_run_fold(d, Self::spec_encode(v), apply);
        assert(Self::spec_decode(Self::spec_encode(v)) == Ok::<SpecCMsgClientCommentNotifications, WireError>(v)) by {
            reveal(CMsgClientCommentNotifications::spec_decode);
        }
    }
}

/// `CMsgClientRequestCommentNotifications`, as Valve's schema declares it.
#[derive(Debug, Clone, PartialEq)]
pub struct CMsgClientRequestCommentNotifications {}

/// What a `CMsgClientRequestCommentNotifications` holds, as mathematical values.
#[verifier::ext_equal]
pub struct SpecCMsgClientRequestCommentNotifications {}

impl View for CMsgClientRequestCommentNotifications {
    type V = SpecCMsgClientRequestCommentNotifications;

    open spec fn view(&self) -> SpecCMsgClientRequestCommentNotifications {
        SpecCMsgClientRequestCommentNotifications {}
    }
}

impl Default for CMsgClientRequestCommentNotifications {
    fn default() -> (r: Self)
        ensures
            r@ == CMsgClientRequestCommentNotifications::spec_default(),
    {
        CMsgClientRequestCommentNotifications {}
    }
}

impl CMsgClientRequestCommentNotifications {
    pub open spec fn spec_default() -> SpecCMsgClientRequestCommentNotifications {
        SpecCMsgClientRequestCommentNotifications {}
    }

    /// The records a `CMsgClientRequestCommentNotifications` is written as, in field order.
    pub open spec fn spec_fields(v: SpecCMsgClientRequestCommentNotifications) -> Seq<SpecField> {
        Seq::<SpecField>::empty()
    }

    #[verifier::opaque]
    pub open spec fn spec_encode(v: SpecCMsgClientRequestCommentNotifications) -> Seq<u8> {
        fields_bytes(Self::spec_fields(v))
    }

    /// What one record does to the message: a declared number sets or extends its
    /// field, any other number is left alone.
    pub open spec fn spec_apply(v: SpecCMsgClientRequestCommentNotifications, f: SpecField) -> Result<SpecCMsgClientRequestCommentNotifications, WireError> {
        match f.number {
            _ => Ok(v),
        }
    }

    pub open spec fn apply_fn() -> spec_fn(SpecCMsgClientRequestCommentNotifications, SpecField) -> Result<SpecCMsgClientRequestCommentNotifications, WireError> {
        |v: SpecCMsgClientRequestCommentNotifications, f: SpecField| Self::spec_apply(v, f)
    }

    /// The message `bytes` makes of `v`: its records applied in order, or the error
    /// that stops the reading.
    pub open spec fn spec_merge(v: SpecCMsgClientRequestCommentNotifications, bytes: Seq<u8>) -> Result<SpecCMsgClientRequestCommentNotifications, WireError> {
        let (w, stop) = merge_run(v, bytes, Self::apply_fn());
        match stop {
            None => Ok(w),
            Some(e) => Err(e),
        }
    }

    #[verifier::opaque]
    pub open spec fn spec_decode(bytes: Seq<u8>) -> Result<SpecCMsgClientRequestCommentNotifications, WireError> {
        Self::spec_merge(Self::spec_default(), bytes)
    }

    /// This message with one record applied to it, or, when the record is refused,
    /// the message unchanged and the reason.
    fn applied(self, f: &Field) -> (r: Result<Self, (Self, WireError)>)
        ensures
            match Self::spec_apply(self@, f@) {
                Ok(v) => r matches Ok(m) && m@ == v,
                Err(e) => r matches Err((m, x)) && x == e && m@ == self@,
            },
    {
        match f.number {
            _ => Ok(self),
        }
    }

    /// Reads the records `bytes` holds into this message, in order. When a record does
    /// not parse or is refused, the reading stops there: the message keeps what the
    /// records before it gave, and the error is returned.
    pub fn merge(&mut self, bytes: &[u8]) -> (r: Result<(), WireError>)
        ensures
            final(self)@ == merge_run(old(self)@, bytes@, Self::apply_fn()).0,
            r == match merge_run(old(self)@, bytes@, Self::apply_fn()).1 {
                None => Ok::<(), WireError>(()),
                Some(e) => Err::<(), WireError>(e),
            },
    {
        let ghost total = merge_run(self@, bytes@, Self::apply_fn());
        let mut cur = Self::default();
        std::mem::swap(&mut cur, self);
        let mut pos: usize = 0;
        assert(bytes@.skip(0) =~= bytes@);
        while pos < bytes.len()
            invariant
                pos <= bytes@.len(),
                total == merge_run(old(self)@, bytes@, Self::apply_fn()),
                merge_run(cur@, bytes@.skip(pos as int), Self::apply_fn()) == total,
            decreases bytes@.len() - pos,
        {
            let ghost s = bytes@.skip(pos as int);
            proof {
                lemma_merge_run_step(cur@, s, Self::apply_fn());
                lemma_parse_field_len(s);
            }
            match read_field(bytes, pos) {
                Ok((f, end)) => {
                    assert(bytes@.skip(end as int) =~= s.skip((end - pos) as int));
                    match cur.applied(&f) {
                        Ok(m) => {
                            cur = m;
                        },
                        Err((m, e)) => {
                            *self = m;
                            return Err(e);
                        },
                    }
                    pos = end;
                },
                Err(e) => {
                    *self = cur;
                    return Err(e);
                },
            }
        }
        assert(bytes@.skip(pos as int) =~= Seq::<u8>::empty());
        proof {
            lemma_merge_run_empty(cur@, Self::apply_fn());
        }
        *self = cur;
        Ok(())
    }

    /// Decodes a message from its encoding.
    pub fn decode(bytes: &[u8]) -> (r: Result<Self, WireError>)
        ensures
            match Self::spec_decode(bytes@) {
                Ok(v) => r matches Ok(m) && m@ == v,
                Err(e) => r matches Err(x) && x == e,
            },
    {
        proof {
            reveal(CMsgClientRequestCommentNotifications::spec_decode);
        }
        let mut m = Self::default();
        match m.merge(bytes) {
            Ok(()) => Ok(m),
            Err(e) => Err(e),
        }
    }

    /// The encoding of this message.
    pub fn encode_to_vec(&self) -> (r: Vec<u8>)
        ensures
            r@ == Self::spec_encode(self@),
    {
        let ghost v = self@;
        let mut out: Vec<u8> = Vec::new();
        let ghost p0 = Seq::<SpecField>::empty();
        proof {
            reveal(CMsgClientRequestCommentNotifications::spec_encode);
        }
        assert(p0 == Self::spec_fields(v));
        assert(out@ =~= fields_bytes(p0));
        out
    }

    /// Appends the encoding of this message to `out`.
    pub fn encode_raw(&self, out: &mut Vec<u8>)
        ensures
            final(out)@ == old(out)@ + Self::spec_encode(self@),
    {
        let mut b = self.encode_to_vec();
        out.append(&mut b);
    }

    /// The first `k` fields of `v`, the others as a fresh message has them.
    #[verifier::opaque]
    pub open spec fn spec_prefix(v: SpecCMsgClientRequestCommentNotifications, k: int) -> SpecCMsgClientRequestCommentNotifications {
        SpecCMsgClientRequestCommentNotifications {}
    }

    /// Whether this message declares field number `n`.
    pub open spec fn declares(n: u32) -> bool {
        false
    }

    /// A record with a number this message does not declare is passed over: well-formed
    /// bytes decode to the same message with such a record after them as without it.
    pub proof fn lemma_unknown_field(bytes: Seq<u8>, f: SpecField)
        requires
            parse_fields(bytes) is Ok,
            field_wf(f),
            !Self::declares(f.number),
        ensures
            Self::spec_decode(bytes + field_bytes(f)) == Self::spec_decode(bytes),
    {
        reveal(CMsgClientRequestCommentNotifications::spec_decode);
        lemma_parse_fields_append(bytes, f);
        let fs = parse_fields(bytes).unwrap();
        let apply = Self::apply_fn();
        lemma_fold_concat(Self::spec_default(), fs, seq![f], apply);
        assert(fs.push(f) =~= fs + seq![f]);
        if let Ok(w) = fold_fields(Self::spec_default(), fs, apply) {
            lemma_fold_single(w, f, apply);
        }
        lemma_merge_run_fold(Self::spec_default(), bytes, apply);
        lemma_merge_run_fold(Self::spec_default(), bytes + field_bytes(f), apply);
    }

    /// Decoding the encoding of a message gives the message back.
    pub proof fn lemma_decode_encode(v: SpecCMsgClientRequestCommentNotifications)
        requires
            Self::spec_encode(v).len() <= u64::MAX,
        ensures
            Self::spec_decode(Self::spec_encode(v)) == Ok::<SpecCMsgClientRequestCommentNotifications, WireError>(v),
    {
        let apply = Self::apply_fn();
        let d = Self::spec_default();
        let p0 = Seq::<SpecField>::empty();
        assert(parse_fields(Self::spec_encode(v)) == Ok::<Seq<SpecField>, WireError>(p0)) by {
            reveal(CMsgClientRequestCommentNotifications::spec_encode);
            assert(numbers_ok(p0) && fields_wf(p0)) by {
                reveal(numbers_ok);
                reveal(fields_wf);
            }
            assert(p0 == Self::spec_fields(v));
            lemma_fields_wf_from_len(p0);
            lemma_fields_roundtrip(p0);
        }
        assert(Self::spec_prefix(v, 0) == d) by {
            reveal(CMsgClientRequestCommentNotifications::spec_prefix);
        }
        lemma_fold_empty(d, apply);
        assert(Self::spec_prefix(v, 0) == v) by {
            reveal(CMsgClientRequestCommentNotifications::spec_prefix);
        }
        lemma_merge_run_fold(d, Self::spec_encode(v), apply);
        assert(Self::spec_decode(Self::spec_encode(v)) == Ok::<SpecCMsgClientRequestCommentNotifications, WireError>(v)) by {
            reveal(CMsgClientRequestCommentNotifications::spec_decode);
        }
    }
}

/// `CMsgClientOfflineMessageNotification`, as Valve's schema declares it.
#[derive(Debug, Clone, PartialEq)]
pub struct CMsgClientOfflineMessageNotification {
    /// Field 1.
    pub offline_messages: Option<u32>,
    /// Field 2.
    pub friends_with_offline_messages: Vec<u32>,
}

/// What a `CMsgClientOfflineMessageNotification` holds, as mathematical values.
#[verifier::ext_equal]
pub struct SpecCMsgClientOfflineMessageNotification {
    pub offline_messages: Option<u32>,
    pub friends_with_offline_messages: Seq<u32>,
}

impl View for CMsgClientOfflineMessageNotification {
    type V = SpecCMsgClientOfflineMessageNotification;

    open spec fn view(&self) -> SpecCMsgClientOfflineMessageNotification {
        SpecCMsgClientOfflineMessageNotification {
            offline_messages: self.offline_messages,
            friends_with_offline_messages: self.friends_with_offline_messages@,
        }
    }
}

impl Default for CMsgClientOfflineMessageNotification {
    fn default() -> (r: Self)
        ensures
            r@ == CMsgClientOfflineMessageNotification::spec_default(),
    {
        CMsgClientOfflineMessageNotification {
            offline_messages: None,
            friends_with_offline_messages: Vec::new(),
        }
    }
}

impl CMsgClientOfflineMessageNotification {
    pub open spec fn spec_default() -> SpecCMsgClientOfflineMessageNotification {
        SpecCMsgClientOfflineMessageNotification {
            offline_messages: None,
            friends_with_offline_messages: Seq::empty(),
        }
    }

    /// The records a `CMsgClientOfflineMessageNotification` is written as, in field order.
    pub open spec fn spec_fields(v: SpecCMsgClientOfflineMessageNotification) -> Seq<SpecField> {
        Seq::<SpecField>::empty()
            + opt_u32(1, v.offline_messages)
            + rep_u32(2, v.friends_with_offline_messages)
    }

    #[verifier::opaque]
    pub open spec fn spec_encode(v: SpecCMsgClientOfflineMessageNotification) -> Seq<u8> {
        fields_bytes(Self::spec_fields(v))
    }

    /// What one record does to the message: a declared number sets or extends its
    /// field, any other number is left alone.
    pub open spec fn spec_apply(v: SpecCMsgClientOfflineMessageNotification, f: SpecField) -> Result<SpecCMsgClientOfflineMessageNotification, WireError> {
        match f.number {
            1 => match dec_u32(f.value) {
                Ok(x) => Ok(SpecCMsgClientOfflineMessageNotification { offline_messages: Some(x), ..v }),
                Err(e) => Err(e),
            },
            2 => match dec_packed_u32(f.value) {
                Ok(xs) => Ok(SpecCMsgClientOfflineMessageNotification { friends_with_offline_messages: v.friends_with_offline_messages + xs, ..v }),
                Err(e) => Err(e),
            },
            _ => Ok(v),
        }
    }

    pub open spec fn apply_fn() -> spec_fn(SpecCMsgClientOfflineMessageNotification, SpecField) -> Result<SpecCMsgClientOfflineMessageNotification, WireError> {
        |v: SpecCMsgClientOfflineMessageNotification, f: SpecField| Self::spec_apply(v, f)
    }

    /// The message `bytes` makes of `v`: its records applied in order, or the error
    /// that stops the reading.
    pub open spec fn spec_merge(v: SpecCMsgClientOfflineMessageNotification, bytes: Seq<u8>) -> Result<SpecCMsgClientOfflineMessageNotification, WireError> {
        let (w, stop) = merge_run(v, bytes, Self::apply_fn());
        match stop {
            None => Ok(w),
            Some(e) => Err(e),
        }
    }

    #[verifier::opaque]
    pub open spec fn spec_decode(bytes: Seq<u8>) -> Result<SpecCMsgClientOfflineMessageNotification, WireError> {
        Self::spec_merge(Self::spec_default(), bytes)
    }

    /// This message with one record applied to it, or, when the record is refused,
    /// the message unchanged and the reason.
    fn applied(self, f: &Field) -> (r: Result<Self, (Self, WireError)>)
        ensures
            match Self::spec_apply(self@, f@) {
                Ok(v) => r matches Ok(m) && m@ == v,
                Err(e) => r matches Err((m, x)) && x == e && m@ == self@,
            },
    {
        match f.number {
            1 => match read_u32(&f.value) {
                Ok(x) => Ok(Self { offline_messages: Some(x), ..self }),
                Err(e) => Err((self, e)),
            },
            2 => match read_packed_u32(&f.value) {
                Ok(xs) => {
                    let mut m = self;
                    let mut xs = xs;
                    m.friends_with_offline_messages.append(&mut xs);
                    Ok(m)
                },
                Err(e) => Err((self, e)),
            },
            _ => Ok(self),
        }
    }

    /// Reads the records `bytes` holds into this message, in order. When a record does
    /// not parse or is refused, the reading stops there: the message keeps what the
    /// records before it gave, and the error is returned.
    pub fn merge(&mut self, bytes: &[u8]) -> (r: Result<(), WireError>)
        ensures
            final(self)@ == merge_run(old(self)@, bytes@, Self::apply_fn()).0,
            r == match merge_run(old(self)@, bytes@, Self::apply_fn()).1 {
                None => Ok::<(), WireError>(()),
                Some(e) => Err::<(), WireError>(e),
            },
    {
        let ghost total = merge_run(self@, bytes@, Self::apply_fn());
        let mut cur = Self::default();
        std::mem::swap(&mut cur, self);
        let mut pos: usize = 0;
        assert(bytes@.skip(0) =~= bytes@);
        while pos < bytes.len()
            invariant
                pos <= bytes@.len(),
                total == merge_run(old(self)@, bytes@, Self::apply_fn()),
                merge_run(cur@, bytes@.skip(pos as int), Self::apply_fn()) == total,
            decreases bytes@.len() - pos,
        {
            let ghost s = bytes@.skip(pos as int);
            proof {
                lemma_merge_run_step(cur@, s, Self::apply_fn());
                lemma_parse_field_len(s);
            }
            match read_field(bytes, pos) {
                Ok((f, end)) => {
                    assert(bytes@.skip(end as int) =~= s.skip((end - pos) as int));
                    match cur.applied(&f) {
                        Ok(m) => {
                            cur = m;
                        },
                        Err((m, e)) => {
                            *self = m;
                            return Err(e);
                        },
                    }
                    pos = end;
                },
                Err(e) => {
                    *self = cur;
                    return Err(e);
                },
            }
        }
        assert(bytes@.skip(pos as int) =~= Seq::<u8>::empty());
        proof {
            lemma_merge_run_empty(cur@, Self::apply_fn());
        }
        *self = cur;
        Ok(())
    }

    /// Decodes a message from its encoding.
    pub fn decode(bytes: &[u8]) -> (r: Result<Self, WireError>)
        ensures
            match Self::spec_decode(bytes@) {
                Ok(v) => r matches Ok(m) && m@ == v,
                Err(e) => r matches Err(x) && x == e,
            },
    {
        proof {
            reveal(CMsgClientOfflineMessageNotification::spec_decode);
        }
        let mut m = Self::default();
        match m.merge(bytes) {
            Ok(()) => Ok(m),
            Err(e) => Err(e),
        }
    }

    /// The encoding of this message.
    pub fn encode_to_vec(&self) -> (r: Vec<u8>)
        ensures
            r@ == Self::spec_encode(self@),
    {
        let ghost v = self@;
        let mut out: Vec<u8> = Vec::new();
        let ghost p0 = Seq::<SpecField>::empty();
        put_opt_u32(&mut out, 1, self.offline_messages);
        let ghost p1 = p0 + opt_u32(1, v.offline_messages);
        proof {
            lemma_fields_bytes_concat(p0, opt_u32(1, v.offline_messages));
        }
        put_rep_u32(&mut out, 2, &self.friends_with_offline_messages);
        let ghost p2 = p1 + rep_u32(2, v.friends_with_offline_messages);
        proof {
            lemma_fields_bytes_concat(p1, rep_u32(2, v.friends_with_offline_messages));
        }
        proof {
            reveal(CMsgClientOfflineMessageNotification::spec_encode);
        }
        assert(p2 == Self::spec_fields(v));
        out
    }

    /// Appends the encoding of this message to `out`.
    pub fn encode_raw(&self, out: &mut Vec<u8>)
        ensures
            final(out)@ == old(out)@ + Self::spec_encode(self@),
    {
        let mut b = self.encode_to_vec();
        out.append(&mut b);
    }

    /// The first `k` fields of `v`, the others as a fresh message has them.
    #[verifier::opaque]
    pub open spec fn spec_prefix(v: SpecCMsgClientOfflineMessageNotification, k: int) -> SpecCMsgClientOfflineMessageNotification {
        SpecCMsgClientOfflineMessageNotification {
            offline_messages: if 1 <= k { v.offline_messages } else { None },
            friends_with_offline_messages: if 2 <= k { v.friends_with_offline_messages } else { Seq::empty() },
        }
    }

    /// Reading field 1 back, after the fields before it.
    proof fn lemma_field_offline_messages(v: SpecCMsgClientOfflineMessageNotification)
        ensures
            fold_fields(Self::spec_prefix(v, 0), opt_u32(1, v.offline_messages), Self::apply_fn())
                == Ok::<SpecCMsgClientOfflineMessageNotification, WireError>(Self::spec_prefix(v, 1)),
    {
        reveal(CMsgClientOfflineMessageNotification::spec_prefix);
        reveal(opt_u32);
        let apply = Self::apply_fn();
        let s = Self::spec_prefix(v, 0);
        lemma_fold_opt(s, 1, match v.offline_messages { Some(x) => Some(enc_u32(x)), None => None }, apply);
        if let Some(x) = v.offline_messages {
            lemma_u32_roundtrip(x);
        }
        assert(SpecCMsgClientOfflineMessageNotification { offline_messages: v.offline_messages, ..s } == Self::spec_prefix(v, 1));
    }

    /// Reading field 2 back, after the fields before it.
    proof fn lemma_field_friends_with_offline_messages(v: SpecCMsgClientOfflineMessageNotification)
        ensures
            fold_fields(Self::spec_prefix(v, 1), rep_u32(2, v.friends_with_offline_messages), Self::apply_fn())
                == Ok::<SpecCMsgClientOfflineMessageNotification, WireError>(Self::spec_prefix(v, 2)),
    {
        reveal(CMsgClientOfflineMessageNotification::spec_prefix);
        reveal(rep_u32);
        let apply = Self::apply_fn();
        let s = Self::spec_prefix(v, 1);
        let l = rep_u32(2, v.friends_with_offline_messages);
        let xs = v.friends_with_offline_messages;
        let st = Seq::new((xs.len() + 1) as nat, |j: int| SpecCMsgClientOfflineMessageNotification { friends_with_offline_messages: xs.take(j), ..s });
        assert forall|j: int| 0 <= j < l.len() implies #[trigger] apply(st[j], l[j]) == Ok::<SpecCMsgClientOfflineMessageNotification, WireError>(st[j + 1]) by {
            lemma_u32_roundtrip(xs[j]);
            assert(xs.take(j) + seq![xs[j]] =~= xs.take(j + 1));
        }
        lemma_fold_chain(l, st, apply);
        assert(xs.take(0) =~= Seq::<u32>::empty());
        assert(xs.take(xs.len() as int) =~= xs);
        assert(st[0] == s);
        assert(st[xs.len() as int] == Self::spec_prefix(v, 2));
    }

    /// Whether this message declares field number `n`.
    pub open spec fn declares(n: u32) -> bool {
        n == 1 || n == 2
    }

    /// A record with a number this message does not declare is passed over: well-formed
    /// bytes decode to the same message with such a record after them as without it.
    pub proof fn lemma_unknown_field(bytes: Seq<u8>, f: SpecField)
        requires
            parse_fields(bytes) is Ok,
            field_wf(f),
            !Self::declares(f.number),
        ensures
            Self::spec_decode(bytes + field_bytes(f)) == Self::spec_decode(bytes),
    {
        reveal(CMsgClientOfflineMessageNotification::spec_decode);
        lemma_parse_fields_append(bytes, f);
        let fs = parse_fields(bytes).unwrap();
        let apply = Self::apply_fn();
        lemma_fold_concat(Self::spec_default(), fs, seq![f], apply);
        assert(fs.push(f) =~= fs + seq![f]);
        if let Ok(w) = fold_fields(Self::spec_default(), fs, apply) {
            lemma_fold_single(w, f, apply);
        }
        lemma_merge_run_fold(Self::spec_default(), bytes, apply);
        lemma_merge_run_fold(Self::spec_default(), bytes + field_bytes(f), apply);
    }

    /// Decoding the encoding of a message gives the message back.
    pub proof fn lemma_decode_encode(v: SpecCMsgClientOfflineMessageNotification)
        requires
            Self::spec_encode(v).len() <= u64::MAX,
        ensures
            Self::spec_decode(Self::spec_encode(v)) == Ok::<SpecCMsgClientOfflineMessageNotification, WireError>(v),
    {
        let apply = Self::apply_fn();
        let d = Self::spec_default();
        let p0 = Seq::<SpecField>::empty();
        let l1 = opt_u32(1, v.offline_messages);
        let p1 = p0 + l1;
        let l2 = rep_u32(2, v.friends_with_offline_messages);
        let p2 = p1 + l2;
        assert(parse_fields(Self::spec_encode(v)) == Ok::<Seq<SpecField>, WireError>(p2)) by {
            reveal(CMsgClientOfflineMessageNotification::spec_encode);
            assert(numbers_ok(p0) && fields_wf(p0)) by {
                reveal(numbers_ok);
                reveal(fields_wf);
            }
            lemma_opt_u32_numbered(1, v.offline_messages);
            lemma_fields_wf_concat(p0, l1);
            lemma_rep_u32_numbered(2, v.friends_with_offline_messages);
            lemma_fields_wf_concat(p1, l2);
            assert(p2 == Self::spec_fields(v));
            lemma_fields_wf_from_len(p2);
            lemma_fields_roundtrip(p2);
        }
        assert(Self::spec_prefix(v, 0) == d) by {
            reveal(CMsgClientOfflineMessageNotification::spec_prefix);
        }
        lemma_fold_empty(d, apply);
        lemma_fold_concat(d, p0, l1, apply);
        Self::lemma_field_offline_messages(v);
        lemma_fold_concat(d, p1, l2, apply);
        Self::lemma_field_friends_with_offline_messages(v);
        assert(Self::spec_prefix(v, 2) == v) by {
            reveal(CMsgClientOfflineMessageNotification::spec_prefix);
        }
        lemma_merge_run_fold(d, Self::spec_encode(v), apply);
        assert(Self::spec_decode(Self::spec_encode(v)) == Ok::<SpecCMsgClientOfflineMessageNotification, WireError>(v)) by {
            reveal(CMsgClientOfflineMessageNotification::spec_decode);
        }
    }
}

/// `CMsgClientRequestOfflineMessageCount`, as Valve's schema declares it.
#[derive(Debug, Clone, PartialEq)]
pub struct CMsgClientRequestOfflineMessageCount {}

/// What a `CMsgClientRequestOfflineMessageCount` holds, as mathematical values.
#[verifier::ext_equal]
pub struct SpecCMsgClientRequestOfflineMessageCount {}

impl View for CMsgClientRequestOfflineMessageCount {
    type V = SpecCMsgClientRequestOfflineMessageCount;

    open spec fn view(&self) -> SpecCMsgClientRequestOfflineMessageCount {
        SpecCMsgClientRequestOfflineMessageCount {}
    }
}

impl Default for CMsgClientRequestOfflineMessageCount {
    fn default() -> (r: Self)
        ensures
            r@ == CMsgClientRequestOfflineMessageCount::spec_default(),
    {
        CMsgClientRequestOfflineMessageCount {}
    }
}

impl CMsgClientRequestOfflineMessageCount {
    pub open spec fn spec_default() -> SpecCMsgClientRequestOfflineMessageCount {
        SpecCMsgClientRequestOfflineMessageCount {}
    }

    /// The records a `CMsgClientRequestOfflineMessageCount` is written as, in field order.
    pub open spec fn spec_fields(v: SpecCMsgClientRequestOfflineMessageCount) -> Seq<SpecField> {
        Seq::<SpecField>::empty()
    }

    #[verifier::opaque]
    pub open spec fn spec_encode(v: SpecCMsgClientRequestOfflineMessageCount) -> Seq<u8> {
        fields_bytes(Self::spec_fields(v))
    }

    /// What one record does to the message: a declared number sets or extends its
    /// field, any other number is left alone.
    pub open spec fn spec_apply(v: SpecCMsgClientRequestOfflineMessageCount, f: SpecField) -> Result<SpecCMsgClientRequestOfflineMessageCount, WireError> {
        match f.number {
            _ => Ok(v),
        }
    }

    pub open spec fn apply_fn() -> spec_fn(SpecCMsgClientRequestOfflineMessageCount, SpecField) -> Result<SpecCMsgClientRequestOfflineMessageCount, WireError> {
        |v: SpecCMsgClientRequestOfflineMessageCount, f: SpecField| Self::spec_apply(v, f)
    }

    /// The message `bytes` makes of `v`: its records applied in order, or the error
    /// that stops the reading.
    pub open spec fn spec_merge(v: SpecCMsgClientRequestOfflineMessageCount, bytes: Seq<u8>) -> Result<SpecCMsgClientRequestOfflineMessageCount, WireError> {
        let (w, stop) = merge_run(v, bytes, Self::apply_fn());
        match stop {
            None => Ok(w),
            Some(e) => Err(e),
        }
    }

    #[verifier::opaque]
    pub open spec fn spec_decode(bytes: Seq<u8>) -> Result<SpecCMsgClientRequestOfflineMessageCount, WireError> {
        Self::spec_merge(Self::spec_default(), bytes)
    }

    /// This message with one record applied to it, or, when the record is refused,
    /// the message unchanged and the reason.
    fn applied(self, f: &Field) -> (r: Result<Self, (Self, WireError)>)
        ensures
            match Self::spec_apply(self@, f@) {
                Ok(v) => r matches Ok(m) && m@ == v,
                Err(e) => r matches Err((m, x)) && x == e && m@ == self@,
            },
    {
        match f.number {
            _ => Ok(self),
        }
    }

    /// Reads the records `bytes` holds into this message, in order. When a record does
    /// not parse or is refused, the reading stops there: the message keeps what the
    /// records before it gave, and the error is returned.
    pub fn merge(&mut self, bytes: &[u8]) -> (r: Result<(), WireError>)
        ensures
            final(self)@ == merge_run(old(self)@, bytes@, Self::apply_fn()).0,
            r == match merge_run(old(self)@, bytes@, Self::apply_fn()).1 {
                None => Ok::<(), WireError>(()),
                Some(e) => Err::<(), WireError>(e),
            },
    {
        let ghost total = merge_run(self@, bytes@, Self::apply_fn());
        let mut cur = Self::default();
        std::mem::swap(&mut cur, self);
        let mut pos: usize = 0;
        assert(bytes@.skip(0) =~= bytes@);
        while pos < bytes.len()
            invariant
                pos <= bytes@.len(),
                total == merge_run(old(self)@, bytes@, Self::apply_fn()),
                merge_run(cur@, bytes@.skip(pos as int), Self::apply_fn()) == total,
            decreases bytes@.len() - pos,
        {
            let ghost s = bytes@.skip(pos as int);
            proof {
                lemma_merge_run_step(cur@, s, Self::apply_fn());
                lemma_parse_field_len(s);
            }
            match read_field(bytes, pos) {
                Ok((f, end)) => {
                    assert(bytes@.skip(end as int) =~= s.skip((end - pos) as int));
                    match cur.applied(&f) {
                        Ok(m) => {
                            cur = m;
                        },
                        Err((m, e)) => {
                            *self = m;
                            return Err(e);
                        },
                    }
                    pos = end;
                },
                Err(e) => {
                    *self = cur;
                    return Err(e);
                },
            }
        }
        assert(bytes@.skip(pos as int) =~= Seq::<u8>::empty());
        proof {
            lemma_merge_run_empty(cur@, Self::apply_fn());
        }
        *self = cur;
        Ok(())
    }

    /// Decodes a message from its encoding.
    pub fn decode(bytes: &[u8]) -> (r: Result<Self, WireError>)
        ensures
            match Self::spec_decode(bytes@) {
                Ok(v) => r matches Ok(m) && m@ == v,
                Err(e) => r matches Err(x) && x == e,
            },
    {
        proof {
            reveal(CMsgClientRequestOfflineMessageCount::spec_decode);
        }
        let mut m = Self::default();
        match m.merge(bytes) {
            Ok(()) => Ok(m),
            Err(e) => Err(e),
        }
    }

    /// The encoding of this message.
    pub fn encode_to_vec(&self) -> (r: Vec<u8>)
        ensures
            r@ == Self::spec_encode(self@),
    {
        let ghost v = self@;
        let mut out: Vec<u8> = Vec::new();
        let ghost p0 = Seq::<SpecField>::empty();
        proof {
            reveal(CMsgClientRequestOfflineMessageCount::spec_encode);
        }
        assert(p0 == Self::spec_fields(v));
        assert(out@ =~= fields_bytes(p0));
        out
    }

    /// Appends the encoding of this message to `out`.
    pub fn encode_raw(&self, out: &mut Vec<u8>)
        ensures
            final(out)@ == old(out)@ + Self::spec_encode(self@),
    {
        let mut b = self.encode_to_vec();
        out.append(&mut b);
    }

    /// The first `k` fields of `v`, the others as a fresh message has them.
    #[verifier::opaque]
    pub open spec fn spec_prefix(v: SpecCMsgClientRequestOfflineMessageCount, k: int) -> SpecCMsgClientRequestOfflineMessageCount {
        SpecCMsgClientRequestOfflineMessageCount {}
    }

    /// Whether this message declares field number `n`.
    pub open spec fn declares(n: u32) -> bool {
        false
    }

    /// A record with a number this message does not declare is passed over: well-formed
    /// bytes decode to the same message with such a record after them as without it.
    pub proof fn lemma_unknown_field(bytes: Seq<u8>, f: SpecField)
        requires
            parse_fields(bytes) is Ok,
            field_wf(f),
            !Self::declares(f.number),
        ensures
            Self::spec_decode(bytes + field_bytes(f)) == Self::spec_decode(bytes),
    {
        reveal(CMsgClientRequestOfflineMessageCount::spec_decode);
        lemma_parse_fields_append(bytes, f);
        let fs = parse_fields(bytes).unwrap();
        let apply = Self::apply_fn();
        lemma_fold_concat(Self::spec_default(), fs, seq![f], apply);
        assert(fs.push(f) =~= fs + seq![f]);
        if let Ok(w) = fold_fields(Self::spec_default(), fs, apply) {
            lemma_fold_single(w, f, apply);
        }
        lemma_merge_run_fold(Self::spec_default(), bytes, apply);
        lemma_merge_run_fold(Self::spec_default(), bytes + field_bytes(f), apply);
    }

    /// Decoding the encoding of a message gives the message back.
    pub proof fn lemma_decode_encode(v: SpecCMsgClientRequestOfflineMessageCount)
        requires
            Self::spec_encode(v).len() <= u64::MAX,
        ensures
            Self::spec_decode(Self::spec_encode(v)) == Ok::<SpecCMsgClientRequestOfflineMessageCount, WireError>(v),
    {
        let apply = Self::apply_fn();
        let d = Self::spec_default();
        let p0 = Seq::<SpecField>::empty();
        assert(parse_fields(Self::spec_encode(v)) == Ok::<Seq<SpecField>, WireError>(p0)) by {
            reveal(CMsgClientRequestOfflineMessageCount::spec_encode);
            assert(numbers_ok(p0) && fields_wf(p0)) by {
                reveal(numbers_ok);
                reveal(fields_wf);
            }
            assert(p0 == Self::spec_fields(v));
            lemma_fields_wf_from_len(p0);
            lemma_fields_roundtrip(p0);
        }
        assert(Self::spec_prefix(v, 0) == d) by {
            reveal(CMsgClientRequestOfflineMessageCount::spec_prefix);
        }
        lemma_fold_empty(d, apply);
        assert(Self::spec_prefix(v, 0) == v) by {
            reveal(CMsgClientRequestOfflineMessageCount::spec_prefix);
        }
        lemma_merge_run_fold(d, Self::spec_encode(v), apply);
        assert(Self::spec_decode(Self::spec_encode(v)) == Ok::<SpecCMsgClientRequestOfflineMessageCount, WireError>(v)) by {
            reveal(CMsgClientRequestOfflineMessageCount::spec_decode);
        }
    }
}

/// `CMsgClientChatGetFriendMessageHistory`, as Valve's schema declares it.
#[derive(Debug, Clone, PartialEq)]
pub struct CMsgClientChatGetFriendMessageHistory {
    /// Field 1.
    pub steamid: Option<u64>,
}

/// What a `CMsgClientChatGetFriendMessageHistory` holds, as mathematical values.
#[verifier::ext_equal]
pub struct SpecCMsgClientChatGetFriendMessageHistory {
    pub steamid: Option<u64>,
}

impl View for CMsgClientChatGetFriendMessageHistory {
    type V = SpecCMsgClientChatGetFriendMessageHistory;

    open spec fn view(&self) -> SpecCMsgClientChatGetFriendMessageHistory {
        SpecCMsgClientChatGetFriendMessageHistory {
            steamid: self.steamid,
        }
    }
}

impl Default for CMsgClientChatGetFriendMessageHistory {
    fn default() -> (r: Self)
        ensures
            r@ == CMsgClientChatGetFriendMessageHistory::spec_default(),
    {
        CMsgClientChatGetFriendMessageHistory {
            steamid: None,
        }
    }
}

impl CMsgClientChatGetFriendMessageHistory {
    pub open spec fn spec_default() -> SpecCMsgClientChatGetFriendMessageHistory {
        SpecCMsgClientChatGetFriendMessageHistory {
            steamid: None,
        }
    }

    /// The records a `CMsgClientChatGetFriendMessageHistory` is written as, in field order.
    pub open spec fn spec_fields(v: SpecCMsgClientChatGetFriendMessageHistory) -> Seq<SpecField> {
        Seq::<SpecField>::empty()
            + opt_fixed64(1, v.steamid)
    }

    #[verifier::opaque]
    pub open spec fn spec_encode(v: SpecCMsgClientChatGetFriendMessageHistory) -> Seq<u8> {
        fields_bytes(Self::spec_fields(v))
    }

    /// What one record does to the message: a declared number sets or extends its
    /// field, any other number is left alone.
    pub open spec fn spec_apply(v: SpecCMsgClientChatGetFriendMessageHistory, f: SpecField) -> Result<SpecCMsgClientChatGetFriendMessageHistory, WireError> {
        match f.number {
            1 => match dec_fixed64(f.value) {
                Ok(x) => Ok(SpecCMsgClientChatGetFriendMessageHistory { steamid: Some(x), ..v }),
                Err(e) => Err(e),
            },
            _ => Ok(v),
        }
    }

    pub open spec fn apply_fn() -> spec_fn(SpecCMsgClientChatGetFriendMessageHistory, SpecField) -> Result<SpecCMsgClientChatGetFriendMessageHistory, WireError> {
        |v: SpecCMsgClientChatGetFriendMessageHistory, f: SpecField| Self::spec_apply(v, f)
    }

    /// The message `bytes` makes of `v`: its records applied in order, or the error
    /// that stops the reading.
    pub open spec fn spec_merge(v: SpecCMsgClientChatGetFriendMessageHistory, bytes: Seq<u8>) -> Result<SpecCMsgClientChatGetFriendMessageHistory, WireError> {
        let (w, stop) = merge_run(v, bytes, Self::apply_fn());
        match stop {
            None => Ok(w),
            Some(e) => Err(e),
        }
    }

    #[verifier::opaque]
    pub open spec fn spec_decode(bytes: Seq<u8>) -> Result<SpecCMsgClientChatGetFriendMessageHistory, WireError> {
        Self::spec_merge(Self::spec_default(), bytes)
    }

    /// This message with one record applied to it, or, when the record is refused,
    /// the message unchanged and the reason.
    fn applied(self, f: &Field) -> (r: Result<Self, (Self, WireError)>)
        ensures
            match Self::spec_apply(self@, f@) {
                Ok(v) => r matches Ok(m) && m@ == v,
                Err(e) => r matches Err((m, x)) && x == e && m@ == self@,
            },
    {
        match f.number {
            1 => match read_fixed64(&f.value) {
                Ok(x) => Ok(Self { steamid: Some(x), ..self }),
                Err(e) => Err((self, e)),
            },
            _ => Ok(self),
        }
    }

    /// Reads the records `bytes` holds into this message, in order. When a record does
    /// not parse or is refused, the reading stops there: the message keeps what the
    /// records before it gave, and the error is returned.
    pub fn merge(&mut self, bytes: &[u8]) -> (r: Result<(), WireError>)
        ensures
            final(self)@ == merge_run(old(self)@, bytes@, Self::apply_fn()).0,
            r == match merge_run(old(self)@, bytes@, Self::apply_fn()).1 {
                None => Ok::<(), WireError>(()),
                Some(e) => Err::<(), WireError>(e),
            },
    {
        let ghost total = merge_run(self@, bytes@, Self::apply_fn());
        let mut cur = Self::default();
        std::mem::swap(&mut cur, self);
        let mut pos: usize = 0;
        assert(bytes@.skip(0) =~= bytes@);
        while pos < bytes.len()
            invariant
                pos <= bytes@.len(),
                total == merge_run(old(self)@, bytes@, Self::apply_fn()),
                merge_run(cur@, bytes@.skip(pos as int), Self::apply_fn()) == total,
            decreases bytes@.len() - pos,
        {
            let ghost s = bytes@.skip(pos as int);
            proof {
                lemma_merge_run_step(cur@, s, Self::apply_fn());
                lemma_parse_field_len(s);
            }
            match read_field(bytes, pos) {
                Ok((f, end)) => {
                    assert(bytes@.skip(end as int) =~= s.skip((end - pos) as int));
                    match cur.applied(&f) {
                        Ok(m) => {
                            cur = m;
                        },
                        Err((m, e)) => {
                            *self = m;
                            return Err(e);
                        },
                    }
                    pos = end;
                },
                Err(e) => {
                    *self = cur;
                    return Err(e);
                },
            }
        }
        assert(bytes@.skip(pos as int) =~= Seq::<u8>::empty());
        proof {
            lemma_merge_run_empty(cur@, Self::apply_fn());
        }
        *self = cur;
        Ok(())
    }

    /// Decodes a message from its encoding.
    pub fn decode(bytes: &[u8]) -> (r: Result<Self, WireError>)
        ensures
            match Self::spec_decode(bytes@) {
                Ok(v) => r matches Ok(m) && m@ == v,
                Err(e) => r matches Err(x) && x == e,
            },
    {
        proof {
            reveal(CMsgClientChatGetFriendMessageHistory::spec_decode);
        }
        let mut m = Self::default();
        match m.merge(bytes) {
            Ok(()) => Ok(m),
            Err(e) => Err(e),
        }
    }

    /// The encoding of this message.
    pub fn encode_to_vec(&self) -> (r: Vec<u8>)
        ensures
            r@ == Self::spec_encode(self@),
    {
        let ghost v = self@;
        let mut out: Vec<u8> = Vec::new();
        let ghost p0 = Seq::<SpecField>::empty();
        put_opt_fixed64(&mut out, 1, self.steamid);
        let ghost p1 = p0 + opt_fixed64(1, v.steamid);
        proof {
            lemma_fields_bytes_concat(p0, opt_fixed64(1, v.steamid));
        }
        proof {
            reveal(CMsgClientChatGetFriendMessageHistory::spec_encode);
        }
        assert(p1 == Self::spec_fields(v));
        out
    }

    /// Appends the encoding of this message to `out`.
    pub fn encode_raw(&self, out: &mut Vec<u8>)
        ensures
            final(out)@ == old(out)@ + Self::spec_encode(self@),
    {
        let mut b = self.encode_to_vec();
        out.append(&mut b);
    }

    /// The first `k` fields of `v`, the others as a fresh message has them.
    #[verifier::opaque]
    pub open spec fn spec_prefix(v: SpecCMsgClientChatGetFriendMessageHistory, k: int) -> SpecCMsgClientChatGetFriendMessageHistory {
        SpecCMsgClientChatGetFriendMessageHistory {
            steamid: if 1 <= k { v.steamid } else { None },
        }
    }

    /// Reading field 1 back, after the fields before it.
    proof fn lemma_field_steamid(v: SpecCMsgClientChatGetFriendMessageHistory)
        ensures
            fold_fields(Self::spec_prefix(v, 0), opt_fixed64(1, v.steamid), Self::apply_fn())
                == Ok::<SpecCMsgClientChatGetFriendMessageHistory, WireError>(Self::spec_prefix(v, 1)),
    {
        reveal(CMsgClientChatGetFriendMessageHistory::spec_prefix);
        reveal(opt_fixed64);
        let apply = Self::apply_fn();
        let s = Self::spec_prefix(v, 0);
        lemma_fold_opt(s, 1, match v.steamid { Some(x) => Some(enc_fixed64(x)), None => None }, apply);
        if let Some(x) = v.steamid {
            lemma_u64_roundtrip(x);
        }
        assert(SpecCMsgClientChatGetFriendMessageHistory { steamid: v.steamid, ..s } == Self::spec_prefix(v, 1));
    }

    /// Whether this message declares field number `n`.
    pub open spec fn declares(n: u32) -> bool {
        n == 1
    }

    /// A record with a number this message does not declare is passed over: well-formed
    /// bytes decode to the same message with such a record after them as without it.
    pub proof fn lemma_unknown_field(bytes: Seq<u8>, f: SpecField)
        requires
            parse_fields(bytes) is Ok,
            field_wf(f),
            !Self::declares(f.number),
        ensures
            Self::spec_decode(bytes + field_bytes(f)) == Self::spec_decode(bytes),
    {
        reveal(CMsgClientChatGetFriendMessageHistory::spec_decode);
        lemma_parse_fields_append(bytes, f);
        let fs = parse_fields(bytes).unwrap();
        let apply = Self::apply_fn();
        lemma_fold_concat(Self::spec_default(), fs, seq![f], apply);
        assert(fs.push(f) =~= fs + seq![f]);
        if let Ok(w) = fold_fields(Self::spec_default(), fs, apply) {
            lemma_fold_single(w, f, apply);
        }
        lemma_merge_run_fold(Self::spec_default(), bytes, apply);
        lemma_merge_run_fold(Self::spec_default(), bytes + field_bytes(f), apply);
    }

    /// Decoding the encoding of a message gives the message back.
    pub proof fn lemma_decode_encode(v: SpecCMsgClientChatGetFriendMessageHistory)
        requires
            Self::spec_encode(v).len() <= u64::MAX,
        ensures
            Self::spec_decode(Self::spec_encode(v)) == Ok::<SpecCMsgClientChatGetFriendMessageHistory, WireError>(v),
    {
        let apply = Self::apply_fn();
        let d = Self::spec_default();
        let p0 = Seq::<SpecField>::empty();
        let l1 = opt_fixed64(1, v.steamid);
        let p1 = p0 + l1;
        assert(parse_fields(Self::spec_encode(v)) == Ok::<Seq<SpecField>, WireError>(p1)) by {
            reveal(CMsgClientChatGetFriendMessageHistory::spec_encode);
            assert(numbers_ok(p0) && fields_wf(p0)) by {
                reveal(numbers_ok);
                reveal(fields_wf);
            }
            lemma_opt_fixed64_numbered(1, v.steamid);
            lemma_fields_wf_concat(p0, l1);
            assert(p1 == Self::spec_fields(v));
            lemma_fields_wf_from_len(p1);
            lemma_fields_roundtrip(p1);
        }
        assert(Self::spec_prefix(v, 0) == d) by {
            reveal(CMsgClientChatGetFriendMessageHistory::spec_prefix);
        }
        lemma_fold_empty(d, apply);
        lemma_fold_concat(d, p0, l1, apply);
        Self::lemma_field_steamid(v);
        assert(Self::spec_prefix(v, 1) == v) by {
            reveal(CMsgClientChatGetFriendMessageHistory::spec_prefix);
        }
        lemma_merge_run_fold(d, Self::spec_encode(v), apply);
        assert(Self::spec_decode(Self::spec_encode(v)) == Ok::<SpecCMsgClientChatGetFriendMessageHistory, WireError>(v)) by {
            reveal(CMsgClientChatGetFriendMessageHistory::spec_decode);
        }
    }
}

/// `CMsgClientChatGetFriendMessageHistoryResponse`, as Valve's schema declares it.
#[derive(Debug, Clone, PartialEq)]
pub struct CMsgClientChatGetFriendMessageHistoryResponse {
    /// Field 1.
    pub steamid: Option<u64>,
    /// Field 2.
    pub success: Option<u32>,
    /// Field 3.
    pub messages: Vec<crate::steammessages_clientserver_2::c_msg_client_chat_get_friend_message_history_response::FriendMessage>,
}

/// What a `CMsgClientChatGetFriendMessageHistoryResponse` holds, as mathematical values.
#[verifier::ext_equal]
pub struct SpecCMsgClientChatGetFriendMessageHistoryResponse {
    pub steamid: Option<u64>,
    pub success: Option<u32>,
    pub messages: Seq<crate::steammessages_clientserver_2::c_msg_client_chat_get_friend_message_history_response::SpecFriendMessage>,
}

impl View for CMsgClientChatGetFriendMessageHistoryResponse {
    type V = SpecCMsgClientChatGetFriendMessageHistoryResponse;

    open spec fn view(&self) -> SpecCMsgClientChatGetFriendMessageHistoryResponse {
        SpecCMsgClientChatGetFriendMessageHistoryResponse {
            steamid: self.steamid,
            success: self.success,
            messages: crate::steammessages_clientserver_2::c_msg_client_chat_get_friend_message_history_response::FriendMessage::view_all(self.messages@),
        }
    }
}

impl Default for CMsgClientChatGetFriendMessageHistoryResponse {
    fn default() -> (r: Self)
        ensures
            r@ == CMsgClientChatGetFriendMessageHistoryResponse::spec_default(),
    {
        CMsgClientChatGetFriendMessageHistoryResponse {
            steamid: None,
            success: None,
            messages: Vec::new(),
        }
    }
}

impl CMsgClientChatGetFriendMessageHistoryResponse {
    pub open spec fn spec_default() -> SpecCMsgClientChatGetFriendMessageHistoryResponse {
        SpecCMsgClientChatGetFriendMessageHistoryResponse {
            steamid: None,
            success: None,
            messages: Seq::empty(),
        }
    }

    /// The records a `CMsgClientChatGetFriendMessageHistoryResponse` is written as, in field order.
    pub open spec fn spec_fields(v: SpecCMsgClientChatGetFriendMessageHistoryResponse) -> Seq<SpecField> {
        Seq::<SpecField>::empty()
            + opt_fixed64(1, v.steamid)
            + opt_u32(2, v.success)
            + rep_bytes(3, crate::steammessages_clientserver_2::c_msg_client_chat_get_friend_message_history_response::FriendMessage::spec_encode_all(v.messages))
    }

    #[verifier::opaque]
    pub open spec fn spec_encode(v: SpecCMsgClientChatGetFriendMessageHistoryResponse) -> Seq<u8> {
        fields_bytes(Self::spec_fields(v))
    }

    /// What one record does to the message: a declared number sets or extends its
    /// field, any other number is left alone.
    pub open spec fn spec_apply(v: SpecCMsgClientChatGetFriendMessageHistoryResponse, f: SpecField) -> Result<SpecCMsgClientChatGetFriendMessageHistoryResponse, WireError> {
        match f.number {
            1 => match dec_fixed64(f.value) {
                Ok(x) => Ok(SpecCMsgClientChatGetFriendMessageHistoryResponse { steamid: Some(x), ..v }),
                Err(e) => Err(e),
            },
            2 => match dec_u32(f.value) {
                Ok(x) => Ok(SpecCMsgClientChatGetFriendMessageHistoryResponse { success: Some(x), ..v }),
                Err(e) => Err(e),
            },
            3 => match dec_bytes(f.value) {
                Ok(b) => match crate::steammessages_clientserver_2::c_msg_client_chat_get_friend_message_history_response::FriendMessage::spec_decode(b) {
                    Ok(m) => Ok(SpecCMsgClientChatGetFriendMessageHistoryResponse { messages: v.messages.push(m), ..v }),
                    Err(e) => Err(e),
                },
                Err(e) => Err(e),
            },
            _ => Ok(v),
        }
    }

    pub open spec fn apply_fn() -> spec_fn(SpecCMsgClientChatGetFriendMessageHistoryResponse, SpecField) -> Result<SpecCMsgClientChatGetFriendMessageHistoryResponse, WireError> {
        |v: SpecCMsgClientChatGetFriendMessageHistoryResponse, f: SpecField| Self::spec_apply(v, f)
    }

    /// The message `bytes` makes of `v`: its records applied in order, or the error
    /// that stops the reading.
    pub open spec fn spec_merge(v: SpecCMsgClientChatGetFriendMessageHistoryResponse, bytes: Seq<u8>) -> Result<SpecCMsgClientChatGetFriendMessageHistoryResponse, WireError> {
        let (w, stop) = merge_run(v, bytes, Self::apply_fn());
        match stop {
            None => Ok(w),
            Some(e) => Err(e),
        }
    }

    #[verifier::opaque]
    pub open spec fn spec_decode(bytes: Seq<u8>) -> Result<SpecCMsgClientChatGetFriendMessageHistoryResponse, WireError> {
        Self::spec_merge(Self::spec_default(), bytes)
    }

    /// This message with one record applied to it, or, when the record is refused,
    /// the message unchanged and the reason.
    fn applied(self, f: &Field) -> (r: Result<Self, (Self, WireError)>)
        ensures
            match Self::spec_apply(self@, f@) {
                Ok(v) => r matches Ok(m) && m@ == v,
                Err(e) => r matches Err((m, x)) && x == e && m@ == self@,
            },
    {
        match f.number {
            1 => match read_fixed64(&f.value) {
                Ok(x) => Ok(Self { steamid: Some(x), ..self }),
                Err(e) => Err((self, e)),
            },
            2 => match read_u32(&f.value) {
                Ok(x) => Ok(Self { success: Some(x), ..self }),
                Err(e) => Err((self, e)),
            },
            3 => match read_payload(&f.value) {
                Ok(b) => match crate::steammessages_clientserver_2::c_msg_client_chat_get_friend_message_history_response::FriendMessage::decode(b) {
                    Ok(x) => {
                        let mut m = self;
                        let ghost before = m.messages@;
                        m.messages.push(x);
                        assert(crate::steammessages_clientserver_2::c_msg_client_chat_get_friend_message_history_response::FriendMessage::view_all(m.messages@) =~= crate::steammessages_clientserver_2::c_msg_client_chat_get_friend_message_history_response::FriendMessage::view_all(before).push(x@));
                        Ok(m)
                    },
                    Err(e) => Err((self, e)),
                },
                Err(e) => Err((self, e)),
            },
            _ => Ok(self),
        }
    }

    /// Reads the records `bytes` holds into this message, in order. When a record does
    /// not parse or is refused, the reading stops there: the message keeps what the
    /// records before it gave, and the error is returned.
    pub fn merge(&mut self, bytes: &[u8]) -> (r: Result<(), WireError>)
        ensures
            final(self)@ == merge_run(old(self)@, bytes@, Self::apply_fn()).0,
            r == match merge_run(old(self)@, bytes@, Self::apply_fn()).1 {
                None => Ok::<(), WireError>(()),
                Some(e) => Err::<(), WireError>(e),
            },
    {
        let ghost total = merge_run(self@, bytes@, Self::apply_fn());
        let mut cur = Self::default();
        std::mem::swap(&mut cur, self);
        let mut pos: usize = 0;
        assert(bytes@.skip(0) =~= bytes@);
        while pos < bytes.len()
            invariant
                pos <= bytes@.len(),
                total == merge_run(old(self)@, bytes@, Self::apply_fn()),
                merge_run(cur@, bytes@.skip(pos as int), Self::apply_fn()) == total,
            decreases bytes@.len() - pos,
        {
            let ghost s = bytes@.skip(pos as int);
            proof {
                lemma_merge_run_step(cur@, s, Self::apply_fn());
                lemma_parse_field_len(s);
            }
            match read_field(bytes, pos) {
                Ok((f, end)) => {
                    assert(bytes@.skip(end as int) =~= s.skip((end - pos) as int));
                    match cur.applied(&f) {
                        Ok(m) => {
                            cur = m;
                        },
                        Err((m, e)) => {
                            *self = m;
                            return Err(e);
                        },
                    }
                    pos = end;
                },
                Err(e) => {
                    *self = cur;
                    return Err(e);
                },
            }
        }
        assert(bytes@.skip(pos as int) =~= Seq::<u8>::empty());
        proof {
            lemma_merge_run_empty(cur@, Self::apply_fn());
        }
        *self = cur;
        Ok(())
    }

    /// Decodes a message from its encoding.
    pub fn decode(bytes: &[u8]) -> (r: Result<Self, WireError>)
        ensures
            match Self::spec_decode(bytes@) {
                Ok(v) => r matches Ok(m) && m@ == v,
                Err(e) => r matches Err(x) && x == e,
            },
    {
        proof {
            reveal(CMsgClientChatGetFriendMessageHistoryResponse::spec_decode);
        }
        let mut m = Self::default();
        match m.merge(bytes) {
            Ok(()) => Ok(m),
            Err(e) => Err(e),
        }
    }

    /// The encoding of this message.
    pub fn encode_to_vec(&self) -> (r: Vec<u8>)
        ensures
            r@ == Self::spec_encode(self@),
    {
        let enc_messages = crate::steammessages_clientserver_2::c_msg_client_chat_get_friend_message_history_response::FriendMessage::encode_all(&self.messages);
        let ghost v = self@;
        let mut out: Vec<u8> = Vec::new();
        let ghost p0 = Seq::<SpecField>::empty();
        put_opt_fixed64(&mut out, 1, self.steamid);
        let ghost p1 = p0 + opt_fixed64(1, v.steamid);
        proof {
            lemma_fields_bytes_concat(p0, opt_fixed64(1, v.steamid));
        }
        put_opt_u32(&mut out, 2, self.success);
        let ghost p2 = p1 + opt_u32(2, v.success);
        proof {
            lemma_fields_bytes_concat(p1, opt_u32(2, v.success));
        }
        put_rep_bytes(&mut out, 3, &enc_messages);
        let ghost p3 = p2 + rep_bytes(3, crate::steammessages_clientserver_2::c_msg_client_chat_get_friend_message_history_response::FriendMessage::spec_encode_all(v.messages));
        proof {
            lemma_fields_bytes_concat(p2, rep_bytes(3, crate::steammessages_clientserver_2::c_msg_client_chat_get_friend_message_history_response::FriendMessage::spec_encode_all(v.messages)));
        }
        proof {
            reveal(CMsgClientChatGetFriendMessageHistoryResponse::spec_encode);
        }
        assert(p3 == Self::spec_fields(v));
        out
    }

    /// Appends the encoding of this message to `out`.
    pub fn encode_raw(&self, out: &mut Vec<u8>)
        ensures
            final(out)@ == old(out)@ + Self::spec_encode(self@),
    {
        let mut b = self.encode_to_vec();
        out.append(&mut b);
    }

    /// The first `k` fields of `v`, the others as a fresh message has them.
    #[verifier::opaque]
    pub open spec fn spec_prefix(v: SpecCMsgClientChatGetFriendMessageHistoryResponse, k: int) -> SpecCMsgClientChatGetFriendMessageHistoryResponse {
        SpecCMsgClientChatGetFriendMessageHistoryResponse {
            steamid: if 1 <= k { v.steamid } else { None },
            success: if 2 <= k { v.success } else { None },
            messages: if 3 <= k { v.messages } else { Seq::empty() },
        }
    }

    /// Reading field 1 back, after the fields before it.
    proof fn lemma_field_steamid(v: SpecCMsgClientChatGetFriendMessageHistoryResponse)
        ensures
            fold_fields(Self::spec_prefix(v, 0), opt_fixed64(1, v.steamid), Self::apply_fn())
                == Ok::<SpecCMsgClientChatGetFriendMessageHistoryResponse, WireError>(Self::spec_prefix(v, 1)),
    {
        reveal(CMsgClientChatGetFriendMessageHistoryResponse::spec_prefix);
        reveal(opt_fixed64);
        let apply = Self::apply_fn();
        let s = Self::spec_prefix(v, 0);
        lemma_fold_opt(s, 1, match v.steamid { Some(x) => Some(enc_fixed64(x)), None => None }, apply);
        if let Some(x) = v.steamid {
            lemma_u64_roundtrip(x);
        }
        assert(SpecCMsgClientChatGetFriendMessageHistoryResponse { steamid: v.steamid, ..s } == Self::spec_prefix(v, 1));
    }

    /// Reading field 2 back, after the fields before it.
    proof fn lemma_field_success(v: SpecCMsgClientChatGetFriendMessageHistoryResponse)
        ensures
            fold_fields(Self::spec_prefix(v, 1), opt_u32(2, v.success), Self::apply_fn())
                == Ok::<SpecCMsgClientChatGetFriendMessageHistoryResponse, WireError>(Self::spec_prefix(v, 2)),
    {
        reveal(CMsgClientChatGetFriendMessageHistoryResponse::spec_prefix);
        reveal(opt_u32);
        let apply = Self::apply_fn();
        let s = Self::spec_prefix(v, 1);
        lemma_fold_opt(s, 2, match v.success { Some(x) => Some(enc_u32(x)), None => None }, apply);
        if let Some(x) = v.success {
            lemma_u32_roundtrip(x);
        }
        assert(SpecCMsgClientChatGetFriendMessageHistoryResponse { success: v.success, ..s } == Self::spec_prefix(v, 2));
    }

    /// Reading field 3 back, after the fields before it.
    proof fn lemma_field_messages(v: SpecCMsgClientChatGetFriendMessageHistoryResponse)
        requires
            fields_wf(rep_bytes(3, crate::steammessages_clientserver_2::c_msg_client_chat_get_friend_message_history_response::FriendMessage::spec_encode_all(v.messages))),
        ensures
            fold_fields(Self::spec_prefix(v, 2), rep_bytes(3, crate::steammessages_clientserver_2::c_msg_client_chat_get_friend_message_history_response::FriendMessage::spec_encode_all(v.messages)), Self::apply_fn())
                == Ok::<SpecCMsgClientChatGetFriendMessageHistoryResponse, WireError>(Self::spec_prefix(v, 3)),
    {
        reveal(CMsgClientChatGetFriendMessageHistoryResponse::spec_prefix);
        reveal(rep_bytes);
        reveal(fields_wf);
        let apply = Self::apply_fn();
        let s = Self::spec_prefix(v, 2);
        let l = rep_bytes(3, crate::steammessages_clientserver_2::c_msg_client_chat_get_friend_message_history_response::FriendMessage::spec_encode_all(v.messages));
        let xs = v.messages;
        let st = Seq::new((xs.len() + 1) as nat, |j: int| SpecCMsgClientChatGetFriendMessageHistoryResponse { messages: xs.take(j), ..s });
        assert forall|j: int| 0 <= j < l.len() implies #[trigger] apply(st[j], l[j]) == Ok::<SpecCMsgClientChatGetFriendMessageHistoryResponse, WireError>(st[j + 1]) by {
            assert(field_wf(l[j]));
            crate::steammessages_clientserver_2::c_msg_client_chat_get_friend_message_history_response::FriendMessage::lemma_decode_encode(xs[j]);
            assert(xs.take(j).push(xs[j]) =~= xs.take(j + 1));
        }
        lemma_fold_chain(l, st, apply);
        assert(xs.take(0) =~= Seq::<crate::steammessages_clientserver_2::c_msg_client_chat_get_friend_message_history_response::SpecFriendMessage>::empty());
        assert(xs.take(xs.len() as int) =~= xs);
        assert(st[0] == s);
        assert(st[xs.len() as int] == Self::spec_prefix(v, 3));
    }

    /// Whether this message declares field number `n`.
    pub open spec fn declares(n: u32) -> bool {
        n == 1 || n == 2 || n == 3
    }

    /// A record with a number this message does not declare is passed over: well-formed
    /// bytes decode to the same message with such a record after them as without it.
    pub proof fn lemma_unknown_field(bytes: Seq<u8>, f: SpecField)
        requires
            parse_fields(bytes) is Ok,
            field_wf(f),
            !Self::declares(f.number),
        ensures
            Self::spec_decode(bytes + field_bytes(f)) == Self::spec_decode(bytes),
    {
        reveal(CMsgClientChatGetFriendMessageHistoryResponse::spec_decode);
        lemma_parse_fields_append(bytes, f);
        let fs = parse_fields(bytes).unwrap();
        let apply = Self::apply_fn();
        lemma_fold_concat(Self::spec_default(), fs, seq![f], apply);
        assert(fs.push(f) =~= fs + seq![f]);
        if let Ok(w) = fold_fields(Self::spec_default(), fs, apply) {
            lemma_fold_single(w, f, apply);
        }
        lemma_merge_run_fold(Self::spec_default(), bytes, apply);
        lemma_merge_run_fold(Self::spec_default(), bytes + field_bytes(f), apply);
    }

    /// Decoding the encoding of a message gives the message back.
    pub proof fn lemma_decode_encode(v: SpecCMsgClientChatGetFriendMessageHistoryResponse)
        requires
            Self::spec_encode(v).len() <= u64::MAX,
        ensures
            Self::spec_decode(Self::spec_encode(v)) == Ok::<SpecCMsgClientChatGetFriendMessageHistoryResponse, WireError>(v),
    {
        let apply = Self::apply_fn();
        let d = Self::spec_default();
        let p0 = Seq::<SpecField>::empty();
        let l1 = opt_fixed64(1, v.steamid);
        let p1 = p0 + l1;
        let l2 = opt_u32(2, v.success);
        let p2 = p1 + l2;
        let l3 = rep_bytes(3, crate::steammessages_clientserver_2::c_msg_client_chat_get_friend_message_history_response::FriendMessage::spec_encode_all(v.messages));
        let p3 = p2 + l3;
        assert(parse_fields(Self::spec_encode(v)) == Ok::<Seq<SpecField>, WireError>(p3) && fields_wf(l3)) by {
            reveal(CMsgClientChatGetFriendMessageHistoryResponse::spec_encode);
            assert(numbers_ok(p0) && fields_wf(p0)) by {
                reveal(numbers_ok);
                reveal(fields_wf);
            }
            lemma_opt_fixed64_numbered(1, v.steamid);
            lemma_fields_wf_concat(p0, l1);
            lemma_opt_u32_numbered(2, v.success);
            lemma_fields_wf_concat(p1, l2);
            lemma_rep_bytes_numbered(3, crate::steammessages_clientserver_2::c_msg_client_chat_get_friend_message_history_response::FriendMessage::spec_encode_all(v.messages));
            lemma_fields_wf_concat(p2, l3);
            assert(p3 == Self::spec_fields(v));
            lemma_fields_wf_from_len(p3);
            lemma_fields_roundtrip(p3);
        }
        assert(Self::spec_prefix(v, 0) == d) by {
            reveal(CMsgClientChatGetFriendMessageHistoryResponse::spec_prefix);
        }
        lemma_fold_empty(d, apply);
        lemma_fold_concat(d, p0, l1, apply);
        Self::lemma_field_steamid(v);
        lemma_fold_concat(d, p1, l2, apply);
        Self::lemma_field_success(v);
        lemma_fold_concat(d, p2, l3, apply);
        Self::lemma_field_messages(v);
        assert(Self::spec_prefix(v, 3) == v) by {
            reveal(CMsgClientChatGetFriendMessageHistoryResponse::spec_prefix);
        }
        lemma_merge_run_fold(d, Self::spec_encode(v), apply);
        assert(Self::spec_decode(Self::spec_encode(v)) == Ok::<SpecCMsgClientChatGetFriendMessageHistoryResponse, WireError>(v)) by {
            reveal(CMsgClientChatGetFriendMessageHistoryResponse::spec_decode);
        }
    }
}

/// `CMsgClientChatGetFriendMessageHistoryForOfflineMessages`, as Valve's schema declares it.
#[derive(Debug, Clone, PartialEq)]
pub struct CMsgClientChatGetFriendMessageHistoryForOfflineMessages {}

/// What a `CMsgClientChatGetFriendMessageHistoryForOfflineMessages` holds, as mathematical values.
#[verifier::ext_equal]
pub struct SpecCMsgClientChatGetFriendMessageHistoryForOfflineMessages {}

impl View for CMsgClientChatGetFriendMessageHistoryForOfflineMessages {
    type V = SpecCMsgClientChatGetFriendMessageHistoryForOfflineMessages;

    open spec fn view(&self) -> SpecCMsgClientChatGetFriendMessageHistoryForOfflineMessages {
        SpecCMsgClientChatGetFriendMessageHistoryForOfflineMessages {}
    }
}

impl Default for CMsgClientChatGetFriendMessageHistoryForOfflineMessages {
    fn default() -> (r: Self)
        ensures
            r@ == CMsgClientChatGetFriendMessageHistoryForOfflineMessages::spec_default(),
    {
        CMsgClientChatGetFriendMessageHistoryForOfflineMessages {}
    }
}

impl CMsgClientChatGetFriendMessageHistoryForOfflineMessages {
    pub open spec fn spec_default() -> SpecCMsgClientChatGetFriendMessageHistoryForOfflineMessages {
        SpecCMsgClientChatGetFriendMessageHistoryForOfflineMessages {}
    }

    /// The records a `CMsgClientChatGetFriendMessageHistoryForOfflineMessages` is written as, in field order.
    pub open spec fn spec_fields(v: SpecCMsgClientChatGetFriendMessageHistoryForOfflineMessages) -> Seq<SpecField> {
        Seq::<SpecField>::empty()
    }

    #[verifier::opaque]
    pub open spec fn spec_encode(v: SpecCMsgClientChatGetFriendMessageHistoryForOfflineMessages) -> Seq<u8> {
        fields_bytes(Self::spec_fields(v))
    }

    /// What one record does to the message: a declared number sets or extends its
    /// field, any other number is left alone.
    pub open spec fn spec_apply(v: SpecCMsgClientChatGetFriendMessageHistoryForOfflineMessages, f: SpecField) -> Result<SpecCMsgClientChatGetFriendMessageHistoryForOfflineMessages, WireError> {
        match f.number {
            _ => Ok(v),
        }
    }

    pub open spec fn apply_fn() -> spec_fn(SpecCMsgClientChatGetFriendMessageHistoryForOfflineMessages, SpecField) -> Result<SpecCMsgClientChatGetFriendMessageHistoryForOfflineMessages, WireError> {
        |v: SpecCMsgClientChatGetFriendMessageHistoryForOfflineMessages, f: SpecField| Self::spec_apply(v, f)
    }

    /// The message `bytes` makes of `v`: its records applied in order, or the error
    /// that stops the reading.
    pub open spec fn spec_merge(v: SpecCMsgClientChatGetFriendMessageHistoryForOfflineMessages, bytes: Seq<u8>) -> Result<SpecCMsgClientChatGetFriendMessageHistoryForOfflineMessages, WireError> {
        let (w, stop) = merge_run(v, bytes, Self::apply_fn());
        match stop {
            None => Ok(w),
            Some(e) => Err(e),
        }
    }

    #[verifier::opaque]
    pub open spec fn spec_decode(bytes: Seq<u8>) -> Result<SpecCMsgClientChatGetFriendMessageHistoryForOfflineMessages, WireError> {
        Self::spec_merge(Self::spec_default(), bytes)
    }

    /// This message with one record applied to it, or, when the record is refused,
    /// the message unchanged and the reason.
    fn applied(self, f: &Field) -> (r: Result<Self, (Self, WireError)>)
        ensures
            match Self::spec_apply(self@, f@) {
                Ok(v) => r matches Ok(m) && m@ == v,
                Err(e) => r matches Err((m, x)) && x == e && m@ == self@,
            },
    {
        match f.number {
            _ => Ok(self),
        }
    }

    /// Reads the records `bytes` holds into this message, in order. When a record does
    /// not parse or is refused, the reading stops there: the message keeps what the
    /// records before it gave, and the error is returned.
    pub fn merge(&mut self, bytes: &[u8]) -> (r: Result<(), WireError>)
        ensures
            final(self)@ == merge_run(old(self)@, bytes@, Self::apply_fn()).0,
            r == match merge_run(old(self)@, bytes@, Self::apply_fn()).1 {
                None => Ok::<(), WireError>(()),
                Some(e) => Err::<(), WireError>(e),
            },
    {
        let ghost total = merge_run(self@, bytes@, Self::apply_fn());
        let mut cur = Self::default();
        std::mem::swap(&mut cur, self);
        let mut pos: usize = 0;
        assert(bytes@.skip(0) =~= bytes@);
        while pos < bytes.len()
            invariant
                pos <= bytes@.len(),
                total == merge_run(old(self)@, bytes@, Self::apply_fn()),
                merge_run(cur@, bytes@.skip(pos as int), Self::apply_fn()) == total,
            decreases bytes@.len() - pos,
        {
            let ghost s = bytes@.skip(pos as int);
            proof {
                lemma_merge_run_step(cur@, s, Self::apply_fn());
                lemma_parse_field_len(s);
            }
            match read_field(bytes, pos) {
                Ok((f, end)) => {
                    assert(bytes@.skip(end as int) =~= s.skip((end - pos) as int));
                    match cur.applied(&f) {
                        Ok(m) => {
                            cur = m;
                        },
                        Err((m, e)) => {
                            *self = m;
                            return Err(e);
                        },
                    }
                    pos = end;
                },
                Err(e) => {
                    *self = cur;
                    return Err(e);
                },
            }
        }
        assert(bytes@.skip(pos as int) =~= Seq::<u8>::empty());
        proof {
            lemma_merge_run_empty(cur@, Self::apply_fn());
        }
        *self = cur;
        Ok(())
    }

    /// Decodes a message from its encoding.
    pub fn decode(bytes: &[u8]) -> (r: Result<Self, WireError>)
        ensures
            match Self::spec_decode(bytes@) {
                Ok(v) => r matches Ok(m) && m@ == v,
                Err(e) => r matches Err(x) && x == e,
            },
    {
        proof {
            reveal(CMsgClientChatGetFriendMessageHistoryForOfflineMessages::spec_decode);
        }
        let mut m = Self::default();
        match m.merge(bytes) {
            Ok(()) => Ok(m),
            Err(e) => Err(e),
        }
    }

    /// The encoding of this message.
    pub fn encode_to_vec(&self) -> (r: Vec<u8>)
        ensures
            r@ == Self::spec_encode(self@),
    {
        let ghost v = self@;
        let mut out: Vec<u8> = Vec::new();
        let ghost p0 = Seq::<SpecField>::empty();
        proof {
            reveal(CMsgClientChatGetFriendMessageHistoryForOfflineMessages::spec_encode);
        }
        assert(p0 == Self::spec_fields(v));
        assert(out@ =~= fields_bytes(p0));
        out
    }

    /// Appends the encoding of this message to `out`.
    pub fn encode_raw(&self, out: &mut Vec<u8>)
        ensures
            final(out)@ == old(out)@ + Self::spec_encode(self@),
    {
        let mut b = self.encode_to_vec();
        out.append(&mut b);
    }

    /// The first `k` fields of `v`, the others as a fresh message has them.
    #[verifier::opaque]
    pub open spec fn spec_prefix(v: SpecCMsgClientChatGetFriendMessageHistoryForOfflineMessages, k: int) -> SpecCMsgClientChatGetFriendMessageHistoryForOfflineMessages {
        SpecCMsgClientChatGetFriendMessageHistoryForOfflineMessages {}
    }

    /// Whether this message declares field number `n`.
    pub open spec fn declares(n: u32) -> bool {
        false
    }

    /// A record with a number this message does not declare is passed over: well-formed
    /// bytes decode to the same message with such a record after them as without it.
    pub proof fn lemma_unknown_field(bytes: Seq<u8>, f: SpecField)
        requires
            parse_fields(bytes) is Ok,
            field_wf(f),
            !Self::declares(f.number),
        ensures
            Self::spec_decode(bytes + field_bytes(f)) == Self::spec_decode(bytes),
    {
        reveal(CMsgClientChatGetFriendMessageHistoryForOfflineMessages::spec_decode);
        lemma_parse_fields_append(bytes, f);
        let fs = parse_fields(bytes).unwrap();
        let apply = Self::apply_fn();
        lemma_fold_concat(Self::spec_default(), fs, seq![f], apply);
        assert(fs.push(f) =~= fs + seq![f]);
        if let Ok(w) = fold_fields(Self::spec_default(), fs, apply) {
            lemma_fold_single(w, f, apply);
        }
        lemma_merge_run_fold(Self::spec_default(), bytes, apply);
        lemma_merge_run_fold(Self::spec_default(), bytes + field_bytes(f), apply);
    }

    /// Decoding the encoding of a message gives the message back.
    pub proof fn lemma_decode_encode(v: SpecCMsgClientChatGetFriendMessageHistoryForOfflineMessages)
        requires
            Self::spec_encode(v).len() <= u64::MAX,
        ensures
            Self::spec_decode(Self::spec_encode(v)) == Ok::<SpecCMsgClientChatGetFriendMessageHistoryForOfflineMessages, WireError>(v),
    {
        let apply = Self::apply_fn();
        let d = Self::spec_default();
        let p0 = Seq::<SpecField>::empty();
        assert(parse_fields(Self::spec_encode(v)) == Ok::<Seq<SpecField>, WireError>(p0)) by {
            reveal(CMsgClientChatGetFriendMessageHistoryForOfflineMessages::spec_encode);
            assert(numbers_ok(p0) && fields_wf(p0)) by {
                reveal(numbers_ok);
                reveal(fields_wf);
            }
            assert(p0 == Self::spec_fields(v));
            lemma_fields_wf_from_len(p0);
            lemma_fields_roundtrip(p0);
        }
        assert(Self::spec_prefix(v, 0) == d) by {
            reveal(CMsgClientChatGetFriendMessageHistoryForOfflineMessages::spec_prefix);
        }
        lemma_fold_empty(d, apply);
        assert(Self::spec_prefix(v, 0) == v) by {
            reveal(CMsgClientChatGetFriendMessageHistoryForOfflineMessages::spec_prefix);
        }
        lemma_merge_run_fold(d, Self::spec_encode(v), apply);
        assert(Self::spec_decode(Self::spec_encode(v)) == Ok::<SpecCMsgClientChatGetFriendMessageHistoryForOfflineMessages, WireError>(v)) by {
            reveal(CMsgClientChatGetFriendMessageHistoryForOfflineMessages::spec_decode);
        }
    }
}

/// `CMsgClientFSGetFriendsSteamLevels`, as Valve's schema declares it.
#[derive(Debug, Clone, PartialEq)]
pub struct CMsgClientFSGetFriendsSteamLevels {
    /// Field 1.
    pub accountids: Vec<u32>,
}

/// What a `CMsgClientFSGetFriendsSteamLevels` holds, as mathematical values.
#[verifier::ext_equal]
pub struct SpecCMsgClientFSGetFriendsSteamLevels {
    pub accountids: Seq<u32>,
}

impl View for CMsgClientFSGetFriendsSteamLevels {
    type V = SpecCMsgClientFSGetFriendsSteamLevels;

    open spec fn view(&self) -> SpecCMsgClientFSGetFriendsSteamLevels {
        SpecCMsgClientFSGetFriendsSteamLevels {
            accountids: self.accountids@,
        }
    }
}

impl Default for CMsgClientFSGetFriendsSteamLevels {
    fn default() -> (r: Self)
        ensures
            r@ == CMsgClientFSGetFriendsSteamLevels::spec_default(),
    {
        CMsgClientFSGetFriendsSteamLevels {
            accountids: Vec::new(),
        }
    }
}

impl CMsgClientFSGetFriendsSteamLevels {
    pub open spec fn spec_default() -> SpecCMsgClientFSGetFriendsSteamLevels {
        SpecCMsgClientFSGetFriendsSteamLevels {
            accountids: Seq::empty(),
        }
    }

    /// The records a `CMsgClientFSGetFriendsSteamLevels` is written as, in field order.
    pub open spec fn spec_fields(v: SpecCMsgClientFSGetFriendsSteamLevels) -> Seq<SpecField> {
        Seq::<SpecField>::empty()
            + rep_u32(1, v.accountids)
    }

    #[verifier::opaque]
    pub open spec fn spec_encode(v: SpecCMsgClientFSGetFriendsSteamLevels) -> Seq<u8> {
        fields_bytes(Self::spec_fields(v))
    }

    /// What one record does to the message: a declared number sets or extends its
    /// field, any other number is left alone.
    pub open spec fn spec_apply(v: SpecCMsgClientFSGetFriendsSteamLevels, f: SpecField) -> Result<SpecCMsgClientFSGetFriendsSteamLevels, WireError> {
        match f.number {
            1 => match dec_packed_u32(f.value) {
                Ok(xs) => Ok(SpecCMsgClientFSGetFriendsSteamLevels { accountids: v.accountids + xs, ..v }),
                Err(e) => Err(e),
            },
            _ => Ok(v),
        }
    }

    pub open spec fn apply_fn() -> spec_fn(SpecCMsgClientFSGetFriendsSteamLevels, SpecField) -> Result<SpecCMsgClientFSGetFriendsSteamLevels, WireError> {
        |v: SpecCMsgClientFSGetFriendsSteamLevels, f: SpecField| Self::spec_apply(v, f)
    }

    /// The message `bytes` makes of `v`: its records applied in order, or the error
    /// that stops the reading.
    pub open spec fn spec_merge(v: SpecCMsgClientFSGetFriendsSteamLevels, bytes: Seq<u8>) -> Result<SpecCMsgClientFSGetFriendsSteamLevels, WireError> {
        let (w, stop) = merge_run(v, bytes, Self::apply_fn());
        match stop {
            None => Ok(w),
            Some(e) => Err(e),
        }
    }

    #[verifier::opaque]
    pub open spec fn spec_decode(bytes: Seq<u8>) -> Result<SpecCMsgClientFSGetFriendsSteamLevels, WireError> {
        Self::spec_merge(Self::spec_default(), bytes)
    }

    /// This message with one record applied to it, or, when the record is refused,
    /// the message unchanged and the reason.
    fn applied(self, f: &Field) -> (r: Result<Self, (Self, WireError)>)
        ensures
            match Self::spec_apply(self@, f@) {
                Ok(v) => r matches Ok(m) && m@ == v,
                Err(e) => r matches Err((m, x)) && x == e && m@ == self@,
            },
    {
        match f.number {
            1 => match read_packed_u32(&f.value) {
                Ok(xs) => {
                    let mut m = self;
                    let mut xs = xs;
                    m.accountids.append(&mut xs);
                    Ok(m)
                },
                Err(e) => Err((self, e)),
            },
            _ => Ok(self),
        }
    }

    /// Reads the records `bytes` holds into this message, in order. When a record does
    /// not parse or is refused, the reading stops there: the message keeps what the
    /// records before it gave, and the error is returned.
    pub fn merge(&mut self, bytes: &[u8]) -> (r: Result<(), WireError>)
        ensures
            final(self)@ == merge_run(old(self)@, bytes@, Self::apply_fn()).0,
            r == match merge_run(old(self)@, bytes@, Self::apply_fn()).1 {
                None => Ok::<(), WireError>(()),
                Some(e) => Err::<(), WireError>(e),
            },
    {
        let ghost total = merge_run(self@, bytes@, Self::apply_fn());
        let mut cur = Self::default();
        std::mem::swap(&mut cur, self);
        let mut pos: usize = 0;
        assert(bytes@.skip(0) =~= bytes@);
        while pos < bytes.len()
            invariant
                pos <= bytes@.len(),
                total == merge_run(old(self)@, bytes@, Self::apply_fn()),
                merge_run(cur@, bytes@.skip(pos as int), Self::apply_fn()) == total,
            decreases bytes@.len() - pos,
        {
            let ghost s = bytes@.skip(pos as int);
            proof {
                lemma_merge_run_step(cur@, s, Self::apply_fn());
                lemma_parse_field_len(s);
            }
            match read_field(bytes, pos) {
                Ok((f, end)) => {
                    assert(bytes@.skip(end as int) =~= s.skip((end - pos) as int));
                    match cur.applied(&f) {
                        Ok(m) => {
                            cur = m;
                        },
                        Err((m, e)) => {
                            *self = m;
                            return Err(e);
                        },
                    }
                    pos = end;
                },
                Err(e) => {
                    *self = cur;
                    return Err(e);
                },
            }
        }
        assert(bytes@.skip(pos as int) =~= Seq::<u8>::empty());
        proof {
            lemma_merge_run_empty(cur@, Self::apply_fn());
        }
        *self = cur;
        Ok(())
    }

    /// Decodes a message from its encoding.
    pub fn decode(bytes: &[u8]) -> (r: Result<Self, WireError>)
        ensures
            match Self::spec_decode(bytes@) {
                Ok(v) => r matches Ok(m) && m@ == v,
                Err(e) => r matches Err(x) && x == e,
            },
    {
        proof {
            reveal(CMsgClientFSGetFriendsSteamLevels::spec_decode);
        }
        let mut m = Self::default();
        match m.merge(bytes) {
            Ok(()) => Ok(m),
            Err(e) => Err(e),
        }
    }

    /// The encoding of this message.
    pub fn encode_to_vec(&self) -> (r: Vec<u8>)
        ensures
            r@ == Self::spec_encode(self@),
    {
        let ghost v = self@;
        let mut out: Vec<u8> = Vec::new();
        let ghost p0 = Seq::<SpecField>::empty();
        put_rep_u32(&mut out, 1, &self.accountids);
        let ghost p1 = p0 + rep_u32(1, v.accountids);
        proof {
            lemma_fields_bytes_concat(p0, rep_u32(1, v.accountids));
        }
        proof {
            reveal(CMsgClientFSGetFriendsSteamLevels::spec_encode);
        }
        assert(p1 == Self::spec_fields(v));
        out
    }

    /// Appends the encoding of this message to `out`.
    pub fn encode_raw(&self, out: &mut Vec<u8>)
        ensures
            final(out)@ == old(out)@ + Self::spec_encode(self@),
    {
        let mut b = self.encode_to_vec();
        out.append(&mut b);
    }

    /// The first `k` fields of `v`, the others as a fresh message has them.
    #[verifier::opaque]
    pub open spec fn spec_prefix(v: SpecCMsgClientFSGetFriendsSteamLevels, k: int) -> SpecCMsgClientFSGetFriendsSteamLevels {
        SpecCMsgClientFSGetFriendsSteamLevels {
            accountids: if 1 <= k { v.accountids } else { Seq::empty() },
        }
    }

    /// Reading field 1 back, after the fields before it.
    proof fn lemma_field_accountids(v: SpecCMsgClientFSGetFriendsSteamLevels)
        ensures
            fold_fields(Self::spec_prefix(v, 0), rep_u32(1, v.accountids), Self::apply_fn())
                == Ok::<SpecCMsgClientFSGetFriendsSteamLevels, WireError>(Self::spec_prefix(v, 1)),
    {
        reveal(CMsgClientFSGetFriendsSteamLevels::spec_prefix);
        reveal(rep_u32);
        let apply = Self::apply_fn();
        let s = Self::spec_prefix(v, 0);
        let l = rep_u32(1, v.accountids);
        let xs = v.accountids;
        let st = Seq::new((xs.len() + 1) as nat, |j: int| SpecCMsgClientFSGetFriendsSteamLevels { accountids: xs.take(j), ..s });
        assert forall|j: int| 0 <= j < l.len() implies #[trigger] apply(st[j], l[j]) == Ok::<SpecCMsgClientFSGetFriendsSteamLevels, WireError>(st[j + 1]) by {
            lemma_u32_roundtrip(xs[j]);
            assert(xs.take(j) + seq![xs[j]] =~= xs.take(j + 1));
        }
        lemma_fold_chain(l, st, apply);
        assert(xs.take(0) =~= Seq::<u32>::empty());
        assert(xs.take(xs.len() as int) =~= xs);
        assert(st[0] == s);
        assert(st[xs.len() as int] == Self::spec_prefix(v, 1));
    }

    /// Whether this message declares field number `n`.
    pub open spec fn declares(n: u32) -> bool {
        n == 1
    }

    /// A record with a number this message does not declare is passed over: well-formed
    /// bytes decode to the same message with such a record after them as without it.
    pub proof fn lemma_unknown_field(bytes: Seq<u8>, f: SpecField)
        requires
            parse_fields(bytes) is Ok,
            field_wf(f),
            !Self::declares(f.number),
        ensures
            Self::spec_decode(bytes + field_bytes(f)) == Self::spec_decode(bytes),
    {
        reveal(CMsgClientFSGetFriendsSteamLevels::spec_decode);
        lemma_parse_fields_append(bytes, f);
        let fs = parse_fields(bytes).unwrap();
        let apply = Self::apply_fn();
        lemma_fold_concat(Self::spec_default(), fs, seq![f], apply);
        assert(fs.push(f) =~= fs + seq![f]);
        if let Ok(w) = fold_fields(Self::spec_default(), fs, apply) {
            lemma_fold_single(w, f, apply);
        }
        lemma_merge_run_fold(Self::spec_default(), bytes, apply);
        lemma_merge_run_fold(Self::spec_default(), bytes + field_bytes(f), apply);
    }

    /// Decoding the encoding of a message gives the message back.
    pub proof fn lemma_decode_encode(v: SpecCMsgClientFSGetFriendsSteamLevels)
        requires
            Self::spec_encode(v).len() <= u64::MAX,
        ensures
            Self::spec_decode(Self::spec_encode(v)) == Ok::<SpecCMsgClientFSGetFriendsSteamLevels, WireError>(v),
    {
        let apply = Self::apply_fn();
        let d = Self::spec_default();
        let p0 = Seq::<SpecField>::empty();
        let l1 = rep_u32(1, v.accountids);
        let p1 = p0 + l1;
        assert(parse_fields(Self::spec_encode(v)) == Ok::<Seq<SpecField>, WireError>(p1)) by {
            reveal(CMsgClientFSGetFriendsSteamLevels::spec_encode);
            assert(numbers_ok(p0) && fields_wf(p0)) by {
                reveal(numbers_ok);
                reveal(fields_wf);
            }
            lemma_rep_u32_numbered(1, v.accountids);
            lemma_fields_wf_concat(p0, l1);
            assert(p1 == Self::spec_fields(v));
            lemma_fields_wf_from_len(p1);
            lemma_fields_roundtrip(p1);
        }
        assert(Self::spec_prefix(v, 0) == d) by {
            reveal(CMsgClientFSGetFriendsSteamLevels::spec_prefix);
        }
        lemma_fold_empty(d, apply);
        lemma_fold_concat(d, p0, l1, apply);
        Self::lemma_field_accountids(v);
        assert(Self::spec_prefix(v, 1) == v) by {
            reveal(CMsgClientFSGetFriendsSteamLevels::spec_prefix);
        }
        lemma_merge_run_fold(d, Self::spec_encode(v), apply);
        assert(Self::spec_decode(Self::spec_encode(v)) == Ok::<SpecCMsgClientFSGetFriendsSteamLevels, WireError>(v)) by {
            reveal(CMsgClientFSGetFriendsSteamLevels::spec_decode);
        }
    }
}

/// `CMsgClientFSGetFriendsSteamLevelsResponse`, as Valve's schema declares it.
#[derive(Debug, Clone, PartialEq)]
pub struct CMsgClientFSGetFriendsSteamLevelsResponse {
    /// Field 1.
    pub friends: Vec<crate::steammessages_clientserver_2::c_msg_client_fs_get_friends_steam_levels_response::Friend>,
}

/// What a `CMsgClientFSGetFriendsSteamLevelsResponse` holds, as mathematical values.
#[verifier::ext_equal]
pub struct SpecCMsgClientFSGetFriendsSteamLevelsResponse {
    pub friends: Seq<crate::steammessages_clientserver_2::c_msg_client_fs_get_friends_steam_levels_response::SpecFriend>,
}

impl View for CMsgClientFSGetFriendsSteamLevelsResponse {
    type V = SpecCMsgClientFSGetFriendsSteamLevelsResponse;

    open spec fn view(&self) -> SpecCMsgClientFSGetFriendsSteamLevelsResponse {
        SpecCMsgClientFSGetFriendsSteamLevelsResponse {
            friends: crate::steammessages_clientserver_2::c_msg_client_fs_get_friends_steam_levels_response::Friend::view_all(self.friends@),
        }
    }
}

impl Default for CMsgClientFSGetFriendsSteamLevelsResponse {
    fn default() -> (r: Self)
        ensures
            r@ == CMsgClientFSGetFriendsSteamLevelsResponse::spec_default(),
    {
        CMsgClientFSGetFriendsSteamLevelsResponse {
            friends: Vec::new(),
        }
    }
}

impl CMsgClientFSGetFriendsSteamLevelsResponse {
    pub open spec fn spec_default() -> SpecCMsgClientFSGetFriendsSteamLevelsResponse {
        SpecCMsgClientFSGetFriendsSteamLevelsResponse {
            friends: Seq::empty(),
        }
    }

    /// The records a `CMsgClientFSGetFriendsSteamLevelsResponse` is written as, in field order.
    pub open spec fn spec_fields(v: SpecCMsgClientFSGetFriendsSteamLevelsResponse) -> Seq<SpecField> {
        Seq::<SpecField>::empty()
            + rep_bytes(1, crate::steammessages_clientserver_2::c_msg_client_fs_get_friends_steam_levels_response::Friend::spec_encode_all(v.friends))
    }

    #[verifier::opaque]
    pub open spec fn spec_encode(v: SpecCMsgClientFSGetFriendsSteamLevelsResponse) -> Seq<u8> {
        fields_bytes(Self::spec_fields(v))
    }

    /// What one record does to the message: a declared number sets or extends its
    /// field, any other number is left alone.
    pub open spec fn spec_apply(v: SpecCMsgClientFSGetFriendsSteamLevelsResponse, f: SpecField) -> Result<SpecCMsgClientFSGetFriendsSteamLevelsResponse, WireError> {
        match f.number {
            1 => match dec_bytes(f.value) {
                Ok(b) => match crate::steammessages_clientserver_2::c_msg_client_fs_get_friends_steam_levels_response::Friend::spec_decode(b) {
                    Ok(m) => Ok(SpecCMsgClientFSGetFriendsSteamLevelsResponse { friends: v.friends.push(m), ..v }),
                    Err(e) => Err(e),
                },
                Err(e) => Err(e),
            },
            _ => Ok(v),
        }
    }

    pub open spec fn apply_fn() -> spec_fn(SpecCMsgClientFSGetFriendsSteamLevelsResponse, SpecField) -> Result<SpecCMsgClientFSGetFriendsSteamLevelsResponse, WireError> {
        |v: SpecCMsgClientFSGetFriendsSteamLevelsResponse, f: SpecField| Self::spec_apply(v, f)
    }

    /// The message `bytes` makes of `v`: its records applied in order, or the error
    /// that stops the reading.
    pub open spec fn spec_merge(v: SpecCMsgClientFSGetFriendsSteamLevelsResponse, bytes: Seq<u8>) -> Result<SpecCMsgClientFSGetFriendsSteamLevelsResponse, WireError> {
        let (w, stop) = merge_run(v, bytes, Self::apply_fn());
        match stop {
            None => Ok(w),
            Some(e) => Err(e),
        }
    }

    #[verifier::opaque]
    pub open spec fn spec_decode(bytes: Seq<u8>) -> Result<SpecCMsgClientFSGetFriendsSteamLevelsResponse, WireError> {
        Self::spec_merge(Self::spec_default(), bytes)
    }

    /// This message with one record applied to it, or, when the record is refused,
    /// the message unchanged and the reason.
    fn applied(self, f: &Field) -> (r: Result<Self, (Self, WireError)>)
        ensures
            match Self::spec_apply(self@, f@) {
                Ok(v) => r matches Ok(m) && m@ == v,
                Err(e) => r matches Err((m, x)) && x == e && m@ == self@,
            },
    {
        match f.number {
            1 => match read_payload(&f.value) {
                Ok(b) => match crate::steammessages_clientserver_2::c_msg_client_fs_get_friends_steam_levels_response::Friend::decode(b) {
                    Ok(x) => {
                        let mut m = self;
                        let ghost before = m.friends@;
                        m.friends.push(x);
                        assert(crate::steammessages_clientserver_2::c_msg_client_fs_get_friends_steam_levels_response::Friend::view_all(m.friends@) =~= crate::steammessages_clientserver_2::c_msg_client_fs_get_friends_steam_levels_response::Friend::view_all(before).push(x@));
                        Ok(m)
                    },
                    Err(e) => Err((self, e)),
                },
                Err(e) => Err((self, e)),
            },
            _ => Ok(self),
        }
    }

    /// Reads the records `bytes` holds into this message, in order. When a record does
    /// not parse or is refused, the reading stops there: the message keeps what the
    /// records before it gave, and the error is returned.
    pub fn merge(&mut self, bytes: &[u8]) -> (r: Result<(), WireError>)
        ensures
            final(self)@ == merge_run(old(self)@, bytes@, Self::apply_fn()).0,
            r == match merge_run(old(self)@, bytes@, Self::apply_fn()).1 {
                None => Ok::<(), WireError>(()),
                Some(e) => Err::<(), WireError>(e),
            },
    {
        let ghost total = merge_run(self@, bytes@, Self::apply_fn());
        let mut cur = Self::default();
        std::mem::swap(&mut cur, self);
        let mut pos: usize = 0;
        assert(bytes@.skip(0) =~= bytes@);
        while pos < bytes.len()
            invariant
                pos <= bytes@.len(),
                total == merge_run(old(self)@, bytes@, Self::apply_fn()),
                merge_run(cur@, bytes@.skip(pos as int), Self::apply_fn()) == total,
            decreases bytes@.len() - pos,
        {
            let ghost s = bytes@.skip(pos as int);
            proof {
                lemma_merge_run_step(cur@, s, Self::apply_fn());
                lemma_parse_field_len(s);
            }
            match read_field(bytes, pos) {
                Ok((f, end)) => {
                    assert(bytes@.skip(end as int) =~= s.skip((end - pos) as int));
                    match cur.applied(&f) {
                        Ok(m) => {
                            cur = m;
                        },
                        Err((m, e)) => {
                            *self = m;
                            return Err(e);
                        },
                    }
                    pos = end;
                },
                Err(e) => {
                    *self = cur;
                    return Err(e);
                },
            }
        }
        assert(bytes@.skip(pos as int) =~= Seq::<u8>::empty());
        proof {
            lemma_merge_run_empty(cur@, Self::apply_fn());
        }
        *self = cur;
        Ok(())
    }

    /// Decodes a message from its encoding.
    pub fn decode(bytes: &[u8]) -> (r: Result<Self, WireError>)
        ensures
            match Self::spec_decode(bytes@) {
                Ok(v) => r matches Ok(m) && m@ == v,
                Err(e) => r matches Err(x) && x == e,
            },
    {
        proof {
            reveal(CMsgClientFSGetFriendsSteamLevelsResponse::spec_decode);
        }
        let mut m = Self::default();
        match m.merge(bytes) {
            Ok(()) => Ok(m),
            Err(e) => Err(e),
        }
    }

    /// The encoding of this message.
    pub fn encode_to_vec(&self) -> (r: Vec<u8>)
        ensures
            r@ == Self::spec_encode(self@),
    {
        let enc_friends = crate::steammessages_clientserver_2::c_msg_client_fs_get_friends_steam_levels_response::Friend::encode_all(&self.friends);
        let ghost v = self@;
        let mut out: Vec<u8> = Vec::new();
        let ghost p0 = Seq::<SpecField>::empty();
        put_rep_bytes(&mut out, 1, &enc_friends);
        let ghost p1 = p0 + rep_bytes(1, crate::steammessages_clientserver_2::c_msg_client_fs_get_friends_steam_levels_response::Friend::spec_encode_all(v.friends));
        proof {
            lemma_fields_bytes_concat(p0, rep_bytes(1, crate::steammessages_clientserver_2::c_msg_client_fs_get_friends_steam_levels_response::Friend::spec_encode_all(v.friends)));
        }
        proof {
            reveal(CMsgClientFSGetFriendsSteamLevelsResponse::spec_encode);
        }
        assert(p1 == Self::spec_fields(v));
        out
    }

    /// Appends the encoding of this message to `out`.
    pub fn encode_raw(&self, out: &mut Vec<u8>)
        ensures
            final(out)@ == old(out)@ + Self::spec_encode(self@),
    {
        let mut b = self.encode_to_vec();
        out.append(&mut b);
    }

    /// The first `k` fields of `v`, the others as a fresh message has them.
    #[verifier::opaque]
    pub open spec fn spec_prefix(v: SpecCMsgClientFSGetFriendsSteamLevelsResponse, k: int) -> SpecCMsgClientFSGetFriendsSteamLevelsResponse {
        SpecCMsgClientFSGetFriendsSteamLevelsResponse {
            friends: if 1 <= k { v.friends } else { Seq::empty() },
        }
    }

    /// Reading field 1 back, after the fields before it.
    proof fn lemma_field_friends(v: SpecCMsgClientFSGetFriendsSteamLevelsResponse)
        requires
            fields_wf(rep_bytes(1, crate::steammessages_clientserver_2::c_msg_client_fs_get_friends_steam_levels_response::Friend::spec_encode_all(v.friends))),
        ensures
            fold_fields(Self::spec_prefix(v, 0), rep_bytes(1, crate::steammessages_clientserver_2::c_msg_client_fs_get_friends_steam_levels_response::Friend::spec_encode_all(v.friends)), Self::apply_fn())
                == Ok::<SpecCMsgClientFSGetFriendsSteamLevelsResponse, WireError>(Self::spec_prefix(v, 1)),
    {
        reveal(CMsgClientFSGetFriendsSteamLevelsResponse::spec_prefix);
        reveal(rep_bytes);
        reveal(fields_wf);
        let apply = Self::apply_fn();
        let s = Self::spec_prefix(v, 0);
        let l = rep_bytes(1, crate::steammessages_clientserver_2::c_msg_client_fs_get_friends_steam_levels_response::Friend::spec_encode_all(v.friends));
        let xs = v.friends;
        let st = Seq::new((xs.len() + 1) as nat, |j: int| SpecCMsgClientFSGetFriendsSteamLevelsResponse { friends: xs.take(j), ..s });
        assert forall|j: int| 0 <= j < l.len() implies #[trigger] apply(st[j], l[j]) == Ok::<SpecCMsgClientFSGetFriendsSteamLevelsResponse, WireError>(st[j + 1]) by {
            assert(field_wf(l[j]));
            crate::steammessages_clientserver_2::c_msg_client_fs_get_friends_steam_levels_response::Friend::lemma_decode_encode(xs[j]);
            assert(xs.take(j).push(xs[j]) =~= xs.take(j + 1));
        }
        lemma_fold_chain(l, st, apply);
        assert(xs.take(0) =~= Seq::<crate::steammessages_clientserver_2::c_msg_client_fs_get_friends_steam_levels_response::SpecFriend>::empty());
        assert(xs.take(xs.len() as int) =~= xs);
        assert(st[0] == s);
        assert(st[xs.len() as int] == Self::spec_prefix(v, 1));
    }

    /// Whether this message declares field number `n`.
    pub open spec fn declares(n: u32) -> bool {
        n == 1
    }

    /// A record with a number this message does not declare is passed over: well-formed
    /// bytes decode to the same message with such a record after them as without it.
    pub proof fn lemma_unknown_field(bytes: Seq<u8>, f: SpecField)
        requires
            parse_fields(bytes) is Ok,
            field_wf(f),
            !Self::declares(f.number),
        ensures
            Self::spec_decode(bytes + field_bytes(f)) == Self::spec_decode(bytes),
    {
        reveal(CMsgClientFSGetFriendsSteamLevelsResponse::spec_decode);
        lemma_parse_fields_append(bytes, f);
        let fs = parse_fields(bytes).unwrap();
        let apply = Self::apply_fn();
        lemma_fold_concat(Self::spec_default(), fs, seq![f], apply);
        assert(fs.push(f) =~= fs + seq![f]);
        if let Ok(w) = fold_fields(Self::spec_default(), fs, apply) {
            lemma_fold_single(w, f, apply);
        }
        lemma_merge_run_fold(Self::spec_default(), bytes, apply);
        lemma_merge_run_fold(Self::spec_default(), bytes + field_bytes(f), apply);
    }

    /// Decoding the encoding of a message gives the message back.
    pub proof fn lemma_decode_encode(v: SpecCMsgClientFSGetFriendsSteamLevelsResponse)
        requires
            Self::spec_encode(v).len() <= u64::MAX,
        ensures
            Self::spec_decode(Self::spec_encode(v)) == Ok::<SpecCMsgClientFSGetFriendsSteamLevelsResponse, WireError>(v),
    {
        let apply = Self::apply_fn();
        let d = Self::spec_default();
        let p0 = Seq::<SpecField>::empty();
        let l1 = rep_bytes(1, crate::steammessages_clientserver_2::c_msg_client_fs_get_friends_steam_levels_response::Friend::spec_encode_all(v.friends));
        let p1 = p0 + l1;
        assert(parse_fields(Self::spec_encode(v)) == Ok::<Seq<SpecField>, WireError>(p1) && fields_wf(l1)) by {
            reveal(CMsgClientFSGetFriendsSteamLevelsResponse::spec_encode);
            assert(numbers_ok(p0) && fields_wf(p0)) by {
                reveal(numbers_ok);
                reveal(fields_wf);
            }
            lemma_rep_bytes_numbered(1, crate::steammessages_clientserver_2::c_msg_client_fs_get_friends_steam_levels_response::Friend::spec_encode_all(v.friends));
            lemma_fields_wf_concat(p0, l1);
            assert(p1 == Self::spec_fields(v));
            lemma_fields_wf_from_len(p1);
            lemma_fields_roundtrip(p1);
        }
        assert(Self::spec_prefix(v, 0) == d) by {
            reveal(CMsgClientFSGetFriendsSteamLevelsResponse::spec_prefix);
        }
        lemma_fold_empty(d, apply);
        lemma_fold_concat(d, p0, l1, apply);
        Self::lemma_field_friends(v);
        assert(Self::spec_prefix(v, 1) == v) by {
            reveal(CMsgClientFSGetFriendsSteamLevelsResponse::spec_prefix);
        }
        lemma_merge_run_fold(d, Self::spec_encode(v), apply);
        assert(Self::spec_decode(Self::spec_encode(v)) == Ok::<SpecCMsgClientFSGetFriendsSteamLevelsResponse, WireError>(v)) by {
            reveal(CMsgClientFSGetFriendsSteamLevelsResponse::spec_decode);
        }
    }
}

/// `CMsgClientEmailAddrInfo`, as Valve's schema declares it.
#[derive(Debug, Clone, PartialEq)]
pub struct CMsgClientEmailAddrInfo {
    /// Field 1.
    pub email_address: Option<String>,
    /// Field 2.
    pub email_is_validated: Option<bool>,
    /// Field 3.
    pub email_validation_changed: Option<bool>,
    /// Field 4.
    pub credential_change_requires_code: Option<bool>,
    /// Field 5.
    pub password_or_secretqa_change_requires_code: Option<bool>,
}

/// What a `CMsgClientEmailAddrInfo` holds, as mathematical values.
#[verifier::ext_equal]
pub struct SpecCMsgClientEmailAddrInfo {
    pub email_address: Option<Seq<char>>,
    pub email_is_validated: Option<bool>,
    pub email_validation_changed: Option<bool>,
    pub credential_change_requires_code: Option<bool>,
    pub password_or_secretqa_change_requires_code: Option<bool>,
}

impl View for CMsgClientEmailAddrInfo {
    type V = SpecCMsgClientEmailAddrInfo;

    open spec fn view(&self) -> SpecCMsgClientEmailAddrInfo {
        SpecCMsgClientEmailAddrInfo {
            email_address: opt_string_view(self.email_address),
            email_is_validated: self.email_is_validated,
            email_validation_changed: self.email_validation_changed,
            credential_change_requires_code: self.credential_change_requires_code,
            password_or_secretqa_change_requires_code: self.password_or_secretqa_change_requires_code,
        }
    }
}

impl Default for CMsgClientEmailAddrInfo {
    fn default() -> (r: Self)
        ensures
            r@ == CMsgClientEmailAddrInfo::spec_default(),
    {
        CMsgClientEmailAddrInfo {
            email_address: None,
            email_is_validated: None,
            email_validation_changed: None,
            credential_change_requires_code: None,
            password_or_secretqa_change_requires_code: None,
        }
    }
}

impl CMsgClientEmailAddrInfo {
    pub open spec fn spec_default() -> SpecCMsgClientEmailAddrInfo {
        SpecCMsgClientEmailAddrInfo {
            email_address: None,
            email_is_validated: None,
            email_validation_changed: None,
            credential_change_requires_code: None,
            password_or_secretqa_change_requires_code: None,
        }
    }

    /// The records a `CMsgClientEmailAddrInfo` is written as, in field order.
    pub open spec fn spec_fields(v: SpecCMsgClientEmailAddrInfo) -> Seq<SpecField> {
        Seq::<SpecField>::empty()
            + opt_string(1, v.email_address)
            + opt_bool(2, v.email_is_validated)
            + opt_bool(3, v.email_validation_changed)
            + opt_bool(4, v.credential_change_requires_code)
            + opt_bool(5, v.password_or_secretqa_change_requires_code)
    }

    #[verifier::opaque]
    pub open spec fn spec_encode(v: SpecCMsgClientEmailAddrInfo) -> Seq<u8> {
        fields_bytes(Self::spec_fields(v))
    }

    /// What one record does to the message: a declared number sets or extends its
    /// field, any other number is left alone.
    pub open spec fn spec_apply(v: SpecCMsgClientEmailAddrInfo, f: SpecField) -> Result<SpecCMsgClientEmailAddrInfo, WireError> {
        match f.number {
            1 => match dec_string(f.value) {
                Ok(x) => Ok(SpecCMsgClientEmailAddrInfo { email_address: Some(x), ..v }),
                Err(e) => Err(e),
            },
            2 => match dec_bool(f.value) {
                Ok(x) => Ok(SpecCMsgClientEmailAddrInfo { email_is_validated: Some(x), ..v }),
                Err(e) => Err(e),
            },
            3 => match dec_bool(f.value) {
                Ok(x) => Ok(SpecCMsgClientEmailAddrInfo { email_validation_changed: Some(x), ..v }),
                Err(e) => Err(e),
            },
            4 => match dec_bool(f.value) {
                Ok(x) => Ok(SpecCMsgClientEmailAddrInfo { credential_change_requires_code: Some(x), ..v }),
                Err(e) => Err(e),
            },
            5 => match dec_bool(f.value) {
                Ok(x) => Ok(SpecCMsgClientEmailAddrInfo { password_or_secretqa_change_requires_code: Some(x), ..v }),
                Err(e) => Err(e),
            },
            _ => Ok(v),
        }
    }

    pub open spec fn apply_fn() -> spec_fn(SpecCMsgClientEmailAddrInfo, SpecField) -> Result<SpecCMsgClientEmailAddrInfo, WireError> {
        |v: SpecCMsgClientEmailAddrInfo, f: SpecField| Self::spec_apply(v, f)
    }

    /// The message `bytes` makes of `v`: its records applied in order, or the error
    /// that stops the reading.
    pub open spec fn spec_merge(v: SpecCMsgClientEmailAddrInfo, bytes: Seq<u8>) -> Result<SpecCMsgClientEmailAddrInfo, WireError> {
        let (w, stop) = merge_run(v, bytes, Self::apply_fn());
        match stop {
            None => Ok(w),
            Some(e) => Err(e),
        }
    }

    #[verifier::opaque]
    pub open spec fn spec_decode(bytes: Seq<u8>) -> Result<SpecCMsgClientEmailAddrInfo, WireError> {
        Self::spec_merge(Self::spec_default(), bytes)
    }

    /// This message with one record applied to it, or, when the record is refused,
    /// the message unchanged and the reason.
    fn applied(self, f: &Field) -> (r: Result<Self, (Self, WireError)>)
        ensures
            match Self::spec_apply(self@, f@) {
                Ok(v) => r matches Ok(m) && m@ == v,
                Err(e) => r matches Err((m, x)) && x == e && m@ == self@,
            },
    {
        match f.number {
            1 => match read_string(&f.value) {
                Ok(x) => Ok(Self { email_address: Some(x), ..self }),
                Err(e) => Err((self, e)),
            },
            2 => match read_bool(&f.value) {
                Ok(x) => Ok(Self { email_is_validated: Some(x), ..self }),
                Err(e) => Err((self, e)),
            },
            3 => match read_bool(&f.value) {
                Ok(x) => Ok(Self { email_validation_changed: Some(x), ..self }),
                Err(e) => Err((self, e)),
            },
            4 => match read_bool(&f.value) {
                Ok(x) => Ok(Self { credential_change_requires_code: Some(x), ..self }),
                Err(e) => Err((self, e)),
            },
            5 => match read_bool(&f.value) {
                Ok(x) => Ok(Self { password_or_secretqa_change_requires_code: Some(x), ..self }),
                Err(e) => Err((self, e)),
            },
            _ => Ok(self),
        }
    }

    /// Reads the records `bytes` holds into this message, in order. When a record does
    /// not parse or is refused, the reading stops there: the message keeps what the
    /// records before it gave, and the error is returned.
    pub fn merge(&mut self, bytes: &[u8]) -> (r: Result<(), WireError>)
        ensures
            final(self)@ == merge_run(old(self)@, bytes@, Self::apply_fn()).0,
            r == match merge_run(old(self)@, bytes@, Self::apply_fn()).1 {
                None => Ok::<(), WireError>(()),
                Some(e) => Err::<(), WireError>(e),
            },
    {
        let ghost total = merge_run(self@, bytes@, Self::apply_fn());
        let mut cur = Self::default();
        std::mem::swap(&mut cur, self);
        let mut pos: usize = 0;
        assert(bytes@.skip(0) =~= bytes@);
        while pos < bytes.len()
            invariant
                pos <= bytes@.len(),
                total == merge_run(old(self)@, bytes@, Self::apply_fn()),
                merge_run(cur@, bytes@.skip(pos as int), Self::apply_fn()) == total,
            decreases bytes@.len() - pos,
        {
            let ghost s = bytes@.skip(pos as int);
            proof {
                lemma_merge_run_step(cur@, s, Self::apply_fn());
                lemma_parse_field_len(s);
            }
            match read_field(bytes, pos) {
                Ok((f, end)) => {
                    assert(bytes@.skip(end as int) =~= s.skip((end - pos) as int));
                    match cur.applied(&f) {
                        Ok(m) => {
                            cur = m;
                        },
                        Err((m, e)) => {
                            *self = m;
                            return Err(e);
                        },
                    }
                    pos = end;
                },
                Err(e) => {
                    *self = cur;
                    return Err(e);
                },
            }
        }
        assert(bytes@.skip(pos as int) =~= Seq::<u8>::empty());
        proof {
            lemma_merge_run_empty(cur@, Self::apply_fn());
        }
        *self = cur;
        Ok(())
    }

    /// Decodes a message from its encoding.
    pub fn decode(bytes: &[u8]) -> (r: Result<Self, WireError>)
        ensures
            match Self::spec_decode(bytes@) {
                Ok(v) => r matches Ok(m) && m@ == v,
                Err(e) => r matches Err(x) && x == e,
            },
    {
        proof {
            reveal(CMsgClientEmailAddrInfo::spec_decode);
        }
        let mut m = Self::default();
        match m.merge(bytes) {
            Ok(()) => Ok(m),
            Err(e) => Err(e),
        }
    }

    /// The encoding of this message.
    pub fn encode_to_vec(&self) -> (r: Vec<u8>)
        ensures
            r@ == Self::spec_encode(self@),
    {
        let ghost v = self@;
        let mut out: Vec<u8> = Vec::new();
        let ghost p0 = Seq::<SpecField>::empty();
        put_opt_string(&mut out, 1, &self.email_address);
        let ghost p1 = p0 + opt_string(1, v.email_address);
        proof {
            lemma_fields_bytes_concat(p0, opt_string(1, v.email_address));
        }
        put_opt_bool(&mut out, 2, self.email_is_validated);
        let ghost p2 = p1 + opt_bool(2, v.email_is_validated);
        proof {
            lemma_fields_bytes_concat(p1, opt_bool(2, v.email_is_validated));
        }
        put_opt_bool(&mut out, 3, self.email_validation_changed);
        let ghost p3 = p2 + opt_bool(3, v.email_validation_changed);
        proof {
            lemma_fields_bytes_concat(p2, opt_bool(3, v.email_validation_changed));
        }
        put_opt_bool(&mut out, 4, self.credential_change_requires_code);
        let ghost p4 = p3 + opt_bool(4, v.credential_change_requires_code);
        proof {
            lemma_fields_bytes_concat(p3, opt_bool(4, v.credential_change_requires_code));
        }
        put_opt_bool(&mut out, 5, self.password_or_secretqa_change_requires_code);
        let ghost p5 = p4 + opt_bool(5, v.password_or_secretqa_change_requires_code);
        proof {
            lemma_fields_bytes_concat(p4, opt_bool(5, v.password_or_secretqa_change_requires_code));
        }
        proof {
            reveal(CMsgClientEmailAddrInfo::spec_encode);
        }
        assert(p5 == Self::spec_fields(v));
        out
    }

    /// Appends the encoding of this message to `out`.
    pub fn encode_raw(&self, out: &mut Vec<u8>)
        ensures
            final(out)@ == old(out)@ + Self::spec_encode(self@),
    {
        let mut b = self.encode_to_vec();
        out.append(&mut b);
    }

    /// The first `k` fields of `v`, the others as a fresh message has them.
    #[verifier::opaque]
    pub open spec fn spec_prefix(v: SpecCMsgClientEmailAddrInfo, k: int) -> SpecCMsgClientEmailAddrInfo {
        SpecCMsgClientEmailAddrInfo {
            email_address: if 1 <= k { v.email_address } else { None },
            email_is_validated: if 2 <= k { v.email_is_validated } else { None },
            email_validation_changed: if 3 <= k { v.email_validation_changed } else { None },
            credential_change_requires_code: if 4 <= k { v.credential_change_requires_code } else { None },
            password_or_secretqa_change_requires_code: if 5 <= k { v.password_or_secretqa_change_requires_code } else { None },
        }
    }

    /// Reading field 1 back, after the fields before it.
    proof fn lemma_field_email_address(v: SpecCMsgClientEmailAddrInfo)
        ensures
            fold_fields(Self::spec_prefix(v, 0), opt_string(1, v.email_address), Self::apply_fn())
                == Ok::<SpecCMsgClientEmailAddrInfo, WireError>(Self::spec_prefix(v, 1)),
    {
        reveal(CMsgClientEmailAddrInfo::spec_prefix);
        reveal(opt_string);
        let apply = Self::apply_fn();
        let s = Self::spec_prefix(v, 0);
        lemma_fold_opt(s, 1, match v.email_address { Some(x) => Some(enc_string(x)), None => None }, apply);
        if let Some(x) = v.email_address {
            lemma_string_roundtrip(x);
        }
        assert(SpecCMsgClientEmailAddrInfo { email_address: v.email_address, ..s } == Self::spec_prefix(v, 1));
    }

    /// Reading field 2 back, after the fields before it.
    proof fn lemma_field_email_is_validated(v: SpecCMsgClientEmailAddrInfo)
        ensures
            fold_fields(Self::spec_prefix(v, 1), opt_bool(2, v.email_is_validated), Self::apply_fn())
                == Ok::<SpecCMsgClientEmailAddrInfo, WireError>(Self::spec_prefix(v, 2)),
    {
        reveal(CMsgClientEmailAddrInfo::spec_prefix);
        reveal(opt_bool);
        let apply = Self::apply_fn();
        let s = Self::spec_prefix(v, 1);
        lemma_fold_opt(s, 2, match v.email_is_validated { Some(x) => Some(enc_bool(x)), None => None }, apply);
        assert(SpecCMsgClientEmailAddrInfo { email_is_validated: v.email_is_validated, ..s } == Self::spec_prefix(v, 2));
    }

    /// Reading field 3 back, after the fields before it.
    proof fn lemma_field_email_validation_changed(v: SpecCMsgClientEmailAddrInfo)
        ensures
            fold_fields(Self::spec_prefix(v, 2), opt_bool(3, v.email_validation_changed), Self::apply_fn())
                == Ok::<SpecCMsgClientEmailAddrInfo, WireError>(Self::spec_prefix(v, 3)),
    {
        reveal(CMsgClientEmailAddrInfo::spec_prefix);
        reveal(opt_bool);
        let apply = Self::apply_fn();
        let s = Self::spec_prefix(v, 2);
        lemma_fold_opt(s, 3, match v.email_validation_changed { Some(x) => Some(enc_bool(x)), None => None }, apply);
        assert(SpecCMsgClientEmailAddrInfo { email_validation_changed: v.email_validation_changed, ..s } == Self::spec_prefix(v, 3));
    }

    /// Reading field 4 back, after the fields before it.
    proof fn lemma_field_credential_change_requires_code(v: SpecCMsgClientEmailAddrInfo)
        ensures
            fold_fields(Self::spec_prefix(v, 3), opt_bool(4, v.credential_change_requires_code), Self::apply_fn())
                == Ok::<SpecCMsgClientEmailAddrInfo, WireError>(Self::spec_prefix(v, 4)),
    {
        reveal(CMsgClientEmailAddrInfo::spec_prefix);
        reveal(opt_bool);
        let apply = Self::apply_fn();
        let s = Self::spec_prefix(v, 3);
        lemma_fold_opt(s, 4, match v.credential_change_requires_code { Some(x) => Some(enc_bool(x)), None => None }, apply);
        assert(SpecCMsgClientEmailAddrInfo { credential_change_requires_code: v.credential_change_requires_code, ..s } == Self::spec_prefix(v, 4));
    }

    /// Reading field 5 back, after the fields before it.
    proof fn lemma_field_password_or_secretqa_change_requires_code(v: SpecCMsgClientEmailAddrInfo)
        ensures
            fold_fields(Self::spec_prefix(v, 4), opt_bool(5, v.password_or_secretqa_change_requires_code), Self::apply_fn())
                == Ok::<SpecCMsgClientEmailAddrInfo, WireError>(Self::spec_prefix(v, 5)),
    {
        reveal(CMsgClientEmailAddrInfo::spec_prefix);
        reveal(opt_bool);
        let apply = Self::apply_fn();
        let s = Self::spec_prefix(v, 4);
        lemma_fold_opt(s, 5, match v.password_or_secretqa_change_requires_code { Some(x) => Some(enc_bool(x)), None => None }, apply);
        assert(SpecCMsgClientEmailAddrInfo { password_or_secretqa_change_requires_code: v.password_or_secretqa_change_requires_code, ..s } == Self::spec_prefix(v, 5));
    }

    /// Whether this message declares field number `n`.
    pub open spec fn declares(n: u32) -> bool {
        n == 1 || n == 2 || n == 3 || n == 4 || n == 5
    }

    /// A record with a number this message does not declare is passed over: well-formed
    /// bytes decode to the same message with such a record after them as without it.
    pub proof fn lemma_unknown_field(bytes: Seq<u8>, f: SpecField)
        requires
            parse_fields(bytes) is Ok,
            field_wf(f),
            !Self::declares(f.number),
        ensures
            Self::spec_decode(bytes + field_bytes(f)) == Self::spec_decode(bytes),
    {
        reveal(CMsgClientEmailAddrInfo::spec_decode);
        lemma_parse_fields_append(bytes, f);
        let fs = parse_fields(bytes).unwrap();
        let apply = Self::apply_fn();
        lemma_fold_concat(Self::spec_default(), fs, seq![f], apply);
        assert(fs.push(f) =~= fs + seq![f]);
        if let Ok(w) = fold_fields(Self::spec_default(), fs, apply) {
            lemma_fold_single(w, f, apply);
        }
        lemma_merge_run_fold(Self::spec_default(), bytes, apply);
        lemma_merge_run_fold(Self::spec_default(), bytes + field_bytes(f), apply);
    }

    /// Decoding the encoding of a message gives the message back.
    pub proof fn lemma_decode_encode(v: SpecCMsgClientEmailAddrInfo)
        requires
            Self::spec_encode(v).len() <= u64::MAX,
        ensures
            Self::spec_decode(Self::spec_encode(v)) == Ok::<SpecCMsgClientEmailAddrInfo, WireError>(v),
    {
        let apply = Self::apply_fn();
        let d = Self::spec_default();
        let p0 = Seq::<SpecField>::empty();
        let l1 = opt_string(1, v.email_address);
        let p1 = p0 + l1;
        let l2 = opt_bool(2, v.email_is_validated);
        let p2 = p1 + l2;
        let l3 = opt_bool(3, v.email_validation_changed);
        let p3 = p2 + l3;
        let l4 = opt_bool(4, v.credential_change_requires_code);
        let p4 = p3 + l4;
        let l5 = opt_bool(5, v.password_or_secretqa_change_requires_code);
        let p5 = p4 + l5;
        assert(parse_fields(Self::spec_encode(v)) == Ok::<Seq<SpecField>, WireError>(p5)) by {
            reveal(CMsgClientEmailAddrInfo::spec_encode);
            assert(numbers_ok(p0) && fields_wf(p0)) by {
                reveal(numbers_ok);
                reveal(fields_wf);
            }
            lemma_opt_string_numbered(1, v.email_address);
            lemma_fields_wf_concat(p0, l1);
            lemma_opt_bool_numbered(2, v.email_is_validated);
            lemma_fields_wf_concat(p1, l2);
            lemma_opt_bool_numbered(3, v.email_validation_changed);
            lemma_fields_wf_concat(p2, l3);
            lemma_opt_bool_numbered(4, v.credential_change_requires_code);
            lemma_fields_wf_concat(p3, l4);
            lemma_opt_bool_numbered(5, v.password_or_secretqa_change_requires_code);
            lemma_fields_wf_concat(p4, l5);
            assert(p5 == Self::spec_fields(v));
            lemma_fields_wf_from_len(p5);
            lemma_fields_roundtrip(p5);
        }
        assert(Self::spec_prefix(v, 0) == d) by {
            reveal(CMsgClientEmailAddrInfo::spec_prefix);
        }
        lemma_fold_empty(d, apply);
        lemma_fold_concat(d, p0, l1, apply);
        Self::lemma_field_email_address(v);
        lemma_fold_concat(d, p1, l2, apply);
        Self::lemma_field_email_is_validated(v);
        lemma_fold_concat(d, p2, l3, apply);
        Self::lemma_field_email_validation_changed(v);
        lemma_fold_concat(d, p3, l4, apply);
        Self::lemma_field_credential_change_requires_code(v);
        lemma_fold_concat(d, p4, l5, apply);
        Self::lemma_field_password_or_secretqa_change_requires_code(v);
        assert(Self::spec_prefix(v, 5) == v) by {
            reveal(CMsgClientEmailAddrInfo::spec_prefix);
        }
        lemma_merge_run_fold(d, Self::spec_encode(v), apply);
        assert(Self::spec_decode(Self::spec_encode(v)) == Ok::<SpecCMsgClientEmailAddrInfo, WireError>(v)) by {
            reveal(CMsgClientEmailAddrInfo::spec_decode);
        }
    }
}

/// `CMsgCREItemVoteSummary`, as Valve's schema declares it.
#[derive(Debug, Clone, PartialEq)]
pub struct CMsgCREItemVoteSummary {
    /// Field 1.
    pub published_file_ids: Vec<crate::steammessages_clientserver_2::c_msg_cre_item_vote_summary::PublishedFileId>,
}

/// What a `CMsgCREItemVoteSummary` holds, as mathematical values.
#[verifier::ext_equal]
pub struct SpecCMsgCREItemVoteSummary {
    pub published_file_ids: Seq<crate::steammessages_clientserver_2::c_msg_cre_item_vote_summary::SpecPublishedFileId>,
}

impl View for CMsgCREItemVoteSummary {
    type V = SpecCMsgCREItemVoteSummary;

    open spec fn view(&self) -> SpecCMsgCREItemVoteSummary {
        SpecCMsgCREItemVoteSummary {
            published_file_ids: crate::steammessages_clientserver_2::c_msg_cre_item_vote_summary::PublishedFileId::view_all(self.published_file_ids@),
        }
    }
}

impl Default for CMsgCREItemVoteSummary {
    fn default() -> (r: Self)
        ensures
            r@ == CMsgCREItemVoteSummary::spec_default(),
    {
        CMsgCREItemVoteSummary {
            published_file_ids: Vec::new(),
        }
    }
}

impl CMsgCREItemVoteSummary {
    pub open spec fn spec_default() -> SpecCMsgCREItemVoteSummary {
        SpecCMsgCREItemVoteSummary {
            published_file_ids: Seq::empty(),
        }
    }

    /// The records a `CMsgCREItemVoteSummary` is written as, in field order.
    pub open spec fn spec_fields(v: SpecCMsgCREItemVoteSummary) -> Seq<SpecField> {
        Seq::<SpecField>::empty()
            + rep_bytes(1, crate::steammessages_clientserver_2::c_msg_cre_item_vote_summary::PublishedFileId::spec_encode_all(v.published_file_ids))
    }

    #[verifier::opaque]
    pub open spec fn spec_encode(v: SpecCMsgCREItemVoteSummary) -> Seq<u8> {
        fields_bytes(Self::spec_fields(v))
    }

    /// What one record does to the message: a declared number sets or extends its
    /// field, any other number is left alone.
    pub open spec fn spec_apply(v: SpecCMsgCREItemVoteSummary, f: SpecField) -> Result<SpecCMsgCREItemVoteSummary, WireError> {
        match f.number {
            1 => match dec_bytes(f.value) {
                Ok(b) => match crate::steammessages_clientserver_2::c_msg_cre_item_vote_summary::PublishedFileId::spec_decode(b) {
                    Ok(m) => Ok(SpecCMsgCREItemVoteSummary { published_file_ids: v.published_file_ids.push(m), ..v }),
                    Err(e) => Err(e),
                },
                Err(e) => Err(e),
            },
            _ => Ok(v),
        }
    }

    pub open spec fn apply_fn() -> spec_fn(SpecCMsgCREItemVoteSummary, SpecField) -> Result<SpecCMsgCREItemVoteSummary, WireError> {
        |v: SpecCMsgCREItemVoteSummary, f: SpecField| Self::spec_apply(v, f)
    }

    /// The message `bytes` makes of `v`: its records applied in order, or the error
    /// that stops the reading.
    pub open spec fn spec_merge(v: SpecCMsgCREItemVoteSummary, bytes: Seq<u8>) -> Result<SpecCMsgCREItemVoteSummary, WireError> {
        let (w, stop) = merge_run(v, bytes, Self::apply_fn());
        match stop {
            None => Ok(w),
            Some(e) => Err(e),
        }
    }

    #[verifier::opaque]
    pub open spec fn spec_decode(bytes: Seq<u8>) -> Result<SpecCMsgCREItemVoteSummary, WireError> {
        Self::spec_merge(Self::spec_default(), bytes)
    }

    /// This message with one record applied to it, or, when the record is refused,
    /// the message unchanged and the reason.
    fn applied(self, f: &Field) -> (r: Result<Self, (Self, WireError)>)
        ensures
            match Self::spec_apply(self@, f@) {
                Ok(v) => r matches Ok(m) && m@ == v,
                Err(e) => r matches Err((m, x)) && x == e && m@ == self@,
            },
    {
        match f.number {
            1 => match read_payload(&f.value) {
                Ok(b) => match crate::steammessages_clientserver_2::c_msg_cre_item_vote_summary::PublishedFileId::decode(b) {
                    Ok(x) => {
                        let mut m = self;
                        let ghost before = m.published_file_ids@;
                        m.published_file_ids.push(x);
                        assert(crate::steammessages_clientserver_2::c_msg_cre_item_vote_summary::PublishedFileId::view_all(m.published_file_ids@) =~= crate::steammessages_clientserver_2::c_msg_cre_item_vote_summary::PublishedFileId::view_all(before).push(x@));
                        Ok(m)
                    },
                    Err(e) => Err((self, e)),
                },
                Err(e) => Err((self, e)),
            },
            _ => Ok(self),
        }
    }

    /// Reads the records `bytes` holds into this message, in order. When a record does
    /// not parse or is refused, the reading stops there: the message keeps what the
    /// records before it gave, and the error is returned.
    pub fn merge(&mut self, bytes: &[u8]) -> (r: Result<(), WireError>)
        ensures
            final(self)@ == merge_run(old(self)@, bytes@, Self::apply_fn()).0,
            r == match merge_run(old(self)@, bytes@, Self::apply_fn()).1 {
                None => Ok::<(), WireError>(()),
                Some(e) => Err::<(), WireError>(e),
            },
    {
        let ghost total = merge_run(self@, bytes@, Self::apply_fn());
        let mut cur = Self::default();
        std::mem::swap(&mut cur, self);
        let mut pos: usize = 0;
        assert(bytes@.skip(0) =~= bytes@);
        while pos < bytes.len()
            invariant
                pos <= bytes@.len(),
                total == merge_run(old(self)@, bytes@, Self::apply_fn()),
                merge_run(cur@, bytes@.skip(pos as int), Self::apply_fn()) == total,
            decreases bytes@.len() - pos,
        {
            let ghost s = bytes@.skip(pos as int);
            proof {
                lemma_merge_run_step(cur@, s, Self::apply_fn());
                lemma_parse_field_len(s);
            }
            match read_field(bytes, pos) {
                Ok((f, end)) => {
                    assert(bytes@.skip(end as int) =~= s.skip((end - pos) as int));
                    match cur.applied(&f) {
                        Ok(m) => {
                            cur = m;
                        },
                        Err((m, e)) => {
                            *self = m;
                            return Err(e);
                        },
                    }
                    pos = end;
                },
                Err(e) => {
                    *self = cur;
                    return Err(e);
                },
            }
        }
        assert(bytes@.skip(pos as int) =~= Seq::<u8>::empty());
        proof {
            lemma_merge_run_empty(cur@, Self::apply_fn());
        }
        *self = cur;
        Ok(())
    }

    /// Decodes a message from its encoding.
    pub fn decode(bytes: &[u8]) -> (r: Result<Self, WireError>)
        ensures
            match Self::spec_decode(bytes@) {
                Ok(v) => r matches Ok(m) && m@ == v,
                Err(e) => r matches Err(x) && x == e,
            },
    {
        proof {
            reveal(CMsgCREItemVoteSummary::spec_decode);
        }
        let mut m = Self::default();
        match m.merge(bytes) {
            Ok(()) => Ok(m),
            Err(e) => Err(e),
        }
    }

    /// The encoding of this message.
    pub fn encode_to_vec(&self) -> (r: Vec<u8>)
        ensures
            r@ == Self::spec_encode(self@),
    {
        let enc_published_file_ids = crate::steammessages_clientserver_2::c_msg_cre_item_vote_summary::PublishedFileId::encode_all(&self.published_file_ids);
        let ghost v = self@;
        let mut out: Vec<u8> = Vec::new();
        let ghost p0 = Seq::<SpecField>::empty();
        put_rep_bytes(&mut out, 1, &enc_published_file_ids);
        let ghost p1 = p0 + rep_bytes(1, crate::steammessages_clientserver_2::c_msg_cre_item_vote_summary::PublishedFileId::spec_encode_all(v.published_file_ids));
        proof {
            lemma_fields_bytes_concat(p0, rep_bytes(1, crate::steammessages_clientserver_2::c_msg_cre_item_vote_summary::PublishedFileId::spec_encode_all(v.published_file_ids)));
        }
        proof {
            reveal(CMsgCREItemVoteSummary::spec_encode);
        }
        assert(p1 == Self::spec_fields(v));
        out
    }

    /// Appends the encoding of this message to `out`.
    pub fn encode_raw(&self, out: &mut Vec<u8>)
        ensures
            final(out)@ == old(out)@ + Self::spec_encode(self@),
    {
        let mut b = self.encode_to_vec();
        out.append(&mut b);
    }

    /// The first `k` fields of `v`, the others as a fresh message has them.
    #[verifier::opaque]
    pub open spec fn spec_prefix(v: SpecCMsgCREItemVoteSummary, k: int) -> SpecCMsgCREItemVoteSummary {
        SpecCMsgCREItemVoteSummary {
            published_file_ids: if 1 <= k { v.published_file_ids } else { Seq::empty() },
        }
    }

    /// Reading field 1 back, after the fields before it.
    proof fn lemma_field_published_file_ids(v: SpecCMsgCREItemVoteSummary)
        requires
            fields_wf(rep_bytes(1, crate::steammessages_clientserver_2::c_msg_cre_item_vote_summary::PublishedFileId::spec_encode_all(v.published_file_ids))),
        ensures
            fold_fields(Self::spec_prefix(v, 0), rep_bytes(1, crate::steammessages_clientserver_2::c_msg_cre_item_vote_summary::PublishedFileId::spec_encode_all(v.published_file_ids)), Self::apply_fn())
                == Ok::<SpecCMsgCREItemVoteSummary, WireError>(Self::spec_prefix(v, 1)),
    {
        reveal(CMsgCREItemVoteSummary::spec_prefix);
        reveal(rep_bytes);
        reveal(fields_wf);
        let apply = Self::apply_fn();
        let s = Self::spec_prefix(v, 0);
        let l = rep_bytes(1, crate::steammessages_clientserver_2::c_msg_cre_item_vote_summary::PublishedFileId::spec_encode_all(v.published_file_ids));
        let xs = v.published_file_ids;
        let st = Seq::new((xs.len() + 1) as nat, |j: int| SpecCMsgCREItemVoteSummary { published_file_ids: xs.take(j), ..s });
        assert forall|j: int| 0 <= j < l.len() implies #[trigger] apply(st[j], l[j]) == Ok::<SpecCMsgCREItemVoteSummary, WireError>(st[j + 1]) by {
            assert(field_wf(l[j]));
            crate::steammessages_clientserver_2::c_msg_cre_item_vote_summary::PublishedFileId::lemma_decode_encode(xs[j]);
            assert(xs.take(j).push(xs[j]) =~= xs.take(j + 1));
        }
        lemma_fold_chain(l, st, apply);
        assert(xs.take(0) =~= Seq::<crate::steammessages_clientserver_2::c_msg_cre_item_vote_summary::SpecPublishedFileId>::empty());
        assert(xs.take(xs.len() as int) =~= xs);
        assert(st[0] == s);
        assert(st[xs.len() as int] == Self::spec_prefix(v, 1));
    }

    /// Whether this message declares field number `n`.
    pub open spec fn declares(n: u32) -> bool {
        n == 1
    }

    /// A record with a number this message does not declare is passed over: well-formed
    /// bytes decode to the same message with such a record after them as without it.
    pub proof fn lemma_unknown_field(bytes: Seq<u8>, f: SpecField)
        requires
            parse_fields(bytes) is Ok,
            field_wf(f),
            !Self::declares(f.number),
        ensures
            Self::spec_decode(bytes + field_bytes(f)) == Self::spec_decode(bytes),
    {
        reveal(CMsgCREItemVoteSummary::spec_decode);
        lemma_parse_fields_append(bytes, f);
        let fs = parse_fields(bytes).unwrap();
        let apply = Self::apply_fn();
        lemma_fold_concat(Self::spec_default(), fs, seq![f], apply);
        assert(fs.push(f) =~= fs + seq![f]);
        if let Ok(w) = fold_fields(Self::spec_default(), fs, apply) {
            lemma_fold_single(w, f, apply);
        }
        lemma_merge_run_fold(Self::spec_default(), bytes, apply);
        lemma_merge_run_fold(Self::spec_default(), bytes + field_bytes(f), apply);
    }

    /// Decoding the encoding of a message gives the message back.
    pub proof fn lemma_decode_encode(v: SpecCMsgCREItemVoteSummary)
        requires
            Self::spec_encode(v).len() <= u64::MAX,
        ensures
            Self::spec_decode(Self::spec_encode(v)) == Ok::<SpecCMsgCREItemVoteSummary, WireError>(v),
    {
        let apply = Self::apply_fn();
        let d = Self::spec_default();
        let p0 = Seq::<SpecField>::empty();
        let l1 = rep_bytes(1, crate::steammessages_clientserver_2::c_msg_cre_item_vote_summary::PublishedFileId::spec_encode_all(v.published_file_ids));
        let p1 = p0 + l1;
        assert(parse_fields(Self::spec_encode(v)) == Ok::<Seq<SpecField>, WireError>(p1) && fields_wf(l1)) by {
            reveal(CMsgCREItemVoteSummary::spec_encode);
            assert(numbers_ok(p0) && fields_wf(p0)) by {
                reveal(numbers_ok);
                reveal(fields_wf);
            }
            lemma_rep_bytes_numbered(1, crate::steammessages_clientserver_2::c_msg_cre_item_vote_summary::PublishedFileId::spec_encode_all(v.published_file_ids));
            lemma_fields_wf_concat(p0, l1);
            assert(p1 == Self::spec_fields(v));
            lemma_fields_wf_from_len(p1);
            lemma_fields_roundtrip(p1);
        }
        assert(Self::spec_prefix(v, 0) == d) by {
            reveal(CMsgCREItemVoteSummary::spec_prefix);
        }
        lemma_fold_empty(d, apply);
        lemma_fold_concat(d, p0, l1, apply);
        Self::lemma_field_published_file_ids(v);
        assert(Self::spec_prefix(v, 1) == v) by {
            reveal(CMsgCREItemVoteSummary::spec_prefix);
        }
        lemma_merge_run_fold(d, Self::spec_encode(v), apply);
        assert(Self::spec_decode(Self::spec_encode(v)) == Ok::<SpecCMsgCREItemVoteSummary, WireError>(v)) by {
            reveal(CMsgCREItemVoteSummary::spec_decode);
        }
    }
}

/// `CMsgCREItemVoteSummaryResponse`, as Valve's schema declares it.
#[derive(Debug, Clone, PartialEq)]
pub struct CMsgCREItemVoteSummaryResponse {
    /// Field 1.
    pub eresult: Option<i32>,
    /// Field 2.
    pub item_vote_summaries: Vec<crate::steammessages_clientserver_2::c_msg_cre_item_vote_summary_response::ItemVoteSummary>,
}

/// What a `CMsgCREItemVoteSummaryResponse` holds, as mathematical values.
#[verifier::ext_equal]
pub struct SpecCMsgCREItemVoteSummaryResponse {
    pub eresult: Option<i32>,
    pub item_vote_summaries: Seq<crate::steammessages_clientserver_2::c_msg_cre_item_vote_summary_response::SpecItemVoteSummary>,
}

impl View for CMsgCREItemVoteSummaryResponse {
    type V = SpecCMsgCREItemVoteSummaryResponse;

    open spec fn view(&self) -> SpecCMsgCREItemVoteSummaryResponse {
        SpecCMsgCREItemVoteSummaryResponse {
            eresult: self.eresult,
            item_vote_summaries: crate::steammessages_clientserver_2::c_msg_cre_item_vote_summary_response::ItemVoteSummary::view_all(self.item_vote_summaries@),
        }
    }
}

impl Default for CMsgCREItemVoteSummaryResponse {
    fn default() -> (r: Self)
        ensures
            r@ == CMsgCREItemVoteSummaryResponse::spec_default(),
    {
        CMsgCREItemVoteSummaryResponse {
            eresult: None,
            item_vote_summaries: Vec::new(),
        }
    }
}

impl CMsgCREItemVoteSummaryResponse {
    /// Field 1, or its schema default when absent.
    pub fn eresult_or_default(&self) -> (r: i32)
        ensures
            r == match self.eresult {
                Some(x) => x,
                None => 2i32,
            },
    {
        self.eresult.unwrap_or(2i32)
    }

    pub open spec fn spec_default() -> SpecCMsgCREItemVoteSummaryResponse {
        SpecCMsgCREItemVoteSummaryResponse {
            eresult: None,
            item_vote_summaries: Seq::empty(),
        }
    }

    /// The records a `CMsgCREItemVoteSummaryResponse` is written as, in field order.
    pub open spec fn spec_fields(v: SpecCMsgCREItemVoteSummaryResponse) -> Seq<SpecField> {
        Seq::<SpecField>::empty()
            + opt_i32(1, v.eresult)
            + rep_bytes(2, crate::steammessages_clientserver_2::c_msg_cre_item_vote_summary_response::ItemVoteSummary::spec_encode_all(v.item_vote_summaries))
    }

    #[verifier::opaque]
    pub open spec fn spec_encode(v: SpecCMsgCREItemVoteSummaryResponse) -> Seq<u8> {
        fields_bytes(Self::spec_fields(v))
    }

    /// What one record does to the message: a declared number sets or extends its
    /// field, any other number is left alone.
    pub open spec fn spec_apply(v: SpecCMsgCREItemVoteSummaryResponse, f: SpecField) -> Result<SpecCMsgCREItemVoteSummaryResponse, WireError> {
        match f.number {
            1 => match dec_i32(f.value) {
                Ok(x) => Ok(SpecCMsgCREItemVoteSummaryResponse { eresult: Some(x), ..v }),
                Err(e) => Err(e),
            },
            2 => match dec_bytes(f.value) {
                Ok(b) => match crate::steammessages_clientserver_2::c_msg_cre_item_vote_summary_response::ItemVoteSummary::spec_decode(b) {
                    Ok(m) => Ok(SpecCMsgCREItemVoteSummaryResponse { item_vote_summaries: v.item_vote_summaries.push(m), ..v }),
                    Err(e) => Err(e),
                },
                Err(e) => Err(e),
            },
            _ => Ok(v),
        }
    }

    pub open spec fn apply_fn() -> spec_fn(SpecCMsgCREItemVoteSummaryResponse, SpecField) -> Result<SpecCMsgCREItemVoteSummaryResponse, WireError> {
        |v: SpecCMsgCREItemVoteSummaryResponse, f: SpecField| Self::spec_apply(v, f)
    }

    /// The message `bytes` makes of `v`: its records applied in order, or the error
    /// that stops the reading.
    pub open spec fn spec_merge(v: SpecCMsgCREItemVoteSummaryResponse, bytes: Seq<u8>) -> Result<SpecCMsgCREItemVoteSummaryResponse, WireError> {
        let (w, stop) = merge_run(v, bytes, Self::apply_fn());
        match stop {
            None => Ok(w),
            Some(e) => Err(e),
        }
    }

    #[verifier::opaque]
    pub open spec fn spec_decode(bytes: Seq<u8>) -> Result<SpecCMsgCREItemVoteSummaryResponse, WireError> {
        Self::spec_merge(Self::spec_default(), bytes)
    }

    /// This message with one record applied to it, or, when the record is refused,
    /// the message unchanged and the reason.
    fn applied(self, f: &Field) -> (r: Result<Self, (Self, WireError)>)
        ensures
            match Self::spec_apply(self@, f@) {
                Ok(v) => r matches Ok(m) && m@ == v,
                Err(e) => r matches Err((m, x)) && x == e && m@ == self@,
            },
    {
        match f.number {
            1 => match read_i32(&f.value) {
                Ok(x) => Ok(Self { eresult: Some(x), ..self }),
                Err(e) => Err((self, e)),
            },
            2 => match read_payload(&f.value) {
                Ok(b) => match crate::steammessages_clientserver_2::c_msg_cre_item_vote_summary_response::ItemVoteSummary::decode(b) {
                    Ok(x) => {
                        let mut m = self;
                        let ghost before = m.item_vote_summaries@;
                        m.item_vote_summaries.push(x);
                        assert(crate::steammessages_clientserver_2::c_msg_cre_item_vote_summary_response::ItemVoteSummary::view_all(m.item_vote_summaries@) =~= crate::steammessages_clientserver_2::c_msg_cre_item_vote_summary_response::ItemVoteSummary::view_all(before).push(x@));
                        Ok(m)
                    },
                    Err(e) => Err((self, e)),
                },
                Err(e) => Err((self, e)),
            },
            _ => Ok(self),
        }
    }

    /// Reads the records `bytes` holds into this message, in order. When a record does
    /// not parse or is refused, the reading stops there: the message keeps what the
    /// records before it gave, and the error is returned.
    pub fn merge(&mut self, bytes: &[u8]) -> (r: Result<(), WireError>)
        ensures
            final(self)@ == merge_run(old(self)@, bytes@, Self::apply_fn()).0,
            r == match merge_run(old(self)@, bytes@, Self::apply_fn()).1 {
                None => Ok::<(), WireError>(()),
                Some(e) => Err::<(), WireError>(e),
            },
    {
        let ghost total = merge_run(self@, bytes@, Self::apply_fn());
        let mut cur = Self::default();
        std::mem::swap(&mut cur, self);
        let mut pos: usize = 0;
        assert(bytes@.skip(0) =~= bytes@);
        while pos < bytes.len()
            invariant
                pos <= bytes@.len(),
                total == merge_run(old(self)@, bytes@, Self::apply_fn()),
                merge_run(cur@, bytes@.skip(pos as int), Self::apply_fn()) == total,
            decreases bytes@.len() - pos,
        {
            let ghost s = bytes@.skip(pos as int);
            proof {
                lemma_merge_run_step(cur@, s, Self::apply_fn());
                lemma_parse_field_len(s);
            }
            match read_field(bytes, pos) {
                Ok((f, end)) => {
                    assert(bytes@.skip(end as int) =~= s.skip((end - pos) as int));
                    match cur.applied(&f) {
                        Ok(m) => {
                            cur = m;
                        },
                        Err((m, e)) => {
                            *self = m;
                            return Err(e);
                        },
                    }
                    pos = end;
                },
                Err(e) => {
                    *self = cur;
                    return Err(e);
                },
            }
        }
        assert(bytes@.skip(pos as int) =~= Seq::<u8>::empty());
        proof {
            lemma_merge_run_empty(cur@, Self::apply_fn());
        }
        *self = cur;
        Ok(())
    }

    /// Decodes a message from its encoding.
    pub fn decode(bytes: &[u8]) -> (r: Result<Self, WireError>)
        ensures
            match Self::spec_decode(bytes@) {
                Ok(v) => r matches Ok(m) && m@ == v,
                Err(e) => r matches Err(x) && x == e,
            },
    {
        proof {
            reveal(CMsgCREItemVoteSummaryResponse::spec_decode);
        }
        let mut m = Self::default();
        match m.merge(bytes) {
            Ok(()) => Ok(m),
            Err(e) => Err(e),
        }
    }

    /// The encoding of this message.
    pub fn encode_to_vec(&self) -> (r: Vec<u8>)
        ensures
            r@ == Self::spec_encode(self@),
    {
        let enc_item_vote_summaries = crate::steammessages_clientserver_2::c_msg_cre_item_vote_summary_response::ItemVoteSummary::encode_all(&self.item_vote_summaries);
        let ghost v = self@;
        let mut out: Vec<u8> = Vec::new();
        let ghost p0 = Seq::<SpecField>::empty();
        put_opt_i32(&mut out, 1, self.eresult);
        let ghost p1 = p0 + opt_i32(1, v.eresult);
        proof {
            lemma_fields_bytes_concat(p0, opt_i32(1, v.eresult));
        }
        put_rep_bytes(&mut out, 2, &enc_item_vote_summaries);
        let ghost p2 = p1 + rep_bytes(2, crate::steammessages_clientserver_2::c_msg_cre_item_vote_summary_response::ItemVoteSummary::spec_encode_all(v.item_vote_summaries));
        proof {
            lemma_fields_bytes_concat(p1, rep_bytes(2, crate::steammessages_clientserver_2::c_msg_cre_item_vote_summary_response::ItemVoteSummary::spec_encode_all(v.item_vote_summaries)));
        }
        proof {
            reveal(CMsgCREItemVoteSummaryResponse::spec_encode);
        }
        assert(p2 == Self::spec_fields(v));
        out
    }

    /// Appends the encoding of this message to `out`.
    pub fn encode_raw(&self, out: &mut Vec<u8>)
        ensures
            final(out)@ == old(out)@ + Self::spec_encode(self@),
    {
        let mut b = self.encode_to_vec();
        out.append(&mut b);
    }

    /// The first `k` fields of `v`, the others as a fresh message has them.
    #[verifier::opaque]
    pub open spec fn spec_prefix(v: SpecCMsgCREItemVoteSummaryResponse, k: int) -> SpecCMsgCREItemVoteSummaryResponse {
        SpecCMsgCREItemVoteSummaryResponse {
            eresult: if 1 <= k { v.eresult } else { None },
            item_vote_summaries: if 2 <= k { v.item_vote_summaries } else { Seq::empty() },
        }
    }

    /// Reading field 1 back, after the fields before it.
    proof fn lemma_field_eresult(v: SpecCMsgCREItemVoteSummaryResponse)
        ensures
            fold_fields(Self::spec_prefix(v, 0), opt_i32(1, v.eresult), Self::apply_fn())
                == Ok::<SpecCMsgCREItemVoteSummaryResponse, WireError>(Self::spec_prefix(v, 1)),
    {
        reveal(CMsgCREItemVoteSummaryResponse::spec_prefix);
        reveal(opt_i32);
        let apply = Self::apply_fn();
        let s = Self::spec_prefix(v, 0);
        lemma_fold_opt(s, 1, match v.eresult { Some(x) => Some(enc_i32(x)), None => None }, apply);
        if let Some(x) = v.eresult {
            lemma_i32_roundtrip(x);
        }
        assert(SpecCMsgCREItemVoteSummaryResponse { eresult: v.eresult, ..s } == Self::spec_prefix(v, 1));
    }

    /// Reading field 2 back, after the fields before it.
    proof fn lemma_field_item_vote_summaries(v: SpecCMsgCREItemVoteSummaryResponse)
        requires
            fields_wf(rep_bytes(2, crate::steammessages_clientserver_2::c_msg_cre_item_vote_summary_response::ItemVoteSummary::spec_encode_all(v.item_vote_summaries))),
        ensures
            fold_fields(Self::spec_prefix(v, 1), rep_bytes(2, crate::steammessages_clientserver_2::c_msg_cre_item_vote_summary_response::ItemVoteSummary::spec_encode_all(v.item_vote_summaries)), Self::apply_fn())
                == Ok::<SpecCMsgCREItemVoteSummaryResponse, WireError>(Self::spec_prefix(v, 2)),
    {
        reveal(CMsgCREItemVoteSummaryResponse::spec_prefix);
        reveal(rep_bytes);
        reveal(fields_wf);
        let apply = Self::apply_fn();
        let s = Self::spec_prefix(v, 1);
        let l = rep_bytes(2, crate::steammessages_clientserver_2::c_msg_cre_item_vote_summary_response::ItemVoteSummary::spec_encode_all(v.item_vote_summaries));
        let xs = v.item_vote_summaries;
        let st = Seq::new((xs.len() + 1) as nat, |j: int| SpecCMsgCREItemVoteSummaryResponse { item_vote_summaries: xs.take(j), ..s });
        assert forall|j: int| 0 <= j < l.len() implies #[trigger] apply(st[j], l[j]) == Ok::<SpecCMsgCREItemVoteSummaryResponse, WireError>(st[j + 1]) by {
            assert(field_wf(l[j]));
            crate::steammessages_clientserver_2::c_msg_cre_item_vote_summary_response::ItemVoteSummary::lemma_decode_encode(xs[j]);
            assert(xs.take(j).push(xs[j]) =~= xs.take(j + 1));
        }
        lemma_fold_chain(l, st, apply);
        assert(xs.take(0) =~= Seq::<crate::steammessages_clientserver_2::c_msg_cre_item_vote_summary_response::SpecItemVoteSummary>::empty());
        assert(xs.take(xs.len() as int) =~= xs);
        assert(st[0] == s);
        assert(st[xs.len() as int] == Self::spec_prefix(v, 2));
    }

    /// Whether this message declares field number `n`.
    pub open spec fn declares(n: u32) -> bool {
        n == 1 || n == 2
    }

    /// A record with a number this message does not declare is passed over: well-formed
    /// bytes decode to the same message with such a record after them as without it.
    pub proof fn lemma_unknown_field(bytes: Seq<u8>, f: SpecField)
        requires
            parse_fields(bytes) is Ok,
            field_wf(f),
            !Self::declares(f.number),
        ensures
            Self::spec_decode(bytes + field_bytes(f)) == Self::spec_decode(bytes),
    {
        reveal(CMsgCREItemVoteSummaryResponse::spec_decode);
        lemma_parse_fields_append(bytes, f);
        let fs = parse_fields(bytes).unwrap();
        let apply = Self::apply_fn();
        lemma_fold_concat(Self::spec_default(), fs, seq![f], apply);
        assert(fs.push(f) =~= fs + seq![f]);
        if let Ok(w) = fold_fields(Self::spec_default(), fs, apply) {
            lemma_fold_single(w, f, apply);
        }
        lemma_merge_run_fold(Self::spec_default(), bytes, apply);
        lemma_merge_run_fold(Self::spec_default(), bytes + field_bytes(f), apply);
    }

    /// Decoding the encoding of a message gives the message back.
    pub proof fn lemma_decode_encode(v: SpecCMsgCREItemVoteSummaryResponse)
        requires
            Self::spec_encode(v).len() <= u64::MAX,
        ensures
            Self::spec_decode(Self::spec_encode(v)) == Ok::<SpecCMsgCREItemVoteSummaryResponse, WireError>(v),
    {
        let apply = Self::apply_fn();
        let d = Self::spec_default();
        let p0 = Seq::<SpecField>::empty();
        let l1 = opt_i32(1, v.eresult);
        let p1 = p0 + l1;
        let l2 = rep_bytes(2, crate::steammessages_clientserver_2::c_msg_cre_item_vote_summary_response::ItemVoteSummary::spec_encode_all(v.item_vote_summaries));
        let p2 = p1 + l2;
        assert(parse_fields(Self::spec_encode(v)) == Ok::<Seq<SpecField>, WireError>(p2) && fields_wf(l2)) by {
            reveal(CMsgCREItemVoteSummaryResponse::spec_encode);
            assert(numbers_ok(p0) && fields_wf(p0)) by {
                reveal(numbers_ok);
                reveal(fields_wf);
            }
            lemma_opt_i32_numbered(1, v.eresult);
            lemma_fields_wf_concat(p0, l1);
            lemma_rep_bytes_numbered(2, crate::steammessages_clientserver_2::c_msg_cre_item_vote_summary_response::ItemVoteSummary::spec_encode_all(v.item_vote_summaries));
            lemma_fields_wf_concat(p1, l2);
            assert(p2 == Self::spec_fields(v));
            lemma_fields_wf_from_len(p2);
            lemma_fields_roundtrip(p2);
        }
        assert(Self::spec_prefix(v, 0) == d) by {
            reveal(CMsgCREItemVoteSummaryResponse::spec_prefix);
        }
        lemma_fold_empty(d, apply);
        lemma_fold_concat(d, p0, l1, apply);
        Self::lemma_field_eresult(v);
        lemma_fold_concat(d, p1, l2, apply);
        Self::lemma_field_item_vote_summaries(v);
        assert(Self::spec_prefix(v, 2) == v) by {
            reveal(CMsgCREItemVoteSummaryResponse::spec_prefix);
        }
        lemma_merge_run_fold(d, Self::spec_encode(v), apply);
        assert(Self::spec_decode(Self::spec_encode(v)) == Ok::<SpecCMsgCREItemVoteSummaryResponse, WireError>(v)) by {
            reveal(CMsgCREItemVoteSummaryResponse::spec_decode);
        }
    }
}

/// `CMsgCREUpdateUserPublishedItemVote`, as Valve's schema declares it.
#[derive(Debug, Clone, PartialEq)]
pub struct CMsgCREUpdateUserPublishedItemVote {
    /// Field 1.
    pub published_file_id: Option<u64>,
    /// Field 2.
    pub vote_up: Option<bool>,
}

/// What a `CMsgCREUpdateUserPublishedItemVote` holds, as mathematical values.
#[verifier::ext_equal]
pub struct SpecCMsgCREUpdateUserPublishedItemVote {
    pub published_file_id: Option<u64>,
    pub vote_up: Option<bool>,
}

impl View for CMsgCREUpdateUserPublishedItemVote {
    type V = SpecCMsgCREUpdateUserPublishedItemVote;

    open spec fn view(&self) -> SpecCMsgCREUpdateUserPublishedItemVote {
        SpecCMsgCREUpdateUserPublishedItemVote {
            published_file_id: self.published_file_id,
            vote_up: self.vote_up,
        }
    }
}

impl Default for CMsgCREUpdateUserPublishedItemVote {
    fn default() -> (r: Self)
        ensures
            r@ == CMsgCREUpdateUserPublishedItemVote::spec_default(),
    {
        CMsgCREUpdateUserPublishedItemVote {
            published_file_id: None,
            vote_up: None,
        }
    }
}

impl CMsgCREUpdateUserPublishedItemVote {
    pub open spec fn spec_default() -> SpecCMsgCREUpdateUserPublishedItemVote {
        SpecCMsgCREUpdateUserPublishedItemVote {
            published_file_id: None,
            vote_up: None,
        }
    }

    /// The records a `CMsgCREUpdateUserPublishedItemVote` is written as, in field order.
    pub open spec fn spec_fields(v: SpecCMsgCREUpdateUserPublishedItemVote) -> Seq<SpecField> {
        Seq::<SpecField>::empty()
            + opt_fixed64(1, v.published_file_id)
            + opt_bool(2, v.vote_up)
    }

    #[verifier::opaque]
    pub open spec fn spec_encode(v: SpecCMsgCREUpdateUserPublishedItemVote) -> Seq<u8> {
        fields_bytes(Self::spec_fields(v))
    }

    /// What one record does to the message: a declared number sets or extends its
    /// field, any other number is left alone.
    pub open spec fn spec_apply(v: SpecCMsgCREUpdateUserPublishedItemVote, f: SpecField) -> Result<SpecCMsgCREUpdateUserPublishedItemVote, WireError> {
        match f.number {
            1 => match dec_fixed64(f.value) {
                Ok(x) => Ok(SpecCMsgCREUpdateUserPublishedItemVote { published_file_id: Some(x), ..v }),
                Err(e) => Err(e),
            },
            2 => match dec_bool(f.value) {
                Ok(x) => Ok(SpecCMsgCREUpdateUserPublishedItemVote { vote_up: Some(x), ..v }),
                Err(e) => Err(e),
            },
            _ => Ok(v),
        }
    }

    pub open spec fn apply_fn() -> spec_fn(SpecCMsgCREUpdateUserPublishedItemVote, SpecField) -> Result<SpecCMsgCREUpdateUserPublishedItemVote, WireError> {
        |v: SpecCMsgCREUpdateUserPublishedItemVote, f: SpecField| Self::spec_apply(v, f)
    }

    /// The message `bytes` makes of `v`: its records applied in order, or the error
    /// that stops the reading.
    pub open spec fn spec_merge(v: SpecCMsgCREUpdateUserPublishedItemVote, bytes: Seq<u8>) -> Result<SpecCMsgCREUpdateUserPublishedItemVote, WireError> {
        let (w, stop) = merge_run(v, bytes, Self::apply_fn());
        match stop {
            None => Ok(w),
            Some(e) => Err(e),
        }
    }

    #[verifier::opaque]
    pub open spec fn spec_decode(bytes: Seq<u8>) -> Result<SpecCMsgCREUpdateUserPublishedItemVote, WireError> {
        Self::spec_merge(Self::spec_default(), bytes)
    }

    /// This message with one record applied to it, or, when the record is refused,
    /// the message unchanged and the reason.
    fn applied(self, f: &Field) -> (r: Result<Self, (Self, WireError)>)
        ensures
            match Self::spec_apply(self@, f@) {
                Ok(v) => r matches Ok(m) && m@ == v,
                Err(e) => r matches Err((m, x)) && x == e && m@ == self@,
            },
    {
        match f.number {
            1 => match read_fixed64(&f.value) {
                Ok(x) => Ok(Self { published_file_id: Some(x), ..self }),
                Err(e) => Err((self, e)),
            },
            2 => match read_bool(&f.value) {
                Ok(x) => Ok(Self { vote_up: Some(x), ..self }),
                Err(e) => Err((self, e)),
            },
            _ => Ok(self),
        }
    }

    /// Reads the records `bytes` holds into this message, in order. When a record does
    /// not parse or is refused, the reading stops there: the message keeps what the
    /// records before it gave, and the error is returned.
    pub fn merge(&mut self, bytes: &[u8]) -> (r: Result<(), WireError>)
        ensures
            final(self)@ == merge_run(old(self)@, bytes@, Self::apply_fn()).0,
            r == match merge_run(old(self)@, bytes@, Self::apply_fn()).1 {
                None => Ok::<(), WireError>(()),
                Some(e) => Err::<(), WireError>(e),
            },
    {
        let ghost total = merge_run(self@, bytes@, Self::apply_fn());
        let mut cur = Self::default();
        std::mem::swap(&mut cur, self);
        let mut pos: usize = 0;
        assert(bytes@.skip(0) =~= bytes@);
        while pos < bytes.len()
            invariant
                pos <= bytes@.len(),
                total == merge_run(old(self)@, bytes@, Self::apply_fn()),
                merge_run(cur@, bytes@.skip(pos as int), Self::apply_fn()) == total,
            decreases bytes@.len() - pos,
        {
            let ghost s = bytes@.skip(pos as int);
            proof {
                lemma_merge_run_step(cur@, s, Self::apply_fn());
                lemma_parse_field_len(s);
            }
            match read_field(bytes, pos) {
                Ok((f, end)) => {
                    assert(bytes@.skip(end as int) =~= s.skip((end - pos) as int));
                    match cur.applied(&f) {
                        Ok(m) => {
                            cur = m;
                        },
                        Err((m, e)) => {
                            *self = m;
                            return Err(e);
                        },
                    }
                    pos = end;
                },
                Err(e) => {
                    *self = cur;
                    return Err(e);
                },
            }
        }
        assert(bytes@.skip(pos as int) =~= Seq::<u8>::empty());
        proof {
            lemma_merge_run_empty(cur@, Self::apply_fn());
        }
        *self = cur;
        Ok(())
    }

    /// Decodes a message from its encoding.
    pub fn decode(bytes: &[u8]) -> (r: Result<Self, WireError>)
        ensures
            match Self::spec_decode(bytes@) {
                Ok(v) => r matches Ok(m) && m@ == v,
                Err(e) => r matches Err(x) && x == e,
            },
    {
        proof {
            reveal(CMsgCREUpdateUserPublishedItemVote::spec_decode);
        }
        let mut m = Self::default();
        match m.merge(bytes) {
            Ok(()) => Ok(m),
            Err(e) => Err(e),
        }
    }

    /// The encoding of this message.
    pub fn encode_to_vec(&self) -> (r: Vec<u8>)
        ensures
            r@ == Self::spec_encode(self@),
    {
        let ghost v = self@;
        let mut out: Vec<u8> = Vec::new();
        let ghost p0 = Seq::<SpecField>::empty();
        put_opt_fixed64(&mut out, 1, self.published_file_id);
        let ghost p1 = p0 + opt_fixed64(1, v.published_file_id);
        proof {
            lemma_fields_bytes_concat(p0, opt_fixed64(1, v.published_file_id));
        }
        put_opt_bool(&mut out, 2, self.vote_up);
        let ghost p2 = p1 + opt_bool(2, v.vote_up);
        proof {
            lemma_fields_bytes_concat(p1, opt_bool(2, v.vote_up));
        }
        proof {
            reveal(CMsgCREUpdateUserPublishedItemVote::spec_encode);
        }
        assert(p2 == Self::spec_fields(v));
        out
    }

    /// Appends the encoding of this message to `out`.
    pub fn encode_raw(&self, out: &mut Vec<u8>)
        ensures
            final(out)@ == old(out)@ + Self::spec_encode(self@),
    {
        let mut b = self.encode_to_vec();
        out.append(&mut b);
    }

    /// The first `k` fields of `v`, the others as a fresh message has them.
    #[verifier::opaque]
    pub open spec fn spec_prefix(v: SpecCMsgCREUpdateUserPublishedItemVote, k: int) -> SpecCMsgCREUpdateUserPublishedItemVote {
        SpecCMsgCREUpdateUserPublishedItemVote {
            published_file_id: if 1 <= k { v.published_file_id } else { None },
            vote_up: if 2 <= k { v.vote_up } else { None },
        }
    }

    /// Reading field 1 back, after the fields before it.
    proof fn lemma_field_published_file_id(v: SpecCMsgCREUpdateUserPublishedItemVote)
        ensures
            fold_fields(Self::spec_prefix(v, 0), opt_fixed64(1, v.published_file_id), Self::apply_fn())
                == Ok::<SpecCMsgCREUpdateUserPublishedItemVote, WireError>(Self::spec_prefix(v, 1)),
    {
        reveal(CMsgCREUpdateUserPublishedItemVote::spec_prefix);
        reveal(opt_fixed64);
        let apply = Self::apply_fn();
        let s = Self::spec_prefix(v, 0);
        lemma_fold_opt(s, 1, match v.published_file_id { Some(x) => Some(enc_fixed64(x)), None => None }, apply);
        if let Some(x) = v.published_file_id {
            lemma_u64_roundtrip(x);
        }
        assert(SpecCMsgCREUpdateUserPublishedItemVote { published_file_id: v.published_file_id, ..s } == Self::spec_prefix(v, 1));
    }

    /// Reading field 2 back, after the fields before it.
    proof fn lemma_field_vote_up(v: SpecCMsgCREUpdateUserPublishedItemVote)
        ensures
            fold_fields(Self::spec_prefix(v, 1), opt_bool(2, v.vote_up), Self::apply_fn())
                == Ok::<SpecCMsgCREUpdateUserPublishedItemVote, WireError>(Self::spec_prefix(v, 2)),
    {
        reveal(CMsgCREUpdateUserPublishedItemVote::spec_prefix);
        reveal(opt_bool);
        let apply = Self::apply_fn();
        let s = Self::spec_prefix(v, 1);
        lemma_fold_opt(s, 2, match v.vote_up { Some(x) => Some(enc_bool(x)), None => None }, apply);
        assert(SpecCMsgCREUpdateUserPublishedItemVote { vote_up: v.vote_up, ..s } == Self::spec_prefix(v, 2));
    }

    /// Whether this message declares field number `n`.
    pub open spec fn declares(n: u32) -> bool {
        n == 1 || n == 2
    }

    /// A record with a number this message does not declare is passed over: well-formed
    /// bytes decode to the same message with such a record after them as without it.
    pub proof fn lemma_unknown_field(bytes: Seq<u8>, f: SpecField)
        requires
            parse_fields(bytes) is Ok,
            field_wf(f),
            !Self::declares(f.number),
        ensures
            Self::spec_decode(bytes + field_bytes(f)) == Self::spec_decode(bytes),
    {
        reveal(CMsgCREUpdateUserPublishedItemVote::spec_decode);
        lemma_parse_fields_append(bytes, f);
        let fs = parse_fields(bytes).unwrap();
        let apply = Self::apply_fn();
        lemma_fold_concat(Self::spec_default(), fs, seq![f], apply);
        assert(fs.push(f) =~= fs + seq![f]);
        if let Ok(w) = fold_fields(Self::spec_default(), fs, apply) {
            lemma_fold_single(w, f, apply);
        }
        lemma_merge_run_fold(Self::spec_default(), bytes, apply);
        lemma_merge_run_fold(Self::spec_default(), bytes + field_bytes(f), apply);
    }

    /// Decoding the encoding of a message gives the message back.
    pub proof fn lemma_decode_encode(v: SpecCMsgCREUpdateUserPublishedItemVote)
        requires
            Self::spec_encode(v).len() <= u64::MAX,
        ensures
            Self::spec_decode(Self::spec_encode(v)) == Ok::<SpecCMsgCREUpdateUserPublishedItemVote, WireError>(v),
    {
        let apply = Self::apply_fn();
        let d = Self::spec_default();
        let p0 = Seq::<SpecField>::empty();
        let l1 = opt_fixed64(1, v.published_file_id);
        let p1 = p0 + l1;
        let l2 = opt_bool(2, v.vote_up);
        let p2 = p1 + l2;
        assert(parse_fields(Self::spec_encode(v)) == Ok::<Seq<SpecField>, WireError>(p2)) by {
            reveal(CMsgCREUpdateUserPublishedItemVote::spec_encode);
            assert(numbers_ok(p0) && fields_wf(p0)) by {
                reveal(numbers_ok);
                reveal(fields_wf);
            }
            lemma_opt_fixed64_numbered(1, v.published_file_id);
            lemma_fields_wf_concat(p0, l1);
            lemma_opt_bool_numbered(2, v.vote_up);
            lemma_fields_wf_concat(p1, l2);
            assert(p2 == Self::spec_fields(v));
            lemma_fields_wf_from_len(p2);
            lemma_fields_roundtrip(p2);
        }
        assert(Self::spec_prefix(v, 0) == d) by {
            reveal(CMsgCREUpdateUserPublishedItemVote::spec_prefix);
        }
        lemma_fold_empty(d, apply);
        lemma_fold_concat(d, p0, l1, apply);
        Self::lemma_field_published_file_id(v);
        lemma_fold_concat(d, p1, l2, apply);
        Self::lemma_field_vote_up(v);
        assert(Self::spec_prefix(v, 2) == v) by {
            reveal(CMsgCREUpdateUserPublishedItemVote::spec_prefix);
        }
        lemma_merge_run_fold(d, Self::spec_encode(v), apply);
        assert(Self::spec_decode(Self::spec_encode(v)) == Ok::<SpecCMsgCREUpdateUserPublishedItemVote, WireError>(v)) by {
            reveal(CMsgCREUpdateUserPublishedItemVote::spec_decode);
        }
    }
}

/// `CMsgCREUpdateUserPublishedItemVoteResponse`, as Valve's schema declares it.
#[derive(Debug, Clone, PartialEq)]
pub struct CMsgCREUpdateUserPublishedItemVoteResponse {
    /// Field 1.
    pub eresult: Option<i32>,
}

/// What a `CMsgCREUpdateUserPublishedItemVoteResponse` holds, as mathematical values.
#[verifier::ext_equal]
pub struct SpecCMsgCREUpdateUserPublishedItemVoteResponse {
    pub eresult: Option<i32>,
}

impl View for CMsgCREUpdateUserPublishedItemVoteResponse {
    type V = SpecCMsgCREUpdateUserPublishedItemVoteResponse;

    open spec fn view(&self) -> SpecCMsgCREUpdateUserPublishedItemVoteResponse {
        SpecCMsgCREUpdateUserPublishedItemVoteResponse {
            eresult: self.eresult,
        }
    }
}

impl Default for CMsgCREUpdateUserPublishedItemVoteResponse {
    fn default() -> (r: Self)
        ensures
            r@ == CMsgCREUpdateUserPublishedItemVoteResponse::spec_default(),
    {
        CMsgCREUpdateUserPublishedItemVoteResponse {
            eresult: None,
        }
    }
}

impl CMsgCREUpdateUserPublishedItemVoteResponse {
    /// Field 1, or its schema default when absent.
    pub fn eresult_or_default(&self) -> (r: i32)
        ensures
            r == match self.eresult {
                Some(x) => x,
                None => 2i32,
            },
    {
        self.eresult.unwrap_or(2i32)
    }

    pub open spec fn spec_default() -> SpecCMsgCREUpdateUserPublishedItemVoteResponse {
        SpecCMsgCREUpdateUserPublishedItemVoteResponse {
            eresult: None,
        }
    }

    /// The records a `CMsgCREUpdateUserPublishedItemVoteResponse` is written as, in field order.
    pub open spec fn spec_fields(v: SpecCMsgCREUpdateUserPublishedItemVoteResponse) -> Seq<SpecField> {
        Seq::<SpecField>::empty()
            + opt_i32(1, v.eresult)
    }

    #[verifier::opaque]
    pub open spec fn spec_encode(v: SpecCMsgCREUpdateUserPublishedItemVoteResponse) -> Seq<u8> {
        fields_bytes(Self::spec_fields(v))
    }

    /// What one record does to the message: a declared number sets or extends its
    /// field, any other number is left alone.
    pub open spec fn spec_apply(v: SpecCMsgCREUpdateUserPublishedItemVoteResponse, f: SpecField) -> Result<SpecCMsgCREUpdateUserPublishedItemVoteResponse, WireError> {
        match f.number {
            1 => match dec_i32(f.value) {
                Ok(x) => Ok(SpecCMsgCREUpdateUserPublishedItemVoteResponse { eresult: Some(x), ..v }),
                Err(e) => Err(e),
            },
            _ => Ok(v),
        }
    }

    pub open spec fn apply_fn() -> spec_fn(SpecCMsgCREUpdateUserPublishedItemVoteResponse, SpecField) -> Result<SpecCMsgCREUpdateUserPublishedItemVoteResponse, WireError> {
        |v: SpecCMsgCREUpdateUserPublishedItemVoteResponse, f: SpecField| Self::spec_apply(v, f)
    }

    /// The message `bytes` makes of `v`: its records applied in order, or the error
    /// that stops the reading.
    pub open spec fn spec_merge(v: SpecCMsgCREUpdateUserPublishedItemVoteResponse, bytes: Seq<u8>) -> Result<SpecCMsgCREUpdateUserPublishedItemVoteResponse, WireError> {
        let (w, stop) = merge_run(v, bytes, Self::apply_fn());
        match stop {
            None => Ok(w),
            Some(e) => Err(e),
        }
    }

    #[verifier::opaque]
    pub open spec fn spec_decode(bytes: Seq<u8>) -> Result<SpecCMsgCREUpdateUserPublishedItemVoteResponse, WireError> {
        Self::spec_merge(Self::spec_default(), bytes)
    }

    /// This message with one record applied to it, or, when the record is refused,
    /// the message unchanged and the reason.
    fn applied(self, f: &Field) -> (r: Result<Self, (Self, WireError)>)
        ensures
            match Self::spec_apply(self@, f@) {
                Ok(v) => r matches Ok(m) && m@ == v,
                Err(e) => r matches Err((m, x)) && x == e && m@ == self@,
            },
    {
        match f.number {
            1 => match read_i32(&f.value) {
                Ok(x) => Ok(Self { eresult: Some(x), ..self }),
                Err(e) => Err((self, e)),
            },
            _ => Ok(self),
        }
    }

    /// Reads the records `bytes` holds into this message, in order. When a record does
    /// not parse or is refused, the reading stops there: the message keeps what the
    /// records before it gave, and the error is returned.
    pub fn merge(&mut self, bytes: &[u8]) -> (r: Result<(), WireError>)
        ensures
            final(self)@ == merge_run(old(self)@, bytes@, Self::apply_fn()).0,
            r == match merge_run(old(self)@, bytes@, Self::apply_fn()).1 {
                None => Ok::<(), WireError>(()),
                Some(e) => Err::<(), WireError>(e),
            },
    {
        let ghost total = merge_run(self@, bytes@, Self::apply_fn());
        let mut cur = Self::default();
        std::mem::swap(&mut cur, self);
        let mut pos: usize = 0;
        assert(bytes@.skip(0) =~= bytes@);
        while pos < bytes.len()
            invariant
                pos <= bytes@.len(),
                total == merge_run(old(self)@, bytes@, Self::apply_fn()),
                merge_run(cur@, bytes@.skip(pos as int), Self::apply_fn()) == total,
            decreases bytes@.len() - pos,
        {
            let ghost s = bytes@.skip(pos as int);
            proof {
                lemma_merge_run_step(cur@, s, Self::apply_fn());
                lemma_parse_field_len(s);
            }
            match read_field(bytes, pos) {
                Ok((f, end)) => {
                    assert(bytes@.skip(end as int) =~= s.skip((end - pos) as int));
                    match cur.applied(&f) {
                        Ok(m) => {
                            cur = m;
                        },
                        Err((m, e)) => {
                            *self = m;
                            return Err(e);
                        },
                    }
                    pos = end;
                },
                Err(e) => {
                    *self = cur;
                    return Err(e);
                },
            }
        }
        assert(bytes@.skip(pos as int) =~= Seq::<u8>::empty());
        proof {
            lemma_merge_run_empty(cur@, Self::apply_fn());
        }
        *self = cur;
        Ok(())
    }

    /// Decodes a message from its encoding.
    pub fn decode(bytes: &[u8]) -> (r: Result<Self, WireError>)
        ensures
            match Self::spec_decode(bytes@) {
                Ok(v) => r matches Ok(m) && m@ == v,
                Err(e) => r matches Err(x) && x == e,
            },
    {
        proof {
            reveal(CMsgCREUpdateUserPublishedItemVoteResponse::spec_decode);
        }
        let mut m = Self::default();
        match m.merge(bytes) {
            Ok(()) => Ok(m),
            Err(e) => Err(e),
        }
    }

    /// The encoding of this message.
    pub fn encode_to_vec(&self) -> (r: Vec<u8>)
        ensures
            r@ == Self::spec_encode(self@),
    {
        let ghost v = self@;
        let mut out: Vec<u8> = Vec::new();
        let ghost p0 = Seq::<SpecField>::empty();
        put_opt_i32(&mut out, 1, self.eresult);
        let ghost p1 = p0 + opt_i32(1, v.eresult);
        proof {
            lemma_fields_bytes_concat(p0, opt_i32(1, v.eresult));
        }
        proof {
            reveal(CMsgCREUpdateUserPublishedItemVoteResponse::spec_encode);
        }
        assert(p1 == Self::spec_fields(v));
        out
    }

    /// Appends the encoding of this message to `out`.
    pub fn encode_raw(&self, out: &mut Vec<u8>)
        ensures
            final(out)@ == old(out)@ + Self::spec_encode(self@),
    {
        let mut b = self.encode_to_vec();
        out.append(&mut b);
    }

    /// The first `k` fields of `v`, the others as a fresh message has them.
    #[verifier::opaque]
    pub open spec fn spec_prefix(v: SpecCMsgCREUpdateUserPublishedItemVoteResponse, k: int) -> SpecCMsgCREUpdateUserPublishedItemVoteResponse {
        SpecCMsgCREUpdateUserPublishedItemVoteResponse {
            eresult: if 1 <= k { v.eresult } else { None },
        }
    }

    /// Reading field 1 back, after the fields before it.
    proof fn lemma_field_eresult(v: SpecCMsgCREUpdateUserPublishedItemVoteResponse)
        ensures
            fold_fields(Self::spec_prefix(v, 0), opt_i32(1, v.eresult), Self::apply_fn())
                == Ok::<SpecCMsgCREUpdateUserPublishedItemVoteResponse, WireError>(Self::spec_prefix(v, 1)),
    {
        reveal(CMsgCREUpdateUserPublishedItemVoteResponse::spec_prefix);
        reveal(opt_i32);
        let apply = Self::apply_fn();
        let s = Self::spec_prefix(v, 0);
        lemma_fold_opt(s, 1, match v.eresult { Some(x) => Some(enc_i32(x)), None => None }, apply);
        if let Some(x) = v.eresult {
            lemma_i32_roundtrip(x);
        }
        assert(SpecCMsgCREUpdateUserPublishedItemVoteResponse { eresult: v.eresult, ..s } == Self::spec_prefix(v, 1));
    }

    /// Whether this message declares field number `n`.
    pub open spec fn declares(n: u32) -> bool {
        n == 1
    }

    /// A record with a number this message does not declare is passed over: well-formed
    /// bytes decode to the same message with such a record after them as without it.
    pub proof fn lemma_unknown_field(bytes: Seq<u8>, f: SpecField)
        requires
            parse_fields(bytes) is Ok,
            field_wf(f),
            !Self::declares(f.number),
        ensures
            Self::spec_decode(bytes + field_bytes(f)) == Self::spec_decode(bytes),
    {
        reveal(CMsgCREUpdateUserPublishedItemVoteResponse::spec_decode);
        lemma_parse_fields_append(bytes, f);
        let fs = parse_fields(bytes).unwrap();
        let apply = Self::apply_fn();
        lemma_fold_concat(Self::spec_default(), fs, seq![f], apply);
        assert(fs.push(f) =~= fs + seq![f]);
        if let Ok(w) = fold_fields(Self::spec_default(), fs, apply) {
            lemma_fold_single(w, f, apply);
        }
        lemma_merge_run_fold(Self::spec_default(), bytes, apply);
        lemma_merge_run_fold(Self::spec_default(), bytes + field_bytes(f), apply);
    }

    /// Decoding the encoding of a message gives the message back.
    pub proof fn lemma_decode_encode(v: SpecCMsgCREUpdateUserPublishedItemVoteResponse)
        requires
            Self::spec_encode(v).len() <= u64::MAX,
        ensures
            Self::spec_decode(Self::spec_encode(v)) == Ok::<SpecCMsgCREUpdateUserPublishedItemVoteResponse, WireError>(v),
    {
        let apply = Self::apply_fn();
        let d = Self::spec_default();
        let p0 = Seq::<SpecField>::empty();
        let l1 = opt_i32(1, v.eresult);
        let p1 = p0 + l1;
        assert(parse_fields(Self::spec_encode(v)) == Ok::<Seq<SpecField>, WireError>(p1)) by {
            reveal(CMsgCREUpdateUserPublishedItemVoteResponse::spec_encode);
            assert(numbers_ok(p0) && fields_wf(p0)) by {
                reveal(numbers_ok);
                reveal(fields_wf);
            }
            lemma_opt_i32_numbered(1, v.eresult);
            lemma_fields_wf_concat(p0, l1);
            assert(p1 == Self::spec_fields(v));
            lemma_fields_wf_from_len(p1);
            lemma_fields_roundtrip(p1);
        }
        assert(Self::spec_prefix(v, 0) == d) by {
            reveal(CMsgCREUpdateUserPublishedItemVoteResponse::spec_prefix);
        }
        lemma_fold_empty(d, apply);
        lemma_fold_concat(d, p0, l1, apply);
        Self::lemma_field_eresult(v);
        assert(Self::spec_prefix(v, 1) == v) by {
            reveal(CMsgCREUpdateUserPublishedItemVoteResponse::spec_prefix);
        }
        lemma_merge_run_fold(d, Self::spec_encode(v), apply);
        assert(Self::spec_decode(Self::spec_encode(v)) == Ok::<SpecCMsgCREUpdateUserPublishedItemVoteResponse, WireError>(v)) by {
            reveal(CMsgCREUpdateUserPublishedItemVoteResponse::spec_decode);
        }
    }
}

/// `CMsgCREGetUserPublishedItemVoteDetails`, as Valve's schema declares it.
#[derive(Debug, Clone, PartialEq)]
pub struct CMsgCREGetUserPublishedItemVoteDetails {
    /// Field 1.
    pub published_file_ids: Vec<crate::steammessages_clientserver_2::c_msg_cre_get_user_published_item_vote_details::PublishedFileId>,
}

/// What a `CMsgCREGetUserPublishedItemVoteDetails` holds, as mathematical values.
#[verifier::ext_equal]
pub struct SpecCMsgCREGetUserPublishedItemVoteDetails {
    pub published_file_ids: Seq<crate::steammessages_clientserver_2::c_msg_cre_get_user_published_item_vote_details::SpecPublishedFileId>,
}

impl View for CMsgCREGetUserPublishedItemVoteDetails {
    type V = SpecCMsgCREGetUserPublishedItemVoteDetails;

    open spec fn view(&self) -> SpecCMsgCREGetUserPublishedItemVoteDetails {
        SpecCMsgCREGetUserPublishedItemVoteDetails {
            published_file_ids: crate::steammessages_clientserver_2::c_msg_cre_get_user_published_item_vote_details::PublishedFileId::view_all(self.published_file_ids@),
        }
    }
}

impl Default for CMsgCREGetUserPublishedItemVoteDetails {
    fn default() -> (r: Self)
        ensures
            r@ == CMsgCREGetUserPublishedItemVoteDetails::spec_default(),
    {
        CMsgCREGetUserPublishedItemVoteDetails {
            published_file_ids: Vec::new(),
        }
    }
}

impl CMsgCREGetUserPublishedItemVoteDetails {
    pub open spec fn spec_default() -> SpecCMsgCREGetUserPublishedItemVoteDetails {
        SpecCMsgCREGetUserPublishedItemVoteDetails {
            published_file_ids: Seq::empty(),
        }
    }

    /// The records a `CMsgCREGetUserPublishedItemVoteDetails` is written as, in field order.
    pub open spec fn spec_fields(v: SpecCMsgCREGetUserPublishedItemVoteDetails) -> Seq<SpecField> {
        Seq::<SpecField>::empty()
            + rep_bytes(1, crate::steammessages_clientserver_2::c_msg_cre_get_user_published_item_vote_details::PublishedFileId::spec_encode_all(v.published_file_ids))
    }

    #[verifier::opaque]
    pub open spec fn spec_encode(v: SpecCMsgCREGetUserPublishedItemVoteDetails) -> Seq<u8> {
        fields_bytes(Self::spec_fields(v))
    }

    /// What one record does to the message: a declared number sets or extends its
    /// field, any other number is left alone.
    pub open spec fn spec_apply(v: SpecCMsgCREGetUserPublishedItemVoteDetails, f: SpecField) -> Result<SpecCMsgCREGetUserPublishedItemVoteDetails, WireError> {
        match f.number {
            1 => match dec_bytes(f.value) {
                Ok(b) => match crate::steammessages_clientserver_2::c_msg_cre_get_user_published_item_vote_details::PublishedFileId::spec_decode(b) {
                    Ok(m) => Ok(SpecCMsgCREGetUserPublishedItemVoteDetails { published_file_ids: v.published_file_ids.push(m), ..v }),
                    Err(e) => Err(e),
                },
                Err(e) => Err(e),
            },
            _ => Ok(v),
        }
    }

    pub open spec fn apply_fn() -> spec_fn(SpecCMsgCREGetUserPublishedItemVoteDetails, SpecField) -> Result<SpecCMsgCREGetUserPublishedItemVoteDetails, WireError> {
        |v: SpecCMsgCREGetUserPublishedItemVoteDetails, f: SpecField| Self::spec_apply(v, f)
    }

    /// The message `bytes` makes of `v`: its records applied in order, or the error
    /// that stops the reading.
    pub open spec fn spec_merge(v: SpecCMsgCREGetUserPublishedItemVoteDetails, bytes: Seq<u8>) -> Result<SpecCMsgCREGetUserPublishedItemVoteDetails, WireError> {
        let (w, stop) = merge_run(v, bytes, Self::apply_fn());
        match stop {
            None => Ok(w),
            Some(e) => Err(e),
        }
    }

    #[verifier::opaque]
    pub open spec fn spec_decode(bytes: Seq<u8>) -> Result<SpecCMsgCREGetUserPublishedItemVoteDetails, WireError> {
        Self::spec_merge(Self::spec_default(), bytes)
    }

    /// This message with one record applied to it, or, when the record is refused,
    /// the message unchanged and the reason.
    fn applied(self, f: &Field) -> (r: Result<Self, (Self, WireError)>)
        ensures
            match Self::spec_apply(self@, f@) {
                Ok(v) => r matches Ok(m) && m@ == v,
                Err(e) => r matches Err((m, x)) && x == e && m@ == self@,
            },
    {
        match f.number {
            1 => match read_payload(&f.value) {
                Ok(b) => match crate::steammessages_clientserver_2::c_msg_cre_get_user_published_item_vote_details::PublishedFileId::decode(b) {
                    Ok(x) => {
                        let mut m = self;
                        let ghost before = m.published_file_ids@;
                        m.published_file_ids.push(x);
                        assert(crate::steammessages_clientserver_2::c_msg_cre_get_user_published_item_vote_details::PublishedFileId::view_all(m.published_file_ids@) =~= crate::steammessages_clientserver_2::c_msg_cre_get_user_published_item_vote_details::PublishedFileId::view_all(before).push(x@));
                        Ok(m)
                    },
                    Err(e) => Err((self, e)),
                },
                Err(e) => Err((self, e)),
            },
            _ => Ok(self),
        }
    }

    /// Reads the records `bytes` holds into this message, in order. When a record does
    /// not parse or is refused, the reading stops there: the message keeps what the
    /// records before it gave, and the error is returned.
    pub fn merge(&mut self, bytes: &[u8]) -> (r: Result<(), WireError>)
        ensures
            final(self)@ == merge_run(old(self)@, bytes@, Self::apply_fn()).0,
            r == match merge_run(old(self)@, bytes@, Self::apply_fn()).1 {
                None => Ok::<(), WireError>(()),
                Some(e) => Err::<(), WireError>(e),
            },
    {
        let ghost total = merge_run(self@, bytes@, Self::apply_fn());
        let mut cur = Self::default();
        std::mem::swap(&mut cur, self);
        let mut pos: usize = 0;
        assert(bytes@.skip(0) =~= bytes@);
        while pos < bytes.len()
            invariant
                pos <= bytes@.len(),
                total == merge_run(old(self)@, bytes@, Self::apply_fn()),
                merge_run(cur@, bytes@.skip(pos as int), Self::apply_fn()) == total,
            decreases bytes@.len() - pos,
        {
            let ghost s = bytes@.skip(pos as int);
            proof {
                lemma_merge_run_step(cur@, s, Self::apply_fn());
                lemma_parse_field_len(s);
            }
            match read_field(bytes, pos) {
                Ok((f, end)) => {
                    assert(bytes@.skip(end as int) =~= s.skip((end - pos) as int));
                    match cur.applied(&f) {
                        Ok(m) => {
                            cur = m;
                        },
                        Err((m, e)) => {
                            *self = m;
                            return Err(e);
                        },
                    }
                    pos = end;
                },
                Err(e) => {
                    *self = cur;
                    return Err(e);
                },
            }
        }
        assert(bytes@.skip(pos as int) =~= Seq::<u8>::empty());
        proof {
            lemma_merge_run_empty(cur@, Self::apply_fn());
        }
        *self = cur;
        Ok(())
    }

    /// Decodes a message from its encoding.
    pub fn decode(bytes: &[u8]) -> (r: Result<Self, WireError>)
        ensures
            match Self::spec_decode(bytes@) {
                Ok(v) => r matches Ok(m) && m@ == v,
                Err(e) => r matches Err(x) && x == e,
            },
    {
        proof {
            reveal(CMsgCREGetUserPublishedItemVoteDetails::spec_decode);
        }
        let mut m = Self::default();
        match m.merge(bytes) {
            Ok(()) => Ok(m),
            Err(e) => Err(e),
        }
    }

    /// The encoding of this message.
    pub fn encode_to_vec(&self) -> (r: Vec<u8>)
        ensures
            r@ == Self::spec_encode(self@),
    {
        let enc_published_file_ids = crate::steammessages_clientserver_2::c_msg_cre_get_user_published_item_vote_details::PublishedFileId::encode_all(&self.published_file_ids);
        let ghost v = self@;
        let mut out: Vec<u8> = Vec::new();
        let ghost p0 = Seq::<SpecField>::empty();
        put_rep_bytes(&mut out, 1, &enc_published_file_ids);
        let ghost p1 = p0 + rep_bytes(1, crate::steammessages_clientserver_2::c_msg_cre_get_user_published_item_vote_details::PublishedFileId::spec_encode_all(v.published_file_ids));
        proof {
            lemma_fields_bytes_concat(p0, rep_bytes(1, crate::steammessages_clientserver_2::c_msg_cre_get_user_published_item_vote_details::PublishedFileId::spec_encode_all(v.published_file_ids)));
        }
        proof {
            reveal(CMsgCREGetUserPublishedItemVoteDetails::spec_encode);
        }
        assert(p1 == Self::spec_fields(v));
        out
    }

    /// Appends the encoding of this message to `out`.
    pub fn encode_raw(&self, out: &mut Vec<u8>)
        ensures
            final(out)@ == old(out)@ + Self::spec_encode(self@),
    {
        let mut b = self.encode_to_vec();
        out.append(&mut b);
    }

    /// The first `k` fields of `v`, the others as a fresh message has them.
    #[verifier::opaque]
    pub open spec fn spec_prefix(v: SpecCMsgCREGetUserPublishedItemVoteDetails, k: int) -> SpecCMsgCREGetUserPublishedItemVoteDetails {
        SpecCMsgCREGetUserPublishedItemVoteDetails {
            published_file_ids: if 1 <= k { v.published_file_ids } else { Seq::empty() },
        }
    }

    /// Reading field 1 back, after the fields before it.
    proof fn lemma_field_published_file_ids(v: SpecCMsgCREGetUserPublishedItemVoteDetails)
        requires
            fields_wf(rep_bytes(1, crate::steammessages_clientserver_2::c_msg_cre_get_user_published_item_vote_details::PublishedFileId::spec_encode_all(v.published_file_ids))),
        ensures
            fold_fields(Self::spec_prefix(v, 0), rep_bytes(1, crate::steammessages_clientserver_2::c_msg_cre_get_user_published_item_vote_details::PublishedFileId::spec_encode_all(v.published_file_ids)), Self::apply_fn())
                == Ok::<SpecCMsgCREGetUserPublishedItemVoteDetails, WireError>(Self::spec_prefix(v, 1)),
    {
        reveal(CMsgCREGetUserPublishedItemVoteDetails::spec_prefix);
        reveal(rep_bytes);
        reveal(fields_wf);
        let apply = Self::apply_fn();
        let s = Self::spec_prefix(v, 0);
        let l = rep_bytes(1, crate::steammessages_clientserver_2::c_msg_cre_get_user_published_item_vote_details::PublishedFileId::spec_encode_all(v.published_file_ids));
        let xs = v.published_file_ids;
        let st = Seq::new((xs.len() + 1) as nat, |j: int| SpecCMsgCREGetUserPublishedItemVoteDetails { published_file_ids: xs.take(j), ..s });
        assert forall|j: int| 0 <= j < l.len() implies #[trigger] apply(st[j], l[j]) == Ok::<SpecCMsgCREGetUserPublishedItemVoteDetails, WireError>(st[j + 1]) by {
            assert(field_wf(l[j]));
            crate::steammessages_clientserver_2::c_msg_cre_get_user_published_item_vote_details::PublishedFileId::lemma_decode_encode(xs[j]);
            assert(xs.take(j).push(xs[j]) =~= xs.take(j + 1));
        }
        lemma_fold_chain(l, st, apply);
        assert(xs.take(0) =~= Seq::<crate::steammessages_clientserver_2::c_msg_cre_get_user_published_item_vote_details::SpecPublishedFileId>::empty());
        assert(xs.take(xs.len() as int) =~= xs);
        assert(st[0] == s);
        assert(st[xs.len() as int] == Self::spec_prefix(v, 1));
    }

    /// Whether this message declares field number `n`.
    pub open spec fn declares(n: u32) -> bool {
        n == 1
    }

    /// A record with a number this message does not declare is passed over: well-formed
    /// bytes decode to the same message with such a record after them as without it.
    pub proof fn lemma_unknown_field(bytes: Seq<u8>, f: SpecField)
        requires
            parse_fields(bytes) is Ok,
            field_wf(f),
            !Self::declares(f.number),
        ensures
            Self::spec_decode(bytes + field_bytes(f)) == Self::spec_decode(bytes),
    {
        reveal(CMsgCREGetUserPublishedItemVoteDetails::spec_decode);
        lemma_parse_fields_append(bytes, f);
        let fs = parse_fields(bytes).unwrap();
        let apply = Self::apply_fn();
        lemma_fold_concat(Self::spec_default(), fs, seq![f], apply);
        assert(fs.push(f) =~= fs + seq![f]);
        if let Ok(w) = fold_fields(Self::spec_default(), fs, apply) {
            lemma_fold_single(w, f, apply);
        }
        lemma_merge_run_fold(Self::spec_default(), bytes, apply);
        lemma_merge_run_fold(Self::spec_default(), bytes + field_bytes(f), apply);
    }

    /// Decoding the encoding of a message gives the message back.
    pub proof fn lemma_decode_encode(v: SpecCMsgCREGetUserPublishedItemVoteDetails)
        requires
            Self::spec_encode(v).len() <= u64::MAX,
        ensures
            Self::spec_decode(Self::spec_encode(v)) == Ok::<SpecCMsgCREGetUserPublishedItemVoteDetails, WireError>(v),
    {
        let apply = Self::apply_fn();
        let d = Self::spec_default();
        let p0 = Seq::<SpecField>::empty();
        let l1 = rep_bytes(1, crate::steammessages_clientserver_2::c_msg_cre_get_user_published_item_vote_details::PublishedFileId::spec_encode_all(v.published_file_ids));
        let p1 = p0 + l1;
        assert(parse_fields(Self::spec_encode(v)) == Ok::<Seq<SpecField>, WireError>(p1) && fields_wf(l1)) by {
            reveal(CMsgCREGetUserPublishedItemVoteDetails::spec_encode);
            assert(numbers_ok(p0) && fields_wf(p0)) by {
                reveal(numbers_ok);
                reveal(fields_wf);
            }
            lemma_rep_bytes_numbered(1, crate::steammessages_clientserver_2::c_msg_cre_get_user_published_item_vote_details::PublishedFileId::spec_encode_all(v.published_file_ids));
            lemma_fields_wf_concat(p0, l1);
            assert(p1 == Self::spec_fields(v));
            lemma_fields_wf_from_len(p1);
            lemma_fields_roundtrip(p1);
        }
        assert(Self::spec_prefix(v, 0) == d) by {
            reveal(CMsgCREGetUserPublishedItemVoteDetails::spec_prefix);
        }
        lemma_fold_empty(d, apply);
        lemma_fold_concat(d, p0, l1, apply);
        Self::lemma_field_published_file_ids(v);
        assert(Self::spec_prefix(v, 1) == v) by {
            reveal(CMsgCREGetUserPublishedItemVoteDetails::spec_prefix);
        }
        lemma_merge_run_fold(d, Self::spec_encode(v), apply);
        assert(Self::spec_decode(Self::spec_encode(v)) == Ok::<SpecCMsgCREGetUserPublishedItemVoteDetails, WireError>(v)) by {
            reveal(CMsgCREGetUserPublishedItemVoteDetails::spec_decode);
        }
    }
}

/// `CMsgCREGetUserPublishedItemVoteDetailsResponse`, as Valve's schema declares it.
#[derive(Debug, Clone, PartialEq)]
pub struct CMsgCREGetUserPublishedItemVoteDetailsResponse {
    /// Field 1.
    pub eresult: Option<i32>,
    /// Field 2.
    pub user_item_vote_details: Vec<crate::steammessages_clientserver_2::c_msg_cre_get_user_published_item_vote_details_response::UserItemVoteDetail>,
}

/// What a `CMsgCREGetUserPublishedItemVoteDetailsResponse` holds, as mathematical values.
#[verifier::ext_equal]
pub struct SpecCMsgCREGetUserPublishedItemVoteDetailsResponse {
    pub eresult: Option<i32>,
    pub user_item_vote_details: Seq<crate::steammessages_clientserver_2::c_msg_cre_get_user_published_item_vote_details_response::SpecUserItemVoteDetail>,
}

impl View for CMsgCREGetUserPublishedItemVoteDetailsResponse {
    type V = SpecCMsgCREGetUserPublishedItemVoteDetailsResponse;

    open spec fn view(&self) -> SpecCMsgCREGetUserPublishedItemVoteDetailsResponse {
        SpecCMsgCREGetUserPublishedItemVoteDetailsResponse {
            eresult: self.eresult,
            user_item_vote_details: crate::steammessages_clientserver_2::c_msg_cre_get_user_published_item_vote_details_response::UserItemVoteDetail::view_all(self.user_item_vote_details@),
        }
    }
}

impl Default for CMsgCREGetUserPublishedItemVoteDetailsResponse {
    fn default() -> (r: Self)
        ensures
            r@ == CMsgCREGetUserPublishedItemVoteDetailsResponse::spec_default(),
    {
        CMsgCREGetUserPublishedItemVoteDetailsResponse {
            eresult: None,
            user_item_vote_details: Vec::new(),
        }
    }
}

impl CMsgCREGetUserPublishedItemVoteDetailsResponse {
    /// Field 1, or its schema default when absent.
    pub fn eresult_or_default(&self) -> (r: i32)
        ensures
            r == match self.eresult {
                Some(x) => x,
                None => 2i32,
            },
    {
        self.eresult.unwrap_or(2i32)
    }

    pub open spec fn spec_default() -> SpecCMsgCREGetUserPublishedItemVoteDetailsResponse {
        SpecCMsgCREGetUserPublishedItemVoteDetailsResponse {
            eresult: None,
            user_item_vote_details: Seq::empty(),
        }
    }

    /// The records a `CMsgCREGetUserPublishedItemVoteDetailsResponse` is written as, in field order.
    pub open spec fn spec_fields(v: SpecCMsgCREGetUserPublishedItemVoteDetailsResponse) -> Seq<SpecField> {
        Seq::<SpecField>::empty()
            + opt_i32(1, v.eresult)
            + rep_bytes(2, crate::steammessages_clientserver_2::c_msg_cre_get_user_published_item_vote_details_response::UserItemVoteDetail::spec_encode_all(v.user_item_vote_details))
    }

    #[verifier::opaque]
    pub open spec fn spec_encode(v: SpecCMsgCREGetUserPublishedItemVoteDetailsResponse) -> Seq<u8> {
        fields_bytes(Self::spec_fields(v))
    }

    /// What one record does to the message: a declared number sets or extends its
    /// field, any other number is left alone.
    pub open spec fn spec_apply(v: SpecCMsgCREGetUserPublishedItemVoteDetailsResponse, f: SpecField) -> Result<SpecCMsgCREGetUserPublishedItemVoteDetailsResponse, WireError> {
        match f.number {
            1 => match dec_i32(f.value) {
                Ok(x) => Ok(SpecCMsgCREGetUserPublishedItemVoteDetailsResponse { eresult: Some(x), ..v }),
                Err(e) => Err(e),
            },
            2 => match dec_bytes(f.value) {
                Ok(b) => match crate::steammessages_clientserver_2::c_msg_cre_get_user_published_item_vote_details_response::UserItemVoteDetail::spec_decode(b) {
                    Ok(m) => Ok(SpecCMsgCREGetUserPublishedItemVoteDetailsResponse { user_item_vote_details: v.user_item_vote_details.push(m), ..v }),
                    Err(e) => Err(e),
                },
                Err(e) => Err(e),
            },
            _ => Ok(v),
        }
    }

    pub open spec fn apply_fn() -> spec_fn(SpecCMsgCREGetUserPublishedItemVoteDetailsResponse, SpecField) -> Result<SpecCMsgCREGetUserPublishedItemVoteDetailsResponse, WireError> {
        |v: SpecCMsgCREGetUserPublishedItemVoteDetailsResponse, f: SpecField| Self::spec_apply(v, f)
    }

    /// The message `bytes` makes of `v`: its records applied in order, or the error
    /// that stops the reading.
    pub open spec fn spec_merge(v: SpecCMsgCREGetUserPublishedItemVoteDetailsResponse, bytes: Seq<u8>) -> Result<SpecCMsgCREGetUserPublishedItemVoteDetailsResponse, WireError> {
        let (w, stop) = merge_run(v, bytes, Self::apply_fn());
        match stop {
            None => Ok(w),
            Some(e) => Err(e),
        }
    }

    #[verifier::opaque]
    pub open spec fn spec_decode(bytes: Seq<u8>) -> Result<SpecCMsgCREGetUserPublishedItemVoteDetailsResponse, WireError> {
        Self::spec_merge(Self::spec_default(), bytes)
    }

    /// This message with one record applied to it, or, when the record is refused,
    /// the message unchanged and the reason.
    fn applied(self, f: &Field) -> (r: Result<Self, (Self, WireError)>)
        ensures
            match Self::spec_apply(self@, f@) {
                Ok(v) => r matches Ok(m) && m@ == v,
                Err(e) => r matches Err((m, x)) && x == e && m@ == self@,
            },
    {
        match f.number {
            1 => match read_i32(&f.value) {
                Ok(x) => Ok(Self { eresult: Some(x), ..self }),
                Err(e) => Err((self, e)),
            },
            2 => match read_payload(&f.value) {
                Ok(b) => match crate::steammessages_clientserver_2::c_msg_cre_get_user_published_item_vote_details_response::UserItemVoteDetail::decode(b) {
                    Ok(x) => {
                        let mut m = self;
                        let ghost before = m.user_item_vote_details@;
                        m.user_item_vote_details.push(x);
                        assert(crate::steammessages_clientserver_2::c_msg_cre_get_user_published_item_vote_details_response::UserItemVoteDetail::view_all(m.user_item_vote_details@) =~= crate::steammessages_clientserver_2::c_msg_cre_get_user_published_item_vote_details_response::UserItemVoteDetail::view_all(before).push(x@));
                        Ok(m)
                    },
                    Err(e) => Err((self, e)),
                },
                Err(e) => Err((self, e)),
            },
            _ => Ok(self),
        }
    }

    /// Reads the records `bytes` holds into this message, in order. When a record does
    /// not parse or is refused, the reading stops there: the message keeps what the
    /// records before it gave, and the error is returned.
    pub fn merge(&mut self, bytes: &[u8]) -> (r: Result<(), WireError>)
        ensures
            final(self)@ == merge_run(old(self)@, bytes@, Self::apply_fn()).0,
            r == match merge_run(old(self)@, bytes@, Self::apply_fn()).1 {
                None => Ok::<(), WireError>(()),
                Some(e) => Err::<(), WireError>(e),
            },
    {
        let ghost total = merge_run(self@, bytes@, Self::apply_fn());
        let mut cur = Self::default();
        std::mem::swap(&mut cur, self);
        let mut pos: usize = 0;
        assert(bytes@.skip(0) =~= bytes@);
        while pos < bytes.len()
            invariant
                pos <= bytes@.len(),
                total == merge_run(old(self)@, bytes@, Self::apply_fn()),
                merge_run(cur@, bytes@.skip(pos as int), Self::apply_fn()) == total,
            decreases bytes@.len() - pos,
        {
            let ghost s = bytes@.skip(pos as int);
            proof {
                lemma_merge_run_step(cur@, s, Self::apply_fn());
                lemma_parse_field_len(s);
            }
            match read_field(bytes, pos) {
                Ok((f, end)) => {
                    assert(bytes@.skip(end as int) =~= s.skip((end - pos) as int));
                    match cur.applied(&f) {
                        Ok(m) => {
                            cur = m;
                        },
                        Err((m, e)) => {
                            *self = m;
                            return Err(e);
                        },
                    }
                    pos = end;
                },
                Err(e) => {
                    *self = cur;
                    return Err(e);
                },
            }
        }
        assert(bytes@.skip(pos as int) =~= Seq::<u8>::empty());
        proof {
            lemma_merge_run_empty(cur@, Self::apply_fn());
        }
        *self = cur;
        Ok(())
    }

    /// Decodes a message from its encoding.
    pub fn decode(bytes: &[u8]) -> (r: Result<Self, WireError>)
        ensures
            match Self::spec_decode(bytes@) {
                Ok(v) => r matches Ok(m) && m@ == v,
                Err(e) => r matches Err(x) && x == e,
            },
    {
        proof {
            reveal(CMsgCREGetUserPublishedItemVoteDetailsResponse::spec_decode);
        }
        let mut m = Self::default();
        match m.merge(bytes) {
            Ok(()) => Ok(m),
            Err(e) => Err(e),
        }
    }

    /// The encoding of this message.
    pub fn encode_to_vec(&self) -> (r: Vec<u8>)
        ensures
            r@ == Self::spec_encode(self@),
    {
        let enc_user_item_vote_details = crate::steammessages_clientserver_2::c_msg_cre_get_user_published_item_vote_details_response::UserItemVoteDetail::encode_all(&self.user_item_vote_details);
        let ghost v = self@;
        let mut out: Vec<u8> = Vec::new();
        let ghost p0 = Seq::<SpecField>::empty();
        put_opt_i32(&mut out, 1, self.eresult);
        let ghost p1 = p0 + opt_i32(1, v.eresult);
        proof {
            lemma_fields_bytes_concat(p0, opt_i32(1, v.eresult));
        }
        put_rep_bytes(&mut out, 2, &enc_user_item_vote_details);
        let ghost p2 = p1 + rep_bytes(2, crate::steammessages_clientserver_2::c_msg_cre_get_user_published_item_vote_details_response::UserItemVoteDetail::spec_encode_all(v.user_item_vote_details));
        proof {
            lemma_fields_bytes_concat(p1, rep_bytes(2, crate::steammessages_clientserver_2::c_msg_cre_get_user_published_item_vote_details_response::UserItemVoteDetail::spec_encode_all(v.user_item_vote_details)));
        }
        proof {
            reveal(CMsgCREGetUserPublishedItemVoteDetailsResponse::spec_encode);
        }
        assert(p2 == Self::spec_fields(v));
        out
    }

    /// Appends the encoding of this message to `out`.
    pub fn encode_raw(&self, out: &mut Vec<u8>)
        ensures
            final(out)@ == old(out)@ + Self::spec_encode(self@),
    {
        let mut b = self.encode_to_vec();
        out.append(&mut b);
    }

    /// The first `k` fields of `v`, the others as a fresh message has them.
    #[verifier::opaque]
    pub open spec fn spec_prefix(v: SpecCMsgCREGetUserPublishedItemVoteDetailsResponse, k: int) -> SpecCMsgCREGetUserPublishedItemVoteDetailsResponse {
        SpecCMsgCREGetUserPublishedItemVoteDetailsResponse {
            eresult: if 1 <= k { v.eresult } else { None },
            user_item_vote_details: if 2 <= k { v.user_item_vote_details } else { Seq::empty() },
        }
    }

    /// Reading field 1 back, after the fields before it.
    proof fn lemma_field_eresult(v: SpecCMsgCREGetUserPublishedItemVoteDetailsResponse)
        ensures
            fold_fields(Self::spec_prefix(v, 0), opt_i32(1, v.eresult), Self::apply_fn())
                == Ok::<SpecCMsgCREGetUserPublishedItemVoteDetailsResponse, WireError>(Self::spec_prefix(v, 1)),
    {
        reveal(CMsgCREGetUserPublishedItemVoteDetailsResponse::spec_prefix);
        reveal(opt_i32);
        let apply = Self::apply_fn();
        let s = Self::spec_prefix(v, 0);
        lemma_fold_opt(s, 1, match v.eresult { Some(x) => Some(enc_i32(x)), None => None }, apply);
        if let Some(x) = v.eresult {
            lemma_i32_roundtrip(x);
        }
        assert(SpecCMsgCREGetUserPublishedItemVoteDetailsResponse { eresult: v.eresult, ..s } == Self::spec_prefix(v, 1));
    }

    /// Reading field 2 back, after the fields before it.
    proof fn lemma_field_user_item_vote_details(v: SpecCMsgCREGetUserPublishedItemVoteDetailsResponse)
        requires
            fields_wf(rep_bytes(2, crate::steammessages_clientserver_2::c_msg_cre_get_user_published_item_vote_details_response::UserItemVoteDetail::spec_encode_all(v.user_item_vote_details))),
        ensures
            fold_fields(Self::spec_prefix(v, 1), rep_bytes(2, crate::steammessages_clientserver_2::c_msg_cre_get_user_published_item_vote_details_response::UserItemVoteDetail::spec_encode_all(v.user_item_vote_details)), Self::apply_fn())
                == Ok::<SpecCMsgCREGetUserPublishedItemVoteDetailsResponse, WireError>(Self::spec_prefix(v, 2)),
    {
        reveal(CMsgCREGetUserPublishedItemVoteDetailsResponse::spec_prefix);
        reveal(rep_bytes);
        reveal(fields_wf);
        let apply = Self::apply_fn();
        let s = Self::spec_prefix(v, 1);
        let l = rep_bytes(2, crate::steammessages_clientserver_2::c_msg_cre_get_user_published_item_vote_details_response::UserItemVoteDetail::spec_encode_all(v.user_item_vote_details));
        let xs = v.user_item_vote_details;
        let st = Seq::new((xs.len() + 1) as nat, |j: int| SpecCMsgCREGetUserPublishedItemVoteDetailsResponse { user_item_vote_details: xs.take(j), ..s });
        assert forall|j: int| 0 <= j < l.len() implies #[trigger] apply(st[j], l[j]) == Ok::<SpecCMsgCREGetUserPublishedItemVoteDetailsResponse, WireError>(st[j + 1]) by {
            assert(field_wf(l[j]));
            crate::steammessages_clientserver_2::c_msg_cre_get_user_published_item_vote_details_response::UserItemVoteDetail::lemma_decode_encode(xs[j]);
            assert(xs.take(j).push(xs[j]) =~= xs.take(j + 1));
        }
        lemma_fold_chain(l, st, apply);
        assert(xs.take(0) =~= Seq::<crate::steammessages_clientserver_2::c_msg_cre_get_user_published_item_vote_details_response::SpecUserItemVoteDetail>::empty());
        assert(xs.take(xs.len() as int) =~= xs);
        assert(st[0] == s);
        assert(st[xs.len() as int] == Self::spec_prefix(v, 2));
    }

    /// Whether this message declares field number `n`.
    pub open spec fn declares(n: u32) -> bool {
        n == 1 || n == 2
    }

    /// A record with a number this message does not declare is passed over: well-formed
    /// bytes decode to the same message with such a record after them as without it.
    pub proof fn lemma_unknown_field(bytes: Seq<u8>, f: SpecField)
        requires
            parse_fields(bytes) is Ok,
            field_wf(f),
            !Self::declares(f.number),
        ensures
            Self::spec_decode(bytes + field_bytes(f)) == Self::spec_decode(bytes),
    {
        reveal(CMsgCREGetUserPublishedItemVoteDetailsResponse::spec_decode);
        lemma_parse_fields_append(bytes, f);
        let fs = parse_fields(bytes).unwrap();
        let apply = Self::apply_fn();
        lemma_fold_concat(Self::spec_default(), fs, seq![f], apply);
        assert(fs.push(f) =~= fs + seq![f]);
        if let Ok(w) = fold_fields(Self::spec_default(), fs, apply) {
            lemma_fold_single(w, f, apply);
        }
        lemma_merge_run_fold(Self::spec_default(), bytes, apply);
        lemma_merge_run_fold(Self::spec_default(), bytes + field_bytes(f), apply);
    }

    /// Decoding the encoding of a message gives the message back.
    pub proof fn lemma_decode_encode(v: SpecCMsgCREGetUserPublishedItemVoteDetailsResponse)
        requires
            Self::spec_encode(v).len() <= u64::MAX,
        ensures
            Self::spec_decode(Self::spec_encode(v)) == Ok::<SpecCMsgCREGetUserPublishedItemVoteDetailsResponse, WireError>(v),
    {
        let apply = Self::apply_fn();
        let d = Self::spec_default();
        let p0 = Seq::<SpecField>::empty();
        let l1 = opt_i32(1, v.eresult);
        let p1 = p0 + l1;
        let l2 = rep_bytes(2, crate::steammessages_clientserver_2::c_msg_cre_get_user_published_item_vote_details_response::UserItemVoteDetail::spec_encode_all(v.user_item_vote_details));
        let p2 = p1 + l2;
        assert(parse_fields(Self::spec_encode(v)) == Ok::<Seq<SpecField>, WireError>(p2) && fields_wf(l2)) by {
            reveal(CMsgCREGetUserPublishedItemVoteDetailsResponse::spec_encode);
            assert(numbers_ok(p0) && fields_wf(p0)) by {
                reveal(numbers_ok);
                reveal(fields_wf);
            }
            lemma_opt_i32_numbered(1, v.eresult);
            lemma_fields_wf_concat(p0, l1);
            lemma_rep_bytes_numbered(2, crate::steammessages_clientserver_2::c_msg_cre_get_user_published_item_vote_details_response::UserItemVoteDetail::spec_encode_all(v.user_item_vote_details));
            lemma_fields_wf_concat(p1, l2);
            assert(p2 == Self::spec_fields(v));
            lemma_fields_wf_from_len(p2);
            lemma_fields_roundtrip(p2);
        }
        assert(Self::spec_prefix(v, 0) == d) by {
            reveal(CMsgCREGetUserPublishedItemVoteDetailsResponse::spec_prefix);
        }
        lemma_fold_empty(d, apply);
        lemma_fold_concat(d, p0, l1, apply);
        Self::lemma_field_eresult(v);
        lemma_fold_concat(d, p1, l2, apply);
        Self::lemma_field_user_item_vote_details(v);
        assert(Self::spec_prefix(v, 2) == v) by {
            reveal(CMsgCREGetUserPublishedItemVoteDetailsResponse::spec_prefix);
        }
        lemma_merge_run_fold(d, Self::spec_encode(v), apply);
        assert(Self::spec_decode(Self::spec_encode(v)) == Ok::<SpecCMsgCREGetUserPublishedItemVoteDetailsResponse, WireError>(v)) by {
            reveal(CMsgCREGetUserPublishedItemVoteDetailsResponse::spec_decode);
        }
    }
}

/// `CMsgFSGetFollowerCount`, as Valve's schema declares it.
#[derive(Debug, Clone, PartialEq)]
pub struct CMsgFSGetFollowerCount {
    /// Field 1.
    pub steam_id: Option<u64>,
}

/// What a `CMsgFSGetFollowerCount` holds, as mathematical values.
#[verifier::ext_equal]
pub struct SpecCMsgFSGetFollowerCount {
    pub steam_id: Option<u64>,
}

impl View for CMsgFSGetFollowerCount {
    type V = SpecCMsgFSGetFollowerCount;

    open spec fn view(&self) -> SpecCMsgFSGetFollowerCount {
        SpecCMsgFSGetFollowerCount {
            steam_id: self.steam_id,
        }
    }
}

impl Default for CMsgFSGetFollowerCount {
    fn default() -> (r: Self)
        ensures
            r@ == CMsgFSGetFollowerCount::spec_default(),
    {
        CMsgFSGetFollowerCount {
            steam_id: None,
        }
    }
}

impl CMsgFSGetFollowerCount {
    pub open spec fn spec_default() -> SpecCMsgFSGetFollowerCount {
        SpecCMsgFSGetFollowerCount {
            steam_id: None,
        }
    }

    /// The records a `CMsgFSGetFollowerCount` is written as, in field order.
    pub open spec fn spec_fields(v: SpecCMsgFSGetFollowerCount) -> Seq<SpecField> {
        Seq::<SpecField>::empty()
            + opt_fixed64(1, v.steam_id)
    }

    #[verifier::opaque]
    pub open spec fn spec_encode(v: SpecCMsgFSGetFollowerCount) -> Seq<u8> {
        fields_bytes(Self::spec_fields(v))
    }

    /// What one record does to the message: a declared number sets or extends its
    /// field, any other number is left alone.
    pub open spec fn spec_apply(v: SpecCMsgFSGetFollowerCount, f: SpecField) -> Result<SpecCMsgFSGetFollowerCount, WireError> {
        match f.number {
            1 => match dec_fixed64(f.value) {
                Ok(x) => Ok(SpecCMsgFSGetFollowerCount { steam_id: Some(x), ..v }),
                Err(e) => Err(e),
            },
            _ => Ok(v),
        }
    }

    pub open spec fn apply_fn() -> spec_fn(SpecCMsgFSGetFollowerCount, SpecField) -> Result<SpecCMsgFSGetFollowerCount, WireError> {
        |v: SpecCMsgFSGetFollowerCount, f: SpecField| Self::spec_apply(v, f)
    }

    /// The message `bytes` makes of `v`: its records applied in order, or the error
    /// that stops the reading.
    pub open spec fn spec_merge(v: SpecCMsgFSGetFollowerCount, bytes: Seq<u8>) -> Result<SpecCMsgFSGetFollowerCount, WireError> {
        let (w, stop) = merge_run(v, bytes, Self::apply_fn());
        match stop {
            None => Ok(w),
            Some(e) => Err(e),
        }
    }

    #[verifier::opaque]
    pub open spec fn spec_decode(bytes: Seq<u8>) -> Result<SpecCMsgFSGetFollowerCount, WireError> {
        Self::spec_merge(Self::spec_default(), bytes)
    }

    /// This message with one record applied to it, or, when the record is refused,
    /// the message unchanged and the reason.
    fn applied(self, f: &Field) -> (r: Result<Self, (Self, WireError)>)
        ensures
            match Self::spec_apply(self@, f@) {
                Ok(v) => r matches Ok(m) && m@ == v,
                Err(e) => r matches Err((m, x)) && x == e && m@ == self@,
            },
    {
        match f.number {
            1 => match read_fixed64(&f.value) {
                Ok(x) => Ok(Self { steam_id: Some(x), ..self }),
                Err(e) => Err((self, e)),
            },
            _ => Ok(self),
        }
    }

    /// Reads the records `bytes` holds into this message, in order. When a record does
    /// not parse or is refused, the reading stops there: the message keeps what the
    /// records before it gave, and the error is returned.
    pub fn merge(&mut self, bytes: &[u8]) -> (r: Result<(), WireError>)
        ensures
            final(self)@ == merge_run(old(self)@, bytes@, Self::apply_fn()).0,
            r == match merge_run(old(self)@, bytes@, Self::apply_fn()).1 {
                None => Ok::<(), WireError>(()),
                Some(e) => Err::<(), WireError>(e),
            },
    {
        let ghost total = merge_run(self@, bytes@, Self::apply_fn());
        let mut cur = Self::default();
        std::mem::swap(&mut cur, self);
        let mut pos: usize = 0;
        assert(bytes@.skip(0) =~= bytes@);
        while pos < bytes.len()
            invariant
                pos <= bytes@.len(),
                total == merge_run(old(self)@, bytes@, Self::apply_fn()),
                merge_run(cur@, bytes@.skip(pos as int), Self::apply_fn()) == total,
            decreases bytes@.len() - pos,
        {
            let ghost s = bytes@.skip(pos as int);
            proof {
                lemma_merge_run_step(cur@, s, Self::apply_fn());
                lemma_parse_field_len(s);
            }
            match read_field(bytes, pos) {
                Ok((f, end)) => {
                    assert(bytes@.skip(end as int) =~= s.skip((end - pos) as int));
                    match cur.applied(&f) {
                        Ok(m) => {
                            cur = m;
                        },
                        Err((m, e)) => {
                            *self = m;
                            return Err(e);
                        },
                    }
                    pos = end;
                },
                Err(e) => {
                    *self = cur;
                    return Err(e);
                },
            }
        }
        assert(bytes@.skip(pos as int) =~= Seq::<u8>::empty());
        proof {
            lemma_merge_run_empty(cur@, Self::apply_fn());
        }
        *self = cur;
        Ok(())
    }

    /// Decodes a message from its encoding.
    pub fn decode(bytes: &[u8]) -> (r: Result<Self, WireError>)
        ensures
            match Self::spec_decode(bytes@) {
                Ok(v) => r matches Ok(m) && m@ == v,
                Err(e) => r matches Err(x) && x == e,
            },
    {
        proof {
            reveal(CMsgFSGetFollowerCount::spec_decode);
        }
        let mut m = Self::default();
        match m.merge(bytes) {
            Ok(()) => Ok(m),
            Err(e) => Err(e),
        }
    }

    /// The encoding of this message.
    pub fn encode_to_vec(&self) -> (r: Vec<u8>)
        ensures
            r@ == Self::spec_encode(self@),
    {
        let ghost v = self@;
        let mut out: Vec<u8> = Vec::new();
        let ghost p0 = Seq::<SpecField>::empty();
        put_opt_fixed64(&mut out, 1, self.steam_id);
        let ghost p1 = p0 + opt_fixed64(1, v.steam_id);
        proof {
            lemma_fields_bytes_concat(p0, opt_fixed64(1, v.steam_id));
        }
        proof {
            reveal(CMsgFSGetFollowerCount::spec_encode);
        }
        assert(p1 == Self::spec_fields(v));
        out
    }

    /// Appends the encoding of this message to `out`.
    pub fn encode_raw(&self, out: &mut Vec<u8>)
        ensures
            final(out)@ == old(out)@ + Self::spec_encode(self@),
    {
        let mut b = self.encode_to_vec();
        out.append(&mut b);
    }

    /// The first `k` fields of `v`, the others as a fresh message has them.
    #[verifier::opaque]
    pub open spec fn spec_prefix(v: SpecCMsgFSGetFollowerCount, k: int) -> SpecCMsgFSGetFollowerCount {
        SpecCMsgFSGetFollowerCount {
            steam_id: if 1 <= k { v.steam_id } else { None },
        }
    }

    /// Reading field 1 back, after the fields before it.
    proof fn lemma_field_steam_id(v: SpecCMsgFSGetFollowerCount)
        ensures
            fold_fields(Self::spec_prefix(v, 0), opt_fixed64(1, v.steam_id), Self::apply_fn())
                == Ok::<SpecCMsgFSGetFollowerCount, WireError>(Self::spec_prefix(v, 1)),
    {
        reveal(CMsgFSGetFollowerCount::spec_prefix);
        reveal(opt_fixed64);
        let apply = Self::apply_fn();
        let s = Self::spec_prefix(v, 0);
        lemma_fold_opt(s, 1, match v.steam_id { Some(x) => Some(enc_fixed64(x)), None => None }, apply);
        if let Some(x) = v.steam_id {
            lemma_u64_roundtrip(x);
        }
        assert(SpecCMsgFSGetFollowerCount { steam_id: v.steam_id, ..s } == Self::spec_prefix(v, 1));
    }

    /// Whether this message declares field number `n`.
    pub open spec fn declares(n: u32) -> bool {
        n == 1
    }

    /// A record with a number this message does not declare is passed over: well-formed
    /// bytes decode to the same message with such a record after them as without it.
    pub proof fn lemma_unknown_field(bytes: Seq<u8>, f: SpecField)
        requires
            parse_fields(bytes) is Ok,
            field_wf(f),
            !Self::declares(f.number),
        ensures
            Self::spec_decode(bytes + field_bytes(f)) == Self::spec_decode(bytes),
    {
        reveal(CMsgFSGetFollowerCount::spec_decode);
        lemma_parse_fields_append(bytes, f);
        let fs = parse_fields(bytes).unwrap();
        let apply = Self::apply_fn();
        lemma_fold_concat(Self::spec_default(), fs, seq![f], apply);
        assert(fs.push(f) =~= fs + seq![f]);
        if let Ok(w) = fold_fields(Self::spec_default(), fs, apply) {
            lemma_fold_single(w, f, apply);
        }
        lemma_merge_run_fold(Self::spec_default(), bytes, apply);
        lemma_merge_run_fold(Self::spec_default(), bytes + field_bytes(f), apply);
    }

    /// Decoding the encoding of a message gives the message back.
    pub proof fn lemma_decode_encode(v: SpecCMsgFSGetFollowerCount)
        requires
            Self::spec_encode(v).len() <= u64::MAX,
        ensures
            Self::spec_decode(Self::spec_encode(v)) == Ok::<SpecCMsgFSGetFollowerCount, WireError>(v),
    {
        let apply = Self::apply_fn();
        let d = Self::spec_default();
        let p0 = Seq::<SpecField>::empty();
        let l1 = opt_fixed64(1, v.steam_id);
        let p1 = p0 + l1;
        assert(parse_fields(Self::spec_encode(v)) == Ok::<Seq<SpecField>, WireError>(p1)) by {
            reveal(CMsgFSGetFollowerCount::spec_encode);
            assert(numbers_ok(p0) && fields_wf(p0)) by {
                reveal(numbers_ok);
                reveal(fields_wf);
            }
            lemma_opt_fixed64_numbered(1, v.steam_id);
            lemma_fields_wf_concat(p0, l1);
            assert(p1 == Self::spec_fields(v));
            lemma_fields_wf_from_len(p1);
            lemma_fields_roundtrip(p1);
        }
        assert(Self::spec_prefix(v, 0) == d) by {
            reveal(CMsgFSGetFollowerCount::spec_prefix);
        }
        lemma_fold_empty(d, apply);
        lemma_fold_concat(d, p0, l1, apply);
        Self::lemma_field_steam_id(v);
        assert(Self::spec_prefix(v, 1) == v) by {
            reveal(CMsgFSGetFollowerCount::spec_prefix);
        }
        lemma_merge_run_fold(d, Self::spec_encode(v), apply);
        assert(Self::spec_decode(Self::spec_encode(v)) == Ok::<SpecCMsgFSGetFollowerCount, WireError>(v)) by {
            reveal(CMsgFSGetFollowerCount::spec_decode);
        }
    }
}

/// `CMsgFSGetFollowerCountResponse`, as Valve's schema declares it.
#[derive(Debug, Clone, PartialEq)]
pub struct CMsgFSGetFollowerCountResponse {
    /// Field 1.
    pub eresult: Option<i32>,
    /// Field 2.
    pub count: Option<i32>,
}

/// What a `CMsgFSGetFollowerCountResponse` holds, as mathematical values.
#[verifier::ext_equal]
pub struct SpecCMsgFSGetFollowerCountResponse {
    pub eresult: Option<i32>,
    pub count: Option<i32>,
}

impl View for CMsgFSGetFollowerCountResponse {
    type V = SpecCMsgFSGetFollowerCountResponse;

    open spec fn view(&self) -> SpecCMsgFSGetFollowerCountResponse {
        SpecCMsgFSGetFollowerCountResponse {
            eresult: self.eresult,
            count: self.count,
        }
    }
}

impl Default for CMsgFSGetFollowerCountResponse {
    fn default() -> (r: Self)
        ensures
            r@ == CMsgFSGetFollowerCountResponse::spec_default(),
    {
        CMsgFSGetFollowerCountResponse {
            eresult: None,
            count: None,
        }
    }
}

impl CMsgFSGetFollowerCountResponse {
    /// Field 1, or its schema default when absent.
    pub fn eresult_or_default(&self) -> (r: i32)
        ensures
            r == match self.eresult {
                Some(x) => x,
                None => 2i32,
            },
    {
        self.eresult.unwrap_or(2i32)
    }

    /// Field 2, or its schema default when absent.
    pub fn count_or_default(&self) -> (r: i32)
        ensures
            r == match self.count {
                Some(x) => x,
                None => 0i32,
            },
    {
        self.count.unwrap_or(0i32)
    }

    pub open spec fn spec_default() -> SpecCMsgFSGetFollowerCountResponse {
        SpecCMsgFSGetFollowerCountResponse {
            eresult: None,
            count: None,
        }
    }

    /// The records a `CMsgFSGetFollowerCountResponse` is written as, in field order.
    pub open spec fn spec_fields(v: SpecCMsgFSGetFollowerCountResponse) -> Seq<SpecField> {
        Seq::<SpecField>::empty()
            + opt_i32(1, v.eresult)
            + opt_i32(2, v.count)
    }

    #[verifier::opaque]
    pub open spec fn spec_encode(v: SpecCMsgFSGetFollowerCountResponse) -> Seq<u8> {
        fields_bytes(Self::spec_fields(v))
    }

    /// What one record does to the message: a declared number sets or extends its
    /// field, any other number is left alone.
    pub open spec fn spec_apply(v: SpecCMsgFSGetFollowerCountResponse, f: SpecField) -> Result<SpecCMsgFSGetFollowerCountResponse, WireError> {
        match f.number {
            1 => match dec_i32(f.value) {
                Ok(x) => Ok(SpecCMsgFSGetFollowerCountResponse { eresult: Some(x), ..v }),
                Err(e) => Err(e),
            },
            2 => match dec_i32(f.value) {
                Ok(x) => Ok(SpecCMsgFSGetFollowerCountResponse { count: Some(x), ..v }),
                Err(e) => Err(e),
            },
            _ => Ok(v),
        }
    }

    pub open spec fn apply_fn() -> spec_fn(SpecCMsgFSGetFollowerCountResponse, SpecField) -> Result<SpecCMsgFSGetFollowerCountResponse, WireError> {
        |v: SpecCMsgFSGetFollowerCountResponse, f: SpecField| Self::spec_apply(v, f)
    }

    /// The message `bytes` makes of `v`: its records applied in order, or the error
    /// that stops the reading.
    pub open spec fn spec_merge(v: SpecCMsgFSGetFollowerCountResponse, bytes: Seq<u8>) -> Result<SpecCMsgFSGetFollowerCountResponse, WireError> {
        let (w, stop) = merge_run(v, bytes, Self::apply_fn());
        match stop {
            None => Ok(w),
            Some(e) => Err(e),
        }
    }

    #[verifier::opaque]
    pub open spec fn spec_decode(bytes: Seq<u8>) -> Result<SpecCMsgFSGetFollowerCountResponse, WireError> {
        Self::spec_merge(Self::spec_default(), bytes)
    }

    /// This message with one record applied to it, or, when the record is refused,
    /// the message unchanged and the reason.
    fn applied(self, f: &Field) -> (r: Result<Self, (Self, WireError)>)
        ensures
            match Self::spec_apply(self@, f@) {
                Ok(v) => r matches Ok(m) && m@ == v,
                Err(e) => r matches Err((m, x)) && x == e && m@ == self@,
            },
    {
        match f.number {
            1 => match read_i32(&f.value) {
                Ok(x) => Ok(Self { eresult: Some(x), ..self }),
                Err(e) => Err((self, e)),
            },
            2 => match read_i32(&f.value) {
                Ok(x) => Ok(Self { count: Some(x), ..self }),
                Err(e) => Err((self, e)),
            },
            _ => Ok(self),
        }
    }

    /// Reads the records `bytes` holds into this message, in order. When a record does
    /// not parse or is refused, the reading stops there: the message keeps what the
    /// records before it gave, and the error is returned.
    pub fn merge(&mut self, bytes: &[u8]) -> (r: Result<(), WireError>)
        ensures
            final(self)@ == merge_run(old(self)@, bytes@, Self::apply_fn()).0,
            r == match merge_run(old(self)@, bytes@, Self::apply_fn()).1 {
                None => Ok::<(), WireError>(()),
                Some(e) => Err::<(), WireError>(e),
            },
    {
        let ghost total = merge_run(self@, bytes@, Self::apply_fn());
        let mut cur = Self::default();
        std::mem::swap(&mut cur, self);
        let mut pos: usize = 0;
        assert(bytes@.skip(0) =~= bytes@);
        while pos < bytes.len()
            invariant
                pos <= bytes@.len(),
                total == merge_run(old(self)@, bytes@, Self::apply_fn()),
                merge_run(cur@, bytes@.skip(pos as int), Self::apply_fn()) == total,
            decreases bytes@.len() - pos,
        {
            let ghost s = bytes@.skip(pos as int);
            proof {
                lemma_merge_run_step(cur@, s, Self::apply_fn());
                lemma_parse_field_len(s);
            }
            match read_field(bytes, pos) {
                Ok((f, end)) => {
                    assert(bytes@.skip(end as int) =~= s.skip((end - pos) as int));
                    match cur.applied(&f) {
                        Ok(m) => {
                            cur = m;
                        },
                        Err((m, e)) => {
                            *self = m;
                            return Err(e);
                        },
                    }
                    pos = end;
                },
                Err(e) => {
                    *self = cur;
                    return Err(e);
                },
            }
        }
        assert(bytes@.skip(pos as int) =~= Seq::<u8>::empty());
        proof {
            lemma_merge_run_empty(cur@, Self::apply_fn());
        }
        *self = cur;
        Ok(())
    }

    /// Decodes a message from its encoding.
    pub fn decode(bytes: &[u8]) -> (r: Result<Self, WireError>)
        ensures
            match Self::spec_decode(bytes@) {
                Ok(v) => r matches Ok(m) && m@ == v,
                Err(e) => r matches Err(x) && x == e,
            },
    {
        proof {
            reveal(CMsgFSGetFollowerCountResponse::spec_decode);
        }
        let mut m = Self::default();
        match m.merge(bytes) {
            Ok(()) => Ok(m),
            Err(e) => Err(e),
        }
    }

    /// The encoding of this message.
    pub fn encode_to_vec(&self) -> (r: Vec<u8>)
        ensures
            r@ == Self::spec_encode(self@),
    {
        let ghost v = self@;
        let mut out: Vec<u8> = Vec::new();
        let ghost p0 = Seq::<SpecField>::empty();
        put_opt_i32(&mut out, 1, self.eresult);
        let ghost p1 = p0 + opt_i32(1, v.eresult);
        proof {
            lemma_fields_bytes_concat(p0, opt_i32(1, v.eresult));
        }
        put_opt_i32(&mut out, 2, self.count);
        let ghost p2 = p1 + opt_i32(2, v.count);
        proof {
            lemma_fields_bytes_concat(p1, opt_i32(2, v.count));
        }
        proof {
            reveal(CMsgFSGetFollowerCountResponse::spec_encode);
        }
        assert(p2 == Self::spec_fields(v));
        out
    }

    /// Appends the encoding of this message to `out`.
    pub fn encode_raw(&self, out: &mut Vec<u8>)
        ensures
            final(out)@ == old(out)@ + Self::spec_encode(self@),
    {
        let mut b = self.encode_to_vec();
        out.append(&mut b);
    }

    /// The first `k` fields of `v`, the others as a fresh message has them.
    #[verifier::opaque]
    pub open spec fn spec_prefix(v: SpecCMsgFSGetFollowerCountResponse, k: int) -> SpecCMsgFSGetFollowerCountResponse {
        SpecCMsgFSGetFollowerCountResponse {
            eresult: if 1 <= k { v.eresult } else { None },
            count: if 2 <= k { v.count } else { None },
        }
    }

    /// Reading field 1 back, after the fields before it.
    proof fn lemma_field_eresult(v: SpecCMsgFSGetFollowerCountResponse)
        ensures
            fold_fields(Self::spec_prefix(v, 0), opt_i32(1, v.eresult), Self::apply_fn())
                == Ok::<SpecCMsgFSGetFollowerCountResponse, WireError>(Self::spec_prefix(v, 1)),
    {
        reveal(CMsgFSGetFollowerCountResponse::spec_prefix);
        reveal(opt_i32);
        let apply = Self::apply_fn();
        let s = Self::spec_prefix(v, 0);
        lemma_fold_opt(s, 1, match v.eresult { Some(x) => Some(enc_i32(x)), None => None }, apply);
        if let Some(x) = v.eresult {
            lemma_i32_roundtrip(x);
        }
        assert(SpecCMsgFSGetFollowerCountResponse { eresult: v.eresult, ..s } == Self::spec_prefix(v, 1));
    }

    /// Reading field 2 back, after the fields before it.
    proof fn lemma_field_count(v: SpecCMsgFSGetFollowerCountResponse)
        ensures
            fold_fields(Self::spec_prefix(v, 1), opt_i32(2, v.count), Self::apply_fn())
                == Ok::<SpecCMsgFSGetFollowerCountResponse, WireError>(Self::spec_prefix(v, 2)),
    {
        reveal(CMsgFSGetFollowerCountResponse::spec_prefix);
        reveal(opt_i32);
        let apply = Self::apply_fn();
        let s = Self::spec_prefix(v, 1);
        lemma_fold_opt(s, 2, match v.count { Some(x) => Some(enc_i32(x)), None => None }, apply);
        if let Some(x) = v.count {
            lemma_i32_roundtrip(x);
        }
        assert(SpecCMsgFSGetFollowerCountResponse { count: v.count, ..s } == Self::spec_prefix(v, 2));
    }

    /// Whether this message declares field number `n`.
    pub open spec fn declares(n: u32) -> bool {
        n == 1 || n == 2
    }

    /// A record with a number this message does not declare is passed over: well-formed
    /// bytes decode to the same message with such a record after them as without it.
    pub proof fn lemma_unknown_field(bytes: Seq<u8>, f: SpecField)
        requires
            parse_fields(bytes) is Ok,
            field_wf(f),
            !Self::declares(f.number),
        ensures
            Self::spec_decode(bytes + field_bytes(f)) == Self::spec_decode(bytes),
    {
        reveal(CMsgFSGetFollowerCountResponse::spec_decode);
        lemma_parse_fields_append(bytes, f);
        let fs = parse_fields(bytes).unwrap();
        let apply = Self::apply_fn();
        lemma_fold_concat(Self::spec_default(), fs, seq![f], apply);
        assert(fs.push(f) =~= fs + seq![f]);
        if let Ok(w) = fold_fields(Self::spec_default(), fs, apply) {
            lemma_fold_single(w, f, apply);
        }
        lemma_merge_run_fold(Self::spec_default(), bytes, apply);
        lemma_merge_run_fold(Self::spec_default(), bytes + field_bytes(f), apply);
    }

    /// Decoding the encoding of a message gives the message back.
    pub proof fn lemma_decode_encode(v: SpecCMsgFSGetFollowerCountResponse)
        requires
            Self::spec_encode(v).len() <= u64::MAX,
        ensures
            Self::spec_decode(Self::spec_encode(v)) == Ok::<SpecCMsgFSGetFollowerCountResponse, WireError>(v),
    {
        let apply = Self::apply_fn();
        let d = Self::spec_default();
        let p0 = Seq::<SpecField>::empty();
        let l1 = opt_i32(1, v.eresult);
        let p1 = p0 + l1;
        let l2 = opt_i32(2, v.count);
        let p2 = p1 + l2;
        assert(parse_fields(Self::spec_encode(v)) == Ok::<Seq<SpecField>, WireError>(p2)) by {
            reveal(CMsgFSGetFollowerCountResponse::spec_encode);
            assert(numbers_ok(p0) && fields_wf(p0)) by {
                reveal(numbers_ok);
                reveal(fields_wf);
            }
            lemma_opt_i32_numbered(1, v.eresult);
            lemma_fields_wf_concat(p0, l1);
            lemma_opt_i32_numbered(2, v.count);
            lemma_fields_wf_concat(p1, l2);
            assert(p2 == Self::spec_fields(v));
            lemma_fields_wf_from_len(p2);
            lemma_fields_roundtrip(p2);
        }
        assert(Self::spec_prefix(v, 0) == d) by {
            reveal(CMsgFSGetFollowerCountResponse::spec_prefix);
        }
        lemma_fold_empty(d, apply);
        lemma_fold_concat(d, p0, l1, apply);
        Self::lemma_field_eresult(v);
        lemma_fold_concat(d, p1, l2, apply);
        Self::lemma_field_count(v);
        assert(Self::spec_prefix(v, 2) == v) by {
            reveal(CMsgFSGetFollowerCountResponse::spec_prefix);
        }
        lemma_merge_run_fold(d, Self::spec_encode(v), apply);
        assert(Self::spec_decode(Self::spec_encode(v)) == Ok::<SpecCMsgFSGetFollowerCountResponse, WireError>(v)) by {
            reveal(CMsgFSGetFollowerCountResponse::spec_decode);
        }
    }
}

/// `CMsgFSGetIsFollowing`, as Valve's schema declares it.
#[derive(Debug, Clone, PartialEq)]
pub struct CMsgFSGetIsFollowing {
    /// Field 1.
    pub steam_id: Option<u64>,
}

/// What a `CMsgFSGetIsFollowing` holds, as mathematical values.
#[verifier::ext_equal]
pub struct SpecCMsgFSGetIsFollowing {
    pub steam_id: Option<u64>,
}

impl View for CMsgFSGetIsFollowing {
    type V = SpecCMsgFSGetIsFollowing;

    open spec fn view(&self) -> SpecCMsgFSGetIsFollowing {
        SpecCMsgFSGetIsFollowing {
            steam_id: self.steam_id,
        }
    }
}

impl Default for CMsgFSGetIsFollowing {
    fn default() -> (r: Self)
        ensures
            r@ == CMsgFSGetIsFollowing::spec_default(),
    {
        CMsgFSGetIsFollowing {
            steam_id: None,
        }
    }
}

impl CMsgFSGetIsFollowing {
    pub open spec fn spec_default() -> SpecCMsgFSGetIsFollowing {
        SpecCMsgFSGetIsFollowing {
            steam_id: None,
        }
    }

    /// The records a `CMsgFSGetIsFollowing` is written as, in field order.
    pub open spec fn spec_fields(v: SpecCMsgFSGetIsFollowing) -> Seq<SpecField> {
        Seq::<SpecField>::empty()
            + opt_fixed64(1, v.steam_id)
    }

    #[verifier::opaque]
    pub open spec fn spec_encode(v: SpecCMsgFSGetIsFollowing) -> Seq<u8> {
        fields_bytes(Self::spec_fields(v))
    }

    /// What one record does to the message: a declared number sets or extends its
    /// field, any other number is left alone.
    pub open spec fn spec_apply(v: SpecCMsgFSGetIsFollowing, f: SpecField) -> Result<SpecCMsgFSGetIsFollowing, WireError> {
        match f.number {
            1 => match dec_fixed64(f.value) {
                Ok(x) => Ok(SpecCMsgFSGetIsFollowing { steam_id: Some(x), ..v }),
                Err(e) => Err(e),
            },
            _ => Ok(v),
        }
    }

    pub open spec fn apply_fn() -> spec_fn(SpecCMsgFSGetIsFollowing, SpecField) -> Result<SpecCMsgFSGetIsFollowing, WireError> {
        |v: SpecCMsgFSGetIsFollowing, f: SpecField| Self::spec_apply(v, f)
    }

    /// The message `bytes` makes of `v`: its records applied in order, or the error
    /// that stops the reading.
    pub open spec fn spec_merge(v: SpecCMsgFSGetIsFollowing, bytes: Seq<u8>) -> Result<SpecCMsgFSGetIsFollowing, WireError> {
        let (w, stop) = merge_run(v, bytes, Self::apply_fn());
        match stop {
            None => Ok(w),
            Some(e) => Err(e),
        }
    }

    #[verifier::opaque]
    pub open spec fn spec_decode(bytes: Seq<u8>) -> Result<SpecCMsgFSGetIsFollowing, WireError> {
        Self::spec_merge(Self::spec_default(), bytes)
    }

    /// This message with one record applied to it, or, when the record is refused,
    /// the message unchanged and the reason.
    fn applied(self, f: &Field) -> (r: Result<Self, (Self, WireError)>)
        ensures
            match Self::spec_apply(self@, f@) {
                Ok(v) => r matches Ok(m) && m@ == v,
                Err(e) => r matches Err((m, x)) && x == e && m@ == self@,
            },
    {
        match f.number {
            1 => match read_fixed64(&f.value) {
                Ok(x) => Ok(Self { steam_id: Some(x), ..self }),
                Err(e) => Err((self, e)),
            },
            _ => Ok(self),
        }
    }

    /// Reads the records `bytes` holds into this message, in order. When a record does
    /// not parse or is refused, the reading stops there: the message keeps what the
    /// records before it gave, and the error is returned.
    pub fn merge(&mut self, bytes: &[u8]) -> (r: Result<(), WireError>)
        ensures
            final(self)@ == merge_run(old(self)@, bytes@, Self::apply_fn()).0,
            r == match merge_run(old(self)@, bytes@, Self::apply_fn()).1 {
                None => Ok::<(), WireError>(()),
                Some(e) => Err::<(), WireError>(e),
            },
    {
        let ghost total = merge_run(self@, bytes@, Self::apply_fn());
        let mut cur = Self::default();
        std::mem::swap(&mut cur, self);
        let mut pos: usize = 0;
        assert(bytes@.skip(0) =~= bytes@);
        while pos < bytes.len()
            invariant
                pos <= bytes@.len(),
                total == merge_run(old(self)@, bytes@, Self::apply_fn()),
                merge_run(cur@, bytes@.skip(pos as int), Self::apply_fn()) == total,
            decreases bytes@.len() - pos,
        {
            let ghost s = bytes@.skip(pos as int);
            proof {
                lemma_merge_run_step(cur@, s, Self::apply_fn());
                lemma_parse_field_len(s);
            }
            match read_field(bytes, pos) {
                Ok((f, end)) => {
                    assert(bytes@.skip(end as int) =~= s.skip((end - pos) as int));
                    match cur.applied(&f) {
                        Ok(m) => {
                            cur = m;
                        },
                        Err((m, e)) => {
                            *self = m;
                            return Err(e);
                        },
                    }
                    pos = end;
                },
                Err(e) => {
                    *self = cur;
                    return Err(e);
                },
            }
        }
        assert(bytes@.skip(pos as int) =~= Seq::<u8>::empty());
        proof {
            lemma_merge_run_empty(cur@, Self::apply_fn());
        }
        *self = cur;
        Ok(())
    }

    /// Decodes a message from its encoding.
    pub fn decode(bytes: &[u8]) -> (r: Result<Self, WireError>)
        ensures
            match Self::spec_decode(bytes@) {
                Ok(v) => r matches Ok(m) && m@ == v,
                Err(e) => r matches Err(x) && x == e,
            },
    {
        proof {
            reveal(CMsgFSGetIsFollowing::spec_decode);
        }
        let mut m = Self::default();
        match m.merge(bytes) {
            Ok(()) => Ok(m),
            Err(e) => Err(e),
        }
    }

    /// The encoding of this message.
    pub fn encode_to_vec(&self) -> (r: Vec<u8>)
        ensures
            r@ == Self::spec_encode(self@),
    {
        let ghost v = self@;
        let mut out: Vec<u8> = Vec::new();
        let ghost p0 = Seq::<SpecField>::empty();
        put_opt_fixed64(&mut out, 1, self.steam_id);
        let ghost p1 = p0 + opt_fixed64(1, v.steam_id);
        proof {
            lemma_fields_bytes_concat(p0, opt_fixed64(1, v.steam_id));
        }
        proof {
            reveal(CMsgFSGetIsFollowing::spec_encode);
        }
        assert(p1 == Self::spec_fields(v));
        out
    }

    /// Appends the encoding of this message to `out`.
    pub fn encode_raw(&self, out: &mut Vec<u8>)
        ensures
            final(out)@ == old(out)@ + Self::spec_encode(self@),
    {
        let mut b = self.encode_to_vec();
        out.append(&mut b);
    }

    /// The first `k` fields of `v`, the others as a fresh message has them.
    #[verifier::opaque]
    pub open spec fn spec_prefix(v: SpecCMsgFSGetIsFollowing, k: int) -> SpecCMsgFSGetIsFollowing {
        SpecCMsgFSGetIsFollowing {
            steam_id: if 1 <= k { v.steam_id } else { None },
        }
    }

    /// Reading field 1 back, after the fields before it.
    proof fn lemma_field_steam_id(v: SpecCMsgFSGetIsFollowing)
        ensures
            fold_fields(Self::spec_prefix(v, 0), opt_fixed64(1, v.steam_id), Self::apply_fn())
                == Ok::<SpecCMsgFSGetIsFollowing, WireError>(Self::spec_prefix(v, 1)),
    {
        reveal(CMsgFSGetIsFollowing::spec_prefix);
        reveal(opt_fixed64);
        let apply = Self::apply_fn();
        let s = Self::spec_prefix(v, 0);
        lemma_fold_opt(s, 1, match v.steam_id { Some(x) => Some(enc_fixed64(x)), None => None }, apply);
        if let Some(x) = v.steam_id {
            lemma_u64_roundtrip(x);
        }
        assert(SpecCMsgFSGetIsFollowing { steam_id: v.steam_id, ..s } == Self::spec_prefix(v, 1));
    }

    /// Whether this message declares field number `n`.
    pub open spec fn declares(n: u32) -> bool {
        n == 1
    }

    /// A record with a number this message does not declare is passed over: well-formed
    /// bytes decode to the same message with such a record after them as without it.
    pub proof fn lemma_unknown_field(bytes: Seq<u8>, f: SpecField)
        requires
            parse_fields(bytes) is Ok,
            field_wf(f),
            !Self::declares(f.number),
        ensures
            Self::spec_decode(bytes + field_bytes(f)) == Self::spec_decode(bytes),
    {
        reveal(CMsgFSGetIsFollowing::spec_decode);
        lemma_parse_fields_append(bytes, f);
        let fs = parse_fields(bytes).unwrap();
        let apply = Self::apply_fn();
        lemma_fold_concat(Self::spec_default(), fs, seq![f], apply);
        assert(fs.push(f) =~= fs + seq![f]);
        if let Ok(w) = fold_fields(Self::spec_default(), fs, apply) {
            lemma_fold_single(w, f, apply);
        }
        lemma_merge_run_fold(Self::spec_default(), bytes, apply);
        lemma_merge_run_fold(Self::spec_default(), bytes + field_bytes(f), apply);
    }

    /// Decoding the encoding of a message gives the message back.
    pub proof fn lemma_decode_encode(v: SpecCMsgFSGetIsFollowing)
        requires
            Self::spec_encode(v).len() <= u64::MAX,
        ensures
            Self::spec_decode(Self::spec_encode(v)) == Ok::<SpecCMsgFSGetIsFollowing, WireError>(v),
    {
        let apply = Self::apply_fn();
        let d = Self::spec_default();
        let p0 = Seq::<SpecField>::empty();
        let l1 = opt_fixed64(1, v.steam_id);
        let p1 = p0 + l1;
        assert(parse_fields(Self::spec_encode(v)) == Ok::<Seq<SpecField>, WireError>(p1)) by {
            reveal(CMsgFSGetIsFollowing::spec_encode);
            assert(numbers_ok(p0) && fields_wf(p0)) by {
                reveal(numbers_ok);
                reveal(fields_wf);
            }
            lemma_opt_fixed64_numbered(1, v.steam_id);
            lemma_fields_wf_concat(p0, l1);
            assert(p1 == Self::spec_fields(v));
            lemma_fields_wf_from_len(p1);
            lemma_fields_roundtrip(p1);
        }
        assert(Self::spec_prefix(v, 0) == d) by {
            reveal(CMsgFSGetIsFollowing::spec_prefix);
        }
        lemma_fold_empty(d, apply);
        lemma_fold_concat(d, p0, l1, apply);
        Self::lemma_field_steam_id(v);
        assert(Self::spec_prefix(v, 1) == v) by {
            reveal(CMsgFSGetIsFollowing::spec_prefix);
        }
        lemma_merge_run_fold(d, Self::spec_encode(v), apply);
        assert(Self::spec_decode(Self::spec_encode(v)) == Ok::<SpecCMsgFSGetIsFollowing, WireError>(v)) by {
            reveal(CMsgFSGetIsFollowing::spec_decode);
        }
    }
}

/// `CMsgFSGetIsFollowingResponse`, as Valve's schema declares it.
#[derive(Debug, Clone, PartialEq)]
pub struct CMsgFSGetIsFollowingResponse {
    /// Field 1.
    pub eresult: Option<i32>,
    /// Field 2.
    pub is_following: Option<bool>,
}

/// What a `CMsgFSGetIsFollowingResponse` holds, as mathematical values.
#[verifier::ext_equal]
pub struct SpecCMsgFSGetIsFollowingResponse {
    pub eresult: Option<i32>,
    pub is_following: Option<bool>,
}

impl View for CMsgFSGetIsFollowingResponse {
    type V = SpecCMsgFSGetIsFollowingResponse;

    open spec fn view(&self) -> SpecCMsgFSGetIsFollowingResponse {
        SpecCMsgFSGetIsFollowingResponse {
            eresult: self.eresult,
            is_following: self.is_following,
        }
    }
}

impl Default for CMsgFSGetIsFollowingResponse {
    fn default() -> (r: Self)
        ensures
            r@ == CMsgFSGetIsFollowingResponse::spec_default(),
    {
        CMsgFSGetIsFollowingResponse {
            eresult: None,
            is_following: None,
        }
    }
}

impl CMsgFSGetIsFollowingResponse {
    /// Field 1, or its schema default when absent.
    pub fn eresult_or_default(&self) -> (r: i32)
        ensures
            r == match self.eresult {
                Some(x) => x,
                None => 2i32,
            },
    {
        self.eresult.unwrap_or(2i32)
    }

    /// Field 2, or its schema default when absent.
    pub fn is_following_or_default(&self) -> (r: bool)
        ensures
            r == match self.is_following {
                Some(x) => x,
                None => false,
            },
    {
        self.is_following.unwrap_or(false)
    }

    pub open spec fn spec_default() -> SpecCMsgFSGetIsFollowingResponse {
        SpecCMsgFSGetIsFollowingResponse {
            eresult: None,
            is_following: None,
        }
    }

    /// The records a `CMsgFSGetIsFollowingResponse` is written as, in field order.
    pub open spec fn spec_fields(v: SpecCMsgFSGetIsFollowingResponse) -> Seq<SpecField> {
        Seq::<SpecField>::empty()
            + opt_i32(1, v.eresult)
            + opt_bool(2, v.is_following)
    }

    #[verifier::opaque]
    pub open spec fn spec_encode(v: SpecCMsgFSGetIsFollowingResponse) -> Seq<u8> {
        fields_bytes(Self::spec_fields(v))
    }

    /// What one record does to the message: a declared number sets or extends its
    /// field, any other number is left alone.
    pub open spec fn spec_apply(v: SpecCMsgFSGetIsFollowingResponse, f: SpecField) -> Result<SpecCMsgFSGetIsFollowingResponse, WireError> {
        match f.number {
            1 => match dec_i32(f.value) {
                Ok(x) => Ok(SpecCMsgFSGetIsFollowingResponse { eresult: Some(x), ..v }),
                Err(e) => Err(e),
            },
            2 => match dec_bool(f.value) {
                Ok(x) => Ok(SpecCMsgFSGetIsFollowingResponse { is_following: Some(x), ..v }),
                Err(e) => Err(e),
            },
            _ => Ok(v),
        }
    }

    pub open spec fn apply_fn() -> spec_fn(SpecCMsgFSGetIsFollowingResponse, SpecField) -> Result<SpecCMsgFSGetIsFollowingResponse, WireError> {
        |v: SpecCMsgFSGetIsFollowingResponse, f: SpecField| Self::spec_apply(v, f)
    }

    /// The message `bytes` makes of `v`: its records applied in order, or the error
    /// that stops the reading.
    pub open spec fn spec_merge(v: SpecCMsgFSGetIsFollowingResponse, bytes: Seq<u8>) -> Result<SpecCMsgFSGetIsFollowingResponse, WireError> {
        let (w, stop) = merge_run(v, bytes, Self::apply_fn());
        match stop {
            None => Ok(w),
            Some(e) => Err(e),
        }
    }

    #[verifier::opaque]
    pub open spec fn spec_decode(bytes: Seq<u8>) -> Result<SpecCMsgFSGetIsFollowingResponse, WireError> {
        Self::spec_merge(Self::spec_default(), bytes)
    }

    /// This message with one record applied to it, or, when the record is refused,
    /// the message unchanged and the reason.
    fn applied(self, f: &Field) -> (r: Result<Self, (Self, WireError)>)
        ensures
            match Self::spec_apply(self@, f@) {
                Ok(v) => r matches Ok(m) && m@ == v,
                Err(e) => r matches Err((m, x)) && x == e && m@ == self@,
            },
    {
        match f.number {
            1 => match read_i32(&f.value) {
                Ok(x) => Ok(Self { eresult: Some(x), ..self }),
                Err(e) => Err((self, e)),
            },
            2 => match read_bool(&f.value) {
                Ok(x) => Ok(Self { is_following: Some(x), ..self }),
                Err(e) => Err((self, e)),
            },
            _ => Ok(self),
        }
    }

    /// Reads the records `bytes` holds into this message, in order. When a record does
    /// not parse or is refused, the reading stops there: the message keeps what the
    /// records before it gave, and the error is returned.
    pub fn merge(&mut self, bytes: &[u8]) -> (r: Result<(), WireError>)
        ensures
            final(self)@ == merge_run(old(self)@, bytes@, Self::apply_fn()).0,
            r == match merge_run(old(self)@, bytes@, Self::apply_fn()).1 {
                None => Ok::<(), WireError>(()),
                Some(e) => Err::<(), WireError>(e),
            },
    {
        let ghost total = merge_run(self@, bytes@, Self::apply_fn());
        let mut cur = Self::default();
        std::mem::swap(&mut cur, self);
        let mut pos: usize = 0;
        assert(bytes@.skip(0) =~= bytes@);
        while pos < bytes.len()
            invariant
                pos <= bytes@.len(),
                total == merge_run(old(self)@, bytes@, Self::apply_fn()),
                merge_run(cur@, bytes@.skip(pos as int), Self::apply_fn()) == total,
            decreases bytes@.len() - pos,
        {
            let ghost s = bytes@.skip(pos as int);
            proof {
                lemma_merge_run_step(cur@, s, Self::apply_fn());
                lemma_parse_field_len(s);
            }
            match read_field(bytes, pos) {
                Ok((f, end)) => {
                    assert(bytes@.skip(end as int) =~= s.skip((end - pos) as int));
                    match cur.applied(&f) {
                        Ok(m) => {
                            cur = m;
                        },
                        Err((m, e)) => {
                            *self = m;
                            return Err(e);
                        },
                    }
                    pos = end;
                },
                Err(e) => {
                    *self = cur;
                    return Err(e);
                },
            }
        }
        assert(bytes@.skip(pos as int) =~= Seq::<u8>::empty());
        proof {
            lemma_merge_run_empty(cur@, Self::apply_fn());
        }
        *self = cur;
        Ok(())
    }

    /// Decodes a message from its encoding.
    pub fn decode(bytes: &[u8]) -> (r: Result<Self, WireError>)
        ensures
            match Self::spec_decode(bytes@) {
                Ok(v) => r matches Ok(m) && m@ == v,
                Err(e) => r matches Err(x) && x == e,
            },
    {
        proof {
            reveal(CMsgFSGetIsFollowingResponse::spec_decode);
        }
        let mut m = Self::default();
        match m.merge(bytes) {
            Ok(()) => Ok(m),
            Err(e) => Err(e),
        }
    }

    /// The encoding of this message.
    pub fn encode_to_vec(&self) -> (r: Vec<u8>)
        ensures
            r@ == Self::spec_encode(self@),
    {
        let ghost v = self@;
        let mut out: Vec<u8> = Vec::new();
        let ghost p0 = Seq::<SpecField>::empty();
        put_opt_i32(&mut out, 1, self.eresult);
        let ghost p1 = p0 + opt_i32(1, v.eresult);
        proof {
            lemma_fields_bytes_concat(p0, opt_i32(1, v.eresult));
        }
        put_opt_bool(&mut out, 2, self.is_following);
        let ghost p2 = p1 + opt_bool(2, v.is_following);
        proof {
            lemma_fields_bytes_concat(p1, opt_bool(2, v.is_following));
        }
        proof {
            reveal(CMsgFSGetIsFollowingResponse::spec_encode);
        }
        assert(p2 == Self::spec_fields(v));
        out
    }

    /// Appends the encoding of this message to `out`.
    pub fn encode_raw(&self, out: &mut Vec<u8>)
        ensures
            final(out)@ == old(out)@ + Self::spec_encode(self@),
    {
        let mut b = self.encode_to_vec();
        out.append(&mut b);
    }

    /// The first `k` fields of `v`, the others as a fresh message has them.
    #[verifier::opaque]
    pub open spec fn spec_prefix(v: SpecCMsgFSGetIsFollowingResponse, k: int) -> SpecCMsgFSGetIsFollowingResponse {
        SpecCMsgFSGetIsFollowingResponse {
            eresult: if 1 <= k { v.eresult } else { None },
            is_following: if 2 <= k { v.is_following } else { None },
        }
    }

    /// Reading field 1 back, after the fields before it.
    proof fn lemma_field_eresult(v: SpecCMsgFSGetIsFollowingResponse)
        ensures
            fold_fields(Self::spec_prefix(v, 0), opt_i32(1, v.eresult), Self::apply_fn())
                == Ok::<SpecCMsgFSGetIsFollowingResponse, WireError>(Self::spec_prefix(v, 1)),
    {
        reveal(CMsgFSGetIsFollowingResponse::spec_prefix);
        reveal(opt_i32);
        let apply = Self::apply_fn();
        let s = Self::spec_prefix(v, 0);
        lemma_fold_opt(s, 1, match v.eresult { Some(x) => Some(enc_i32(x)), None => None }, apply);
        if let Some(x) = v.eresult {
            lemma_i32_roundtrip(x);
        }
        assert(SpecCMsgFSGetIsFollowingResponse { eresult: v.eresult, ..s } == Self::spec_prefix(v, 1));
    }

    /// Reading field 2 back, after the fields before it.
    proof fn lemma_field_is_following(v: SpecCMsgFSGetIsFollowingResponse)
        ensures
            fold_fields(Self::spec_prefix(v, 1), opt_bool(2, v.is_following), Self::apply_fn())
                == Ok::<SpecCMsgFSGetIsFollowingResponse, WireError>(Self::spec_prefix(v, 2)),
    {
        reveal(CMsgFSGetIsFollowingResponse::spec_prefix);
        reveal(opt_bool);
        let apply = Self::apply_fn();
        let s = Self::spec_prefix(v, 1);
        lemma_fold_opt(s, 2, match v.is_following { Some(x) => Some(enc_bool(x)), None => None }, apply);
        assert(SpecCMsgFSGetIsFollowingResponse { is_following: v.is_following, ..s } == Self::spec_prefix(v, 2));
    }

    /// Whether this message declares field number `n`.
    pub open spec fn declares(n: u32) -> bool {
        n == 1 || n == 2
    }

    /// A record with a number this message does not declare is passed over: well-formed
    /// bytes decode to the same message with such a record after them as without it.
    pub proof fn lemma_unknown_field(bytes: Seq<u8>, f: SpecField)
        requires
            parse_fields(bytes) is Ok,
            field_wf(f),
            !Self::declares(f.number),
        ensures
            Self::spec_decode(bytes + field_bytes(f)) == Self::spec_decode(bytes),
    {
        reveal(CMsgFSGetIsFollowingResponse::spec_decode);
        lemma_parse_fields_append(bytes, f);
        let fs = parse_fields(bytes).unwrap();
        let apply = Self::apply_fn();
        lemma_fold_concat(Self::spec_default(), fs, seq![f], apply);
        assert(fs.push(f) =~= fs + seq![f]);
        if let Ok(w) = fold_fields(Self::spec_default(), fs, apply) {
            lemma_fold_single(w, f, apply);
        }
        lemma_merge_run_fold(Self::spec_default(), bytes, apply);
        lemma_merge_run_fold(Self::spec_default(), bytes + field_bytes(f), apply);
    }

    /// Decoding the encoding of a message gives the message back.
    pub proof fn lemma_decode_encode(v: SpecCMsgFSGetIsFollowingResponse)
        requires
            Self::spec_encode(v).len() <= u64::MAX,
        ensures
            Self::spec_decode(Self::spec_encode(v)) == Ok::<SpecCMsgFSGetIsFollowingResponse, WireError>(v),
    {
        let apply = Self::apply_fn();
        let d = Self::spec_default();
        let p0 = Seq::<SpecField>::empty();
        let l1 = opt_i32(1, v.eresult);
        let p1 = p0 + l1;
        let l2 = opt_bool(2, v.is_following);
        let p2 = p1 + l2;
        assert(parse_fields(Self::spec_encode(v)) == Ok::<Seq<SpecField>, WireError>(p2)) by {
            reveal(CMsgFSGetIsFollowingResponse::spec_encode);
            assert(numbers_ok(p0) && fields_wf(p0)) by {
                reveal(numbers_ok);
                reveal(fields_wf);
            }
            lemma_opt_i32_numbered(1, v.eresult);
            lemma_fields_wf_concat(p0, l1);
            lemma_opt_bool_numbered(2, v.is_following);
            lemma_fields_wf_concat(p1, l2);
            assert(p2 == Self::spec_fields(v));
            lemma_fields_wf_from_len(p2);
            lemma_fields_roundtrip(p2);
        }
        assert(Self::spec_prefix(v, 0) == d) by {
            reveal(CMsgFSGetIsFollowingResponse::spec_prefix);
        }
        lemma_fold_empty(d, apply);
        lemma_fold_concat(d, p0, l1, apply);
        Self::lemma_field_eresult(v);
        lemma_fold_concat(d, p1, l2, apply);
        Self::lemma_field_is_following(v);
        assert(Self::spec_prefix(v, 2) == v) by {
            reveal(CMsgFSGetIsFollowingResponse::spec_prefix);
        }
        lemma_merge_run_fold(d, Self::spec_encode(v), apply);
        assert(Self::spec_decode(Self::spec_encode(v)) == Ok::<SpecCMsgFSGetIsFollowingResponse, WireError>(v)) by {
            reveal(CMsgFSGetIsFollowingResponse::spec_decode);
        }
    }
}

/// `CMsgFSEnumerateFollowingList`, as Valve's schema declares it.
#[derive(Debug, Clone, PartialEq)]
pub struct CMsgFSEnumerateFollowingList {
    /// Field 1.
    pub start_index: Option<u32>,
}

/// What a `CMsgFSEnumerateFollowingList` holds, as mathematical values.
#[verifier::ext_equal]
pub struct SpecCMsgFSEnumerateFollowingList {
    pub start_index: Option<u32>,
}

impl View for CMsgFSEnumerateFollowingList {
    type V = SpecCMsgFSEnumerateFollowingList;

    open spec fn view(&self) -> SpecCMsgFSEnumerateFollowingList {
        SpecCMsgFSEnumerateFollowingList {
            start_index: self.start_index,
        }
    }
}

impl Default for CMsgFSEnumerateFollowingList {
    fn default() -> (r: Self)
        ensures
            r@ == CMsgFSEnumerateFollowingList::spec_default(),
    {
        CMsgFSEnumerateFollowingList {
            start_index: None,
        }
    }
}

impl CMsgFSEnumerateFollowingList {
    pub open spec fn spec_default() -> SpecCMsgFSEnumerateFollowingList {
        SpecCMsgFSEnumerateFollowingList {
            start_index: None,
        }
    }

    /// The records a `CMsgFSEnumerateFollowingList` is written as, in field order.
    pub open spec fn spec_fields(v: SpecCMsgFSEnumerateFollowingList) -> Seq<SpecField> {
        Seq::<SpecField>::empty()
            + opt_u32(1, v.start_index)
    }

    #[verifier::opaque]
    pub open spec fn spec_encode(v: SpecCMsgFSEnumerateFollowingList) -> Seq<u8> {
        fields_bytes(Self::spec_fields(v))
    }

    /// What one record does to the message: a declared number sets or extends its
    /// field, any other number is left alone.
    pub open spec fn spec_apply(v: SpecCMsgFSEnumerateFollowingList, f: SpecField) -> Result<SpecCMsgFSEnumerateFollowingList, WireError> {
        match f.number {
            1 => match dec_u32(f.value) {
                Ok(x) => Ok(SpecCMsgFSEnumerateFollowingList { start_index: Some(x), ..v }),
                Err(e) => Err(e),
            },
            _ => Ok(v),
        }
    }

    pub open spec fn apply_fn() -> spec_fn(SpecCMsgFSEnumerateFollowingList, SpecField) -> Result<SpecCMsgFSEnumerateFollowingList, WireError> {
        |v: SpecCMsgFSEnumerateFollowingList, f: SpecField| Self::spec_apply(v, f)
    }

    /// The message `bytes` makes of `v`: its records applied in order, or the error
    /// that stops the reading.
    pub open spec fn spec_merge(v: SpecCMsgFSEnumerateFollowingList, bytes: Seq<u8>) -> Result<SpecCMsgFSEnumerateFollowingList, WireError> {
        let (w, stop) = merge_run(v, bytes, Self::apply_fn());
        match stop {
            None => Ok(w),
            Some(e) => Err(e),
        }
    }

    #[verifier::opaque]
    pub open spec fn spec_decode(bytes: Seq<u8>) -> Result<SpecCMsgFSEnumerateFollowingList, WireError> {
        Self::spec_merge(Self::spec_default(), bytes)
    }

    /// This message with one record applied to it, or, when the record is refused,
    /// the message unchanged and the reason.
    fn applied(self, f: &Field) -> (r: Result<Self, (Self, WireError)>)
        ensures
            match Self::spec_apply(self@, f@) {
                Ok(v) => r matches Ok(m) && m@ == v,
                Err(e) => r matches Err((m, x)) && x == e && m@ == self@,
            },
    {
        match f.number {
            1 => match read_u32(&f.value) {
                Ok(x) => Ok(Self { start_index: Some(x), ..self }),
                Err(e) => Err((self, e)),
            },
            _ => Ok(self),
        }
    }

    /// Reads the records `bytes` holds into this message, in order. When a record does
    /// not parse or is refused, the reading stops there: the message keeps what the
    /// records before it gave, and the error is returned.
    pub fn merge(&mut self, bytes: &[u8]) -> (r: Result<(), WireError>)
        ensures
            final(self)@ == merge_run(old(self)@, bytes@, Self::apply_fn()).0,
            r == match merge_run(old(self)@, bytes@, Self::apply_fn()).1 {
                None => Ok::<(), WireError>(()),
                Some(e) => Err::<(), WireError>(e),
            },
    {
        let ghost total = merge_run(self@, bytes@, Self::apply_fn());
        let mut cur = Self::default();
        std::mem::swap(&mut cur, self);
        let mut pos: usize = 0;
        assert(bytes@.skip(0) =~= bytes@);
        while pos < bytes.len()
            invariant
                pos <= bytes@.len(),
                total == merge_run(old(self)@, bytes@, Self::apply_fn()),
                merge_run(cur@, bytes@.skip(pos as int), Self::apply_fn()) == total,
            decreases bytes@.len() - pos,
        {
            let ghost s = bytes@.skip(pos as int);
            proof {
                lemma_merge_run_step(cur@, s, Self::apply_fn());
                lemma_parse_field_len(s);
            }
            match read_field(bytes, pos) {
                Ok((f, end)) => {
                    assert(bytes@.skip(end as int) =~= s.skip((end - pos) as int));
                    match cur.applied(&f) {
                        Ok(m) => {
                            cur = m;
                        },
                        Err((m, e)) => {
                            *self = m;
                            return Err(e);
                        },
                    }
                    pos = end;
                },
                Err(e) => {
                    *self = cur;
                    return Err(e);
                },
            }
        }
        assert(bytes@.skip(pos as int) =~= Seq::<u8>::empty());
        proof {
            lemma_merge_run_empty(cur@, Self::apply_fn());
        }
        *self = cur;
        Ok(())
    }

    /// Decodes a message from its encoding.
    pub fn decode(bytes: &[u8]) -> (r: Result<Self, WireError>)
        ensures
            match Self::spec_decode(bytes@) {
                Ok(v) => r matches Ok(m) && m@ == v,
                Err(e) => r matches Err(x) && x == e,
            },
    {
        proof {
            reveal(CMsgFSEnumerateFollowingList::spec_decode);
        }
        let mut m = Self::default();
        match m.merge(bytes) {
            Ok(()) => Ok(m),
            Err(e) => Err(e),
        }
    }

    /// The encoding of this message.
    pub fn encode_to_vec(&self) -> (r: Vec<u8>)
        ensures
            r@ == Self::spec_encode(self@),
    {
        let ghost v = self@;
        let mut out: Vec<u8> = Vec::new();
        let ghost p0 = Seq::<SpecField>::empty();
        put_opt_u32(&mut out, 1, self.start_index);
        let ghost p1 = p0 + opt_u32(1, v.start_index);
        proof {
            lemma_fields_bytes_concat(p0, opt_u32(1, v.start_index));
        }
        proof {
            reveal(CMsgFSEnumerateFollowingList::spec_encode);
        }
        assert(p1 == Self::spec_fields(v));
        out
    }

    /// Appends the encoding of this message to `out`.
    pub fn encode_raw(&self, out: &mut Vec<u8>)
        ensures
            final(out)@ == old(out)@ + Self::spec_encode(self@),
    {
        let mut b = self.encode_to_vec();
        out.append(&mut b);
    }

    /// The first `k` fields of `v`, the others as a fresh message has them.
    #[verifier::opaque]
    pub open spec fn spec_prefix(v: SpecCMsgFSEnumerateFollowingList, k: int) -> SpecCMsgFSEnumerateFollowingList {
        SpecCMsgFSEnumerateFollowingList {
            start_index: if 1 <= k { v.start_index } else { None },
        }
    }

    /// Reading field 1 back, after the fields before it.
    proof fn lemma_field_start_index(v: SpecCMsgFSEnumerateFollowingList)
        ensures
            fold_fields(Self::spec_prefix(v, 0), opt_u32(1, v.start_index), Self::apply_fn())
                == Ok::<SpecCMsgFSEnumerateFollowingList, WireError>(Self::spec_prefix(v, 1)),
    {
        reveal(CMsgFSEnumerateFollowingList::spec_prefix);
        reveal(opt_u32);
        let apply = Self::apply_fn();
        let s = Self::spec_prefix(v, 0);
        lemma_fold_opt(s, 1, match v.start_index { Some(x) => Some(enc_u32(x)), None => None }, apply);
        if let Some(x) = v.start_index {
            lemma_u32_roundtrip(x);
        }
        assert(SpecCMsgFSEnumerateFollowingList { start_index: v.start_index, ..s } == Self::spec_prefix(v, 1));
    }

    /// Whether this message declares field number `n`.
    pub open spec fn declares(n: u32) -> bool {
        n == 1
    }

    /// A record with a number this message does not declare is passed over: well-formed
    /// bytes decode to the same message with such a record after them as without it.
    pub proof fn lemma_unknown_field(bytes: Seq<u8>, f: SpecField)
        requires
            parse_fields(bytes) is Ok,
            field_wf(f),
            !Self::declares(f.number),
        ensures
            Self::spec_decode(bytes + field_bytes(f)) == Self::spec_decode(bytes),
    {
        reveal(CMsgFSEnumerateFollowingList::spec_decode);
        lemma_parse_fields_append(bytes, f);
        let fs = parse_fields(bytes).unwrap();
        let apply = Self::apply_fn();
        lemma_fold_concat(Self::spec_default(), fs, seq![f], apply);
        assert(fs.push(f) =~= fs + seq![f]);
        if let Ok(w) = fold_fields(Self::spec_default(), fs, apply) {
            lemma_fold_single(w, f, apply);
        }
        lemma_merge_run_fold(Self::spec_default(), bytes, apply);
        lemma_merge_run_fold(Self::spec_default(), bytes + field_bytes(f), apply);
    }

    /// Decoding the encoding of a message gives the message back.
    pub proof fn lemma_decode_encode(v: SpecCMsgFSEnumerateFollowingList)
        requires
            Self::spec_encode(v).len() <= u64::MAX,
        ensures
            Self::spec_decode(Self::spec_encode(v)) == Ok::<SpecCMsgFSEnumerateFollowingList, WireError>(v),
    {
        let apply = Self::apply_fn();
        let d = Self::spec_default();
        let p0 = Seq::<SpecField>::empty();
        let l1 = opt_u32(1, v.start_index);
        let p1 = p0 + l1;
        assert(parse_fields(Self::spec_encode(v)) == Ok::<Seq<SpecField>, WireError>(p1)) by {
            reveal(CMsgFSEnumerateFollowingList::spec_encode);
            assert(numbers_ok(p0) && fields_wf(p0)) by {
                reveal(numbers_ok);
                reveal(fields_wf);
            }
            lemma_opt_u32_numbered(1, v.start_index);
            lemma_fields_wf_concat(p0, l1);
            assert(p1 == Self::spec_fields(v));
            lemma_fields_wf_from_len(p1);
            lemma_fields_roundtrip(p1);
        }
        assert(Self::spec_prefix(v, 0) == d) by {
            reveal(CMsgFSEnumerateFollowingList::spec_prefix);
        }
        lemma_fold_empty(d, apply);
        lemma_fold_concat(d, p0, l1, apply);
        Self::lemma_field_start_index(v);
        assert(Self::spec_prefix(v, 1) == v) by {
            reveal(CMsgFSEnumerateFollowingList::spec_prefix);
        }
        lemma_merge_run_fold(d, Self::spec_encode(v), apply);
        assert(Self::spec_decode(Self::spec_encode(v)) == Ok::<SpecCMsgFSEnumerateFollowingList, WireError>(v)) by {
            reveal(CMsgFSEnumerateFollowingList::spec_decode);
        }
    }
}

/// `CMsgFSEnumerateFollowingListResponse`, as Valve's schema declares it.
#[derive(Debug, Clone, PartialEq)]
pub struct CMsgFSEnumerateFollowingListResponse {
    /// Field 1.
    pub eresult: Option<i32>,
    /// Field 2.
    pub total_results: Option<i32>,
    /// Field 3.
    pub steam_ids: Vec<u64>,
}

/// What a `CMsgFSEnumerateFollowingListResponse` holds, as mathematical values.
#[verifier::ext_equal]
pub struct SpecCMsgFSEnumerateFollowingListResponse {
    pub eresult: Option<i32>,
    pub total_results: Option<i32>,
    pub steam_ids: Seq<u64>,
}

impl View for CMsgFSEnumerateFollowingListResponse {
    type V = SpecCMsgFSEnumerateFollowingListResponse;

    open spec fn view(&self) -> SpecCMsgFSEnumerateFollowingListResponse {
        SpecCMsgFSEnumerateFollowingListResponse {
            eresult: self.eresult,
            total_results: self.total_results,
            steam_ids: self.steam_ids@,
        }
    }
}

impl Default for CMsgFSEnumerateFollowingListResponse {
    fn default() -> (r: Self)
        ensures
            r@ == CMsgFSEnumerateFollowingListResponse::spec_default(),
    {
        CMsgFSEnumerateFollowingListResponse {
            eresult: None,
            total_results: None,
            steam_ids: Vec::new(),
        }
    }
}

impl CMsgFSEnumerateFollowingListResponse {
    /// Field 1, or its schema default when absent.
    pub fn eresult_or_default(&self) -> (r: i32)
        ensures
            r == match self.eresult {
                Some(x) => x,
                None => 2i32,
            },
    {
        self.eresult.unwrap_or(2i32)
    }

    pub open spec fn spec_default() -> SpecCMsgFSEnumerateFollowingListResponse {
        SpecCMsgFSEnumerateFollowingListResponse {
            eresult: None,
            total_results: None,
            steam_ids: Seq::empty(),
        }
    }

    /// The records a `CMsgFSEnumerateFollowingListResponse` is written as, in field order.
    pub open spec fn spec_fields(v: SpecCMsgFSEnumerateFollowingListResponse) -> Seq<SpecField> {
        Seq::<SpecField>::empty()
            + opt_i32(1, v.eresult)
            + opt_i32(2, v.total_results)
            + rep_fixed64(3, v.steam_ids)
    }

    #[verifier::opaque]
    pub open spec fn spec_encode(v: SpecCMsgFSEnumerateFollowingListResponse) -> Seq<u8> {
        fields_bytes(Self::spec_fields(v))
    }

    /// What one record does to the message: a declared number sets or extends its
    /// field, any other number is left alone.
    pub open spec fn spec_apply(v: SpecCMsgFSEnumerateFollowingListResponse, f: SpecField) -> Result<SpecCMsgFSEnumerateFollowingListResponse, WireError> {
        match f.number {
            1 => match dec_i32(f.value) {
                Ok(x) => Ok(SpecCMsgFSEnumerateFollowingListResponse { eresult: Some(x), ..v }),
                Err(e) => Err(e),
            },
            2 => match dec_i32(f.value) {
                Ok(x) => Ok(SpecCMsgFSEnumerateFollowingListResponse { total_results: Some(x), ..v }),
                Err(e) => Err(e),
            },
            3 => match dec_packed_fixed64(f.value) {
                Ok(xs) => Ok(SpecCMsgFSEnumerateFollowingListResponse { steam_ids: v.steam_ids + xs, ..v }),
                Err(e) => Err(e),
            },
            _ => Ok(v),
        }
    }

    pub open spec fn apply_fn() -> spec_fn(SpecCMsgFSEnumerateFollowingListResponse, SpecField) -> Result<SpecCMsgFSEnumerateFollowingListResponse, WireError> {
        |v: SpecCMsgFSEnumerateFollowingListResponse, f: SpecField| Self::spec_apply(v, f)
    }

    /// The message `bytes` makes of `v`: its records applied in order, or the error
    /// that stops the reading.
    pub open spec fn spec_merge(v: SpecCMsgFSEnumerateFollowingListResponse, bytes: Seq<u8>) -> Result<SpecCMsgFSEnumerateFollowingListResponse, WireError> {
        let (w, stop) = merge_run(v, bytes, Self::apply_fn());
        match stop {
            None => Ok(w),
            Some(e) => Err(e),
        }
    }

    #[verifier::opaque]
    pub open spec fn spec_decode(bytes: Seq<u8>) -> Result<SpecCMsgFSEnumerateFollowingListResponse, WireError> {
        Self::spec_merge(Self::spec_default(), bytes)
    }

    /// This message with one record applied to it, or, when the record is refused,
    /// the message unchanged and the reason.
    fn applied(self, f: &Field) -> (r: Result<Self, (Self, WireError)>)
        ensures
            match Self::spec_apply(self@, f@) {
                Ok(v) => r matches Ok(m) && m@ == v,
                Err(e) => r matches Err((m, x)) && x == e && m@ == self@,
            },
    {
        match f.number {
            1 => match read_i32(&f.value) {
                Ok(x) => Ok(Self { eresult: Some(x), ..self }),
                Err(e) => Err((self, e)),
            },
            2 => match read_i32(&f.value) {
                Ok(x) => Ok(Self { total_results: Some(x), ..self }),
                Err(e) => Err((self, e)),
            },
            3 => match read_packed_fixed64(&f.value) {
                Ok(xs) => {
                    let mut m = self;
                    let mut xs = xs;
                    m.steam_ids.append(&mut xs);
                    Ok(m)
                },
                Err(e) => Err((self, e)),
            },
            _ => Ok(self),
        }
    }

    /// Reads the records `bytes` holds into this message, in order. When a record does
    /// not parse or is refused, the reading stops there: the message keeps what the
    /// records before it gave, and the error is returned.
    pub fn merge(&mut self, bytes: &[u8]) -> (r: Result<(), WireError>)
        ensures
            final(self)@ == merge_run(old(self)@, bytes@, Self::apply_fn()).0,
            r == match merge_run(old(self)@, bytes@, Self::apply_fn()).1 {
                None => Ok::<(), WireError>(()),
                Some(e) => Err::<(), WireError>(e),
            },
    {
        let ghost total = merge_run(self@, bytes@, Self::apply_fn());
        let mut cur = Self::default();
        std::mem::swap(&mut cur, self);
        let mut pos: usize = 0;
        assert(bytes@.skip(0) =~= bytes@);
        while pos < bytes.len()
            invariant
                pos <= bytes@.len(),
                total == merge_run(old(self)@, bytes@, Self::apply_fn()),
                merge_run(cur@, bytes@.skip(pos as int), Self::apply_fn()) == total,
            decreases bytes@.len() - pos,
        {
            let ghost s = bytes@.skip(pos as int);
            proof {
                lemma_merge_run_step(cur@, s, Self::apply_fn());
                lemma_parse_field_len(s);
            }
            match read_field(bytes, pos) {
                Ok((f, end)) => {
                    assert(bytes@.skip(end as int) =~= s.skip((end - pos) as int));
                    match cur.applied(&f) {
                        Ok(m) => {
                            cur = m;
                        },
                        Err((m, e)) => {
                            *self = m;
                            return Err(e);
                        },
                    }
                    pos = end;
                },
                Err(e) => {
                    *self = cur;
                    return Err(e);
                },
            }
        }
        assert(bytes@.skip(pos as int) =~= Seq::<u8>::empty());
        proof {
            lemma_merge_run_empty(cur@, Self::apply_fn());
        }
        *self = cur;
        Ok(())
    }

    /// Decodes a message from its encoding.
    pub fn decode(bytes: &[u8]) -> (r: Result<Self, WireError>)
        ensures
            match Self::spec_decode(bytes@) {
                Ok(v) => r matches Ok(m) && m@ == v,
                Err(e) => r matches Err(x) && x == e,
            },
    {
        proof {
            reveal(CMsgFSEnumerateFollowingListResponse::spec_decode);
        }
        let mut m = Self::default();
        match m.merge(bytes) {
            Ok(()) => Ok(m),
            Err(e) => Err(e),
        }
    }

    /// The encoding of this message.
    pub fn encode_to_vec(&self) -> (r: Vec<u8>)
        ensures
            r@ == Self::spec_encode(self@),
    {
        let ghost v = self@;
        let mut out: Vec<u8> = Vec::new();
        let ghost p0 = Seq::<SpecField>::empty();
        put_opt_i32(&mut out, 1, self.eresult);
        let ghost p1 = p0 + opt_i32(1, v.eresult);
        proof {
            lemma_fields_bytes_concat(p0, opt_i32(1, v.eresult));
        }
        put_opt_i32(&mut out, 2, self.total_results);
        let ghost p2 = p1 + opt_i32(2, v.total_results);
        proof {
            lemma_fields_bytes_concat(p1, opt_i32(2, v.total_results));
        }
        put_rep_fixed64(&mut out, 3, &self.steam_ids);
        let ghost p3 = p2 + rep_fixed64(3, v.steam_ids);
        proof {
            lemma_fields_bytes_concat(p2, rep_fixed64(3, v.steam_ids));
        }
        proof {
            reveal(CMsgFSEnumerateFollowingListResponse::spec_encode);
        }
        assert(p3 == Self::spec_fields(v));
        out
    }

    /// Appends the encoding of this message to `out`.
    pub fn encode_raw(&self, out: &mut Vec<u8>)
        ensures
            final(out)@ == old(out)@ + Self::spec_encode(self@),
    {
        let mut b = self.encode_to_vec();
        out.append(&mut b);
    }

    /// The first `k` fields of `v`, the others as a fresh message has them.
    #[verifier::opaque]
    pub open spec fn spec_prefix(v: SpecCMsgFSEnumerateFollowingListResponse, k: int) -> SpecCMsgFSEnumerateFollowingListResponse {
        SpecCMsgFSEnumerateFollowingListResponse {
            eresult: if 1 <= k { v.eresult } else { None },
            total_results: if 2 <= k { v.total_results } else { None },
            steam_ids: if 3 <= k { v.steam_ids } else { Seq::empty() },
        }
    }

    /// Reading field 1 back, after the fields before it.
    proof fn lemma_field_eresult(v: SpecCMsgFSEnumerateFollowingListResponse)
        ensures
            fold_fields(Self::spec_prefix(v, 0), opt_i32(1, v.eresult), Self::apply_fn())
                == Ok::<SpecCMsgFSEnumerateFollowingListResponse, WireError>(Self::spec_prefix(v, 1)),
    {
        reveal(CMsgFSEnumerateFollowingListResponse::spec_prefix);
        reveal(opt_i32);
        let apply = Self::apply_fn();
        let s = Self::spec_prefix(v, 0);
        lemma_fold_opt(s, 1, match v.eresult { Some(x) => Some(enc_i32(x)), None => None }, apply);
        if let Some(x) = v.eresult {
            lemma_i32_roundtrip(x);
        }
        assert(SpecCMsgFSEnumerateFollowingListResponse { eresult: v.eresult, ..s } == Self::spec_prefix(v, 1));
    }

    /// Reading field 2 back, after the fields before it.
    proof fn lemma_field_total_results(v: SpecCMsgFSEnumerateFollowingListResponse)
        ensures
            fold_fields(Self::spec_prefix(v, 1), opt_i32(2, v.total_results), Self::apply_fn())
                == Ok::<SpecCMsgFSEnumerateFollowingListResponse, WireError>(Self::spec_prefix(v, 2)),
    {
        reveal(CMsgFSEnumerateFollowingListResponse::spec_prefix);
        reveal(opt_i32);
        let apply = Self::apply_fn();
        let s = Self::spec_prefix(v, 1);
        lemma_fold_opt(s, 2, match v.total_results { Some(x) => Some(enc_i32(x)), None => None }, apply);
        if let Some(x) = v.total_results {
            lemma_i32_roundtrip(x);
        }
        assert(SpecCMsgFSEnumerateFollowingListResponse { total_results: v.total_results, ..s } == Self::spec_prefix(v, 2));
    }

    /// Reading field 3 back, after the fields before it.
    proof fn lemma_field_steam_ids(v: SpecCMsgFSEnumerateFollowingListResponse)
        ensures
            fold_fields(Self::spec_prefix(v, 2), rep_fixed64(3, v.steam_ids), Self::apply_fn())
                == Ok::<SpecCMsgFSEnumerateFollowingListResponse, WireError>(Self::spec_prefix(v, 3)),
    {
        reveal(CMsgFSEnumerateFollowingListResponse::spec_prefix);
        reveal(rep_fixed64);
        let apply = Self::apply_fn();
        let s = Self::spec_prefix(v, 2);
        let l = rep_fixed64(3, v.steam_ids);
        let xs = v.steam_ids;
        let st = Seq::new((xs.len() + 1) as nat, |j: int| SpecCMsgFSEnumerateFollowingListResponse { steam_ids: xs.take(j), ..s });
        assert forall|j: int| 0 <= j < l.len() implies #[trigger] apply(st[j], l[j]) == Ok::<SpecCMsgFSEnumerateFollowingListResponse, WireError>(st[j + 1]) by {
            lemma_u64_roundtrip(xs[j]);
            assert(xs.take(j) + seq![xs[j]] =~= xs.take(j + 1));
        }
        lemma_fold_chain(l, st, apply);
        assert(xs.take(0) =~= Seq::<u64>::empty());
        assert(xs.take(xs.len() as int) =~= xs);
        assert(st[0] == s);
        assert(st[xs.len() as int] == Self::spec_prefix(v, 3));
    }

    /// Whether this message declares field number `n`.
    pub open spec fn declares(n: u32) -> bool {
        n == 1 || n == 2 || n == 3
    }

    /// A record with a number this message does not declare is passed over: well-formed
    /// bytes decode to the same message with such a record after them as without it.
    pub proof fn lemma_unknown_field(bytes: Seq<u8>, f: SpecField)
        requires
            parse_fields(bytes) is Ok,
            field_wf(f),
            !Self::declares(f.number),
        ensures
            Self::spec_decode(bytes + field_bytes(f)) == Self::spec_decode(bytes),
    {
        reveal(CMsgFSEnumerateFollowingListResponse::spec_decode);
        lemma_parse_fields_append(bytes, f);
        let fs = parse_fields(bytes).unwrap();
        let apply = Self::apply_fn();
        lemma_fold_concat(Self::spec_default(), fs, seq![f], apply);
        assert(fs.push(f) =~= fs + seq![f]);
        if let Ok(w) = fold_fields(Self::spec_default(), fs, apply) {
            lemma_fold_single(w, f, apply);
        }
        lemma_merge_run_fold(Self::spec_default(), bytes, apply);
        lemma_merge_run_fold(Self::spec_default(), bytes + field_bytes(f), apply);
    }

    /// Decoding the encoding of a message gives the message back.
    pub proof fn lemma_decode_encode(v: SpecCMsgFSEnumerateFollowingListResponse)
        requires
            Self::spec_encode(v).len() <= u64::MAX,
        ensures
            Self::spec_decode(Self::spec_encode(v)) == Ok::<SpecCMsgFSEnumerateFollowingListResponse, WireError>(v),
    {
        let apply = Self::apply_fn();
        let d = Self::spec_default();
        let p0 = Seq::<SpecField>::empty();
        let l1 = opt_i32(1, v.eresult);
        let p1 = p0 + l1;
        let l2 = opt_i32(2, v.total_results);
        let p2 = p1 + l2;
        let l3 = rep_fixed64(3, v.steam_ids);
        let p3 = p2 + l3;
        assert(parse_fields(Self::spec_encode(v)) == Ok::<Seq<SpecField>, WireError>(p3)) by {
            reveal(CMsgFSEnumerateFollowingListResponse::spec_encode);
            assert(numbers_ok(p0) && fields_wf(p0)) by {
                reveal(numbers_ok);
                reveal(fields_wf);
            }
            lemma_opt_i32_numbered(1, v.eresult);
            lemma_fields_wf_concat(p0, l1);
            lemma_opt_i32_numbered(2, v.total_results);
            lemma_fields_wf_concat(p1, l2);
            lemma_rep_fixed64_numbered(3, v.steam_ids);
            lemma_fields_wf_concat(p2, l3);
            assert(p3 == Self::spec_fields(v));
            lemma_fields_wf_from_len(p3);
            lemma_fields_roundtrip(p3);
        }
        assert(Self::spec_prefix(v, 0) == d) by {
            reveal(CMsgFSEnumerateFollowingListResponse::spec_prefix);
        }
        lemma_fold_empty(d, apply);
        lemma_fold_concat(d, p0, l1, apply);
        Self::lemma_field_eresult(v);
        lemma_fold_concat(d, p1, l2, apply);
        Self::lemma_field_total_results(v);
        lemma_fold_concat(d, p2, l3, apply);
        Self::lemma_field_steam_ids(v);
        assert(Self::spec_prefix(v, 3) == v) by {
            reveal(CMsgFSEnumerateFollowingListResponse::spec_prefix);
        }
        lemma_merge_run_fold(d, Self::spec_encode(v), apply);
        assert(Self::spec_decode(Self::spec_encode(v)) == Ok::<SpecCMsgFSEnumerateFollowingListResponse, WireError>(v)) by {
            reveal(CMsgFSEnumerateFollowingListResponse::spec_decode);
        }
    }
}

/// `CMsgDPGetNumberOfCurrentPlayers`, as Valve's schema declares it.
#[derive(Debug, Clone, PartialEq)]
pub struct CMsgDPGetNumberOfCurrentPlayers {
    /// Field 1.
    pub appid: Option<u32>,
}

/// What a `CMsgDPGetNumberOfCurrentPlayers` holds, as mathematical values.
#[verifier::ext_equal]
pub struct SpecCMsgDPGetNumberOfCurrentPlayers {
    pub appid: Option<u32>,
}

impl View for CMsgDPGetNumberOfCurrentPlayers {
    type V = SpecCMsgDPGetNumberOfCurrentPlayers;

    open spec fn view(&self) -> SpecCMsgDPGetNumberOfCurrentPlayers {
        SpecCMsgDPGetNumberOfCurrentPlayers {
            appid: self.appid,
        }
    }
}

impl Default for CMsgDPGetNumberOfCurrentPlayers {
    fn default() -> (r: Self)
        ensures
            r@ == CMsgDPGetNumberOfCurrentPlayers::spec_default(),
    {
        CMsgDPGetNumberOfCurrentPlayers {
            appid: None,
        }
    }
}

impl CMsgDPGetNumberOfCurrentPlayers {
    pub open spec fn spec_default() -> SpecCMsgDPGetNumberOfCurrentPlayers {
        SpecCMsgDPGetNumberOfCurrentPlayers {
            appid: None,
        }
    }

    /// The records a `CMsgDPGetNumberOfCurrentPlayers` is written as, in field order.
    pub open spec fn spec_fields(v: SpecCMsgDPGetNumberOfCurrentPlayers) -> Seq<SpecField> {
        Seq::<SpecField>::empty()
            + opt_u32(1, v.appid)
    }

    #[verifier::opaque]
    pub open spec fn spec_encode(v: SpecCMsgDPGetNumberOfCurrentPlayers) -> Seq<u8> {
        fields_bytes(Self::spec_fields(v))
    }

    /// What one record does to the message: a declared number sets or extends its
    /// field, any other number is left alone.
    pub open spec fn spec_apply(v: SpecCMsgDPGetNumberOfCurrentPlayers, f: SpecField) -> Result<SpecCMsgDPGetNumberOfCurrentPlayers, WireError> {
        match f.number {
            1 => match dec_u32(f.value) {
                Ok(x) => Ok(SpecCMsgDPGetNumberOfCurrentPlayers { appid: Some(x), ..v }),
                Err(e) => Err(e),
            },
            _ => Ok(v),
        }
    }

    pub open spec fn apply_fn() -> spec_fn(SpecCMsgDPGetNumberOfCurrentPlayers, SpecField) -> Result<SpecCMsgDPGetNumberOfCurrentPlayers, WireError> {
        |v: SpecCMsgDPGetNumberOfCurrentPlayers, f: SpecField| Self::spec_apply(v, f)
    }

    /// The message `bytes` makes of `v`: its records applied in order, or the error
    /// that stops the reading.
    pub open spec fn spec_merge(v: SpecCMsgDPGetNumberOfCurrentPlayers, bytes: Seq<u8>) -> Result<SpecCMsgDPGetNumberOfCurrentPlayers, WireError> {
        let (w, stop) = merge_run(v, bytes, Self::apply_fn());
        match stop {
            None => Ok(w),
            Some(e) => Err(e),
        }
    }

    #[verifier::opaque]
    pub open spec fn spec_decode(bytes: Seq<u8>) -> Result<SpecCMsgDPGetNumberOfCurrentPlayers, WireError> {
        Self::spec_merge(Self::spec_default(), bytes)
    }

    /// This message with one record applied to it, or, when the record is refused,
    /// the message unchanged and the reason.
    fn applied(self, f: &Field) -> (r: Result<Self, (Self, WireError)>)
        ensures
            match Self::spec_apply(self@, f@) {
                Ok(v) => r matches Ok(m) && m@ == v,
                Err(e) => r matches Err((m, x)) && x == e && m@ == self@,
            },
    {
        match f.number {
            1 => match read_u32(&f.value) {
                Ok(x) => Ok(Self { appid: Some(x), ..self }),
                Err(e) => Err((self, e)),
            },
            _ => Ok(self),
        }
    }

    /// Reads the records `bytes` holds into this message, in order. When a record does
    /// not parse or is refused, the reading stops there: the message keeps what the
    /// records before it gave, and the error is returned.
    pub fn merge(&mut self, bytes: &[u8]) -> (r: Result<(), WireError>)
        ensures
            final(self)@ == merge_run(old(self)@, bytes@, Self::apply_fn()).0,
            r == match merge_run(old(self)@, bytes@, Self::apply_fn()).1 {
                None => Ok::<(), WireError>(()),
                Some(e) => Err::<(), WireError>(e),
            },
    {
        let ghost total = merge_run(self@, bytes@, Self::apply_fn());
        let mut cur = Self::default();
        std::mem::swap(&mut cur, self);
        let mut pos: usize = 0;
        assert(bytes@.skip(0) =~= bytes@);
        while pos < bytes.len()
            invariant
                pos <= bytes@.len(),
                total == merge_run(old(self)@, bytes@, Self::apply_fn()),
                merge_run(cur@, bytes@.skip(pos as int), Self::apply_fn()) == total,
            decreases bytes@.len() - pos,
        {
            let ghost s = bytes@.skip(pos as int);
            proof {
                lemma_merge_run_step(cur@, s, Self::apply_fn());
                lemma_parse_field_len(s);
            }
            match read_field(bytes, pos) {
                Ok((f, end)) => {
                    assert(bytes@.skip(end as int) =~= s.skip((end - pos) as int));
                    match cur.applied(&f) {
                        Ok(m) => {
                            cur = m;
                        },
                        Err((m, e)) => {
                            *self = m;
                            return Err(e);
                        },
                    }
                    pos = end;
                },
                Err(e) => {
                    *self = cur;
                    return Err(e);
                },
            }
        }
        assert(bytes@.skip(pos as int) =~= Seq::<u8>::empty());
        proof {
            lemma_merge_run_empty(cur@, Self::apply_fn());
        }
        *self = cur;
        Ok(())
    }

    /// Decodes a message from its encoding.
    pub fn decode(bytes: &[u8]) -> (r: Result<Self, WireError>)
        ensures
            match Self::spec_decode(bytes@) {
                Ok(v) => r matches Ok(m) && m@ == v,
                Err(e) => r matches Err(x) && x == e,
            },
    {
        proof {
            reveal(CMsgDPGetNumberOfCurrentPlayers::spec_decode);
        }
        let mut m = Self::default();
        match m.merge(bytes) {
            Ok(()) => Ok(m),
            Err(e) => Err(e),
        }
    }

    /// The encoding of this message.
    pub fn encode_to_vec(&self) -> (r: Vec<u8>)
        ensures
            r@ == Self::spec_encode(self@),
    {
        let ghost v = self@;
        let mut out: Vec<u8> = Vec::new();
        let ghost p0 = Seq::<SpecField>::empty();
        put_opt_u32(&mut out, 1, self.appid);
        let ghost p1 = p0 + opt_u32(1, v.appid);
        proof {
            lemma_fields_bytes_concat(p0, opt_u32(1, v.appid));
        }
        proof {
            reveal(CMsgDPGetNumberOfCurrentPlayers::spec_encode);
        }
        assert(p1 == Self::spec_fields(v));
        out
    }

    /// Appends the encoding of this message to `out`.
    pub fn encode_raw(&self, out: &mut Vec<u8>)
        ensures
            final(out)@ == old(out)@ + Self::spec_encode(self@),
    {
        let mut b = self.encode_to_vec();
        out.append(&mut b);
    }

    /// The first `k` fields of `v`, the others as a fresh message has them.
    #[verifier::opaque]
    pub open spec fn spec_prefix(v: SpecCMsgDPGetNumberOfCurrentPlayers, k: int) -> SpecCMsgDPGetNumberOfCurrentPlayers {
        SpecCMsgDPGetNumberOfCurrentPlayers {
            appid: if 1 <= k { v.appid } else { None },
        }
    }

    /// Reading field 1 back, after the fields before it.
    proof fn lemma_field_appid(v: SpecCMsgDPGetNumberOfCurrentPlayers)
        ensures
            fold_fields(Self::spec_prefix(v, 0), opt_u32(1, v.appid), Self::apply_fn())
                == Ok::<SpecCMsgDPGetNumberOfCurrentPlayers, WireError>(Self::spec_prefix(v, 1)),
    {
        reveal(CMsgDPGetNumberOfCurrentPlayers::spec_prefix);
        reveal(opt_u32);
        let apply = Self::apply_fn();
        let s = Self::spec_prefix(v, 0);
        lemma_fold_opt(s, 1, match v.appid { Some(x) => Some(enc_u32(x)), None => None }, apply);
        if let Some(x) = v.appid {
            lemma_u32_roundtrip(x);
        }
        assert(SpecCMsgDPGetNumberOfCurrentPlayers { appid: v.appid, ..s } == Self::spec_prefix(v, 1));
    }

    /// Whether this message declares field number `n`.
    pub open spec fn declares(n: u32) -> bool {
        n == 1
    }

    /// A record with a number this message does not declare is passed over: well-formed
    /// bytes decode to the same message with such a record after them as without it.
    pub proof fn lemma_unknown_field(bytes: Seq<u8>, f: SpecField)
        requires
            parse_fields(bytes) is Ok,
            field_wf(f),
            !Self::declares(f.number),
        ensures
            Self::spec_decode(bytes + field_bytes(f)) == Self::spec_decode(bytes),
    {
        reveal(CMsgDPGetNumberOfCurrentPlayers::spec_decode);
        lemma_parse_fields_append(bytes, f);
        let fs = parse_fields(bytes).unwrap();
        let apply = Self::apply_fn();
        lemma_fold_concat(Self::spec_default(), fs, seq![f], apply);
        assert(fs.push(f) =~= fs + seq![f]);
        if let Ok(w) = fold_fields(Self::spec_default(), fs, apply) {
            lemma_fold_single(w, f, apply);
        }
        lemma_merge_run_fold(Self::spec_default(), bytes, apply);
        lemma_merge_run_fold(Self::spec_default(), bytes + field_bytes(f), apply);
    }

    /// Decoding the encoding of a message gives the message back.
    pub proof fn lemma_decode_encode(v: SpecCMsgDPGetNumberOfCurrentPlayers)
        requires
            Self::spec_encode(v).len() <= u64::MAX,
        ensures
            Self::spec_decode(Self::spec_encode(v)) == Ok::<SpecCMsgDPGetNumberOfCurrentPlayers, WireError>(v),
    {
        let apply = Self::apply_fn();
        let d = Self::spec_default();
        let p0 = Seq::<SpecField>::empty();
        let l1 = opt_u32(1, v.appid);
        let p1 = p0 + l1;
        assert(parse_fields(Self::spec_encode(v)) == Ok::<Seq<SpecField>, WireError>(p1)) by {
            reveal(CMsgDPGetNumberOfCurrentPlayers::spec_encode);
            assert(numbers_ok(p0) && fields_wf(p0)) by {
                reveal(numbers_ok);
                reveal(fields_wf);
            }
            lemma_opt_u32_numbered(1, v.appid);
            lemma_fields_wf_concat(p0, l1);
            assert(p1 == Self::spec_fields(v));
            lemma_fields_wf_from_len(p1);
            lemma_fields_roundtrip(p1);
        }
        assert(Self::spec_prefix(v, 0) == d) by {
            reveal(CMsgDPGetNumberOfCurrentPlayers::spec_prefix);
        }
        lemma_fold_empty(d, apply);
        lemma_fold_concat(d, p0, l1, apply);
        Self::lemma_field_appid(v);
        assert(Self::spec_prefix(v, 1) == v) by {
            reveal(CMsgDPGetNumberOfCurrentPlayers::spec_prefix);
        }
        lemma_merge_run_fold(d, Self::spec_encode(v), apply);
        assert(Self::spec_decode(Self::spec_encode(v)) == Ok::<SpecCMsgDPGetNumberOfCurrentPlayers, WireError>(v)) by {
            reveal(CMsgDPGetNumberOfCurrentPlayers::spec_decode);
        }
    }
}

/// `CMsgDPGetNumberOfCurrentPlayersResponse`, as Valve's schema declares it.
#[derive(Debug, Clone, PartialEq)]
pub struct CMsgDPGetNumberOfCurrentPlayersResponse {
    /// Field 1.
    pub eresult: Option<i32>,
    /// Field 2.
    pub player_count: Option<i32>,
}

/// What a `CMsgDPGetNumberOfCurrentPlayersResponse` holds, as mathematical values.
#[verifier::ext_equal]
pub struct SpecCMsgDPGetNumberOfCurrentPlayersResponse {
    pub eresult: Option<i32>,
    pub player_count: Option<i32>,
}

impl View for CMsgDPGetNumberOfCurrentPlayersResponse {
    type V = SpecCMsgDPGetNumberOfCurrentPlayersResponse;

    open spec fn view(&self) -> SpecCMsgDPGetNumberOfCurrentPlayersResponse {
        SpecCMsgDPGetNumberOfCurrentPlayersResponse {
            eresult: self.eresult,
            player_count: self.player_count,
        }
    }
}

impl Default for CMsgDPGetNumberOfCurrentPlayersResponse {
    fn default() -> (r: Self)
        ensures
            r@ == CMsgDPGetNumberOfCurrentPlayersResponse::spec_default(),
    {
        CMsgDPGetNumberOfCurrentPlayersResponse {
            eresult: None,
            player_count: None,
        }
    }
}

impl CMsgDPGetNumberOfCurrentPlayersResponse {
    /// Field 1, or its schema default when absent.
    pub fn eresult_or_default(&self) -> (r: i32)
        ensures
            r == match self.eresult {
                Some(x) => x,
                None => 2i32,
            },
    {
        self.eresult.unwrap_or(2i32)
    }

    pub open spec fn spec_default() -> SpecCMsgDPGetNumberOfCurrentPlayersResponse {
        SpecCMsgDPGetNumberOfCurrentPlayersResponse {
            eresult: None,
            player_count: None,
        }
    }

    /// The records a `CMsgDPGetNumberOfCurrentPlayersResponse` is written as, in field order.
    pub open spec fn spec_fields(v: SpecCMsgDPGetNumberOfCurrentPlayersResponse) -> Seq<SpecField> {
        Seq::<SpecField>::empty()
            + opt_i32(1, v.eresult)
            + opt_i32(2, v.player_count)
    }

    #[verifier::opaque]
    pub open spec fn spec_encode(v: SpecCMsgDPGetNumberOfCurrentPlayersResponse) -> Seq<u8> {
        fields_bytes(Self::spec_fields(v))
    }

    /// What one record does to the message: a declared number sets or extends its
    /// field, any other number is left alone.
    pub open spec fn spec_apply(v: SpecCMsgDPGetNumberOfCurrentPlayersResponse, f: SpecField) -> Result<SpecCMsgDPGetNumberOfCurrentPlayersResponse, WireError> {
        match f.number {
            1 => match dec_i32(f.value) {
                Ok(x) => Ok(SpecCMsgDPGetNumberOfCurrentPlayersResponse { eresult: Some(x), ..v }),
                Err(e) => Err(e),
            },
            2 => match dec_i32(f.value) {
                Ok(x) => Ok(SpecCMsgDPGetNumberOfCurrentPlayersResponse { player_count: Some(x), ..v }),
                Err(e) => Err(e),
            },
            _ => Ok(v),
        }
    }

    pub open spec fn apply_fn() -> spec_fn(SpecCMsgDPGetNumberOfCurrentPlayersResponse, SpecField) -> Result<SpecCMsgDPGetNumberOfCurrentPlayersResponse, WireError> {
        |v: SpecCMsgDPGetNumberOfCurrentPlayersResponse, f: SpecField| Self::spec_apply(v, f)
    }

    /// The message `bytes` makes of `v`: its records applied in order, or the error
    /// that stops the reading.
    pub open spec fn spec_merge(v: SpecCMsgDPGetNumberOfCurrentPlayersResponse, bytes: Seq<u8>) -> Result<SpecCMsgDPGetNumberOfCurrentPlayersResponse, WireError> {
        let (w, stop) = merge_run(v, bytes, Self::apply_fn());
        match stop {
            None => Ok(w),
            Some(e) => Err(e),
        }
    }

    #[verifier::opaque]
    pub open spec fn spec_decode(bytes: Seq<u8>) -> Result<SpecCMsgDPGetNumberOfCurrentPlayersResponse, WireError> {
        Self::spec_merge(Self::spec_default(), bytes)
    }

    /// This message with one record applied to it, or, when the record is refused,
    /// the message unchanged and the reason.
    fn applied(self, f: &Field) -> (r: Result<Self, (Self, WireError)>)
        ensures
            match Self::spec_apply(self@, f@) {
                Ok(v) => r matches Ok(m) && m@ == v,
                Err(e) => r matches Err((m, x)) && x == e && m@ == self@,
            },
    {
        match f.number {
            1 => match read_i32(&f.value) {
                Ok(x) => Ok(Self { eresult: Some(x), ..self }),
                Err(e) => Err((self, e)),
            },
            2 => match read_i32(&f.value) {
                Ok(x) => Ok(Self { player_count: Some(x), ..self }),
                Err(e) => Err((self, e)),
            },
            _ => Ok(self),
        }
    }

    /// Reads the records `bytes` holds into this message, in order. When a record does
    /// not parse or is refused, the reading stops there: the message keeps what the
    /// records before it gave, and the error is returned.
    pub fn merge(&mut self, bytes: &[u8]) -> (r: Result<(), WireError>)
        ensures
            final(self)@ == merge_run(old(self)@, bytes@, Self::apply_fn()).0,
            r == match merge_run(old(self)@, bytes@, Self::apply_fn()).1 {
                None => Ok::<(), WireError>(()),
                Some(e) => Err::<(), WireError>(e),
            },
    {
        let ghost total = merge_run(self@, bytes@, Self::apply_fn());
        let mut cur = Self::default();
        std::mem::swap(&mut cur, self);
        let mut pos: usize = 0;
        assert(bytes@.skip(0) =~= bytes@);
        while pos < bytes.len()
            invariant
                pos <= bytes@.len(),
                total == merge_run(old(self)@, bytes@, Self::apply_fn()),
                merge_run(cur@, bytes@.skip(pos as int), Self::apply_fn()) == total,
            decreases bytes@.len() - pos,
        {
            let ghost s = bytes@.skip(pos as int);
            proof {
                lemma_merge_run_step(cur@, s, Self::apply_fn());
                lemma_parse_field_len(s);
            }
            match read_field(bytes, pos) {
                Ok((f, end)) => {
                    assert(bytes@.skip(end as int) =~= s.skip((end - pos) as int));
                    match cur.applied(&f) {
                        Ok(m) => {
                            cur = m;
                        },
                        Err((m, e)) => {
                            *self = m;
                            return Err(e);
                        },
                    }
                    pos = end;
                },
                Err(e) => {
                    *self = cur;
                    return Err(e);
                },
            }
        }
        assert(bytes@.skip(pos as int) =~= Seq::<u8>::empty());
        proof {
            lemma_merge_run_empty(cur@, Self::apply_fn());
        }
        *self = cur;
        Ok(())
    }

    /// Decodes a message from its encoding.
    pub fn decode(bytes: &[u8]) -> (r: Result<Self, WireError>)
        ensures
            match Self::spec_decode(bytes@) {
                Ok(v) => r matches Ok(m) && m@ == v,
                Err(e) => r matches Err(x) && x == e,
            },
    {
        proof {
            reveal(CMsgDPGetNumberOfCurrentPlayersResponse::spec_decode);
        }
        let mut m = Self::default();
        match m.merge(bytes) {
            Ok(()) => Ok(m),
            Err(e) => Err(e),
        }
    }

    /// The encoding of this message.
    pub fn encode_to_vec(&self) -> (r: Vec<u8>)
        ensures
            r@ == Self::spec_encode(self@),
    {
        let ghost v = self@;
        let mut out: Vec<u8> = Vec::new();
        let ghost p0 = Seq::<SpecField>::empty();
        put_opt_i32(&mut out, 1, self.eresult);
        let ghost p1 = p0 + opt_i32(1, v.eresult);
        proof {
            lemma_fields_bytes_concat(p0, opt_i32(1, v.eresult));
        }
        put_opt_i32(&mut out, 2, self.player_count);
        let ghost p2 = p1 + opt_i32(2, v.player_count);
        proof {
            lemma_fields_bytes_concat(p1, opt_i32(2, v.player_count));
        }
        proof {
            reveal(CMsgDPGetNumberOfCurrentPlayersResponse::spec_encode);
        }
        assert(p2 == Self::spec_fields(v));
        out
    }

    /// Appends the encoding of this message to `out`.
    pub fn encode_raw(&self, out: &mut Vec<u8>)
        ensures
            final(out)@ == old(out)@ + Self::spec_encode(self@),
    {
        let mut b = self.encode_to_vec();
        out.append(&mut b);
    }

    /// The first `k` fields of `v`, the others as a fresh message has them.
    #[verifier::opaque]
    pub open spec fn spec_prefix(v: SpecCMsgDPGetNumberOfCurrentPlayersResponse, k: int) -> SpecCMsgDPGetNumberOfCurrentPlayersResponse {
        SpecCMsgDPGetNumberOfCurrentPlayersResponse {
            eresult: if 1 <= k { v.eresult } else { None },
            player_count: if 2 <= k { v.player_count } else { None },
        }
    }

    /// Reading field 1 back, after the fields before it.
    proof fn lemma_field_eresult(v: SpecCMsgDPGetNumberOfCurrentPlayersResponse)
        ensures
            fold_fields(Self::spec_prefix(v, 0), opt_i32(1, v.eresult), Self::apply_fn())
                == Ok::<SpecCMsgDPGetNumberOfCurrentPlayersResponse, WireError>(Self::spec_prefix(v, 1)),
    {
        reveal(CMsgDPGetNumberOfCurrentPlayersResponse::spec_prefix);
        reveal(opt_i32);
        let apply = Self::apply_fn();
        let s = Self::spec_prefix(v, 0);
        lemma_fold_opt(s, 1, match v.eresult { Some(x) => Some(enc_i32(x)), None => None }, apply);
        if let Some(x) = v.eresult {
            lemma_i32_roundtrip(x);
        }
        assert(SpecCMsgDPGetNumberOfCurrentPlayersResponse { eresult: v.eresult, ..s } == Self::spec_prefix(v, 1));
    }

    /// Reading field 2 back, after the fields before it.
    proof fn lemma_field_player_count(v: SpecCMsgDPGetNumberOfCurrentPlayersResponse)
        ensures
            fold_fields(Self::spec_prefix(v, 1), opt_i32(2, v.player_count), Self::apply_fn())
                == Ok::<SpecCMsgDPGetNumberOfCurrentPlayersResponse, WireError>(Self::spec_prefix(v, 2)),
    {
        reveal(CMsgDPGetNumberOfCurrentPlayersResponse::spec_prefix);
        reveal(opt_i32);
        let apply = Self::apply_fn();
        let s = Self::spec_prefix(v, 1);
        lemma_fold_opt(s, 2, match v.player_count { Some(x) => Some(enc_i32(x)), None => None }, apply);
        if let Some(x) = v.player_count {
            lemma_i32_roundtrip(x);
        }
        assert(SpecCMsgDPGetNumberOfCurrentPlayersResponse { player_count: v.player_count, ..s } == Self::spec_prefix(v, 2));
    }

    /// Whether this message declares field number `n`.
    pub open spec fn declares(n: u32) -> bool {
        n == 1 || n == 2
    }

    /// A record with a number this message does not declare is passed over: well-formed
    /// bytes decode to the same message with such a record after them as without it.
    pub proof fn lemma_unknown_field(bytes: Seq<u8>, f: SpecField)
        requires
            parse_fields(bytes) is Ok,
            field_wf(f),
            !Self::declares(f.number),
        ensures
            Self::spec_decode(bytes + field_bytes(f)) == Self::spec_decode(bytes),
    {
        reveal(CMsgDPGetNumberOfCurrentPlayersResponse::spec_decode);
        lemma_parse_fields_append(bytes, f);
        let fs = parse_fields(bytes).unwrap();
        let apply = Self::apply_fn();
        lemma_fold_concat(Self::spec_default(), fs, seq![f], apply);
        assert(fs.push(f) =~= fs + seq![f]);
        if let Ok(w) = fold_fields(Self::spec_default(), fs, apply) {
            lemma_fold_single(w, f, apply);
        }
        lemma_merge_run_fold(Self::spec_default(), bytes, apply);
        lemma_merge_run_fold(Self::spec_default(), bytes + field_bytes(f), apply);
    }

    /// Decoding the encoding of a message gives the message back.
    pub proof fn lemma_decode_encode(v: SpecCMsgDPGetNumberOfCurrentPlayersResponse)
        requires
            Self::spec_encode(v).len() <= u64::MAX,
        ensures
            Self::spec_decode(Self::spec_encode(v)) == Ok::<SpecCMsgDPGetNumberOfCurrentPlayersResponse, WireError>(v),
    {
        let apply = Self::apply_fn();
        let d = Self::spec_default();
        let p0 = Seq::<SpecField>::empty();
        let l1 = opt_i32(1, v.eresult);
        let p1 = p0 + l1;
        let l2 = opt_i32(2, v.player_count);
        let p2 = p1 + l2;
        assert(parse_fields(Self::spec_encode(v)) == Ok::<Seq<SpecField>, WireError>(p2)) by {
            reveal(CMsgDPGetNumberOfCurrentPlayersResponse::spec_encode);
            assert(numbers_ok(p0) && fields_wf(p0)) by {
                reveal(numbers_ok);
                reveal(fields_wf);
            }
            lemma_opt_i32_numbered(1, v.eresult);
            lemma_fields_wf_concat(p0, l1);
            lemma_opt_i32_numbered(2, v.player_count);
            lemma_fields_wf_concat(p1, l2);
            assert(p2 == Self::spec_fields(v));
            lemma_fields_wf_from_len(p2);
            lemma_fields_roundtrip(p2);
        }
        assert(Self::spec_prefix(v, 0) == d) by {
            reveal(CMsgDPGetNumberOfCurrentPlayersResponse::spec_prefix);
        }
        lemma_fold_empty(d, apply);
        lemma_fold_concat(d, p0, l1, apply);
        Self::lemma_field_eresult(v);
        lemma_fold_concat(d, p1, l2, apply);
        Self::lemma_field_player_count(v);
        assert(Self::spec_prefix(v, 2) == v) by {
            reveal(CMsgDPGetNumberOfCurrentPlayersResponse::spec_prefix);
        }
        lemma_merge_run_fold(d, Self::spec_encode(v), apply);
        assert(Self::spec_decode(Self::spec_encode(v)) == Ok::<SpecCMsgDPGetNumberOfCurrentPlayersResponse, WireError>(v)) by {
            reveal(CMsgDPGetNumberOfCurrentPlayersResponse::spec_decode);
        }
    }
}

/// `CMsgClientFriendUserStatusPublished`, as Valve's schema declares it.
#[derive(Debug, Clone, PartialEq)]
pub struct CMsgClientFriendUserStatusPublished {
    /// Field 1.
    pub friend_steamid: Option<u64>,
    /// Field 2.
    pub appid: Option<u32>,
    /// Field 3.
    pub status_text: Option<String>,
}

/// What a `CMsgClientFriendUserStatusPublished` holds, as mathematical values.
#[verifier::ext_equal]
pub struct SpecCMsgClientFriendUserStatusPublished {
    pub friend_steamid: Option<u64>,
    pub appid: Option<u32>,
    pub status_text: Option<Seq<char>>,
}

impl View for CMsgClientFriendUserStatusPublished {
    type V = SpecCMsgClientFriendUserStatusPublished;

    open spec fn view(&self) -> SpecCMsgClientFriendUserStatusPublished {
        SpecCMsgClientFriendUserStatusPublished {
            friend_steamid: self.friend_steamid,
            appid: self.appid,
            status_text: opt_string_view(self.status_text),
        }
    }
}

impl Default for CMsgClientFriendUserStatusPublished {
    fn default() -> (r: Self)
        ensures
            r@ == CMsgClientFriendUserStatusPublished::spec_default(),
    {
        CMsgClientFriendUserStatusPublished {
            friend_steamid: None,
            appid: None,
            status_text: None,
        }
    }
}

impl CMsgClientFriendUserStatusPublished {
    pub open spec fn spec_default() -> SpecCMsgClientFriendUserStatusPublished {
        SpecCMsgClientFriendUserStatusPublished {
            friend_steamid: None,
            appid: None,
            status_text: None,
        }
    }

    /// The records a `CMsgClientFriendUserStatusPublished` is written as, in field order.
    pub open spec fn spec_fields(v: SpecCMsgClientFriendUserStatusPublished) -> Seq<SpecField> {
        Seq::<SpecField>::empty()
            + opt_fixed64(1, v.friend_steamid)
            + opt_u32(2, v.appid)
            + opt_string(3, v.status_text)
    }

    #[verifier::opaque]
    pub open spec fn spec_encode(v: SpecCMsgClientFriendUserStatusPublished) -> Seq<u8> {
        fields_bytes(Self::spec_fields(v))
    }

    /// What one record does to the message: a declared number sets or extends its
    /// field, any other number is left alone.
    pub open spec fn spec_apply(v: SpecCMsgClientFriendUserStatusPublished, f: SpecField) -> Result<SpecCMsgClientFriendUserStatusPublished, WireError> {
        match f.number {
            1 => match dec_fixed64(f.value) {
                Ok(x) => Ok(SpecCMsgClientFriendUserStatusPublished { friend_steamid: Some(x), ..v }),
                Err(e) => Err(e),
            },
            2 => match dec_u32(f.value) {
                Ok(x) => Ok(SpecCMsgClientFriendUserStatusPublished { appid: Some(x), ..v }),
                Err(e) => Err(e),
            },
            3 => match dec_string(f.value) {
                Ok(x) => Ok(SpecCMsgClientFriendUserStatusPublished { status_text: Some(x), ..v }),
                Err(e) => Err(e),
            },
            _ => Ok(v),
        }
    }

    pub open spec fn apply_fn() -> spec_fn(SpecCMsgClientFriendUserStatusPublished, SpecField) -> Result<SpecCMsgClientFriendUserStatusPublished, WireError> {
        |v: SpecCMsgClientFriendUserStatusPublished, f: SpecField| Self::spec_apply(v, f)
    }

    /// The message `bytes` makes of `v`: its records applied in order, or the error
    /// that stops the reading.
    pub open spec fn spec_merge(v: SpecCMsgClientFriendUserStatusPublished, bytes: Seq<u8>) -> Result<SpecCMsgClientFriendUserStatusPublished, WireError> {
        let (w, stop) = merge_run(v, bytes, Self::apply_fn());
        match stop {
            None => Ok(w),
            Some(e) => Err(e),
        }
    }

    #[verifier::opaque]
    pub open spec fn spec_decode(bytes: Seq<u8>) -> Result<SpecCMsgClientFriendUserStatusPublished, WireError> {
        Self::spec_merge(Self::spec_default(), bytes)
    }

    /// This message with one record applied to it, or, when the record is refused,
    /// the message unchanged and the reason.
    fn applied(self, f: &Field) -> (r: Result<Self, (Self, WireError)>)
        ensures
            match Self::spec_apply(self@, f@) {
                Ok(v) => r matches Ok(m) && m@ == v,
                Err(e) => r matches Err((m, x)) && x == e && m@ == self@,
            },
    {
        match f.number {
            1 => match read_fixed64(&f.value) {
                Ok(x) => Ok(Self { friend_steamid: Some(x), ..self }),
                Err(e) => Err((self, e)),
            },
            2 => match read_u32(&f.value) {
                Ok(x) => Ok(Self { appid: Some(x), ..self }),
                Err(e) => Err((self, e)),
            },
            3 => match read_string(&f.value) {
                Ok(x) => Ok(Self { status_text: Some(x), ..self }),
                Err(e) => Err((self, e)),
            },
            _ => Ok(self),
        }
    }

    /// Reads the records `bytes` holds into this message, in order. When a record does
    /// not parse or is refused, the reading stops there: the message keeps what the
    /// records before it gave, and the error is returned.
    pub fn merge(&mut self, bytes: &[u8]) -> (r: Result<(), WireError>)
        ensures
            final(self)@ == merge_run(old(self)@, bytes@, Self::apply_fn()).0,
            r == match merge_run(old(self)@, bytes@, Self::apply_fn()).1 {
                None => Ok::<(), WireError>(()),
                Some(e) => Err::<(), WireError>(e),
            },
    {
        let ghost total = merge_run(self@, bytes@, Self::apply_fn());
        let mut cur = Self::default();
        std::mem::swap(&mut cur, self);
        let mut pos: usize = 0;
        assert(bytes@.skip(0) =~= bytes@);
        while pos < bytes.len()
            invariant
                pos <= bytes@.len(),
                total == merge_run(old(self)@, bytes@, Self::apply_fn()),
                merge_run(cur@, bytes@.skip(pos as int), Self::apply_fn()) == total,
            decreases bytes@.len() - pos,
        {
            let ghost s = bytes@.skip(pos as int);
            proof {
                lemma_merge_run_step(cur@, s, Self::apply_fn());
                lemma_parse_field_len(s);
            }
            match read_field(bytes, pos) {
                Ok((f, end)) => {
                    assert(bytes@.skip(end as int) =~= s.skip((end - pos) as int));
                    match cur.applied(&f) {
                        Ok(m) => {
                            cur = m;
                        },
                        Err((m, e)) => {
                            *self = m;
                            return Err(e);
                        },
                    }
                    pos = end;
                },
                Err(e) => {
                    *self = cur;
                    return Err(e);
                },
            }
        }
        assert(bytes@.skip(pos as int) =~= Seq::<u8>::empty());
        proof {
            lemma_merge_run_empty(cur@, Self::apply_fn());
        }
        *self = cur;
        Ok(())
    }

    /// Decodes a message from its encoding.
    pub fn decode(bytes: &[u8]) -> (r: Result<Self, WireError>)
        ensures
            match Self::spec_decode(bytes@) {
                Ok(v) => r matches Ok(m) && m@ == v,
                Err(e) => r matches Err(x) && x == e,
            },
    {
        proof {
            reveal(CMsgClientFriendUserStatusPublished::spec_decode);
        }
        let mut m = Self::default();
        match m.merge(bytes) {
            Ok(()) => Ok(m),
            Err(e) => Err(e),
        }
    }

    /// The encoding of this message.
    pub fn encode_to_vec(&self) -> (r: Vec<u8>)
        ensures
            r@ == Self::spec_encode(self@),
    {
        let ghost v = self@;
        let mut out: Vec<u8> = Vec::new();
        let ghost p0 = Seq::<SpecField>::empty();
        put_opt_fixed64(&mut out, 1, self.friend_steamid);
        let ghost p1 = p0 + opt_fixed64(1, v.friend_steamid);
        proof {
            lemma_fields_bytes_concat(p0, opt_fixed64(1, v.friend_steamid));
        }
        put_opt_u32(&mut out, 2, self.appid);
        let ghost p2 = p1 + opt_u32(2, v.appid);
        proof {
            lemma_fields_bytes_concat(p1, opt_u32(2, v.appid));
        }
        put_opt_string(&mut out, 3, &self.status_text);
        let ghost p3 = p2 + opt_string(3, v.status_text);
        proof {
            lemma_fields_bytes_concat(p2, opt_string(3, v.status_text));
        }
        proof {
            reveal(CMsgClientFriendUserStatusPublished::spec_encode);
        }
        assert(p3 == Self::spec_fields(v));
        out
    }

    /// Appends the encoding of this message to `out`.
    pub fn encode_raw(&self, out: &mut Vec<u8>)
        ensures
            final(out)@ == old(out)@ + Self::spec_encode(self@),
    {
        let mut b = self.encode_to_vec();
        out.append(&mut b);
    }

    /// The first `k` fields of `v`, the others as a fresh message has them.
    #[verifier::opaque]
    pub open spec fn spec_prefix(v: SpecCMsgClientFriendUserStatusPublished, k: int) -> SpecCMsgClientFriendUserStatusPublished {
        SpecCMsgClientFriendUserStatusPublished {
            friend_steamid: if 1 <= k { v.friend_steamid } else { None },
            appid: if 2 <= k { v.appid } else { None },
            status_text: if 3 <= k { v.status_text } else { None },
        }
    }

    /// Reading field 1 back, after the fields before it.
    proof fn lemma_field_friend_steamid(v: SpecCMsgClientFriendUserStatusPublished)
        ensures
            fold_fields(Self::spec_prefix(v, 0), opt_fixed64(1, v.friend_steamid), Self::apply_fn())
                == Ok::<SpecCMsgClientFriendUserStatusPublished, WireError>(Self::spec_prefix(v, 1)),
    {
        reveal(CMsgClientFriendUserStatusPublished::spec_prefix);
        reveal(opt_fixed64);
        let apply = Self::apply_fn();
        let s = Self::spec_prefix(v, 0);
        lemma_fold_opt(s, 1, match v.friend_steamid { Some(x) => Some(enc_fixed64(x)), None => None }, apply);
        if let Some(x) = v.friend_steamid {
            lemma_u64_roundtrip(x);
        }
        assert(SpecCMsgClientFriendUserStatusPublished { friend_steamid: v.friend_steamid, ..s } == Self::spec_prefix(v, 1));
    }

    /// Reading field 2 back, after the fields before it.
    proof fn lemma_field_appid(v: SpecCMsgClientFriendUserStatusPublished)
        ensures
            fold_fields(Self::spec_prefix(v, 1), opt_u32(2, v.appid), Self::apply_fn())
                == Ok::<SpecCMsgClientFriendUserStatusPublished, WireError>(Self::spec_prefix(v, 2)),
    {
        reveal(CMsgClientFriendUserStatusPublished::spec_prefix);
        reveal(opt_u32);
        let apply = Self::apply_fn();
        let s = Self::spec_prefix(v, 1);
        lemma_fold_opt(s, 2, match v.appid { Some(x) => Some(enc_u32(x)), None => None }, apply);
        if let Some(x) = v.appid {
            lemma_u32_roundtrip(x);
        }
        assert(SpecCMsgClientFriendUserStatusPublished { appid: v.appid, ..s } == Self::spec_prefix(v, 2));
    }

    /// Reading field 3 back, after the fields before it.
    proof fn lemma_field_status_text(v: SpecCMsgClientFriendUserStatusPublished)
        ensures
            fold_fields(Self::spec_prefix(v, 2), opt_string(3, v.status_text), Self::apply_fn())
                == Ok::<SpecCMsgClientFriendUserStatusPublished, WireError>(Self::spec_prefix(v, 3)),
    {
        reveal(CMsgClientFriendUserStatusPublished::spec_prefix);
        reveal(opt_string);
        let apply = Self::apply_fn();
        let s = Self::spec_prefix(v, 2);
        lemma_fold_opt(s, 3, match v.status_text { Some(x) => Some(enc_string(x)), None => None }, apply);
        if let Some(x) = v.status_text {
            lemma_string_roundtrip(x);
        }
        assert(SpecCMsgClientFriendUserStatusPublished { status_text: v.status_text, ..s } == Self::spec_prefix(v, 3));
    }

    /// Whether this message declares field number `n`.
    pub open spec fn declares(n: u32) -> bool {
        n == 1 || n == 2 || n == 3
    }

    /// A record with a number this message does not declare is passed over: well-formed
    /// bytes decode to the same message with such a record after them as without it.
    pub proof fn lemma_unknown_field(bytes: Seq<u8>, f: SpecField)
        requires
            parse_fields(bytes) is Ok,
            field_wf(f),
            !Self::declares(f.number),
        ensures
            Self::spec_decode(bytes + field_bytes(f)) == Self::spec_decode(bytes),
    {
        reveal(CMsgClientFriendUserStatusPublished::spec_decode);
        lemma_parse_fields_append(bytes, f);
        let fs = parse_fields(bytes).unwrap();
        let apply = Self::apply_fn();
        lemma_fold_concat(Self::spec_default(), fs, seq![f], apply);
        assert(fs.push(f) =~= fs + seq![f]);
        if let Ok(w) = fold_fields(Self::spec_default(), fs, apply) {
            lemma_fold_single(w, f, apply);
        }
        lemma_merge_run_fold(Self::spec_default(), bytes, apply);
        lemma_merge_run_fold(Self::spec_default(), bytes + field_bytes(f), apply);
    }

    /// Decoding the encoding of a message gives the message back.
    pub proof fn lemma_decode_encode(v: SpecCMsgClientFriendUserStatusPublished)
        requires
            Self::spec_encode(v).len() <= u64::MAX,
        ensures
            Self::spec_decode(Self::spec_encode(v)) == Ok::<SpecCMsgClientFriendUserStatusPublished, WireError>(v),
    {
        let apply = Self::apply_fn();
        let d = Self::spec_default();
        let p0 = Seq::<SpecField>::empty();
        let l1 = opt_fixed64(1, v.friend_steamid);
        let p1 = p0 + l1;
        let l2 = opt_u32(2, v.appid);
        let p2 = p1 + l2;
        let l3 = opt_string(3, v.status_text);
        let p3 = p2 + l3;
        assert(parse_fields(Self::spec_encode(v)) == Ok::<Seq<SpecField>, WireError>(p3)) by {
            reveal(CMsgClientFriendUserStatusPublished::spec_encode);
            assert(numbers_ok(p0) && fields_wf(p0)) by {
                reveal(numbers_ok);
                reveal(fields_wf);
            }
            lemma_opt_fixed64_numbered(1, v.friend_steamid);
            lemma_fields_wf_concat(p0, l1);
            lemma_opt_u32_numbered(2, v.appid);
            lemma_fields_wf_concat(p1, l2);
            lemma_opt_string_numbered(3, v.status_text);
            lemma_fields_wf_concat(p2, l3);
            assert(p3 == Self::spec_fields(v));
            lemma_fields_wf_from_len(p3);
            lemma_fields_roundtrip(p3);
        }
        assert(Self::spec_prefix(v, 0) == d) by {
            reveal(CMsgClientFriendUserStatusPublished::spec_prefix);
        }
        lemma_fold_empty(d, apply);
        lemma_fold_concat(d, p0, l1, apply);
        Self::lemma_field_friend_steamid(v);
        lemma_fold_concat(d, p1, l2, apply);
        Self::lemma_field_appid(v);
        lemma_fold_concat(d, p2, l3, apply);
        Self::lemma_field_status_text(v);
        assert(Self::spec_prefix(v, 3) == v) by {
            reveal(CMsgClientFriendUserStatusPublished::spec_prefix);
        }
        lemma_merge_run_fold(d, Self::spec_encode(v), apply);
        assert(Self::spec_decode(Self::spec_encode(v)) == Ok::<SpecCMsgClientFriendUserStatusPublished, WireError>(v)) by {
            reveal(CMsgClientFriendUserStatusPublished::spec_decode);
        }
    }
}

/// `CMsgClientServiceMethodLegacy`, as Valve's schema declares it.
#[derive(Debug, Clone, PartialEq)]
pub struct CMsgClientServiceMethodLegacy {
    /// Field 1.
    pub method_name: Option<String>,
    /// Field 2.
    pub serialized_method: Option<Vec<u8>>,
    /// Field 3.
    pub is_notification: Option<bool>,
}

/// What a `CMsgClientServiceMethodLegacy` holds, as mathematical values.
#[verifier::ext_equal]
pub struct SpecCMsgClientServiceMethodLegacy {
    pub method_name: Option<Seq<char>>,
    pub serialized_method: Option<Seq<u8>>,
    pub is_notification: Option<bool>,
}

impl View for CMsgClientServiceMethodLegacy {
    type V = SpecCMsgClientServiceMethodLegacy;

    open spec fn view(&self) -> SpecCMsgClientServiceMethodLegacy {
        SpecCMsgClientServiceMethodLegacy {
            method_name: opt_string_view(self.method_name),
            serialized_method: opt_bytes_view(self.serialized_method),
            is_notification: self.is_notification,
        }
    }
}

impl Default for CMsgClientServiceMethodLegacy {
    fn default() -> (r: Self)
        ensures
            r@ == CMsgClientServiceMethodLegacy::spec_default(),
    {
        CMsgClientServiceMethodLegacy {
            method_name: None,
            serialized_method: None,
            is_notification: None,
        }
    }
}

impl CMsgClientServiceMethodLegacy {
    pub open spec fn spec_default() -> SpecCMsgClientServiceMethodLegacy {
        SpecCMsgClientServiceMethodLegacy {
            method_name: None,
            serialized_method: None,
            is_notification: None,
        }
    }

    /// The records a `CMsgClientServiceMethodLegacy` is written as, in field order.
    pub open spec fn spec_fields(v: SpecCMsgClientServiceMethodLegacy) -> Seq<SpecField> {
        Seq::<SpecField>::empty()
            + opt_string(1, v.method_name)
            + opt_bytes(2, v.serialized_method)
            + opt_bool(3, v.is_notification)
    }

    #[verifier::opaque]
    pub open spec fn spec_encode(v: SpecCMsgClientServiceMethodLegacy) -> Seq<u8> {
        fields_bytes(Self::spec_fields(v))
    }

    /// What one record does to the message: a declared number sets or extends its
    /// field, any other number is left alone.
    pub open spec fn spec_apply(v: SpecCMsgClientServiceMethodLegacy, f: SpecField) -> Result<SpecCMsgClientServiceMethodLegacy, WireError> {
        match f.number {
            1 => match dec_string(f.value) {
                Ok(x) => Ok(SpecCMsgClientServiceMethodLegacy { method_name: Some(x), ..v }),
                Err(e) => Err(e),
            },
            2 => match dec_bytes(f.value) {
                Ok(x) => Ok(SpecCMsgClientServiceMethodLegacy { serialized_method: Some(x), ..v }),
                Err(e) => Err(e),
            },
            3 => match dec_bool(f.value) {
                Ok(x) => Ok(SpecCMsgClientServiceMethodLegacy { is_notification: Some(x), ..v }),
                Err(e) => Err(e),
            },
            _ => Ok(v),
        }
    }

    pub open spec fn apply_fn() -> spec_fn(SpecCMsgClientServiceMethodLegacy, SpecField) -> Result<SpecCMsgClientServiceMethodLegacy, WireError> {
        |v: SpecCMsgClientServiceMethodLegacy, f: SpecField| Self::spec_apply(v, f)
    }

    /// The message `bytes` makes of `v`: its records applied in order, or the error
    /// that stops the reading.
    pub open spec fn spec_merge(v: SpecCMsgClientServiceMethodLegacy, bytes: Seq<u8>) -> Result<SpecCMsgClientServiceMethodLegacy, WireError> {
        let (w, stop) = merge_run(v, bytes, Self::apply_fn());
        match stop {
            None => Ok(w),
            Some(e) => Err(e),
        }
    }

    #[verifier::opaque]
    pub open spec fn spec_decode(bytes: Seq<u8>) -> Result<SpecCMsgClientServiceMethodLegacy, WireError> {
        Self::spec_merge(Self::spec_default(), bytes)
    }

    /// This message with one record applied to it, or, when the record is refused,
    /// the message unchanged and the reason.
    fn applied(self, f: &Field) -> (r: Result<Self, (Self, WireError)>)
        ensures
            match Self::spec_apply(self@, f@) {
                Ok(v) => r matches Ok(m) && m@ == v,
                Err(e) => r matches Err((m, x)) && x == e && m@ == self@,
            },
    {
        match f.number {
            1 => match read_string(&f.value) {
                Ok(x) => Ok(Self { method_name: Some(x), ..self }),
                Err(e) => Err((self, e)),
            },
            2 => match read_bytes(&f.value) {
                Ok(x) => Ok(Self { serialized_method: Some(x), ..self }),
                Err(e) => Err((self, e)),
            },
            3 => match read_bool(&f.value) {
                Ok(x) => Ok(Self { is_notification: Some(x), ..self }),
                Err(e) => Err((self, e)),
            },
            _ => Ok(self),
        }
    }

    /// Reads the records `bytes` holds into this message, in order. When a record does
    /// not parse or is refused, the reading stops there: the message keeps what the
    /// records before it gave, and the error is returned.
    pub fn merge(&mut self, bytes: &[u8]) -> (r: Result<(), WireError>)
        ensures
            final(self)@ == merge_run(old(self)@, bytes@, Self::apply_fn()).0,
            r == match merge_run(old(self)@, bytes@, Self::apply_fn()).1 {
                None => Ok::<(), WireError>(()),
                Some(e) => Err::<(), WireError>(e),
            },
    {
        let ghost total = merge_run(self@, bytes@, Self::apply_fn());
        let mut cur = Self::default();
        std::mem::swap(&mut cur, self);
        let mut pos: usize = 0;
        assert(bytes@.skip(0) =~= bytes@);
        while pos < bytes.len()
            invariant
                pos <= bytes@.len(),
                total == merge_run(old(self)@, bytes@, Self::apply_fn()),
                merge_run(cur@, bytes@.skip(pos as int), Self::apply_fn()) == total,
            decreases bytes@.len() - pos,
        {
            let ghost s = bytes@.skip(pos as int);
            proof {
                lemma_merge_run_step(cur@, s, Self::apply_fn());
                lemma_parse_field_len(s);
            }
            match read_field(bytes, pos) {
                Ok((f, end)) => {
                    assert(bytes@.skip(end as int) =~= s.skip((end - pos) as int));
                    match cur.applied(&f) {
                        Ok(m) => {
                            cur = m;
                        },
                        Err((m, e)) => {
                            *self = m;
                            return Err(e);
                        },
                    }
                    pos = end;
                },
                Err(e) => {
                    *self = cur;
                    return Err(e);
                },
            }
        }
        assert(bytes@.skip(pos as int) =~= Seq::<u8>::empty());
        proof {
            lemma_merge_run_empty(cur@, Self::apply_fn());
        }
        *self = cur;
        Ok(())
    }

    /// Decodes a message from its encoding.
    pub fn decode(bytes: &[u8]) -> (r: Result<Self, WireError>)
        ensures
            match Self::spec_decode(bytes@) {
                Ok(v) => r matches Ok(m) && m@ == v,
                Err(e) => r matches Err(x) && x == e,
            },
    {
        proof {
            reveal(CMsgClientServiceMethodLegacy::spec_decode);
        }
        let mut m = Self::default();
        match m.merge(bytes) {
            Ok(()) => Ok(m),
            Err(e) => Err(e),
        }
    }

    /// The encoding of this message.
    pub fn encode_to_vec(&self) -> (r: Vec<u8>)
        ensures
            r@ == Self::spec_encode(self@),
    {
        let ghost v = self@;
        let mut out: Vec<u8> = Vec::new();
        let ghost p0 = Seq::<SpecField>::empty();
        put_opt_string(&mut out, 1, &self.method_name);
        let ghost p1 = p0 + opt_string(1, v.method_name);
        proof {
            lemma_fields_bytes_concat(p0, opt_string(1, v.method_name));
        }
        put_opt_bytes(&mut out, 2, &self.serialized_method);
        let ghost p2 = p1 + opt_bytes(2, v.serialized_method);
        proof {
            lemma_fields_bytes_concat(p1, opt_bytes(2, v.serialized_method));
        }
        put_opt_bool(&mut out, 3, self.is_notification);
        let ghost p3 = p2 + opt_bool(3, v.is_notification);
        proof {
            lemma_fields_bytes_concat(p2, opt_bool(3, v.is_notification));
        }
        proof {
            reveal(CMsgClientServiceMethodLegacy::spec_encode);
        }
        assert(p3 == Self::spec_fields(v));
        out
    }

    /// Appends the encoding of this message to `out`.
    pub fn encode_raw(&self, out: &mut Vec<u8>)
        ensures
            final(out)@ == old(out)@ + Self::spec_encode(self@),
    {
        let mut b = self.encode_to_vec();
        out.append(&mut b);
    }

    /// The first `k` fields of `v`, the others as a fresh message has them.
    #[verifier::opaque]
    pub open spec fn spec_prefix(v: SpecCMsgClientServiceMethodLegacy, k: int) -> SpecCMsgClientServiceMethodLegacy {
        SpecCMsgClientServiceMethodLegacy {
            method_name: if 1 <= k { v.method_name } else { None },
            serialized_method: if 2 <= k { v.serialized_method } else { None },
            is_notification: if 3 <= k { v.is_notification } else { None },
        }
    }

    /// Reading field 1 back, after the fields before it.
    proof fn lemma_field_method_name(v: SpecCMsgClientServiceMethodLegacy)
        ensures
            fold_fields(Self::spec_prefix(v, 0), opt_string(1, v.method_name), Self::apply_fn())
                == Ok::<SpecCMsgClientServiceMethodLegacy, WireError>(Self::spec_prefix(v, 1)),
    {
        reveal(CMsgClientServiceMethodLegacy::spec_prefix);
        reveal(opt_string);
        let apply = Self::apply_fn();
        let s = Self::spec_prefix(v, 0);
        lemma_fold_opt(s, 1, match v.method_name { Some(x) => Some(enc_string(x)), None => None }, apply);
        if let Some(x) = v.method_name {
            lemma_string_roundtrip(x);
        }
        assert(SpecCMsgClientServiceMethodLegacy { method_name: v.method_name, ..s } == Self::spec_prefix(v, 1));
    }

    /// Reading field 2 back, after the fields before it.
    proof fn lemma_field_serialized_method(v: SpecCMsgClientServiceMethodLegacy)
        ensures
            fold_fields(Self::spec_prefix(v, 1), opt_bytes(2, v.serialized_method), Self::apply_fn())
                == Ok::<SpecCMsgClientServiceMethodLegacy, WireError>(Self::spec_prefix(v, 2)),
    {
        reveal(CMsgClientServiceMethodLegacy::spec_prefix);
        reveal(opt_bytes);
        let apply = Self::apply_fn();
        let s = Self::spec_prefix(v, 1);
        lemma_fold_opt(s, 2, match v.serialized_method { Some(x) => Some(enc_bytes(x)), None => None }, apply);
        assert(SpecCMsgClientServiceMethodLegacy { serialized_method: v.serialized_method, ..s } == Self::spec_prefix(v, 2));
    }

    /// Reading field 3 back, after the fields before it.
    proof fn lemma_field_is_notification(v: SpecCMsgClientServiceMethodLegacy)
        ensures
            fold_fields(Self::spec_prefix(v, 2), opt_bool(3, v.is_notification), Self::apply_fn())
                == Ok::<SpecCMsgClientServiceMethodLegacy, WireError>(Self::spec_prefix(v, 3)),
    {
        reveal(CMsgClientServiceMethodLegacy::spec_prefix);
        reveal(opt_bool);
        let apply = Self::apply_fn();
        let s = Self::spec_prefix(v, 2);
        lemma_fold_opt(s, 3, match v.is_notification { Some(x) => Some(enc_bool(x)), None => None }, apply);
        assert(SpecCMsgClientServiceMethodLegacy { is_notification: v.is_notification, ..s } == Self::spec_prefix(v, 3));
    }

    /// Whether this message declares field number `n`.
    pub open spec fn declares(n: u32) -> bool {
        n == 1 || n == 2 || n == 3
    }

    /// A record with a number this message does not declare is passed over: well-formed
    /// bytes decode to the same message with such a record after them as without it.
    pub proof fn lemma_unknown_field(bytes: Seq<u8>, f: SpecField)
        requires
            parse_fields(bytes) is Ok,
            field_wf(f),
            !Self::declares(f.number),
        ensures
            Self::spec_decode(bytes + field_bytes(f)) == Self::spec_decode(bytes),
    {
        reveal(CMsgClientServiceMethodLegacy::spec_decode);
        lemma_parse_fields_append(bytes, f);
        let fs = parse_fields(bytes).unwrap();
        let apply = Self::apply_fn();
        lemma_fold_concat(Self::spec_default(), fs, seq![f], apply);
        assert(fs.push(f) =~= fs + seq![f]);
        if let Ok(w) = fold_fields(Self::spec_default(), fs, apply) {
            lemma_fold_single(w, f, apply);
        }
        lemma_merge_run_fold(Self::spec_default(), bytes, apply);
        lemma_merge_run_fold(Self::spec_default(), bytes + field_bytes(f), apply);
    }

    /// Decoding the encoding of a message gives the message back.
    pub proof fn lemma_decode_encode(v: SpecCMsgClientServiceMethodLegacy)
        requires
            Self::spec_encode(v).len() <= u64::MAX,
        ensures
            Self::spec_decode(Self::spec_encode(v)) == Ok::<SpecCMsgClientServiceMethodLegacy, WireError>(v),
    {
        let apply = Self::apply_fn();
        let d = Self::spec_default();
        let p0 = Seq::<SpecField>::empty();
        let l1 = opt_string(1, v.method_name);
        let p1 = p0 + l1;
        let l2 = opt_bytes(2, v.serialized_method);
        let p2 = p1 + l2;
        let l3 = opt_bool(3, v.is_notification);
        let p3 = p2 + l3;
        assert(parse_fields(Self::spec_encode(v)) == Ok::<Seq<SpecField>, WireError>(p3)) by {
            reveal(CMsgClientServiceMethodLegacy::spec_encode);
            assert(numbers_ok(p0) && fields_wf(p0)) by {
                reveal(numbers_ok);
                reveal(fields_wf);
            }
            lemma_opt_string_numbered(1, v.method_name);
            lemma_fields_wf_concat(p0, l1);
            lemma_opt_bytes_numbered(2, v.serialized_method);
            lemma_fields_wf_concat(p1, l2);
            lemma_opt_bool_numbered(3, v.is_notification);
            lemma_fields_wf_concat(p2, l3);
            assert(p3 == Self::spec_fields(v));
            lemma_fields_wf_from_len(p3);
            lemma_fields_roundtrip(p3);
        }
        assert(Self::spec_prefix(v, 0) == d) by {
            reveal(CMsgClientServiceMethodLegacy::spec_prefix);
        }
        lemma_fold_empty(d, apply);
        lemma_fold_concat(d, p0, l1, apply);
        Self::lemma_field_method_name(v);
        lemma_fold_concat(d, p1, l2, apply);
        Self::lemma_field_serialized_method(v);
        lemma_fold_concat(d, p2, l3, apply);
        Self::lemma_field_is_notification(v);
        assert(Self::spec_prefix(v, 3) == v) by {
            reveal(CMsgClientServiceMethodLegacy::spec_prefix);
        }
        lemma_merge_run_fold(d, Self::spec_encode(v), apply);
        assert(Self::spec_decode(Self::spec_encode(v)) == Ok::<SpecCMsgClientServiceMethodLegacy, WireError>(v)) by {
            reveal(CMsgClientServiceMethodLegacy::spec_decode);
        }
    }
}

/// `CMsgClientServiceMethodLegacyResponse`, as Valve's schema declares it.
#[derive(Debug, Clone, PartialEq)]
pub struct CMsgClientServiceMethodLegacyResponse {
    /// Field 1.
    pub method_name: Option<String>,
    /// Field 2.
    pub serialized_method_response: Option<Vec<u8>>,
}

/// What a `CMsgClientServiceMethodLegacyResponse` holds, as mathematical values.
#[verifier::ext_equal]
pub struct SpecCMsgClientServiceMethodLegacyResponse {
    pub method_name: Option<Seq<char>>,
    pub serialized_method_response: Option<Seq<u8>>,
}

impl View for CMsgClientServiceMethodLegacyResponse {
    type V = SpecCMsgClientServiceMethodLegacyResponse;

    open spec fn view(&self) -> SpecCMsgClientServiceMethodLegacyResponse {
        SpecCMsgClientServiceMethodLegacyResponse {
            method_name: opt_string_view(self.method_name),
            serialized_method_response: opt_bytes_view(self.serialized_method_response),
        }
    }
}

impl Default for CMsgClientServiceMethodLegacyResponse {
    fn default() -> (r: Self)
        ensures
            r@ == CMsgClientServiceMethodLegacyResponse::spec_default(),
    {
        CMsgClientServiceMethodLegacyResponse {
            method_name: None,
            serialized_method_response: None,
        }
    }
}

impl CMsgClientServiceMethodLegacyResponse {
    pub open spec fn spec_default() -> SpecCMsgClientServiceMethodLegacyResponse {
        SpecCMsgClientServiceMethodLegacyResponse {
            method_name: None,
            serialized_method_response: None,
        }
    }

    /// The records a `CMsgClientServiceMethodLegacyResponse` is written as, in field order.
    pub open spec fn spec_fields(v: SpecCMsgClientServiceMethodLegacyResponse) -> Seq<SpecField> {
        Seq::<SpecField>::empty()
            + opt_string(1, v.method_name)
            + opt_bytes(2, v.serialized_method_response)
    }

    #[verifier::opaque]
    pub open spec fn spec_encode(v: SpecCMsgClientServiceMethodLegacyResponse) -> Seq<u8> {
        fields_bytes(Self::spec_fields(v))
    }

    /// What one record does to the message: a declared number sets or extends its
    /// field, any other number is left alone.
    pub open spec fn spec_apply(v: SpecCMsgClientServiceMethodLegacyResponse, f: SpecField) -> Result<SpecCMsgClientServiceMethodLegacyResponse, WireError> {
        match f.number {
            1 => match dec_string(f.value) {
                Ok(x) => Ok(SpecCMsgClientServiceMethodLegacyResponse { method_name: Some(x), ..v }),
                Err(e) => Err(e),
            },
            2 => match dec_bytes(f.value) {
                Ok(x) => Ok(SpecCMsgClientServiceMethodLegacyResponse { serialized_method_response: Some(x), ..v }),
                Err(e) => Err(e),
            },
            _ => Ok(v),
        }
    }

    pub open spec fn apply_fn() -> spec_fn(SpecCMsgClientServiceMethodLegacyResponse, SpecField) -> Result<SpecCMsgClientServiceMethodLegacyResponse, WireError> {
        |v: SpecCMsgClientServiceMethodLegacyResponse, f: SpecField| Self::spec_apply(v, f)
    }

    /// The message `bytes` makes of `v`: its records applied in order, or the error
    /// that stops the reading.
    pub open spec fn spec_merge(v: SpecCMsgClientServiceMethodLegacyResponse, bytes: Seq<u8>) -> Result<SpecCMsgClientServiceMethodLegacyResponse, WireError> {
        let (w, stop) = merge_run(v, bytes, Self::apply_fn());
        match stop {
            None => Ok(w),
            Some(e) => Err(e),
        }
    }

    #[verifier::opaque]
    pub open spec fn spec_decode(bytes: Seq<u8>) -> Result<SpecCMsgClientServiceMethodLegacyResponse, WireError> {
        Self::spec_merge(Self::spec_default(), bytes)
    }

    /// This message with one record applied to it, or, when the record is refused,
    /// the message unchanged and the reason.
    fn applied(self, f: &Field) -> (r: Result<Self, (Self, WireError)>)
        ensures
            match Self::spec_apply(self@, f@) {
                Ok(v) => r matches Ok(m) && m@ == v,
                Err(e) => r matches Err((m, x)) && x == e && m@ == self@,
            },
    {
        match f.number {
            1 => match read_string(&f.value) {
                Ok(x) => Ok(Self { method_name: Some(x), ..self }),
                Err(e) => Err((self, e)),
            },
            2 => match read_bytes(&f.value) {
                Ok(x) => Ok(Self { serialized_method_response: Some(x), ..self }),
                Err(e) => Err((self, e)),
            },
            _ => Ok(self),
        }
    }

    /// Reads the records `bytes` holds into this message, in order. When a record does
    /// not parse or is refused, the reading stops there: the message keeps what the
    /// records before it gave, and the error is returned.
    pub fn merge(&mut self, bytes: &[u8]) -> (r: Result<(), WireError>)
        ensures
            final(self)@ == merge_run(old(self)@, bytes@, Self::apply_fn()).0,
            r == match merge_run(old(self)@, bytes@, Self::apply_fn()).1 {
                None => Ok::<(), WireError>(()),
                Some(e) => Err::<(), WireError>(e),
            },
    {
        let ghost total = merge_run(self@, bytes@, Self::apply_fn());
        let mut cur = Self::default();
        std::mem::swap(&mut cur, self);
        let mut pos: usize = 0;
        assert(bytes@.skip(0) =~= bytes@);
        while pos < bytes.len()
            invariant
                pos <= bytes@.len(),
                total == merge_run(old(self)@, bytes@, Self::apply_fn()),
                merge_run(cur@, bytes@.skip(pos as int), Self::apply_fn()) == total,
            decreases bytes@.len() - pos,
        {
            let ghost s = bytes@.skip(pos as int);
            proof {
                lemma_merge_run_step(cur@, s, Self::apply_fn());
                lemma_parse_field_len(s);
            }
            match read_field(bytes, pos) {
                Ok((f, end)) => {
                    assert(bytes@.skip(end as int) =~= s.skip((end - pos) as int));
                    match cur.applied(&f) {
                        Ok(m) => {
                            cur = m;
                        },
                        Err((m, e)) => {
                            *self = m;
                            return Err(e);
                        },
                    }
                    pos = end;
                },
                Err(e) => {
                    *self = cur;
                    return Err(e);
                },
            }
        }
        assert(bytes@.skip(pos as int) =~= Seq::<u8>::empty());
        proof {
            lemma_merge_run_empty(cur@, Self::apply_fn());
        }
        *self = cur;
        Ok(())
    }

    /// Decodes a message from its encoding.
    pub fn decode(bytes: &[u8]) -> (r: Result<Self, WireError>)
        ensures
            match Self::spec_decode(bytes@) {
                Ok(v) => r matches Ok(m) && m@ == v,
                Err(e) => r matches Err(x) && x == e,
            },
    {
        proof {
            reveal(CMsgClientServiceMethodLegacyResponse::spec_decode);
        }
        let mut m = Self::default();
        match m.merge(bytes) {
            Ok(()) => Ok(m),
            Err(e) => Err(e),
        }
    }

    /// The encoding of this message.
    pub fn encode_to_vec(&self) -> (r: Vec<u8>)
        ensures
            r@ == Self::spec_encode(self@),
    {
        let ghost v = self@;
        let mut out: Vec<u8> = Vec::new();
        let ghost p0 = Seq::<SpecField>::empty();
        put_opt_string(&mut out, 1, &self.method_name);
        let ghost p1 = p0 + opt_string(1, v.method_name);
        proof {
            lemma_fields_bytes_concat(p0, opt_string(1, v.method_name));
        }
        put_opt_bytes(&mut out, 2, &self.serialized_method_response);
        let ghost p2 = p1 + opt_bytes(2, v.serialized_method_response);
        proof {
            lemma_fields_bytes_concat(p1, opt_bytes(2, v.serialized_method_response));
        }
        proof {
            reveal(CMsgClientServiceMethodLegacyResponse::spec_encode);
        }
        assert(p2 == Self::spec_fields(v));
        out
    }

    /// Appends the encoding of this message to `out`.
    pub fn encode_raw(&self, out: &mut Vec<u8>)
        ensures
            final(out)@ == old(out)@ + Self::spec_encode(self@),
    {
        let mut b = self.encode_to_vec();
        out.append(&mut b);
    }

    /// The first `k` fields of `v`, the others as a fresh message has them.
    #[verifier::opaque]
    pub open spec fn spec_prefix(v: SpecCMsgClientServiceMethodLegacyResponse, k: int) -> SpecCMsgClientServiceMethodLegacyResponse {
        SpecCMsgClientServiceMethodLegacyResponse {
            method_name: if 1 <= k { v.method_name } else { None },
            serialized_method_response: if 2 <= k { v.serialized_method_response } else { None },
        }
    }

    /// Reading field 1 back, after the fields before it.
    proof fn lemma_field_method_name(v: SpecCMsgClientServiceMethodLegacyResponse)
        ensures
            fold_fields(Self::spec_prefix(v, 0), opt_string(1, v.method_name), Self::apply_fn())
                == Ok::<SpecCMsgClientServiceMethodLegacyResponse, WireError>(Self::spec_prefix(v, 1)),
    {
        reveal(CMsgClientServiceMethodLegacyResponse::spec_prefix);
        reveal(opt_string);
        let apply = Self::apply_fn();
        let s = Self::spec_prefix(v, 0);
        lemma_fold_opt(s, 1, match v.method_name { Some(x) => Some(enc_string(x)), None => None }, apply);
        if let Some(x) = v.method_name {
            lemma_string_roundtrip(x);
        }
        assert(SpecCMsgClientServiceMethodLegacyResponse { method_name: v.method_name, ..s } == Self::spec_prefix(v, 1));
    }

    /// Reading field 2 back, after the fields before it.
    proof fn lemma_field_serialized_method_response(v: SpecCMsgClientServiceMethodLegacyResponse)
        ensures
            fold_fields(Self::spec_prefix(v, 1), opt_bytes(2, v.serialized_method_response), Self::apply_fn())
                == Ok::<SpecCMsgClientServiceMethodLegacyResponse, WireError>(Self::spec_prefix(v, 2)),
    {
        reveal(CMsgClientServiceMethodLegacyResponse::spec_prefix);
        reveal(opt_bytes);
        let apply = Self::apply_fn();
        let s = Self::spec_prefix(v, 1);
        lemma_fold_opt(s, 2, match v.serialized_method_response { Some(x) => Some(enc_bytes(x)), None => None }, apply);
        assert(SpecCMsgClientServiceMethodLegacyResponse { serialized_method_response: v.serialized_method_response, ..s } == Self::spec_prefix(v, 2));
    }

    /// Whether this message declares field number `n`.
    pub open spec fn declares(n: u32) -> bool {
        n == 1 || n == 2
    }

    /// A record with a number this message does not declare is passed over: well-formed
    /// bytes decode to the same message with such a record after them as without it.
    pub proof fn lemma_unknown_field(bytes: Seq<u8>, f: SpecField)
        requires
            parse_fields(bytes) is Ok,
            field_wf(f),
            !Self::declares(f.number),
        ensures
            Self::spec_decode(bytes + field_bytes(f)) == Self::spec_decode(bytes),
    {
        reveal(CMsgClientServiceMethodLegacyResponse::spec_decode);
        lemma_parse_fields_append(bytes, f);
        let fs = parse_fields(bytes).unwrap();
        let apply = Self::apply_fn();
        lemma_fold_concat(Self::spec_default(), fs, seq![f], apply);
        assert(fs.push(f) =~= fs + seq![f]);
        if let Ok(w) = fold_fields(Self::spec_default(), fs, apply) {
            lemma_fold_single(w, f, apply);
        }
        lemma_merge_run_fold(Self::spec_default(), bytes, apply);
        lemma_merge_run_fold(Self::spec_default(), bytes + field_bytes(f), apply);
    }

    /// Decoding the encoding of a message gives the message back.
    pub proof fn lemma_decode_encode(v: SpecCMsgClientServiceMethodLegacyResponse)
        requires
            Self::spec_encode(v).len() <= u64::MAX,
        ensures
            Self::spec_decode(Self::spec_encode(v)) == Ok::<SpecCMsgClientServiceMethodLegacyResponse, WireError>(v),
    {
        let apply = Self::apply_fn();
        let d = Self::spec_default();
        let p0 = Seq::<SpecField>::empty();
        let l1 = opt_string(1, v.method_name);
        let p1 = p0 + l1;
        let l2 = opt_bytes(2, v.serialized_method_response);
        let p2 = p1 + l2;
        assert(parse_fields(Self::spec_encode(v)) == Ok::<Seq<SpecField>, WireError>(p2)) by {
            reveal(CMsgClientServiceMethodLegacyResponse::spec_encode);
            assert(numbers_ok(p0) && fields_wf(p0)) by {
                reveal(numbers_ok);
                reveal(fields_wf);
            }
            lemma_opt_string_numbered(1, v.method_name);
            lemma_fields_wf_concat(p0, l1);
            lemma_opt_bytes_numbered(2, v.serialized_method_response);
            lemma_fields_wf_concat(p1, l2);
            assert(p2 == Self::spec_fields(v));
            lemma_fields_wf_from_len(p2);
            lemma_fields_roundtrip(p2);
        }
        assert(Self::spec_prefix(v, 0) == d) by {
            reveal(CMsgClientServiceMethodLegacyResponse::spec_prefix);
        }
        lemma_fold_empty(d, apply);
        lemma_fold_concat(d, p0, l1, apply);
        Self::lemma_field_method_name(v);
        lemma_fold_concat(d, p1, l2, apply);
        Self::lemma_field_serialized_method_response(v);
        assert(Self::spec_prefix(v, 2) == v) by {
            reveal(CMsgClientServiceMethodLegacyResponse::spec_prefix);
        }
        lemma_merge_run_fold(d, Self::spec_encode(v), apply);
        assert(Self::spec_decode(Self::spec_encode(v)) == Ok::<SpecCMsgClientServiceMethodLegacyResponse, WireError>(v)) by {
            reveal(CMsgClientServiceMethodLegacyResponse::spec_decode);
        }
    }
}

/// `CMsgClientUIMode`, as Valve's schema declares it.
#[derive(Debug, Clone, PartialEq)]
pub struct CMsgClientUIMode {
    /// Field 1.
    pub uimode: Option<u32>,
    /// Field 2.
    pub chat_mode: Option<u32>,
}

/// What a `CMsgClientUIMode` holds, as mathematical values.
#[verifier::ext_equal]
pub struct SpecCMsgClientUIMode {
    pub uimode: Option<u32>,
    pub chat_mode: Option<u32>,
}

impl View for CMsgClientUIMode {
    type V = SpecCMsgClientUIMode;

    open spec fn view(&self) -> SpecCMsgClientUIMode {
        SpecCMsgClientUIMode {
            uimode: self.uimode,
            chat_mode: self.chat_mode,
        }
    }
}

impl Default for CMsgClientUIMode {
    fn default() -> (r: Self)
        ensures
            r@ == CMsgClientUIMode::spec_default(),
    {
        CMsgClientUIMode {
            uimode: None,
            chat_mode: None,
        }
    }
}

impl CMsgClientUIMode {
    pub open spec fn spec_default() -> SpecCMsgClientUIMode {
        SpecCMsgClientUIMode {
            uimode: None,
            chat_mode: None,
        }
    }

    /// The records a `CMsgClientUIMode` is written as, in field order.
    pub open spec fn spec_fields(v: SpecCMsgClientUIMode) -> Seq<SpecField> {
        Seq::<SpecField>::empty()
            + opt_u32(1, v.uimode)
            + opt_u32(2, v.chat_mode)
    }

    #[verifier::opaque]
    pub open spec fn spec_encode(v: SpecCMsgClientUIMode) -> Seq<u8> {
        fields_bytes(Self::spec_fields(v))
    }

    /// What one record does to the message: a declared number sets or extends its
    /// field, any other number is left alone.
    pub open spec fn spec_apply(v: SpecCMsgClientUIMode, f: SpecField) -> Result<SpecCMsgClientUIMode, WireError> {
        match f.number {
            1 => match dec_u32(f.value) {
                Ok(x) => Ok(SpecCMsgClientUIMode { uimode: Some(x), ..v }),
                Err(e) => Err(e),
            },
            2 => match dec_u32(f.value) {
                Ok(x) => Ok(SpecCMsgClientUIMode { chat_mode: Some(x), ..v }),
                Err(e) => Err(e),
            },
            _ => Ok(v),
        }
    }

    pub open spec fn apply_fn() -> spec_fn(SpecCMsgClientUIMode, SpecField) -> Result<SpecCMsgClientUIMode, WireError> {
        |v: SpecCMsgClientUIMode, f: SpecField| Self::spec_apply(v, f)
    }

    /// The message `bytes` makes of `v`: its records applied in order, or the error
    /// that stops the reading.
    pub open spec fn spec_merge(v: SpecCMsgClientUIMode, bytes: Seq<u8>) -> Result<SpecCMsgClientUIMode, WireError> {
        let (w, stop) = merge_run(v, bytes, Self::apply_fn());
        match stop {
            None => Ok(w),
            Some(e) => Err(e),
        }
    }

    #[verifier::opaque]
    pub open spec fn spec_decode(bytes: Seq<u8>) -> Result<SpecCMsgClientUIMode, WireError> {
        Self::spec_merge(Self::spec_default(), bytes)
    }

    /// This message with one record applied to it, or, when the record is refused,
    /// the message unchanged and the reason.
    fn applied(self, f: &Field) -> (r: Result<Self, (Self, WireError)>)
        ensures
            match Self::spec_apply(self@, f@) {
                Ok(v) => r matches Ok(m) && m@ == v,
                Err(e) => r matches Err((m, x)) && x == e && m@ == self@,
            },
    {
        match f.number {
            1 => match read_u32(&f.value) {
                Ok(x) => Ok(Self { uimode: Some(x), ..self }),
                Err(e) => Err((self, e)),
            },
            2 => match read_u32(&f.value) {
                Ok(x) => Ok(Self { chat_mode: Some(x), ..self }),
                Err(e) => Err((self, e)),
            },
            _ => Ok(self),
        }
    }

    /// Reads the records `bytes` holds into this message, in order. When a record does
    /// not parse or is refused, the reading stops there: the message keeps what the
    /// records before it gave, and the error is returned.
    pub fn merge(&mut self, bytes: &[u8]) -> (r: Result<(), WireError>)
        ensures
            final(self)@ == merge_run(old(self)@, bytes@, Self::apply_fn()).0,
            r == match merge_run(old(self)@, bytes@, Self::apply_fn()).1 {
                None => Ok::<(), WireError>(()),
                Some(e) => Err::<(), WireError>(e),
            },
    {
        let ghost total = merge_run(self@, bytes@, Self::apply_fn());
        let mut cur = Self::default();
        std::mem::swap(&mut cur, self);
        let mut pos: usize = 0;
        assert(bytes@.skip(0) =~= bytes@);
        while pos < bytes.len()
            invariant
                pos <= bytes@.len(),
                total == merge_run(old(self)@, bytes@, Self::apply_fn()),
                merge_run(cur@, bytes@.skip(pos as int), Self::apply_fn()) == total,
            decreases bytes@.len() - pos,
        {
            let ghost s = bytes@.skip(pos as int);
            proof {
                lemma_merge_run_step(cur@, s, Self::apply_fn());
                lemma_parse_field_len(s);
            }
            match read_field(bytes, pos) {
                Ok((f, end)) => {
                    assert(bytes@.skip(end as int) =~= s.skip((end - pos) as int));
                    match cur.applied(&f) {
                        Ok(m) => {
                            cur = m;
                        },
                        Err((m, e)) => {
                            *self = m;
                            return Err(e);
                        },
                    }
                    pos = end;
                },
                Err(e) => {
                    *self = cur;
                    return Err(e);
                },
            }
        }
        assert(bytes@.skip(pos as int) =~= Seq::<u8>::empty());
        proof {
            lemma_merge_run_empty(cur@, Self::apply_fn());
        }
        *self = cur;
        Ok(())
    }

    /// Decodes a message from its encoding.
    pub fn decode(bytes: &[u8]) -> (r: Result<Self, WireError>)
        ensures
            match Self::spec_decode(bytes@) {
                Ok(v) => r matches Ok(m) && m@ == v,
                Err(e) => r matches Err(x) && x == e,
            },
    {
        proof {
            reveal(CMsgClientUIMode::spec_decode);
        }
        let mut m = Self::default();
        match m.merge(bytes) {
            Ok(()) => Ok(m),
            Err(e) => Err(e),
        }
    }

    /// The encoding of this message.
    pub fn encode_to_vec(&self) -> (r: Vec<u8>)
        ensures
            r@ == Self::spec_encode(self@),
    {
        let ghost v = self@;
        let mut out: Vec<u8> = Vec::new();
        let ghost p0 = Seq::<SpecField>::empty();
        put_opt_u32(&mut out, 1, self.uimode);
        let ghost p1 = p0 + opt_u32(1, v.uimode);
        proof {
            lemma_fields_bytes_concat(p0, opt_u32(1, v.uimode));
        }
        put_opt_u32(&mut out, 2, self.chat_mode);
        let ghost p2 = p1 + opt_u32(2, v.chat_mode);
        proof {
            lemma_fields_bytes_concat(p1, opt_u32(2, v.chat_mode));
        }
        proof {
            reveal(CMsgClientUIMode::spec_encode);
        }
        assert(p2 == Self::spec_fields(v));
        out
    }

    /// Appends the encoding of this message to `out`.
    pub fn encode_raw(&self, out: &mut Vec<u8>)
        ensures
            final(out)@ == old(out)@ + Self::spec_encode(self@),
    {
        let mut b = self.encode_to_vec();
        out.append(&mut b);
    }

    /// The first `k` fields of `v`, the others as a fresh message has them.
    #[verifier::opaque]
    pub open spec fn spec_prefix(v: SpecCMsgClientUIMode, k: int) -> SpecCMsgClientUIMode {
        SpecCMsgClientUIMode {
            uimode: if 1 <= k { v.uimode } else { None },
            chat_mode: if 2 <= k { v.chat_mode } else { None },
        }
    }

    /// Reading field 1 back, after the fields before it.
    proof fn lemma_field_uimode(v: SpecCMsgClientUIMode)
        ensures
            fold_fields(Self::spec_prefix(v, 0), opt_u32(1, v.uimode), Self::apply_fn())
                == Ok::<SpecCMsgClientUIMode, WireError>(Self::spec_prefix(v, 1)),
    {
        reveal(CMsgClientUIMode::spec_prefix);
        reveal(opt_u32);
        let apply = Self::apply_fn();
        let s = Self::spec_prefix(v, 0);
        lemma_fold_opt(s, 1, match v.uimode { Some(x) => Some(enc_u32(x)), None => None }, apply);
        if let Some(x) = v.uimode {
            lemma_u32_roundtrip(x);
        }
        assert(SpecCMsgClientUIMode { uimode: v.uimode, ..s } == Self::spec_prefix(v, 1));
    }

    /// Reading field 2 back, after the fields before it.
    proof fn lemma_field_chat_mode(v: SpecCMsgClientUIMode)
        ensures
            fold_fields(Self::spec_prefix(v, 1), opt_u32(2, v.chat_mode), Self::apply_fn())
                == Ok::<SpecCMsgClientUIMode, WireError>(Self::spec_prefix(v, 2)),
    {
        reveal(CMsgClientUIMode::spec_prefix);
        reveal(opt_u32);
        let apply = Self::apply_fn();
        let s = Self::spec_prefix(v, 1);
        lemma_fold_opt(s, 2, match v.chat_mode { Some(x) => Some(enc_u32(x)), None => None }, apply);
        if let Some(x) = v.chat_mode {
            lemma_u32_roundtrip(x);
        }
        assert(SpecCMsgClientUIMode { chat_mode: v.chat_mode, ..s } == Self::spec_prefix(v, 2));
    }

    /// Whether this message declares field number `n`.
    pub open spec fn declares(n: u32) -> bool {
        n == 1 || n == 2
    }

    /// A record with a number this message does not declare is passed over: well-formed
    /// bytes decode to the same message with such a record after them as without it.
    pub proof fn lemma_unknown_field(bytes: Seq<u8>, f: SpecField)
        requires
            parse_fields(bytes) is Ok,
            field_wf(f),
            !Self::declares(f.number),
        ensures
            Self::spec_decode(bytes + field_bytes(f)) == Self::spec_decode(bytes),
    {
        reveal(CMsgClientUIMode::spec_decode);
        lemma_parse_fields_append(bytes, f);
        let fs = parse_fields(bytes).unwrap();
        let apply = Self::apply_fn();
        lemma_fold_concat(Self::spec_default(), fs, seq![f], apply);
        assert(fs.push(f) =~= fs + seq![f]);
        if let Ok(w) = fold_fields(Self::spec_default(), fs, apply) {
            lemma_fold_single(w, f, apply);
        }
        lemma_merge_run_fold(Self::spec_default(), bytes, apply);
        lemma_merge_run_fold(Self::spec_default(), bytes + field_bytes(f), apply);
    }

    /// Decoding the encoding of a message gives the message back.
    pub proof fn lemma_decode_encode(v: SpecCMsgClientUIMode)
        requires
            Self::spec_encode(v).len() <= u64::MAX,
        ensures
            Self::spec_decode(Self::spec_encode(v)) == Ok::<SpecCMsgClientUIMode, WireError>(v),
    {
        let apply = Self::apply_fn();
        let d = Self::spec_default();
        let p0 = Seq::<SpecField>::empty();
        let l1 = opt_u32(1, v.uimode);
        let p1 = p0 + l1;
        let l2 = opt_u32(2, v.chat_mode);
        let p2 = p1 + l2;
        assert(parse_fields(Self::spec_encode(v)) == Ok::<Seq<SpecField>, WireError>(p2)) by {
            reveal(CMsgClientUIMode::spec_encode);
            assert(numbers_ok(p0) && fields_wf(p0)) by {
                reveal(numbers_ok);
                reveal(fields_wf);
            }
            lemma_opt_u32_numbered(1, v.uimode);
            lemma_fields_wf_concat(p0, l1);
            lemma_opt_u32_numbered(2, v.chat_mode);
            lemma_fields_wf_concat(p1, l2);
            assert(p2 == Self::spec_fields(v));
            lemma_fields_wf_from_len(p2);
            lemma_fields_roundtrip(p2);
        }
        assert(Self::spec_prefix(v, 0) == d) by {
            reveal(CMsgClientUIMode::spec_prefix);
        }
        lemma_fold_empty(d, apply);
        lemma_fold_concat(d, p0, l1, apply);
        Self::lemma_field_uimode(v);
        lemma_fold_concat(d, p1, l2, apply);
        Self::lemma_field_chat_mode(v);
        assert(Self::spec_prefix(v, 2) == v) by {
            reveal(CMsgClientUIMode::spec_prefix);
        }
        lemma_merge_run_fold(d, Self::spec_encode(v), apply);
        assert(Self::spec_decode(Self::spec_encode(v)) == Ok::<SpecCMsgClientUIMode, WireError>(v)) by {
            reveal(CMsgClientUIMode::spec_decode);
        }
    }
}

/// `CMsgClientVanityURLChangedNotification`, as Valve's schema declares it.
#[derive(Debug, Clone, PartialEq)]
pub struct CMsgClientVanityURLChangedNotification {
    /// Field 1.
    pub vanity_url: Option<String>,
}

/// What a `CMsgClientVanityURLChangedNotification` holds, as mathematical values.
#[verifier::ext_equal]
pub struct SpecCMsgClientVanityURLChangedNotification {
    pub vanity_url: Option<Seq<char>>,
}

impl View for CMsgClientVanityURLChangedNotification {
    type V = SpecCMsgClientVanityURLChangedNotification;

    open spec fn view(&self) -> SpecCMsgClientVanityURLChangedNotification {
        SpecCMsgClientVanityURLChangedNotification {
            vanity_url: opt_string_view(self.vanity_url),
        }
    }
}

impl Default for CMsgClientVanityURLChangedNotification {
    fn default() -> (r: Self)
        ensures
            r@ == CMsgClientVanityURLChangedNotification::spec_default(),
    {
        CMsgClientVanityURLChangedNotification {
            vanity_url: None,
        }
    }
}

impl CMsgClientVanityURLChangedNotification {
    pub open spec fn spec_default() -> SpecCMsgClientVanityURLChangedNotification {
        SpecCMsgClientVanityURLChangedNotification {
            vanity_url: None,
        }
    }

    /// The records a `CMsgClientVanityURLChangedNotification` is written as, in field order.
    pub open spec fn spec_fields(v: SpecCMsgClientVanityURLChangedNotification) -> Seq<SpecField> {
        Seq::<SpecField>::empty()
            + opt_string(1, v.vanity_url)
    }

    #[verifier::opaque]
    pub open spec fn spec_encode(v: SpecCMsgClientVanityURLChangedNotification) -> Seq<u8> {
        fields_bytes(Self::spec_fields(v))
    }

    /// What one record does to the message: a declared number sets or extends its
    /// field, any other number is left alone.
    pub open spec fn spec_apply(v: SpecCMsgClientVanityURLChangedNotification, f: SpecField) -> Result<SpecCMsgClientVanityURLChangedNotification, WireError> {
        match f.number {
            1 => match dec_string(f.value) {
                Ok(x) => Ok(SpecCMsgClientVanityURLChangedNotification { vanity_url: Some(x), ..v }),
                Err(e) => Err(e),
            },
            _ => Ok(v),
        }
    }

    pub open spec fn apply_fn() -> spec_fn(SpecCMsgClientVanityURLChangedNotification, SpecField) -> Result<SpecCMsgClientVanityURLChangedNotification, WireError> {
        |v: SpecCMsgClientVanityURLChangedNotification, f: SpecField| Self::spec_apply(v, f)
    }

    /// The message `bytes` makes of `v`: its records applied in order, or the error
    /// that stops the reading.
    pub open spec fn spec_merge(v: SpecCMsgClientVanityURLChangedNotification, bytes: Seq<u8>) -> Result<SpecCMsgClientVanityURLChangedNotification, WireError> {
        let (w, stop) = merge_run(v, bytes, Self::apply_fn());
        match stop {
            None => Ok(w),
            Some(e) => Err(e),
        }
    }

    #[verifier::opaque]
    pub open spec fn spec_decode(bytes: Seq<u8>) -> Result<SpecCMsgClientVanityURLChangedNotification, WireError> {
        Self::spec_merge(Self::spec_default(), bytes)
    }

    /// This message with one record applied to it, or, when the record is refused,
    /// the message unchanged and the reason.
    fn applied(self, f: &Field) -> (r: Result<Self, (Self, WireError)>)
        ensures
            match Self::spec_apply(self@, f@) {
                Ok(v) => r matches Ok(m) && m@ == v,
                Err(e) => r matches Err((m, x)) && x == e && m@ == self@,
            },
    {
        match f.number {
            1 => match read_string(&f.value) {
                Ok(x) => Ok(Self { vanity_url: Some(x), ..self }),
                Err(e) => Err((self, e)),
            },
            _ => Ok(self),
        }
    }

    /// Reads the records `bytes` holds into this message, in order. When a record does
    /// not parse or is refused, the reading stops there: the message keeps what the
    /// records before it gave, and the error is returned.
    pub fn merge(&mut self, bytes: &[u8]) -> (r: Result<(), WireError>)
        ensures
            final(self)@ == merge_run(old(self)@, bytes@, Self::apply_fn()).0,
            r == match merge_run(old(self)@, bytes@, Self::apply_fn()).1 {
                None => Ok::<(), WireError>(()),
                Some(e) => Err::<(), WireError>(e),
            },
    {
        let ghost total = merge_run(self@, bytes@, Self::apply_fn());
        let mut cur = Self::default();
        std::mem::swap(&mut cur, self);
        let mut pos: usize = 0;
        assert(bytes@.skip(0) =~= bytes@);
        while pos < bytes.len()
            invariant
                pos <= bytes@.len(),
                total == merge_run(old(self)@, bytes@, Self::apply_fn()),
                merge_run(cur@, bytes@.skip(pos as int), Self::apply_fn()) == total,
            decreases bytes@.len() - pos,
        {
            let ghost s = bytes@.skip(pos as int);
            proof {
                lemma_merge_run_step(cur@, s, Self::apply_fn());
                lemma_parse_field_len(s);
            }
            match read_field(bytes, pos) {
                Ok((f, end)) => {
                    assert(bytes@.skip(end as int) =~= s.skip((end - pos) as int));
                    match cur.applied(&f) {
                        Ok(m) => {
                            cur = m;
                        },
                        Err((m, e)) => {
                            *self = m;
                            return Err(e);
                        },
                    }
                    pos = end;
                },
                Err(e) => {
                    *self = cur;
                    return Err(e);
                },
            }
        }
        assert(bytes@.skip(pos as int) =~= Seq::<u8>::empty());
        proof {
            lemma_merge_run_empty(cur@, Self::apply_fn());
        }
        *self = cur;
        Ok(())
    }

    /// Decodes a message from its encoding.
    pub fn decode(bytes: &[u8]) -> (r: Result<Self, WireError>)
        ensures
            match Self::spec_decode(bytes@) {
                Ok(v) => r matches Ok(m) && m@ == v,
                Err(e) => r matches Err(x) && x == e,
            },
    {
        proof {
            reveal(CMsgClientVanityURLChangedNotification::spec_decode);
        }
        let mut m = Self::default();
        match m.merge(bytes) {
            Ok(()) => Ok(m),
            Err(e) => Err(e),
        }
    }

    /// The encoding of this message.
    pub fn encode_to_vec(&self) -> (r: Vec<u8>)
        ensures
            r@ == Self::spec_encode(self@),
    {
        let ghost v = self@;
        let mut out: Vec<u8> = Vec::new();
        let ghost p0 = Seq::<SpecField>::empty();
        put_opt_string(&mut out, 1, &self.vanity_url);
        let ghost p1 = p0 + opt_string(1, v.vanity_url);
        proof {
            lemma_fields_bytes_concat(p0, opt_string(1, v.vanity_url));
        }
        proof {
            reveal(CMsgClientVanityURLChangedNotification::spec_encode);
        }
        assert(p1 == Self::spec_fields(v));
        out
    }

    /// Appends the encoding of this message to `out`.
    pub fn encode_raw(&self, out: &mut Vec<u8>)
        ensures
            final(out)@ == old(out)@ + Self::spec_encode(self@),
    {
        let mut b = self.encode_to_vec();
        out.append(&mut b);
    }

    /// The first `k` fields of `v`, the others as a fresh message has them.
    #[verifier::opaque]
    pub open spec fn spec_prefix(v: SpecCMsgClientVanityURLChangedNotification, k: int) -> SpecCMsgClientVanityURLChangedNotification {
        SpecCMsgClientVanityURLChangedNotification {
            vanity_url: if 1 <= k { v.vanity_url } else { None },
        }
    }

    /// Reading field 1 back, after the fields before it.
    proof fn lemma_field_vanity_url(v: SpecCMsgClientVanityURLChangedNotification)
        ensures
            fold_fields(Self::spec_prefix(v, 0), opt_string(1, v.vanity_url), Self::apply_fn())
                == Ok::<SpecCMsgClientVanityURLChangedNotification, WireError>(Self::spec_prefix(v, 1)),
    {
        reveal(CMsgClientVanityURLChangedNotification::spec_prefix);
        reveal(opt_string);
        let apply = Self::apply_fn();
        let s = Self::spec_prefix(v, 0);
        lemma_fold_opt(s, 1, match v.vanity_url { Some(x) => Some(enc_string(x)), None => None }, apply);
        if let Some(x) = v.vanity_url {
            lemma_string_roundtrip(x);
        }
        assert(SpecCMsgClientVanityURLChangedNotification { vanity_url: v.vanity_url, ..s } == Self::spec_prefix(v, 1));
    }

    /// Whether this message declares field number `n`.
    pub open spec fn declares(n: u32) -> bool {
        n == 1
    }

    /// A record with a number this message does not declare is passed over: well-formed
    /// bytes decode to the same message with such a record after them as without it.
    pub proof fn lemma_unknown_field(bytes: Seq<u8>, f: SpecField)
        requires
            parse_fields(bytes) is Ok,
            field_wf(f),
            !Self::declares(f.number),
        ensures
            Self::spec_decode(bytes + field_bytes(f)) == Self::spec_decode(bytes),
    {
        reveal(CMsgClientVanityURLChangedNotification::spec_decode);
        lemma_parse_fields_append(bytes, f);
        let fs = parse_fields(bytes).unwrap();
        let apply = Self::apply_fn();
        lemma_fold_concat(Self::spec_default(), fs, seq![f], apply);
        assert(fs.push(f) =~= fs + seq![f]);
        if let Ok(w) = fold_fields(Self::spec_default(), fs, apply) {
            lemma_fold_single(w, f, apply);
        }
        lemma_merge_run_fold(Self::spec_default(), bytes, apply);
        lemma_merge_run_fold(Self::spec_default(), bytes + field_bytes(f), apply);
    }

    /// Decoding the encoding of a message gives the message back.
    pub proof fn lemma_decode_encode(v: SpecCMsgClientVanityURLChangedNotification)
        requires
            Self::spec_encode(v).len() <= u64::MAX,
        ensures
            Self::spec_decode(Self::spec_encode(v)) == Ok::<SpecCMsgClientVanityURLChangedNotification, WireError>(v),
    {
        let apply = Self::apply_fn();
        let d = Self::spec_default();
        let p0 = Seq::<SpecField>::empty();
        let l1 = opt_string(1, v.vanity_url);
        let p1 = p0 + l1;
        assert(parse_fields(Self::spec_encode(v)) == Ok::<Seq<SpecField>, WireError>(p1)) by {
            reveal(CMsgClientVanityURLChangedNotification::spec_encode);
            assert(numbers_ok(p0) && fields_wf(p0)) by {
                reveal(numbers_ok);
                reveal(fields_wf);
            }
            lemma_opt_string_numbered(1, v.vanity_url);
            lemma_fields_wf_concat(p0, l1);
            assert(p1 == Self::spec_fields(v));
            lemma_fields_wf_from_len(p1);
            lemma_fields_roundtrip(p1);
        }
        assert(Self::spec_prefix(v, 0) == d) by {
            reveal(CMsgClientVanityURLChangedNotification::spec_prefix);
        }
        lemma_fold_empty(d, apply);
        lemma_fold_concat(d, p0, l1, apply);
        Self::lemma_field_vanity_url(v);
        assert(Self::spec_prefix(v, 1) == v) by {
            reveal(CMsgClientVanityURLChangedNotification::spec_prefix);
        }
        lemma_merge_run_fold(d, Self::spec_encode(v), apply);
        assert(Self::spec_decode(Self::spec_encode(v)) == Ok::<SpecCMsgClientVanityURLChangedNotification, WireError>(v)) by {
            reveal(CMsgClientVanityURLChangedNotification::spec_decode);
        }
    }
}

/// `CMsgClientAuthorizeLocalDeviceRequest`, as Valve's schema declares it.
#[derive(Debug, Clone, PartialEq)]
pub struct CMsgClientAuthorizeLocalDeviceRequest {
    /// Field 1.
    pub device_description: Option<String>,
    /// Field 2.
    pub owner_account_id: Option<u32>,
    /// Field 3.
    pub local_device_token: Option<u64>,
}

/// What a `CMsgClientAuthorizeLocalDeviceRequest` holds, as mathematical values.
#[verifier::ext_equal]
pub struct SpecCMsgClientAuthorizeLocalDeviceRequest {
    pub device_description: Option<Seq<char>>,
    pub owner_account_id: Option<u32>,
    pub local_device_token: Option<u64>,
}

impl View for CMsgClientAuthorizeLocalDeviceRequest {
    type V = SpecCMsgClientAuthorizeLocalDeviceRequest;

    open spec fn view(&self) -> SpecCMsgClientAuthorizeLocalDeviceRequest {
        SpecCMsgClientAuthorizeLocalDeviceRequest {
            device_description: opt_string_view(self.device_description),
            owner_account_id: self.owner_account_id,
            local_device_token: self.local_device_token,
        }
    }
}

impl Default for CMsgClientAuthorizeLocalDeviceRequest {
    fn default() -> (r: Self)
        ensures
            r@ == CMsgClientAuthorizeLocalDeviceRequest::spec_default(),
    {
        CMsgClientAuthorizeLocalDeviceRequest {
            device_description: None,
            owner_account_id: None,
            local_device_token: None,
        }
    }
}

impl CMsgClientAuthorizeLocalDeviceRequest {
    pub open spec fn spec_default() -> SpecCMsgClientAuthorizeLocalDeviceRequest {
        SpecCMsgClientAuthorizeLocalDeviceRequest {
            device_description: None,
            owner_account_id: None,
            local_device_token: None,
        }
    }

    /// The records a `CMsgClientAuthorizeLocalDeviceRequest` is written as, in field order.
    pub open spec fn spec_fields(v: SpecCMsgClientAuthorizeLocalDeviceRequest) -> Seq<SpecField> {
        Seq::<SpecField>::empty()
            + opt_string(1, v.device_description)
            + opt_u32(2, v.owner_account_id)
            + opt_u64(3, v.local_device_token)
    }

    #[verifier::opaque]
    pub open spec fn spec_encode(v: SpecCMsgClientAuthorizeLocalDeviceRequest) -> Seq<u8> {
        fields_bytes(Self::spec_fields(v))
    }

    /// What one record does to the message: a declared number sets or extends its
    /// field, any other number is left alone.
    pub open spec fn spec_apply(v: SpecCMsgClientAuthorizeLocalDeviceRequest, f: SpecField) -> Result<SpecCMsgClientAuthorizeLocalDeviceRequest, WireError> {
        match f.number {
            1 => match dec_string(f.value) {
                Ok(x) => Ok(SpecCMsgClientAuthorizeLocalDeviceRequest { device_description: Some(x), ..v }),
                Err(e) => Err(e),
            },
            2 => match dec_u32(f.value) {
                Ok(x) => Ok(SpecCMsgClientAuthorizeLocalDeviceRequest { owner_account_id: Some(x), ..v }),
                Err(e) => Err(e),
            },
            3 => match dec_u64(f.value) {
                Ok(x) => Ok(SpecCMsgClientAuthorizeLocalDeviceRequest { local_device_token: Some(x), ..v }),
                Err(e) => Err(e),
            },
            _ => Ok(v),
        }
    }

    pub open spec fn apply_fn() -> spec_fn(SpecCMsgClientAuthorizeLocalDeviceRequest, SpecField) -> Result<SpecCMsgClientAuthorizeLocalDeviceRequest, WireError> {
        |v: SpecCMsgClientAuthorizeLocalDeviceRequest, f: SpecField| Self::spec_apply(v, f)
    }

    /// The message `bytes` makes of `v`: its records applied in order, or the error
    /// that stops the reading.
    pub open spec fn spec_merge(v: SpecCMsgClientAuthorizeLocalDeviceRequest, bytes: Seq<u8>) -> Result<SpecCMsgClientAuthorizeLocalDeviceRequest, WireError> {
        let (w, stop) = merge_run(v, bytes, Self::apply_fn());
        match stop {
            None => Ok(w),
            Some(e) => Err(e),
        }
    }

    #[verifier::opaque]
    pub open spec fn spec_decode(bytes: Seq<u8>) -> Result<SpecCMsgClientAuthorizeLocalDeviceRequest, WireError> {
        Self::spec_merge(Self::spec_default(), bytes)
    }

    /// This message with one record applied to it, or, when the record is refused,
    /// the message unchanged and the reason.
    fn applied(self, f: &Field) -> (r: Result<Self, (Self, WireError)>)
        ensures
            match Self::spec_apply(self@, f@) {
                Ok(v) => r matches Ok(m) && m@ == v,
                Err(e) => r matches Err((m, x)) && x == e && m@ == self@,
            },
    {
        match f.number {
            1 => match read_string(&f.value) {
                Ok(x) => Ok(Self { device_description: Some(x), ..self }),
                Err(e) => Err((self, e)),
            },
            2 => match read_u32(&f.value) {
                Ok(x) => Ok(Self { owner_account_id: Some(x), ..self }),
                Err(e) => Err((self, e)),
            },
            3 => match read_u64(&f.value) {
                Ok(x) => Ok(Self { local_device_token: Some(x), ..self }),
                Err(e) => Err((self, e)),
            },
            _ => Ok(self),
        }
    }

    /// Reads the records `bytes` holds into this message, in order. When a record does
    /// not parse or is refused, the reading stops there: the message keeps what the
    /// records before it gave, and the error is returned.
    pub fn merge(&mut self, bytes: &[u8]) -> (r: Result<(), WireError>)
        ensures
            final(self)@ == merge_run(old(self)@, bytes@, Self::apply_fn()).0,
            r == match merge_run(old(self)@, bytes@, Self::apply_fn()).1 {
                None => Ok::<(), WireError>(()),
                Some(e) => Err::<(), WireError>(e),
            },
    {
        let ghost total = merge_run(self@, bytes@, Self::apply_fn());
        let mut cur = Self::default();
        std::mem::swap(&mut cur, self);
        let mut pos: usize = 0;
        assert(bytes@.skip(0) =~= bytes@);
        while pos < bytes.len()
            invariant
                pos <= bytes@.len(),
                total == merge_run(old(self)@, bytes@, Self::apply_fn()),
                merge_run(cur@, bytes@.skip(pos as int), Self::apply_fn()) == total,
            decreases bytes@.len() - pos,
        {
            let ghost s = bytes@.skip(pos as int);
            proof {
                lemma_merge_run_step(cur@, s, Self::apply_fn());
                lemma_parse_field_len(s);
            }
            match read_field(bytes, pos) {
                Ok((f, end)) => {
                    assert(bytes@.skip(end as int) =~= s.skip((end - pos) as int));
                    match cur.applied(&f) {
                        Ok(m) => {
                            cur = m;
                        },
                        Err((m, e)) => {
                            *self = m;
                            return Err(e);
                        },
                    }
                    pos = end;
                },
                Err(e) => {
                    *self = cur;
                    return Err(e);
                },
            }
        }
        assert(bytes@.skip(pos as int) =~= Seq::<u8>::empty());
        proof {
            lemma_merge_run_empty(cur@, Self::apply_fn());
        }
        *self = cur;
        Ok(())
    }

    /// Decodes a message from its encoding.
    pub fn decode(bytes: &[u8]) -> (r: Result<Self, WireError>)
        ensures
            match Self::spec_decode(bytes@) {
                Ok(v) => r matches Ok(m) && m@ == v,
                Err(e) => r matches Err(x) && x == e,
            },
    {
        proof {
            reveal(CMsgClientAuthorizeLocalDeviceRequest::spec_decode);
        }
        let mut m = Self::default();
        match m.merge(bytes) {
            Ok(()) => Ok(m),
            Err(e) => Err(e),
        }
    }

    /// The encoding of this message.
    pub fn encode_to_vec(&self) -> (r: Vec<u8>)
        ensures
            r@ == Self::spec_encode(self@),
    {
        let ghost v = self@;
        let mut out: Vec<u8> = Vec::new();
        let ghost p0 = Seq::<SpecField>::empty();
        put_opt_string(&mut out, 1, &self.device_description);
        let ghost p1 = p0 + opt_string(1, v.device_description);
        proof {
            lemma_fields_bytes_concat(p0, opt_string(1, v.device_description));
        }
        put_opt_u32(&mut out, 2, self.owner_account_id);
        let ghost p2 = p1 + opt_u32(2, v.owner_account_id);
        proof {
            lemma_fields_bytes_concat(p1, opt_u32(2, v.owner_account_id));
        }
        put_opt_varint(&mut out, 3, self.local_device_token);
        let ghost p3 = p2 + opt_u64(3, v.local_device_token);
        proof {
            lemma_fields_bytes_concat(p2, opt_u64(3, v.local_device_token));
        }
        proof {
            reveal(CMsgClientAuthorizeLocalDeviceRequest::spec_encode);
        }
        assert(p3 == Self::spec_fields(v));
        out
    }

    /// Appends the encoding of this message to `out`.
    pub fn encode_raw(&self, out: &mut Vec<u8>)
        ensures
            final(out)@ == old(out)@ + Self::spec_encode(self@),
    {
        let mut b = self.encode_to_vec();
        out.append(&mut b);
    }

    /// The first `k` fields of `v`, the others as a fresh message has them.
    #[verifier::opaque]
    pub open spec fn spec_prefix(v: SpecCMsgClientAuthorizeLocalDeviceRequest, k: int) -> SpecCMsgClientAuthorizeLocalDeviceRequest {
        SpecCMsgClientAuthorizeLocalDeviceRequest {
            device_description: if 1 <= k { v.device_description } else { None },
            owner_account_id: if 2 <= k { v.owner_account_id } else { None },
            local_device_token: if 3 <= k { v.local_device_token } else { None },
        }
    }

    /// Reading field 1 back, after the fields before it.
    proof fn lemma_field_device_description(v: SpecCMsgClientAuthorizeLocalDeviceRequest)
        ensures
            fold_fields(Self::spec_prefix(v, 0), opt_string(1, v.device_description), Self::apply_fn())
                == Ok::<SpecCMsgClientAuthorizeLocalDeviceRequest, WireError>(Self::spec_prefix(v, 1)),
    {
        reveal(CMsgClientAuthorizeLocalDeviceRequest::spec_prefix);
        reveal(opt_string);
        let apply = Self::apply_fn();
        let s = Self::spec_prefix(v, 0);
        lemma_fold_opt(s, 1, match v.device_description { Some(x) => Some(enc_string(x)), None => None }, apply);
        if let Some(x) = v.device_description {
            lemma_string_roundtrip(x);
        }
        assert(SpecCMsgClientAuthorizeLocalDeviceRequest { device_description: v.device_description, ..s } == Self::spec_prefix(v, 1));
    }

    /// Reading field 2 back, after the fields before it.
    proof fn lemma_field_owner_account_id(v: SpecCMsgClientAuthorizeLocalDeviceRequest)
        ensures
            fold_fields(Self::spec_prefix(v, 1), opt_u32(2, v.owner_account_id), Self::apply_fn())
                == Ok::<SpecCMsgClientAuthorizeLocalDeviceRequest, WireError>(Self::spec_prefix(v, 2)),
    {
        reveal(CMsgClientAuthorizeLocalDeviceRequest::spec_prefix);
        reveal(opt_u32);
        let apply = Self::apply_fn();
        let s = Self::spec_prefix(v, 1);
        lemma_fold_opt(s, 2, match v.owner_account_id { Some(x) => Some(enc_u32(x)), None => None }, apply);
        if let Some(x) = v.owner_account_id {
            lemma_u32_roundtrip(x);
        }
        assert(SpecCMsgClientAuthorizeLocalDeviceRequest { owner_account_id: v.owner_account_id, ..s } == Self::spec_prefix(v, 2));
    }

    /// Reading field 3 back, after the fields before it.
    proof fn lemma_field_local_device_token(v: SpecCMsgClientAuthorizeLocalDeviceRequest)
        ensures
            fold_fields(Self::spec_prefix(v, 2), opt_u64(3, v.local_device_token), Self::apply_fn())
                == Ok::<SpecCMsgClientAuthorizeLocalDeviceRequest, WireError>(Self::spec_prefix(v, 3)),
    {
        reveal(CMsgClientAuthorizeLocalDeviceRequest::spec_prefix);
        reveal(opt_u64);
        let apply = Self::apply_fn();
        let s = Self::spec_prefix(v, 2);
        lemma_fold_opt(s, 3, match v.local_device_token { Some(x) => Some(enc_u64(x)), None => None }, apply);
        if let Some(x) = v.local_device_token {
            lemma_u64_roundtrip(x);
        }
        assert(SpecCMsgClientAuthorizeLocalDeviceRequest { local_device_token: v.local_device_token, ..s } == Self::spec_prefix(v, 3));
    }

    /// Whether this message declares field number `n`.
    pub open spec fn declares(n: u32) -> bool {
        n == 1 || n == 2 || n == 3
    }

    /// A record with a number this message does not declare is passed over: well-formed
    /// bytes decode to the same message with such a record after them as without it.
    pub proof fn lemma_unknown_field(bytes: Seq<u8>, f: SpecField)
        requires
            parse_fields(bytes) is Ok,
            field_wf(f),
            !Self::declares(f.number),
        ensures
            Self::spec_decode(bytes + field_bytes(f)) == Self::spec_decode(bytes),
    {
        reveal(CMsgClientAuthorizeLocalDeviceRequest::spec_decode);
        lemma_parse_fields_append(bytes, f);
        let fs = parse_fields(bytes).unwrap();
        let apply = Self::apply_fn();
        lemma_fold_concat(Self::spec_default(), fs, seq![f], apply);
        assert(fs.push(f) =~= fs + seq![f]);
        if let Ok(w) = fold_fields(Self::spec_default(), fs, apply) {
            lemma_fold_single(w, f, apply);
        }
        lemma_merge_run_fold(Self::spec_default(), bytes, apply);
        lemma_merge_run_fold(Self::spec_default(), bytes + field_bytes(f), apply);
    }

    /// Decoding the encoding of a message gives the message back.
    pub proof fn lemma_decode_encode(v: SpecCMsgClientAuthorizeLocalDeviceRequest)
        requires
            Self::spec_encode(v).len() <= u64::MAX,
        ensures
            Self::spec_decode(Self::spec_encode(v)) == Ok::<SpecCMsgClientAuthorizeLocalDeviceRequest, WireError>(v),
    {
        let apply = Self::apply_fn();
        let d = Self::spec_default();
        let p0 = Seq::<SpecField>::empty();
        let l1 = opt_string(1, v.device_description);
        let p1 = p0 + l1;
        let l2 = opt_u32(2, v.owner_account_id);
        let p2 = p1 + l2;
        let l3 = opt_u64(3, v.local_device_token);
        let p3 = p2 + l3;
        assert(parse_fields(Self::spec_encode(v)) == Ok::<Seq<SpecField>, WireError>(p3)) by {
            reveal(CMsgClientAuthorizeLocalDeviceRequest::spec_encode);
            assert(numbers_ok(p0) && fields_wf(p0)) by {
                reveal(numbers_ok);
                reveal(fields_wf);
            }
            lemma_opt_string_numbered(1, v.device_description);
            lemma_fields_wf_concat(p0, l1);
            lemma_opt_u32_numbered(2, v.owner_account_id);
            lemma_fields_wf_concat(p1, l2);
            lemma_opt_u64_numbered(3, v.local_device_token);
            lemma_fields_wf_concat(p2, l3);
            assert(p3 == Self::spec_fields(v));
            lemma_fields_wf_from_len(p3);
            lemma_fields_roundtrip(p3);
        }
        assert(Self::spec_prefix(v, 0) == d) by {
            reveal(CMsgClientAuthorizeLocalDeviceRequest::spec_prefix);
        }
        lemma_fold_empty(d, apply);
        lemma_fold_concat(d, p0, l1, apply);
        Self::lemma_field_device_description(v);
        lemma_fold_concat(d, p1, l2, apply);
        Self::lemma_field_owner_account_id(v);
        lemma_fold_concat(d, p2, l3, apply);
        Self::lemma_field_local_device_token(v);
        assert(Self::spec_prefix(v, 3) == v) by {
            reveal(CMsgClientAuthorizeLocalDeviceRequest::spec_prefix);
        }
        lemma_merge_run_fold(d, Self::spec_encode(v), apply);
        assert(Self::spec_decode(Self::spec_encode(v)) == Ok::<SpecCMsgClientAuthorizeLocalDeviceRequest, WireError>(v)) by {
            reveal(CMsgClientAuthorizeLocalDeviceRequest::spec_decode);
        }
    }
}

/// `CMsgClientAuthorizeLocalDevice`, as Valve's schema declares it.
#[derive(Debug, Clone, PartialEq)]
pub struct CMsgClientAuthorizeLocalDevice {
    /// Field 1.
    pub eresult: Option<i32>,
    /// Field 2.
    pub owner_account_id: Option<u32>,
    /// Field 3.
    pub authed_device_token: Option<u64>,
}

/// What a `CMsgClientAuthorizeLocalDevice` holds, as mathematical values.
#[verifier::ext_equal]
pub struct SpecCMsgClientAuthorizeLocalDevice {
    pub eresult: Option<i32>,
    pub owner_account_id: Option<u32>,
    pub authed_device_token: Option<u64>,
}

impl View for CMsgClientAuthorizeLocalDevice {
    type V = SpecCMsgClientAuthorizeLocalDevice;

    open spec fn view(&self) -> SpecCMsgClientAuthorizeLocalDevice {
        SpecCMsgClientAuthorizeLocalDevice {
            eresult: self.eresult,
            owner_account_id: self.owner_account_id,
            authed_device_token: self.authed_device_token,
        }
    }
}

impl Default for CMsgClientAuthorizeLocalDevice {
    fn default() -> (r: Self)
        ensures
            r@ == CMsgClientAuthorizeLocalDevice::spec_default(),
    {
        CMsgClientAuthorizeLocalDevice {
            eresult: None,
            owner_account_id: None,
            authed_device_token: None,
        }
    }
}

impl CMsgClientAuthorizeLocalDevice {
    /// Field 1, or its schema default when absent.
    pub fn eresult_or_default(&self) -> (r: i32)
        ensures
            r == match self.eresult {
                Some(x) => x,
                None => 2i32,
            },
    {
        self.eresult.unwrap_or(2i32)
    }

    pub open spec fn spec_default() -> SpecCMsgClientAuthorizeLocalDevice {
        SpecCMsgClientAuthorizeLocalDevice {
            eresult: None,
            owner_account_id: None,
            authed_device_token: None,
        }
    }

    /// The records a `CMsgClientAuthorizeLocalDevice` is written as, in field order.
    pub open spec fn spec_fields(v: SpecCMsgClientAuthorizeLocalDevice) -> Seq<SpecField> {
        Seq::<SpecField>::empty()
            + opt_i32(1, v.eresult)
            + opt_u32(2, v.owner_account_id)
            + opt_u64(3, v.authed_device_token)
    }

    #[verifier::opaque]
    pub open spec fn spec_encode(v: SpecCMsgClientAuthorizeLocalDevice) -> Seq<u8> {
        fields_bytes(Self::spec_fields(v))
    }

    /// What one record does to the message: a declared number sets or extends its
    /// field, any other number is left alone.
    pub open spec fn spec_apply(v: SpecCMsgClientAuthorizeLocalDevice, f: SpecField) -> Result<SpecCMsgClientAuthorizeLocalDevice, WireError> {
        match f.number {
            1 => match dec_i32(f.value) {
                Ok(x) => Ok(SpecCMsgClientAuthorizeLocalDevice { eresult: Some(x), ..v }),
                Err(e) => Err(e),
            },
            2 => match dec_u32(f.value) {
                Ok(x) => Ok(SpecCMsgClientAuthorizeLocalDevice { owner_account_id: Some(x), ..v }),
                Err(e) => Err(e),
            },
            3 => match dec_u64(f.value) {
                Ok(x) => Ok(SpecCMsgClientAuthorizeLocalDevice { authed_device_token: Some(x), ..v }),
                Err(e) => Err(e),
            },
            _ => Ok(v),
        }
    }

    pub open spec fn apply_fn() -> spec_fn(SpecCMsgClientAuthorizeLocalDevice, SpecField) -> Result<SpecCMsgClientAuthorizeLocalDevice, WireError> {
        |v: SpecCMsgClientAuthorizeLocalDevice, f: SpecField| Self::spec_apply(v, f)
    }

    /// The message `bytes` makes of `v`: its records applied in order, or the error
    /// that stops the reading.
    pub open spec fn spec_merge(v: SpecCMsgClientAuthorizeLocalDevice, bytes: Seq<u8>) -> Result<SpecCMsgClientAuthorizeLocalDevice, WireError> {
        let (w, stop) = merge_run(v, bytes, Self::apply_fn());
        match stop {
            None => Ok(w),
            Some(e) => Err(e),
        }
    }

    #[verifier::opaque]
    pub open spec fn spec_decode(bytes: Seq<u8>) -> Result<SpecCMsgClientAuthorizeLocalDevice, WireError> {
        Self::spec_merge(Self::spec_default(), bytes)
    }

    /// This message with one record applied to it, or, when the record is refused,
    /// the message unchanged and the reason.
    fn applied(self, f: &Field) -> (r: Result<Self, (Self, WireError)>)
        ensures
            match Self::spec_apply(self@, f@) {
                Ok(v) => r matches Ok(m) && m@ == v,
                Err(e) => r matches Err((m, x)) && x == e && m@ == self@,
            },
    {
        match f.number {
            1 => match read_i32(&f.value) {
                Ok(x) => Ok(Self { eresult: Some(x), ..self }),
                Err(e) => Err((self, e)),
            },
            2 => match read_u32(&f.value) {
                Ok(x) => Ok(Self { owner_account_id: Some(x), ..self }),
                Err(e) => Err((self, e)),
            },
            3 => match read_u64(&f.value) {
                Ok(x) => Ok(Self { authed_device_token: Some(x), ..self }),
                Err(e) => Err((self, e)),
            },
            _ => Ok(self),
        }
    }

    /// Reads the records `bytes` holds into this message, in order. When a record does
    /// not parse or is refused, the reading stops there: the message keeps what the
    /// records before it gave, and the error is returned.
    pub fn merge(&mut self, bytes: &[u8]) -> (r: Result<(), WireError>)
        ensures
            final(self)@ == merge_run(old(self)@, bytes@, Self::apply_fn()).0,
            r == match merge_run(old(self)@, bytes@, Self::apply_fn()).1 {
                None => Ok::<(), WireError>(()),
                Some(e) => Err::<(), WireError>(e),
            },
    {
        let ghost total = merge_run(self@, bytes@, Self::apply_fn());
        let mut cur = Self::default();
        std::mem::swap(&mut cur, self);
        let mut pos: usize = 0;
        assert(bytes@.skip(0) =~= bytes@);
        while pos < bytes.len()
            invariant
                pos <= bytes@.len(),
                total == merge_run(old(self)@, bytes@, Self::apply_fn()),
                merge_run(cur@, bytes@.skip(pos as int), Self::apply_fn()) == total,
            decreases bytes@.len() - pos,
        {
            let ghost s = bytes@.skip(pos as int);
            proof {
                lemma_merge_run_step(cur@, s, Self::apply_fn());
                lemma_parse_field_len(s);
            }
            match read_field(bytes, pos) {
                Ok((f, end)) => {
                    assert(bytes@.skip(end as int) =~= s.skip((end - pos) as int));
                    match cur.applied(&f) {
                        Ok(m) => {
                            cur = m;
                        },
                        Err((m, e)) => {
                            *self = m;
                            return Err(e);
                        },
                    }
                    pos = end;
                },
                Err(e) => {
                    *self = cur;
                    return Err(e);
                },
            }
        }
        assert(bytes@.skip(pos as int) =~= Seq::<u8>::empty());
        proof {
            lemma_merge_run_empty(cur@, Self::apply_fn());
        }
        *self = cur;
        Ok(())
    }

    /// Decodes a message from its encoding.
    pub fn decode(bytes: &[u8]) -> (r: Result<Self, WireError>)
        ensures
            match Self::spec_decode(bytes@) {
                Ok(v) => r matches Ok(m) && m@ == v,
                Err(e) => r matches Err(x) && x == e,
            },
    {
        proof {
            reveal(CMsgClientAuthorizeLocalDevice::spec_decode);
        }
        let mut m = Self::default();
        match m.merge(bytes) {
            Ok(()) => Ok(m),
            Err(e) => Err(e),
        }
    }

    /// The encoding of this message.
    pub fn encode_to_vec(&self) -> (r: Vec<u8>)
        ensures
            r@ == Self::spec_encode(self@),
    {
        let ghost v = self@;
        let mut out: Vec<u8> = Vec::new();
        let ghost p0 = Seq::<SpecField>::empty();
        put_opt_i32(&mut out, 1, self.eresult);
        let ghost p1 = p0 + opt_i32(1, v.eresult);
        proof {
            lemma_fields_bytes_concat(p0, opt_i32(1, v.eresult));
        }
        put_opt_u32(&mut out, 2, self.owner_account_id);
        let ghost p2 = p1 + opt_u32(2, v.owner_account_id);
        proof {
            lemma_fields_bytes_concat(p1, opt_u32(2, v.owner_account_id));
        }
        put_opt_varint(&mut out, 3, self.authed_device_token);
        let ghost p3 = p2 + opt_u64(3, v.authed_device_token);
        proof {
            lemma_fields_bytes_concat(p2, opt_u64(3, v.authed_device_token));
        }
        proof {
            reveal(CMsgClientAuthorizeLocalDevice::spec_encode);
        }
        assert(p3 == Self::spec_fields(v));
        out
    }

    /// Appends the encoding of this message to `out`.
    pub fn encode_raw(&self, out: &mut Vec<u8>)
        ensures
            final(out)@ == old(out)@ + Self::spec_encode(self@),
    {
        let mut b = self.encode_to_vec();
        out.append(&mut b);
    }

    /// The first `k` fields of `v`, the others as a fresh message has them.
    #[verifier::opaque]
    pub open spec fn spec_prefix(v: SpecCMsgClientAuthorizeLocalDevice, k: int) -> SpecCMsgClientAuthorizeLocalDevice {
        SpecCMsgClientAuthorizeLocalDevice {
            eresult: if 1 <= k { v.eresult } else { None },
            owner_account_id: if 2 <= k { v.owner_account_id } else { None },
            authed_device_token: if 3 <= k { v.authed_device_token } else { None },
        }
    }

    /// Reading field 1 back, after the fields before it.
    proof fn lemma_field_eresult(v: SpecCMsgClientAuthorizeLocalDevice)
        ensures
            fold_fields(Self::spec_prefix(v, 0), opt_i32(1, v.eresult), Self::apply_fn())
                == Ok::<SpecCMsgClientAuthorizeLocalDevice, WireError>(Self::spec_prefix(v, 1)),
    {
        reveal(CMsgClientAuthorizeLocalDevice::spec_prefix);
        reveal(opt_i32);
        let apply = Self::apply_fn();
        let s = Self::spec_prefix(v, 0);
        lemma_fold_opt(s, 1, match v.eresult { Some(x) => Some(enc_i32(x)), None => None }, apply);
        if let Some(x) = v.eresult {
            lemma_i32_roundtrip(x);
        }
        assert(SpecCMsgClientAuthorizeLocalDevice { eresult: v.eresult, ..s } == Self::spec_prefix(v, 1));
    }

    /// Reading field 2 back, after the fields before it.
    proof fn lemma_field_owner_account_id(v: SpecCMsgClientAuthorizeLocalDevice)
        ensures
            fold_fields(Self::spec_prefix(v, 1), opt_u32(2, v.owner_account_id), Self::apply_fn())
                == Ok::<SpecCMsgClientAuthorizeLocalDevice, WireError>(Self::spec_prefix(v, 2)),
    {
        reveal(CMsgClientAuthorizeLocalDevice::spec_prefix);
        reveal(opt_u32);
        let apply = Self::apply_fn();
        let s = Self::spec_prefix(v, 1);
        lemma_fold_opt(s, 2, match v.owner_account_id { Some(x) => Some(enc_u32(x)), None => None }, apply);
        if let Some(x) = v.owner_account_id {
            lemma_u32_roundtrip(x);
        }
        assert(SpecCMsgClientAuthorizeLocalDevice { owner_account_id: v.owner_account_id, ..s } == Self::spec_prefix(v, 2));
    }

    /// Reading field 3 back, after the fields before it.
    proof fn lemma_field_authed_device_token(v: SpecCMsgClientAuthorizeLocalDevice)
        ensures
            fold_fields(Self::spec_prefix(v, 2), opt_u64(3, v.authed_device_token), Self::apply_fn())
                == Ok::<SpecCMsgClientAuthorizeLocalDevice, WireError>(Self::spec_prefix(v, 3)),
    {
        reveal(CMsgClientAuthorizeLocalDevice::spec_prefix);
        reveal(opt_u64);
        let apply = Self::apply_fn();
        let s = Self::spec_prefix(v, 2);
        lemma_fold_opt(s, 3, match v.authed_device_token { Some(x) => Some(enc_u64(x)), None => None }, apply);
        if let Some(x) = v.authed_device_token {
            lemma_u64_roundtrip(x);
        }
        assert(SpecCMsgClientAuthorizeLocalDevice { authed_device_token: v.authed_device_token, ..s } == Self::spec_prefix(v, 3));
    }

    /// Whether this message declares field number `n`.
    pub open spec fn declares(n: u32) -> bool {
        n == 1 || n == 2 || n == 3
    }

    /// A record with a number this message does not declare is passed over: well-formed
    /// bytes decode to the same message with such a record after them as without it.
    pub proof fn lemma_unknown_field(bytes: Seq<u8>, f: SpecField)
        requires
            parse_fields(bytes) is Ok,
            field_wf(f),
            !Self::declares(f.number),
        ensures
            Self::spec_decode(bytes + field_bytes(f)) == Self::spec_decode(bytes),
    {
        reveal(CMsgClientAuthorizeLocalDevice::spec_decode);
        lemma_parse_fields_append(bytes, f);
        let fs = parse_fields(bytes).unwrap();
        let apply = Self::apply_fn();
        lemma_fold_concat(Self::spec_default(), fs, seq![f], apply);
        assert(fs.push(f) =~= fs + seq![f]);
        if let Ok(w) = fold_fields(Self::spec_default(), fs, apply) {
            lemma_fold_single(w, f, apply);
        }
        lemma_merge_run_fold(Self::spec_default(), bytes, apply);
        lemma_merge_run_fold(Self::spec_default(), bytes + field_bytes(f), apply);
    }

    /// Decoding the encoding of a message gives the message back.
    pub proof fn lemma_decode_encode(v: SpecCMsgClientAuthorizeLocalDevice)
        requires
            Self::spec_encode(v).len() <= u64::MAX,
        ensures
            Self::spec_decode(Self::spec_encode(v)) == Ok::<SpecCMsgClientAuthorizeLocalDevice, WireError>(v),
    {
        let apply = Self::apply_fn();
        let d = Self::spec_default();
        let p0 = Seq::<SpecField>::empty();
        let l1 = opt_i32(1, v.eresult);
        let p1 = p0 + l1;
        let l2 = opt_u32(2, v.owner_account_id);
        let p2 = p1 + l2;
        let l3 = opt_u64(3, v.authed_device_token);
        let p3 = p2 + l3;
        assert(parse_fields(Self::spec_encode(v)) == Ok::<Seq<SpecField>, WireError>(p3)) by {
            reveal(CMsgClientAuthorizeLocalDevice::spec_encode);
            assert(numbers_ok(p0) && fields_wf(p0)) by {
                reveal(numbers_ok);
                reveal(fields_wf);
            }
            lemma_opt_i32_numbered(1, v.eresult);
            lemma_fields_wf_concat(p0, l1);
            lemma_opt_u32_numbered(2, v.owner_account_id);
            lemma_fields_wf_concat(p1, l2);
            lemma_opt_u64_numbered(3, v.authed_device_token);
            lemma_fields_wf_concat(p2, l3);
            assert(p3 == Self::spec_fields(v));
            lemma_fields_wf_from_len(p3);
            lemma_fields_roundtrip(p3);
        }
        assert(Self::spec_prefix(v, 0) == d) by {
            reveal(CMsgClientAuthorizeLocalDevice::spec_prefix);
        }
        lemma_fold_empty(d, apply);
        lemma_fold_concat(d, p0, l1, apply);
        Self::lemma_field_eresult(v);
        lemma_fold_concat(d, p1, l2, apply);
        Self::lemma_field_owner_account_id(v);
        lemma_fold_concat(d, p2, l3, apply);
        Self::lemma_field_authed_device_token(v);
        assert(Self::spec_prefix(v, 3) == v) by {
            reveal(CMsgClientAuthorizeLocalDevice::spec_prefix);
        }
        lemma_merge_run_fold(d, Self::spec_encode(v), apply);
        assert(Self::spec_decode(Self::spec_encode(v)) == Ok::<SpecCMsgClientAuthorizeLocalDevice, WireError>(v)) by {
            reveal(CMsgClientAuthorizeLocalDevice::spec_decode);
        }
    }
}

/// `CMsgClientAuthorizeLocalDeviceNotification`, as Valve's schema declares it.
#[derive(Debug, Clone, PartialEq)]
pub struct CMsgClientAuthorizeLocalDeviceNotification {
    /// Field 1.
    pub eresult: Option<i32>,
    /// Field 2.
    pub owner_account_id: Option<u32>,
    /// Field 3.
    pub local_device_token: Option<u64>,
}

/// What a `CMsgClientAuthorizeLocalDeviceNotification` holds, as mathematical values.
#[verifier::ext_equal]
pub struct SpecCMsgClientAuthorizeLocalDeviceNotification {
    pub eresult: Option<i32>,
    pub owner_account_id: Option<u32>,
    pub local_device_token: Option<u64>,
}

impl View for CMsgClientAuthorizeLocalDeviceNotification {
    type V = SpecCMsgClientAuthorizeLocalDeviceNotification;

    open spec fn view(&self) -> SpecCMsgClientAuthorizeLocalDeviceNotification {
        SpecCMsgClientAuthorizeLocalDeviceNotification {
            eresult: self.eresult,
            owner_account_id: self.owner_account_id,
            local_device_token: self.local_device_token,
        }
    }
}

impl Default for CMsgClientAuthorizeLocalDeviceNotification {
    fn default() -> (r: Self)
        ensures
            r@ == CMsgClientAuthorizeLocalDeviceNotification::spec_default(),
    {
        CMsgClientAuthorizeLocalDeviceNotification {
            eresult: None,
            owner_account_id: None,
            local_device_token: None,
        }
    }
}

impl CMsgClientAuthorizeLocalDeviceNotification {
    /// Field 1, or its schema default when absent.
    pub fn eresult_or_default(&self) -> (r: i32)
        ensures
            r == match self.eresult {
                Some(x) => x,
                None => 2i32,
            },
    {
        self.eresult.unwrap_or(2i32)
    }

    pub open spec fn spec_default() -> SpecCMsgClientAuthorizeLocalDeviceNotification {
        SpecCMsgClientAuthorizeLocalDeviceNotification {
            eresult: None,
            owner_account_id: None,
            local_device_token: None,
        }
    }

    /// The records a `CMsgClientAuthorizeLocalDeviceNotification` is written as, in field order.
    pub open spec fn spec_fields(v: SpecCMsgClientAuthorizeLocalDeviceNotification) -> Seq<SpecField> {
        Seq::<SpecField>::empty()
            + opt_i32(1, v.eresult)
            + opt_u32(2, v.owner_account_id)
            + opt_u64(3, v.local_device_token)
    }

    #[verifier::opaque]
    pub open spec fn spec_encode(v: SpecCMsgClientAuthorizeLocalDeviceNotification) -> Seq<u8> {
        fields_bytes(Self::spec_fields(v))
    }

    /// What one record does to the message: a declared number sets or extends its
    /// field, any other number is left alone.
    pub open spec fn spec_apply(v: SpecCMsgClientAuthorizeLocalDeviceNotification, f: SpecField) -> Result<SpecCMsgClientAuthorizeLocalDeviceNotification, WireError> {
        match f.number {
            1 => match dec_i32(f.value) {
                Ok(x) => Ok(SpecCMsgClientAuthorizeLocalDeviceNotification { eresult: Some(x), ..v }),
                Err(e) => Err(e),
            },
            2 => match dec_u32(f.value) {
                Ok(x) => Ok(SpecCMsgClientAuthorizeLocalDeviceNotification { owner_account_id: Some(x), ..v }),
                Err(e) => Err(e),
            },
            3 => match dec_u64(f.value) {
                Ok(x) => Ok(SpecCMsgClientAuthorizeLocalDeviceNotification { local_device_token: Some(x), ..v }),
                Err(e) => Err(e),
            },
            _ => Ok(v),
        }
    }

    pub open spec fn apply_fn() -> spec_fn(SpecCMsgClientAuthorizeLocalDeviceNotification, SpecField) -> Result<SpecCMsgClientAuthorizeLocalDeviceNotification, WireError> {
        |v: SpecCMsgClientAuthorizeLocalDeviceNotification, f: SpecField| Self::spec_apply(v, f)
    }

    /// The message `bytes` makes of `v`: its records applied in order, or the error
    /// that stops the reading.
    pub open spec fn spec_merge(v: SpecCMsgClientAuthorizeLocalDeviceNotification, bytes: Seq<u8>) -> Result<SpecCMsgClientAuthorizeLocalDeviceNotification, WireError> {
        let (w, stop) = merge_run(v, bytes, Self::apply_fn());
        match stop {
            None => Ok(w),
            Some(e) => Err(e),
        }
    }

    #[verifier::opaque]
    pub open spec fn spec_decode(bytes: Seq<u8>) -> Result<SpecCMsgClientAuthorizeLocalDeviceNotification, WireError> {
        Self::spec_merge(Self::spec_default(), bytes)
    }

    /// This message with one record applied to it, or, when the record is refused,
    /// the message unchanged and the reason.
    fn applied(self, f: &Field) -> (r: Result<Self, (Self, WireError)>)
        ensures
            match Self::spec_apply(self@, f@) {
                Ok(v) => r matches Ok(m) && m@ == v,
                Err(e) => r matches Err((m, x)) && x == e && m@ == self@,
            },
    {
        match f.number {
            1 => match read_i32(&f.value) {
                Ok(x) => Ok(Self { eresult: Some(x), ..self }),
                Err(e) => Err((self, e)),
            },
            2 => match read_u32(&f.value) {
                Ok(x) => Ok(Self { owner_account_id: Some(x), ..self }),
                Err(e) => Err((self, e)),
            },
            3 => match read_u64(&f.value) {
                Ok(x) => Ok(Self { local_device_token: Some(x), ..self }),
                Err(e) => Err((self, e)),
            },
            _ => Ok(self),
        }
    }

    /// Reads the records `bytes` holds into this message, in order. When a record does
    /// not parse or is refused, the reading stops there: the message keeps what the
    /// records before it gave, and the error is returned.
    pub fn merge(&mut self, bytes: &[u8]) -> (r: Result<(), WireError>)
        ensures
            final(self)@ == merge_run(old(self)@, bytes@, Self::apply_fn()).0,
            r == match merge_run(old(self)@, bytes@, Self::apply_fn()).1 {
                None => Ok::<(), WireError>(()),
                Some(e) => Err::<(), WireError>(e),
            },
    {
        let ghost total = merge_run(self@, bytes@, Self::apply_fn());
        let mut cur = Self::default();
        std::mem::swap(&mut cur, self);
        let mut pos: usize = 0;
        assert(bytes@.skip(0) =~= bytes@);
        while pos < bytes.len()
            invariant
                pos <= bytes@.len(),
                total == merge_run(old(self)@, bytes@, Self::apply_fn()),
                merge_run(cur@, bytes@.skip(pos as int), Self::apply_fn()) == total,
            decreases bytes@.len() - pos,
        {
            let ghost s = bytes@.skip(pos as int);
            proof {
                lemma_merge_run_step(cur@, s, Self::apply_fn());
                lemma_parse_field_len(s);
            }
            match read_field(bytes, pos) {
                Ok((f, end)) => {
                    assert(bytes@.skip(end as int) =~= s.skip((end - pos) as int));
                    match cur.applied(&f) {
                        Ok(m) => {
                            cur = m;
                        },
                        Err((m, e)) => {
                            *self = m;
                            return Err(e);
                        },
                    }
                    pos = end;
                },
                Err(e) => {
                    *self = cur;
                    return Err(e);
                },
            }
        }
        assert(bytes@.skip(pos as int) =~= Seq::<u8>::empty());
        proof {
            lemma_merge_run_empty(cur@, Self::apply_fn());
        }
        *self = cur;
        Ok(())
    }

    /// Decodes a message from its encoding.
    pub fn decode(bytes: &[u8]) -> (r: Result<Self, WireError>)
        ensures
            match Self::spec_decode(bytes@) {
                Ok(v) => r matches Ok(m) && m@ == v,
                Err(e) => r matches Err(x) && x == e,
            },
    {
        proof {
            reveal(CMsgClientAuthorizeLocalDeviceNotification::spec_decode);
        }
        let mut m = Self::default();
        match m.merge(bytes) {
            Ok(()) => Ok(m),
            Err(e) => Err(e),
        }
    }

    /// The encoding of this message.
    pub fn encode_to_vec(&self) -> (r: Vec<u8>)
        ensures
            r@ == Self::spec_encode(self@),
    {
        let ghost v = self@;
        let mut out: Vec<u8> = Vec::new();
        let ghost p0 = Seq::<SpecField>::empty();
        put_opt_i32(&mut out, 1, self.eresult);
        let ghost p1 = p0 + opt_i32(1, v.eresult);
        proof {
            lemma_fields_bytes_concat(p0, opt_i32(1, v.eresult));
        }
        put_opt_u32(&mut out, 2, self.owner_account_id);
        let ghost p2 = p1 + opt_u32(2, v.owner_account_id);
        proof {
            lemma_fields_bytes_concat(p1, opt_u32(2, v.owner_account_id));
        }
        put_opt_varint(&mut out, 3, self.local_device_token);
        let ghost p3 = p2 + opt_u64(3, v.local_device_token);
        proof {
            lemma_fields_bytes_concat(p2, opt_u64(3, v.local_device_token));
        }
        proof {
            reveal(CMsgClientAuthorizeLocalDeviceNotification::spec_encode);
        }
        assert(p3 == Self::spec_fields(v));
        out
    }

    /// Appends the encoding of this message to `out`.
    pub fn encode_raw(&self, out: &mut Vec<u8>)
        ensures
            final(out)@ == old(out)@ + Self::spec_encode(self@),
    {
        let mut b = self.encode_to_vec();
        out.append(&mut b);
    }

    /// The first `k` fields of `v`, the others as a fresh message has them.
    #[verifier::opaque]
    pub open spec fn spec_prefix(v: SpecCMsgClientAuthorizeLocalDeviceNotification, k: int) -> SpecCMsgClientAuthorizeLocalDeviceNotification {
        SpecCMsgClientAuthorizeLocalDeviceNotification {
            eresult: if 1 <= k { v.eresult } else { None },
            owner_account_id: if 2 <= k { v.owner_account_id } else { None },
            local_device_token: if 3 <= k { v.local_device_token } else { None },
        }
    }

    /// Reading field 1 back, after the fields before it.
    proof fn lemma_field_eresult(v: SpecCMsgClientAuthorizeLocalDeviceNotification)
        ensures
            fold_fields(Self::spec_prefix(v, 0), opt_i32(1, v.eresult), Self::apply_fn())
                == Ok::<SpecCMsgClientAuthorizeLocalDeviceNotification, WireError>(Self::spec_prefix(v, 1)),
    {
        reveal(CMsgClientAuthorizeLocalDeviceNotification::spec_prefix);
        reveal(opt_i32);
        let apply = Self::apply_fn();
        let s = Self::spec_prefix(v, 0);
        lemma_fold_opt(s, 1, match v.eresult { Some(x) => Some(enc_i32(x)), None => None }, apply);
        if let Some(x) = v.eresult {
            lemma_i32_roundtrip(x);
        }
        assert(SpecCMsgClientAuthorizeLocalDeviceNotification { eresult: v.eresult, ..s } == Self::spec_prefix(v, 1));
    }

    /// Reading field 2 back, after the fields before it.
    proof fn lemma_field_owner_account_id(v: SpecCMsgClientAuthorizeLocalDeviceNotification)
        ensures
            fold_fields(Self::spec_prefix(v, 1), opt_u32(2, v.owner_account_id), Self::apply_fn())
                == Ok::<SpecCMsgClientAuthorizeLocalDeviceNotification, WireError>(Self::spec_prefix(v, 2)),
    {
        reveal(CMsgClientAuthorizeLocalDeviceNotification::spec_prefix);
        reveal(opt_u32);
        let apply = Self::apply_fn();
        let s = Self::spec_prefix(v, 1);
        lemma_fold_opt(s, 2, match v.owner_account_id { Some(x) => Some(enc_u32(x)), None => None }, apply);
        if let Some(x) = v.owner_account_id {
            lemma_u32_roundtrip(x);
        }
        assert(SpecCMsgClientAuthorizeLocalDeviceNotification { owner_account_id: v.owner_account_id, ..s } == Self::spec_prefix(v, 2));
    }

    /// Reading field 3 back, after the fields before it.
    proof fn lemma_field_local_device_token(v: SpecCMsgClientAuthorizeLocalDeviceNotification)
        ensures
            fold_fields(Self::spec_prefix(v, 2), opt_u64(3, v.local_device_token), Self::apply_fn())
                == Ok::<SpecCMsgClientAuthorizeLocalDeviceNotification, WireError>(Self::spec_prefix(v, 3)),
    {
        reveal(CMsgClientAuthorizeLocalDeviceNotification::spec_prefix);
        reveal(opt_u64);
        let apply = Self::apply_fn();
        let s = Self::spec_prefix(v, 2);
        lemma_fold_opt(s, 3, match v.local_device_token { Some(x) => Some(enc_u64(x)), None => None }, apply);
        if let Some(x) = v.local_device_token {
            lemma_u64_roundtrip(x);
        }
        assert(SpecCMsgClientAuthorizeLocalDeviceNotification { local_device_token: v.local_device_token, ..s } == Self::spec_prefix(v, 3));
    }

    /// Whether this message declares field number `n`.
    pub open spec fn declares(n: u32) -> bool {
        n == 1 || n == 2 || n == 3
    }

    /// A record with a number this message does not declare is passed over: well-formed
    /// bytes decode to the same message with such a record after them as without it.
    pub proof fn lemma_unknown_field(bytes: Seq<u8>, f: SpecField)
        requires
            parse_fields(bytes) is Ok,
            field_wf(f),
            !Self::declares(f.number),
        ensures
            Self::spec_decode(bytes + field_bytes(f)) == Self::spec_decode(bytes),
    {
        reveal(CMsgClientAuthorizeLocalDeviceNotification::spec_decode);
        lemma_parse_fields_append(bytes, f);
        let fs = parse_fields(bytes).unwrap();
        let apply = Self::apply_fn();
        lemma_fold_concat(Self::spec_default(), fs, seq![f], apply);
        assert(fs.push(f) =~= fs + seq![f]);
        if let Ok(w) = fold_fields(Self::spec_default(), fs, apply) {
            lemma_fold_single(w, f, apply);
        }
        lemma_merge_run_fold(Self::spec_default(), bytes, apply);
        lemma_merge_run_fold(Self::spec_default(), bytes + field_bytes(f), apply);
    }

    /// Decoding the encoding of a message gives the message back.
    pub proof fn lemma_decode_encode(v: SpecCMsgClientAuthorizeLocalDeviceNotification)
        requires
            Self::spec_encode(v).len() <= u64::MAX,
        ensures
            Self::spec_decode(Self::spec_encode(v)) == Ok::<SpecCMsgClientAuthorizeLocalDeviceNotification, WireError>(v),
    {
        let apply = Self::apply_fn();
        let d = Self::spec_default();
        let p0 = Seq::<SpecField>::empty();
        let l1 = opt_i32(1, v.eresult);
        let p1 = p0 + l1;
        let l2 = opt_u32(2, v.owner_account_id);
        let p2 = p1 + l2;
        let l3 = opt_u64(3, v.local_device_token);
        let p3 = p2 + l3;
        assert(parse_fields(Self::spec_encode(v)) == Ok::<Seq<SpecField>, WireError>(p3)) by {
            reveal(CMsgClientAuthorizeLocalDeviceNotification::spec_encode);
            assert(numbers_ok(p0) && fields_wf(p0)) by {
                reveal(numbers_ok);
                reveal(fields_wf);
            }
            lemma_opt_i32_numbered(1, v.eresult);
            lemma_fields_wf_concat(p0, l1);
            lemma_opt_u32_numbered(2, v.owner_account_id);
            lemma_fields_wf_concat(p1, l2);
            lemma_opt_u64_numbered(3, v.local_device_token);
            lemma_fields_wf_concat(p2, l3);
            assert(p3 == Self::spec_fields(v));
            lemma_fields_wf_from_len(p3);
            lemma_fields_roundtrip(p3);
        }
        assert(Self::spec_prefix(v, 0) == d) by {
            reveal(CMsgClientAuthorizeLocalDeviceNotification::spec_prefix);
        }
        lemma_fold_empty(d, apply);
        lemma_fold_concat(d, p0, l1, apply);
        Self::lemma_field_eresult(v);
        lemma_fold_concat(d, p1, l2, apply);
        Self::lemma_field_owner_account_id(v);
        lemma_fold_concat(d, p2, l3, apply);
        Self::lemma_field_local_device_token(v);
        assert(Self::spec_prefix(v, 3) == v) by {
            reveal(CMsgClientAuthorizeLocalDeviceNotification::spec_prefix);
        }
        lemma_merge_run_fold(d, Self::spec_encode(v), apply);
        assert(Self::spec_decode(Self::spec_encode(v)) == Ok::<SpecCMsgClientAuthorizeLocalDeviceNotification, WireError>(v)) by {
            reveal(CMsgClientAuthorizeLocalDeviceNotification::spec_decode);
        }
    }
}

/// `CMsgClientDeauthorizeDeviceRequest`, as Valve's schema declares it.
#[derive(Debug, Clone, PartialEq)]
pub struct CMsgClientDeauthorizeDeviceRequest {
    /// Field 1.
    pub deauthorization_account_id: Option<u32>,
    /// Field 2.
    pub deauthorization_device_token: Option<u64>,
}

/// What a `CMsgClientDeauthorizeDeviceRequest` holds, as mathematical values.
#[verifier::ext_equal]
pub struct SpecCMsgClientDeauthorizeDeviceRequest {
    pub deauthorization_account_id: Option<u32>,
    pub deauthorization_device_token: Option<u64>,
}

impl View for CMsgClientDeauthorizeDeviceRequest {
    type V = SpecCMsgClientDeauthorizeDeviceRequest;

    open spec fn view(&self) -> SpecCMsgClientDeauthorizeDeviceRequest {
        SpecCMsgClientDeauthorizeDeviceRequest {
            deauthorization_account_id: self.deauthorization_account_id,
            deauthorization_device_token: self.deauthorization_device_token,
        }
    }
}

impl Default for CMsgClientDeauthorizeDeviceRequest {
    fn default() -> (r: Self)
        ensures
            r@ == CMsgClientDeauthorizeDeviceRequest::spec_default(),
    {
        CMsgClientDeauthorizeDeviceRequest {
            deauthorization_account_id: None,
            deauthorization_device_token: None,
        }
    }
}

impl CMsgClientDeauthorizeDeviceRequest {
    pub open spec fn spec_default() -> SpecCMsgClientDeauthorizeDeviceRequest {
        SpecCMsgClientDeauthorizeDeviceRequest {
            deauthorization_account_id: None,
            deauthorization_device_token: None,
        }
    }

    /// The records a `CMsgClientDeauthorizeDeviceRequest` is written as, in field order.
    pub open spec fn spec_fields(v: SpecCMsgClientDeauthorizeDeviceRequest) -> Seq<SpecField> {
        Seq::<SpecField>::empty()
            + opt_u32(1, v.deauthorization_account_id)
            + opt_u64(2, v.deauthorization_device_token)
    }

    #[verifier::opaque]
    pub open spec fn spec_encode(v: SpecCMsgClientDeauthorizeDeviceRequest) -> Seq<u8> {
        fields_bytes(Self::spec_fields(v))
    }

    /// What one record does to the message: a declared number sets or extends its
    /// field, any other number is left alone.
    pub open spec fn spec_apply(v: SpecCMsgClientDeauthorizeDeviceRequest, f: SpecField) -> Result<SpecCMsgClientDeauthorizeDeviceRequest, WireError> {
        match f.number {
            1 => match dec_u32(f.value) {
                Ok(x) => Ok(SpecCMsgClientDeauthorizeDeviceRequest { deauthorization_account_id: Some(x), ..v }),
                Err(e) => Err(e),
            },
            2 => match dec_u64(f.value) {
                Ok(x) => Ok(SpecCMsgClientDeauthorizeDeviceRequest { deauthorization_device_token: Some(x), ..v }),
                Err(e) => Err(e),
            },
            _ => Ok(v),
        }
    }

    pub open spec fn apply_fn() -> spec_fn(SpecCMsgClientDeauthorizeDeviceRequest, SpecField) -> Result<SpecCMsgClientDeauthorizeDeviceRequest, WireError> {
        |v: SpecCMsgClientDeauthorizeDeviceRequest, f: SpecField| Self::spec_apply(v, f)
    }

    /// The message `bytes` makes of `v`: its records applied in order, or the error
    /// that stops the reading.
    pub open spec fn spec_merge(v: SpecCMsgClientDeauthorizeDeviceRequest, bytes: Seq<u8>) -> Result<SpecCMsgClientDeauthorizeDeviceRequest, WireError> {
        let (w, stop) = merge_run(v, bytes, Self::apply_fn());
        match stop {
            None => Ok(w),
            Some(e) => Err(e),
        }
    }

    #[verifier::opaque]
    pub open spec fn spec_decode(bytes: Seq<u8>) -> Result<SpecCMsgClientDeauthorizeDeviceRequest, WireError> {
        Self::spec_merge(Self::spec_default(), bytes)
    }

    /// This message with one record applied to it, or, when the record is refused,
    /// the message unchanged and the reason.
    fn applied(self, f: &Field) -> (r: Result<Self, (Self, WireError)>)
        ensures
            match Self::spec_apply(self@, f@) {
                Ok(v) => r matches Ok(m) && m@ == v,
                Err(e) => r matches Err((m, x)) && x == e && m@ == self@,
            },
    {
        match f.number {
            1 => match read_u32(&f.value) {
                Ok(x) => Ok(Self { deauthorization_account_id: Some(x), ..self }),
                Err(e) => Err((self, e)),
            },
            2 => match read_u64(&f.value) {
                Ok(x) => Ok(Self { deauthorization_device_token: Some(x), ..self }),
                Err(e) => Err((self, e)),
            },
            _ => Ok(self),
        }
    }

    /// Reads the records `bytes` holds into this message, in order. When a record does
    /// not parse or is refused, the reading stops there: the message keeps what the
    /// records before it gave, and the error is returned.
    pub fn merge(&mut self, bytes: &[u8]) -> (r: Result<(), WireError>)
        ensures
            final(self)@ == merge_run(old(self)@, bytes@, Self::apply_fn()).0,
            r == match merge_run(old(self)@, bytes@, Self::apply_fn()).1 {
                None => Ok::<(), WireError>(()),
                Some(e) => Err::<(), WireError>(e),
            },
    {
        let ghost total = merge_run(self@, bytes@, Self::apply_fn());
        let mut cur = Self::default();
        std::mem::swap(&mut cur, self);
        let mut pos: usize = 0;
        assert(bytes@.skip(0) =~= bytes@);
        while pos < bytes.len()
            invariant
                pos <= bytes@.len(),
                total == merge_run(old(self)@, bytes@, Self::apply_fn()),
                merge_run(cur@, bytes@.skip(pos as int), Self::apply_fn()) == total,
            decreases bytes@.len() - pos,
        {
            let ghost s = bytes@.skip(pos as int);
            proof {
                lemma_merge_run_step(cur@, s, Self::apply_fn());
                lemma_parse_field_len(s);
            }
            match read_field(bytes, pos) {
                Ok((f, end)) => {
                    assert(bytes@.skip(end as int) =~= s.skip((end - pos) as int));
                    match cur.applied(&f) {
                        Ok(m) => {
                            cur = m;
                        },
                        Err((m, e)) => {
                            *self = m;
                            return Err(e);
                        },
                    }
                    pos = end;
                },
                Err(e) => {
                    *self = cur;
                    return Err(e);
                },
            }
        }
        assert(bytes@.skip(pos as int) =~= Seq::<u8>::empty());
        proof {
            lemma_merge_run_empty(cur@, Self::apply_fn());
        }
        *self = cur;
        Ok(())
    }

    /// Decodes a message from its encoding.
    pub fn decode(bytes: &[u8]) -> (r: Result<Self, WireError>)
        ensures
            match Self::spec_decode(bytes@) {
                Ok(v) => r matches Ok(m) && m@ == v,
                Err(e) => r matches Err(x) && x == e,
            },
    {
        proof {
            reveal(CMsgClientDeauthorizeDeviceRequest::spec_decode);
        }
        let mut m = Self::default();
        match m.merge(bytes) {
            Ok(()) => Ok(m),
            Err(e) => Err(e),
        }
    }

    /// The encoding of this message.
    pub fn encode_to_vec(&self) -> (r: Vec<u8>)
        ensures
            r@ == Self::spec_encode(self@),
    {
        let ghost v = self@;
        let mut out: Vec<u8> = Vec::new();
        let ghost p0 = Seq::<SpecField>::empty();
        put_opt_u32(&mut out, 1, self.deauthorization_account_id);
        let ghost p1 = p0 + opt_u32(1, v.deauthorization_account_id);
        proof {
            lemma_fields_bytes_concat(p0, opt_u32(1, v.deauthorization_account_id));
        }
        put_opt_varint(&mut out, 2, self.deauthorization_device_token);
        let ghost p2 = p1 + opt_u64(2, v.deauthorization_device_token);
        proof {
            lemma_fields_bytes_concat(p1, opt_u64(2, v.deauthorization_device_token));
        }
        proof {
            reveal(CMsgClientDeauthorizeDeviceRequest::spec_encode);
        }
        assert(p2 == Self::spec_fields(v));
        out
    }

    /// Appends the encoding of this message to `out`.
    pub fn encode_raw(&self, out: &mut Vec<u8>)
        ensures
            final(out)@ == old(out)@ + Self::spec_encode(self@),
    {
        let mut b = self.encode_to_vec();
        out.append(&mut b);
    }

    /// The first `k` fields of `v`, the others as a fresh message has them.
    #[verifier::opaque]
    pub open spec fn spec_prefix(v: SpecCMsgClientDeauthorizeDeviceRequest, k: int) -> SpecCMsgClientDeauthorizeDeviceRequest {
        SpecCMsgClientDeauthorizeDeviceRequest {
            deauthorization_account_id: if 1 <= k { v.deauthorization_account_id } else { None },
            deauthorization_device_token: if 2 <= k { v.deauthorization_device_token } else { None },
        }
    }

    /// Reading field 1 back, after the fields before it.
    proof fn lemma_field_deauthorization_account_id(v: SpecCMsgClientDeauthorizeDeviceRequest)
        ensures
            fold_fields(Self::spec_prefix(v, 0), opt_u32(1, v.deauthorization_account_id), Self::apply_fn())
                == Ok::<SpecCMsgClientDeauthorizeDeviceRequest, WireError>(Self::spec_prefix(v, 1)),
    {
        reveal(CMsgClientDeauthorizeDeviceRequest::spec_prefix);
        reveal(opt_u32);
        let apply = Self::apply_fn();
        let s = Self::spec_prefix(v, 0);
        lemma_fold_opt(s, 1, match v.deauthorization_account_id { Some(x) => Some(enc_u32(x)), None => None }, apply);
        if let Some(x) = v.deauthorization_account_id {
            lemma_u32_roundtrip(x);
        }
        assert(SpecCMsgClientDeauthorizeDeviceRequest { deauthorization_account_id: v.deauthorization_account_id, ..s } == Self::spec_prefix(v, 1));
    }

    /// Reading field 2 back, after the fields before it.
    proof fn lemma_field_deauthorization_device_token(v: SpecCMsgClientDeauthorizeDeviceRequest)
        ensures
            fold_fields(Self::spec_prefix(v, 1), opt_u64(2, v.deauthorization_device_token), Self::apply_fn())
                == Ok::<SpecCMsgClientDeauthorizeDeviceRequest, WireError>(Self::spec_prefix(v, 2)),
    {
        reveal(CMsgClientDeauthorizeDeviceRequest::spec_prefix);
        reveal(opt_u64);
        let apply = Self::apply_fn();
        let s = Self::spec_prefix(v, 1);
        lemma_fold_opt(s, 2, match v.deauthorization_device_token { Some(x) => Some(enc_u64(x)), None => None }, apply);
        if let Some(x) = v.deauthorization_device_token {
            lemma_u64_roundtrip(x);
        }
        assert(SpecCMsgClientDeauthorizeDeviceRequest { deauthorization_device_token: v.deauthorization_device_token, ..s } == Self::spec_prefix(v, 2));
    }

    /// Whether this message declares field number `n`.
    pub open spec fn declares(n: u32) -> bool {
        n == 1 || n == 2
    }

    /// A record with a number this message does not declare is passed over: well-formed
    /// bytes decode to the same message with such a record after them as without it.
    pub proof fn lemma_unknown_field(bytes: Seq<u8>, f: SpecField)
        requires
            parse_fields(bytes) is Ok,
            field_wf(f),
            !Self::declares(f.number),
        ensures
            Self::spec_decode(bytes + field_bytes(f)) == Self::spec_decode(bytes),
    {
        reveal(CMsgClientDeauthorizeDeviceRequest::spec_decode);
        lemma_parse_fields_append(bytes, f);
        let fs = parse_fields(bytes).unwrap();
        let apply = Self::apply_fn();
        lemma_fold_concat(Self::spec_default(), fs, seq![f], apply);
        assert(fs.push(f) =~= fs + seq![f]);
        if let Ok(w) = fold_fields(Self::spec_default(), fs, apply) {
            lemma_fold_single(w, f, apply);
        }
        lemma_merge_run_fold(Self::spec_default(), bytes, apply);
        lemma_merge_run_fold(Self::spec_default(), bytes + field_bytes(f), apply);
    }

    /// Decoding the encoding of a message gives the message back.
    pub proof fn lemma_decode_encode(v: SpecCMsgClientDeauthorizeDeviceRequest)
        requires
            Self::spec_encode(v).len() <= u64::MAX,
        ensures
            Self::spec_decode(Self::spec_encode(v)) == Ok::<SpecCMsgClientDeauthorizeDeviceRequest, WireError>(v),
    {
        let apply = Self::apply_fn();
        let d = Self::spec_default();
        let p0 = Seq::<SpecField>::empty();
        let l1 = opt_u32(1, v.deauthorization_account_id);
        let p1 = p0 + l1;
        let l2 = opt_u64(2, v.deauthorization_device_token);
        let p2 = p1 + l2;
        assert(parse_fields(Self::spec_encode(v)) == Ok::<Seq<SpecField>, WireError>(p2)) by {
            reveal(CMsgClientDeauthorizeDeviceRequest::spec_encode);
            assert(numbers_ok(p0) && fields_wf(p0)) by {
                reveal(numbers_ok);
                reveal(fields_wf);
            }
            lemma_opt_u32_numbered(1, v.deauthorization_account_id);
            lemma_fields_wf_concat(p0, l1);
            lemma_opt_u64_numbered(2, v.deauthorization_device_token);
            lemma_fields_wf_concat(p1, l2);
            assert(p2 == Self::spec_fields(v));
            lemma_fields_wf_from_len(p2);
            lemma_fields_roundtrip(p2);
        }
        assert(Self::spec_prefix(v, 0) == d) by {
            reveal(CMsgClientDeauthorizeDeviceRequest::spec_prefix);
        }
        lemma_fold_empty(d, apply);
        lemma_fold_concat(d, p0, l1, apply);
        Self::lemma_field_deauthorization_account_id(v);
        lemma_fold_concat(d, p1, l2, apply);
        Self::lemma_field_deauthorization_device_token(v);
        assert(Self::spec_prefix(v, 2) == v) by {
            reveal(CMsgClientDeauthorizeDeviceRequest::spec_prefix);
        }
        lemma_merge_run_fold(d, Self::spec_encode(v), apply);
        assert(Self::spec_decode(Self::spec_encode(v)) == Ok::<SpecCMsgClientDeauthorizeDeviceRequest, WireError>(v)) by {
            reveal(CMsgClientDeauthorizeDeviceRequest::spec_decode);
        }
    }
}

/// `CMsgClientDeauthorizeDevice`, as Valve's schema declares it.
#[derive(Debug, Clone, PartialEq)]
pub struct CMsgClientDeauthorizeDevice {
    /// Field 1.
    pub eresult: Option<i32>,
    /// Field 2.
    pub deauthorization_account_id: Option<u32>,
}

/// What a `CMsgClientDeauthorizeDevice` holds, as mathematical values.
#[verifier::ext_equal]
pub struct SpecCMsgClientDeauthorizeDevice {
    pub eresult: Option<i32>,
    pub deauthorization_account_id: Option<u32>,
}

impl View for CMsgClientDeauthorizeDevice {
    type V = SpecCMsgClientDeauthorizeDevice;

    open spec fn view(&self) -> SpecCMsgClientDeauthorizeDevice {
        SpecCMsgClientDeauthorizeDevice {
            eresult: self.eresult,
            deauthorization_account_id: self.deauthorization_account_id,
        }
    }
}

impl Default for CMsgClientDeauthorizeDevice {
    fn default() -> (r: Self)
        ensures
            r@ == CMsgClientDeauthorizeDevice::spec_default(),
    {
        CMsgClientDeauthorizeDevice {
            eresult: None,
            deauthorization_account_id: None,
        }
    }
}

impl CMsgClientDeauthorizeDevice {
    /// Field 1, or its schema default when absent.
    pub fn eresult_or_default(&self) -> (r: i32)
        ensures
            r == match self.eresult {
                Some(x) => x,
                None => 2i32,
            },
    {
        self.eresult.unwrap_or(2i32)
    }

    pub open spec fn spec_default() -> SpecCMsgClientDeauthorizeDevice {
        SpecCMsgClientDeauthorizeDevice {
            eresult: None,
            deauthorization_account_id: None,
        }
    }

    /// The records a `CMsgClientDeauthorizeDevice` is written as, in field order.
    pub open spec fn spec_fields(v: SpecCMsgClientDeauthorizeDevice) -> Seq<SpecField> {
        Seq::<SpecField>::empty()
            + opt_i32(1, v.eresult)
            + opt_u32(2, v.deauthorization_account_id)
    }

    #[verifier::opaque]
    pub open spec fn spec_encode(v: SpecCMsgClientDeauthorizeDevice) -> Seq<u8> {
        fields_bytes(Self::spec_fields(v))
    }

    /// What one record does to the message: a declared number sets or extends its
    /// field, any other number is left alone.
    pub open spec fn spec_apply(v: SpecCMsgClientDeauthorizeDevice, f: SpecField) -> Result<SpecCMsgClientDeauthorizeDevice, WireError> {
        match f.number {
            1 => match dec_i32(f.value) {
                Ok(x) => Ok(SpecCMsgClientDeauthorizeDevice { eresult: Some(x), ..v }),
                Err(e) => Err(e),
            },
            2 => match dec_u32(f.value) {
                Ok(x) => Ok(SpecCMsgClientDeauthorizeDevice { deauthorization_account_id: Some(x), ..v }),
                Err(e) => Err(e),
            },
            _ => Ok(v),
        }
    }

    pub open spec fn apply_fn() -> spec_fn(SpecCMsgClientDeauthorizeDevice, SpecField) -> Result<SpecCMsgClientDeauthorizeDevice, WireError> {
        |v: SpecCMsgClientDeauthorizeDevice, f: SpecField| Self::spec_apply(v, f)
    }

    /// The message `bytes` makes of `v`: its records applied in order, or the error
    /// that stops the reading.
    pub open spec fn spec_merge(v: SpecCMsgClientDeauthorizeDevice, bytes: Seq<u8>) -> Result<SpecCMsgClientDeauthorizeDevice, WireError> {
        let (w, stop) = merge_run(v, bytes, Self::apply_fn());
        match stop {
            None => Ok(w),
            Some(e) => Err(e),
        }
    }

    #[verifier::opaque]
    pub open spec fn spec_decode(bytes: Seq<u8>) -> Result<SpecCMsgClientDeauthorizeDevice, WireError> {
        Self::spec_merge(Self::spec_default(), bytes)
    }

    /// This message with one record applied to it, or, when the record is refused,
    /// the message unchanged and the reason.
    fn applied(self, f: &Field) -> (r: Result<Self, (Self, WireError)>)
        ensures
            match Self::spec_apply(self@, f@) {
                Ok(v) => r matches Ok(m) && m@ == v,
                Err(e) => r matches Err((m, x)) && x == e && m@ == self@,
            },
    {
        match f.number {
            1 => match read_i32(&f.value) {
                Ok(x) => Ok(Self { eresult: Some(x), ..self }),
                Err(e) => Err((self, e)),
            },
            2 => match read_u32(&f.value) {
                Ok(x) => Ok(Self { deauthorization_account_id: Some(x), ..self }),
                Err(e) => Err((self, e)),
            },
            _ => Ok(self),
        }
    }

    /// Reads the records `bytes` holds into this message, in order. When a record does
    /// not parse or is refused, the reading stops there: the message keeps what the
    /// records before it gave, and the error is returned.
    pub fn merge(&mut self, bytes: &[u8]) -> (r: Result<(), WireError>)
        ensures
            final(self)@ == merge_run(old(self)@, bytes@, Self::apply_fn()).0,
            r == match merge_run(old(self)@, bytes@, Self::apply_fn()).1 {
                None => Ok::<(), WireError>(()),
                Some(e) => Err::<(), WireError>(e),
            },
    {
        let ghost total = merge_run(self@, bytes@, Self::apply_fn());
        let mut cur = Self::default();
        std::mem::swap(&mut cur, self);
        let mut pos: usize = 0;
        assert(bytes@.skip(0) =~= bytes@);
        while pos < bytes.len()
            invariant
                pos <= bytes@.len(),
                total == merge_run(old(self)@, bytes@, Self::apply_fn()),
                merge_run(cur@, bytes@.skip(pos as int), Self::apply_fn()) == total,
            decreases bytes@.len() - pos,
        {
            let ghost s = bytes@.skip(pos as int);
            proof {
                lemma_merge_run_step(cur@, s, Self::apply_fn());
                lemma_parse_field_len(s);
            }
            match read_field(bytes, pos) {
                Ok((f, end)) => {
                    assert(bytes@.skip(end as int) =~= s.skip((end - pos) as int));
                    match cur.applied(&f) {
                        Ok(m) => {
                            cur = m;
                        },
                        Err((m, e)) => {
                            *self = m;
                            return Err(e);
                        },
                    }
                    pos = end;
                },
                Err(e) => {
                    *self = cur;
                    return Err(e);
                },
            }
        }
        assert(bytes@.skip(pos as int) =~= Seq::<u8>::empty());
        proof {
            lemma_merge_run_empty(cur@, Self::apply_fn());
        }
        *self = cur;
        Ok(())
    }

    /// Decodes a message from its encoding.
    pub fn decode(bytes: &[u8]) -> (r: Result<Self, WireError>)
        ensures
            match Self::spec_decode(bytes@) {
                Ok(v) => r matches Ok(m) && m@ == v,
                Err(e) => r matches Err(x) && x == e,
            },
    {
        proof {
            reveal(CMsgClientDeauthorizeDevice::spec_decode);
        }
        let mut m = Self::default();
        match m.merge(bytes) {
            Ok(()) => Ok(m),
            Err(e) => Err(e),
        }
    }

    /// The encoding of this message.
    pub fn encode_to_vec(&self) -> (r: Vec<u8>)
        ensures
            r@ == Self::spec_encode(self@),
    {
        let ghost v = self@;
        let mut out: Vec<u8> = Vec::new();
        let ghost p0 = Seq::<SpecField>::empty();
        put_opt_i32(&mut out, 1, self.eresult);
        let ghost p1 = p0 + opt_i32(1, v.eresult);
        proof {
            lemma_fields_bytes_concat(p0, opt_i32(1, v.eresult));
        }
        put_opt_u32(&mut out, 2, self.deauthorization_account_id);
        let ghost p2 = p1 + opt_u32(2, v.deauthorization_account_id);
        proof {
            lemma_fields_bytes_concat(p1, opt_u32(2, v.deauthorization_account_id));
        }
        proof {
            reveal(CMsgClientDeauthorizeDevice::spec_encode);
        }
        assert(p2 == Self::spec_fields(v));
        out
    }

    /// Appends the encoding of this message to `out`.
    pub fn encode_raw(&self, out: &mut Vec<u8>)
        ensures
            final(out)@ == old(out)@ + Self::spec_encode(self@),
    {
        let mut b = self.encode_to_vec();
        out.append(&mut b);
    }

    /// The first `k` fields of `v`, the others as a fresh message has them.
    #[verifier::opaque]
    pub open spec fn spec_prefix(v: SpecCMsgClientDeauthorizeDevice, k: int) -> SpecCMsgClientDeauthorizeDevice {
        SpecCMsgClientDeauthorizeDevice {
            eresult: if 1 <= k { v.eresult } else { None },
            deauthorization_account_id: if 2 <= k { v.deauthorization_account_id } else { None },
        }
    }

    /// Reading field 1 back, after the fields before it.
    proof fn lemma_field_eresult(v: SpecCMsgClientDeauthorizeDevice)
        ensures
            fold_fields(Self::spec_prefix(v, 0), opt_i32(1, v.eresult), Self::apply_fn())
                == Ok::<SpecCMsgClientDeauthorizeDevice, WireError>(Self::spec_prefix(v, 1)),
    {
        reveal(CMsgClientDeauthorizeDevice::spec_prefix);
        reveal(opt_i32);
        let apply = Self::apply_fn();
        let s = Self::spec_prefix(v, 0);
        lemma_fold_opt(s, 1, match v.eresult { Some(x) => Some(enc_i32(x)), None => None }, apply);
        if let Some(x) = v.eresult {
            lemma_i32_roundtrip(x);
        }
        assert(SpecCMsgClientDeauthorizeDevice { eresult: v.eresult, ..s } == Self::spec_prefix(v, 1));
    }

    /// Reading field 2 back, after the fields before it.
    proof fn lemma_field_deauthorization_account_id(v: SpecCMsgClientDeauthorizeDevice)
        ensures
            fold_fields(Self::spec_prefix(v, 1), opt_u32(2, v.deauthorization_account_id), Self::apply_fn())
                == Ok::<SpecCMsgClientDeauthorizeDevice, WireError>(Self::spec_prefix(v, 2)),
    {
        reveal(CMsgClientDeauthorizeDevice::spec_prefix);
        reveal(opt_u32);
        let apply = Self::apply_fn();
        let s = Self::spec_prefix(v, 1);
        lemma_fold_opt(s, 2, match v.deauthorization_account_id { Some(x) => Some(enc_u32(x)), None => None }, apply);
        if let Some(x) = v.deauthorization_account_id {
            lemma_u32_roundtrip(x);
        }
        assert(SpecCMsgClientDeauthorizeDevice { deauthorization_account_id: v.deauthorization_account_id, ..s } == Self::spec_prefix(v, 2));
    }

    /// Whether this message declares field number `n`.
    pub open spec fn declares(n: u32) -> bool {
        n == 1 || n == 2
    }

    /// A record with a number this message does not declare is passed over: well-formed
    /// bytes decode to the same message with such a record after them as without it.
    pub proof fn lemma_unknown_field(bytes: Seq<u8>, f: SpecField)
        requires
            parse_fields(bytes) is Ok,
            field_wf(f),
            !Self::declares(f.number),
        ensures
            Self::spec_decode(bytes + field_bytes(f)) == Self::spec_decode(bytes),
    {
        reveal(CMsgClientDeauthorizeDevice::spec_decode);
        lemma_parse_fields_append(bytes, f);
        let fs = parse_fields(bytes).unwrap();
        let apply = Self::apply_fn();
        lemma_fold_concat(Self::spec_default(), fs, seq![f], apply);
        assert(fs.push(f) =~= fs + seq![f]);
        if let Ok(w) = fold_fields(Self::spec_default(), fs, apply) {
            lemma_fold_single(w, f, apply);
        }
        lemma_merge_run_fold(Self::spec_default(), bytes, apply);
        lemma_merge_run_fold(Self::spec_default(), bytes + field_bytes(f), apply);
    }

    /// Decoding the encoding of a message gives the message back.
    pub proof fn lemma_decode_encode(v: SpecCMsgClientDeauthorizeDevice)
        requires
            Self::spec_encode(v).len() <= u64::MAX,
        ensures
            Self::spec_decode(Self::spec_encode(v)) == Ok::<SpecCMsgClientDeauthorizeDevice, WireError>(v),
    {
        let apply = Self::apply_fn();
        let d = Self::spec_default();
        let p0 = Seq::<SpecField>::empty();
        let l1 = opt_i32(1, v.eresult);
        let p1 = p0 + l1;
        let l2 = opt_u32(2, v.deauthorization_account_id);
        let p2 = p1 + l2;
        assert(parse_fields(Self::spec_encode(v)) == Ok::<Seq<SpecField>, WireError>(p2)) by {
            reveal(CMsgClientDeauthorizeDevice::spec_encode);
            assert(numbers_ok(p0) && fields_wf(p0)) by {
                reveal(numbers_ok);
                reveal(fields_wf);
            }
            lemma_opt_i32_numbered(1, v.eresult);
            lemma_fields_wf_concat(p0, l1);
            lemma_opt_u32_numbered(2, v.deauthorization_account_id);
            lemma_fields_wf_concat(p1, l2);
            assert(p2 == Self::spec_fields(v));
            lemma_fields_wf_from_len(p2);
            lemma_fields_roundtrip(p2);
        }
        assert(Self::spec_prefix(v, 0) == d) by {
            reveal(CMsgClientDeauthorizeDevice::spec_prefix);
        }
        lemma_fold_empty(d, apply);
        lemma_fold_concat(d, p0, l1, apply);
        Self::lemma_field_eresult(v);
        lemma_fold_concat(d, p1, l2, apply);
        Self::lemma_field_deauthorization_account_id(v);
        assert(Self::spec_prefix(v, 2) == v) by {
            reveal(CMsgClientDeauthorizeDevice::spec_prefix);
        }
        lemma_merge_run_fold(d, Self::spec_encode(v), apply);
        assert(Self::spec_decode(Self::spec_encode(v)) == Ok::<SpecCMsgClientDeauthorizeDevice, WireError>(v)) by {
            reveal(CMsgClientDeauthorizeDevice::spec_decode);
        }
    }
}

/// `CMsgClientUseLocalDeviceAuthorizations`, as Valve's schema declares it.
#[derive(Debug, Clone, PartialEq)]
pub struct CMsgClientUseLocalDeviceAuthorizations {
    /// Field 1.
    pub authorization_account_id: Vec<u32>,
    /// Field 2.
    pub device_tokens: Vec<crate::steammessages_clientserver_2::c_msg_client_use_local_device_authorizations::DeviceToken>,
}

/// What a `CMsgClientUseLocalDeviceAuthorizations` holds, as mathematical values.
#[verifier::ext_equal]
pub struct SpecCMsgClientUseLocalDeviceAuthorizations {
    pub authorization_account_id: Seq<u32>,
    pub device_tokens: Seq<crate::steammessages_clientserver_2::c_msg_client_use_local_device_authorizations::SpecDeviceToken>,
}

impl View for CMsgClientUseLocalDeviceAuthorizations {
    type V = SpecCMsgClientUseLocalDeviceAuthorizations;

    open spec fn view(&self) -> SpecCMsgClientUseLocalDeviceAuthorizations {
        SpecCMsgClientUseLocalDeviceAuthorizations {
            authorization_account_id: self.authorization_account_id@,
            device_tokens: crate::steammessages_clientserver_2::c_msg_client_use_local_device_authorizations::DeviceToken::view_all(self.device_tokens@),
        }
    }
}

impl Default for CMsgClientUseLocalDeviceAuthorizations {
    fn default() -> (r: Self)
        ensures
            r@ == CMsgClientUseLocalDeviceAuthorizations::spec_default(),
    {
        CMsgClientUseLocalDeviceAuthorizations {
            authorization_account_id: Vec::new(),
            device_tokens: Vec::new(),
        }
    }
}

impl CMsgClientUseLocalDeviceAuthorizations {
    pub open spec fn spec_default() -> SpecCMsgClientUseLocalDeviceAuthorizations {
        SpecCMsgClientUseLocalDeviceAuthorizations {
            authorization_account_id: Seq::empty(),
            device_tokens: Seq::empty(),
        }
    }

    /// The records a `CMsgClientUseLocalDeviceAuthorizations` is written as, in field order.
    pub open spec fn spec_fields(v: SpecCMsgClientUseLocalDeviceAuthorizations) -> Seq<SpecField> {
        Seq::<SpecField>::empty()
            + rep_u32(1, v.authorization_account_id)
            + rep_bytes(2, crate::steammessages_clientserver_2::c_msg_client_use_local_device_authorizations::DeviceToken::spec_encode_all(v.device_tokens))
    }

    #[verifier::opaque]
    pub open spec fn spec_encode(v: SpecCMsgClientUseLocalDeviceAuthorizations) -> Seq<u8> {
        fields_bytes(Self::spec_fields(v))
    }

    /// What one record does to the message: a declared number sets or extends its
    /// field, any other number is left alone.
    pub open spec fn spec_apply(v: SpecCMsgClientUseLocalDeviceAuthorizations, f: SpecField) -> Result<SpecCMsgClientUseLocalDeviceAuthorizations, WireError> {
        match f.number {
            1 => match dec_packed_u32(f.value) {
                Ok(xs) => Ok(SpecCMsgClientUseLocalDeviceAuthorizations { authorization_account_id: v.authorization_account_id + xs, ..v }),
                Err(e) => Err(e),
            },
            2 => match dec_bytes(f.value) {
                Ok(b) => match crate::steammessages_clientserver_2::c_msg_client_use_local_device_authorizations::DeviceToken::spec_decode(b) {
                    Ok(m) => Ok(SpecCMsgClientUseLocalDeviceAuthorizations { device_tokens: v.device_tokens.push(m), ..v }),
                    Err(e) => Err(e),
                },
                Err(e) => Err(e),
            },
            _ => Ok(v),
        }
    }

    pub open spec fn apply_fn() -> spec_fn(SpecCMsgClientUseLocalDeviceAuthorizations, SpecField) -> Result<SpecCMsgClientUseLocalDeviceAuthorizations, WireError> {
        |v: SpecCMsgClientUseLocalDeviceAuthorizations, f: SpecField| Self::spec_apply(v, f)
    }

    /// The message `bytes` makes of `v`: its records applied in order, or the error
    /// that stops the reading.
    pub open spec fn spec_merge(v: SpecCMsgClientUseLocalDeviceAuthorizations, bytes: Seq<u8>) -> Result<SpecCMsgClientUseLocalDeviceAuthorizations, WireError> {
        let (w, stop) = merge_run(v, bytes, Self::apply_fn());
        match stop {
            None => Ok(w),
            Some(e) => Err(e),
        }
    }

    #[verifier::opaque]
    pub open spec fn spec_decode(bytes: Seq<u8>) -> Result<SpecCMsgClientUseLocalDeviceAuthorizations, WireError> {
        Self::spec_merge(Self::spec_default(), bytes)
    }

    /// This message with one record applied to it, or, when the record is refused,
    /// the message unchanged and the reason.
    fn applied(self, f: &Field) -> (r: Result<Self, (Self, WireError)>)
        ensures
            match Self::spec_apply(self@, f@) {
                Ok(v) => r matches Ok(m) && m@ == v,
                Err(e) => r matches Err((m, x)) && x == e && m@ == self@,
            },
    {
        match f.number {
            1 => match read_packed_u32(&f.value) {
                Ok(xs) => {
                    let mut m = self;
                    let mut xs = xs;
                    m.authorization_account_id.append(&mut xs);
                    Ok(m)
                },
                Err(e) => Err((self, e)),
            },
            2 => match read_payload(&f.value) {
                Ok(b) => match crate::steammessages_clientserver_2::c_msg_client_use_local_device_authorizations::DeviceToken::decode(b) {
                    Ok(x) => {
                        let mut m = self;
                        let ghost before = m.device_tokens@;
                        m.device_tokens.push(x);
                        assert(crate::steammessages_clientserver_2::c_msg_client_use_local_device_authorizations::DeviceToken::view_all(m.device_tokens@) =~= crate::steammessages_clientserver_2::c_msg_client_use_local_device_authorizations::DeviceToken::view_all(before).push(x@));
                        Ok(m)
                    },
                    Err(e) => Err((self, e)),
                },
                Err(e) => Err((self, e)),
            },
            _ => Ok(self),
        }
    }

    /// Reads the records `bytes` holds into this message, in order. When a record does
    /// not parse or is refused, the reading stops there: the message keeps what the
    /// records before it gave, and the error is returned.
    pub fn merge(&mut self, bytes: &[u8]) -> (r: Result<(), WireError>)
        ensures
            final(self)@ == merge_run(old(self)@, bytes@, Self::apply_fn()).0,
            r == match merge_run(old(self)@, bytes@, Self::apply_fn()).1 {
                None => Ok::<(), WireError>(()),
                Some(e) => Err::<(), WireError>(e),
            },
    {
        let ghost total = merge_run(self@, bytes@, Self::apply_fn());
        let mut cur = Self::default();
        std::mem::swap(&mut cur, self);
        let mut pos: usize = 0;
        assert(bytes@.skip(0) =~= bytes@);
        while pos < bytes.len()
            invariant
                pos <= bytes@.len(),
                total == merge_run(old(self)@, bytes@, Self::apply_fn()),
                merge_run(cur@, bytes@.skip(pos as int), Self::apply_fn()) == total,
            decreases bytes@.len() - pos,
        {
            let ghost s = bytes@.skip(pos as int);
            proof {
                lemma_merge_run_step(cur@, s, Self::apply_fn());
                lemma_parse_field_len(s);
            }
            match read_field(bytes, pos) {
                Ok((f, end)) => {
                    assert(bytes@.skip(end as int) =~= s.skip((end - pos) as int));
                    match cur.applied(&f) {
                        Ok(m) => {
                            cur = m;
                        },
                        Err((m, e)) => {
                            *self = m;
                            return Err(e);
                        },
                    }
                    pos = end;
                },
                Err(e) => {
                    *self = cur;
                    return Err(e);
                },
            }
        }
        assert(bytes@.skip(pos as int) =~= Seq::<u8>::empty());
        proof {
            lemma_merge_run_empty(cur@, Self::apply_fn());
        }
        *self = cur;
        Ok(())
    }

    /// Decodes a message from its encoding.
    pub fn decode(bytes: &[u8]) -> (r: Result<Self, WireError>)
        ensures
            match Self::spec_decode(bytes@) {
                Ok(v) => r matches Ok(m) && m@ == v,
                Err(e) => r matches Err(x) && x == e,
            },
    {
        proof {
            reveal(CMsgClientUseLocalDeviceAuthorizations::spec_decode);
        }
        let mut m = Self::default();
        match m.merge(bytes) {
            Ok(()) => Ok(m),
            Err(e) => Err(e),
        }
    }

    /// The encoding of this message.
    pub fn encode_to_vec(&self) -> (r: Vec<u8>)
        ensures
            r@ == Self::spec_encode(self@),
    {
        let enc_device_tokens = crate::steammessages_clientserver_2::c_msg_client_use_local_device_authorizations::DeviceToken::encode_all(&self.device_tokens);
        let ghost v = self@;
        let mut out: Vec<u8> = Vec::new();
        let ghost p0 = Seq::<SpecField>::empty();
        put_rep_u32(&mut out, 1, &self.authorization_account_id);
        let ghost p1 = p0 + rep_u32(1, v.authorization_account_id);
        proof {
            lemma_fields_bytes_concat(p0, rep_u32(1, v.authorization_account_id));
        }
        put_rep_bytes(&mut out, 2, &enc_device_tokens);
        let ghost p2 = p1 + rep_bytes(2, crate::steammessages_clientserver_2::c_msg_client_use_local_device_authorizations::DeviceToken::spec_encode_all(v.device_tokens));
        proof {
            lemma_fields_bytes_concat(p1, rep_bytes(2, crate::steammessages_clientserver_2::c_msg_client_use_local_device_authorizations::DeviceToken::spec_encode_all(v.device_tokens)));
        }
        proof {
            reveal(CMsgClientUseLocalDeviceAuthorizations::spec_encode);
        }
        assert(p2 == Self::spec_fields(v));
        out
    }

    /// Appends the encoding of this message to `out`.
    pub fn encode_raw(&self, out: &mut Vec<u8>)
        ensures
            final(out)@ == old(out)@ + Self::spec_encode(self@),
    {
        let mut b = self.encode_to_vec();
        out.append(&mut b);
    }

    /// The first `k` fields of `v`, the others as a fresh message has them.
    #[verifier::opaque]
    pub open spec fn spec_prefix(v: SpecCMsgClientUseLocalDeviceAuthorizations, k: int) -> SpecCMsgClientUseLocalDeviceAuthorizations {
        SpecCMsgClientUseLocalDeviceAuthorizations {
            authorization_account_id: if 1 <= k { v.authorization_account_id } else { Seq::empty() },
            device_tokens: if 2 <= k { v.device_tokens } else { Seq::empty() },
        }
    }

    /// Reading field 1 back, after the fields before it.
    proof fn lemma_field_authorization_account_id(v: SpecCMsgClientUseLocalDeviceAuthorizations)
        ensures
            fold_fields(Self::spec_prefix(v, 0), rep_u32(1, v.authorization_account_id), Self::apply_fn())
                == Ok::<SpecCMsgClientUseLocalDeviceAuthorizations, WireError>(Self::spec_prefix(v, 1)),
    {
        reveal(CMsgClientUseLocalDeviceAuthorizations::spec_prefix);
        reveal(rep_u32);
        let apply = Self::apply_fn();
        let s = Self::spec_prefix(v, 0);
        let l = rep_u32(1, v.authorization_account_id);
        let xs = v.authorization_account_id;
        let st = Seq::new((xs.len() + 1) as nat, |j: int| SpecCMsgClientUseLocalDeviceAuthorizations { authorization_account_id: xs.take(j), ..s });
        assert forall|j: int| 0 <= j < l.len() implies #[trigger] apply(st[j], l[j]) == Ok::<SpecCMsgClientUseLocalDeviceAuthorizations, WireError>(st[j + 1]) by {
            lemma_u32_roundtrip(xs[j]);
            assert(xs.take(j) + seq![xs[j]] =~= xs.take(j + 1));
        }
        lemma_fold_chain(l, st, apply);
        assert(xs.take(0) =~= Seq::<u32>::empty());
        assert(xs.take(xs.len() as int) =~= xs);
        assert(st[0] == s);
        assert(st[xs.len() as int] == Self::spec_prefix(v, 1));
    }

    /// Reading field 2 back, after the fields before it.
    proof fn lemma_field_device_tokens(v: SpecCMsgClientUseLocalDeviceAuthorizations)
        requires
            fields_wf(rep_bytes(2, crate::steammessages_clientserver_2::c_msg_client_use_local_device_authorizations::DeviceToken::spec_encode_all(v.device_tokens))),
        ensures
            fold_fields(Self::spec_prefix(v, 1), rep_bytes(2, crate::steammessages_clientserver_2::c_msg_client_use_local_device_authorizations::DeviceToken::spec_encode_all(v.device_tokens)), Self::apply_fn())
                == Ok::<SpecCMsgClientUseLocalDeviceAuthorizations, WireError>(Self::spec_prefix(v, 2)),
    {
        reveal(CMsgClientUseLocalDeviceAuthorizations::spec_prefix);
        reveal(rep_bytes);
        reveal(fields_wf);
        let apply = Self::apply_fn();
        let s = Self::spec_prefix(v, 1);
        let l = rep_bytes(2, crate::steammessages_clientserver_2::c_msg_client_use_local_device_authorizations::DeviceToken::spec_encode_all(v.device_tokens));
        let xs = v.device_tokens;
        let st = Seq::new((xs.len() + 1) as nat, |j: int| SpecCMsgClientUseLocalDeviceAuthorizations { device_tokens: xs.take(j), ..s });
        assert forall|j: int| 0 <= j < l.len() implies #[trigger] apply(st[j], l[j]) == Ok::<SpecCMsgClientUseLocalDeviceAuthorizations, WireError>(st[j + 1]) by {
            assert(field_wf(l[j]));
            crate::steammessages_clientserver_2::c_msg_client_use_local_device_authorizations::DeviceToken::lemma_decode_encode(xs[j]);
            assert(xs.take(j).push(xs[j]) =~= xs.take(j + 1));
        }
        lemma_fold_chain(l, st, apply);
        assert(xs.take(0) =~= Seq::<crate::steammessages_clientserver_2::c_msg_client_use_local_device_authorizations::SpecDeviceToken>::empty());
        assert(xs.take(xs.len() as int) =~= xs);
        assert(st[0] == s);
        assert(st[xs.len() as int] == Self::spec_prefix(v, 2));
    }

    /// Whether this message declares field number `n`.
    pub open spec fn declares(n: u32) -> bool {
        n == 1 || n == 2
    }

    /// A record with a number this message does not declare is passed over: well-formed
    /// bytes decode to the same message with such a record after them as without it.
    pub proof fn lemma_unknown_field(bytes: Seq<u8>, f: SpecField)
        requires
            parse_fields(bytes) is Ok,
            field_wf(f),
            !Self::declares(f.number),
        ensures
            Self::spec_decode(bytes + field_bytes(f)) == Self::spec_decode(bytes),
    {
        reveal(CMsgClientUseLocalDeviceAuthorizations::spec_decode);
        lemma_parse_fields_append(bytes, f);
        let fs = parse_fields(bytes).unwrap();
        let apply = Self::apply_fn();
        lemma_fold_concat(Self::spec_default(), fs, seq![f], apply);
        assert(fs.push(f) =~= fs + seq![f]);
        if let Ok(w) = fold_fields(Self::spec_default(), fs, apply) {
            lemma_fold_single(w, f, apply);
        }
        lemma_merge_run_fold(Self::spec_default(), bytes, apply);
        lemma_merge_run_fold(Self::spec_default(), bytes + field_bytes(f), apply);
    }

    /// Decoding the encoding of a message gives the message back.
    pub proof fn lemma_decode_encode(v: SpecCMsgClientUseLocalDeviceAuthorizations)
        requires
            Self::spec_encode(v).len() <= u64::MAX,
        ensures
            Self::spec_decode(Self::spec_encode(v)) == Ok::<SpecCMsgClientUseLocalDeviceAuthorizations, WireError>(v),
    {
        let apply = Self::apply_fn();
        let d = Self::spec_default();
        let p0 = Seq::<SpecField>::empty();
        let l1 = rep_u32(1, v.authorization_account_id);
        let p1 = p0 + l1;
        let l2 = rep_bytes(2, crate::steammessages_clientserver_2::c_msg_client_use_local_device_authorizations::DeviceToken::spec_encode_all(v.device_tokens));
        let p2 = p1 + l2;
        assert(parse_fields(Self::spec_encode(v)) == Ok::<Seq<SpecField>, WireError>(p2) && fields_wf(l2)) by {
            reveal(CMsgClientUseLocalDeviceAuthorizations::spec_encode);
            assert(numbers_ok(p0) && fields_wf(p0)) by {
                reveal(numbers_ok);
                reveal(fields_wf);
            }
            lemma_rep_u32_numbered(1, v.authorization_account_id);
            lemma_fields_wf_concat(p0, l1);
            lemma_rep_bytes_numbered(2, crate::steammessages_clientserver_2::c_msg_client_use_local_device_authorizations::DeviceToken::spec_encode_all(v.device_tokens));
            lemma_fields_wf_concat(p1, l2);
            assert(p2 == Self::spec_fields(v));
            lemma_fields_wf_from_len(p2);
            lemma_fields_roundtrip(p2);
        }
        assert(Self::spec_prefix(v, 0) == d) by {
            reveal(CMsgClientUseLocalDeviceAuthorizations::spec_prefix);
        }
        lemma_fold_empty(d, apply);
        lemma_fold_concat(d, p0, l1, apply);
        Self::lemma_field_authorization_account_id(v);
        lemma_fold_concat(d, p1, l2, apply);
        Self::lemma_field_device_tokens(v);
        assert(Self::spec_prefix(v, 2) == v) by {
            reveal(CMsgClientUseLocalDeviceAuthorizations::spec_prefix);
        }
        lemma_merge_run_fold(d, Self::spec_encode(v), apply);
        assert(Self::spec_decode(Self::spec_encode(v)) == Ok::<SpecCMsgClientUseLocalDeviceAuthorizations, WireError>(v)) by {
            reveal(CMsgClientUseLocalDeviceAuthorizations::spec_decode);
        }
    }
}

/// `CMsgClientGetAuthorizedDevices`, as Valve's schema declares it.
#[derive(Debug, Clone, PartialEq)]
pub struct CMsgClientGetAuthorizedDevices {}

/// What a `CMsgClientGetAuthorizedDevices` holds, as mathematical values.
#[verifier::ext_equal]
pub struct SpecCMsgClientGetAuthorizedDevices {}

impl View for CMsgClientGetAuthorizedDevices {
    type V = SpecCMsgClientGetAuthorizedDevices;

    open spec fn view(&self) -> SpecCMsgClientGetAuthorizedDevices {
        SpecCMsgClientGetAuthorizedDevices {}
    }
}

impl Default for CMsgClientGetAuthorizedDevices {
    fn default() -> (r: Self)
        ensures
            r@ == CMsgClientGetAuthorizedDevices::spec_default(),
    {
        CMsgClientGetAuthorizedDevices {}
    }
}

impl CMsgClientGetAuthorizedDevices {
    pub open spec fn spec_default() -> SpecCMsgClientGetAuthorizedDevices {
        SpecCMsgClientGetAuthorizedDevices {}
    }

    /// The records a `CMsgClientGetAuthorizedDevices` is written as, in field order.
    pub open spec fn spec_fields(v: SpecCMsgClientGetAuthorizedDevices) -> Seq<SpecField> {
        Seq::<SpecField>::empty()
    }

    #[verifier::opaque]
    pub open spec fn spec_encode(v: SpecCMsgClientGetAuthorizedDevices) -> Seq<u8> {
        fields_bytes(Self::spec_fields(v))
    }

    /// What one record does to the message: a declared number sets or extends its
    /// field, any other number is left alone.
    pub open spec fn spec_apply(v: SpecCMsgClientGetAuthorizedDevices, f: SpecField) -> Result<SpecCMsgClientGetAuthorizedDevices, WireError> {
        match f.number {
            _ => Ok(v),
        }
    }

    pub open spec fn apply_fn() -> spec_fn(SpecCMsgClientGetAuthorizedDevices, SpecField) -> Result<SpecCMsgClientGetAuthorizedDevices, WireError> {
        |v: SpecCMsgClientGetAuthorizedDevices, f: SpecField| Self::spec_apply(v, f)
    }

    /// The message `bytes` makes of `v`: its records applied in order, or the error
    /// that stops the reading.
    pub open spec fn spec_merge(v: SpecCMsgClientGetAuthorizedDevices, bytes: Seq<u8>) -> Result<SpecCMsgClientGetAuthorizedDevices, WireError> {
        let (w, stop) = merge_run(v, bytes, Self::apply_fn());
        match stop {
            None => Ok(w),
            Some(e) => Err(e),
        }
    }

    #[verifier::opaque]
    pub open spec fn spec_decode(bytes: Seq<u8>) -> Result<SpecCMsgClientGetAuthorizedDevices, WireError> {
        Self::spec_merge(Self::spec_default(), bytes)
    }

    /// This message with one record applied to it, or, when the record is refused,
    /// the message unchanged and the reason.
    fn applied(self, f: &Field) -> (r: Result<Self, (Self, WireError)>)
        ensures
            match Self::spec_apply(self@, f@) {
                Ok(v) => r matches Ok(m) && m@ == v,
                Err(e) => r matches Err((m, x)) && x == e && m@ == self@,
            },
    {
        match f.number {
            _ => Ok(self),
        }
    }

    /// Reads the records `bytes` holds into this message, in order. When a record does
    /// not parse or is refused, the reading stops there: the message keeps what the
    /// records before it gave, and the error is returned.
    pub fn merge(&mut self, bytes: &[u8]) -> (r: Result<(), WireError>)
        ensures
            final(self)@ == merge_run(old(self)@, bytes@, Self::apply_fn()).0,
            r == match merge_run(old(self)@, bytes@, Self::apply_fn()).1 {
                None => Ok::<(), WireError>(()),
                Some(e) => Err::<(), WireError>(e),
            },
    {
        let ghost total = merge_run(self@, bytes@, Self::apply_fn());
        let mut cur = Self::default();
        std::mem::swap(&mut cur, self);
        let mut pos: usize = 0;
        assert(bytes@.skip(0) =~= bytes@);
        while pos < bytes.len()
            invariant
                pos <= bytes@.len(),
                total == merge_run(old(self)@, bytes@, Self::apply_fn()),
                merge_run(cur@, bytes@.skip(pos as int), Self::apply_fn()) == total,
            decreases bytes@.len() - pos,
        {
            let ghost s = bytes@.skip(pos as int);
            proof {
                lemma_merge_run_step(cur@, s, Self::apply_fn());
                lemma_parse_field_len(s);
            }
            match read_field(bytes, pos) {
                Ok((f, end)) => {
                    assert(bytes@.skip(end as int) =~= s.skip((end - pos) as int));
                    match cur.applied(&f) {
                        Ok(m) => {
                            cur = m;
                        },
                        Err((m, e)) => {
                            *self = m;
                            return Err(e);
                        },
                    }
                    pos = end;
                },
                Err(e) => {
                    *self = cur;
                    return Err(e);
                },
            }
        }
        assert(bytes@.skip(pos as int) =~= Seq::<u8>::empty());
        proof {
            lemma_merge_run_empty(cur@, Self::apply_fn());
        }
        *self = cur;
        Ok(())
    }

    /// Decodes a message from its encoding.
    pub fn decode(bytes: &[u8]) -> (r: Result<Self, WireError>)
        ensures
            match Self::spec_decode(bytes@) {
                Ok(v) => r matches Ok(m) && m@ == v,
                Err(e) => r matches Err(x) && x == e,
            },
    {
        proof {
            reveal(CMsgClientGetAuthorizedDevices::spec_decode);
        }
        let mut m = Self::default();
        match m.merge(bytes) {
            Ok(()) => Ok(m),
            Err(e) => Err(e),
        }
    }

    /// The encoding of this message.
    pub fn encode_to_vec(&self) -> (r: Vec<u8>)
        ensures
            r@ == Self::spec_encode(self@),
    {
        let ghost v = self@;
        let mut out: Vec<u8> = Vec::new();
        let ghost p0 = Seq::<SpecField>::empty();
        proof {
            reveal(CMsgClientGetAuthorizedDevices::spec_encode);
        }
        assert(p0 == Self::spec_fields(v));
        assert(out@ =~= fields_bytes(p0));
        out
    }

    /// Appends the encoding of this message to `out`.
    pub fn encode_raw(&self, out: &mut Vec<u8>)
        ensures
            final(out)@ == old(out)@ + Self::spec_encode(self@),
    {
        let mut b = self.encode_to_vec();
        out.append(&mut b);
    }

    /// The first `k` fields of `v`, the others as a fresh message has them.
    #[verifier::opaque]
    pub open spec fn spec_prefix(v: SpecCMsgClientGetAuthorizedDevices, k: int) -> SpecCMsgClientGetAuthorizedDevices {
        SpecCMsgClientGetAuthorizedDevices {}
    }

    /// Whether this message declares field number `n`.
    pub open spec fn declares(n: u32) -> bool {
        false
    }

    /// A record with a number this message does not declare is passed over: well-formed
    /// bytes decode to the same message with such a record after them as without it.
    pub proof fn lemma_unknown_field(bytes: Seq<u8>, f: SpecField)
        requires
            parse_fields(bytes) is Ok,
            field_wf(f),
            !Self::declares(f.number),
        ensures
            Self::spec_decode(bytes + field_bytes(f)) == Self::spec_decode(bytes),
    {
        reveal(CMsgClientGetAuthorizedDevices::spec_decode);
        lemma_parse_fields_append(bytes, f);
        let fs = parse_fields(bytes).unwrap();
        let apply = Self::apply_fn();
        lemma_fold_concat(Self::spec_default(), fs, seq![f], apply);
        assert(fs.push(f) =~= fs + seq![f]);
        if let Ok(w) = fold_fields(Self::spec_default(), fs, apply) {
            lemma_fold_single(w, f, apply);
        }
        lemma_merge_run_fold(Self::spec_default(), bytes, apply);
        lemma_merge_run_fold(Self::spec_default(), bytes + field_bytes(f), apply);
    }

    /// Decoding the encoding of a message gives the message back.
    pub proof fn lemma_decode_encode(v: SpecCMsgClientGetAuthorizedDevices)
        requires
            Self::spec_encode(v).len() <= u64::MAX,
        ensures
            Self::spec_decode(Self::spec_encode(v)) == Ok::<SpecCMsgClientGetAuthorizedDevices, WireError>(v),
    {
        let apply = Self::apply_fn();
        let d = Self::spec_default();
        let p0 = Seq::<SpecField>::empty();
        assert(parse_fields(Self::spec_encode(v)) == Ok::<Seq<SpecField>, WireError>(p0)) by {
            reveal(CMsgClientGetAuthorizedDevices::spec_encode);
            assert(numbers_ok(p0) && fields_wf(p0)) by {
                reveal(numbers_ok);
                reveal(fields_wf);
            }
            assert(p0 == Self::spec_fields(v));
            lemma_fields_wf_from_len(p0);
            lemma_fields_roundtrip(p0);
        }
        assert(Self::spec_prefix(v, 0) == d) by {
            reveal(CMsgClientGetAuthorizedDevices::spec_prefix);
        }
        lemma_fold_empty(d, apply);
        assert(Self::spec_prefix(v, 0) == v) by {
            reveal(CMsgClientGetAuthorizedDevices::spec_prefix);
        }
        lemma_merge_run_fold(d, Self::spec_encode(v), apply);
        assert(Self::spec_decode(Self::spec_encode(v)) == Ok::<SpecCMsgClientGetAuthorizedDevices, WireError>(v)) by {
            reveal(CMsgClientGetAuthorizedDevices::spec_decode);
        }
    }
}

/// `CMsgClientGetAuthorizedDevicesResponse`, as Valve's schema declares it.
#[derive(Debug, Clone, PartialEq)]
pub struct CMsgClientGetAuthorizedDevicesResponse {
    /// Field 1.
    pub eresult: Option<i32>,
    /// Field 2.
    pub authorized_device: Vec<crate::steammessages_clientserver_2::c_msg_client_get_authorized_devices_response::AuthorizedDevice>,
}

/// What a `CMsgClientGetAuthorizedDevicesResponse` holds, as mathematical values.
#[verifier::ext_equal]
pub struct SpecCMsgClientGetAuthorizedDevicesResponse {
    pub eresult: Option<i32>,
    pub authorized_device: Seq<crate::steammessages_clientserver_2::c_msg_client_get_authorized_devices_response::SpecAuthorizedDevice>,
}

impl View for CMsgClientGetAuthorizedDevicesResponse {
    type V = SpecCMsgClientGetAuthorizedDevicesResponse;

    open spec fn view(&self) -> SpecCMsgClientGetAuthorizedDevicesResponse {
        SpecCMsgClientGetAuthorizedDevicesResponse {
            eresult: self.eresult,
            authorized_device: crate::steammessages_clientserver_2::c_msg_client_get_authorized_devices_response::AuthorizedDevice::view_all(self.authorized_device@),
        }
    }
}

impl Default for CMsgClientGetAuthorizedDevicesResponse {
    fn default() -> (r: Self)
        ensures
            r@ == CMsgClientGetAuthorizedDevicesResponse::spec_default(),
    {
        CMsgClientGetAuthorizedDevicesResponse {
            eresult: None,
            authorized_device: Vec::new(),
        }
    }
}

impl CMsgClientGetAuthorizedDevicesResponse {
    /// Field 1, or its schema default when absent.
    pub fn eresult_or_default(&self) -> (r: i32)
        ensures
            r == match self.eresult {
                Some(x) => x,
                None => 2i32,
            },
    {
        self.eresult.unwrap_or(2i32)
    }

    pub open spec fn spec_default() -> SpecCMsgClientGetAuthorizedDevicesResponse {
        SpecCMsgClientGetAuthorizedDevicesResponse {
            eresult: None,
            authorized_device: Seq::empty(),
        }
    }

    /// The records a `CMsgClientGetAuthorizedDevicesResponse` is written as, in field order.
    pub open spec fn spec_fields(v: SpecCMsgClientGetAuthorizedDevicesResponse) -> Seq<SpecField> {
        Seq::<SpecField>::empty()
            + opt_i32(1, v.eresult)
            + rep_bytes(2, crate::steammessages_clientserver_2::c_msg_client_get_authorized_devices_response::AuthorizedDevice::spec_encode_all(v.authorized_device))
    }

    #[verifier::opaque]
    pub open spec fn spec_encode(v: SpecCMsgClientGetAuthorizedDevicesResponse) -> Seq<u8> {
        fields_bytes(Self::spec_fields(v))
    }

    /// What one record does to the message: a declared number sets or extends its
    /// field, any other number is left alone.
    pub open spec fn spec_apply(v: SpecCMsgClientGetAuthorizedDevicesResponse, f: SpecField) -> Result<SpecCMsgClientGetAuthorizedDevicesResponse, WireError> {
        match f.number {
            1 => match dec_i32(f.value) {
                Ok(x) => Ok(SpecCMsgClientGetAuthorizedDevicesResponse { eresult: Some(x), ..v }),
                Err(e) => Err(e),
            },
            2 => match dec_bytes(f.value) {
                Ok(b) => match crate::steammessages_clientserver_2::c_msg_client_get_authorized_devices_response::AuthorizedDevice::spec_decode(b) {
                    Ok(m) => Ok(SpecCMsgClientGetAuthorizedDevicesResponse { authorized_device: v.authorized_device.push(m), ..v }),
                    Err(e) => Err(e),
                },
                Err(e) => Err(e),
            },
            _ => Ok(v),
        }
    }

    pub open spec fn apply_fn() -> spec_fn(SpecCMsgClientGetAuthorizedDevicesResponse, SpecField) -> Result<SpecCMsgClientGetAuthorizedDevicesResponse, WireError> {
        |v: SpecCMsgClientGetAuthorizedDevicesResponse, f: SpecField| Self::spec_apply(v, f)
    }

    /// The message `bytes` makes of `v`: its records applied in order, or the error
    /// that stops the reading.
    pub open spec fn spec_merge(v: SpecCMsgClientGetAuthorizedDevicesResponse, bytes: Seq<u8>) -> Result<SpecCMsgClientGetAuthorizedDevicesResponse, WireError> {
        let (w, stop) = merge_run(v, bytes, Self::apply_fn());
        match stop {
            None => Ok(w),
            Some(e) => Err(e),
        }
    }

    #[verifier::opaque]
    pub open spec fn spec_decode(bytes: Seq<u8>) -> Result<SpecCMsgClientGetAuthorizedDevicesResponse, WireError> {
        Self::spec_merge(Self::spec_default(), bytes)
    }

    /// This message with one record applied to it, or, when the record is refused,
    /// the message unchanged and the reason.
    fn applied(self, f: &Field) -> (r: Result<Self, (Self, WireError)>)
        ensures
            match Self::spec_apply(self@, f@) {
                Ok(v) => r matches Ok(m) && m@ == v,
                Err(e) => r matches Err((m, x)) && x == e && m@ == self@,
            },
    {
        match f.number {
            1 => match read_i32(&f.value) {
                Ok(x) => Ok(Self { eresult: Some(x), ..self }),
                Err(e) => Err((self, e)),
            },
            2 => match read_payload(&f.value) {
                Ok(b) => match crate::steammessages_clientserver_2::c_msg_client_get_authorized_devices_response::AuthorizedDevice::decode(b) {
                    Ok(x) => {
                        let mut m = self;
                        let ghost before = m.authorized_device@;
                        m.authorized_device.push(x);
                        assert(crate::steammessages_clientserver_2::c_msg_client_get_authorized_devices_response::AuthorizedDevice::view_all(m.authorized_device@) =~= crate::steammessages_clientserver_2::c_msg_client_get_authorized_devices_response::AuthorizedDevice::view_all(before).push(x@));
                        Ok(m)
                    },
                    Err(e) => Err((self, e)),
                },
                Err(e) => Err((self, e)),
            },
            _ => Ok(self),
        }
    }

    /// Reads the records `bytes` holds into this message, in order. When a record does
    /// not parse or is refused, the reading stops there: the message keeps what the
    /// records before it gave, and the error is returned.
    pub fn merge(&mut self, bytes: &[u8]) -> (r: Result<(), WireError>)
        ensures
            final(self)@ == merge_run(old(self)@, bytes@, Self::apply_fn()).0,
            r == match merge_run(old(self)@, bytes@, Self::apply_fn()).1 {
                None => Ok::<(), WireError>(()),
                Some(e) => Err::<(), WireError>(e),
            },
    {
        let ghost total = merge_run(self@, bytes@, Self::apply_fn());
        let mut cur = Self::default();
        std::mem::swap(&mut cur, self);
        let mut pos: usize = 0;
        assert(bytes@.skip(0) =~= bytes@);
        while pos < bytes.len()
            invariant
                pos <= bytes@.len(),
                total == merge_run(old(self)@, bytes@, Self::apply_fn()),
                merge_run(cur@, bytes@.skip(pos as int), Self::apply_fn()) == total,
            decreases bytes@.len() - pos,
        {
            let ghost s = bytes@.skip(pos as int);
            proof {
                lemma_merge_run_step(cur@, s, Self::apply_fn());
                lemma_parse_field_len(s);
            }
            match read_field(bytes, pos) {
                Ok((f, end)) => {
                    assert(bytes@.skip(end as int) =~= s.skip((end - pos) as int));
                    match cur.applied(&f) {
                        Ok(m) => {
                            cur = m;
                        },
                        Err((m, e)) => {
                            *self = m;
                            return Err(e);
                        },
                    }
                    pos = end;
                },
                Err(e) => {
                    *self = cur;
                    return Err(e);
                },
            }
        }
        assert(bytes@.skip(pos as int) =~= Seq::<u8>::empty());
        proof {
            lemma_merge_run_empty(cur@, Self::apply_fn());
        }
        *self = cur;
        Ok(())
    }

    /// Decodes a message from its encoding.
    pub fn decode(bytes: &[u8]) -> (r: Result<Self, WireError>)
        ensures
            match Self::spec_decode(bytes@) {
                Ok(v) => r matches Ok(m) && m@ == v,
                Err(e) => r matches Err(x) && x == e,
            },
    {
        proof {
            reveal(CMsgClientGetAuthorizedDevicesResponse::spec_decode);
        }
        let mut m = Self::default();
        match m.merge(bytes) {
            Ok(()) => Ok(m),
            Err(e) => Err(e),
        }
    }

    /// The encoding of this message.
    pub fn encode_to_vec(&self) -> (r: Vec<u8>)
        ensures
            r@ == Self::spec_encode(self@),
    {
        let enc_authorized_device = crate::steammessages_clientserver_2::c_msg_client_get_authorized_devices_response::AuthorizedDevice::encode_all(&self.authorized_device);
        let ghost v = self@;
        let mut out: Vec<u8> = Vec::new();
        let ghost p0 = Seq::<SpecField>::empty();
        put_opt_i32(&mut out, 1, self.eresult);
        let ghost p1 = p0 + opt_i32(1, v.eresult);
        proof {
            lemma_fields_bytes_concat(p0, opt_i32(1, v.eresult));
        }
        put_rep_bytes(&mut out, 2, &enc_authorized_device);
        let ghost p2 = p1 + rep_bytes(2, crate::steammessages_clientserver_2::c_msg_client_get_authorized_devices_response::AuthorizedDevice::spec_encode_all(v.authorized_device));
        proof {
            lemma_fields_bytes_concat(p1, rep_bytes(2, crate::steammessages_clientserver_2::c_msg_client_get_authorized_devices_response::AuthorizedDevice::spec_encode_all(v.authorized_device)));
        }
        proof {
            reveal(CMsgClientGetAuthorizedDevicesResponse::spec_encode);
        }
        assert(p2 == Self::spec_fields(v));
        out
    }

    /// Appends the encoding of this message to `out`.
    pub fn encode_raw(&self, out: &mut Vec<u8>)
        ensures
            final(out)@ == old(out)@ + Self::spec_encode(self@),
    {
        let mut b = self.encode_to_vec();
        out.append(&mut b);
    }

    /// The first `k` fields of `v`, the others as a fresh message has them.
    #[verifier::opaque]
    pub open spec fn spec_prefix(v: SpecCMsgClientGetAuthorizedDevicesResponse, k: int) -> SpecCMsgClientGetAuthorizedDevicesResponse {
        SpecCMsgClientGetAuthorizedDevicesResponse {
            eresult: if 1 <= k { v.eresult } else { None },
            authorized_device: if 2 <= k { v.authorized_device } else { Seq::empty() },
        }
    }

    /// Reading field 1 back, after the fields before it.
    proof fn lemma_field_eresult(v: SpecCMsgClientGetAuthorizedDevicesResponse)
        ensures
            fold_fields(Self::spec_prefix(v, 0), opt_i32(1, v.eresult), Self::apply_fn())
                == Ok::<SpecCMsgClientGetAuthorizedDevicesResponse, WireError>(Self::spec_prefix(v, 1)),
    {
        reveal(CMsgClientGetAuthorizedDevicesResponse::spec_prefix);
        reveal(opt_i32);
        let apply = Self::apply_fn();
        let s = Self::spec_prefix(v, 0);
        lemma_fold_opt(s, 1, match v.eresult { Some(x) => Some(enc_i32(x)), None => None }, apply);
        if let Some(x) = v.eresult {
            lemma_i32_roundtrip(x);
        }
        assert(SpecCMsgClientGetAuthorizedDevicesResponse { eresult: v.eresult, ..s } == Self::spec_prefix(v, 1));
    }

    /// Reading field 2 back, after the fields before it.
    proof fn lemma_field_authorized_device(v: SpecCMsgClientGetAuthorizedDevicesResponse)
        requires
            fields_wf(rep_bytes(2, crate::steammessages_clientserver_2::c_msg_client_get_authorized_devices_response::AuthorizedDevice::spec_encode_all(v.authorized_device))),
        ensures
            fold_fields(Self::spec_prefix(v, 1), rep_bytes(2, crate::steammessages_clientserver_2::c_msg_client_get_authorized_devices_response::AuthorizedDevice::spec_encode_all(v.authorized_device)), Self::apply_fn())
                == Ok::<SpecCMsgClientGetAuthorizedDevicesResponse, WireError>(Self::spec_prefix(v, 2)),
    {
        reveal(CMsgClientGetAuthorizedDevicesResponse::spec_prefix);
        reveal(rep_bytes);
        reveal(fields_wf);
        let apply = Self::apply_fn();
        let s = Self::spec_prefix(v, 1);
        let l = rep_bytes(2, crate::steammessages_clientserver_2::c_msg_client_get_authorized_devices_response::AuthorizedDevice::spec_encode_all(v.authorized_device));
        let xs = v.authorized_device;
        let st = Seq::new((xs.len() + 1) as nat, |j: int| SpecCMsgClientGetAuthorizedDevicesResponse { authorized_device: xs.take(j), ..s });
        assert forall|j: int| 0 <= j < l.len() implies #[trigger] apply(st[j], l[j]) == Ok::<SpecCMsgClientGetAuthorizedDevicesResponse, WireError>(st[j + 1]) by {
            assert(field_wf(l[j]));
            crate::steammessages_clientserver_2::c_msg_client_get_authorized_devices_response::AuthorizedDevice::lemma_decode_encode(xs[j]);
            assert(xs.take(j).push(xs[j]) =~= xs.take(j + 1));
        }
        lemma_fold_chain(l, st, apply);
        assert(xs.take(0) =~= Seq::<crate::steammessages_clientserver_2::c_msg_client_get_authorized_devices_response::SpecAuthorizedDevice>::empty());
        assert(xs.take(xs.len() as int) =~= xs);
        assert(st[0] == s);
        assert(st[xs.len() as int] == Self::spec_prefix(v, 2));
    }

    /// Whether this message declares field number `n`.
    pub open spec fn declares(n: u32) -> bool {
        n == 1 || n == 2
    }

    /// A record with a number this message does not declare is passed over: well-formed
    /// bytes decode to the same message with such a record after them as without it.
    pub proof fn lemma_unknown_field(bytes: Seq<u8>, f: SpecField)
        requires
            parse_fields(bytes) is Ok,
            field_wf(f),
            !Self::declares(f.number),
        ensures
            Self::spec_decode(bytes + field_bytes(f)) == Self::spec_decode(bytes),
    {
        reveal(CMsgClientGetAuthorizedDevicesResponse::spec_decode);
        lemma_parse_fields_append(bytes, f);
        let fs = parse_fields(bytes).unwrap();
        let apply = Self::apply_fn();
        lemma_fold_concat(Self::spec_default(), fs, seq![f], apply);
        assert(fs.push(f) =~= fs + seq![f]);
        if let Ok(w) = fold_fields(Self::spec_default(), fs, apply) {
            lemma_fold_single(w, f, apply);
        }
        lemma_merge_run_fold(Self::spec_default(), bytes, apply);
        lemma_merge_run_fold(Self::spec_default(), bytes + field_bytes(f), apply);
    }

    /// Decoding the encoding of a message gives the message back.
    pub proof fn lemma_decode_encode(v: SpecCMsgClientGetAuthorizedDevicesResponse)
        requires
            Self::spec_encode(v).len() <= u64::MAX,
        ensures
            Self::spec_decode(Self::spec_encode(v)) == Ok::<SpecCMsgClientGetAuthorizedDevicesResponse, WireError>(v),
    {
        let apply = Self::apply_fn();
        let d = Self::spec_default();
        let p0 = Seq::<SpecField>::empty();
        let l1 = opt_i32(1, v.eresult);
        let p1 = p0 + l1;
        let l2 = rep_bytes(2, crate::steammessages_clientserver_2::c_msg_client_get_authorized_devices_response::AuthorizedDevice::spec_encode_all(v.authorized_device));
        let p2 = p1 + l2;
        assert(parse_fields(Self::spec_encode(v)) == Ok::<Seq<SpecField>, WireError>(p2) && fields_wf(l2)) by {
            reveal(CMsgClientGetAuthorizedDevicesResponse::spec_encode);
            assert(numbers_ok(p0) && fields_wf(p0)) by {
                reveal(numbers_ok);
                reveal(fields_wf);
            }
            lemma_opt_i32_numbered(1, v.eresult);
            lemma_fields_wf_concat(p0, l1);
            lemma_rep_bytes_numbered(2, crate::steammessages_clientserver_2::c_msg_client_get_authorized_devices_response::AuthorizedDevice::spec_encode_all(v.authorized_device));
            lemma_fields_wf_concat(p1, l2);
            assert(p2 == Self::spec_fields(v));
            lemma_fields_wf_from_len(p2);
            lemma_fields_roundtrip(p2);
        }
        assert(Self::spec_prefix(v, 0) == d) by {
            reveal(CMsgClientGetAuthorizedDevicesResponse::spec_prefix);
        }
        lemma_fold_empty(d, apply);
        lemma_fold_concat(d, p0, l1, apply);
        Self::lemma_field_eresult(v);
        lemma_fold_concat(d, p1, l2, apply);
        Self::lemma_field_authorized_device(v);
        assert(Self::spec_prefix(v, 2) == v) by {
            reveal(CMsgClientGetAuthorizedDevicesResponse::spec_prefix);
        }
        lemma_merge_run_fold(d, Self::spec_encode(v), apply);
        assert(Self::spec_decode(Self::spec_encode(v)) == Ok::<SpecCMsgClientGetAuthorizedDevicesResponse, WireError>(v)) by {
            reveal(CMsgClientGetAuthorizedDevicesResponse::spec_decode);
        }
    }
}

/// `CMsgClientSharedLibraryLockStatus`, as Valve's schema declares it.
#[derive(Debug, Clone, PartialEq)]
pub struct CMsgClientSharedLibraryLockStatus {
    /// Field 1.
    pub locked_library: Vec<crate::steammessages_clientserver_2::c_msg_client_shared_library_lock_status::LockedLibrary>,
    /// Field 2.
    pub own_library_locked_by: Option<u32>,
}

/// What a `CMsgClientSharedLibraryLockStatus` holds, as mathematical values.
#[verifier::ext_equal]
pub struct SpecCMsgClientSharedLibraryLockStatus {
    pub locked_library: Seq<crate::steammessages_clientserver_2::c_msg_client_shared_library_lock_status::SpecLockedLibrary>,
    pub own_library_locked_by: Option<u32>,
}

impl View for CMsgClientSharedLibraryLockStatus {
    type V = SpecCMsgClientSharedLibraryLockStatus;

    open spec fn view(&self) -> SpecCMsgClientSharedLibraryLockStatus {
        SpecCMsgClientSharedLibraryLockStatus {
            locked_library: crate::steammessages_clientserver_2::c_msg_client_shared_library_lock_status::LockedLibrary::view_all(self.locked_library@),
            own_library_locked_by: self.own_library_locked_by,
        }
    }
}

impl Default for CMsgClientSharedLibraryLockStatus {
    fn default() -> (r: Self)
        ensures
            r@ == CMsgClientSharedLibraryLockStatus::spec_default(),
    {
        CMsgClientSharedLibraryLockStatus {
            locked_library: Vec::new(),
            own_library_locked_by: None,
        }
    }
}

impl CMsgClientSharedLibraryLockStatus {
    pub open spec fn spec_default() -> SpecCMsgClientSharedLibraryLockStatus {
        SpecCMsgClientSharedLibraryLockStatus {
            locked_library: Seq::empty(),
            own_library_locked_by: None,
        }
    }

    /// The records a `CMsgClientSharedLibraryLockStatus` is written as, in field order.
    pub open spec fn spec_fields(v: SpecCMsgClientSharedLibraryLockStatus) -> Seq<SpecField> {
        Seq::<SpecField>::empty()
            + rep_bytes(1, crate::steammessages_clientserver_2::c_msg_client_shared_library_lock_status::LockedLibrary::spec_encode_all(v.locked_library))
            + opt_u32(2, v.own_library_locked_by)
    }

    #[verifier::opaque]
    pub open spec fn spec_encode(v: SpecCMsgClientSharedLibraryLockStatus) -> Seq<u8> {
        fields_bytes(Self::spec_fields(v))
    }

    /// What one record does to the message: a declared number sets or extends its
    /// field, any other number is left alone.
    pub open spec fn spec_apply(v: SpecCMsgClientSharedLibraryLockStatus, f: SpecField) -> Result<SpecCMsgClientSharedLibraryLockStatus, WireError> {
        match f.number {
            1 => match dec_bytes(f.value) {
                Ok(b) => match crate::steammessages_clientserver_2::c_msg_client_shared_library_lock_status::LockedLibrary::spec_decode(b) {
                    Ok(m) => Ok(SpecCMsgClientSharedLibraryLockStatus { locked_library: v.locked_library.push(m), ..v }),
                    Err(e) => Err(e),
                },
                Err(e) => Err(e),
            },
            2 => match dec_u32(f.value) {
                Ok(x) => Ok(SpecCMsgClientSharedLibraryLockStatus { own_library_locked_by: Some(x), ..v }),
                Err(e) => Err(e),
            },
            _ => Ok(v),
        }
    }

    pub open spec fn apply_fn() -> spec_fn(SpecCMsgClientSharedLibraryLockStatus, SpecField) -> Result<SpecCMsgClientSharedLibraryLockStatus, WireError> {
        |v: SpecCMsgClientSharedLibraryLockStatus, f: SpecField| Self::spec_apply(v, f)
    }

    /// The message `bytes` makes of `v`: its records applied in order, or the error
    /// that stops the reading.
    pub open spec fn spec_merge(v: SpecCMsgClientSharedLibraryLockStatus, bytes: Seq<u8>) -> Result<SpecCMsgClientSharedLibraryLockStatus, WireError> {
        let (w, stop) = merge_run(v, bytes, Self::apply_fn());
        match stop {
            None => Ok(w),
            Some(e) => Err(e),
        }
    }

    #[verifier::opaque]
    pub open spec fn spec_decode(bytes: Seq<u8>) -> Result<SpecCMsgClientSharedLibraryLockStatus, WireError> {
        Self::spec_merge(Self::spec_default(), bytes)
    }

    /// This message with one record applied to it, or, when the record is refused,
    /// the message unchanged and the reason.
    fn applied(self, f: &Field) -> (r: Result<Self, (Self, WireError)>)
        ensures
            match Self::spec_apply(self@, f@) {
                Ok(v) => r matches Ok(m) && m@ == v,
                Err(e) => r matches Err((m, x)) && x == e && m@ == self@,
            },
    {
        match f.number {
            1 => match read_payload(&f.value) {
                Ok(b) => match crate::steammessages_clientserver_2::c_msg_client_shared_library_lock_status::LockedLibrary::decode(b) {
                    Ok(x) => {
                        let mut m = self;
                        let ghost before = m.locked_library@;
                        m.locked_library.push(x);
                        assert(crate::steammessages_clientserver_2::c_msg_client_shared_library_lock_status::LockedLibrary::view_all(m.locked_library@) =~= crate::steammessages_clientserver_2::c_msg_client_shared_library_lock_status::LockedLibrary::view_all(before).push(x@));
                        Ok(m)
                    },
                    Err(e) => Err((self, e)),
                },
                Err(e) => Err((self, e)),
            },
            2 => match read_u32(&f.value) {
                Ok(x) => Ok(Self { own_library_locked_by: Some(x), ..self }),
                Err(e) => Err((self, e)),
            },
            _ => Ok(self),
        }
    }

    /// Reads the records `bytes` holds into this message, in order. When a record does
    /// not parse or is refused, the reading stops there: the message keeps what the
    /// records before it gave, and the error is returned.
    pub fn merge(&mut self, bytes: &[u8]) -> (r: Result<(), WireError>)
        ensures
            final(self)@ == merge_run(old(self)@, bytes@, Self::apply_fn()).0,
            r == match merge_run(old(self)@, bytes@, Self::apply_fn()).1 {
                None => Ok::<(), WireError>(()),
                Some(e) => Err::<(), WireError>(e),
            },
    {
        let ghost total = merge_run(self@, bytes@, Self::apply_fn());
        let mut cur = Self::default();
        std::mem::swap(&mut cur, self);
        let mut pos: usize = 0;
        assert(bytes@.skip(0) =~= bytes@);
        while pos < bytes.len()
            invariant
                pos <= bytes@.len(),
                total == merge_run(old(self)@, bytes@, Self::apply_fn()),
                merge_run(cur@, bytes@.skip(pos as int), Self::apply_fn()) == total,
            decreases bytes@.len() - pos,
        {
            let ghost s = bytes@.skip(pos as int);
            proof {
                lemma_merge_run_step(cur@, s, Self::apply_fn());
                lemma_parse_field_len(s);
            }
            match read_field(bytes, pos) {
                Ok((f, end)) => {
                    assert(bytes@.skip(end as int) =~= s.skip((end - pos) as int));
                    match cur.applied(&f) {
                        Ok(m) => {
                            cur = m;
                        },
                        Err((m, e)) => {
                            *self = m;
                            return Err(e);
                        },
                    }
                    pos = end;
                },
                Err(e) => {
                    *self = cur;
                    return Err(e);
                },
            }
        }
        assert(bytes@.skip(pos as int) =~= Seq::<u8>::empty());
        proof {
            lemma_merge_run_empty(cur@, Self::apply_fn());
        }
        *self = cur;
        Ok(())
    }

    /// Decodes a message from its encoding.
    pub fn decode(bytes: &[u8]) -> (r: Result<Self, WireError>)
        ensures
            match Self::spec_decode(bytes@) {
                Ok(v) => r matches Ok(m) && m@ == v,
                Err(e) => r matches Err(x) && x == e,
            },
    {
        proof {
            reveal(CMsgClientSharedLibraryLockStatus::spec_decode);
        }
        let mut m = Self::default();
        match m.merge(bytes) {
            Ok(()) => Ok(m),
            Err(e) => Err(e),
        }
    }

    /// The encoding of this message.
    pub fn encode_to_vec(&self) -> (r: Vec<u8>)
        ensures
            r@ == Self::spec_encode(self@),
    {
        let enc_locked_library = crate::steammessages_clientserver_2::c_msg_client_shared_library_lock_status::LockedLibrary::encode_all(&self.locked_library);
        let ghost v = self@;
        let mut out: Vec<u8> = Vec::new();
        let ghost p0 = Seq::<SpecField>::empty();
        put_rep_bytes(&mut out, 1, &enc_locked_library);
        let ghost p1 = p0 + rep_bytes(1, crate::steammessages_clientserver_2::c_msg_client_shared_library_lock_status::LockedLibrary::spec_encode_all(v.locked_library));
        proof {
            lemma_fields_bytes_concat(p0, rep_bytes(1, crate::steammessages_clientserver_2::c_msg_client_shared_library_lock_status::LockedLibrary::spec_encode_all(v.locked_library)));
        }
        put_opt_u32(&mut out, 2, self.own_library_locked_by);
        let ghost p2 = p1 + opt_u32(2, v.own_library_locked_by);
        proof {
            lemma_fields_bytes_concat(p1, opt_u32(2, v.own_library_locked_by));
        }
        proof {
            reveal(CMsgClientSharedLibraryLockStatus::spec_encode);
        }
        assert(p2 == Self::spec_fields(v));
        out
    }

    /// Appends the encoding of this message to `out`.
    pub fn encode_raw(&self, out: &mut Vec<u8>)
        ensures
            final(out)@ == old(out)@ + Self::spec_encode(self@),
    {
        let mut b = self.encode_to_vec();
        out.append(&mut b);
    }

    /// The first `k` fields of `v`, the others as a fresh message has them.
    #[verifier::opaque]
    pub open spec fn spec_prefix(v: SpecCMsgClientSharedLibraryLockStatus, k: int) -> SpecCMsgClientSharedLibraryLockStatus {
        SpecCMsgClientSharedLibraryLockStatus {
            locked_library: if 1 <= k { v.locked_library } else { Seq::empty() },
            own_library_locked_by: if 2 <= k { v.own_library_locked_by } else { None },
        }
    }

    /// Reading field 1 back, after the fields before it.
    proof fn lemma_field_locked_library(v: SpecCMsgClientSharedLibraryLockStatus)
        requires
            fields_wf(rep_bytes(1, crate::steammessages_clientserver_2::c_msg_client_shared_library_lock_status::LockedLibrary::spec_encode_all(v.locked_library))),
        ensures
            fold_fields(Self::spec_prefix(v, 0), rep_bytes(1, crate::steammessages_clientserver_2::c_msg_client_shared_library_lock_status::LockedLibrary::spec_encode_all(v.locked_library)), Self::apply_fn())
                == Ok::<SpecCMsgClientSharedLibraryLockStatus, WireError>(Self::spec_prefix(v, 1)),
    {
        reveal(CMsgClientSharedLibraryLockStatus::spec_prefix);
        reveal(rep_bytes);
        reveal(fields_wf);
        let apply = Self::apply_fn();
        let s = Self::spec_prefix(v, 0);
        let l = rep_bytes(1, crate::steammessages_clientserver_2::c_msg_client_shared_library_lock_status::LockedLibrary::spec_encode_all(v.locked_library));
        let xs = v.locked_library;
        let st = Seq::new((xs.len() + 1) as nat, |j: int| SpecCMsgClientSharedLibraryLockStatus { locked_library: xs.take(j), ..s });
        assert forall|j: int| 0 <= j < l.len() implies #[trigger] apply(st[j], l[j]) == Ok::<SpecCMsgClientSharedLibraryLockStatus, WireError>(st[j + 1]) by {
            assert(field_wf(l[j]));
            crate::steammessages_clientserver_2::c_msg_client_shared_library_lock_status::LockedLibrary::lemma_decode_encode(xs[j]);
            assert(xs.take(j).push(xs[j]) =~= xs.take(j + 1));
        }
        lemma_fold_chain(l, st, apply);
        assert(xs.take(0) =~= Seq::<crate::steammessages_clientserver_2::c_msg_client_shared_library_lock_status::SpecLockedLibrary>::empty());
        assert(xs.take(xs.len() as int) =~= xs);
        assert(st[0] == s);
        assert(st[xs.len() as int] == Self::spec_prefix(v, 1));
    }

    /// Reading field 2 back, after the fields before it.
    proof fn lemma_field_own_library_locked_by(v: SpecCMsgClientSharedLibraryLockStatus)
        ensures
            fold_fields(Self::spec_prefix(v, 1), opt_u32(2, v.own_library_locked_by), Self::apply_fn())
                == Ok::<SpecCMsgClientSharedLibraryLockStatus, WireError>(Self::spec_prefix(v, 2)),
    {
        reveal(CMsgClientSharedLibraryLockStatus::spec_prefix);
        reveal(opt_u32);
        let apply = Self::apply_fn();
        let s = Self::spec_prefix(v, 1);
        lemma_fold_opt(s, 2, match v.own_library_locked_by { Some(x) => Some(enc_u32(x)), None => None }, apply);
        if let Some(x) = v.own_library_locked_by {
            lemma_u32_roundtrip(x);
        }
        assert(SpecCMsgClientSharedLibraryLockStatus { own_library_locked_by: v.own_library_locked_by, ..s } == Self::spec_prefix(v, 2));
    }

    /// Whether this message declares field number `n`.
    pub open spec fn declares(n: u32) -> bool {
        n == 1 || n == 2
    }

    /// A record with a number this message does not declare is passed over: well-formed
    /// bytes decode to the same message with such a record after them as without it.
    pub proof fn lemma_unknown_field(bytes: Seq<u8>, f: SpecField)
        requires
            parse_fields(bytes) is Ok,
            field_wf(f),
            !Self::declares(f.number),
        ensures
            Self::spec_decode(bytes + field_bytes(f)) == Self::spec_decode(bytes),
    {
        reveal(CMsgClientSharedLibraryLockStatus::spec_decode);
        lemma_parse_fields_append(bytes, f);
        let fs = parse_fields(bytes).unwrap();
        let apply = Self::apply_fn();
        lemma_fold_concat(Self::spec_default(), fs, seq![f], apply);
        assert(fs.push(f) =~= fs + seq![f]);
        if let Ok(w) = fold_fields(Self::spec_default(), fs, apply) {
            lemma_fold_single(w, f, apply);
        }
        lemma_merge_run_fold(Self::spec_default(), bytes, apply);
        lemma_merge_run_fold(Self::spec_default(), bytes + field_bytes(f), apply);
    }

    /// Decoding the encoding of a message gives the message back.
    pub proof fn lemma_decode_encode(v: SpecCMsgClientSharedLibraryLockStatus)
        requires
            Self::spec_encode(v).len() <= u64::MAX,
        ensures
            Self::spec_decode(Self::spec_encode(v)) == Ok::<SpecCMsgClientSharedLibraryLockStatus, WireError>(v),
    {
        let apply = Self::apply_fn();
        let d = Self::spec_default();
        let p0 = Seq::<SpecField>::empty();
        let l1 = rep_bytes(1, crate::steammessages_clientserver_2::c_msg_client_shared_library_lock_status::LockedLibrary::spec_encode_all(v.locked_library));
        let p1 = p0 + l1;
        let l2 = opt_u32(2, v.own_library_locked_by);
        let p2 = p1 + l2;
        assert(parse_fields(Self::spec_encode(v)) == Ok::<Seq<SpecField>, WireError>(p2) && fields_wf(l1)) by {
            reveal(CMsgClientSharedLibraryLockStatus::spec_encode);
            assert(numbers_ok(p0) && fields_wf(p0)) by {
                reveal(numbers_ok);
                reveal(fields_wf);
            }
            lemma_rep_bytes_numbered(1, crate::steammessages_clientserver_2::c_msg_client_shared_library_lock_status::LockedLibrary::spec_encode_all(v.locked_library));
            lemma_fields_wf_concat(p0, l1);
            lemma_opt_u32_numbered(2, v.own_library_locked_by);
            lemma_fields_wf_concat(p1, l2);
            assert(p2 == Self::spec_fields(v));
            lemma_fields_wf_from_len(p2);
            lemma_fields_roundtrip(p2);
        }
        assert(Self::spec_prefix(v, 0) == d) by {
            reveal(CMsgClientSharedLibraryLockStatus::spec_prefix);
        }
        lemma_fold_empty(d, apply);
        lemma_fold_concat(d, p0, l1, apply);
        Self::lemma_field_locked_library(v);
        lemma_fold_concat(d, p1, l2, apply);
        Self::lemma_field_own_library_locked_by(v);
        assert(Self::spec_prefix(v, 2) == v) by {
            reveal(CMsgClientSharedLibraryLockStatus::spec_prefix);
        }
        lemma_merge_run_fold(d, Self::spec_encode(v), apply);
        assert(Self::spec_decode(Self::spec_encode(v)) == Ok::<SpecCMsgClientSharedLibraryLockStatus, WireError>(v)) by {
            reveal(CMsgClientSharedLibraryLockStatus::spec_decode);
        }
    }
}

/// `CMsgClientSharedLibraryStopPlaying`, as Valve's schema declares it.
#[derive(Debug, Clone, PartialEq)]
pub struct CMsgClientSharedLibraryStopPlaying {
    /// Field 1.
    pub seconds_left: Option<i32>,
    /// Field 2.
    pub stop_apps: Vec<crate::steammessages_clientserver_2::c_msg_client_shared_library_stop_playing::StopApp>,
}

/// What a `CMsgClientSharedLibraryStopPlaying` holds, as mathematical values.
#[verifier::ext_equal]
pub struct SpecCMsgClientSharedLibraryStopPlaying {
    pub seconds_left: Option<i32>,
    pub stop_apps: Seq<crate::steammessages_clientserver_2::c_msg_client_shared_library_stop_playing::SpecStopApp>,
}

impl View for CMsgClientSharedLibraryStopPlaying {
    type V = SpecCMsgClientSharedLibraryStopPlaying;

    open spec fn view(&self) -> SpecCMsgClientSharedLibraryStopPlaying {
        SpecCMsgClientSharedLibraryStopPlaying {
            seconds_left: self.seconds_left,
            stop_apps: crate::steammessages_clientserver_2::c_msg_client_shared_library_stop_playing::StopApp::view_all(self.stop_apps@),
        }
    }
}

impl Default for CMsgClientSharedLibraryStopPlaying {
    fn default() -> (r: Self)
        ensures
            r@ == CMsgClientSharedLibraryStopPlaying::spec_default(),
    {
        CMsgClientSharedLibraryStopPlaying {
            seconds_left: None,
            stop_apps: Vec::new(),
        }
    }
}

impl CMsgClientSharedLibraryStopPlaying {
    pub open spec fn spec_default() -> SpecCMsgClientSharedLibraryStopPlaying {
        SpecCMsgClientSharedLibraryStopPlaying {
            seconds_left: None,
            stop_apps: Seq::empty(),
        }
    }

    /// The records a `CMsgClientSharedLibraryStopPlaying` is written as, in field order.
    pub open spec fn spec_fields(v: SpecCMsgClientSharedLibraryStopPlaying) -> Seq<SpecField> {
        Seq::<SpecField>::empty()
            + opt_i32(1, v.seconds_left)
            + rep_bytes(2, crate::steammessages_clientserver_2::c_msg_client_shared_library_stop_playing::StopApp::spec_encode_all(v.stop_apps))
    }

    #[verifier::opaque]
    pub open spec fn spec_encode(v: SpecCMsgClientSharedLibraryStopPlaying) -> Seq<u8> {
        fields_bytes(Self::spec_fields(v))
    }

    /// What one record does to the message: a declared number sets or extends its
    /// field, any other number is left alone.
    pub open spec fn spec_apply(v: SpecCMsgClientSharedLibraryStopPlaying, f: SpecField) -> Result<SpecCMsgClientSharedLibraryStopPlaying, WireError> {
        match f.number {
            1 => match dec_i32(f.value) {
                Ok(x) => Ok(SpecCMsgClientSharedLibraryStopPlaying { seconds_left: Some(x), ..v }),
                Err(e) => Err(e),
            },
            2 => match dec_bytes(f.value) {
                Ok(b) => match crate::steammessages_clientserver_2::c_msg_client_shared_library_stop_playing::StopApp::spec_decode(b) {
                    Ok(m) => Ok(SpecCMsgClientSharedLibraryStopPlaying { stop_apps: v.stop_apps.push(m), ..v }),
                    Err(e) => Err(e),
                },
                Err(e) => Err(e),
            },
            _ => Ok(v),
        }
    }

    pub open spec fn apply_fn() -> spec_fn(SpecCMsgClientSharedLibraryStopPlaying, SpecField) -> Result<SpecCMsgClientSharedLibraryStopPlaying, WireError> {
        |v: SpecCMsgClientSharedLibraryStopPlaying, f: SpecField| Self::spec_apply(v, f)
    }

    /// The message `bytes` makes of `v`: its records applied in order, or the error
    /// that stops the reading.
    pub open spec fn spec_merge(v: SpecCMsgClientSharedLibraryStopPlaying, bytes: Seq<u8>) -> Result<SpecCMsgClientSharedLibraryStopPlaying, WireError> {
        let (w, stop) = merge_run(v, bytes, Self::apply_fn());
        match stop {
            None => Ok(w),
            Some(e) => Err(e),
        }
    }

    #[verifier::opaque]
    pub open spec fn spec_decode(bytes: Seq<u8>) -> Result<SpecCMsgClientSharedLibraryStopPlaying, WireError> {
        Self::spec_merge(Self::spec_default(), bytes)
    }

    /// This message with one record applied to it, or, when the record is refused,
    /// the message unchanged and the reason.
    fn applied(self, f: &Field) -> (r: Result<Self, (Self, WireError)>)
        ensures
            match Self::spec_apply(self@, f@) {
                Ok(v) => r matches Ok(m) && m@ == v,
                Err(e) => r matches Err((m, x)) && x == e && m@ == self@,
            },
    {
        match f.number {
            1 => match read_i32(&f.value) {
                Ok(x) => Ok(Self { seconds_left: Some(x), ..self }),
                Err(e) => Err((self, e)),
            },
            2 => match read_payload(&f.value) {
                Ok(b) => match crate::steammessages_clientserver_2::c_msg_client_shared_library_stop_playing::StopApp::decode(b) {
                    Ok(x) => {
                        let mut m = self;
                        let ghost before = m.stop_apps@;
                        m.stop_apps.push(x);
                        assert(crate::steammessages_clientserver_2::c_msg_client_shared_library_stop_playing::StopApp::view_all(m.stop_apps@) =~= crate::steammessages_clientserver_2::c_msg_client_shared_library_stop_playing::StopApp::view_all(before).push(x@));
                        Ok(m)
                    },
                    Err(e) => Err((self, e)),
                },
                Err(e) => Err((self, e)),
            },
            _ => Ok(self),
        }
    }

    /// Reads the records `bytes` holds into this message, in order. When a record does
    /// not parse or is refused, the reading stops there: the message keeps what the
    /// records before it gave, and the error is returned.
    pub fn merge(&mut self, bytes: &[u8]) -> (r: Result<(), WireError>)
        ensures
            final(self)@ == merge_run(old(self)@, bytes@, Self::apply_fn()).0,
            r == match merge_run(old(self)@, bytes@, Self::apply_fn()).1 {
                None => Ok::<(), WireError>(()),
                Some(e) => Err::<(), WireError>(e),
            },
    {
        let ghost total = merge_run(self@, bytes@, Self::apply_fn());
        let mut cur = Self::default();
        std::mem::swap(&mut cur, self);
        let mut pos: usize = 0;
        assert(bytes@.skip(0) =~= bytes@);
        while pos < bytes.len()
            invariant
                pos <= bytes@.len(),
                total == merge_run(old(self)@, bytes@, Self::apply_fn()),
                merge_run(cur@, bytes@.skip(pos as int), Self::apply_fn()) == total,
            decreases bytes@.len() - pos,
        {
            let ghost s = bytes@.skip(pos as int);
            proof {
                lemma_merge_run_step(cur@, s, Self::apply_fn());
                lemma_parse_field_len(s);
            }
            match read_field(bytes, pos) {
                Ok((f, end)) => {
                    assert(bytes@.skip(end as int) =~= s.skip((end - pos) as int));
                    match cur.applied(&f) {
                        Ok(m) => {
                            cur = m;
                        },
                        Err((m, e)) => {
                            *self = m;
                            return Err(e);
                        },
                    }
                    pos = end;
                },
                Err(e) => {
                    *self = cur;
                    return Err(e);
                },
            }
        }
        assert(bytes@.skip(pos as int) =~= Seq::<u8>::empty());
        proof {
            lemma_merge_run_empty(cur@, Self::apply_fn());
        }
        *self = cur;
        Ok(())
    }

    /// Decodes a message from its encoding.
    pub fn decode(bytes: &[u8]) -> (r: Result<Self, WireError>)
        ensures
            match Self::spec_decode(bytes@) {
                Ok(v) => r matches Ok(m) && m@ == v,
                Err(e) => r matches Err(x) && x == e,
            },
    {
        proof {
            reveal(CMsgClientSharedLibraryStopPlaying::spec_decode);
        }
        let mut m = Self::default();
        match m.merge(bytes) {
            Ok(()) => Ok(m),
            Err(e) => Err(e),
        }
    }

    /// The encoding of this message.
    pub fn encode_to_vec(&self) -> (r: Vec<u8>)
        ensures
            r@ == Self::spec_encode(self@),
    {
        let enc_stop_apps = crate::steammessages_clientserver_2::c_msg_client_shared_library_stop_playing::StopApp::encode_all(&self.stop_apps);
        let ghost v = self@;
        let mut out: Vec<u8> = Vec::new();
        let ghost p0 = Seq::<SpecField>::empty();
        put_opt_i32(&mut out, 1, self.seconds_left);
        let ghost p1 = p0 + opt_i32(1, v.seconds_left);
        proof {
            lemma_fields_bytes_concat(p0, opt_i32(1, v.seconds_left));
        }
        put_rep_bytes(&mut out, 2, &enc_stop_apps);
        let ghost p2 = p1 + rep_bytes(2, crate::steammessages_clientserver_2::c_msg_client_shared_library_stop_playing::StopApp::spec_encode_all(v.stop_apps));
        proof {
            lemma_fields_bytes_concat(p1, rep_bytes(2, crate::steammessages_clientserver_2::c_msg_client_shared_library_stop_playing::StopApp::spec_encode_all(v.stop_apps)));
        }
        proof {
            reveal(CMsgClientSharedLibraryStopPlaying::spec_encode);
        }
        assert(p2 == Self::spec_fields(v));
        out
    }

    /// Appends the encoding of this message to `out`.
    pub fn encode_raw(&self, out: &mut Vec<u8>)
        ensures
            final(out)@ == old(out)@ + Self::spec_encode(self@),
    {
        let mut b = self.encode_to_vec();
        out.append(&mut b);
    }

    /// The first `k` fields of `v`, the others as a fresh message has them.
    #[verifier::opaque]
    pub open spec fn spec_prefix(v: SpecCMsgClientSharedLibraryStopPlaying, k: int) -> SpecCMsgClientSharedLibraryStopPlaying {
        SpecCMsgClientSharedLibraryStopPlaying {
            seconds_left: if 1 <= k { v.seconds_left } else { None },
            stop_apps: if 2 <= k { v.stop_apps } else { Seq::empty() },
        }
    }

    /// Reading field 1 back, after the fields before it.
    proof fn lemma_field_seconds_left(v: SpecCMsgClientSharedLibraryStopPlaying)
        ensures
            fold_fields(Self::spec_prefix(v, 0), opt_i32(1, v.seconds_left), Self::apply_fn())
                == Ok::<SpecCMsgClientSharedLibraryStopPlaying, WireError>(Self::spec_prefix(v, 1)),
    {
        reveal(CMsgClientSharedLibraryStopPlaying::spec_prefix);
        reveal(opt_i32);
        let apply = Self::apply_fn();
        let s = Self::spec_prefix(v, 0);
        lemma_fold_opt(s, 1, match v.seconds_left { Some(x) => Some(enc_i32(x)), None => None }, apply);
        if let Some(x) = v.seconds_left {
            lemma_i32_roundtrip(x);
        }
        assert(SpecCMsgClientSharedLibraryStopPlaying { seconds_left: v.seconds_left, ..s } == Self::spec_prefix(v, 1));
    }

    /// Reading field 2 back, after the fields before it.
    proof fn lemma_field_stop_apps(v: SpecCMsgClientSharedLibraryStopPlaying)
        requires
            fields_wf(rep_bytes(2, crate::steammessages_clientserver_2::c_msg_client_shared_library_stop_playing::StopApp::spec_encode_all(v.stop_apps))),
        ensures
            fold_fields(Self::spec_prefix(v, 1), rep_bytes(2, crate::steammessages_clientserver_2::c_msg_client_shared_library_stop_playing::StopApp::spec_encode_all(v.stop_apps)), Self::apply_fn())
                == Ok::<SpecCMsgClientSharedLibraryStopPlaying, WireError>(Self::spec_prefix(v, 2)),
    {
        reveal(CMsgClientSharedLibraryStopPlaying::spec_prefix);
        reveal(rep_bytes);
        reveal(fields_wf);
        let apply = Self::apply_fn();
        let s = Self::spec_prefix(v, 1);
        let l = rep_bytes(2, crate::steammessages_clientserver_2::c_msg_client_shared_library_stop_playing::StopApp::spec_encode_all(v.stop_apps));
        let xs = v.stop_apps;
        let st = Seq::new((xs.len() + 1) as nat, |j: int| SpecCMsgClientSharedLibraryStopPlaying { stop_apps: xs.take(j), ..s });
        assert forall|j: int| 0 <= j < l.len() implies #[trigger] apply(st[j], l[j]) == Ok::<SpecCMsgClientSharedLibraryStopPlaying, WireError>(st[j + 1]) by {
            assert(field_wf(l[j]));
            crate::steammessages_clientserver_2::c_msg_client_shared_library_stop_playing::StopApp::lemma_decode_encode(xs[j]);
            assert(xs.take(j).push(xs[j]) =~= xs.take(j + 1));
        }
        lemma_fold_chain(l, st, apply);
        assert(xs.take(0) =~= Seq::<crate::steammessages_clientserver_2::c_msg_client_shared_library_stop_playing::SpecStopApp>::empty());
        assert(xs.take(xs.len() as int) =~= xs);
        assert(st[0] == s);
        assert(st[xs.len() as int] == Self::spec_prefix(v, 2));
    }

    /// Whether this message declares field number `n`.
    pub open spec fn declares(n: u32) -> bool {
        n == 1 || n == 2
    }

    /// A record with a number this message does not declare is passed over: well-formed
    /// bytes decode to the same message with such a record after them as without it.
    pub proof fn lemma_unknown_field(bytes: Seq<u8>, f: SpecField)
        requires
            parse_fields(bytes) is Ok,
            field_wf(f),
            !Self::declares(f.number),
        ensures
            Self::spec_decode(bytes + field_bytes(f)) == Self::spec_decode(bytes),
    {
        reveal(CMsgClientSharedLibraryStopPlaying::spec_decode);
        lemma_parse_fields_append(bytes, f);
        let fs = parse_fields(bytes).unwrap();
        let apply = Self::apply_fn();
        lemma_fold_concat(Self::spec_default(), fs, seq![f], apply);
        assert(fs.push(f) =~= fs + seq![f]);
        if let Ok(w) = fold_fields(Self::spec_default(), fs, apply) {
            lemma_fold_single(w, f, apply);
        }
        lemma_merge_run_fold(Self::spec_default(), bytes, apply);
        lemma_merge_run_fold(Self::spec_default(), bytes + field_bytes(f), apply);
    }

    /// Decoding the encoding of a message gives the message back.
    pub proof fn lemma_decode_encode(v: SpecCMsgClientSharedLibraryStopPlaying)
        requires
            Self::spec_encode(v).len() <= u64::MAX,
        ensures
            Self::spec_decode(Self::spec_encode(v)) == Ok::<SpecCMsgClientSharedLibraryStopPlaying, WireError>(v),
    {
        let apply = Self::apply_fn();
        let d = Self::spec_default();
        let p0 = Seq::<SpecField>::empty();
        let l1 = opt_i32(1, v.seconds_left);
        let p1 = p0 + l1;
        let l2 = rep_bytes(2, crate::steammessages_clientserver_2::c_msg_client_shared_library_stop_playing::StopApp::spec_encode_all(v.stop_apps));
        let p2 = p1 + l2;
        assert(parse_fields(Self::spec_encode(v)) == Ok::<Seq<SpecField>, WireError>(p2) && fields_wf(l2)) by {
            reveal(CMsgClientSharedLibraryStopPlaying::spec_encode);
            assert(numbers_ok(p0) && fields_wf(p0)) by {
                reveal(numbers_ok);
                reveal(fields_wf);
            }
            lemma_opt_i32_numbered(1, v.seconds_left);
            lemma_fields_wf_concat(p0, l1);
            lemma_rep_bytes_numbered(2, crate::steammessages_clientserver_2::c_msg_client_shared_library_stop_playing::StopApp::spec_encode_all(v.stop_apps));
            lemma_fields_wf_concat(p1, l2);
            assert(p2 == Self::spec_fields(v));
            lemma_fields_wf_from_len(p2);
            lemma_fields_roundtrip(p2);
        }
        assert(Self::spec_prefix(v, 0) == d) by {
            reveal(CMsgClientSharedLibraryStopPlaying::spec_prefix);
        }
        lemma_fold_empty(d, apply);
        lemma_fold_concat(d, p0, l1, apply);
        Self::lemma_field_seconds_left(v);
        lemma_fold_concat(d, p1, l2, apply);
        Self::lemma_field_stop_apps(v);
        assert(Self::spec_prefix(v, 2) == v) by {
            reveal(CMsgClientSharedLibraryStopPlaying::spec_prefix);
        }
        lemma_merge_run_fold(d, Self::spec_encode(v), apply);
        assert(Self::spec_decode(Self::spec_encode(v)) == Ok::<SpecCMsgClientSharedLibraryStopPlaying, WireError>(v)) by {
            reveal(CMsgClientSharedLibraryStopPlaying::spec_decode);
        }
    }
}

/// `CMsgClientServiceCall`, as Valve's schema declares it.
#[derive(Debug, Clone, PartialEq)]
pub struct CMsgClientServiceCall {
    /// Field 1.
    pub sysid_routing: Option<Vec<u8>>,
    /// Field 2.
    pub call_handle: Option<u32>,
    /// Field 3.
    pub module_crc: Option<u32>,
    /// Field 4.
    pub module_hash: Option<Vec<u8>>,
    /// Field 5.
    pub function_id: Option<u32>,
    /// Field 6.
    pub cub_output_max: Option<u32>,
    /// Field 7.
    pub flags: Option<u32>,
    /// Field 8.
    pub callparameter: Option<Vec<u8>>,
    /// Field 9.
    pub ping_only: Option<bool>,
    /// Field 10.
    pub max_outstanding_calls: Option<u32>,
    /// Field 11.
    pub app_id: Option<u32>,
}

/// What a `CMsgClientServiceCall` holds, as mathematical values.
#[verifier::ext_equal]
pub struct SpecCMsgClientServiceCall {
    pub sysid_routing: Option<Seq<u8>>,
    pub call_handle: Option<u32>,
    pub module_crc: Option<u32>,
    pub module_hash: Option<Seq<u8>>,
    pub function_id: Option<u32>,
    pub cub_output_max: Option<u32>,
    pub flags: Option<u32>,
    pub callparameter: Option<Seq<u8>>,
    pub ping_only: Option<bool>,
    pub max_outstanding_calls: Option<u32>,
    pub app_id: Option<u32>,
}

impl View for CMsgClientServiceCall {
    type V = SpecCMsgClientServiceCall;

    open spec fn view(&self) -> SpecCMsgClientServiceCall {
        SpecCMsgClientServiceCall {
            sysid_routing: opt_bytes_view(self.sysid_routing),
            call_handle: self.call_handle,
            module_crc: self.module_crc,
            module_hash: opt_bytes_view(self.module_hash),
            function_id: self.function_id,
            cub_output_max: self.cub_output_max,
            flags: self.flags,
            callparameter: opt_bytes_view(self.callparameter),
            ping_only: self.ping_only,
            max_outstanding_calls: self.max_outstanding_calls,
            app_id: self.app_id,
        }
    }
}

impl Default for CMsgClientServiceCall {
    fn default() -> (r: Self)
        ensures
            r@ == CMsgClientServiceCall::spec_default(),
    {
        CMsgClientServiceCall {
            sysid_routing: None,
            call_handle: None,
            module_crc: None,
            module_hash: None,
            function_id: None,
            cub_output_max: None,
            flags: None,
            callparameter: None,
            ping_only: None,
            max_outstanding_calls: None,
            app_id: None,
        }
    }
}

impl CMsgClientServiceCall {
    pub open spec fn spec_default() -> SpecCMsgClientServiceCall {
        SpecCMsgClientServiceCall {
            sysid_routing: None,
            call_handle: None,
            module_crc: None,
            module_hash: None,
            function_id: None,
            cub_output_max: None,
            flags: None,
            callparameter: None,
            ping_only: None,
            max_outstanding_calls: None,
            app_id: None,
        }
    }

    /// The records a `CMsgClientServiceCall` is written as, in field order.
    pub open spec fn spec_fields(v: SpecCMsgClientServiceCall) -> Seq<SpecField> {
        Seq::<SpecField>::empty()
            + opt_bytes(1, v.sysid_routing)
            + opt_u32(2, v.call_handle)
            + opt_u32(3, v.module_crc)
            + opt_bytes(4, v.module_hash)
            + opt_u32(5, v.function_id)
            + opt_u32(6, v.cub_output_max)
            + opt_u32(7, v.flags)
            + opt_bytes(8, v.callparameter)
            + opt_bool(9, v.ping_only)
            + opt_u32(10, v.max_outstanding_calls)
            + opt_u32(11, v.app_id)
    }

    #[verifier::opaque]
    pub open spec fn spec_encode(v: SpecCMsgClientServiceCall) -> Seq<u8> {
        fields_bytes(Self::spec_fields(v))
    }

    /// What one record does to the message: a declared number sets or extends its
    /// field, any other number is left alone.
    pub open spec fn spec_apply(v: SpecCMsgClientServiceCall, f: SpecField) -> Result<SpecCMsgClientServiceCall, WireError> {
        match f.number {
            1 => match dec_bytes(f.value) {
                Ok(x) => Ok(SpecCMsgClientServiceCall { sysid_routing: Some(x), ..v }),
                Err(e) => Err(e),
            },
            2 => match dec_u32(f.value) {
                Ok(x) => Ok(SpecCMsgClientServiceCall { call_handle: Some(x), ..v }),
                Err(e) => Err(e),
            },
            3 => match dec_u32(f.value) {
                Ok(x) => Ok(SpecCMsgClientServiceCall { module_crc: Some(x), ..v }),
                Err(e) => Err(e),
            },
            4 => match dec_bytes(f.value) {
                Ok(x) => Ok(SpecCMsgClientServiceCall { module_hash: Some(x), ..v }),
                Err(e) => Err(e),
            },
            5 => match dec_u32(f.value) {
                Ok(x) => Ok(SpecCMsgClientServiceCall { function_id: Some(x), ..v }),
                Err(e) => Err(e),
            },
            6 => match dec_u32(f.value) {
                Ok(x) => Ok(SpecCMsgClientServiceCall { cub_output_max: Some(x), ..v }),
                Err(e) => Err(e),
            },
            7 => match dec_u32(f.value) {
                Ok(x) => Ok(SpecCMsgClientServiceCall { flags: Some(x), ..v }),
                Err(e) => Err(e),
            },
            8 => match dec_bytes(f.value) {
                Ok(x) => Ok(SpecCMsgClientServiceCall { callparameter: Some(x), ..v }),
                Err(e) => Err(e),
            },
            9 => match dec_bool(f.value) {
                Ok(x) => Ok(SpecCMsgClientServiceCall { ping_only: Some(x), ..v }),
                Err(e) => Err(e),
            },
            10 => match dec_u32(f.value) {
                Ok(x) => Ok(SpecCMsgClientServiceCall { max_outstanding_calls: Some(x), ..v }),
                Err(e) => Err(e),
            },
            11 => match dec_u32(f.value) {
                Ok(x) => Ok(SpecCMsgClientServiceCall { app_id: Some(x), ..v }),
                Err(e) => Err(e),
            },
            _ => Ok(v),
        }
    }

    pub open spec fn apply_fn() -> spec_fn(SpecCMsgClientServiceCall, SpecField) -> Result<SpecCMsgClientServiceCall, WireError> {
        |v: SpecCMsgClientServiceCall, f: SpecField| Self::spec_apply(v, f)
    }

    /// The message `bytes` makes of `v`: its records applied in order, or the error
    /// that stops the reading.
    pub open spec fn spec_merge(v: SpecCMsgClientServiceCall, bytes: Seq<u8>) -> Result<SpecCMsgClientServiceCall, WireError> {
        let (w, stop) = merge_run(v, bytes, Self::apply_fn());
        match stop {
            None => Ok(w),
            Some(e) => Err(e),
        }
    }

    #[verifier::opaque]
    pub open spec fn spec_decode(bytes: Seq<u8>) -> Result<SpecCMsgClientServiceCall, WireError> {
        Self::spec_merge(Self::spec_default(), bytes)
    }

    /// This message with one record applied to it, or, when the record is refused,
    /// the message unchanged and the reason.
    fn applied(self, f: &Field) -> (r: Result<Self, (Self, WireError)>)
        ensures
            match Self::spec_apply(self@, f@) {
                Ok(v) => r matches Ok(m) && m@ == v,
                Err(e) => r matches Err((m, x)) && x == e && m@ == self@,
            },
    {
        if f.number <= 6 {
            self.applied_0(f)
        } else {
            self.applied_1(f)
        }
    }

    /// `applied`, for the records numbered up to 6.
    fn applied_0(self, f: &Field) -> (r: Result<Self, (Self, WireError)>)
        requires
            f.number <= 6,
        ensures
            match Self::spec_apply(self@, f@) {
                Ok(v) => r matches Ok(m) && m@ == v,
                Err(e) => r matches Err((m, x)) && x == e && m@ == self@,
            },
    {
        match f.number {
            1 => match read_bytes(&f.value) {
                Ok(x) => Ok(Self { sysid_routing: Some(x), ..self }),
                Err(e) => Err((self, e)),
            },
            2 => match read_u32(&f.value) {
                Ok(x) => Ok(Self { call_handle: Some(x), ..self }),
                Err(e) => Err((self, e)),
            },
            3 => match read_u32(&f.value) {
                Ok(x) => Ok(Self { module_crc: Some(x), ..self }),
                Err(e) => Err((self, e)),
            },
            4 => match read_bytes(&f.value) {
                Ok(x) => Ok(Self { module_hash: Some(x), ..self }),
                Err(e) => Err((self, e)),
            },
            5 => match read_u32(&f.value) {
                Ok(x) => Ok(Self { function_id: Some(x), ..self }),
                Err(e) => Err((self, e)),
            },
            6 => match read_u32(&f.value) {
                Ok(x) => Ok(Self { cub_output_max: Some(x), ..self }),
                Err(e) => Err((self, e)),
            },
            _ => Ok(self),
        }
    }

    /// `applied`, for the records numbered above 6.
    fn applied_1(self, f: &Field) -> (r: Result<Self, (Self, WireError)>)
        requires
            6 < f.number,
        ensures
            match Self::spec_apply(self@, f@) {
                Ok(v) => r matches Ok(m) && m@ == v,
                Err(e) => r matches Err((m, x)) && x == e && m@ == self@,
            },
    {
        match f.number {
            7 => match read_u32(&f.value) {
                Ok(x) => Ok(Self { flags: Some(x), ..self }),
                Err(e) => Err((self, e)),
            },
            8 => match read_bytes(&f.value) {
                Ok(x) => Ok(Self { callparameter: Some(x), ..self }),
                Err(e) => Err((self, e)),
            },
            9 => match read_bool(&f.value) {
                Ok(x) => Ok(Self { ping_only: Some(x), ..self }),
                Err(e) => Err((self, e)),
            },
            10 => match read_u32(&f.value) {
                Ok(x) => Ok(Self { max_outstanding_calls: Some(x), ..self }),
                Err(e) => Err((self, e)),
            },
            11 => match read_u32(&f.value) {
                Ok(x) => Ok(Self { app_id: Some(x), ..self }),
                Err(e) => Err((self, e)),
            },
            _ => Ok(self),
        }
    }

    /// Reads the records `bytes` holds into this message, in order. When a record does
    /// not parse or is refused, the reading stops there: the message keeps what the
    /// records before it gave, and the error is returned.
    pub fn merge(&mut self, bytes: &[u8]) -> (r: Result<(), WireError>)
        ensures
            final(self)@ == merge_run(old(self)@, bytes@, Self::apply_fn()).0,
            r == match merge_run(old(self)@, bytes@, Self::apply_fn()).1 {
                None => Ok::<(), WireError>(()),
                Some(e) => Err::<(), WireError>(e),
            },
    {
        let ghost total = merge_run(self@, bytes@, Self::apply_fn());
        let mut cur = Self::default();
        std::mem::swap(&mut cur, self);
        let mut pos: usize = 0;
        assert(bytes@.skip(0) =~= bytes@);
        while pos < bytes.len()
            invariant
                pos <= bytes@.len(),
                total == merge_run(old(self)@, bytes@, Self::apply_fn()),
                merge_run(cur@, bytes@.skip(pos as int), Self::apply_fn()) == total,
            decreases bytes@.len() - pos,
        {
            let ghost s = bytes@.skip(pos as int);
            proof {
                lemma_merge_run_step(cur@, s, Self::apply_fn());
                lemma_parse_field_len(s);
            }
            match read_field(bytes, pos) {
                Ok((f, end)) => {
                    assert(bytes@.skip(end as int) =~= s.skip((end - pos) as int));
                    match cur.applied(&f) {
                        Ok(m) => {
                            cur = m;
                        },
                        Err((m, e)) => {
                            *self = m;
                            return Err(e);
                        },
                    }
                    pos = end;
                },
                Err(e) => {
                    *self = cur;
                    return Err(e);
                },
            }
        }
        assert(bytes@.skip(pos as int) =~= Seq::<u8>::empty());
        proof {
            lemma_merge_run_empty(cur@, Self::apply_fn());
        }
        *self = cur;
        Ok(())
    }

    /// Decodes a message from its encoding.
    pub fn decode(bytes: &[u8]) -> (r: Result<Self, WireError>)
        ensures
            match Self::spec_decode(bytes@) {
                Ok(v) => r matches Ok(m) && m@ == v,
                Err(e) => r matches Err(x) && x == e,
            },
    {
        proof {
            reveal(CMsgClientServiceCall::spec_decode);
        }
        let mut m = Self::default();
        match m.merge(bytes) {
            Ok(()) => Ok(m),
            Err(e) => Err(e),
        }
    }

    /// The encoding of this message.
    pub fn encode_to_vec(&self) -> (r: Vec<u8>)
        ensures
            r@ == Self::spec_encode(self@),
    {
        let ghost v = self@;
        let mut out: Vec<u8> = Vec::new();
        let ghost p0 = Seq::<SpecField>::empty();
        put_opt_bytes(&mut out, 1, &self.sysid_routing);
        let ghost p1 = p0 + opt_bytes(1, v.sysid_routing);
        proof {
            lemma_fields_bytes_concat(p0, opt_bytes(1, v.sysid_routing));
        }
        put_opt_u32(&mut out, 2, self.call_handle);
        let ghost p2 = p1 + opt_u32(2, v.call_handle);
        proof {
            lemma_fields_bytes_concat(p1, opt_u32(2, v.call_handle));
        }
        put_opt_u32(&mut out, 3, self.module_crc);
        let ghost p3 = p2 + opt_u32(3, v.module_crc);
        proof {
            lemma_fields_bytes_concat(p2, opt_u32(3, v.module_crc));
        }
        put_opt_bytes(&mut out, 4, &self.module_hash);
        let ghost p4 = p3 + opt_bytes(4, v.module_hash);
        proof {
            lemma_fields_bytes_concat(p3, opt_bytes(4, v.module_hash));
        }
        put_opt_u32(&mut out, 5, self.function_id);
        let ghost p5 = p4 + opt_u32(5, v.function_id);
        proof {
            lemma_fields_bytes_concat(p4, opt_u32(5, v.function_id));
        }
        put_opt_u32(&mut out, 6, self.cub_output_max);
        let ghost p6 = p5 + opt_u32(6, v.cub_output_max);
        proof {
            lemma_fields_bytes_concat(p5, opt_u32(6, v.cub_output_max));
        }
        put_opt_u32(&mut out, 7, self.flags);
        let ghost p7 = p6 + opt_u32(7, v.flags);
        proof {
            lemma_fields_bytes_concat(p6, opt_u32(7, v.flags));
        }
        put_opt_bytes(&mut out, 8, &self.callparameter);
        let ghost p8 = p7 + opt_bytes(8, v.callparameter);
        proof {
            lemma_fields_bytes_concat(p7, opt_bytes(8, v.callparameter));
        }
        put_opt_bool(&mut out, 9, self.ping_only);
        let ghost p9 = p8 + opt_bool(9, v.ping_only);
        proof {
            lemma_fields_bytes_concat(p8, opt_bool(9, v.ping_only));
        }
        put_opt_u32(&mut out, 10, self.max_outstanding_calls);
        let ghost p10 = p9 + opt_u32(10, v.max_outstanding_calls);
        proof {
            lemma_fields_bytes_concat(p9, opt_u32(10, v.max_outstanding_calls));
        }
        put_opt_u32(&mut out, 11, self.app_id);
        let ghost p11 = p10 + opt_u32(11, v.app_id);
        proof {
            lemma_fields_bytes_concat(p10, opt_u32(11, v.app_id));
        }
        proof {
            reveal(CMsgClientServiceCall::spec_encode);
        }
        assert(p11 == Self::spec_fields(v));
        out
    }

    /// Appends the encoding of this message to `out`.
    pub fn encode_raw(&self, out: &mut Vec<u8>)
        ensures
            final(out)@ == old(out)@ + Self::spec_encode(self@),
    {
        let mut b = self.encode_to_vec();
        out.append(&mut b);
    }

    /// The first `k` fields of `v`, the others as a fresh message has them.
    #[verifier::opaque]
    pub open spec fn spec_prefix(v: SpecCMsgClientServiceCall, k: int) -> SpecCMsgClientServiceCall {
        SpecCMsgClientServiceCall {
            sysid_routing: if 1 <= k { v.sysid_routing } else { None },
            call_handle: if 2 <= k { v.call_handle } else { None },
            module_crc: if 3 <= k { v.module_crc } else { None },
            module_hash: if 4 <= k { v.module_hash } else { None },
            function_id: if 5 <= k { v.function_id } else { None },
            cub_output_max: if 6 <= k { v.cub_output_max } else { None },
            flags: if 7 <= k { v.flags } else { None },
            callparameter: if 8 <= k { v.callparameter } else { None },
            ping_only: if 9 <= k { v.ping_only } else { None },
            max_outstanding_calls: if 10 <= k { v.max_outstanding_calls } else { None },
            app_id: if 11 <= k { v.app_id } else { None },
        }
    }

    /// Reading field 1 back, after the fields before it.
    proof fn lemma_field_sysid_routing(v: SpecCMsgClientServiceCall)
        ensures
            fold_fields(Self::spec_prefix(v, 0), opt_bytes(1, v.sysid_routing), Self::apply_fn())
                == Ok::<SpecCMsgClientServiceCall, WireError>(Self::spec_prefix(v, 1)),
    {
        reveal(CMsgClientServiceCall::spec_prefix);
        reveal(opt_bytes);
        let apply = Self::apply_fn();
        let s = Self::spec_prefix(v, 0);
        lemma_fold_opt(s, 1, match v.sysid_routing { Some(x) => Some(enc_bytes(x)), None => None }, apply);
        assert(SpecCMsgClientServiceCall { sysid_routing: v.sysid_routing, ..s } == Self::spec_prefix(v, 1));
    }

    /// Reading field 2 back, after the fields before it.
    proof fn lemma_field_call_handle(v: SpecCMsgClientServiceCall)
        ensures
            fold_fields(Self::spec_prefix(v, 1), opt_u32(2, v.call_handle), Self::apply_fn())
                == Ok::<SpecCMsgClientServiceCall, WireError>(Self::spec_prefix(v, 2)),
    {
        reveal(CMsgClientServiceCall::spec_prefix);
        reveal(opt_u32);
        let apply = Self::apply_fn();
        let s = Self::spec_prefix(v, 1);
        lemma_fold_opt(s, 2, match v.call_handle { Some(x) => Some(enc_u32(x)), None => None }, apply);
        if let Some(x) = v.call_handle {
            lemma_u32_roundtrip(x);
        }
        assert(SpecCMsgClientServiceCall { call_handle: v.call_handle, ..s } == Self::spec_prefix(v, 2));
    }

    /// Reading field 3 back, after the fields before it.
    proof fn lemma_field_module_crc(v: SpecCMsgClientServiceCall)
        ensures
            fold_fields(Self::spec_prefix(v, 2), opt_u32(3, v.module_crc), Self::apply_fn())
                == Ok::<SpecCMsgClientServiceCall, WireError>(Self::spec_prefix(v, 3)),
    {
        reveal(CMsgClientServiceCall::spec_prefix);
        reveal(opt_u32);
        let apply = Self::apply_fn();
        let s = Self::spec_prefix(v, 2);
        lemma_fold_opt(s, 3, match v.module_crc { Some(x) => Some(enc_u32(x)), None => None }, apply);
        if let Some(x) = v.module_crc {
            lemma_u32_roundtrip(x);
        }
        assert(SpecCMsgClientServiceCall { module_crc: v.module_crc, ..s } == Self::spec_prefix(v, 3));
    }

    /// Reading field 4 back, after the fields before it.
    proof fn lemma_field_module_hash(v: SpecCMsgClientServiceCall)
        ensures
            fold_fields(Self::spec_prefix(v, 3), opt_bytes(4, v.module_hash), Self::apply_fn())
                == Ok::<SpecCMsgClientServiceCall, WireError>(Self::spec_prefix(v, 4)),
    {
        reveal(CMsgClientServiceCall::spec_prefix);
        reveal(opt_bytes);
        let apply = Self::apply_fn();
        let s = Self::spec_prefix(v, 3);
        lemma_fold_opt(s, 4, match v.module_hash { Some(x) => Some(enc_bytes(x)), None => None }, apply);
        assert(SpecCMsgClientServiceCall { module_hash: v.module_hash, ..s } == Self::spec_prefix(v, 4));
    }

    /// Reading field 5 back, after the fields before it.
    proof fn lemma_field_function_id(v: SpecCMsgClientServiceCall)
        ensures
            fold_fields(Self::spec_prefix(v, 4), opt_u32(5, v.function_id), Self::apply_fn())
                == Ok::<SpecCMsgClientServiceCall, WireError>(Self::spec_prefix(v, 5)),
    {
        reveal(CMsgClientServiceCall::spec_prefix);
        reveal(opt_u32);
        let apply = Self::apply_fn();
        let s = Self::spec_prefix(v, 4);
        lemma_fold_opt(s, 5, match v.function_id { Some(x) => Some(enc_u32(x)), None => None }, apply);
        if let Some(x) = v.function_id {
            lemma_u32_roundtrip(x);
        }
        assert(SpecCMsgClientServiceCall { function_id: v.function_id, ..s } == Self::spec_prefix(v, 5));
    }

    /// Reading field 6 back, after the fields before it.
    proof fn lemma_field_cub_output_max(v: SpecCMsgClientServiceCall)
        ensures
            fold_fields(Self::spec_prefix(v, 5), opt_u32(6, v.cub_output_max), Self::apply_fn())
                == Ok::<SpecCMsgClientServiceCall, WireError>(Self::spec_prefix(v, 6)),
    {
        reveal(CMsgClientServiceCall::spec_prefix);
        reveal(opt_u32);
        let apply = Self::apply_fn();
        let s = Self::spec_prefix(v, 5);
        lemma_fold_opt(s, 6, match v.cub_output_max { Some(x) => Some(enc_u32(x)), None => None }, apply);
        if let Some(x) = v.cub_output_max {
            lemma_u32_roundtrip(x);
        }
        assert(SpecCMsgClientServiceCall { cub_output_max: v.cub_output_max, ..s } == Self::spec_prefix(v, 6));
    }

    /// Reading field 7 back, after the fields before it.
    proof fn lemma_field_flags(v: SpecCMsgClientServiceCall)
        ensures
            fold_fields(Self::spec_prefix(v, 6), opt_u32(7, v.flags), Self::apply_fn())
                == Ok::<SpecCMsgClientServiceCall, WireError>(Self::spec_prefix(v, 7)),
    {
        reveal(CMsgClientServiceCall::spec_prefix);
        reveal(opt_u32);
        let apply = Self::apply_fn();
        let s = Self::spec_prefix(v, 6);
        lemma_fold_opt(s, 7, match v.flags { Some(x) => Some(enc_u32(x)), None => None }, apply);
        if let Some(x) = v.flags {
            lemma_u32_roundtrip(x);
        }
        assert(SpecCMsgClientServiceCall { flags: v.flags, ..s } == Self::spec_prefix(v, 7));
    }

    /// Reading field 8 back, after the fields before it.
    proof fn lemma_field_callparameter(v: SpecCMsgClientServiceCall)
        ensures
            fold_fields(Self::spec_prefix(v, 7), opt_bytes(8, v.callparameter), Self::apply_fn())
                == Ok::<SpecCMsgClientServiceCall, WireError>(Self::spec_prefix(v, 8)),
    {
        reveal(CMsgClientServiceCall::spec_prefix);
        reveal(opt_bytes);
        let apply = Self::apply_fn();
        let s = Self::spec_prefix(v, 7);
        lemma_fold_opt(s, 8, match v.callparameter { Some(x) => Some(enc_bytes(x)), None => None }, apply);
        assert(SpecCMsgClientServiceCall { callparameter: v.callparameter, ..s } == Self::spec_prefix(v, 8));
    }

    /// Reading field 9 back, after the fields before it.
    proof fn lemma_field_ping_only(v: SpecCMsgClientServiceCall)
        ensures
            fold_fields(Self::spec_prefix(v, 8), opt_bool(9, v.ping_only), Self::apply_fn())
                == Ok::<SpecCMsgClientServiceCall, WireError>(Self::spec_prefix(v, 9)),
    {
        reveal(CMsgClientServiceCall::spec_prefix);
        reveal(opt_bool);
        let apply = Self::apply_fn();
        let s = Self::spec_prefix(v, 8);
        lemma_fold_opt(s, 9, match v.ping_only { Some(x) => Some(enc_bool(x)), None => None }, apply);
        assert(SpecCMsgClientServiceCall { ping_only: v.ping_only, ..s } == Self::spec_prefix(v, 9));
    }

    /// Reading field 10 back, after the fields before it.
    proof fn lemma_field_max_outstanding_calls(v: SpecCMsgClientServiceCall)
        ensures
            fold_fields(Self::spec_prefix(v, 9), opt_u32(10, v.max_outstanding_calls), Self::apply_fn())
                == Ok::<SpecCMsgClientServiceCall, WireError>(Self::spec_prefix(v, 10)),
    {
        reveal(CMsgClientServiceCall::spec_prefix);
        reveal(opt_u32);
        let apply = Self::apply_fn();
        let s = Self::spec_prefix(v, 9);
        lemma_fold_opt(s, 10, match v.max_outstanding_calls { Some(x) => Some(enc_u32(x)), None => None }, apply);
        if let Some(x) = v.max_outstanding_calls {
            lemma_u32_roundtrip(x);
        }
        assert(SpecCMsgClientServiceCall { max_outstanding_calls: v.max_outstanding_calls, ..s } == Self::spec_prefix(v, 10));
    }

    /// Reading field 11 back, after the fields before it.
    proof fn lemma_field_app_id(v: SpecCMsgClientServiceCall)
        ensures
            fold_fields(Self::spec_prefix(v, 10), opt_u32(11, v.app_id), Self::apply_fn())
                == Ok::<SpecCMsgClientServiceCall, WireError>(Self::spec_prefix(v, 11)),
    {
        reveal(CMsgClientServiceCall::spec_prefix);
        reveal(opt_u32);
        let apply = Self::apply_fn();
        let s = Self::spec_prefix(v, 10);
        lemma_fold_opt(s, 11, match v.app_id { Some(x) => Some(enc_u32(x)), None => None }, apply);
        if let Some(x) = v.app_id {
            lemma_u32_roundtrip(x);
        }
        assert(SpecCMsgClientServiceCall { app_id: v.app_id, ..s } == Self::spec_prefix(v, 11));
    }

    /// Whether this message declares field number `n`.
    pub open spec fn declares(n: u32) -> bool {
        n == 1 || n == 2 || n == 3 || n == 4 || n == 5 || n == 6 || n == 7 || n == 8 || n == 9 || n == 10 || n == 11
    }

    /// A record with a number this message does not declare is passed over: well-formed
    /// bytes decode to the same message with such a record after them as without it.
    pub proof fn lemma_unknown_field(bytes: Seq<u8>, f: SpecField)
        requires
            parse_fields(bytes) is Ok,
            field_wf(f),
            !Self::declares(f.number),
        ensures
            Self::spec_decode(bytes + field_bytes(f)) == Self::spec_decode(bytes),
    {
        reveal(CMsgClientServiceCall::spec_decode);
        lemma_parse_fields_append(bytes, f);
        let fs = parse_fields(bytes).unwrap();
        let apply = Self::apply_fn();
        lemma_fold_concat(Self::spec_default(), fs, seq![f], apply);
        assert(fs.push(f) =~= fs + seq![f]);
        if let Ok(w) = fold_fields(Self::spec_default(), fs, apply) {
            lemma_fold_single(w, f, apply);
        }
        lemma_merge_run_fold(Self::spec_default(), bytes, apply);
        lemma_merge_run_fold(Self::spec_default(), bytes + field_bytes(f), apply);
    }

    /// Decoding the encoding of a message gives the message back.
    pub proof fn lemma_decode_encode(v: SpecCMsgClientServiceCall)
        requires
            Self::spec_encode(v).len() <= u64::MAX,
        ensures
            Self::spec_decode(Self::spec_encode(v)) == Ok::<SpecCMsgClientServiceCall, WireError>(v),
    {
        let apply = Self::apply_fn();
        let d = Self::spec_default();
        let p0 = Seq::<SpecField>::empty();
        let l1 = opt_bytes(1, v.sysid_routing);
        let p1 = p0 + l1;
        let l2 = opt_u32(2, v.call_handle);
        let p2 = p1 + l2;
        let l3 = opt_u32(3, v.module_crc);
        let p3 = p2 + l3;
        let l4 = opt_bytes(4, v.module_hash);
        let p4 = p3 + l4;
        let l5 = opt_u32(5, v.function_id);
        let p5 = p4 + l5;
        let l6 = opt_u32(6, v.cub_output_max);
        let p6 = p5 + l6;
        let l7 = opt_u32(7, v.flags);
        let p7 = p6 + l7;
        let l8 = opt_bytes(8, v.callparameter);
        let p8 = p7 + l8;
        let l9 = opt_bool(9, v.ping_only);
        let p9 = p8 + l9;
        let l10 = opt_u32(10, v.max_outstanding_calls);
        let p10 = p9 + l10;
        let l11 = opt_u32(11, v.app_id);
        let p11 = p10 + l11;
        assert(parse_fields(Self::spec_encode(v)) == Ok::<Seq<SpecField>, WireError>(p11)) by {
            reveal(CMsgClientServiceCall::spec_encode);
            assert(numbers_ok(p0) && fields_wf(p0)) by {
                reveal(numbers_ok);
                reveal(fields_wf);
            }
            lemma_opt_bytes_numbered(1, v.sysid_routing);
            lemma_fields_wf_concat(p0, l1);
            lemma_opt_u32_numbered(2, v.call_handle);
            lemma_fields_wf_concat(p1, l2);
            lemma_opt_u32_numbered(3, v.module_crc);
            lemma_fields_wf_concat(p2, l3);
            lemma_opt_bytes_numbered(4, v.module_hash);
            lemma_fields_wf_concat(p3, l4);
            lemma_opt_u32_numbered(5, v.function_id);
            lemma_fields_wf_concat(p4, l5);
            lemma_opt_u32_numbered(6, v.cub_output_max);
            lemma_fields_wf_concat(p5, l6);
            lemma_opt_u32_numbered(7, v.flags);
            lemma_fields_wf_concat(p6, l7);
            lemma_opt_bytes_numbered(8, v.callparameter);
            lemma_fields_wf_concat(p7, l8);
            lemma_opt_bool_numbered(9, v.ping_only);
            lemma_fields_wf_concat(p8, l9);
            lemma_opt_u32_numbered(10, v.max_outstanding_calls);
            lemma_fields_wf_concat(p9, l10);
            lemma_opt_u32_numbered(11, v.app_id);
            lemma_fields_wf_concat(p10, l11);
            assert(p11 == Self::spec_fields(v));
            lemma_fields_wf_from_len(p11);
            lemma_fields_roundtrip(p11);
        }
        assert(Self::spec_prefix(v, 0) == d) by {
            reveal(CMsgClientServiceCall::spec_prefix);
        }
        lemma_fold_empty(d, apply);
        lemma_fold_concat(d, p0, l1, apply);
        Self::lemma_field_sysid_routing(v);
        lemma_fold_concat(d, p1, l2, apply);
        Self::lemma_field_call_handle(v);
        lemma_fold_concat(d, p2, l3, apply);
        Self::lemma_field_module_crc(v);
        lemma_fold_concat(d, p3, l4, apply);
        Self::lemma_field_module_hash(v);
        lemma_fold_concat(d, p4, l5, apply);
        Self::lemma_field_function_id(v);
        lemma_fold_concat(d, p5, l6, apply);
        Self::lemma_field_cub_output_max(v);
        lemma_fold_concat(d, p6, l7, apply);
        Self::lemma_field_flags(v);
        lemma_fold_concat(d, p7, l8, apply);
        Self::lemma_field_callparameter(v);
        lemma_fold_concat(d, p8, l9, apply);
        Self::lemma_field_ping_only(v);
        lemma_fold_concat(d, p9, l10, apply);
        Self::lemma_field_max_outstanding_calls(v);
        lemma_fold_concat(d, p10, l11, apply);
        Self::lemma_field_app_id(v);
        assert(Self::spec_prefix(v, 11) == v) by {
            reveal(CMsgClientServiceCall::spec_prefix);
        }
        lemma_merge_run_fold(d, Self::spec_encode(v), apply);
        assert(Self::spec_decode(Self::spec_encode(v)) == Ok::<SpecCMsgClientServiceCall, WireError>(v)) by {
            reveal(CMsgClientServiceCall::spec_decode);
        }
    }
}

/// `CMsgClientServiceModule`, as Valve's schema declares it.
#[derive(Debug, Clone, PartialEq)]
pub struct CMsgClientServiceModule {
    /// Field 1.
    pub module_crc: Option<u32>,
    /// Field 2.
    pub module_hash: Option<Vec<u8>>,
    /// Field 3.
    pub module_content: Option<Vec<u8>>,
}

/// What a `CMsgClientServiceModule` holds, as mathematical values.
#[verifier::ext_equal]
pub struct SpecCMsgClientServiceModule {
    pub module_crc: Option<u32>,
    pub module_hash: Option<Seq<u8>>,
    pub module_content: Option<Seq<u8>>,
}

impl View for CMsgClientServiceModule {
    type V = SpecCMsgClientServiceModule;

    open spec fn view(&self) -> SpecCMsgClientServiceModule {
        SpecCMsgClientServiceModule {
            module_crc: self.module_crc,
            module_hash: opt_bytes_view(self.module_hash),
            module_content: opt_bytes_view(self.module_content),
        }
    }
}

impl Default for CMsgClientServiceModule {
    fn default() -> (r: Self)
        ensures
            r@ == CMsgClientServiceModule::spec_default(),
    {
        CMsgClientServiceModule {
            module_crc: None,
            module_hash: None,
            module_content: None,
        }
    }
}

impl CMsgClientServiceModule {
    pub open spec fn spec_default() -> SpecCMsgClientServiceModule {
        SpecCMsgClientServiceModule {
            module_crc: None,
            module_hash: None,
            module_content: None,
        }
    }

    /// The records a `CMsgClientServiceModule` is written as, in field order.
    pub open spec fn spec_fields(v: SpecCMsgClientServiceModule) -> Seq<SpecField> {
        Seq::<SpecField>::empty()
            + opt_u32(1, v.module_crc)
            + opt_bytes(2, v.module_hash)
            + opt_bytes(3, v.module_content)
    }

    #[verifier::opaque]
    pub open spec fn spec_encode(v: SpecCMsgClientServiceModule) -> Seq<u8> {
        fields_bytes(Self::spec_fields(v))
    }

    /// What one record does to the message: a declared number sets or extends its
    /// field, any other number is left alone.
    pub open spec fn spec_apply(v: SpecCMsgClientServiceModule, f: SpecField) -> Result<SpecCMsgClientServiceModule, WireError> {
        match f.number {
            1 => match dec_u32(f.value) {
                Ok(x) => Ok(SpecCMsgClientServiceModule { module_crc: Some(x), ..v }),
                Err(e) => Err(e),
            },
            2 => match dec_bytes(f.value) {
                Ok(x) => Ok(SpecCMsgClientServiceModule { module_hash: Some(x), ..v }),
                Err(e) => Err(e),
            },
            3 => match dec_bytes(f.value) {
                Ok(x) => Ok(SpecCMsgClientServiceModule { module_content: Some(x), ..v }),
                Err(e) => Err(e),
            },
            _ => Ok(v),
        }
    }

    pub open spec fn apply_fn() -> spec_fn(SpecCMsgClientServiceModule, SpecField) -> Result<SpecCMsgClientServiceModule, WireError> {
        |v: SpecCMsgClientServiceModule, f: SpecField| Self::spec_apply(v, f)
    }

    /// The message `bytes` makes of `v`: its records applied in order, or the error
    /// that stops the reading.
    pub open spec fn spec_merge(v: SpecCMsgClientServiceModule, bytes: Seq<u8>) -> Result<SpecCMsgClientServiceModule, WireError> {
        let (w, stop) = merge_run(v, bytes, Self::apply_fn());
        match stop {
            None => Ok(w),
            Some(e) => Err(e),
        }
    }

    #[verifier::opaque]
    pub open spec fn spec_decode(bytes: Seq<u8>) -> Result<SpecCMsgClientServiceModule, WireError> {
        Self::spec_merge(Self::spec_default(), bytes)
    }

    /// This message with one record applied to it, or, when the record is refused,
    /// the message unchanged and the reason.
    fn applied(self, f: &Field) -> (r: Result<Self, (Self, WireError)>)
        ensures
            match Self::spec_apply(self@, f@) {
                Ok(v) => r matches Ok(m) && m@ == v,
                Err(e) => r matches Err((m, x)) && x == e && m@ == self@,
            },
    {
        match f.number {
            1 => match read_u32(&f.value) {
                Ok(x) => Ok(Self { module_crc: Some(x), ..self }),
                Err(e) => Err((self, e)),
            },
            2 => match read_bytes(&f.value) {
                Ok(x) => Ok(Self { module_hash: Some(x), ..self }),
                Err(e) => Err((self, e)),
            },
            3 => match read_bytes(&f.value) {
                Ok(x) => Ok(Self { module_content: Some(x), ..self }),
                Err(e) => Err((self, e)),
            },
            _ => Ok(self),
        }
    }

    /// Reads the records `bytes` holds into this message, in order. When a record does
    /// not parse or is refused, the reading stops there: the message keeps what the
    /// records before it gave, and the error is returned.
    pub fn merge(&mut self, bytes: &[u8]) -> (r: Result<(), WireError>)
        ensures
            final(self)@ == merge_run(old(self)@, bytes@, Self::apply_fn()).0,
            r == match merge_run(old(self)@, bytes@, Self::apply_fn()).1 {
                None => Ok::<(), WireError>(()),
                Some(e) => Err::<(), WireError>(e),
            },
    {
        let ghost total = merge_run(self@, bytes@, Self::apply_fn());
        let mut cur = Self::default();
        std::mem::swap(&mut cur, self);
        let mut pos: usize = 0;
        assert(bytes@.skip(0) =~= bytes@);
        while pos < bytes.len()
            invariant
                pos <= bytes@.len(),
                total == merge_run(old(self)@, bytes@, Self::apply_fn()),
                merge_run(cur@, bytes@.skip(pos as int), Self::apply_fn()) == total,
            decreases bytes@.len() - pos,
        {
            let ghost s = bytes@.skip(pos as int);
            proof {
                lemma_merge_run_step(cur@, s, Self::apply_fn());
                lemma_parse_field_len(s);
            }
            match read_field(bytes, pos) {
                Ok((f, end)) => {
                    assert(bytes@.skip(end as int) =~= s.skip((end - pos) as int));
                    match cur.applied(&f) {
                        Ok(m) => {
                            cur = m;
                        },
                        Err((m, e)) => {
                            *self = m;
                            return Err(e);
                        },
                    }
                    pos = end;
                },
                Err(e) => {
                    *self = cur;
                    return Err(e);
                },
            }
        }
        assert(bytes@.skip(pos as int) =~= Seq::<u8>::empty());
        proof {
            lemma_merge_run_empty(cur@, Self::apply_fn());
        }
        *self = cur;
        Ok(())
    }

    /// Decodes a message from its encoding.
    pub fn decode(bytes: &[u8]) -> (r: Result<Self, WireError>)
        ensures
            match Self::spec_decode(bytes@) {
                Ok(v) => r matches Ok(m) && m@ == v,
                Err(e) => r matches Err(x) && x == e,
            },
    {
        proof {
            reveal(CMsgClientServiceModule::spec_decode);
        }
        let mut m = Self::default();
        match m.merge(bytes) {
            Ok(()) => Ok(m),
            Err(e) => Err(e),
        }
    }

    /// The encoding of this message.
    pub fn encode_to_vec(&self) -> (r: Vec<u8>)
        ensures
            r@ == Self::spec_encode(self@),
    {
        let ghost v = self@;
        let mut out: Vec<u8> = Vec::new();
        let ghost p0 = Seq::<SpecField>::empty();
        put_opt_u32(&mut out, 1, self.module_crc);
        let ghost p1 = p0 + opt_u32(1, v.module_crc);
        proof {
            lemma_fields_bytes_concat(p0, opt_u32(1, v.module_crc));
        }
        put_opt_bytes(&mut out, 2, &self.module_hash);
        let ghost p2 = p1 + opt_bytes(2, v.module_hash);
        proof {
            lemma_fields_bytes_concat(p1, opt_bytes(2, v.module_hash));
        }
        put_opt_bytes(&mut out, 3, &self.module_content);
        let ghost p3 = p2 + opt_bytes(3, v.module_content);
        proof {
            lemma_fields_bytes_concat(p2, opt_bytes(3, v.module_content));
        }
        proof {
            reveal(CMsgClientServiceModule::spec_encode);
        }
        assert(p3 == Self::spec_fields(v));
        out
    }

    /// Appends the encoding of this message to `out`.
    pub fn encode_raw(&self, out: &mut Vec<u8>)
        ensures
            final(out)@ == old(out)@ + Self::spec_encode(self@),
    {
        let mut b = self.encode_to_vec();
        out.append(&mut b);
    }

    /// The first `k` fields of `v`, the others as a fresh message has them.
    #[verifier::opaque]
    pub open spec fn spec_prefix(v: SpecCMsgClientServiceModule, k: int) -> SpecCMsgClientServiceModule {
        SpecCMsgClientServiceModule {
            module_crc: if 1 <= k { v.module_crc } else { None },
            module_hash: if 2 <= k { v.module_hash } else { None },
            module_content: if 3 <= k { v.module_content } else { None },
        }
    }

    /// Reading field 1 back, after the fields before it.
    proof fn lemma_field_module_crc(v: SpecCMsgClientServiceModule)
        ensures
            fold_fields(Self::spec_prefix(v, 0), opt_u32(1, v.module_crc), Self::apply_fn())
                == Ok::<SpecCMsgClientServiceModule, WireError>(Self::spec_prefix(v, 1)),
    {
        reveal(CMsgClientServiceModule::spec_prefix);
        reveal(opt_u32);
        let apply = Self::apply_fn();
        let s = Self::spec_prefix(v, 0);
        lemma_fold_opt(s, 1, match v.module_crc { Some(x) => Some(enc_u32(x)), None => None }, apply);
        if let Some(x) = v.module_crc {
            lemma_u32_roundtrip(x);
        }
        assert(SpecCMsgClientServiceModule { module_crc: v.module_crc, ..s } == Self::spec_prefix(v, 1));
    }

    /// Reading field 2 back, after the fields before it.
    proof fn lemma_field_module_hash(v: SpecCMsgClientServiceModule)
        ensures
            fold_fields(Self::spec_prefix(v, 1), opt_bytes(2, v.module_hash), Self::apply_fn())
                == Ok::<SpecCMsgClientServiceModule, WireError>(Self::spec_prefix(v, 2)),
    {
        reveal(CMsgClientServiceModule::spec_prefix);
        reveal(opt_bytes);
        let apply = Self::apply_fn();
        let s = Self::spec_prefix(v, 1);
        lemma_fold_opt(s, 2, match v.module_hash { Some(x) => Some(enc_bytes(x)), None => None }, apply);
        assert(SpecCMsgClientServiceModule { module_hash: v.module_hash, ..s } == Self::spec_prefix(v, 2));
    }

    /// Reading field 3 back, after the fields before it.
    proof fn lemma_field_module_content(v: SpecCMsgClientServiceModule)
        ensures
            fold_fields(Self::spec_prefix(v, 2), opt_bytes(3, v.module_content), Self::apply_fn())
                == Ok::<SpecCMsgClientServiceModule, WireError>(Self::spec_prefix(v, 3)),
    {
        reveal(CMsgClientServiceModule::spec_prefix);
        reveal(opt_bytes);
        let apply = Self::apply_fn();
        let s = Self::spec_prefix(v, 2);
        lemma_fold_opt(s, 3, match v.module_content { Some(x) => Some(enc_bytes(x)), None => None }, apply);
        assert(SpecCMsgClientServiceModule { module_content: v.module_content, ..s } == Self::spec_prefix(v, 3));
    }

    /// Whether this message declares field number `n`.
    pub open spec fn declares(n: u32) -> bool {
        n == 1 || n == 2 || n == 3
    }

    /// A record with a number this message does not declare is passed over: well-formed
    /// bytes decode to the same message with such a record after them as without it.
    pub proof fn lemma_unknown_field(bytes: Seq<u8>, f: SpecField)
        requires
            parse_fields(bytes) is Ok,
            field_wf(f),
            !Self::declares(f.number),
        ensures
            Self::spec_decode(bytes + field_bytes(f)) == Self::spec_decode(bytes),
    {
        reveal(CMsgClientServiceModule::spec_decode);
        lemma_parse_fields_append(bytes, f);
        let fs = parse_fields(bytes).unwrap();
        let apply = Self::apply_fn();
        lemma_fold_concat(Self::spec_default(), fs, seq![f], apply);
        assert(fs.push(f) =~= fs + seq![f]);
        if let Ok(w) = fold_fields(Self::spec_default(), fs, apply) {
            lemma_fold_single(w, f, apply);
        }
        lemma_merge_run_fold(Self::spec_default(), bytes, apply);
        lemma_merge_run_fold(Self::spec_default(), bytes + field_bytes(f), apply);
    }

    /// Decoding the encoding of a message gives the message back.
    pub proof fn lemma_decode_encode(v: SpecCMsgClientServiceModule)
        requires
            Self::spec_encode(v).len() <= u64::MAX,
        ensures
            Self::spec_decode(Self::spec_encode(v)) == Ok::<SpecCMsgClientServiceModule, WireError>(v),
    {
        let apply = Self::apply_fn();
        let d = Self::spec_default();
        let p0 = Seq::<SpecField>::empty();
        let l1 = opt_u32(1, v.module_crc);
        let p1 = p0 + l1;
        let l2 = opt_bytes(2, v.module_hash);
        let p2 = p1 + l2;
        let l3 = opt_bytes(3, v.module_content);
        let p3 = p2 + l3;
        assert(parse_fields(Self::spec_encode(v)) == Ok::<Seq<SpecField>, WireError>(p3)) by {
            reveal(CMsgClientServiceModule::spec_encode);
            assert(numbers_ok(p0) && fields_wf(p0)) by {
                reveal(numbers_ok);
                reveal(fields_wf);
            }
            lemma_opt_u32_numbered(1, v.module_crc);
            lemma_fields_wf_concat(p0, l1);
            lemma_opt_bytes_numbered(2, v.module_hash);
            lemma_fields_wf_concat(p1, l2);
            lemma_opt_bytes_numbered(3, v.module_content);
            lemma_fields_wf_concat(p2, l3);
            assert(p3 == Self::spec_fields(v));
            lemma_fields_wf_from_len(p3);
            lemma_fields_roundtrip(p3);
        }
        assert(Self::spec_prefix(v, 0) == d) by {
            reveal(CMsgClientServiceModule::spec_prefix);
        }
        lemma_fold_empty(d, apply);
        lemma_fold_concat(d, p0, l1, apply);
        Self::lemma_field_module_crc(v);
        lemma_fold_concat(d, p1, l2, apply);
        Self::lemma_field_module_hash(v);
        lemma_fold_concat(d, p2, l3, apply);
        Self::lemma_field_module_content(v);
        assert(Self::spec_prefix(v, 3) == v) by {
            reveal(CMsgClientServiceModule::spec_prefix);
        }
        lemma_merge_run_fold(d, Self::spec_encode(v), apply);
        assert(Self::spec_decode(Self::spec_encode(v)) == Ok::<SpecCMsgClientServiceModule, WireError>(v)) by {
            reveal(CMsgClientServiceModule::spec_decode);
        }
    }
}

/// `CMsgClientServiceCallResponse`, as Valve's schema declares it.
#[derive(Debug, Clone, PartialEq)]
pub struct CMsgClientServiceCallResponse {
    /// Field 1.
    pub sysid_routing: Option<Vec<u8>>,
    /// Field 2.
    pub call_handle: Option<u32>,
    /// Field 3.
    pub module_crc: Option<u32>,
    /// Field 4.
    pub module_hash: Option<Vec<u8>>,
    /// Field 5.
    pub ecallresult: Option<u32>,
    /// Field 6.
    pub result_content: Option<Vec<u8>>,
    /// Field 7.
    pub os_version_info: Option<Vec<u8>>,
    /// Field 8.
    pub system_info: Option<Vec<u8>>,
    /// Field 9.
    pub load_address: Option<u64>,
    /// Field 10.
    pub exception_record: Option<Vec<u8>>,
    /// Field 11.
    pub portable_os_version_info: Option<Vec<u8>>,
    /// Field 12.
    pub portable_system_info: Option<Vec<u8>>,
    /// Field 13.
    pub was_converted: Option<bool>,
    /// Field 14.
    pub internal_result: Option<u32>,
    /// Field 15.
    pub current_count: Option<u32>,
    /// Field 16.
    pub last_call_handle: Option<u32>,
    /// Field 17.
    pub last_call_module_crc: Option<u32>,
    /// Field 18.
    pub last_call_sysid_routing: Option<Vec<u8>>,
    /// Field 19.
    pub last_ecallresult: Option<u32>,
    /// Field 20.
    pub last_callissue_delta: Option<u32>,
    /// Field 21.
    pub last_callcomplete_delta: Option<u32>,
}

/// What a `CMsgClientServiceCallResponse` holds, as mathematical values.
#[verifier::ext_equal]
pub struct SpecCMsgClientServiceCallResponse {
    pub sysid_routing: Option<Seq<u8>>,
    pub call_handle: Option<u32>,
    pub module_crc: Option<u32>,
    pub module_hash: Option<Seq<u8>>,
    pub ecallresult: Option<u32>,
    pub result_content: Option<Seq<u8>>,
    pub os_version_info: Option<Seq<u8>>,
    pub system_info: Option<Seq<u8>>,
    pub load_address: Option<u64>,
    pub exception_record: Option<Seq<u8>>,
    pub portable_os_version_info: Option<Seq<u8>>,
    pub portable_system_info: Option<Seq<u8>>,
    pub was_converted: Option<bool>,
    pub internal_result: Option<u32>,
    pub current_count: Option<u32>,
    pub last_call_handle: Option<u32>,
    pub last_call_module_crc: Option<u32>,
    pub last_call_sysid_routing: Option<Seq<u8>>,
    pub last_ecallresult: Option<u32>,
    pub last_callissue_delta: Option<u32>,
    pub last_callcomplete_delta: Option<u32>,
}

impl View for CMsgClientServiceCallResponse {
    type V = SpecCMsgClientServiceCallResponse;

    open spec fn view(&self) -> SpecCMsgClientServiceCallResponse {
        SpecCMsgClientServiceCallResponse {
            sysid_routing: opt_bytes_view(self.sysid_routing),
            call_handle: self.call_handle,
            module_crc: self.module_crc,
            module_hash: opt_bytes_view(self.module_hash),
            ecallresult: self.ecallresult,
            result_content: opt_bytes_view(self.result_content),
            os_version_info: opt_bytes_view(self.os_version_info),
            system_info: opt_bytes_view(self.system_info),
            load_address: self.load_address,
            exception_record: opt_bytes_view(self.exception_record),
            portable_os_version_info: opt_bytes_view(self.portable_os_version_info),
            portable_system_info: opt_bytes_view(self.portable_system_info),
            was_converted: self.was_converted,
            internal_result: self.internal_result,
            current_count: self.current_count,
            last_call_handle: self.last_call_handle,
            last_call_module_crc: self.last_call_module_crc,
            last_call_sysid_routing: opt_bytes_view(self.last_call_sysid_routing),
            last_ecallresult: self.last_ecallresult,
            last_callissue_delta: self.last_callissue_delta,
            last_callcomplete_delta: self.last_callcomplete_delta,
        }
    }
}

impl Default for CMsgClientServiceCallResponse {
    fn default() -> (r: Self)
        ensures
            r@ == CMsgClientServiceCallResponse::spec_default(),
    {
        CMsgClientServiceCallResponse {
            sysid_routing: None,
            call_handle: None,
            module_crc: None,
            module_hash: None,
            ecallresult: None,
            result_content: None,
            os_version_info: None,
            system_info: None,
            load_address: None,
            exception_record: None,
            portable_os_version_info: None,
            portable_system_info: None,
            was_converted: None,
            internal_result: None,
            current_count: None,
            last_call_handle: None,
            last_call_module_crc: None,
            last_call_sysid_routing: None,
            last_ecallresult: None,
            last_callissue_delta: None,
            last_callcomplete_delta: None,
        }
    }
}

impl CMsgClientServiceCallResponse {
    pub open spec fn spec_default() -> SpecCMsgClientServiceCallResponse {
        SpecCMsgClientServiceCallResponse {
            sysid_routing: None,
            call_handle: None,
            module_crc: None,
            module_hash: None,
            ecallresult: None,
            result_content: None,
            os_version_info: None,
            system_info: None,
            load_address: None,
            exception_record: None,
            portable_os_version_info: None,
            portable_system_info: None,
            was_converted: None,
            internal_result: None,
            current_count: None,
            last_call_handle: None,
            last_call_module_crc: None,
            last_call_sysid_routing: None,
            last_ecallresult: None,
            last_callissue_delta: None,
            last_callcomplete_delta: None,
        }
    }

    /// The records a `CMsgClientServiceCallResponse` is written as, in field order.
    pub open spec fn spec_fields(v: SpecCMsgClientServiceCallResponse) -> Seq<SpecField> {
        Seq::<SpecField>::empty()
            + opt_bytes(1, v.sysid_routing)
            + opt_u32(2, v.call_handle)
            + opt_u32(3, v.module_crc)
            + opt_bytes(4, v.module_hash)
            + opt_u32(5, v.ecallresult)
            + opt_bytes(6, v.result_content)
            + opt_bytes(7, v.os_version_info)
            + opt_bytes(8, v.system_info)
            + opt_fixed64(9, v.load_address)
            + opt_bytes(10, v.exception_record)
            + opt_bytes(11, v.portable_os_version_info)
            + opt_bytes(12, v.portable_system_info)
            + opt_bool(13, v.was_converted)
            + opt_u32(14, v.internal_result)
            + opt_u32(15, v.current_count)
            + opt_u32(16, v.last_call_handle)
            + opt_u32(17, v.last_call_module_crc)
            + opt_bytes(18, v.last_call_sysid_routing)
            + opt_u32(19, v.last_ecallresult)
            + opt_u32(20, v.last_callissue_delta)
            + opt_u32(21, v.last_callcomplete_delta)
    }

    #[verifier::opaque]
    pub open spec fn spec_encode(v: SpecCMsgClientServiceCallResponse) -> Seq<u8> {
        fields_bytes(Self::spec_fields(v))
    }

    /// What one record does to the message: a declared number sets or extends its
    /// field, any other number is left alone.
    pub open spec fn spec_apply(v: SpecCMsgClientServiceCallResponse, f: SpecField) -> Result<SpecCMsgClientServiceCallResponse, WireError> {
        match f.number {
            1 => match dec_bytes(f.value) {
                Ok(x) => Ok(SpecCMsgClientServiceCallResponse { sysid_routing: Some(x), ..v }),
                Err(e) => Err(e),
            },
            2 => match dec_u32(f.value) {
                Ok(x) => Ok(SpecCMsgClientServiceCallResponse { call_handle: Some(x), ..v }),
                Err(e) => Err(e),
            },
            3 => match dec_u32(f.value) {
                Ok(x) => Ok(SpecCMsgClientServiceCallResponse { module_crc: Some(x), ..v }),
                Err(e) => Err(e),
            },
            4 => match dec_bytes(f.value) {
                Ok(x) => Ok(SpecCMsgClientServiceCallResponse { module_hash: Some(x), ..v }),
                Err(e) => Err(e),
            },
            5 => match dec_u32(f.value) {
                Ok(x) => Ok(SpecCMsgClientServiceCallResponse { ecallresult: Some(x), ..v }),
                Err(e) => Err(e),
            },
            6 => match dec_bytes(f.value) {
                Ok(x) => Ok(SpecCMsgClientServiceCallResponse { result_content: Some(x), ..v }),
                Err(e) => Err(e),
            },
            7 => match dec_bytes(f.value) {
                Ok(x) => Ok(SpecCMsgClientServiceCallResponse { os_version_info: Some(x), ..v }),
                Err(e) => Err(e),
            },
            8 => match dec_bytes(f.value) {
                Ok(x) => Ok(SpecCMsgClientServiceCallResponse { system_info: Some(x), ..v }),
                Err(e) => Err(e),
            },
            9 => match dec_fixed64(f.value) {
                Ok(x) => Ok(SpecCMsgClientServiceCallResponse { load_address: Some(x), ..v }),
                Err(e) => Err(e),
            },
            10 => match dec_bytes(f.value) {
                Ok(x) => Ok(SpecCMsgClientServiceCallResponse { exception_record: Some(x), ..v }),
                Err(e) => Err(e),
            },
            11 => match dec_bytes(f.value) {
                Ok(x) => Ok(SpecCMsgClientServiceCallResponse { portable_os_version_info: Some(x), ..v }),
                Err(e) => Err(e),
            },
            12 => match dec_bytes(f.value) {
                Ok(x) => Ok(SpecCMsgClientServiceCallResponse { portable_system_info: Some(x), ..v }),
                Err(e) => Err(e),
            },
            13 => match dec_bool(f.value) {
                Ok(x) => Ok(SpecCMsgClientServiceCallResponse { was_converted: Some(x), ..v }),
                Err(e) => Err(e),
            },
            14 => match dec_u32(f.value) {
                Ok(x) => Ok(SpecCMsgClientServiceCallResponse { internal_result: Some(x), ..v }),
                Err(e) => Err(e),
            },
            15 => match dec_u32(f.value) {
                Ok(x) => Ok(SpecCMsgClientServiceCallResponse { current_count: Some(x), ..v }),
                Err(e) => Err(e),
            },
            16 => match dec_u32(f.value) {
                Ok(x) => Ok(SpecCMsgClientServiceCallResponse { last_call_handle: Some(x), ..v }),
                Err(e) => Err(e),
            },
            17 => match dec_u32(f.value) {
                Ok(x) => Ok(SpecCMsgClientServiceCallResponse { last_call_module_crc: Some(x), ..v }),
                Err(e) => Err(e),
            },
            18 => match dec_bytes(f.value) {
                Ok(x) => Ok(SpecCMsgClientServiceCallResponse { last_call_sysid_routing: Some(x), ..v }),
                Err(e) => Err(e),
            },
            19 => match dec_u32(f.value) {
                Ok(x) => Ok(SpecCMsgClientServiceCallResponse { last_ecallresult: Some(x), ..v }),
                Err(e) => Err(e),
            },
            20 => match dec_u32(f.value) {
                Ok(x) => Ok(SpecCMsgClientServiceCallResponse { last_callissue_delta: Some(x), ..v }),
                Err(e) => Err(e),
            },
            21 => match dec_u32(f.value) {
                Ok(x) => Ok(SpecCMsgClientServiceCallResponse { last_callcomplete_delta: Some(x), ..v }),
                Err(e) => Err(e),
            },
            _ => Ok(v),
        }
    }

    pub open spec fn apply_fn() -> spec_fn(SpecCMsgClientServiceCallResponse, SpecField) -> Result<SpecCMsgClientServiceCallResponse, WireError> {
        |v: SpecCMsgClientServiceCallResponse, f: SpecField| Self::spec_apply(v, f)
    }

    /// The message `bytes` makes of `v`: its records applied in order, or the error
    /// that stops the reading.
    pub open spec fn spec_merge(v: SpecCMsgClientServiceCallResponse, bytes: Seq<u8>) -> Result<SpecCMsgClientServiceCallResponse, WireError> {
        let (w, stop) = merge_run(v, bytes, Self::apply_fn());
        match stop {
            None => Ok(w),
            Some(e) => Err(e),
        }
    }

    #[verifier::opaque]
    pub open spec fn spec_decode(bytes: Seq<u8>) -> Result<SpecCMsgClientServiceCallResponse, WireError> {
        Self::spec_merge(Self::spec_default(), bytes)
    }

    /// This message with one record applied to it, or, when the record is refused,
    /// the message unchanged and the reason.
    fn applied(self, f: &Field) -> (r: Result<Self, (Self, WireError)>)
        ensures
            match Self::spec_apply(self@, f@) {
                Ok(v) => r matches Ok(m) && m@ == v,
                Err(e) => r matches Err((m, x)) && x == e && m@ == self@,
            },
    {
        if f.number <= 6 {
            self.applied_0(f)
        } else if f.number <= 12 {
            self.applied_1(f)
        } else if f.number <= 18 {
            self.applied_2(f)
        } else {
            self.applied_3(f)
        }
    }

    /// `applied`, for the records numbered up to 6.
    #[verifier::rlimit(40)]
    fn applied_0(self, f: &Field) -> (r: Result<Self, (Self, WireError)>)
        requires
            f.number <= 6,
        ensures
            match Self::spec_apply(self@, f@) {
                Ok(v) => r matches Ok(m) && m@ == v,
                Err(e) => r matches Err((m, x)) && x == e && m@ == self@,
            },
    {
        match f.number {
            1 => match read_bytes(&f.value) {
                Ok(x) => Ok(Self { sysid_routing: Some(x), ..self }),
                Err(e) => Err((self, e)),
            },
            2 => match read_u32(&f.value) {
                Ok(x) => Ok(Self { call_handle: Some(x), ..self }),
                Err(e) => Err((self, e)),
            },
            3 => match read_u32(&f.value) {
                Ok(x) => Ok(Self { module_crc: Some(x), ..self }),
                Err(e) => Err((self, e)),
            },
            4 => match read_bytes(&f.value) {
                Ok(x) => Ok(Self { module_hash: Some(x), ..self }),
                Err(e) => Err((self, e)),
            },
            5 => match read_u32(&f.value) {
                Ok(x) => Ok(Self { ecallresult: Some(x), ..self }),
                Err(e) => Err((self, e)),
            },
            6 => match read_bytes(&f.value) {
                Ok(x) => Ok(Self { result_content: Some(x), ..self }),
                Err(e) => Err((self, e)),
            },
            _ => Ok(self),
        }
    }

    /// `applied`, for the records numbered from 7 to 12.
    #[verifier::rlimit(40)]
    fn applied_1(self, f: &Field) -> (r: Result<Self, (Self, WireError)>)
        requires
            6 < f.number,
            f.number <= 12,
        ensures
            match Self::spec_apply(self@, f@) {
                Ok(v) => r matches Ok(m) && m@ == v,
                Err(e) => r matches Err((m, x)) && x == e && m@ == self@,
            },
    {
        match f.number {
            7 => match read_bytes(&f.value) {
                Ok(x) => Ok(Self { os_version_info: Some(x), ..self }),
                Err(e) => Err((self, e)),
            },
            8 => match read_bytes(&f.value) {
                Ok(x) => Ok(Self { system_info: Some(x), ..self }),
                Err(e) => Err((self, e)),
            },
            9 => match read_fixed64(&f.value) {
                Ok(x) => Ok(Self { load_address: Some(x), ..self }),
                Err(e) => Err((self, e)),
            },
            10 => match read_bytes(&f.value) {
                Ok(x) => Ok(Self { exception_record: Some(x), ..self }),
                Err(e) => Err((self, e)),
            },
            11 => match read_bytes(&f.value) {
                Ok(x) => Ok(Self { portable_os_version_info: Some(x), ..self }),
                Err(e) => Err((self, e)),
            },
            12 => match read_bytes(&f.value) {
                Ok(x) => Ok(Self { portable_system_info: Some(x), ..self }),
                Err(e) => Err((self, e)),
            },
            _ => Ok(self),
        }
    }

    /// `applied`, for the records numbered from 13 to 18.
    #[verifier::rlimit(40)]
    fn applied_2(self, f: &Field) -> (r: Result<Self, (Self, WireError)>)
        requires
            12 < f.number,
            f.number <= 18,
        ensures
            match Self::spec_apply(self@, f@) {
                Ok(v) => r matches Ok(m) && m@ == v,
                Err(e) => r matches Err((m, x)) && x == e && m@ == self@,
            },
    {
        match f.number {
            13 => match read_bool(&f.value) {
                Ok(x) => Ok(Self { was_converted: Some(x), ..self }),
                Err(e) => Err((self, e)),
            },
            14 => match read_u32(&f.value) {
                Ok(x) => Ok(Self { internal_result: Some(x), ..self }),
                Err(e) => Err((self, e)),
            },
            15 => match read_u32(&f.value) {
                Ok(x) => Ok(Self { current_count: Some(x), ..self }),
                Err(e) => Err((self, e)),
            },
            16 => match read_u32(&f.value) {
                Ok(x) => Ok(Self { last_call_handle: Some(x), ..self }),
                Err(e) => Err((self, e)),
            },
            17 => match read_u32(&f.value) {
                Ok(x) => Ok(Self { last_call_module_crc: Some(x), ..self }),
                Err(e) => Err((self, e)),
            },
            18 => match read_bytes(&f.value) {
                Ok(x) => Ok(Self { last_call_sysid_routing: Some(x), ..self }),
                Err(e) => Err((self, e)),
            },
            _ => Ok(self),
        }
    }

    /// `applied`, for the records numbered above 18.
    #[verifier::rlimit(40)]
    fn applied_3(self, f: &Field) -> (r: Result<Self, (Self, WireError)>)
        requires
            18 < f.number,
        ensures
            match Self::spec_apply(self@, f@) {
                Ok(v) => r matches Ok(m) && m@ == v,
                Err(e) => r matches Err((m, x)) && x == e && m@ == self@,
            },
    {
        match f.number {
            19 => match read_u32(&f.value) {
                Ok(x) => Ok(Self { last_ecallresult: Some(x), ..self }),
                Err(e) => Err((self, e)),
            },
            20 => match read_u32(&f.value) {
                Ok(x) => Ok(Self { last_callissue_delta: Some(x), ..self }),
                Err(e) => Err((self, e)),
            },
            21 => match read_u32(&f.value) {
                Ok(x) => Ok(Self { last_callcomplete_delta: Some(x), ..self }),
                Err(e) => Err((self, e)),
            },
            _ => Ok(self),
        }
    }

    /// Reads the records `bytes` holds into this message, in order. When a record does
    /// not parse or is refused, the reading stops there: the message keeps what the
    /// records before it gave, and the error is returned.
    pub fn merge(&mut self, bytes: &[u8]) -> (r: Result<(), WireError>)
        ensures
            final(self)@ == merge_run(old(self)@, bytes@, Self::apply_fn()).0,
            r == match merge_run(old(self)@, bytes@, Self::apply_fn()).1 {
                None => Ok::<(), WireError>(()),
                Some(e) => Err::<(), WireError>(e),
            },
    {
        let ghost total = merge_run(self@, bytes@, Self::apply_fn());
        let mut cur = Self::default();
        std::mem::swap(&mut cur, self);
        let mut pos: usize = 0;
        assert(bytes@.skip(0) =~= bytes@);
        while pos < bytes.len()
            invariant
                pos <= bytes@.len(),
                total == merge_run(old(self)@, bytes@, Self::apply_fn()),
                merge_run(cur@, bytes@.skip(pos as int), Self::apply_fn()) == total,
            decreases bytes@.len() - pos,
        {
            let ghost s = bytes@.skip(pos as int);
            proof {
                lemma_merge_run_step(cur@, s, Self::apply_fn());
                lemma_parse_field_len(s);
            }
            match read_field(bytes, pos) {
                Ok((f, end)) => {
                    assert(bytes@.skip(end as int) =~= s.skip((end - pos) as int));
                    match cur.applied(&f) {
                        Ok(m) => {
                            cur = m;
                        },
                        Err((m, e)) => {
                            *self = m;
                            return Err(e);
                        },
                    }
                    pos = end;
                },
                Err(e) => {
                    *self = cur;
                    return Err(e);
                },
            }
        }
        assert(bytes@.skip(pos as int) =~= Seq::<u8>::empty());
        proof {
            lemma_merge_run_empty(cur@, Self::apply_fn());
        }
        *self = cur;
        Ok(())
    }

    /// Decodes a message from its encoding.
    pub fn decode(bytes: &[u8]) -> (r: Result<Self, WireError>)
        ensures
            match Self::spec_decode(bytes@) {
                Ok(v) => r matches Ok(m) && m@ == v,
                Err(e) => r matches Err(x) && x == e,
            },
    {
        proof {
            reveal(CMsgClientServiceCallResponse::spec_decode);
        }
        let mut m = Self::default();
        match m.merge(bytes) {
            Ok(()) => Ok(m),
            Err(e) => Err(e),
        }
    }

    /// The encoding of this message.
    pub fn encode_to_vec(&self) -> (r: Vec<u8>)
        ensures
            r@ == Self::spec_encode(self@),
    {
        let ghost v = self@;
        let mut out: Vec<u8> = Vec::new();
        let ghost p0 = Seq::<SpecField>::empty();
        put_opt_bytes(&mut out, 1, &self.sysid_routing);
        let ghost p1 = p0 + opt_bytes(1, v.sysid_routing);
        proof {
            lemma_fields_bytes_concat(p0, opt_bytes(1, v.sysid_routing));
        }
        put_opt_u32(&mut out, 2, self.call_handle);
        let ghost p2 = p1 + opt_u32(2, v.call_handle);
        proof {
            lemma_fields_bytes_concat(p1, opt_u32(2, v.call_handle));
        }
        put_opt_u32(&mut out, 3, self.module_crc);
        let ghost p3 = p2 + opt_u32(3, v.module_crc);
        proof {
            lemma_fields_bytes_concat(p2, opt_u32(3, v.module_crc));
        }
        put_opt_bytes(&mut out, 4, &self.module_hash);
        let ghost p4 = p3 + opt_bytes(4, v.module_hash);
        proof {
            lemma_fields_bytes_concat(p3, opt_bytes(4, v.module_hash));
        }
        put_opt_u32(&mut out, 5, self.ecallresult);
        let ghost p5 = p4 + opt_u32(5, v.ecallresult);
        proof {
            lemma_fields_bytes_concat(p4, opt_u32(5, v.ecallresult));
        }
        put_opt_bytes(&mut out, 6, &self.result_content);
        let ghost p6 = p5 + opt_bytes(6, v.result_content);
        proof {
            lemma_fields_bytes_concat(p5, opt_bytes(6, v.result_content));
        }
        put_opt_bytes(&mut out, 7, &self.os_version_info);
        let ghost p7 = p6 + opt_bytes(7, v.os_version_info);
        proof {
            lemma_fields_bytes_concat(p6, opt_bytes(7, v.os_version_info));
        }
        put_opt_bytes(&mut out, 8, &self.system_info);
        let ghost p8 = p7 + opt_bytes(8, v.system_info);
        proof {
            lemma_fields_bytes_concat(p7, opt_bytes(8, v.system_info));
        }
        put_opt_fixed64(&mut out, 9, self.load_address);
        let ghost p9 = p8 + opt_fixed64(9, v.load_address);
        proof {
            lemma_fields_bytes_concat(p8, opt_fixed64(9, v.load_address));
        }
        put_opt_bytes(&mut out, 10, &self.exception_record);
        let ghost p10 = p9 + opt_bytes(10, v.exception_record);
        proof {
            lemma_fields_bytes_concat(p9, opt_bytes(10, v.exception_record));
        }
        put_opt_bytes(&mut out, 11, &self.portable_os_version_info);
        let ghost p11 = p10 + opt_bytes(11, v.portable_os_version_info);
        proof {
            lemma_fields_bytes_concat(p10, opt_bytes(11, v.portable_os_version_info));
        }
        put_opt_bytes(&mut out, 12, &self.portable_system_info);
        let ghost p12 = p11 + opt_bytes(12, v.portable_system_info);
        proof {
            lemma_fields_bytes_concat(p11, opt_bytes(12, v.portable_system_info));
        }
        put_opt_bool(&mut out, 13, self.was_converted);
        let ghost p13 = p12 + opt_bool(13, v.was_converted);
        proof {
            lemma_fields_bytes_concat(p12, opt_bool(13, v.was_converted));
        }
        put_opt_u32(&mut out, 14, self.internal_result);
        let ghost p14 = p13 + opt_u32(14, v.internal_result);
        proof {
            lemma_fields_bytes_concat(p13, opt_u32(14, v.internal_result));
        }
        put_opt_u32(&mut out, 15, self.current_count);
        let ghost p15 = p14 + opt_u32(15, v.current_count);
        proof {
            lemma_fields_bytes_concat(p14, opt_u32(15, v.current_count));
        }
        put_opt_u32(&mut out, 16, self.last_call_handle);
        let ghost p16 = p15 + opt_u32(16, v.last_call_handle);
        proof {
            lemma_fields_bytes_concat(p15, opt_u32(16, v.last_call_handle));
        }
        put_opt_u32(&mut out, 17, self.last_call_module_crc);
        let ghost p17 = p16 + opt_u32(17, v.last_call_module_crc);
        proof {
            lemma_fields_bytes_concat(p16, opt_u32(17, v.last_call_module_crc));
        }
        put_opt_bytes(&mut out, 18, &self.last_call_sysid_routing);
        let ghost p18 = p17 + opt_bytes(18, v.last_call_sysid_routing);
        proof {
            lemma_fields_bytes_concat(p17, opt_bytes(18, v.last_call_sysid_routing));
        }
        put_opt_u32(&mut out, 19, self.last_ecallresult);
        let ghost p19 = p18 + opt_u32(19, v.last_ecallresult);
        proof {
            lemma_fields_bytes_concat(p18, opt_u32(19, v.last_ecallresult));
        }
        put_opt_u32(&mut out, 20, self.last_callissue_delta);
        let ghost p20 = p19 + opt_u32(20, v.last_callissue_delta);
        proof {
            lemma_fields_bytes_concat(p19, opt_u32(20, v.last_callissue_delta));
        }
        put_opt_u32(&mut out, 21, self.last_callcomplete_delta);
        let ghost p21 = p20 + opt_u32(21, v.last_callcomplete_delta);
        proof {
            lemma_fields_bytes_concat(p20, opt_u32(21, v.last_callcomplete_delta));
        }
        proof {
            reveal(CMsgClientServiceCallResponse::spec_encode);
        }
        assert(p21 == Self::spec_fields(v));
        out
    }

    /// Appends the encoding of this message to `out`.
    pub fn encode_raw(&self, out: &mut Vec<u8>)
        ensures
            final(out)@ == old(out)@ + Self::spec_encode(self@),
    {
        let mut b = self.encode_to_vec();
        out.append(&mut b);
    }

    /// The first `k` fields of `v`, the others as a fresh message has them.
    #[verifier::opaque]
    pub open spec fn spec_prefix(v: SpecCMsgClientServiceCallResponse, k: int) -> SpecCMsgClientServiceCallResponse {
        SpecCMsgClientServiceCallResponse {
            sysid_routing: if 1 <= k { v.sysid_routing } else { None },
            call_handle: if 2 <= k { v.call_handle } else { None },
            module_crc: if 3 <= k { v.module_crc } else { None },
            module_hash: if 4 <= k { v.module_hash } else { None },
            ecallresult: if 5 <= k { v.ecallresult } else { None },
            result_content: if 6 <= k { v.result_content } else { None },
            os_version_info: if 7 <= k { v.os_version_info } else { None },
            system_info: if 8 <= k { v.system_info } else { None },
            load_address: if 9 <= k { v.load_address } else { None },
            exception_record: if 10 <= k { v.exception_record } else { None },
            portable_os_version_info: if 11 <= k { v.portable_os_version_info } else { None },
            portable_system_info: if 12 <= k { v.portable_system_info } else { None },
            was_converted: if 13 <= k { v.was_converted } else { None },
            internal_result: if 14 <= k { v.internal_result } else { None },
            current_count: if 15 <= k { v.current_count } else { None },
            last_call_handle: if 16 <= k { v.last_call_handle } else { None },
            last_call_module_crc: if 17 <= k { v.last_call_module_crc } else { None },
            last_call_sysid_routing: if 18 <= k { v.last_call_sysid_routing } else { None },
            last_ecallresult: if 19 <= k { v.last_ecallresult } else { None },
            last_callissue_delta: if 20 <= k { v.last_callissue_delta } else { None },
            last_callcomplete_delta: if 21 <= k { v.last_callcomplete_delta } else { None },
        }
    }

    /// Reading field 1 back, after the fields before it.
    proof fn lemma_field_sysid_routing(v: SpecCMsgClientServiceCallResponse)
        ensures
            fold_fields(Self::spec_prefix(v, 0), opt_bytes(1, v.sysid_routing), Self::apply_fn())
                == Ok::<SpecCMsgClientServiceCallResponse, WireError>(Self::spec_prefix(v, 1)),
    {
        reveal(CMsgClientServiceCallResponse::spec_prefix);
        reveal(opt_bytes);
        let apply = Self::apply_fn();
        let s = Self::spec_prefix(v, 0);
        lemma_fold_opt(s, 1, match v.sysid_routing { Some(x) => Some(enc_bytes(x)), None => None }, apply);
        assert(SpecCMsgClientServiceCallResponse { sysid_routing: v.sysid_routing, ..s } == Self::spec_prefix(v, 1));
    }

    /// Reading field 2 back, after the fields before it.
    proof fn lemma_field_call_handle(v: SpecCMsgClientServiceCallResponse)
        ensures
            fold_fields(Self::spec_prefix(v, 1), opt_u32(2, v.call_handle), Self::apply_fn())
                == Ok::<SpecCMsgClientServiceCallResponse, WireError>(Self::spec_prefix(v, 2)),
    {
        reveal(CMsgClientServiceCallResponse::spec_prefix);
        reveal(opt_u32);
        let apply = Self::apply_fn();
        let s = Self::spec_prefix(v, 1);
        lemma_fold_opt(s, 2, match v.call_handle { Some(x) => Some(enc_u32(x)), None => None }, apply);
        if let Some(x) = v.call_handle {
            lemma_u32_roundtrip(x);
        }
        assert(SpecCMsgClientServiceCallResponse { call_handle: v.call_handle, ..s } == Self::spec_prefix(v, 2));
    }

    /// Reading field 3 back, after the fields before it.
    proof fn lemma_field_module_crc(v: SpecCMsgClientServiceCallResponse)
        ensures
            fold_fields(Self::spec_prefix(v, 2), opt_u32(3, v.module_crc), Self::apply_fn())
                == Ok::<SpecCMsgClientServiceCallResponse, WireError>(Self::spec_prefix(v, 3)),
    {
        reveal(CMsgClientServiceCallResponse::spec_prefix);
        reveal(opt_u32);
        let apply = Self::apply_fn();
        let s = Self::spec_prefix(v, 2);
        lemma_fold_opt(s, 3, match v.module_crc { Some(x) => Some(enc_u32(x)), None => None }, apply);
        if let Some(x) = v.module_crc {
            lemma_u32_roundtrip(x);
        }
        assert(SpecCMsgClientServiceCallResponse { module_crc: v.module_crc, ..s } == Self::spec_prefix(v, 3));
    }

    /// Reading field 4 back, after the fields before it.
    proof fn lemma_field_module_hash(v: SpecCMsgClientServiceCallResponse)
        ensures
            fold_fields(Self::spec_prefix(v, 3), opt_bytes(4, v.module_hash), Self::apply_fn())
                == Ok::<SpecCMsgClientServiceCallResponse, WireError>(Self::spec_prefix(v, 4)),
    {
        reveal(CMsgClientServiceCallResponse::spec_prefix);
        reveal(opt_bytes);
        let apply = Self::apply_fn();
        let s = Self::spec_prefix(v, 3);
        lemma_fold_opt(s, 4, match v.module_hash { Some(x) => Some(enc_bytes(x)), None => None }, apply);
        assert(SpecCMsgClientServiceCallResponse { module_hash: v.module_hash, ..s } == Self::spec_prefix(v, 4));
    }

    /// Reading field 5 back, after the fields before it.
    proof fn lemma_field_ecallresult(v: SpecCMsgClientServiceCallResponse)
        ensures
            fold_fields(Self::spec_prefix(v, 4), opt_u32(5, v.ecallresult), Self::apply_fn())
                == Ok::<SpecCMsgClientServiceCallResponse, WireError>(Self::spec_prefix(v, 5)),
    {
        reveal(CMsgClientServiceCallResponse::spec_prefix);
        reveal(opt_u32);
        let apply = Self::apply_fn();
        let s = Self::spec_prefix(v, 4);
        lemma_fold_opt(s, 5, match v.ecallresult { Some(x) => Some(enc_u32(x)), None => None }, apply);
        if let Some(x) = v.ecallresult {
            lemma_u32_roundtrip(x);
        }
        assert(SpecCMsgClientServiceCallResponse { ecallresult: v.ecallresult, ..s } == Self::spec_prefix(v, 5));
    }

    /// Reading field 6 back, after the fields before it.
    proof fn lemma_field_result_content(v: SpecCMsgClientServiceCallResponse)
        ensures
            fold_fields(Self::spec_prefix(v, 5), opt_bytes(6, v.result_content), Self::apply_fn())
                == Ok::<SpecCMsgClientServiceCallResponse, WireError>(Self::spec_prefix(v, 6)),
    {
        reveal(CMsgClientServiceCallResponse::spec_prefix);
        reveal(opt_bytes);
        let apply = Self::apply_fn();
        let s = Self::spec_prefix(v, 5);
        lemma_fold_opt(s, 6, match v.result_content { Some(x) => Some(enc_bytes(x)), None => None }, apply);
        assert(SpecCMsgClientServiceCallResponse { result_content: v.result_content, ..s } == Self::spec_prefix(v, 6));
    }

    /// Reading field 7 back, after the fields before it.
    proof fn lemma_field_os_version_info(v: SpecCMsgClientServiceCallResponse)
        ensures
            fold_fields(Self::spec_prefix(v, 6), opt_bytes(7, v.os_version_info), Self::apply_fn())
                == Ok::<SpecCMsgClientServiceCallResponse, WireError>(Self::spec_prefix(v, 7)),
    {
        reveal(CMsgClientServiceCallResponse::spec_prefix);
        reveal(opt_bytes);
        let apply = Self::apply_fn();
        let s = Self::spec_prefix(v, 6);
        lemma_fold_opt(s, 7, match v.os_version_info { Some(x) => Some(enc_bytes(x)), None => None }, apply);
        assert(SpecCMsgClientServiceCallResponse { os_version_info: v.os_version_info, ..s } == Self::spec_prefix(v, 7));
    }

    /// Reading field 8 back, after the fields before it.
    proof fn lemma_field_system_info(v: SpecCMsgClientServiceCallResponse)
        ensures
            fold_fields(Self::spec_prefix(v, 7), opt_bytes(8, v.system_info), Self::apply_fn())
                == Ok::<SpecCMsgClientServiceCallResponse, WireError>(Self::spec_prefix(v, 8)),
    {
        reveal(CMsgClientServiceCallResponse::spec_prefix);
        reveal(opt_bytes);
        let apply = Self::apply_fn();
        let s = Self::spec_prefix(v, 7);
        lemma_fold_opt(s, 8, match v.system_info { Some(x) => Some(enc_bytes(x)), None => None }, apply);
        assert(SpecCMsgClientServiceCallResponse { system_info: v.system_info, ..s } == Self::spec_prefix(v, 8));
    }

    /// Reading field 9 back, after the fields before it.
    proof fn lemma_field_load_address(v: SpecCMsgClientServiceCallResponse)
        ensures
            fold_fields(Self::spec_prefix(v, 8), opt_fixed64(9, v.load_address), Self::apply_fn())
                == Ok::<SpecCMsgClientServiceCallResponse, WireError>(Self::spec_prefix(v, 9)),
    {
        reveal(CMsgClientServiceCallResponse::spec_prefix);
        reveal(opt_fixed64);
        let apply = Self::apply_fn();
        let s = Self::spec_prefix(v, 8);
        lemma_fold_opt(s, 9, match v.load_address { Some(x) => Some(enc_fixed64(x)), None => None }, apply);
        if let Some(x) = v.load_address {
            lemma_u64_roundtrip(x);
        }
        assert(SpecCMsgClientServiceCallResponse { load_address: v.load_address, ..s } == Self::spec_prefix(v, 9));
    }

    /// Reading field 10 back, after the fields before it.
    proof fn lemma_field_exception_record(v: SpecCMsgClientServiceCallResponse)
        ensures
            fold_fields(Self::spec_prefix(v, 9), opt_bytes(10, v.exception_record), Self::apply_fn())
                == Ok::<SpecCMsgClientServiceCallResponse, WireError>(Self::spec_prefix(v, 10)),
    {
        reveal(CMsgClientServiceCallResponse::spec_prefix);
        reveal(opt_bytes);
        let apply = Self::apply_fn();
        let s = Self::spec_prefix(v, 9);
        lemma_fold_opt(s, 10, match v.exception_record { Some(x) => Some(enc_bytes(x)), None => None }, apply);
        assert(SpecCMsgClientServiceCallResponse { exception_record: v.exception_record, ..s } == Self::spec_prefix(v, 10));
    }

    /// Reading field 11 back, after the fields before it.
    proof fn lemma_field_portable_os_version_info(v: SpecCMsgClientServiceCallResponse)
        ensures
            fold_fields(Self::spec_prefix(v, 10), opt_bytes(11, v.portable_os_version_info), Self::apply_fn())
                == Ok::<SpecCMsgClientServiceCallResponse, WireError>(Self::spec_prefix(v, 11)),
    {
        reveal(CMsgClientServiceCallResponse::spec_prefix);
        reveal(opt_bytes);
        let apply = Self::apply_fn();
        let s = Self::spec_prefix(v, 10);
        lemma_fold_opt(s, 11, match v.portable_os_version_info { Some(x) => Some(enc_bytes(x)), None => None }, apply);
        assert(SpecCMsgClientServiceCallResponse { portable_os_version_info: v.portable_os_version_info, ..s } == Self::spec_prefix(v, 11));
    }

    /// Reading field 12 back, after the fields before it.
    proof fn lemma_field_portable_system_info(v: SpecCMsgClientServiceCallResponse)
        ensures
            fold_fields(Self::spec_prefix(v, 11), opt_bytes(12, v.portable_system_info), Self::apply_fn())
                == Ok::<SpecCMsgClientServiceCallResponse, WireError>(Self::spec_prefix(v, 12)),
    {
        reveal(CMsgClientServiceCallResponse::spec_prefix);
        reveal(opt_bytes);
        let apply = Self::apply_fn();
        let s = Self::spec_prefix(v, 11);
        lemma_fold_opt(s, 12, match v.portable_system_info { Some(x) => Some(enc_bytes(x)), None => None }, apply);
        assert(SpecCMsgClientServiceCallResponse { portable_system_info: v.portable_system_info, ..s } == Self::spec_prefix(v, 12));
    }

    /// Reading field 13 back, after the fields before it.
    proof fn lemma_field_was_converted(v: SpecCMsgClientServiceCallResponse)
        ensures
            fold_fields(Self::spec_prefix(v, 12), opt_bool(13, v.was_converted), Self::apply_fn())
                == Ok::<SpecCMsgClientServiceCallResponse, WireError>(Self::spec_prefix(v, 13)),
    {
        reveal(CMsgClientServiceCallResponse::spec_prefix);
        reveal(opt_bool);
        let apply = Self::apply_fn();
        let s = Self::spec_prefix(v, 12);
        lemma_fold_opt(s, 13, match v.was_converted { Some(x) => Some(enc_bool(x)), None => None }, apply);
        assert(SpecCMsgClientServiceCallResponse { was_converted: v.was_converted, ..s } == Self::spec_prefix(v, 13));
    }

    /// Reading field 14 back, after the fields before it.
    proof fn lemma_field_internal_result(v: SpecCMsgClientServiceCallResponse)
        ensures
            fold_fields(Self::spec_prefix(v, 13), opt_u32(14, v.internal_result), Self::apply_fn())
                == Ok::<SpecCMsgClientServiceCallResponse, WireError>(Self::spec_prefix(v, 14)),
    {
        reveal(CMsgClientServiceCallResponse::spec_prefix);
        reveal(opt_u32);
        let apply = Self::apply_fn();
        let s = Self::spec_prefix(v, 13);
        lemma_fold_opt(s, 14, match v.internal_result { Some(x) => Some(enc_u32(x)), None => None }, apply);
        if let Some(x) = v.internal_result {
            lemma_u32_roundtrip(x);
        }
        assert(SpecCMsgClientServiceCallResponse { internal_result: v.internal_result, ..s } == Self::spec_prefix(v, 14));
    }

    /// Reading field 15 back, after the fields before it.
    proof fn lemma_field_current_count(v: SpecCMsgClientServiceCallResponse)
        ensures
            fold_fields(Self::spec_prefix(v, 14), opt_u32(15, v.current_count), Self::apply_fn())
                == Ok::<SpecCMsgClientServiceCallResponse, WireError>(Self::spec_prefix(v, 15)),
    {
        reveal(CMsgClientServiceCallResponse::spec_prefix);
        reveal(opt_u32);
        let apply = Self::apply_fn();
        let s = Self::spec_prefix(v, 14);
        lemma_fold_opt(s, 15, match v.current_count { Some(x) => Some(enc_u32(x)), None => None }, apply);
        if let Some(x) = v.current_count {
            lemma_u32_roundtrip(x);
        }
        assert(SpecCMsgClientServiceCallResponse { current_count: v.current_count, ..s } == Self::spec_prefix(v, 15));
    }

    /// Reading field 16 back, after the fields before it.
    proof fn lemma_field_last_call_handle(v: SpecCMsgClientServiceCallResponse)
        ensures
            fold_fields(Self::spec_prefix(v, 15), opt_u32(16, v.last_call_handle), Self::apply_fn())
                == Ok::<SpecCMsgClientServiceCallResponse, WireError>(Self::spec_prefix(v, 16)),
    {
        reveal(CMsgClientServiceCallResponse::spec_prefix);
        reveal(opt_u32);
        let apply = Self::apply_fn();
        let s = Self::spec_prefix(v, 15);
        lemma_fold_opt(s, 16, match v.last_call_handle { Some(x) => Some(enc_u32(x)), None => None }, apply);
        if let Some(x) = v.last_call_handle {
            lemma_u32_roundtrip(x);
        }
        assert(SpecCMsgClientServiceCallResponse { last_call_handle: v.last_call_handle, ..s } == Self::spec_prefix(v, 16));
    }

    /// Reading field 17 back, after the fields before it.
    proof fn lemma_field_last_call_module_crc(v: SpecCMsgClientServiceCallResponse)
        ensures
            fold_fields(Self::spec_prefix(v, 16), opt_u32(17, v.last_call_module_crc), Self::apply_fn())
                == Ok::<SpecCMsgClientServiceCallResponse, WireError>(Self::spec_prefix(v, 17)),
    {
        reveal(CMsgClientServiceCallResponse::spec_prefix);
        reveal(opt_u32);
        let apply = Self::apply_fn();
        let s = Self::spec_prefix(v, 16);
        lemma_fold_opt(s, 17, match v.last_call_module_crc { Some(x) => Some(enc_u32(x)), None => None }, apply);
        if let Some(x) = v.last_call_module_crc {
            lemma_u32_roundtrip(x);
        }
        assert(SpecCMsgClientServiceCallResponse { last_call_module_crc: v.last_call_module_crc, ..s } == Self::spec_prefix(v, 17));
    }

    /// Reading field 18 back, after the fields before it.
    proof fn lemma_field_last_call_sysid_routing(v: SpecCMsgClientServiceCallResponse)
        ensures
            fold_fields(Self::spec_prefix(v, 17), opt_bytes(18, v.last_call_sysid_routing), Self::apply_fn())
                == Ok::<SpecCMsgClientServiceCallResponse, WireError>(Self::spec_prefix(v, 18)),
    {
        reveal(CMsgClientServiceCallResponse::spec_prefix);
        reveal(opt_bytes);
        let apply = Self::apply_fn();
        let s = Self::spec_prefix(v, 17);
        lemma_fold_opt(s, 18, match v.last_call_sysid_routing { Some(x) => Some(enc_bytes(x)), None => None }, apply);
        assert(SpecCMsgClientServiceCallResponse { last_call_sysid_routing: v.last_call_sysid_routing, ..s } == Self::spec_prefix(v, 18));
    }

    /// Reading field 19 back, after the fields before it.
    proof fn lemma_field_last_ecallresult(v: SpecCMsgClientServiceCallResponse)
        ensures
            fold_fields(Self::spec_prefix(v, 18), opt_u32(19, v.last_ecallresult), Self::apply_fn())
                == Ok::<SpecCMsgClientServiceCallResponse, WireError>(Self::spec_prefix(v, 19)),
    {
        reveal(CMsgClientServiceCallResponse::spec_prefix);
        reveal(opt_u32);
        let apply = Self::apply_fn();
        let s = Self::spec_prefix(v, 18);
        lemma_fold_opt(s, 19, match v.last_ecallresult { Some(x) => Some(enc_u32(x)), None => None }, apply);
        if let Some(x) = v.last_ecallresult {
            lemma_u32_roundtrip(x);
        }
        assert(SpecCMsgClientServiceCallResponse { last_ecallresult: v.last_ecallresult, ..s } == Self::spec_prefix(v, 19));
    }

    /// Reading field 20 back, after the fields before it.
    proof fn lemma_field_last_callissue_delta(v: SpecCMsgClientServiceCallResponse)
        ensures
            fold_fields(Self::spec_prefix(v, 19), opt_u32(20, v.last_callissue_delta), Self::apply_fn())
                == Ok::<SpecCMsgClientServiceCallResponse, WireError>(Self::spec_prefix(v, 20)),
    {
        reveal(CMsgClientServiceCallResponse::spec_prefix);
        reveal(opt_u32);
        let apply = Self::apply_fn();
        let s = Self::spec_prefix(v, 19);
        lemma_fold_opt(s, 20, match v.last_callissue_delta { Some(x) => Some(enc_u32(x)), None => None }, apply);
        if let Some(x) = v.last_callissue_delta {
            lemma_u32_roundtrip(x);
        }
        assert(SpecCMsgClientServiceCallResponse { last_callissue_delta: v.last_callissue_delta, ..s } == Self::spec_prefix(v, 20));
    }

    /// Reading field 21 back, after the fields before it.
    proof fn lemma_field_last_callcomplete_delta(v: SpecCMsgClientServiceCallResponse)
        ensures
            fold_fields(Self::spec_prefix(v, 20), opt_u32(21, v.last_callcomplete_delta), Self::apply_fn())
                == Ok::<SpecCMsgClientServiceCallResponse, WireError>(Self::spec_prefix(v, 21)),
    {
        reveal(CMsgClientServiceCallResponse::spec_prefix);
        reveal(opt_u32);
        let apply = Self::apply_fn();
        let s = Self::spec_prefix(v, 20);
        lemma_fold_opt(s, 21, match v.last_callcomplete_delta { Some(x) => Some(enc_u32(x)), None => None }, apply);
        if let Some(x) = v.last_callcomplete_delta {
            lemma_u32_roundtrip(x);
        }
        assert(SpecCMsgClientServiceCallResponse { last_callcomplete_delta: v.last_callcomplete_delta, ..s } == Self::spec_prefix(v, 21));
    }

    /// Whether this message declares field number `n`.
    pub open spec fn declares(n: u32) -> bool {
        n == 1 || n == 2 || n == 3 || n == 4 || n == 5 || n == 6 || n == 7 || n == 8 || n == 9 || n == 10 || n == 11 || n == 12 || n == 13 || n == 14 || n == 15 || n == 16 || n == 17 || n == 18 || n == 19 || n == 20 || n == 21
    }

    /// A record with a number this message does not declare is passed over: well-formed
    /// bytes decode to the same message with such a record after them as without it.
    pub proof fn lemma_unknown_field(bytes: Seq<u8>, f: SpecField)
        requires
            parse_fields(bytes) is Ok,
            field_wf(f),
            !Self::declares(f.number),
        ensures
            Self::spec_decode(bytes + field_bytes(f)) == Self::spec_decode(bytes),
    {
        reveal(CMsgClientServiceCallResponse::spec_decode);
        lemma_parse_fields_append(bytes, f);
        let fs = parse_fields(bytes).unwrap();
        let apply = Self::apply_fn();
        lemma_fold_concat(Self::spec_default(), fs, seq![f], apply);
        assert(fs.push(f) =~= fs + seq![f]);
        if let Ok(w) = fold_fields(Self::spec_default(), fs, apply) {
            lemma_fold_single(w, f, apply);
        }
        lemma_merge_run_fold(Self::spec_default(), bytes, apply);
        lemma_merge_run_fold(Self::spec_default(), bytes + field_bytes(f), apply);
    }

    /// Decoding the encoding of a message gives the message back.
    pub proof fn lemma_decode_encode(v: SpecCMsgClientServiceCallResponse)
        requires
            Self::spec_encode(v).len() <= u64::MAX,
        ensures
            Self::spec_decode(Self::spec_encode(v)) == Ok::<SpecCMsgClientServiceCallResponse, WireError>(v),
    {
        let apply = Self::apply_fn();
        let d = Self::spec_default();
        let p0 = Seq::<SpecField>::empty();
        let l1 = opt_bytes(1, v.sysid_routing);
        let p1 = p0 + l1;
        let l2 = opt_u32(2, v.call_handle);
        let p2 = p1 + l2;
        let l3 = opt_u32(3, v.module_crc);
        let p3 = p2 + l3;
        let l4 = opt_bytes(4, v.module_hash);
        let p4 = p3 + l4;
        let l5 = opt_u32(5, v.ecallresult);
        let p5 = p4 + l5;
        let l6 = opt_bytes(6, v.result_content);
        let p6 = p5 + l6;
        let l7 = opt_bytes(7, v.os_version_info);
        let p7 = p6 + l7;
        let l8 = opt_bytes(8, v.system_info);
        let p8 = p7 + l8;
        let l9 = opt_fixed64(9, v.load_address);
        let p9 = p8 + l9;
        let l10 = opt_bytes(10, v.exception_record);
        let p10 = p9 + l10;
        let l11 = opt_bytes(11, v.portable_os_version_info);
        let p11 = p10 + l11;
        let l12 = opt_bytes(12, v.portable_system_info);
        let p12 = p11 + l12;
        let l13 = opt_bool(13, v.was_converted);
        let p13 = p12 + l13;
        let l14 = opt_u32(14, v.internal_result);
        let p14 = p13 + l14;
        let l15 = opt_u32(15, v.current_count);
        let p15 = p14 + l15;
        let l16 = opt_u32(16, v.last_call_handle);
        let p16 = p15 + l16;
        let l17 = opt_u32(17, v.last_call_module_crc);
        let p17 = p16 + l17;
        let l18 = opt_bytes(18, v.last_call_sysid_routing);
        let p18 = p17 + l18;
        let l19 = opt_u32(19, v.last_ecallresult);
        let p19 = p18 + l19;
        let l20 = opt_u32(20, v.last_callissue_delta);
        let p20 = p19 + l20;
        let l21 = opt_u32(21, v.last_callcomplete_delta);
        let p21 = p20 + l21;
        assert(parse_fields(Self::spec_encode(v)) == Ok::<Seq<SpecField>, WireError>(p21)) by {
            reveal(CMsgClientServiceCallResponse::spec_encode);
            assert(numbers_ok(p0) && fields_wf(p0)) by {
                reveal(numbers_ok);
                reveal(fields_wf);
            }
            lemma_opt_bytes_numbered(1, v.sysid_routing);
            lemma_fields_wf_concat(p0, l1);
            lemma_opt_u32_numbered(2, v.call_handle);
            lemma_fields_wf_concat(p1, l2);
            lemma_opt_u32_numbered(3, v.module_crc);
            lemma_fields_wf_concat(p2, l3);
            lemma_opt_bytes_numbered(4, v.module_hash);
            lemma_fields_wf_concat(p3, l4);
            lemma_opt_u32_numbered(5, v.ecallresult);
            lemma_fields_wf_concat(p4, l5);
            lemma_opt_bytes_numbered(6, v.result_content);
            lemma_fields_wf_concat(p5, l6);
            lemma_opt_bytes_numbered(7, v.os_version_info);
            lemma_fields_wf_concat(p6, l7);
            lemma_opt_bytes_numbered(8, v.system_info);
            lemma_fields_wf_concat(p7, l8);
            lemma_opt_fixed64_numbered(9, v.load_address);
            lemma_fields_wf_concat(p8, l9);
            lemma_opt_bytes_numbered(10, v.exception_record);
            lemma_fields_wf_concat(p9, l10);
            lemma_opt_bytes_numbered(11, v.portable_os_version_info);
            lemma_fields_wf_concat(p10, l11);
            lemma_opt_bytes_numbered(12, v.portable_system_info);
            lemma_fields_wf_concat(p11, l12);
            lemma_opt_bool_numbered(13, v.was_converted);
            lemma_fields_wf_concat(p12, l13);
            lemma_opt_u32_numbered(14, v.internal_result);
            lemma_fields_wf_concat(p13, l14);
            lemma_opt_u32_numbered(15, v.current_count);
            lemma_fields_wf_concat(p14, l15);
            lemma_opt_u32_numbered(16, v.last_call_handle);
            lemma_fields_wf_concat(p15, l16);
            lemma_opt_u32_numbered(17, v.last_call_module_crc);
            lemma_fields_wf_concat(p16, l17);
            lemma_opt_bytes_numbered(18, v.last_call_sysid_routing);
            lemma_fields_wf_concat(p17, l18);
            lemma_opt_u32_numbered(19, v.last_ecallresult);
            lemma_fields_wf_concat(p18, l19);
            lemma_opt_u32_numbered(20, v.last_callissue_delta);
            lemma_fields_wf_concat(p19, l20);
            lemma_opt_u32_numbered(21, v.last_callcomplete_delta);
            lemma_fields_wf_concat(p20, l21);
            assert(p21 == Self::spec_fields(v));
            lemma_fields_wf_from_len(p21);
            lemma_fields_roundtrip(p21);
        }
        assert(Self::spec_prefix(v, 0) == d) by {
            reveal(CMsgClientServiceCallResponse::spec_prefix);
        }
        lemma_fold_empty(d, apply);
        lemma_fold_concat(d, p0, l1, apply);
        Self::lemma_field_sysid_routing(v);
        lemma_fold_concat(d, p1, l2, apply);
        Self::lemma_field_call_handle(v);
        lemma_fold_concat(d, p2, l3, apply);
        Self::lemma_field_module_crc(v);
        lemma_fold_concat(d, p3, l4, apply);
        Self::lemma_field_module_hash(v);
        lemma_fold_concat(d, p4, l5, apply);
        Self::lemma_field_ecallresult(v);
        lemma_fold_concat(d, p5, l6, apply);
        Self::lemma_field_result_content(v);
        lemma_fold_concat(d, p6, l7, apply);
        Self::lemma_field_os_version_info(v);
        lemma_fold_concat(d, p7, l8, apply);
        Self::lemma_field_system_info(v);
        lemma_fold_concat(d, p8, l9, apply);
        Self::lemma_field_load_address(v);
        lemma_fold_concat(d, p9, l10, apply);
        Self::lemma_field_exception_record(v);
        lemma_fold_concat(d, p10, l11, apply);
        Self::lemma_field_portable_os_version_info(v);
        lemma_fold_concat(d, p11, l12, apply);
        Self::lemma_field_portable_system_info(v);
        lemma_fold_concat(d, p12, l13, apply);
        Self::lemma_field_was_converted(v);
        lemma_fold_concat(d, p13, l14, apply);
        Self::lemma_field_internal_result(v);
        lemma_fold_concat(d, p14, l15, apply);
        Self::lemma_field_current_count(v);
        lemma_fold_concat(d, p15, l16, apply);
        Self::lemma_field_last_call_handle(v);
        lemma_fold_concat(d, p16, l17, apply);
        Self::lemma_field_last_call_module_crc(v);
        lemma_fold_concat(d, p17, l18, apply);
        Self::lemma_field_last_call_sysid_routing(v);
        lemma_fold_concat(d, p18, l19, apply);
        Self::lemma_field_last_ecallresult(v);
        lemma_fold_concat(d, p19, l20, apply);
        Self::lemma_field_last_callissue_delta(v);
        lemma_fold_concat(d, p20, l21, apply);
        Self::lemma_field_last_callcomplete_delta(v);
        assert(Self::spec_prefix(v, 21) == v) by {
            reveal(CMsgClientServiceCallResponse::spec_prefix);
        }
        lemma_merge_run_fold(d, Self::spec_encode(v), apply);
        assert(Self::spec_decode(Self::spec_encode(v)) == Ok::<SpecCMsgClientServiceCallResponse, WireError>(v)) by {
            reveal(CMsgClientServiceCallResponse::spec_decode);
        }
    }
}

/// `CMsgAMUnlockH264`, as Valve's schema declares it.
#[derive(Debug, Clone, PartialEq)]
pub struct CMsgAMUnlockH264 {
    /// Field 1.
    pub appid: Option<u32>,
    /// Field 2.
    pub platform: Option<i32>,
    /// Field 3.
    pub reason: Option<i32>,
}

/// What a `CMsgAMUnlockH264` holds, as mathematical values.
#[verifier::ext_equal]
pub struct SpecCMsgAMUnlockH264 {
    pub appid: Option<u32>,
    pub platform: Option<i32>,
    pub reason: Option<i32>,
}

impl View for CMsgAMUnlockH264 {
    type V = SpecCMsgAMUnlockH264;

    open spec fn view(&self) -> SpecCMsgAMUnlockH264 {
        SpecCMsgAMUnlockH264 {
            appid: self.appid,
            platform: self.platform,
            reason: self.reason,
        }
    }
}

impl Default for CMsgAMUnlockH264 {
    fn default() -> (r: Self)
        ensures
            r@ == CMsgAMUnlockH264::spec_default(),
    {
        CMsgAMUnlockH264 {
            appid: None,
            platform: None,
            reason: None,
        }
    }
}

impl CMsgAMUnlockH264 {
    pub open spec fn spec_default() -> SpecCMsgAMUnlockH264 {
        SpecCMsgAMUnlockH264 {
            appid: None,
            platform: None,
            reason: None,
        }
    }

    /// The records a `CMsgAMUnlockH264` is written as, in field order.
    pub open spec fn spec_fields(v: SpecCMsgAMUnlockH264) -> Seq<SpecField> {
        Seq::<SpecField>::empty()
            + opt_u32(1, v.appid)
            + opt_i32(2, v.platform)
            + opt_i32(3, v.reason)
    }

    #[verifier::opaque]
    pub open spec fn spec_encode(v: SpecCMsgAMUnlockH264) -> Seq<u8> {
        fields_bytes(Self::spec_fields(v))
    }

    /// What one record does to the message: a declared number sets or extends its
    /// field, any other number is left alone.
    pub open spec fn spec_apply(v: SpecCMsgAMUnlockH264, f: SpecField) -> Result<SpecCMsgAMUnlockH264, WireError> {
        match f.number {
            1 => match dec_u32(f.value) {
                Ok(x) => Ok(SpecCMsgAMUnlockH264 { appid: Some(x), ..v }),
                Err(e) => Err(e),
            },
            2 => match dec_i32(f.value) {
                Ok(x) => Ok(SpecCMsgAMUnlockH264 { platform: Some(x), ..v }),
                Err(e) => Err(e),
            },
            3 => match dec_i32(f.value) {
                Ok(x) => Ok(SpecCMsgAMUnlockH264 { reason: Some(x), ..v }),
                Err(e) => Err(e),
            },
            _ => Ok(v),
        }
    }

    pub open spec fn apply_fn() -> spec_fn(SpecCMsgAMUnlockH264, SpecField) -> Result<SpecCMsgAMUnlockH264, WireError> {
        |v: SpecCMsgAMUnlockH264, f: SpecField| Self::spec_apply(v, f)
    }

    /// The message `bytes` makes of `v`: its records applied in order, or the error
    /// that stops the reading.
    pub open spec fn spec_merge(v: SpecCMsgAMUnlockH264, bytes: Seq<u8>) -> Result<SpecCMsgAMUnlockH264, WireError> {
        let (w, stop) = merge_run(v, bytes, Self::apply_fn());
        match stop {
            None => Ok(w),
            Some(e) => Err(e),
        }
    }

    #[verifier::opaque]
    pub open spec fn spec_decode(bytes: Seq<u8>) -> Result<SpecCMsgAMUnlockH264, WireError> {
        Self::spec_merge(Self::spec_default(), bytes)
    }

    /// This message with one record applied to it, or, when the record is refused,
    /// the message unchanged and the reason.
    fn applied(self, f: &Field) -> (r: Result<Self, (Self, WireError)>)
        ensures
            match Self::spec_apply(self@, f@) {
                Ok(v) => r matches Ok(m) && m@ == v,
                Err(e) => r matches Err((m, x)) && x == e && m@ == self@,
            },
    {
        match f.number {
            1 => match read_u32(&f.value) {
                Ok(x) => Ok(Self { appid: Some(x), ..self }),
                Err(e) => Err((self, e)),
            },
            2 => match read_i32(&f.value) {
                Ok(x) => Ok(Self { platform: Some(x), ..self }),
                Err(e) => Err((self, e)),
            },
            3 => match read_i32(&f.value) {
                Ok(x) => Ok(Self { reason: Some(x), ..self }),
                Err(e) => Err((self, e)),
            },
            _ => Ok(self),
        }
    }

    /// Reads the records `bytes` holds into this message, in order. When a record does
    /// not parse or is refused, the reading stops there: the message keeps what the
    /// records before it gave, and the error is returned.
    pub fn merge(&mut self, bytes: &[u8]) -> (r: Result<(), WireError>)
        ensures
            final(self)@ == merge_run(old(self)@, bytes@, Self::apply_fn()).0,
            r == match merge_run(old(self)@, bytes@, Self::apply_fn()).1 {
                None => Ok::<(), WireError>(()),
                Some(e) => Err::<(), WireError>(e),
            },
    {
        let ghost total = merge_run(self@, bytes@, Self::apply_fn());
        let mut cur = Self::default();
        std::mem::swap(&mut cur, self);
        let mut pos: usize = 0;
        assert(bytes@.skip(0) =~= bytes@);
        while pos < bytes.len()
            invariant
                pos <= bytes@.len(),
                total == merge_run(old(self)@, bytes@, Self::apply_fn()),
                merge_run(cur@, bytes@.skip(pos as int), Self::apply_fn()) == total,
            decreases bytes@.len() - pos,
        {
            let ghost s = bytes@.skip(pos as int);
            proof {
                lemma_merge_run_step(cur@, s, Self::apply_fn());
                lemma_parse_field_len(s);
            }
            match read_field(bytes, pos) {
                Ok((f, end)) => {
                    assert(bytes@.skip(end as int) =~= s.skip((end - pos) as int));
                    match cur.applied(&f) {
                        Ok(m) => {
                            cur = m;
                        },
                        Err((m, e)) => {
                            *self = m;
                            return Err(e);
                        },
                    }
                    pos = end;
                },
                Err(e) => {
                    *self = cur;
                    return Err(e);
                },
            }
        }
        assert(bytes@.skip(pos as int) =~= Seq::<u8>::empty());
        proof {
            lemma_merge_run_empty(cur@, Self::apply_fn());
        }
        *self = cur;
        Ok(())
    }

    /// Decodes a message from its encoding.
    pub fn decode(bytes: &[u8]) -> (r: Result<Self, WireError>)
        ensures
            match Self::spec_decode(bytes@) {
                Ok(v) => r matches Ok(m) && m@ == v,
                Err(e) => r matches Err(x) && x == e,
            },
    {
        proof {
            reveal(CMsgAMUnlockH264::spec_decode);
        }
        let mut m = Self::default();
        match m.merge(bytes) {
            Ok(()) => Ok(m),
            Err(e) => Err(e),
        }
    }

    /// The encoding of this message.
    pub fn encode_to_vec(&self) -> (r: Vec<u8>)
        ensures
            r@ == Self::spec_encode(self@),
    {
        let ghost v = self@;
        let mut out: Vec<u8> = Vec::new();
        let ghost p0 = Seq::<SpecField>::empty();
        put_opt_u32(&mut out, 1, self.appid);
        let ghost p1 = p0 + opt_u32(1, v.appid);
        proof {
            lemma_fields_bytes_concat(p0, opt_u32(1, v.appid));
        }
        put_opt_i32(&mut out, 2, self.platform);
        let ghost p2 = p1 + opt_i32(2, v.platform);
        proof {
            lemma_fields_bytes_concat(p1, opt_i32(2, v.platform));
        }
        put_opt_i32(&mut out, 3, self.reason);
        let ghost p3 = p2 + opt_i32(3, v.reason);
        proof {
            lemma_fields_bytes_concat(p2, opt_i32(3, v.reason));
        }
        proof {
            reveal(CMsgAMUnlockH264::spec_encode);
        }
        assert(p3 == Self::spec_fields(v));
        out
    }

    /// Appends the encoding of this message to `out`.
    pub fn encode_raw(&self, out: &mut Vec<u8>)
        ensures
            final(out)@ == old(out)@ + Self::spec_encode(self@),
    {
        let mut b = self.encode_to_vec();
        out.append(&mut b);
    }

    /// The first `k` fields of `v`, the others as a fresh message has them.
    #[verifier::opaque]
    pub open spec fn spec_prefix(v: SpecCMsgAMUnlockH264, k: int) -> SpecCMsgAMUnlockH264 {
        SpecCMsgAMUnlockH264 {
            appid: if 1 <= k { v.appid } else { None },
            platform: if 2 <= k { v.platform } else { None },
            reason: if 3 <= k { v.reason } else { None },
        }
    }

    /// Reading field 1 back, after the fields before it.
    proof fn lemma_field_appid(v: SpecCMsgAMUnlockH264)
        ensures
            fold_fields(Self::spec_prefix(v, 0), opt_u32(1, v.appid), Self::apply_fn())
                == Ok::<SpecCMsgAMUnlockH264, WireError>(Self::spec_prefix(v, 1)),
    {
        reveal(CMsgAMUnlockH264::spec_prefix);
        reveal(opt_u32);
        let apply = Self::apply_fn();
        let s = Self::spec_prefix(v, 0);
        lemma_fold_opt(s, 1, match v.appid { Some(x) => Some(enc_u32(x)), None => None }, apply);
        if let Some(x) = v.appid {
            lemma_u32_roundtrip(x);
        }
        assert(SpecCMsgAMUnlockH264 { appid: v.appid, ..s } == Self::spec_prefix(v, 1));
    }

    /// Reading field 2 back, after the fields before it.
    proof fn lemma_field_platform(v: SpecCMsgAMUnlockH264)
        ensures
            fold_fields(Self::spec_prefix(v, 1), opt_i32(2, v.platform), Self::apply_fn())
                == Ok::<SpecCMsgAMUnlockH264, WireError>(Self::spec_prefix(v, 2)),
    {
        reveal(CMsgAMUnlockH264::spec_prefix);
        reveal(opt_i32);
        let apply = Self::apply_fn();
        let s = Self::spec_prefix(v, 1);
        lemma_fold_opt(s, 2, match v.platform { Some(x) => Some(enc_i32(x)), None => None }, apply);
        if let Some(x) = v.platform {
            lemma_i32_roundtrip(x);
        }
        assert(SpecCMsgAMUnlockH264 { platform: v.platform, ..s } == Self::spec_prefix(v, 2));
    }

    /// Reading field 3 back, after the fields before it.
    proof fn lemma_field_reason(v: SpecCMsgAMUnlockH264)
        ensures
            fold_fields(Self::spec_prefix(v, 2), opt_i32(3, v.reason), Self::apply_fn())
                == Ok::<SpecCMsgAMUnlockH264, WireError>(Self::spec_prefix(v, 3)),
    {
        reveal(CMsgAMUnlockH264::spec_prefix);
        reveal(opt_i32);
        let apply = Self::apply_fn();
        let s = Self::spec_prefix(v, 2);
        lemma_fold_opt(s, 3, match v.reason { Some(x) => Some(enc_i32(x)), None => None }, apply);
        if let Some(x) = v.reason {
            lemma_i32_roundtrip(x);
        }
        assert(SpecCMsgAMUnlockH264 { reason: v.reason, ..s } == Self::spec_prefix(v, 3));
    }

    /// Whether this message declares field number `n`.
    pub open spec fn declares(n: u32) -> bool {
        n == 1 || n == 2 || n == 3
    }

    /// A record with a number this message does not declare is passed over: well-formed
    /// bytes decode to the same message with such a record after them as without it.
    pub proof fn lemma_unknown_field(bytes: Seq<u8>, f: SpecField)
        requires
            parse_fields(bytes) is Ok,
            field_wf(f),
            !Self::declares(f.number),
        ensures
            Self::spec_decode(bytes + field_bytes(f)) == Self::spec_decode(bytes),
    {
        reveal(CMsgAMUnlockH264::spec_decode);
        lemma_parse_fields_append(bytes, f);
        let fs = parse_fields(bytes).unwrap();
        let apply = Self::apply_fn();
        lemma_fold_concat(Self::spec_default(), fs, seq![f], apply);
        assert(fs.push(f) =~= fs + seq![f]);
        if let Ok(w) = fold_fields(Self::spec_default(), fs, apply) {
            lemma_fold_single(w, f, apply);
        }
        lemma_merge_run_fold(Self::spec_default(), bytes, apply);
        lemma_merge_run_fold(Self::spec_default(), bytes + field_bytes(f), apply);
    }

    /// Decoding the encoding of a message gives the message back.
    pub proof fn lemma_decode_encode(v: SpecCMsgAMUnlockH264)
        requires
            Self::spec_encode(v).len() <= u64::MAX,
        ensures
            Self::spec_decode(Self::spec_encode(v)) == Ok::<SpecCMsgAMUnlockH264, WireError>(v),
    {
        let apply = Self::apply_fn();
        let d = Self::spec_default();
        let p0 = Seq::<SpecField>::empty();
        let l1 = opt_u32(1, v.appid);
        let p1 = p0 + l1;
        let l2 = opt_i32(2, v.platform);
        let p2 = p1 + l2;
        let l3 = opt_i32(3, v.reason);
        let p3 = p2 + l3;
        assert(parse_fields(Self::spec_encode(v)) == Ok::<Seq<SpecField>, WireError>(p3)) by {
            reveal(CMsgAMUnlockH264::spec_encode);
            assert(numbers_ok(p0) && fields_wf(p0)) by {
                reveal(numbers_ok);
                reveal(fields_wf);
            }
            lemma_opt_u32_numbered(1, v.appid);
            lemma_fields_wf_concat(p0, l1);
            lemma_opt_i32_numbered(2, v.platform);
            lemma_fields_wf_concat(p1, l2);
            lemma_opt_i32_numbered(3, v.reason);
            lemma_fields_wf_concat(p2, l3);
            assert(p3 == Self::spec_fields(v));
            lemma_fields_wf_from_len(p3);
            lemma_fields_roundtrip(p3);
        }
        assert(Self::spec_prefix(v, 0) == d) by {
            reveal(CMsgAMUnlockH264::spec_prefix);
        }
        lemma_fold_empty(d, apply);
        lemma_fold_concat(d, p0, l1, apply);
        Self::lemma_field_appid(v);
        lemma_fold_concat(d, p1, l2, apply);
        Self::lemma_field_platform(v);
        lemma_fold_concat(d, p2, l3, apply);
        Self::lemma_field_reason(v);
        assert(Self::spec_prefix(v, 3) == v) by {
            reveal(CMsgAMUnlockH264::spec_prefix);
        }
        lemma_merge_run_fold(d, Self::spec_encode(v), apply);
        assert(Self::spec_decode(Self::spec_encode(v)) == Ok::<SpecCMsgAMUnlockH264, WireError>(v)) by {
            reveal(CMsgAMUnlockH264::spec_decode);
        }
    }
}

/// `CMsgAMUnlockH264Response`, as Valve's schema declares it.
#[derive(Debug, Clone, PartialEq)]
pub struct CMsgAMUnlockH264Response {
    /// Field 1.
    pub eresult: Option<i32>,
    /// Field 2.
    pub encryption_key: Option<Vec<u8>>,
}

/// What a `CMsgAMUnlockH264Response` holds, as mathematical values.
#[verifier::ext_equal]
pub struct SpecCMsgAMUnlockH264Response {
    pub eresult: Option<i32>,
    pub encryption_key: Option<Seq<u8>>,
}

impl View for CMsgAMUnlockH264Response {
    type V = SpecCMsgAMUnlockH264Response;

    open spec fn view(&self) -> SpecCMsgAMUnlockH264Response {
        SpecCMsgAMUnlockH264Response {
            eresult: self.eresult,
            encryption_key: opt_bytes_view(self.encryption_key),
        }
    }
}

impl Default for CMsgAMUnlockH264Response {
    fn default() -> (r: Self)
        ensures
            r@ == CMsgAMUnlockH264Response::spec_default(),
    {
        CMsgAMUnlockH264Response {
            eresult: None,
            encryption_key: None,
        }
    }
}

impl CMsgAMUnlockH264Response {
    /// Field 1, or its schema default when absent.
    pub fn eresult_or_default(&self) -> (r: i32)
        ensures
            r == match self.eresult {
                Some(x) => x,
                None => 2i32,
            },
    {
        self.eresult.unwrap_or(2i32)
    }

    pub open spec fn spec_default() -> SpecCMsgAMUnlockH264Response {
        SpecCMsgAMUnlockH264Response {
            eresult: None,
            encryption_key: None,
        }
    }

    /// The records a `CMsgAMUnlockH264Response` is written as, in field order.
    pub open spec fn spec_fields(v: SpecCMsgAMUnlockH264Response) -> Seq<SpecField> {
        Seq::<SpecField>::empty()
            + opt_i32(1, v.eresult)
            + opt_bytes(2, v.encryption_key)
    }

    #[verifier::opaque]
    pub open spec fn spec_encode(v: SpecCMsgAMUnlockH264Response) -> Seq<u8> {
        fields_bytes(Self::spec_fields(v))
    }

    /// What one record does to the message: a declared number sets or extends its
    /// field, any other number is left alone.
    pub open spec fn spec_apply(v: SpecCMsgAMUnlockH264Response, f: SpecField) -> Result<SpecCMsgAMUnlockH264Response, WireError> {
        match f.number {
            1 => match dec_i32(f.value) {
                Ok(x) => Ok(SpecCMsgAMUnlockH264Response { eresult: Some(x), ..v }),
                Err(e) => Err(e),
            },
            2 => match dec_bytes(f.value) {
                Ok(x) => Ok(SpecCMsgAMUnlockH264Response { encryption_key: Some(x), ..v }),
                Err(e) => Err(e),
            },
            _ => Ok(v),
        }
    }

    pub open spec fn apply_fn() -> spec_fn(SpecCMsgAMUnlockH264Response, SpecField) -> Result<SpecCMsgAMUnlockH264Response, WireError> {
        |v: SpecCMsgAMUnlockH264Response, f: SpecField| Self::spec_apply(v, f)
    }

    /// The message `bytes` makes of `v`: its records applied in order, or the error
    /// that stops the reading.
    pub open spec fn spec_merge(v: SpecCMsgAMUnlockH264Response, bytes: Seq<u8>) -> Result<SpecCMsgAMUnlockH264Response, WireError> {
        let (w, stop) = merge_run(v, bytes, Self::apply_fn());
        match stop {
            None => Ok(w),
            Some(e) => Err(e),
        }
    }

    #[verifier::opaque]
    pub open spec fn spec_decode(bytes: Seq<u8>) -> Result<SpecCMsgAMUnlockH264Response, WireError> {
        Self::spec_merge(Self::spec_default(), bytes)
    }

    /// This message with one record applied to it, or, when the record is refused,
    /// the message unchanged and the reason.
    fn applied(self, f: &Field) -> (r: Result<Self, (Self, WireError)>)
        ensures
            match Self::spec_apply(self@, f@) {
                Ok(v) => r matches Ok(m) && m@ == v,
                Err(e) => r matches Err((m, x)) && x == e && m@ == self@,
            },
    {
        match f.number {
            1 => match read_i32(&f.value) {
                Ok(x) => Ok(Self { eresult: Some(x), ..self }),
                Err(e) => Err((self, e)),
            },
            2 => match read_bytes(&f.value) {
                Ok(x) => Ok(Self { encryption_key: Some(x), ..self }),
                Err(e) => Err((self, e)),
            },
            _ => Ok(self),
        }
    }

    /// Reads the records `bytes` holds into this message, in order. When a record does
    /// not parse or is refused, the reading stops there: the message keeps what the
    /// records before it gave, and the error is returned.
    pub fn merge(&mut self, bytes: &[u8]) -> (r: Result<(), WireError>)
        ensures
            final(self)@ == merge_run(old(self)@, bytes@, Self::apply_fn()).0,
            r == match merge_run(old(self)@, bytes@, Self::apply_fn()).1 {
                None => Ok::<(), WireError>(()),
                Some(e) => Err::<(), WireError>(e),
            },
    {
        let ghost total = merge_run(self@, bytes@, Self::apply_fn());
        let mut cur = Self::default();
        std::mem::swap(&mut cur, self);
        let mut pos: usize = 0;
        assert(bytes@.skip(0) =~= bytes@);
        while pos < bytes.len()
            invariant
                pos <= bytes@.len(),
                total == merge_run(old(self)@, bytes@, Self::apply_fn()),
                merge_run(cur@, bytes@.skip(pos as int), Self::apply_fn()) == total,
            decreases bytes@.len() - pos,
        {
            let ghost s = bytes@.skip(pos as int);
            proof {
                lemma_merge_run_step(cur@, s, Self::apply_fn());
                lemma_parse_field_len(s);
            }
            match read_field(bytes, pos) {
                Ok((f, end)) => {
                    assert(bytes@.skip(end as int) =~= s.skip((end - pos) as int));
                    match cur.applied(&f) {
                        Ok(m) => {
                            cur = m;
                        },
                        Err((m, e)) => {
                            *self = m;
                            return Err(e);
                        },
                    }
                    pos = end;
                },
                Err(e) => {
                    *self = cur;
                    return Err(e);
                },
            }
        }
        assert(bytes@.skip(pos as int) =~= Seq::<u8>::empty());
        proof {
            lemma_merge_run_empty(cur@, Self::apply_fn());
        }
        *self = cur;
        Ok(())
    }

    /// Decodes a message from its encoding.
    pub fn decode(bytes: &[u8]) -> (r: Result<Self, WireError>)
        ensures
            match Self::spec_decode(bytes@) {
                Ok(v) => r matches Ok(m) && m@ == v,
                Err(e) => r matches Err(x) && x == e,
            },
    {
        proof {
            reveal(CMsgAMUnlockH264Response::spec_decode);
        }
        let mut m = Self::default();
        match m.merge(bytes) {
            Ok(()) => Ok(m),
            Err(e) => Err(e),
        }
    }

    /// The encoding of this message.
    pub fn encode_to_vec(&self) -> (r: Vec<u8>)
        ensures
            r@ == Self::spec_encode(self@),
    {
        let ghost v = self@;
        let mut out: Vec<u8> = Vec::new();
        let ghost p0 = Seq::<SpecField>::empty();
        put_opt_i32(&mut out, 1, self.eresult);
        let ghost p1 = p0 + opt_i32(1, v.eresult);
        proof {
            lemma_fields_bytes_concat(p0, opt_i32(1, v.eresult));
        }
        put_opt_bytes(&mut out, 2, &self.encryption_key);
        let ghost p2 = p1 + opt_bytes(2, v.encryption_key);
        proof {
            lemma_fields_bytes_concat(p1, opt_bytes(2, v.encryption_key));
        }
        proof {
            reveal(CMsgAMUnlockH264Response::spec_encode);
        }
        assert(p2 == Self::spec_fields(v));
        out
    }

    /// Appends the encoding of this message to `out`.
    pub fn encode_raw(&self, out: &mut Vec<u8>)
        ensures
            final(out)@ == old(out)@ + Self::spec_encode(self@),
    {
        let mut b = self.encode_to_vec();
        out.append(&mut b);
    }

    /// The first `k` fields of `v`, the others as a fresh message has them.
    #[verifier::opaque]
    pub open spec fn spec_prefix(v: SpecCMsgAMUnlockH264Response, k: int) -> SpecCMsgAMUnlockH264Response {
        SpecCMsgAMUnlockH264Response {
            eresult: if 1 <= k { v.eresult } else { None },
            encryption_key: if 2 <= k { v.encryption_key } else { None },
        }
    }

    /// Reading field 1 back, after the fields before it.
    proof fn lemma_field_eresult(v: SpecCMsgAMUnlockH264Response)
        ensures
            fold_fields(Self::spec_prefix(v, 0), opt_i32(1, v.eresult), Self::apply_fn())
                == Ok::<SpecCMsgAMUnlockH264Response, WireError>(Self::spec_prefix(v, 1)),
    {
        reveal(CMsgAMUnlockH264Response::spec_prefix);
        reveal(opt_i32);
        let apply = Self::apply_fn();
        let s = Self::spec_prefix(v, 0);
        lemma_fold_opt(s, 1, match v.eresult { Some(x) => Some(enc_i32(x)), None => None }, apply);
        if let Some(x) = v.eresult {
            lemma_i32_roundtrip(x);
        }
        assert(SpecCMsgAMUnlockH264Response { eresult: v.eresult, ..s } == Self::spec_prefix(v, 1));
    }

    /// Reading field 2 back, after the fields before it.
    proof fn lemma_field_encryption_key(v: SpecCMsgAMUnlockH264Response)
        ensures
            fold_fields(Self::spec_prefix(v, 1), opt_bytes(2, v.encryption_key), Self::apply_fn())
                == Ok::<SpecCMsgAMUnlockH264Response, WireError>(Self::spec_prefix(v, 2)),
    {
        reveal(CMsgAMUnlockH264Response::spec_prefix);
        reveal(opt_bytes);
        let apply = Self::apply_fn();
        let s = Self::spec_prefix(v, 1);
        lemma_fold_opt(s, 2, match v.encryption_key { Some(x) => Some(enc_bytes(x)), None => None }, apply);
        assert(SpecCMsgAMUnlockH264Response { encryption_key: v.encryption_key, ..s } == Self::spec_prefix(v, 2));
    }

    /// Whether this message declares field number `n`.
    pub open spec fn declares(n: u32) -> bool {
        n == 1 || n == 2
    }

    /// A record with a number this message does not declare is passed over: well-formed
    /// bytes decode to the same message with such a record after them as without it.
    pub proof fn lemma_unknown_field(bytes: Seq<u8>, f: SpecField)
        requires
            parse_fields(bytes) is Ok,
            field_wf(f),
            !Self::declares(f.number),
        ensures
            Self::spec_decode(bytes + field_bytes(f)) == Self::spec_decode(bytes),
    {
        reveal(CMsgAMUnlockH264Response::spec_decode);
        lemma_parse_fields_append(bytes, f);
        let fs = parse_fields(bytes).unwrap();
        let apply = Self::apply_fn();
        lemma_fold_concat(Self::spec_default(), fs, seq![f], apply);
        assert(fs.push(f) =~= fs + seq![f]);
        if let Ok(w) = fold_fields(Self::spec_default(), fs, apply) {
            lemma_fold_single(w, f, apply);
        }
        lemma_merge_run_fold(Self::spec_default(), bytes, apply);
        lemma_merge_run_fold(Self::spec_default(), bytes + field_bytes(f), apply);
    }

    /// Decoding the encoding of a message gives the message back.
    pub proof fn lemma_decode_encode(v: SpecCMsgAMUnlockH264Response)
        requires
            Self::spec_encode(v).len() <= u64::MAX,
        ensures
            Self::spec_decode(Self::spec_encode(v)) == Ok::<SpecCMsgAMUnlockH264Response, WireError>(v),
    {
        let apply = Self::apply_fn();
        let d = Self::spec_default();
        let p0 = Seq::<SpecField>::empty();
        let l1 = opt_i32(1, v.eresult);
        let p1 = p0 + l1;
        let l2 = opt_bytes(2, v.encryption_key);
        let p2 = p1 + l2;
        assert(parse_fields(Self::spec_encode(v)) == Ok::<Seq<SpecField>, WireError>(p2)) by {
            reveal(CMsgAMUnlockH264Response::spec_encode);
            assert(numbers_ok(p0) && fields_wf(p0)) by {
                reveal(numbers_ok);
                reveal(fields_wf);
            }
            lemma_opt_i32_numbered(1, v.eresult);
            lemma_fields_wf_concat(p0, l1);
            lemma_opt_bytes_numbered(2, v.encryption_key);
            lemma_fields_wf_concat(p1, l2);
            assert(p2 == Self::spec_fields(v));
            lemma_fields_wf_from_len(p2);
            lemma_fields_roundtrip(p2);
        }
        assert(Self::spec_prefix(v, 0) == d) by {
            reveal(CMsgAMUnlockH264Response::spec_prefix);
        }
        lemma_fold_empty(d, apply);
        lemma_fold_concat(d, p0, l1, apply);
        Self::lemma_field_eresult(v);
        lemma_fold_concat(d, p1, l2, apply);
        Self::lemma_field_encryption_key(v);
        assert(Self::spec_prefix(v, 2) == v) by {
            reveal(CMsgAMUnlockH264Response::spec_prefix);
        }
        lemma_merge_run_fold(d, Self::spec_encode(v), apply);
        assert(Self::spec_decode(Self::spec_encode(v)) == Ok::<SpecCMsgAMUnlockH264Response, WireError>(v)) by {
            reveal(CMsgAMUnlockH264Response::spec_decode);
        }
    }
}

/// `CMsgClientPlayingSessionState`, as Valve's schema declares it.
#[derive(Debug, Clone, PartialEq)]
pub struct CMsgClientPlayingSessionState {
    /// Field 2.
    pub playing_blocked: Option<bool>,
    /// Field 3.
    pub playing_app: Option<u32>,
}

/// What a `CMsgClientPlayingSessionState` holds, as mathematical values.
#[verifier::ext_equal]
pub struct SpecCMsgClientPlayingSessionState {
    pub playing_blocked: Option<bool>,
    pub playing_app: Option<u32>,
}

impl View for CMsgClientPlayingSessionState {
    type V = SpecCMsgClientPlayingSessionState;

    open spec fn view(&self) -> SpecCMsgClientPlayingSessionState {
        SpecCMsgClientPlayingSessionState {
            playing_blocked: self.playing_blocked,
            playing_app: self.playing_app,
        }
    }
}

impl Default for CMsgClientPlayingSessionState {
    fn default() -> (r: Self)
        ensures
            r@ == CMsgClientPlayingSessionState::spec_default(),
    {
        CMsgClientPlayingSessionState {
            playing_blocked: None,
            playing_app: None,
        }
    }
}

impl CMsgClientPlayingSessionState {
    pub open spec fn spec_default() -> SpecCMsgClientPlayingSessionState {
        SpecCMsgClientPlayingSessionState {
            playing_blocked: None,
            playing_app: None,
        }
    }

    /// The records a `CMsgClientPlayingSessionState` is written as, in field order.
    pub open spec fn spec_fields(v: SpecCMsgClientPlayingSessionState) -> Seq<SpecField> {
        Seq::<SpecField>::empty()
            + opt_bool(2, v.playing_blocked)
            + opt_u32(3, v.playing_app)
    }

    #[verifier::opaque]
    pub open spec fn spec_encode(v: SpecCMsgClientPlayingSessionState) -> Seq<u8> {
        fields_bytes(Self::spec_fields(v))
    }

    /// What one record does to the message: a declared number sets or extends its
    /// field, any other number is left alone.
    pub open spec fn spec_apply(v: SpecCMsgClientPlayingSessionState, f: SpecField) -> Result<SpecCMsgClientPlayingSessionState, WireError> {
        match f.number {
            2 => match dec_bool(f.value) {
                Ok(x) => Ok(SpecCMsgClientPlayingSessionState { playing_blocked: Some(x), ..v }),
                Err(e) => Err(e),
            },
            3 => match dec_u32(f.value) {
                Ok(x) => Ok(SpecCMsgClientPlayingSessionState { playing_app: Some(x), ..v }),
                Err(e) => Err(e),
            },
            _ => Ok(v),
        }
    }

    pub open spec fn apply_fn() -> spec_fn(SpecCMsgClientPlayingSessionState, SpecField) -> Result<SpecCMsgClientPlayingSessionState, WireError> {
        |v: SpecCMsgClientPlayingSessionState, f: SpecField| Self::spec_apply(v, f)
    }

    /// The message `bytes` makes of `v`: its records applied in order, or the error
    /// that stops the reading.
    pub open spec fn spec_merge(v: SpecCMsgClientPlayingSessionState, bytes: Seq<u8>) -> Result<SpecCMsgClientPlayingSessionState, WireError> {
        let (w, stop) = merge_run(v, bytes, Self::apply_fn());
        match stop {
            None => Ok(w),
            Some(e) => Err(e),
        }
    }

    #[verifier::opaque]
    pub open spec fn spec_decode(bytes: Seq<u8>) -> Result<SpecCMsgClientPlayingSessionState, WireError> {
        Self::spec_merge(Self::spec_default(), bytes)
    }

    /// This message with one record applied to it, or, when the record is refused,
    /// the message unchanged and the reason.
    fn applied(self, f: &Field) -> (r: Result<Self, (Self, WireError)>)
        ensures
            match Self::spec_apply(self@, f@) {
                Ok(v) => r matches Ok(m) && m@ == v,
                Err(e) => r matches Err((m, x)) && x == e && m@ == self@,
            },
    {
        match f.number {
            2 => match read_bool(&f.value) {
                Ok(x) => Ok(Self { playing_blocked: Some(x), ..self }),
                Err(e) => Err((self, e)),
            },
            3 => match read_u32(&f.value) {
                Ok(x) => Ok(Self { playing_app: Some(x), ..self }),
                Err(e) => Err((self, e)),
            },
            _ => Ok(self),
        }
    }

    /// Reads the records `bytes` holds into this message, in order. When a record does
    /// not parse or is refused, the reading stops there: the message keeps what the
    /// records before it gave, and the error is returned.
    pub fn merge(&mut self, bytes: &[u8]) -> (r: Result<(), WireError>)
        ensures
            final(self)@ == merge_run(old(self)@, bytes@, Self::apply_fn()).0,
            r == match merge_run(old(self)@, bytes@, Self::apply_fn()).1 {
                None => Ok::<(), WireError>(()),
                Some(e) => Err::<(), WireError>(e),
            },
    {
        let ghost total = merge_run(self@, bytes@, Self::apply_fn());
        let mut cur = Self::default();
        std::mem::swap(&mut cur, self);
        let mut pos: usize = 0;
        assert(bytes@.skip(0) =~= bytes@);
        while pos < bytes.len()
            invariant
                pos <= bytes@.len(),
                total == merge_run(old(self)@, bytes@, Self::apply_fn()),
                merge_run(cur@, bytes@.skip(pos as int), Self::apply_fn()) == total,
            decreases bytes@.len() - pos,
        {
            let ghost s = bytes@.skip(pos as int);
            proof {
                lemma_merge_run_step(cur@, s, Self::apply_fn());
                lemma_parse_field_len(s);
            }
            match read_field(bytes, pos) {
                Ok((f, end)) => {
                    assert(bytes@.skip(end as int) =~= s.skip((end - pos) as int));
                    match cur.applied(&f) {
                        Ok(m) => {
                            cur = m;
                        },
                        Err((m, e)) => {
                            *self = m;
                            return Err(e);
                        },
                    }
                    pos = end;
                },
                Err(e) => {
                    *self = cur;
                    return Err(e);
                },
            }
        }
        assert(bytes@.skip(pos as int) =~= Seq::<u8>::empty());
        proof {
            lemma_merge_run_empty(cur@, Self::apply_fn());
        }
        *self = cur;
        Ok(())
    }

    /// Decodes a message from its encoding.
    pub fn decode(bytes: &[u8]) -> (r: Result<Self, WireError>)
        ensures
            match Self::spec_decode(bytes@) {
                Ok(v) => r matches Ok(m) && m@ == v,
                Err(e) => r matches Err(x) && x == e,
            },
    {
        proof {
            reveal(CMsgClientPlayingSessionState::spec_decode);
        }
        let mut m = Self::default();
        match m.merge(bytes) {
            Ok(()) => Ok(m),
            Err(e) => Err(e),
        }
    }

    /// The encoding of this message.
    pub fn encode_to_vec(&self) -> (r: Vec<u8>)
        ensures
            r@ == Self::spec_encode(self@),
    {
        let ghost v = self@;
        let mut out: Vec<u8> = Vec::new();
        let ghost p0 = Seq::<SpecField>::empty();
        put_opt_bool(&mut out, 2, self.playing_blocked);
        let ghost p1 = p0 + opt_bool(2, v.playing_blocked);
        proof {
            lemma_fields_bytes_concat(p0, opt_bool(2, v.playing_blocked));
        }
        put_opt_u32(&mut out, 3, self.playing_app);
        let ghost p2 = p1 + opt_u32(3, v.playing_app);
        proof {
            lemma_fields_bytes_concat(p1, opt_u32(3, v.playing_app));
        }
        proof {
            reveal(CMsgClientPlayingSessionState::spec_encode);
        }
        assert(p2 == Self::spec_fields(v));
        out
    }

    /// Appends the encoding of this message to `out`.
    pub fn encode_raw(&self, out: &mut Vec<u8>)
        ensures
            final(out)@ == old(out)@ + Self::spec_encode(self@),
    {
        let mut b = self.encode_to_vec();
        out.append(&mut b);
    }

    /// The first `k` fields of `v`, the others as a fresh message has them.
    #[verifier::opaque]
    pub open spec fn spec_prefix(v: SpecCMsgClientPlayingSessionState, k: int) -> SpecCMsgClientPlayingSessionState {
        SpecCMsgClientPlayingSessionState {
            playing_blocked: if 1 <= k { v.playing_blocked } else { None },
            playing_app: if 2 <= k { v.playing_app } else { None },
        }
    }

    /// Reading field 2 back, after the fields before it.
    proof fn lemma_field_playing_blocked(v: SpecCMsgClientPlayingSessionState)
        ensures
            fold_fields(Self::spec_prefix(v, 0), opt_bool(2, v.playing_blocked), Self::apply_fn())
                == Ok::<SpecCMsgClientPlayingSessionState, WireError>(Self::spec_prefix(v, 1)),
    {
        reveal(CMsgClientPlayingSessionState::spec_prefix);
        reveal(opt_bool);
        let apply = Self::apply_fn();
        let s = Self::spec_prefix(v, 0);
        lemma_fold_opt(s, 2, match v.playing_blocked { Some(x) => Some(enc_bool(x)), None => None }, apply);
        assert(SpecCMsgClientPlayingSessionState { playing_blocked: v.playing_blocked, ..s } == Self::spec_prefix(v, 1));
    }

    /// Reading field 3 back, after the fields before it.
    proof fn lemma_field_playing_app(v: SpecCMsgClientPlayingSessionState)
        ensures
            fold_fields(Self::spec_prefix(v, 1), opt_u32(3, v.playing_app), Self::apply_fn())
                == Ok::<SpecCMsgClientPlayingSessionState, WireError>(Self::spec_prefix(v, 2)),
    {
        reveal(CMsgClientPlayingSessionState::spec_prefix);
        reveal(opt_u32);
        let apply = Self::apply_fn();
        let s = Self::spec_prefix(v, 1);
        lemma_fold_opt(s, 3, match v.playing_app { Some(x) => Some(enc_u32(x)), None => None }, apply);
        if let Some(x) = v.playing_app {
            lemma_u32_roundtrip(x);
        }
        assert(SpecCMsgClientPlayingSessionState { playing_app: v.playing_app, ..s } == Self::spec_prefix(v, 2));
    }

    /// Whether this message declares field number `n`.
    pub open spec fn declares(n: u32) -> bool {
        n == 2 || n == 3
    }

    /// A record with a number this message does not declare is passed over: well-formed
    /// bytes decode to the same message with such a record after them as without it.
    pub proof fn lemma_unknown_field(bytes: Seq<u8>, f: SpecField)
        requires
            parse_fields(bytes) is Ok,
            field_wf(f),
            !Self::declares(f.number),
        ensures
            Self::spec_decode(bytes + field_bytes(f)) == Self::spec_decode(bytes),
    {
        reveal(CMsgClientPlayingSessionState::spec_decode);
        lemma_parse_fields_append(bytes, f);
        let fs = parse_fields(bytes).unwrap();
        let apply = Self::apply_fn();
        lemma_fold_concat(Self::spec_default(), fs, seq![f], apply);
        assert(fs.push(f) =~= fs + seq![f]);
        if let Ok(w) = fold_fields(Self::spec_default(), fs, apply) {
            lemma_fold_single(w, f, apply);
        }
        lemma_merge_run_fold(Self::spec_default(), bytes, apply);
        lemma_merge_run_fold(Self::spec_default(), bytes + field_bytes(f), apply);
    }

    /// Decoding the encoding of a message gives the message back.
    pub proof fn lemma_decode_encode(v: SpecCMsgClientPlayingSessionState)
        requires
            Self::spec_encode(v).len() <= u64::MAX,
        ensures
            Self::spec_decode(Self::spec_encode(v)) == Ok::<SpecCMsgClientPlayingSessionState, WireError>(v),
    {
        let apply = Self::apply_fn();
        let d = Self::spec_default();
        let p0 = Seq::<SpecField>::empty();
        let l1 = opt_bool(2, v.playing_blocked);
        let p1 = p0 + l1;
        let l2 = opt_u32(3, v.playing_app);
        let p2 = p1 + l2;
        assert(parse_fields(Self::spec_encode(v)) == Ok::<Seq<SpecField>, WireError>(p2)) by {
            reveal(CMsgClientPlayingSessionState::spec_encode);
            assert(numbers_ok(p0) && fields_wf(p0)) by {
                reveal(numbers_ok);
                reveal(fields_wf);
            }
            lemma_opt_bool_numbered(2, v.playing_blocked);
            lemma_fields_wf_concat(p0, l1);
            lemma_opt_u32_numbered(3, v.playing_app);
            lemma_fields_wf_concat(p1, l2);
            assert(p2 == Self::spec_fields(v));
            lemma_fields_wf_from_len(p2);
            lemma_fields_roundtrip(p2);
        }
        assert(Self::spec_prefix(v, 0) == d) by {
            reveal(CMsgClientPlayingSessionState::spec_prefix);
        }
        lemma_fold_empty(d, apply);
        lemma_fold_concat(d, p0, l1, apply);
        Self::lemma_field_playing_blocked(v);
        lemma_fold_concat(d, p1, l2, apply);
        Self::lemma_field_playing_app(v);
        assert(Self::spec_prefix(v, 2) == v) by {
            reveal(CMsgClientPlayingSessionState::spec_prefix);
        }
        lemma_merge_run_fold(d, Self::spec_encode(v), apply);
        assert(Self::spec_decode(Self::spec_encode(v)) == Ok::<SpecCMsgClientPlayingSessionState, WireError>(v)) by {
            reveal(CMsgClientPlayingSessionState::spec_decode);
        }
    }
}

/// `CMsgClientKickPlayingSession`, as Valve's schema declares it.
#[derive(Debug, Clone, PartialEq)]
pub struct CMsgClientKickPlayingSession {
    /// Field 1.
    pub only_stop_game: Option<bool>,
}

/// What a `CMsgClientKickPlayingSession` holds, as mathematical values.
#[verifier::ext_equal]
pub struct SpecCMsgClientKickPlayingSession {
    pub only_stop_game: Option<bool>,
}

impl View for CMsgClientKickPlayingSession {
    type V = SpecCMsgClientKickPlayingSession;

    open spec fn view(&self) -> SpecCMsgClientKickPlayingSession {
        SpecCMsgClientKickPlayingSession {
            only_stop_game: self.only_stop_game,
        }
    }
}

impl Default for CMsgClientKickPlayingSession {
    fn default() -> (r: Self)
        ensures
            r@ == CMsgClientKickPlayingSession::spec_default(),
    {
        CMsgClientKickPlayingSession {
            only_stop_game: None,
        }
    }
}

impl CMsgClientKickPlayingSession {
    pub open spec fn spec_default() -> SpecCMsgClientKickPlayingSession {
        SpecCMsgClientKickPlayingSession {
            only_stop_game: None,
        }
    }

    /// The records a `CMsgClientKickPlayingSession` is written as, in field order.
    pub open spec fn spec_fields(v: SpecCMsgClientKickPlayingSession) -> Seq<SpecField> {
        Seq::<SpecField>::empty()
            + opt_bool(1, v.only_stop_game)
    }

    #[verifier::opaque]
    pub open spec fn spec_encode(v: SpecCMsgClientKickPlayingSession) -> Seq<u8> {
        fields_bytes(Self::spec_fields(v))
    }

    /// What one record does to the message: a declared number sets or extends its
    /// field, any other number is left alone.
    pub open spec fn spec_apply(v: SpecCMsgClientKickPlayingSession, f: SpecField) -> Result<SpecCMsgClientKickPlayingSession, WireError> {
        match f.number {
            1 => match dec_bool(f.value) {
                Ok(x) => Ok(SpecCMsgClientKickPlayingSession { only_stop_game: Some(x), ..v }),
                Err(e) => Err(e),
            },
            _ => Ok(v),
        }
    }

    pub open spec fn apply_fn() -> spec_fn(SpecCMsgClientKickPlayingSession, SpecField) -> Result<SpecCMsgClientKickPlayingSession, WireError> {
        |v: SpecCMsgClientKickPlayingSession, f: SpecField| Self::spec_apply(v, f)
    }

    /// The message `bytes` makes of `v`: its records applied in order, or the error
    /// that stops the reading.
    pub open spec fn spec_merge(v: SpecCMsgClientKickPlayingSession, bytes: Seq<u8>) -> Result<SpecCMsgClientKickPlayingSession, WireError> {
        let (w, stop) = merge_run(v, bytes, Self::apply_fn());
        match stop {
            None => Ok(w),
            Some(e) => Err(e),
        }
    }

    #[verifier::opaque]
    pub open spec fn spec_decode(bytes: Seq<u8>) -> Result<SpecCMsgClientKickPlayingSession, WireError> {
        Self::spec_merge(Self::spec_default(), bytes)
    }

    /// This message with one record applied to it, or, when the record is refused,
    /// the message unchanged and the reason.
    fn applied(self, f: &Field) -> (r: Result<Self, (Self, WireError)>)
        ensures
            match Self::spec_apply(self@, f@) {
                Ok(v) => r matches Ok(m) && m@ == v,
                Err(e) => r matches Err((m, x)) && x == e && m@ == self@,
            },
    {
        match f.number {
            1 => match read_bool(&f.value) {
                Ok(x) => Ok(Self { only_stop_game: Some(x), ..self }),
                Err(e) => Err((self, e)),
            },
            _ => Ok(self),
        }
    }

    /// Reads the records `bytes` holds into this message, in order. When a record does
    /// not parse or is refused, the reading stops there: the message keeps what the
    /// records before it gave, and the error is returned.
    pub fn merge(&mut self, bytes: &[u8]) -> (r: Result<(), WireError>)
        ensures
            final(self)@ == merge_run(old(self)@, bytes@, Self::apply_fn()).0,
            r == match merge_run(old(self)@, bytes@, Self::apply_fn()).1 {
                None => Ok::<(), WireError>(()),
                Some(e) => Err::<(), WireError>(e),
            },
    {
        let ghost total = merge_run(self@, bytes@, Self::apply_fn());
        let mut cur = Self::default();
        std::mem::swap(&mut cur, self);
        let mut pos: usize = 0;
        assert(bytes@.skip(0) =~= bytes@);
        while pos < bytes.len()
            invariant
                pos <= bytes@.len(),
                total == merge_run(old(self)@, bytes@, Self::apply_fn()),
                merge_run(cur@, bytes@.skip(pos as int), Self::apply_fn()) == total,
            decreases bytes@.len() - pos,
        {
            let ghost s = bytes@.skip(pos as int);
            proof {
                lemma_merge_run_step(cur@, s, Self::apply_fn());
                lemma_parse_field_len(s);
            }
            match read_field(bytes, pos) {
                Ok((f, end)) => {
                    assert(bytes@.skip(end as int) =~= s.skip((end - pos) as int));
                    match cur.applied(&f) {
                        Ok(m) => {
                            cur = m;
                        },
                        Err((m, e)) => {
                            *self = m;
                            return Err(e);
                        },
                    }
                    pos = end;
                },
                Err(e) => {
                    *self = cur;
                    return Err(e);
                },
            }
        }
        assert(bytes@.skip(pos as int) =~= Seq::<u8>::empty());
        proof {
            lemma_merge_run_empty(cur@, Self::apply_fn());
        }
        *self = cur;
        Ok(())
    }

    /// Decodes a message from its encoding.
    pub fn decode(bytes: &[u8]) -> (r: Result<Self, WireError>)
        ensures
            match Self::spec_decode(bytes@) {
                Ok(v) => r matches Ok(m) && m@ == v,
                Err(e) => r matches Err(x) && x == e,
            },
    {
        proof {
            reveal(CMsgClientKickPlayingSession::spec_decode);
        }
        let mut m = Self::default();
        match m.merge(bytes) {
            Ok(()) => Ok(m),
            Err(e) => Err(e),
        }
    }

    /// The encoding of this message.
    pub fn encode_to_vec(&self) -> (r: Vec<u8>)
        ensures
            r@ == Self::spec_encode(self@),
    {
        let ghost v = self@;
        let mut out: Vec<u8> = Vec::new();
        let ghost p0 = Seq::<SpecField>::empty();
        put_opt_bool(&mut out, 1, self.only_stop_game);
        let ghost p1 = p0 + opt_bool(1, v.only_stop_game);
        proof {
            lemma_fields_bytes_concat(p0, opt_bool(1, v.only_stop_game));
        }
        proof {
            reveal(CMsgClientKickPlayingSession::spec_encode);
        }
        assert(p1 == Self::spec_fields(v));
        out
    }

    /// Appends the encoding of this message to `out`.
    pub fn encode_raw(&self, out: &mut Vec<u8>)
        ensures
            final(out)@ == old(out)@ + Self::spec_encode(self@),
    {
        let mut b = self.encode_to_vec();
        out.append(&mut b);
    }

    /// The first `k` fields of `v`, the others as a fresh message has them.
    #[verifier::opaque]
    pub open spec fn spec_prefix(v: SpecCMsgClientKickPlayingSession, k: int) -> SpecCMsgClientKickPlayingSession {
        SpecCMsgClientKickPlayingSession {
            only_stop_game: if 1 <= k { v.only_stop_game } else { None },
        }
    }

    /// Reading field 1 back, after the fields before it.
    proof fn lemma_field_only_stop_game(v: SpecCMsgClientKickPlayingSession)
        ensures
            fold_fields(Self::spec_prefix(v, 0), opt_bool(1, v.only_stop_game), Self::apply_fn())
                == Ok::<SpecCMsgClientKickPlayingSession, WireError>(Self::spec_prefix(v, 1)),
    {
        reveal(CMsgClientKickPlayingSession::spec_prefix);
        reveal(opt_bool);
        let apply = Self::apply_fn();
        let s = Self::spec_prefix(v, 0);
        lemma_fold_opt(s, 1, match v.only_stop_game { Some(x) => Some(enc_bool(x)), None => None }, apply);
        assert(SpecCMsgClientKickPlayingSession { only_stop_game: v.only_stop_game, ..s } == Self::spec_prefix(v, 1));
    }

    /// Whether this message declares field number `n`.
    pub open spec fn declares(n: u32) -> bool {
        n == 1
    }

    /// A record with a number this message does not declare is passed over: well-formed
    /// bytes decode to the same message with such a record after them as without it.
    pub proof fn lemma_unknown_field(bytes: Seq<u8>, f: SpecField)
        requires
            parse_fields(bytes) is Ok,
            field_wf(f),
            !Self::declares(f.number),
        ensures
            Self::spec_decode(bytes + field_bytes(f)) == Self::spec_decode(bytes),
    {
        reveal(CMsgClientKickPlayingSession::spec_decode);
        lemma_parse_fields_append(bytes, f);
        let fs = parse_fields(bytes).unwrap();
        let apply = Self::apply_fn();
        lemma_fold_concat(Self::spec_default(), fs, seq![f], apply);
        assert(fs.push(f) =~= fs + seq![f]);
        if let Ok(w) = fold_fields(Self::spec_default(), fs, apply) {
            lemma_fold_single(w, f, apply);
        }
        lemma_merge_run_fold(Self::spec_default(), bytes, apply);
        lemma_merge_run_fold(Self::spec_default(), bytes + field_bytes(f), apply);
    }

    /// Decoding the encoding of a message gives the message back.
    pub proof fn lemma_decode_encode(v: SpecCMsgClientKickPlayingSession)
        requires
            Self::spec_encode(v).len() <= u64::MAX,
        ensures
            Self::spec_decode(Self::spec_encode(v)) == Ok::<SpecCMsgClientKickPlayingSession, WireError>(v),
    {
        let apply = Self::apply_fn();
        let d = Self::spec_default();
        let p0 = Seq::<SpecField>::empty();
        let l1 = opt_bool(1, v.only_stop_game);
        let p1 = p0 + l1;
        assert(parse_fields(Self::spec_encode(v)) == Ok::<Seq<SpecField>, WireError>(p1)) by {
            reveal(CMsgClientKickPlayingSession::spec_encode);
            assert(numbers_ok(p0) && fields_wf(p0)) by {
                reveal(numbers_ok);
                reveal(fields_wf);
            }
            lemma_opt_bool_numbered(1, v.only_stop_game);
            lemma_fields_wf_concat(p0, l1);
            assert(p1 == Self::spec_fields(v));
            lemma_fields_wf_from_len(p1);
            lemma_fields_roundtrip(p1);
        }
        assert(Self::spec_prefix(v, 0) == d) by {
            reveal(CMsgClientKickPlayingSession::spec_prefix);
        }
        lemma_fold_empty(d, apply);
        lemma_fold_concat(d, p0, l1, apply);
        Self::lemma_field_only_stop_game(v);
        assert(Self::spec_prefix(v, 1) == v) by {
            reveal(CMsgClientKickPlayingSession::spec_prefix);
        }
        lemma_merge_run_fold(d, Self::spec_encode(v), apply);
        assert(Self::spec_decode(Self::spec_encode(v)) == Ok::<SpecCMsgClientKickPlayingSession, WireError>(v)) by {
            reveal(CMsgClientKickPlayingSession::spec_decode);
        }
    }
}

/// `CMsgClientVoiceCallPreAuthorize`, as Valve's schema declares it.
#[derive(Debug, Clone, PartialEq)]
pub struct CMsgClientVoiceCallPreAuthorize {
    /// Field 1.
    pub caller_steamid: Option<u64>,
    /// Field 2.
    pub receiver_steamid: Option<u64>,
    /// Field 3.
    pub caller_id: Option<i32>,
    /// Field 4.
    pub hangup: Option<bool>,
}

/// What a `CMsgClientVoiceCallPreAuthorize` holds, as mathematical values.
#[verifier::ext_equal]
pub struct SpecCMsgClientVoiceCallPreAuthorize {
    pub caller_steamid: Option<u64>,
    pub receiver_steamid: Option<u64>,
    pub caller_id: Option<i32>,
    pub hangup: Option<bool>,
}

impl View for CMsgClientVoiceCallPreAuthorize {
    type V = SpecCMsgClientVoiceCallPreAuthorize;

    open spec fn view(&self) -> SpecCMsgClientVoiceCallPreAuthorize {
        SpecCMsgClientVoiceCallPreAuthorize {
            caller_steamid: self.caller_steamid,
            receiver_steamid: self.receiver_steamid,
            caller_id: self.caller_id,
            hangup: self.hangup,
        }
    }
}

impl Default for CMsgClientVoiceCallPreAuthorize {
    fn default() -> (r: Self)
        ensures
            r@ == CMsgClientVoiceCallPreAuthorize::spec_default(),
    {
        CMsgClientVoiceCallPreAuthorize {
            caller_steamid: None,
            receiver_steamid: None,
            caller_id: None,
            hangup: None,
        }
    }
}

impl CMsgClientVoiceCallPreAuthorize {
    pub open spec fn spec_default() -> SpecCMsgClientVoiceCallPreAuthorize {
        SpecCMsgClientVoiceCallPreAuthorize {
            caller_steamid: None,
            receiver_steamid: None,
            caller_id: None,
            hangup: None,
        }
    }

    /// The records a `CMsgClientVoiceCallPreAuthorize` is written as, in field order.
    pub open spec fn spec_fields(v: SpecCMsgClientVoiceCallPreAuthorize) -> Seq<SpecField> {
        Seq::<SpecField>::empty()
            + opt_fixed64(1, v.caller_steamid)
            + opt_fixed64(2, v.receiver_steamid)
            + opt_i32(3, v.caller_id)
            + opt_bool(4, v.hangup)
    }

    #[verifier::opaque]
    pub open spec fn spec_encode(v: SpecCMsgClientVoiceCallPreAuthorize) -> Seq<u8> {
        fields_bytes(Self::spec_fields(v))
    }

    /// What one record does to the message: a declared number sets or extends its
    /// field, any other number is left alone.
    pub open spec fn spec_apply(v: SpecCMsgClientVoiceCallPreAuthorize, f: SpecField) -> Result<SpecCMsgClientVoiceCallPreAuthorize, WireError> {
        match f.number {
            1 => match dec_fixed64(f.value) {
                Ok(x) => Ok(SpecCMsgClientVoiceCallPreAuthorize { caller_steamid: Some(x), ..v }),
                Err(e) => Err(e),
            },
            2 => match dec_fixed64(f.value) {
                Ok(x) => Ok(SpecCMsgClientVoiceCallPreAuthorize { receiver_steamid: Some(x), ..v }),
                Err(e) => Err(e),
            },
            3 => match dec_i32(f.value) {
                Ok(x) => Ok(SpecCMsgClientVoiceCallPreAuthorize { caller_id: Some(x), ..v }),
                Err(e) => Err(e),
            },
            4 => match dec_bool(f.value) {
                Ok(x) => Ok(SpecCMsgClientVoiceCallPreAuthorize { hangup: Some(x), ..v }),
                Err(e) => Err(e),
            },
            _ => Ok(v),
        }
    }

    pub open spec fn apply_fn() -> spec_fn(SpecCMsgClientVoiceCallPreAuthorize, SpecField) -> Result<SpecCMsgClientVoiceCallPreAuthorize, WireError> {
        |v: SpecCMsgClientVoiceCallPreAuthorize, f: SpecField| Self::spec_apply(v, f)
    }

    /// The message `bytes` makes of `v`: its records applied in order, or the error
    /// that stops the reading.
    pub open spec fn spec_merge(v: SpecCMsgClientVoiceCallPreAuthorize, bytes: Seq<u8>) -> Result<SpecCMsgClientVoiceCallPreAuthorize, WireError> {
        let (w, stop) = merge_run(v, bytes, Self::apply_fn());
        match stop {
            None => Ok(w),
            Some(e) => Err(e),
        }
    }

    #[verifier::opaque]
    pub open spec fn spec_decode(bytes: Seq<u8>) -> Result<SpecCMsgClientVoiceCallPreAuthorize, WireError> {
        Self::spec_merge(Self::spec_default(), bytes)
    }

    /// This message with one record applied to it, or, when the record is refused,
    /// the message unchanged and the reason.
    fn applied(self, f: &Field) -> (r: Result<Self, (Self, WireError)>)
        ensures
            match Self::spec_apply(self@, f@) {
                Ok(v) => r matches Ok(m) && m@ == v,
                Err(e) => r matches Err((m, x)) && x == e && m@ == self@,
            },
    {
        match f.number {
            1 => match read_fixed64(&f.value) {
                Ok(x) => Ok(Self { caller_steamid: Some(x), ..self }),
                Err(e) => Err((self, e)),
            },
            2 => match read_fixed64(&f.value) {
                Ok(x) => Ok(Self { receiver_steamid: Some(x), ..self }),
                Err(e) => Err((self, e)),
            },
            3 => match read_i32(&f.value) {
                Ok(x) => Ok(Self { caller_id: Some(x), ..self }),
                Err(e) => Err((self, e)),
            },
            4 => match read_bool(&f.value) {
                Ok(x) => Ok(Self { hangup: Some(x), ..self }),
                Err(e) => Err((self, e)),
            },
            _ => Ok(self),
        }
    }

    /// Reads the records `bytes` holds into this message, in order. When a record does
    /// not parse or is refused, the reading stops there: the message keeps what the
    /// records before it gave, and the error is returned.
    pub fn merge(&mut self, bytes: &[u8]) -> (r: Result<(), WireError>)
        ensures
            final(self)@ == merge_run(old(self)@, bytes@, Self::apply_fn()).0,
            r == match merge_run(old(self)@, bytes@, Self::apply_fn()).1 {
                None => Ok::<(), WireError>(()),
                Some(e) => Err::<(), WireError>(e),
            },
    {
        let ghost total = merge_run(self@, bytes@, Self::apply_fn());
        let mut cur = Self::default();
        std::mem::swap(&mut cur, self);
        let mut pos: usize = 0;
        assert(bytes@.skip(0) =~= bytes@);
        while pos < bytes.len()
            invariant
                pos <= bytes@.len(),
                total == merge_run(old(self)@, bytes@, Self::apply_fn()),
                merge_run(cur@, bytes@.skip(pos as int), Self::apply_fn()) == total,
            decreases bytes@.len() - pos,
        {
            let ghost s = bytes@.skip(pos as int);
            proof {
                lemma_merge_run_step(cur@, s, Self::apply_fn());
                lemma_parse_field_len(s);
            }
            match read_field(bytes, pos) {
                Ok((f, end)) => {
                    assert(bytes@.skip(end as int) =~= s.skip((end - pos) as int));
                    match cur.applied(&f) {
                        Ok(m) => {
                            cur = m;
                        },
                        Err((m, e)) => {
                            *self = m;
                            return Err(e);
                        },
                    }
                    pos = end;
                },
                Err(e) => {
                    *self = cur;
                    return Err(e);
                },
            }
        }
        assert(bytes@.skip(pos as int) =~= Seq::<u8>::empty());
        proof {
            lemma_merge_run_empty(cur@, Self::apply_fn());
        }
        *self = cur;
        Ok(())
    }

    /// Decodes a message from its encoding.
    pub fn decode(bytes: &[u8]) -> (r: Result<Self, WireError>)
        ensures
            match Self::spec_decode(bytes@) {
                Ok(v) => r matches Ok(m) && m@ == v,
                Err(e) => r matches Err(x) && x == e,
            },
    {
        proof {
            reveal(CMsgClientVoiceCallPreAuthorize::spec_decode);
        }
        let mut m = Self::default();
        match m.merge(bytes) {
            Ok(()) => Ok(m),
            Err(e) => Err(e),
        }
    }

    /// The encoding of this message.
    pub fn encode_to_vec(&self) -> (r: Vec<u8>)
        ensures
            r@ == Self::spec_encode(self@),
    {
        let ghost v = self@;
        let mut out: Vec<u8> = Vec::new();
        let ghost p0 = Seq::<SpecField>::empty();
        put_opt_fixed64(&mut out, 1, self.caller_steamid);
        let ghost p1 = p0 + opt_fixed64(1, v.caller_steamid);
        proof {
            lemma_fields_bytes_concat(p0, opt_fixed64(1, v.caller_steamid));
        }
        put_opt_fixed64(&mut out, 2, self.receiver_steamid);
        let ghost p2 = p1 + opt_fixed64(2, v.receiver_steamid);
        proof {
            lemma_fields_bytes_concat(p1, opt_fixed64(2, v.receiver_steamid));
        }
        put_opt_i32(&mut out, 3, self.caller_id);
        let ghost p3 = p2 + opt_i32(3, v.caller_id);
        proof {
            lemma_fields_bytes_concat(p2, opt_i32(3, v.caller_id));
        }
        put_opt_bool(&mut out, 4, self.hangup);
        let ghost p4 = p3 + opt_bool(4, v.hangup);
        proof {
            lemma_fields_bytes_concat(p3, opt_bool(4, v.hangup));
        }
        proof {
            reveal(CMsgClientVoiceCallPreAuthorize::spec_encode);
        }
        assert(p4 == Self::spec_fields(v));
        out
    }

    /// Appends the encoding of this message to `out`.
    pub fn encode_raw(&self, out: &mut Vec<u8>)
        ensures
            final(out)@ == old(out)@ + Self::spec_encode(self@),
    {
        let mut b = self.encode_to_vec();
        out.append(&mut b);
    }

    /// The first `k` fields of `v`, the others as a fresh message has them.
    #[verifier::opaque]
    pub open spec fn spec_prefix(v: SpecCMsgClientVoiceCallPreAuthorize, k: int) -> SpecCMsgClientVoiceCallPreAuthorize {
        SpecCMsgClientVoiceCallPreAuthorize {
            caller_steamid: if 1 <= k { v.caller_steamid } else { None },
            receiver_steamid: if 2 <= k { v.receiver_steamid } else { None },
            caller_id: if 3 <= k { v.caller_id } else { None },
            hangup: if 4 <= k { v.hangup } else { None },
        }
    }

    /// Reading field 1 back, after the fields before it.
    proof fn lemma_field_caller_steamid(v: SpecCMsgClientVoiceCallPreAuthorize)
        ensures
            fold_fields(Self::spec_prefix(v, 0), opt_fixed64(1, v.caller_steamid), Self::apply_fn())
                == Ok::<SpecCMsgClientVoiceCallPreAuthorize, WireError>(Self::spec_prefix(v, 1)),
    {
        reveal(CMsgClientVoiceCallPreAuthorize::spec_prefix);
        reveal(opt_fixed64);
        let apply = Self::apply_fn();
        let s = Self::spec_prefix(v, 0);
        lemma_fold_opt(s, 1, match v.caller_steamid { Some(x) => Some(enc_fixed64(x)), None => None }, apply);
        if let Some(x) = v.caller_steamid {
            lemma_u64_roundtrip(x);
        }
        assert(SpecCMsgClientVoiceCallPreAuthorize { caller_steamid: v.caller_steamid, ..s } == Self::spec_prefix(v, 1));
    }

    /// Reading field 2 back, after the fields before it.
    proof fn lemma_field_receiver_steamid(v: SpecCMsgClientVoiceCallPreAuthorize)
        ensures
            fold_fields(Self::spec_prefix(v, 1), opt_fixed64(2, v.receiver_steamid), Self::apply_fn())
                == Ok::<SpecCMsgClientVoiceCallPreAuthorize, WireError>(Self::spec_prefix(v, 2)),
    {
        reveal(CMsgClientVoiceCallPreAuthorize::spec_prefix);
        reveal(opt_fixed64);
        let apply = Self::apply_fn();
        let s = Self::spec_prefix(v, 1);
        lemma_fold_opt(s, 2, match v.receiver_steamid { Some(x) => Some(enc_fixed64(x)), None => None }, apply);
        if let Some(x) = v.receiver_steamid {
            lemma_u64_roundtrip(x);
        }
        assert(SpecCMsgClientVoiceCallPreAuthorize { receiver_steamid: v.receiver_steamid, ..s } == Self::spec_prefix(v, 2));
    }

    /// Reading field 3 back, after the fields before it.
    proof fn lemma_field_caller_id(v: SpecCMsgClientVoiceCallPreAuthorize)
        ensures
            fold_fields(Self::spec_prefix(v, 2), opt_i32(3, v.caller_id), Self::apply_fn())
                == Ok::<SpecCMsgClientVoiceCallPreAuthorize, WireError>(Self::spec_prefix(v, 3)),
    {
        reveal(CMsgClientVoiceCallPreAuthorize::spec_prefix);
        reveal(opt_i32);
        let apply = Self::apply_fn();
        let s = Self::spec_prefix(v, 2);
        lemma_fold_opt(s, 3, match v.caller_id { Some(x) => Some(enc_i32(x)), None => None }, apply);
        if let Some(x) = v.caller_id {
            lemma_i32_roundtrip(x);
        }
        assert(SpecCMsgClientVoiceCallPreAuthorize { caller_id: v.caller_id, ..s } == Self::spec_prefix(v, 3));
    }

    /// Reading field 4 back, after the fields before it.
    proof fn lemma_field_hangup(v: SpecCMsgClientVoiceCallPreAuthorize)
        ensures
            fold_fields(Self::spec_prefix(v, 3), opt_bool(4, v.hangup), Self::apply_fn())
                == Ok::<SpecCMsgClientVoiceCallPreAuthorize, WireError>(Self::spec_prefix(v, 4)),
    {
        reveal(CMsgClientVoiceCallPreAuthorize::spec_prefix);
        reveal(opt_bool);
        let apply = Self::apply_fn();
        let s = Self::spec_prefix(v, 3);
        lemma_fold_opt(s, 4, match v.hangup { Some(x) => Some(enc_bool(x)), None => None }, apply);
        assert(SpecCMsgClientVoiceCallPreAuthorize { hangup: v.hangup, ..s } == Self::spec_prefix(v, 4));
    }

    /// Whether this message declares field number `n`.
    pub open spec fn declares(n: u32) -> bool {
        n == 1 || n == 2 || n == 3 || n == 4
    }

    /// A record with a number this message does not declare is passed over: well-formed
    /// bytes decode to the same message with such a record after them as without it.
    pub proof fn lemma_unknown_field(bytes: Seq<u8>, f: SpecField)
        requires
            parse_fields(bytes) is Ok,
            field_wf(f),
            !Self::declares(f.number),
        ensures
            Self::spec_decode(bytes + field_bytes(f)) == Self::spec_decode(bytes),
    {
        reveal(CMsgClientVoiceCallPreAuthorize::spec_decode);
        lemma_parse_fields_append(bytes, f);
        let fs = parse_fields(bytes).unwrap();
        let apply = Self::apply_fn();
        lemma_fold_concat(Self::spec_default(), fs, seq![f], apply);
        assert(fs.push(f) =~= fs + seq![f]);
        if let Ok(w) = fold_fields(Self::spec_default(), fs, apply) {
            lemma_fold_single(w, f, apply);
        }
        lemma_merge_run_fold(Self::spec_default(), bytes, apply);
        lemma_merge_run_fold(Self::spec_default(), bytes + field_bytes(f), apply);
    }

    /// Decoding the encoding of a message gives the message back.
    pub proof fn lemma_decode_encode(v: SpecCMsgClientVoiceCallPreAuthorize)
        requires
            Self::spec_encode(v).len() <= u64::MAX,
        ensures
            Self::spec_decode(Self::spec_encode(v)) == Ok::<SpecCMsgClientVoiceCallPreAuthorize, WireError>(v),
    {
        let apply = Self::apply_fn();
        let d = Self::spec_default();
        let p0 = Seq::<SpecField>::empty();
        let l1 = opt_fixed64(1, v.caller_steamid);
        let p1 = p0 + l1;
        let l2 = opt_fixed64(2, v.receiver_steamid);
        let p2 = p1 + l2;
        let l3 = opt_i32(3, v.caller_id);
        let p3 = p2 + l3;
        let l4 = opt_bool(4, v.hangup);
        let p4 = p3 + l4;
        assert(parse_fields(Self::spec_encode(v)) == Ok::<Seq<SpecField>, WireError>(p4)) by {
            reveal(CMsgClientVoiceCallPreAuthorize::spec_encode);
            assert(numbers_ok(p0) && fields_wf(p0)) by {
                reveal(numbers_ok);
                reveal(fields_wf);
            }
            lemma_opt_fixed64_numbered(1, v.caller_steamid);
            lemma_fields_wf_concat(p0, l1);
            lemma_opt_fixed64_numbered(2, v.receiver_steamid);
            lemma_fields_wf_concat(p1, l2);
            lemma_opt_i32_numbered(3, v.caller_id);
            lemma_fields_wf_concat(p2, l3);
            lemma_opt_bool_numbered(4, v.hangup);
            lemma_fields_wf_concat(p3, l4);
            assert(p4 == Self::spec_fields(v));
            lemma_fields_wf_from_len(p4);
            lemma_fields_roundtrip(p4);
        }
        assert(Self::spec_prefix(v, 0) == d) by {
            reveal(CMsgClientVoiceCallPreAuthorize::spec_prefix);
        }
        lemma_fold_empty(d, apply);
        lemma_fold_concat(d, p0, l1, apply);
        Self::lemma_field_caller_steamid(v);
        lemma_fold_concat(d, p1, l2, apply);
        Self::lemma_field_receiver_steamid(v);
        lemma_fold_concat(d, p2, l3, apply);
        Self::lemma_field_caller_id(v);
        lemma_fold_concat(d, p3, l4, apply);
        Self::lemma_field_hangup(v);
        assert(Self::spec_prefix(v, 4) == v) by {
            reveal(CMsgClientVoiceCallPreAuthorize::spec_prefix);
        }
        lemma_merge_run_fold(d, Self::spec_encode(v), apply);
        assert(Self::spec_decode(Self::spec_encode(v)) == Ok::<SpecCMsgClientVoiceCallPreAuthorize, WireError>(v)) by {
            reveal(CMsgClientVoiceCallPreAuthorize::spec_decode);
        }
    }
}

/// `CMsgClientVoiceCallPreAuthorizeResponse`, as Valve's schema declares it.
#[derive(Debug, Clone, PartialEq)]
pub struct CMsgClientVoiceCallPreAuthorizeResponse {
    /// Field 1.
    pub caller_steamid: Option<u64>,
    /// Field 2.
    pub receiver_steamid: Option<u64>,
    /// Field 3.
    pub eresult: Option<i32>,
    /// Field 4.
    pub caller_id: Option<i32>,
}

/// What a `CMsgClientVoiceCallPreAuthorizeResponse` holds, as mathematical values.
#[verifier::ext_equal]
pub struct SpecCMsgClientVoiceCallPreAuthorizeResponse {
    pub caller_steamid: Option<u64>,
    pub receiver_steamid: Option<u64>,
    pub eresult: Option<i32>,
    pub caller_id: Option<i32>,
}

impl View for CMsgClientVoiceCallPreAuthorizeResponse {
    type V = SpecCMsgClientVoiceCallPreAuthorizeResponse;

    open spec fn view(&self) -> SpecCMsgClientVoiceCallPreAuthorizeResponse {
        SpecCMsgClientVoiceCallPreAuthorizeResponse {
            caller_steamid: self.caller_steamid,
            receiver_steamid: self.receiver_steamid,
            eresult: self.eresult,
            caller_id: self.caller_id,
        }
    }
}

impl Default for CMsgClientVoiceCallPreAuthorizeResponse {
    fn default() -> (r: Self)
        ensures
            r@ == CMsgClientVoiceCallPreAuthorizeResponse::spec_default(),
    {
        CMsgClientVoiceCallPreAuthorizeResponse {
            caller_steamid: None,
            receiver_steamid: None,
            eresult: None,
            caller_id: None,
        }
    }
}

impl CMsgClientVoiceCallPreAuthorizeResponse {
    /// Field 3, or its schema default when absent.
    pub fn eresult_or_default(&self) -> (r: i32)
        ensures
            r == match self.eresult {
                Some(x) => x,
                None => 2i32,
            },
    {
        self.eresult.unwrap_or(2i32)
    }

    pub open spec fn spec_default() -> SpecCMsgClientVoiceCallPreAuthorizeResponse {
        SpecCMsgClientVoiceCallPreAuthorizeResponse {
            caller_steamid: None,
            receiver_steamid: None,
            eresult: None,
            caller_id: None,
        }
    }

    /// The records a `CMsgClientVoiceCallPreAuthorizeResponse` is written as, in field order.
    pub open spec fn spec_fields(v: SpecCMsgClientVoiceCallPreAuthorizeResponse) -> Seq<SpecField> {
        Seq::<SpecField>::empty()
            + opt_fixed64(1, v.caller_steamid)
            + opt_fixed64(2, v.receiver_steamid)
            + opt_i32(3, v.eresult)
            + opt_i32(4, v.caller_id)
    }

    #[verifier::opaque]
    pub open spec fn spec_encode(v: SpecCMsgClientVoiceCallPreAuthorizeResponse) -> Seq<u8> {
        fields_bytes(Self::spec_fields(v))
    }

    /// What one record does to the message: a declared number sets or extends its
    /// field, any other number is left alone.
    pub open spec fn spec_apply(v: SpecCMsgClientVoiceCallPreAuthorizeResponse, f: SpecField) -> Result<SpecCMsgClientVoiceCallPreAuthorizeResponse, WireError> {
        match f.number {
            1 => match dec_fixed64(f.value) {
                Ok(x) => Ok(SpecCMsgClientVoiceCallPreAuthorizeResponse { caller_steamid: Some(x), ..v }),
                Err(e) => Err(e),
            },
            2 => match dec_fixed64(f.value) {
                Ok(x) => Ok(SpecCMsgClientVoiceCallPreAuthorizeResponse { receiver_steamid: Some(x), ..v }),
                Err(e) => Err(e),
            },
            3 => match dec_i32(f.value) {
                Ok(x) => Ok(SpecCMsgClientVoiceCallPreAuthorizeResponse { eresult: Some(x), ..v }),
                Err(e) => Err(e),
            },
            4 => match dec_i32(f.value) {
                Ok(x) => Ok(SpecCMsgClientVoiceCallPreAuthorizeResponse { caller_id: Some(x), ..v }),
                Err(e) => Err(e),
            },
            _ => Ok(v),
        }
    }

    pub open spec fn apply_fn() -> spec_fn(SpecCMsgClientVoiceCallPreAuthorizeResponse, SpecField) -> Result<SpecCMsgClientVoiceCallPreAuthorizeResponse, WireError> {
        |v: SpecCMsgClientVoiceCallPreAuthorizeResponse, f: SpecField| Self::spec_apply(v, f)
    }

    /// The message `bytes` makes of `v`: its records applied in order, or the error
    /// that stops the reading.
    pub open spec fn spec_merge(v: SpecCMsgClientVoiceCallPreAuthorizeResponse, bytes: Seq<u8>) -> Result<SpecCMsgClientVoiceCallPreAuthorizeResponse, WireError> {
        let (w, stop) = merge_run(v, bytes, Self::apply_fn());
        match stop {
            None => Ok(w),
            Some(e) => Err(e),
        }
    }

    #[verifier::opaque]
    pub open spec fn spec_decode(bytes: Seq<u8>) -> Result<SpecCMsgClientVoiceCallPreAuthorizeResponse, WireError> {
        Self::spec_merge(Self::spec_default(), bytes)
    }

    /// This message with one record applied to it, or, when the record is refused,
    /// the message unchanged and the reason.
    fn applied(self, f: &Field) -> (r: Result<Self, (Self, WireError)>)
        ensures
            match Self::spec_apply(self@, f@) {
                Ok(v) => r matches Ok(m) && m@ == v,
                Err(e) => r matches Err((m, x)) && x == e && m@ == self@,
            },
    {
        match f.number {
            1 => match read_fixed64(&f.value) {
                Ok(x) => Ok(Self { caller_steamid: Some(x), ..self }),
                Err(e) => Err((self, e)),
            },
            2 => match read_fixed64(&f.value) {
                Ok(x) => Ok(Self { receiver_steamid: Some(x), ..self }),
                Err(e) => Err((self, e)),
            },
            3 => match read_i32(&f.value) {
                Ok(x) => Ok(Self { eresult: Some(x), ..self }),
                Err(e) => Err((self, e)),
            },
            4 => match read_i32(&f.value) {
                Ok(x) => Ok(Self { caller_id: Some(x), ..self }),
                Err(e) => Err((self, e)),
            },
            _ => Ok(self),
        }
    }

    /// Reads the records `bytes` holds into this message, in order. When a record does
    /// not parse or is refused, the reading stops there: the message keeps what the
    /// records before it gave, and the error is returned.
    pub fn merge(&mut self, bytes: &[u8]) -> (r: Result<(), WireError>)
        ensures
            final(self)@ == merge_run(old(self)@, bytes@, Self::apply_fn()).0,
            r == match merge_run(old(self)@, bytes@, Self::apply_fn()).1 {
                None => Ok::<(), WireError>(()),
                Some(e) => Err::<(), WireError>(e),
            },
    {
        let ghost total = merge_run(self@, bytes@, Self::apply_fn());
        let mut cur = Self::default();
        std::mem::swap(&mut cur, self);
        let mut pos: usize = 0;
        assert(bytes@.skip(0) =~= bytes@);
        while pos < bytes.len()
            invariant
                pos <= bytes@.len(),
                total == merge_run(old(self)@, bytes@, Self::apply_fn()),
                merge_run(cur@, bytes@.skip(pos as int), Self::apply_fn()) == total,
            decreases bytes@.len() - pos,
        {
            let ghost s = bytes@.skip(pos as int);
            proof {
                lemma_merge_run_step(cur@, s, Self::apply_fn());
                lemma_parse_field_len(s);
            }
            match read_field(bytes, pos) {
                Ok((f, end)) => {
                    assert(bytes@.skip(end as int) =~= s.skip((end - pos) as int));
                    match cur.applied(&f) {
                        Ok(m) => {
                            cur = m;
                        },
                        Err((m, e)) => {
                            *self = m;
                            return Err(e);
                        },
                    }
                    pos = end;
                },
                Err(e) => {
                    *self = cur;
                    return Err(e);
                },
            }
        }
        assert(bytes@.skip(pos as int) =~= Seq::<u8>::empty());
        proof {
            lemma_merge_run_empty(cur@, Self::apply_fn());
        }
        *self = cur;
        Ok(())
    }

    /// Decodes a message from its encoding.
    pub fn decode(bytes: &[u8]) -> (r: Result<Self, WireError>)
        ensures
            match Self::spec_decode(bytes@) {
                Ok(v) => r matches Ok(m) && m@ == v,
                Err(e) => r matches Err(x) && x == e,
            },
    {
        proof {
            reveal(CMsgClientVoiceCallPreAuthorizeResponse::spec_decode);
        }
        let mut m = Self::default();
        match m.merge(bytes) {
            Ok(()) => Ok(m),
            Err(e) => Err(e),
        }
    }

    /// The encoding of this message.
    pub fn encode_to_vec(&self) -> (r: Vec<u8>)
        ensures
            r@ == Self::spec_encode(self@),
    {
        let ghost v = self@;
        let mut out: Vec<u8> = Vec::new();
        let ghost p0 = Seq::<SpecField>::empty();
        put_opt_fixed64(&mut out, 1, self.caller_steamid);
        let ghost p1 = p0 + opt_fixed64(1, v.caller_steamid);
        proof {
            lemma_fields_bytes_concat(p0, opt_fixed64(1, v.caller_steamid));
        }
        put_opt_fixed64(&mut out, 2, self.receiver_steamid);
        let ghost p2 = p1 + opt_fixed64(2, v.receiver_steamid);
        proof {
            lemma_fields_bytes_concat(p1, opt_fixed64(2, v.receiver_steamid));
        }
        put_opt_i32(&mut out, 3, self.eresult);
        let ghost p3 = p2 + opt_i32(3, v.eresult);
        proof {
            lemma_fields_bytes_concat(p2, opt_i32(3, v.eresult));
        }
        put_opt_i32(&mut out, 4, self.caller_id);
        let ghost p4 = p3 + opt_i32(4, v.caller_id);
        proof {
            lemma_fields_bytes_concat(p3, opt_i32(4, v.caller_id));
        }
        proof {
            reveal(CMsgClientVoiceCallPreAuthorizeResponse::spec_encode);
        }
        assert(p4 == Self::spec_fields(v));
        out
    }

    /// Appends the encoding of this message to `out`.
    pub fn encode_raw(&self, out: &mut Vec<u8>)
        ensures
            final(out)@ == old(out)@ + Self::spec_encode(self@),
    {
        let mut b = self.encode_to_vec();
        out.append(&mut b);
    }

    /// The first `k` fields of `v`, the others as a fresh message has them.
    #[verifier::opaque]
    pub open spec fn spec_prefix(v: SpecCMsgClientVoiceCallPreAuthorizeResponse, k: int) -> SpecCMsgClientVoiceCallPreAuthorizeResponse {
        SpecCMsgClientVoiceCallPreAuthorizeResponse {
            caller_steamid: if 1 <= k { v.caller_steamid } else { None },
            receiver_steamid: if 2 <= k { v.receiver_steamid } else { None },
            eresult: if 3 <= k { v.eresult } else { None },
            caller_id: if 4 <= k { v.caller_id } else { None },
        }
    }

    /// Reading field 1 back, after the fields before it.
    proof fn lemma_field_caller_steamid(v: SpecCMsgClientVoiceCallPreAuthorizeResponse)
        ensures
            fold_fields(Self::spec_prefix(v, 0), opt_fixed64(1, v.caller_steamid), Self::apply_fn())
                == Ok::<SpecCMsgClientVoiceCallPreAuthorizeResponse, WireError>(Self::spec_prefix(v, 1)),
    {
        reveal(CMsgClientVoiceCallPreAuthorizeResponse::spec_prefix);
        reveal(opt_fixed64);
        let apply = Self::apply_fn();
        let s = Self::spec_prefix(v, 0);
        lemma_fold_opt(s, 1, match v.caller_steamid { Some(x) => Some(enc_fixed64(x)), None => None }, apply);
        if let Some(x) = v.caller_steamid {
            lemma_u64_roundtrip(x);
        }
        assert(SpecCMsgClientVoiceCallPreAuthorizeResponse { caller_steamid: v.caller_steamid, ..s } == Self::spec_prefix(v, 1));
    }

    /// Reading field 2 back, after the fields before it.
    proof fn lemma_field_receiver_steamid(v: SpecCMsgClientVoiceCallPreAuthorizeResponse)
        ensures
            fold_fields(Self::spec_prefix(v, 1), opt_fixed64(2, v.receiver_steamid), Self::apply_fn())
                == Ok::<SpecCMsgClientVoiceCallPreAuthorizeResponse, WireError>(Self::spec_prefix(v, 2)),
    {
        reveal(CMsgClientVoiceCallPreAuthorizeResponse::spec_prefix);
        reveal(opt_fixed64);
        let apply = Self::apply_fn();
        let s = Self::spec_prefix(v, 1);
        lemma_fold_opt(s, 2, match v.receiver_steamid { Some(x) => Some(enc_fixed64(x)), None => None }, apply);
        if let Some(x) = v.receiver_steamid {
            lemma_u64_roundtrip(x);
        }
        assert(SpecCMsgClientVoiceCallPreAuthorizeResponse { receiver_steamid: v.receiver_steamid, ..s } == Self::spec_prefix(v, 2));
    }

    /// Reading field 3 back, after the fields before it.
    proof fn lemma_field_eresult(v: SpecCMsgClientVoiceCallPreAuthorizeResponse)
        ensures
            fold_fields(Self::spec_prefix(v, 2), opt_i32(3, v.eresult), Self::apply_fn())
                == Ok::<SpecCMsgClientVoiceCallPreAuthorizeResponse, WireError>(Self::spec_prefix(v, 3)),
    {
        reveal(CMsgClientVoiceCallPreAuthorizeResponse::spec_prefix);
        reveal(opt_i32);
        let apply = Self::apply_fn();
        let s = Self::spec_prefix(v, 2);
        lemma_fold_opt(s, 3, match v.eresult { Some(x) => Some(enc_i32(x)), None => None }, apply);
        if let Some(x) = v.eresult {
            lemma_i32_roundtrip(x);
        }
        assert(SpecCMsgClientVoiceCallPreAuthorizeResponse { eresult: v.eresult, ..s } == Self::spec_prefix(v, 3));
    }

    /// Reading field 4 back, after the fields before it.
    proof fn lemma_field_caller_id(v: SpecCMsgClientVoiceCallPreAuthorizeResponse)
        ensures
            fold_fields(Self::spec_prefix(v, 3), opt_i32(4, v.caller_id), Self::apply_fn())
                == Ok::<SpecCMsgClientVoiceCallPreAuthorizeResponse, WireError>(Self::spec_prefix(v, 4)),
    {
        reveal(CMsgClientVoiceCallPreAuthorizeResponse::spec_prefix);
        reveal(opt_i32);
        let apply = Self::apply_fn();
        let s = Self::spec_prefix(v, 3);
        lemma_fold_opt(s, 4, match v.caller_id { Some(x) => Some(enc_i32(x)), None => None }, apply);
        if let Some(x) = v.caller_id {
            lemma_i32_roundtrip(x);
        }
        assert(SpecCMsgClientVoiceCallPreAuthorizeResponse { caller_id: v.caller_id, ..s } == Self::spec_prefix(v, 4));
    }

    /// Whether this message declares field number `n`.
    pub open spec fn declares(n: u32) -> bool {
        n == 1 || n == 2 || n == 3 || n == 4
    }

    /// A record with a number this message does not declare is passed over: well-formed
    /// bytes decode to the same message with such a record after them as without it.
    pub proof fn lemma_unknown_field(bytes: Seq<u8>, f: SpecField)
        requires
            parse_fields(bytes) is Ok,
            field_wf(f),
            !Self::declares(f.number),
        ensures
            Self::spec_decode(bytes + field_bytes(f)) == Self::spec_decode(bytes),
    {
        reveal(CMsgClientVoiceCallPreAuthorizeResponse::spec_decode);
        lemma_parse_fields_append(bytes, f);
        let fs = parse_fields(bytes).unwrap();
        let apply = Self::apply_fn();
        lemma_fold_concat(Self::spec_default(), fs, seq![f], apply);
        assert(fs.push(f) =~= fs + seq![f]);
        if let Ok(w) = fold_fields(Self::spec_default(), fs, apply) {
            lemma_fold_single(w, f, apply);
        }
        lemma_merge_run_fold(Self::spec_default(), bytes, apply);
        lemma_merge_run_fold(Self::spec_default(), bytes + field_bytes(f), apply);
    }

    /// Decoding the encoding of a message gives the message back.
    pub proof fn lemma_decode_encode(v: SpecCMsgClientVoiceCallPreAuthorizeResponse)
        requires
            Self::spec_encode(v).len() <= u64::MAX,
        ensures
            Self::spec_decode(Self::spec_encode(v)) == Ok::<SpecCMsgClientVoiceCallPreAuthorizeResponse, WireError>(v),
    {
        let apply = Self::apply_fn();
        let d = Self::spec_default();
        let p0 = Seq::<SpecField>::empty();
        let l1 = opt_fixed64(1, v.caller_steamid);
        let p1 = p0 + l1;
        let l2 = opt_fixed64(2, v.receiver_steamid);
        let p2 = p1 + l2;
        let l3 = opt_i32(3, v.eresult);
        let p3 = p2 + l3;
        let l4 = opt_i32(4, v.caller_id);
        let p4 = p3 + l4;
        assert(parse_fields(Self::spec_encode(v)) == Ok::<Seq<SpecField>, WireError>(p4)) by {
            reveal(CMsgClientVoiceCallPreAuthorizeResponse::spec_encode);
            assert(numbers_ok(p0) && fields_wf(p0)) by {
                reveal(numbers_ok);
                reveal(fields_wf);
            }
            lemma_opt_fixed64_numbered(1, v.caller_steamid);
            lemma_fields_wf_concat(p0, l1);
            lemma_opt_fixed64_numbered(2, v.receiver_steamid);
            lemma_fields_wf_concat(p1, l2);
            lemma_opt_i32_numbered(3, v.eresult);
            lemma_fields_wf_concat(p2, l3);
            lemma_opt_i32_numbered(4, v.caller_id);
            lemma_fields_wf_concat(p3, l4);
            assert(p4 == Self::spec_fields(v));
            lemma_fields_wf_from_len(p4);
            lemma_fields_roundtrip(p4);
        }
        assert(Self::spec_prefix(v, 0) == d) by {
            reveal(CMsgClientVoiceCallPreAuthorizeResponse::spec_prefix);
        }
        lemma_fold_empty(d, apply);
        lemma_fold_concat(d, p0, l1, apply);
        Self::lemma_field_caller_steamid(v);
        lemma_fold_concat(d, p1, l2, apply);
        Self::lemma_field_receiver_steamid(v);
        lemma_fold_concat(d, p2, l3, apply);
        Self::lemma_field_eresult(v);
        lemma_fold_concat(d, p3, l4, apply);
        Self::lemma_field_caller_id(v);
        assert(Self::spec_prefix(v, 4) == v) by {
            reveal(CMsgClientVoiceCallPreAuthorizeResponse::spec_prefix);
        }
        lemma_merge_run_fold(d, Self::spec_encode(v), apply);
        assert(Self::spec_decode(Self::spec_encode(v)) == Ok::<SpecCMsgClientVoiceCallPreAuthorizeResponse, WireError>(v)) by {
            reveal(CMsgClientVoiceCallPreAuthorizeResponse::spec_decode);
        }
    }
}

/// `CMsgBadgeCraftedNotification`, as Valve's schema declares it.
#[derive(Debug, Clone, PartialEq)]
pub struct CMsgBadgeCraftedNotification {
    /// Field 1.
    pub appid: Option<u32>,
    /// Field 2.
    pub badge_level: Option<u32>,
}

/// What a `CMsgBadgeCraftedNotification` holds, as mathematical values.
#[verifier::ext_equal]
pub struct SpecCMsgBadgeCraftedNotification {
    pub appid: Option<u32>,
    pub badge_level: Option<u32>,
}

impl View for CMsgBadgeCraftedNotification {
    type V = SpecCMsgBadgeCraftedNotification;

    open spec fn view(&self) -> SpecCMsgBadgeCraftedNotification {
        SpecCMsgBadgeCraftedNotification {
            appid: self.appid,
            badge_level: self.badge_level,
        }
    }
}

impl Default for CMsgBadgeCraftedNotification {
    fn default() -> (r: Self)
        ensures
            r@ == CMsgBadgeCraftedNotification::spec_default(),
    {
        CMsgBadgeCraftedNotification {
            appid: None,
            badge_level: None,
        }
    }
}

impl CMsgBadgeCraftedNotification {
    pub open spec fn spec_default() -> SpecCMsgBadgeCraftedNotification {
        SpecCMsgBadgeCraftedNotification {
            appid: None,
            badge_level: None,
        }
    }

    /// The records a `CMsgBadgeCraftedNotification` is written as, in field order.
    pub open spec fn spec_fields(v: SpecCMsgBadgeCraftedNotification) -> Seq<SpecField> {
        Seq::<SpecField>::empty()
            + opt_u32(1, v.appid)
            + opt_u32(2, v.badge_level)
    }

    #[verifier::opaque]
    pub open spec fn spec_encode(v: SpecCMsgBadgeCraftedNotification) -> Seq<u8> {
        fields_bytes(Self::spec_fields(v))
    }

    /// What one record does to the message: a declared number sets or extends its
    /// field, any other number is left alone.
    pub open spec fn spec_apply(v: SpecCMsgBadgeCraftedNotification, f: SpecField) -> Result<SpecCMsgBadgeCraftedNotification, WireError> {
        match f.number {
            1 => match dec_u32(f.value) {
                Ok(x) => Ok(SpecCMsgBadgeCraftedNotification { appid: Some(x), ..v }),
                Err(e) => Err(e),
            },
            2 => match dec_u32(f.value) {
                Ok(x) => Ok(SpecCMsgBadgeCraftedNotification { badge_level: Some(x), ..v }),
                Err(e) => Err(e),
            },
            _ => Ok(v),
        }
    }

    pub open spec fn apply_fn() -> spec_fn(SpecCMsgBadgeCraftedNotification, SpecField) -> Result<SpecCMsgBadgeCraftedNotification, WireError> {
        |v: SpecCMsgBadgeCraftedNotification, f: SpecField| Self::spec_apply(v, f)
    }

    /// The message `bytes` makes of `v`: its records applied in order, or the error
    /// that stops the reading.
    pub open spec fn spec_merge(v: SpecCMsgBadgeCraftedNotification, bytes: Seq<u8>) -> Result<SpecCMsgBadgeCraftedNotification, WireError> {
        let (w, stop) = merge_run(v, bytes, Self::apply_fn());
        match stop {
            None => Ok(w),
            Some(e) => Err(e),
        }
    }

    #[verifier::opaque]
    pub open spec fn spec_decode(bytes: Seq<u8>) -> Result<SpecCMsgBadgeCraftedNotification, WireError> {
        Self::spec_merge(Self::spec_default(), bytes)
    }

    /// This message with one record applied to it, or, when the record is refused,
    /// the message unchanged and the reason.
    fn applied(self, f: &Field) -> (r: Result<Self, (Self, WireError)>)
        ensures
            match Self::spec_apply(self@, f@) {
                Ok(v) => r matches Ok(m) && m@ == v,
                Err(e) => r matches Err((m, x)) && x == e && m@ == self@,
            },
    {
        match f.number {
            1 => match read_u32(&f.value) {
                Ok(x) => Ok(Self { appid: Some(x), ..self }),
                Err(e) => Err((self, e)),
            },
            2 => match read_u32(&f.value) {
                Ok(x) => Ok(Self { badge_level: Some(x), ..self }),
                Err(e) => Err((self, e)),
            },
            _ => Ok(self),
        }
    }

    /// Reads the records `bytes` holds into this message, in order. When a record does
    /// not parse or is refused, the reading stops there: the message keeps what the
    /// records before it gave, and the error is returned.
    pub fn merge(&mut self, bytes: &[u8]) -> (r: Result<(), WireError>)
        ensures
            final(self)@ == merge_run(old(self)@, bytes@, Self::apply_fn()).0,
            r == match merge_run(old(self)@, bytes@, Self::apply_fn()).1 {
                None => Ok::<(), WireError>(()),
                Some(e) => Err::<(), WireError>(e),
            },
    {
        let ghost total = merge_run(self@, bytes@, Self::apply_fn());
        let mut cur = Self::default();
        std::mem::swap(&mut cur, self);
        let mut pos: usize = 0;
        assert(bytes@.skip(0) =~= bytes@);
        while pos < bytes.len()
            invariant
                pos <= bytes@.len(),
                total == merge_run(old(self)@, bytes@, Self::apply_fn()),
                merge_run(cur@, bytes@.skip(pos as int), Self::apply_fn()) == total,
            decreases bytes@.len() - pos,
        {
            let ghost s = bytes@.skip(pos as int);
            proof {
                lemma_merge_run_step(cur@, s, Self::apply_fn());
                lemma_parse_field_len(s);
            }
            match read_field(bytes, pos) {
                Ok((f, end)) => {
                    assert(bytes@.skip(end as int) =~= s.skip((end - pos) as int));
                    match cur.applied(&f) {
                        Ok(m) => {
                            cur = m;
                        },
                        Err((m, e)) => {
                            *self = m;
                            return Err(e);
                        },
                    }
                    pos = end;
                },
                Err(e) => {
                    *self = cur;
                    return Err(e);
                },
            }
        }
        assert(bytes@.skip(pos as int) =~= Seq::<u8>::empty());
        proof {
            lemma_merge_run_empty(cur@, Self::apply_fn());
        }
        *self = cur;
        Ok(())
    }

    /// Decodes a message from its encoding.
    pub fn decode(bytes: &[u8]) -> (r: Result<Self, WireError>)
        ensures
            match Self::spec_decode(bytes@) {
                Ok(v) => r matches Ok(m) && m@ == v,
                Err(e) => r matches Err(x) && x == e,
            },
    {
        proof {
            reveal(CMsgBadgeCraftedNotification::spec_decode);
        }
        let mut m = Self::default();
        match m.merge(bytes) {
            Ok(()) => Ok(m),
            Err(e) => Err(e),
        }
    }

    /// The encoding of this message.
    pub fn encode_to_vec(&self) -> (r: Vec<u8>)
        ensures
            r@ == Self::spec_encode(self@),
    {
        let ghost v = self@;
        let mut out: Vec<u8> = Vec::new();
        let ghost p0 = Seq::<SpecField>::empty();
        put_opt_u32(&mut out, 1, self.appid);
        let ghost p1 = p0 + opt_u32(1, v.appid);
        proof {
            lemma_fields_bytes_concat(p0, opt_u32(1, v.appid));
        }
        put_opt_u32(&mut out, 2, self.badge_level);
        let ghost p2 = p1 + opt_u32(2, v.badge_level);
        proof {
            lemma_fields_bytes_concat(p1, opt_u32(2, v.badge_level));
        }
        proof {
            reveal(CMsgBadgeCraftedNotification::spec_encode);
        }
        assert(p2 == Self::spec_fields(v));
        out
    }

    /// Appends the encoding of this message to `out`.
    pub fn encode_raw(&self, out: &mut Vec<u8>)
        ensures
            final(out)@ == old(out)@ + Self::spec_encode(self@),
    {
        let mut b = self.encode_to_vec();
        out.append(&mut b);
    }

    /// The first `k` fields of `v`, the others as a fresh message has them.
    #[verifier::opaque]
    pub open spec fn spec_prefix(v: SpecCMsgBadgeCraftedNotification, k: int) -> SpecCMsgBadgeCraftedNotification {
        SpecCMsgBadgeCraftedNotification {
            appid: if 1 <= k { v.appid } else { None },
            badge_level: if 2 <= k { v.badge_level } else { None },
        }
    }

    /// Reading field 1 back, after the fields before it.
    proof fn lemma_field_appid(v: SpecCMsgBadgeCraftedNotification)
        ensures
            fold_fields(Self::spec_prefix(v, 0), opt_u32(1, v.appid), Self::apply_fn())
                == Ok::<SpecCMsgBadgeCraftedNotification, WireError>(Self::spec_prefix(v, 1)),
    {
        reveal(CMsgBadgeCraftedNotification::spec_prefix);
        reveal(opt_u32);
        let apply = Self::apply_fn();
        let s = Self::spec_prefix(v, 0);
        lemma_fold_opt(s, 1, match v.appid { Some(x) => Some(enc_u32(x)), None => None }, apply);
        if let Some(x) = v.appid {
            lemma_u32_roundtrip(x);
        }
        assert(SpecCMsgBadgeCraftedNotification { appid: v.appid, ..s } == Self::spec_prefix(v, 1));
    }

    /// Reading field 2 back, after the fields before it.
    proof fn lemma_field_badge_level(v: SpecCMsgBadgeCraftedNotification)
        ensures
            fold_fields(Self::spec_prefix(v, 1), opt_u32(2, v.badge_level), Self::apply_fn())
                == Ok::<SpecCMsgBadgeCraftedNotification, WireError>(Self::spec_prefix(v, 2)),
    {
        reveal(CMsgBadgeCraftedNotification::spec_prefix);
        reveal(opt_u32);
        let apply = Self::apply_fn();
        let s = Self::spec_prefix(v, 1);
        lemma_fold_opt(s, 2, match v.badge_level { Some(x) => Some(enc_u32(x)), None => None }, apply);
        if let Some(x) = v.badge_level {
            lemma_u32_roundtrip(x);
        }
        assert(SpecCMsgBadgeCraftedNotification { badge_level: v.badge_level, ..s } == Self::spec_prefix(v, 2));
    }

    /// Whether this message declares field number `n`.
    pub open spec fn declares(n: u32) -> bool {
        n == 1 || n == 2
    }

    /// A record with a number this message does not declare is passed over: well-formed
    /// bytes decode to the same message with such a record after them as without it.
    pub proof fn lemma_unknown_field(bytes: Seq<u8>, f: SpecField)
        requires
            parse_fields(bytes) is Ok,
            field_wf(f),
            !Self::declares(f.number),
        ensures
            Self::spec_decode(bytes + field_bytes(f)) == Self::spec_decode(bytes),
    {
        reveal(CMsgBadgeCraftedNotification::spec_decode);
        lemma_parse_fields_append(bytes, f);
        let fs = parse_fields(bytes).unwrap();
        let apply = Self::apply_fn();
        lemma_fold_concat(Self::spec_default(), fs, seq![f], apply);
        assert(fs.push(f) =~= fs + seq![f]);
        if let Ok(w) = fold_fields(Self::spec_default(), fs, apply) {
            lemma_fold_single(w, f, apply);
        }
        lemma_merge_run_fold(Self::spec_default(), bytes, apply);
        lemma_merge_run_fold(Self::spec_default(), bytes + field_bytes(f), apply);
    }

    /// Decoding the encoding of a message gives the message back.
    pub proof fn lemma_decode_encode(v: SpecCMsgBadgeCraftedNotification)
        requires
            Self::spec_encode(v).len() <= u64::MAX,
        ensures
            Self::spec_decode(Self::spec_encode(v)) == Ok::<SpecCMsgBadgeCraftedNotification, WireError>(v),
    {
        let apply = Self::apply_fn();
        let d = Self::spec_default();
        let p0 = Seq::<SpecField>::empty();
        let l1 = opt_u32(1, v.appid);
        let p1 = p0 + l1;
        let l2 = opt_u32(2, v.badge_level);
        let p2 = p1 + l2;
        assert(parse_fields(Self::spec_encode(v)) == Ok::<Seq<SpecField>, WireError>(p2)) by {
            reveal(CMsgBadgeCraftedNotification::spec_encode);
            assert(numbers_ok(p0) && fields_wf(p0)) by {
                reveal(numbers_ok);
                reveal(fields_wf);
            }
            lemma_opt_u32_numbered(1, v.appid);
            lemma_fields_wf_concat(p0, l1);
            lemma_opt_u32_numbered(2, v.badge_level);
            lemma_fields_wf_concat(p1, l2);
            assert(p2 == Self::spec_fields(v));
            lemma_fields_wf_from_len(p2);
            lemma_fields_roundtrip(p2);
        }
        assert(Self::spec_prefix(v, 0) == d) by {
            reveal(CMsgBadgeCraftedNotification::spec_prefix);
        }
        lemma_fold_empty(d, apply);
        lemma_fold_concat(d, p0, l1, apply);
        Self::lemma_field_appid(v);
        lemma_fold_concat(d, p1, l2, apply);
        Self::lemma_field_badge_level(v);
        assert(Self::spec_prefix(v, 2) == v) by {
            reveal(CMsgBadgeCraftedNotification::spec_prefix);
        }
        lemma_merge_run_fold(d, Self::spec_encode(v), apply);
        assert(Self::spec_decode(Self::spec_encode(v)) == Ok::<SpecCMsgBadgeCraftedNotification, WireError>(v)) by {
            reveal(CMsgBadgeCraftedNotification::spec_decode);
        }
    }
}

/// `CMsgClientStartPeerContentServer`, as Valve's schema declares it.
#[derive(Debug, Clone, PartialEq)]
pub struct CMsgClientStartPeerContentServer {
    /// Field 1.
    pub steamid: Option<u64>,
    /// Field 2.
    pub client_remote_id: Option<u64>,
    /// Field 3.
    pub app_id: Option<u32>,
    /// Field 4.
    pub current_build_id: Option<u32>,
}

/// What a `CMsgClientStartPeerContentServer` holds, as mathematical values.
#[verifier::ext_equal]
pub struct SpecCMsgClientStartPeerContentServer {
    pub steamid: Option<u64>,
    pub client_remote_id: Option<u64>,
    pub app_id: Option<u32>,
    pub current_build_id: Option<u32>,
}

impl View for CMsgClientStartPeerContentServer {
    type V = SpecCMsgClientStartPeerContentServer;

    open spec fn view(&self) -> SpecCMsgClientStartPeerContentServer {
        SpecCMsgClientStartPeerContentServer {
            steamid: self.steamid,
            client_remote_id: self.client_remote_id,
            app_id: self.app_id,
            current_build_id: self.current_build_id,
        }
    }
}

impl Default for CMsgClientStartPeerContentServer {
    fn default() -> (r: Self)
        ensures
            r@ == CMsgClientStartPeerContentServer::spec_default(),
    {
        CMsgClientStartPeerContentServer {
            steamid: None,
            client_remote_id: None,
            app_id: None,
            current_build_id: None,
        }
    }
}

impl CMsgClientStartPeerContentServer {
    pub open spec fn spec_default() -> SpecCMsgClientStartPeerContentServer {
        SpecCMsgClientStartPeerContentServer {
            steamid: None,
            client_remote_id: None,
            app_id: None,
            current_build_id: None,
        }
    }

    /// The records a `CMsgClientStartPeerContentServer` is written as, in field order.
    pub open spec fn spec_fields(v: SpecCMsgClientStartPeerContentServer) -> Seq<SpecField> {
        Seq::<SpecField>::empty()
            + opt_fixed64(1, v.steamid)
            + opt_fixed64(2, v.client_remote_id)
            + opt_u32(3, v.app_id)
            + opt_u32(4, v.current_build_id)
    }

    #[verifier::opaque]
    pub open spec fn spec_encode(v: SpecCMsgClientStartPeerContentServer) -> Seq<u8> {
        fields_bytes(Self::spec_fields(v))
    }

    /// What one record does to the message: a declared number sets or extends its
    /// field, any other number is left alone.
    pub open spec fn spec_apply(v: SpecCMsgClientStartPeerContentServer, f: SpecField) -> Result<SpecCMsgClientStartPeerContentServer, WireError> {
        match f.number {
            1 => match dec_fixed64(f.value) {
                Ok(x) => Ok(SpecCMsgClientStartPeerContentServer { steamid: Some(x), ..v }),
                Err(e) => Err(e),
            },
            2 => match dec_fixed64(f.value) {
                Ok(x) => Ok(SpecCMsgClientStartPeerContentServer { client_remote_id: Some(x), ..v }),
                Err(e) => Err(e),
            },
            3 => match dec_u32(f.value) {
                Ok(x) => Ok(SpecCMsgClientStartPeerContentServer { app_id: Some(x), ..v }),
                Err(e) => Err(e),
            },
            4 => match dec_u32(f.value) {
                Ok(x) => Ok(SpecCMsgClientStartPeerContentServer { current_build_id: Some(x), ..v }),
                Err(e) => Err(e),
            },
            _ => Ok(v),
        }
    }

    pub open spec fn apply_fn() -> spec_fn(SpecCMsgClientStartPeerContentServer, SpecField) -> Result<SpecCMsgClientStartPeerContentServer, WireError> {
        |v: SpecCMsgClientStartPeerContentServer, f: SpecField| Self::spec_apply(v, f)
    }

    /// The message `bytes` makes of `v`: its records applied in order, or the error
    /// that stops the reading.
    pub open spec fn spec_merge(v: SpecCMsgClientStartPeerContentServer, bytes: Seq<u8>) -> Result<SpecCMsgClientStartPeerContentServer, WireError> {
        let (w, stop) = merge_run(v, bytes, Self::apply_fn());
        match stop {
            None => Ok(w),
            Some(e) => Err(e),
        }
    }

    #[verifier::opaque]
    pub open spec fn spec_decode(bytes: Seq<u8>) -> Result<SpecCMsgClientStartPeerContentServer, WireError> {
        Self::spec_merge(Self::spec_default(), bytes)
    }

    /// This message with one record applied to it, or, when the record is refused,
    /// the message unchanged and the reason.
    fn applied(self, f: &Field) -> (r: Result<Self, (Self, WireError)>)
        ensures
            match Self::spec_apply(self@, f@) {
                Ok(v) => r matches Ok(m) && m@ == v,
                Err(e) => r matches Err((m, x)) && x == e && m@ == self@,
            },
    {
        match f.number {
            1 => match read_fixed64(&f.value) {
                Ok(x) => Ok(Self { steamid: Some(x), ..self }),
                Err(e) => Err((self, e)),
            },
            2 => match read_fixed64(&f.value) {
                Ok(x) => Ok(Self { client_remote_id: Some(x), ..self }),
                Err(e) => Err((self, e)),
            },
            3 => match read_u32(&f.value) {
                Ok(x) => Ok(Self { app_id: Some(x), ..self }),
                Err(e) => Err((self, e)),
            },
            4 => match read_u32(&f.value) {
                Ok(x) => Ok(Self { current_build_id: Some(x), ..self }),
                Err(e) => Err((self, e)),
            },
            _ => Ok(self),
        }
    }

    /// Reads the records `bytes` holds into this message, in order. When a record does
    /// not parse or is refused, the reading stops there: the message keeps what the
    /// records before it gave, and the error is returned.
    pub fn merge(&mut self, bytes: &[u8]) -> (r: Result<(), WireError>)
        ensures
            final(self)@ == merge_run(old(self)@, bytes@, Self::apply_fn()).0,
            r == match merge_run(old(self)@, bytes@, Self::apply_fn()).1 {
                None => Ok::<(), WireError>(()),
                Some(e) => Err::<(), WireError>(e),
            },
    {
        let ghost total = merge_run(self@, bytes@, Self::apply_fn());
        let mut cur = Self::default();
        std::mem::swap(&mut cur, self);
        let mut pos: usize = 0;
        assert(bytes@.skip(0) =~= bytes@);
        while pos < bytes.len()
            invariant
                pos <= bytes@.len(),
                total == merge_run(old(self)@, bytes@, Self::apply_fn()),
                merge_run(cur@, bytes@.skip(pos as int), Self::apply_fn()) == total,
            decreases bytes@.len() - pos,
        {
            let ghost s = bytes@.skip(pos as int);
            proof {
                lemma_merge_run_step(cur@, s, Self::apply_fn());
                lemma_parse_field_len(s);
            }
            match read_field(bytes, pos) {
                Ok((f, end)) => {
                    assert(bytes@.skip(end as int) =~= s.skip((end - pos) as int));
                    match cur.applied(&f) {
                        Ok(m) => {
                            cur = m;
                        },
                        Err((m, e)) => {
                            *self = m;
                            return Err(e);
                        },
                    }
                    pos = end;
                },
                Err(e) => {
                    *self = cur;
                    return Err(e);
                },
            }
        }
        assert(bytes@.skip(pos as int) =~= Seq::<u8>::empty());
        proof {
            lemma_merge_run_empty(cur@, Self::apply_fn());
        }
        *self = cur;
        Ok(())
    }

    /// Decodes a message from its encoding.
    pub fn decode(bytes: &[u8]) -> (r: Result<Self, WireError>)
        ensures
            match Self::spec_decode(bytes@) {
                Ok(v) => r matches Ok(m) && m@ == v,
                Err(e) => r matches Err(x) && x == e,
            },
    {
        proof {
            reveal(CMsgClientStartPeerContentServer::spec_decode);
        }
        let mut m = Self::default();
        match m.merge(bytes) {
            Ok(()) => Ok(m),
            Err(e) => Err(e),
        }
    }

    /// The encoding of this message.
    pub fn encode_to_vec(&self) -> (r: Vec<u8>)
        ensures
            r@ == Self::spec_encode(self@),
    {
        let ghost v = self@;
        let mut out: Vec<u8> = Vec::new();
        let ghost p0 = Seq::<SpecField>::empty();
        put_opt_fixed64(&mut out, 1, self.steamid);
        let ghost p1 = p0 + opt_fixed64(1, v.steamid);
        proof {
            lemma_fields_bytes_concat(p0, opt_fixed64(1, v.steamid));
        }
        put_opt_fixed64(&mut out, 2, self.client_remote_id);
        let ghost p2 = p1 + opt_fixed64(2, v.client_remote_id);
        proof {
            lemma_fields_bytes_concat(p1, opt_fixed64(2, v.client_remote_id));
        }
        put_opt_u32(&mut out, 3, self.app_id);
        let ghost p3 = p2 + opt_u32(3, v.app_id);
        proof {
            lemma_fields_bytes_concat(p2, opt_u32(3, v.app_id));
        }
        put_opt_u32(&mut out, 4, self.current_build_id);
        let ghost p4 = p3 + opt_u32(4, v.current_build_id);
        proof {
            lemma_fields_bytes_concat(p3, opt_u32(4, v.current_build_id));
        }
        proof {
            reveal(CMsgClientStartPeerContentServer::spec_encode);
        }
        assert(p4 == Self::spec_fields(v));
        out
    }

    /// Appends the encoding of this message to `out`.
    pub fn encode_raw(&self, out: &mut Vec<u8>)
        ensures
            final(out)@ == old(out)@ + Self::spec_encode(self@),
    {
        let mut b = self.encode_to_vec();
        out.append(&mut b);
    }

    /// The first `k` fields of `v`, the others as a fresh message has them.
    #[verifier::opaque]
    pub open spec fn spec_prefix(v: SpecCMsgClientStartPeerContentServer, k: int) -> SpecCMsgClientStartPeerContentServer {
        SpecCMsgClientStartPeerContentServer {
            steamid: if 1 <= k { v.steamid } else { None },
            client_remote_id: if 2 <= k { v.client_remote_id } else { None },
            app_id: if 3 <= k { v.app_id } else { None },
            current_build_id: if 4 <= k { v.current_build_id } else { None },
        }
    }

    /// Reading field 1 back, after the fields before it.
    proof fn lemma_field_steamid(v: SpecCMsgClientStartPeerContentServer)
        ensures
            fold_fields(Self::spec_prefix(v, 0), opt_fixed64(1, v.steamid), Self::apply_fn())
                == Ok::<SpecCMsgClientStartPeerContentServer, WireError>(Self::spec_prefix(v, 1)),
    {
        reveal(CMsgClientStartPeerContentServer::spec_prefix);
        reveal(opt_fixed64);
        let apply = Self::apply_fn();
        let s = Self::spec_prefix(v, 0);
        lemma_fold_opt(s, 1, match v.steamid { Some(x) => Some(enc_fixed64(x)), None => None }, apply);
        if let Some(x) = v.steamid {
            lemma_u64_roundtrip(x);
        }
        assert(SpecCMsgClientStartPeerContentServer { steamid: v.steamid, ..s } == Self::spec_prefix(v, 1));
    }

    /// Reading field 2 back, after the fields before it.
    proof fn lemma_field_client_remote_id(v: SpecCMsgClientStartPeerContentServer)
        ensures
            fold_fields(Self::spec_prefix(v, 1), opt_fixed64(2, v.client_remote_id), Self::apply_fn())
                == Ok::<SpecCMsgClientStartPeerContentServer, WireError>(Self::spec_prefix(v, 2)),
    {
        reveal(CMsgClientStartPeerContentServer::spec_prefix);
        reveal(opt_fixed64);
        let apply = Self::apply_fn();
        let s = Self::spec_prefix(v, 1);
        lemma_fold_opt(s, 2, match v.client_remote_id { Some(x) => Some(enc_fixed64(x)), None => None }, apply);
        if let Some(x) = v.client_remote_id {
            lemma_u64_roundtrip(x);
        }
        assert(SpecCMsgClientStartPeerContentServer { client_remote_id: v.client_remote_id, ..s } == Self::spec_prefix(v, 2));
    }

    /// Reading field 3 back, after the fields before it.
    proof fn lemma_field_app_id(v: SpecCMsgClientStartPeerContentServer)
        ensures
            fold_fields(Self::spec_prefix(v, 2), opt_u32(3, v.app_id), Self::apply_fn())
                == Ok::<SpecCMsgClientStartPeerContentServer, WireError>(Self::spec_prefix(v, 3)),
    {
        reveal(CMsgClientStartPeerContentServer::spec_prefix);
        reveal(opt_u32);
        let apply = Self::apply_fn();
        let s = Self::spec_prefix(v, 2);
        lemma_fold_opt(s, 3, match v.app_id { Some(x) => Some(enc_u32(x)), None => None }, apply);
        if let Some(x) = v.app_id {
            lemma_u32_roundtrip(x);
        }
        assert(SpecCMsgClientStartPeerContentServer { app_id: v.app_id, ..s } == Self::spec_prefix(v, 3));
    }

    /// Reading field 4 back, after the fields before it.
    proof fn lemma_field_current_build_id(v: SpecCMsgClientStartPeerContentServer)
        ensures
            fold_fields(Self::spec_prefix(v, 3), opt_u32(4, v.current_build_id), Self::apply_fn())
                == Ok::<SpecCMsgClientStartPeerContentServer, WireError>(Self::spec_prefix(v, 4)),
    {
        reveal(CMsgClientStartPeerContentServer::spec_prefix);
        reveal(opt_u32);
        let apply = Self::apply_fn();
        let s = Self::spec_prefix(v, 3);
        lemma_fold_opt(s, 4, match v.current_build_id { Some(x) => Some(enc_u32(x)), None => None }, apply);
        if let Some(x) = v.current_build_id {
            lemma_u32_roundtrip(x);
        }
        assert(SpecCMsgClientStartPeerContentServer { current_build_id: v.current_build_id, ..s } == Self::spec_prefix(v, 4));
    }

    /// Whether this message declares field number `n`.
    pub open spec fn declares(n: u32) -> bool {
        n == 1 || n == 2 || n == 3 || n == 4
    }

    /// A record with a number this message does not declare is passed over: well-formed
    /// bytes decode to the same message with such a record after them as without it.
    pub proof fn lemma_unknown_field(bytes: Seq<u8>, f: SpecField)
        requires
            parse_fields(bytes) is Ok,
            field_wf(f),
            !Self::declares(f.number),
        ensures
            Self::spec_decode(bytes + field_bytes(f)) == Self::spec_decode(bytes),
    {
        reveal(CMsgClientStartPeerContentServer::spec_decode);
        lemma_parse_fields_append(bytes, f);
        let fs = parse_fields(bytes).unwrap();
        let apply = Self::apply_fn();
        lemma_fold_concat(Self::spec_default(), fs, seq![f], apply);
        assert(fs.push(f) =~= fs + seq![f]);
        if let Ok(w) = fold_fields(Self::spec_default(), fs, apply) {
            lemma_fold_single(w, f, apply);
        }
        lemma_merge_run_fold(Self::spec_default(), bytes, apply);
        lemma_merge_run_fold(Self::spec_default(), bytes + field_bytes(f), apply);
    }

    /// Decoding the encoding of a message gives the message back.
    pub proof fn lemma_decode_encode(v: SpecCMsgClientStartPeerContentServer)
        requires
            Self::spec_encode(v).len() <= u64::MAX,
        ensures
            Self::spec_decode(Self::spec_encode(v)) == Ok::<SpecCMsgClientStartPeerContentServer, WireError>(v),
    {
        let apply = Self::apply_fn();
        let d = Self::spec_default();
        let p0 = Seq::<SpecField>::empty();
        let l1 = opt_fixed64(1, v.steamid);
        let p1 = p0 + l1;
        let l2 = opt_fixed64(2, v.client_remote_id);
        let p2 = p1 + l2;
        let l3 = opt_u32(3, v.app_id);
        let p3 = p2 + l3;
        let l4 = opt_u32(4, v.current_build_id);
        let p4 = p3 + l4;
        assert(parse_fields(Self::spec_encode(v)) == Ok::<Seq<SpecField>, WireError>(p4)) by {
            reveal(CMsgClientStartPeerContentServer::spec_encode);
            assert(numbers_ok(p0) && fields_wf(p0)) by {
                reveal(numbers_ok);
                reveal(fields_wf);
            }
            lemma_opt_fixed64_numbered(1, v.steamid);
            lemma_fields_wf_concat(p0, l1);
            lemma_opt_fixed64_numbered(2, v.client_remote_id);
            lemma_fields_wf_concat(p1, l2);
            lemma_opt_u32_numbered(3, v.app_id);
            lemma_fields_wf_concat(p2, l3);
            lemma_opt_u32_numbered(4, v.current_build_id);
            lemma_fields_wf_concat(p3, l4);
            assert(p4 == Self::spec_fields(v));
            lemma_fields_wf_from_len(p4);
            lemma_fields_roundtrip(p4);
        }
        assert(Self::spec_prefix(v, 0) == d) by {
            reveal(CMsgClientStartPeerContentServer::spec_prefix);
        }
        lemma_fold_empty(d, apply);
        lemma_fold_concat(d, p0, l1, apply);
        Self::lemma_field_steamid(v);
        lemma_fold_concat(d, p1, l2, apply);
        Self::lemma_field_client_remote_id(v);
        lemma_fold_concat(d, p2, l3, apply);
        Self::lemma_field_app_id(v);
        lemma_fold_concat(d, p3, l4, apply);
        Self::lemma_field_current_build_id(v);
        assert(Self::spec_prefix(v, 4) == v) by {
            reveal(CMsgClientStartPeerContentServer::spec_prefix);
        }
        lemma_merge_run_fold(d, Self::spec_encode(v), apply);
        assert(Self::spec_decode(Self::spec_encode(v)) == Ok::<SpecCMsgClientStartPeerContentServer, WireError>(v)) by {
            reveal(CMsgClientStartPeerContentServer::spec_decode);
        }
    }
}

/// `CMsgClientStartPeerContentServerResponse`, as Valve's schema declares it.
#[derive(Debug, Clone, PartialEq)]
pub struct CMsgClientStartPeerContentServerResponse {
    /// Field 1.
    pub result: Option<u32>,
    /// Field 2.
    pub server_port: Option<u32>,
    /// Field 3.
    pub installed_depots: Vec<u32>,
    /// Field 4.
    pub access_token: Option<u64>,
}

/// What a `CMsgClientStartPeerContentServerResponse` holds, as mathematical values.
#[verifier::ext_equal]
pub struct SpecCMsgClientStartPeerContentServerResponse {
    pub result: Option<u32>,
    pub server_port: Option<u32>,
    pub installed_depots: Seq<u32>,
    pub access_token: Option<u64>,
}

impl View for CMsgClientStartPeerContentServerResponse {
    type V = SpecCMsgClientStartPeerContentServerResponse;

    open spec fn view(&self) -> SpecCMsgClientStartPeerContentServerResponse {
        SpecCMsgClientStartPeerContentServerResponse {
            result: self.result,
            server_port: self.server_port,
            installed_depots: self.installed_depots@,
            access_token: self.access_token,
        }
    }
}

impl Default for CMsgClientStartPeerContentServerResponse {
    fn default() -> (r: Self)
        ensures
            r@ == CMsgClientStartPeerContentServerResponse::spec_default(),
    {
        CMsgClientStartPeerContentServerResponse {
            result: None,
            server_port: None,
            installed_depots: Vec::new(),
            access_token: None,
        }
    }
}

impl CMsgClientStartPeerContentServerResponse {
    pub open spec fn spec_default() -> SpecCMsgClientStartPeerContentServerResponse {
        SpecCMsgClientStartPeerContentServerResponse {
            result: None,
            server_port: None,
            installed_depots: Seq::empty(),
            access_token: None,
        }
    }

    /// The records a `CMsgClientStartPeerContentServerResponse` is written as, in field order.
    pub open spec fn spec_fields(v: SpecCMsgClientStartPeerContentServerResponse) -> Seq<SpecField> {
        Seq::<SpecField>::empty()
            + opt_u32(1, v.result)
            + opt_u32(2, v.server_port)
            + rep_u32(3, v.installed_depots)
            + opt_u64(4, v.access_token)
    }

    #[verifier::opaque]
    pub open spec fn spec_encode(v: SpecCMsgClientStartPeerContentServerResponse) -> Seq<u8> {
        fields_bytes(Self::spec_fields(v))
    }

    /// What one record does to the message: a declared number sets or extends its
    /// field, any other number is left alone.
    pub open spec fn spec_apply(v: SpecCMsgClientStartPeerContentServerResponse, f: SpecField) -> Result<SpecCMsgClientStartPeerContentServerResponse, WireError> {
        match f.number {
            1 => match dec_u32(f.value) {
                Ok(x) => Ok(SpecCMsgClientStartPeerContentServerResponse { result: Some(x), ..v }),
                Err(e) => Err(e),
            },
            2 => match dec_u32(f.value) {
                Ok(x) => Ok(SpecCMsgClientStartPeerContentServerResponse { server_port: Some(x), ..v }),
                Err(e) => Err(e),
            },
            3 => match dec_packed_u32(f.value) {
                Ok(xs) => Ok(SpecCMsgClientStartPeerContentServerResponse { installed_depots: v.installed_depots + xs, ..v }),
                Err(e) => Err(e),
            },
            4 => match dec_u64(f.value) {
                Ok(x) => Ok(SpecCMsgClientStartPeerContentServerResponse { access_token: Some(x), ..v }),
                Err(e) => Err(e),
            },
            _ => Ok(v),
        }
    }

    pub open spec fn apply_fn() -> spec_fn(SpecCMsgClientStartPeerContentServerResponse, SpecField) -> Result<SpecCMsgClientStartPeerContentServerResponse, WireError> {
        |v: SpecCMsgClientStartPeerContentServerResponse, f: SpecField| Self::spec_apply(v, f)
    }

    /// The message `bytes` makes of `v`: its records applied in order, or the error
    /// that stops the reading.
    pub open spec fn spec_merge(v: SpecCMsgClientStartPeerContentServerResponse, bytes: Seq<u8>) -> Result<SpecCMsgClientStartPeerContentServerResponse, WireError> {
        let (w, stop) = merge_run(v, bytes, Self::apply_fn());
        match stop {
            None => Ok(w),
            Some(e) => Err(e),
        }
    }

    #[verifier::opaque]
    pub open spec fn spec_decode(bytes: Seq<u8>) -> Result<SpecCMsgClientStartPeerContentServerResponse, WireError> {
        Self::spec_merge(Self::spec_default(), bytes)
    }

    /// This message with one record applied to it, or, when the record is refused,
    /// the message unchanged and the reason.
    fn applied(self, f: &Field) -> (r: Result<Self, (Self, WireError)>)
        ensures
            match Self::spec_apply(self@, f@) {
                Ok(v) => r matches Ok(m) && m@ == v,
                Err(e) => r matches Err((m, x)) && x == e && m@ == self@,
            },
    {
        match f.number {
            1 => match read_u32(&f.value) {
                Ok(x) => Ok(Self { result: Some(x), ..self }),
                Err(e) => Err((self, e)),
            },
            2 => match read_u32(&f.value) {
                Ok(x) => Ok(Self { server_port: Some(x), ..self }),
                Err(e) => Err((self, e)),
            },
            3 => match read_packed_u32(&f.value) {
                Ok(xs) => {
                    let mut m = self;
                    let mut xs = xs;
                    m.installed_depots.append(&mut xs);
                    Ok(m)
                },
                Err(e) => Err((self, e)),
            },
            4 => match read_u64(&f.value) {
                Ok(x) => Ok(Self { access_token: Some(x), ..self }),
                Err(e) => Err((self, e)),
            },
            _ => Ok(self),
        }
    }

    /// Reads the records `bytes` holds into this message, in order. When a record does
    /// not parse or is refused, the reading stops there: the message keeps what the
    /// records before it gave, and the error is returned.
    pub fn merge(&mut self, bytes: &[u8]) -> (r: Result<(), WireError>)
        ensures
            final(self)@ == merge_run(old(self)@, bytes@, Self::apply_fn()).0,
            r == match merge_run(old(self)@, bytes@, Self::apply_fn()).1 {
                None => Ok::<(), WireError>(()),
                Some(e) => Err::<(), WireError>(e),
            },
    {
        let ghost total = merge_run(self@, bytes@, Self::apply_fn());
        let mut cur = Self::default();
        std::mem::swap(&mut cur, self);
        let mut pos: usize = 0;
        assert(bytes@.skip(0) =~= bytes@);
        while pos < bytes.len()
            invariant
                pos <= bytes@.len(),
                total == merge_run(old(self)@, bytes@, Self::apply_fn()),
                merge_run(cur@, bytes@.skip(pos as int), Self::apply_fn()) == total,
            decreases bytes@.len() - pos,
        {
            let ghost s = bytes@.skip(pos as int);
            proof {
                lemma_merge_run_step(cur@, s, Self::apply_fn());
                lemma_parse_field_len(s);
            }
            match read_field(bytes, pos) {
                Ok((f, end)) => {
                    assert(bytes@.skip(end as int) =~= s.skip((end - pos) as int));
                    match cur.applied(&f) {
                        Ok(m) => {
                            cur = m;
                        },
                        Err((m, e)) => {
                            *self = m;
                            return Err(e);
                        },
                    }
                    pos = end;
                },
                Err(e) => {
                    *self = cur;
                    return Err(e);
                },
            }
        }
        assert(bytes@.skip(pos as int) =~= Seq::<u8>::empty());
        proof {
            lemma_merge_run_empty(cur@, Self::apply_fn());
        }
        *self = cur;
        Ok(())
    }

    /// Decodes a message from its encoding.
    pub fn decode(bytes: &[u8]) -> (r: Result<Self, WireError>)
        ensures
            match Self::spec_decode(bytes@) {
                Ok(v) => r matches Ok(m) && m@ == v,
                Err(e) => r matches Err(x) && x == e,
            },
    {
        proof {
            reveal(CMsgClientStartPeerContentServerResponse::spec_decode);
        }
        let mut m = Self::default();
        match m.merge(bytes) {
            Ok(()) => Ok(m),
            Err(e) => Err(e),
        }
    }

    /// The encoding of this message.
    pub fn encode_to_vec(&self) -> (r: Vec<u8>)
        ensures
            r@ == Self::spec_encode(self@),
    {
        let ghost v = self@;
        let mut out: Vec<u8> = Vec::new();
        let ghost p0 = Seq::<SpecField>::empty();
        put_opt_u32(&mut out, 1, self.result);
        let ghost p1 = p0 + opt_u32(1, v.result);
        proof {
            lemma_fields_bytes_concat(p0, opt_u32(1, v.result));
        }
        put_opt_u32(&mut out, 2, self.server_port);
        let ghost p2 = p1 + opt_u32(2, v.server_port);
        proof {
            lemma_fields_bytes_concat(p1, opt_u32(2, v.server_port));
        }
        put_rep_u32(&mut out, 3, &self.installed_depots);
        let ghost p3 = p2 + rep_u32(3, v.installed_depots);
        proof {
            lemma_fields_bytes_concat(p2, rep_u32(3, v.installed_depots));
        }
        put_opt_varint(&mut out, 4, self.access_token);
        let ghost p4 = p3 + opt_u64(4, v.access_token);
        proof {
            lemma_fields_bytes_concat(p3, opt_u64(4, v.access_token));
        }
        proof {
            reveal(CMsgClientStartPeerContentServerResponse::spec_encode);
        }
        assert(p4 == Self::spec_fields(v));
        out
    }

    /// Appends the encoding of this message to `out`.
    pub fn encode_raw(&self, out: &mut Vec<u8>)
        ensures
            final(out)@ == old(out)@ + Self::spec_encode(self@),
    {
        let mut b = self.encode_to_vec();
        out.append(&mut b);
    }

    /// The first `k` fields of `v`, the others as a fresh message has them.
    #[verifier::opaque]
    pub open spec fn spec_prefix(v: SpecCMsgClientStartPeerContentServerResponse, k: int) -> SpecCMsgClientStartPeerContentServerResponse {
        SpecCMsgClientStartPeerContentServerResponse {
            result: if 1 <= k { v.result } else { None },
            server_port: if 2 <= k { v.server_port } else { None },
            installed_depots: if 3 <= k { v.installed_depots } else { Seq::empty() },
            access_token: if 4 <= k { v.access_token } else { None },
        }
    }

    /// Reading field 1 back, after the fields before it.
    proof fn lemma_field_result(v: SpecCMsgClientStartPeerContentServerResponse)
        ensures
            fold_fields(Self::spec_prefix(v, 0), opt_u32(1, v.result), Self::apply_fn())
                == Ok::<SpecCMsgClientStartPeerContentServerResponse, WireError>(Self::spec_prefix(v, 1)),
    {
        reveal(CMsgClientStartPeerContentServerResponse::spec_prefix);
        reveal(opt_u32);
        let apply = Self::apply_fn();
        let s = Self::spec_prefix(v, 0);
        lemma_fold_opt(s, 1, match v.result { Some(x) => Some(enc_u32(x)), None => None }, apply);
        if let Some(x) = v.result {
            lemma_u32_roundtrip(x);
        }
        assert(SpecCMsgClientStartPeerContentServerResponse { result: v.result, ..s } == Self::spec_prefix(v, 1));
    }

    /// Reading field 2 back, after the fields before it.
    proof fn lemma_field_server_port(v: SpecCMsgClientStartPeerContentServerResponse)
        ensures
            fold_fields(Self::spec_prefix(v, 1), opt_u32(2, v.server_port), Self::apply_fn())
                == Ok::<SpecCMsgClientStartPeerContentServerResponse, WireError>(Self::spec_prefix(v, 2)),
    {
        reveal(CMsgClientStartPeerContentServerResponse::spec_prefix);
        reveal(opt_u32);
        let apply = Self::apply_fn();
        let s = Self::spec_prefix(v, 1);
        lemma_fold_opt(s, 2, match v.server_port { Some(x) => Some(enc_u32(x)), None => None }, apply);
        if let Some(x) = v.server_port {
            lemma_u32_roundtrip(x);
        }
        assert(SpecCMsgClientStartPeerContentServerResponse { server_port: v.server_port, ..s } == Self::spec_prefix(v, 2));
    }

    /// Reading field 3 back, after the fields before it.
    proof fn lemma_field_installed_depots(v: SpecCMsgClientStartPeerContentServerResponse)
        ensures
            fold_fields(Self::spec_prefix(v, 2), rep_u32(3, v.installed_depots), Self::apply_fn())
                == Ok::<SpecCMsgClientStartPeerContentServerResponse, WireError>(Self::spec_prefix(v, 3)),
    {
        reveal(CMsgClientStartPeerContentServerResponse::spec_prefix);
        reveal(rep_u32);
        let apply = Self::apply_fn();
        let s = Self::spec_prefix(v, 2);
        let l = rep_u32(3, v.installed_depots);
        let xs = v.installed_depots;
        let st = Seq::new((xs.len() + 1) as nat, |j: int| SpecCMsgClientStartPeerContentServerResponse { installed_depots: xs.take(j), ..s });
        assert forall|j: int| 0 <= j < l.len() implies #[trigger] apply(st[j], l[j]) == Ok::<SpecCMsgClientStartPeerContentServerResponse, WireError>(st[j + 1]) by {
            lemma_u32_roundtrip(xs[j]);
            assert(xs.take(j) + seq![xs[j]] =~= xs.take(j + 1));
        }
        lemma_fold_chain(l, st, apply);
        assert(xs.take(0) =~= Seq::<u32>::empty());
        assert(xs.take(xs.len() as int) =~= xs);
        assert(st[0] == s);
        assert(st[xs.len() as int] == Self::spec_prefix(v, 3));
    }

    /// Reading field 4 back, after the fields before it.
    proof fn lemma_field_access_token(v: SpecCMsgClientStartPeerContentServerResponse)
        ensures
            fold_fields(Self::spec_prefix(v, 3), opt_u64(4, v.access_token), Self::apply_fn())
                == Ok::<SpecCMsgClientStartPeerContentServerResponse, WireError>(Self::spec_prefix(v, 4)),
    {
        reveal(CMsgClientStartPeerContentServerResponse::spec_prefix);
        reveal(opt_u64);
        let apply = Self::apply_fn();
        let s = Self::spec_prefix(v, 3);
        lemma_fold_opt(s, 4, match v.access_token { Some(x) => Some(enc_u64(x)), None => None }, apply);
        if let Some(x) = v.access_token {
            lemma_u64_roundtrip(x);
        }
        assert(SpecCMsgClientStartPeerContentServerResponse { access_token: v.access_token, ..s } == Self::spec_prefix(v, 4));
    }

    /// Whether this message declares field number `n`.
    pub open spec fn declares(n: u32) -> bool {
        n == 1 || n == 2 || n == 3 || n == 4
    }

    /// A record with a number this message does not declare is passed over: well-formed
    /// bytes decode to the same message with such a record after them as without it.
    pub proof fn lemma_unknown_field(bytes: Seq<u8>, f: SpecField)
        requires
            parse_fields(bytes) is Ok,
            field_wf(f),
            !Self::declares(f.number),
        ensures
            Self::spec_decode(bytes + field_bytes(f)) == Self::spec_decode(bytes),
    {
        reveal(CMsgClientStartPeerContentServerResponse::spec_decode);
        lemma_parse_fields_append(bytes, f);
        let fs = parse_fields(bytes).unwrap();
        let apply = Self::apply_fn();
        lemma_fold_concat(Self::spec_default(), fs, seq![f], apply);
        assert(fs.push(f) =~= fs + seq![f]);
        if let Ok(w) = fold_fields(Self::spec_default(), fs, apply) {
            lemma_fold_single(w, f, apply);
        }
        lemma_merge_run_fold(Self::spec_default(), bytes, apply);
        lemma_merge_run_fold(Self::spec_default(), bytes + field_bytes(f), apply);
    }

    /// Decoding the encoding of a message gives the message back.
    pub proof fn lemma_decode_encode(v: SpecCMsgClientStartPeerContentServerResponse)
        requires
            Self::spec_encode(v).len() <= u64::MAX,
        ensures
            Self::spec_decode(Self::spec_encode(v)) == Ok::<SpecCMsgClientStartPeerContentServerResponse, WireError>(v),
    {
        let apply = Self::apply_fn();
        let d = Self::spec_default();
        let p0 = Seq::<SpecField>::empty();
        let l1 = opt_u32(1, v.result);
        let p1 = p0 + l1;
        let l2 = opt_u32(2, v.server_port);
        let p2 = p1 + l2;
        let l3 = rep_u32(3, v.installed_depots);
        let p3 = p2 + l3;
        let l4 = opt_u64(4, v.access_token);
        let p4 = p3 + l4;
        assert(parse_fields(Self::spec_encode(v)) == Ok::<Seq<SpecField>, WireError>(p4)) by {
            reveal(CMsgClientStartPeerContentServerResponse::spec_encode);
            assert(numbers_ok(p0) && fields_wf(p0)) by {
                reveal(numbers_ok);
                reveal(fields_wf);
            }
            lemma_opt_u32_numbered(1, v.result);
            lemma_fields_wf_concat(p0, l1);
            lemma_opt_u32_numbered(2, v.server_port);
            lemma_fields_wf_concat(p1, l2);
            lemma_rep_u32_numbered(3, v.installed_depots);
            lemma_fields_wf_concat(p2, l3);
            lemma_opt_u64_numbered(4, v.access_token);
            lemma_fields_wf_concat(p3, l4);
            assert(p4 == Self::spec_fields(v));
            lemma_fields_wf_from_len(p4);
            lemma_fields_roundtrip(p4);
        }
        assert(Self::spec_prefix(v, 0) == d) by {
            reveal(CMsgClientStartPeerContentServerResponse::spec_prefix);
        }
        lemma_fold_empty(d, apply);
        lemma_fold_concat(d, p0, l1, apply);
        Self::lemma_field_result(v);
        lemma_fold_concat(d, p1, l2, apply);
        Self::lemma_field_server_port(v);
        lemma_fold_concat(d, p2, l3, apply);
        Self::lemma_field_installed_depots(v);
        lemma_fold_concat(d, p3, l4, apply);
        Self::lemma_field_access_token(v);
        assert(Self::spec_prefix(v, 4) == v) by {
            reveal(CMsgClientStartPeerContentServerResponse::spec_prefix);
        }
        lemma_merge_run_fold(d, Self::spec_encode(v), apply);
        assert(Self::spec_decode(Self::spec_encode(v)) == Ok::<SpecCMsgClientStartPeerContentServerResponse, WireError>(v)) by {
            reveal(CMsgClientStartPeerContentServerResponse::spec_decode);
        }
    }
}

/// `CMsgClientGetPeerContentInfo`, as Valve's schema declares it.
#[derive(Debug, Clone, PartialEq)]
pub struct CMsgClientGetPeerContentInfo {
    /// Field 1.
    pub steamid: Option<u64>,
    /// Field 2.
    pub client_remote_id: Option<u64>,
    /// Field 3.
    pub owned_games_visible: Option<bool>,
}

/// What a `CMsgClientGetPeerContentInfo` holds, as mathematical values.
#[verifier::ext_equal]
pub struct SpecCMsgClientGetPeerContentInfo {
    pub steamid: Option<u64>,
    pub client_remote_id: Option<u64>,
    pub owned_games_visible: Option<bool>,
}

impl View for CMsgClientGetPeerContentInfo {
    type V = SpecCMsgClientGetPeerContentInfo;

    open spec fn view(&self) -> SpecCMsgClientGetPeerContentInfo {
        SpecCMsgClientGetPeerContentInfo {
            steamid: self.steamid,
            client_remote_id: self.client_remote_id,
            owned_games_visible: self.owned_games_visible,
        }
    }
}

impl Default for CMsgClientGetPeerContentInfo {
    fn default() -> (r: Self)
        ensures
            r@ == CMsgClientGetPeerContentInfo::spec_default(),
    {
        CMsgClientGetPeerContentInfo {
            steamid: None,
            client_remote_id: None,
            owned_games_visible: None,
        }
    }
}

impl CMsgClientGetPeerContentInfo {
    pub open spec fn spec_default() -> SpecCMsgClientGetPeerContentInfo {
        SpecCMsgClientGetPeerContentInfo {
            steamid: None,
            client_remote_id: None,
            owned_games_visible: None,
        }
    }

    /// The records a `CMsgClientGetPeerContentInfo` is written as, in field order.
    pub open spec fn spec_fields(v: SpecCMsgClientGetPeerContentInfo) -> Seq<SpecField> {
        Seq::<SpecField>::empty()
            + opt_fixed64(1, v.steamid)
            + opt_fixed64(2, v.client_remote_id)
            + opt_bool(3, v.owned_games_visible)
    }

    #[verifier::opaque]
    pub open spec fn spec_encode(v: SpecCMsgClientGetPeerContentInfo) -> Seq<u8> {
        fields_bytes(Self::spec_fields(v))
    }

    /// What one record does to the message: a declared number sets or extends its
    /// field, any other number is left alone.
    pub open spec fn spec_apply(v: SpecCMsgClientGetPeerContentInfo, f: SpecField) -> Result<SpecCMsgClientGetPeerContentInfo, WireError> {
        match f.number {
            1 => match dec_fixed64(f.value) {
                Ok(x) => Ok(SpecCMsgClientGetPeerContentInfo { steamid: Some(x), ..v }),
                Err(e) => Err(e),
            },
            2 => match dec_fixed64(f.value) {
                Ok(x) => Ok(SpecCMsgClientGetPeerContentInfo { client_remote_id: Some(x), ..v }),
                Err(e) => Err(e),
            },
            3 => match dec_bool(f.value) {
                Ok(x) => Ok(SpecCMsgClientGetPeerContentInfo { owned_games_visible: Some(x), ..v }),
                Err(e) => Err(e),
            },
            _ => Ok(v),
        }
    }

    pub open spec fn apply_fn() -> spec_fn(SpecCMsgClientGetPeerContentInfo, SpecField) -> Result<SpecCMsgClientGetPeerContentInfo, WireError> {
        |v: SpecCMsgClientGetPeerContentInfo, f: SpecField| Self::spec_apply(v, f)
    }

    /// The message `bytes` makes of `v`: its records applied in order, or the error
    /// that stops the reading.
    pub open spec fn spec_merge(v: SpecCMsgClientGetPeerContentInfo, bytes: Seq<u8>) -> Result<SpecCMsgClientGetPeerContentInfo, WireError> {
        let (w, stop) = merge_run(v, bytes, Self::apply_fn());
        match stop {
            None => Ok(w),
            Some(e) => Err(e),
        }
    }

    #[verifier::opaque]
    pub open spec fn spec_decode(bytes: Seq<u8>) -> Result<SpecCMsgClientGetPeerContentInfo, WireError> {
        Self::spec_merge(Self::spec_default(), bytes)
    }

    /// This message with one record applied to it, or, when the record is refused,
    /// the message unchanged and the reason.
    fn applied(self, f: &Field) -> (r: Result<Self, (Self, WireError)>)
        ensures
            match Self::spec_apply(self@, f@) {
                Ok(v) => r matches Ok(m) && m@ == v,
                Err(e) => r matches Err((m, x)) && x == e && m@ == self@,
            },
    {
        match f.number {
            1 => match read_fixed64(&f.value) {
                Ok(x) => Ok(Self { steamid: Some(x), ..self }),
                Err(e) => Err((self, e)),
            },
            2 => match read_fixed64(&f.value) {
                Ok(x) => Ok(Self { client_remote_id: Some(x), ..self }),
                Err(e) => Err((self, e)),
            },
            3 => match read_bool(&f.value) {
                Ok(x) => Ok(Self { owned_games_visible: Some(x), ..self }),
                Err(e) => Err((self, e)),
            },
            _ => Ok(self),
        }
    }

    /// Reads the records `bytes` holds into this message, in order. When a record does
    /// not parse or is refused, the reading stops there: the message keeps what the
    /// records before it gave, and the error is returned.
    pub fn merge(&mut self, bytes: &[u8]) -> (r: Result<(), WireError>)
        ensures
            final(self)@ == merge_run(old(self)@, bytes@, Self::apply_fn()).0,
            r == match merge_run(old(self)@, bytes@, Self::apply_fn()).1 {
                None => Ok::<(), WireError>(()),
                Some(e) => Err::<(), WireError>(e),
            },
    {
        let ghost total = merge_run(self@, bytes@, Self::apply_fn());
        let mut cur = Self::default();
        std::mem::swap(&mut cur, self);
        let mut pos: usize = 0;
        assert(bytes@.skip(0) =~= bytes@);
        while pos < bytes.len()
            invariant
                pos <= bytes@.len(),
                total == merge_run(old(self)@, bytes@, Self::apply_fn()),
                merge_run(cur@, bytes@.skip(pos as int), Self::apply_fn()) == total,
            decreases bytes@.len() - pos,
        {
            let ghost s = bytes@.skip(pos as int);
            proof {
                lemma_merge_run_step(cur@, s, Self::apply_fn());
                lemma_parse_field_len(s);
            }
            match read_field(bytes, pos) {
                Ok((f, end)) => {
                    assert(bytes@.skip(end as int) =~= s.skip((end - pos) as int));
                    match cur.applied(&f) {
                        Ok(m) => {
                            cur = m;
                        },
                        Err((m, e)) => {
                            *self = m;
                            return Err(e);
                        },
                    }
                    pos = end;
                },
                Err(e) => {
                    *self = cur;
                    return Err(e);
                },
            }
        }
        assert(bytes@.skip(pos as int) =~= Seq::<u8>::empty());
        proof {
            lemma_merge_run_empty(cur@, Self::apply_fn());
        }
        *self = cur;
        Ok(())
    }

    /// Decodes a message from its encoding.
    pub fn decode(bytes: &[u8]) -> (r: Result<Self, WireError>)
        ensures
            match Self::spec_decode(bytes@) {
                Ok(v) => r matches Ok(m) && m@ == v,
                Err(e) => r matches Err(x) && x == e,
            },
    {
        proof {
            reveal(CMsgClientGetPeerContentInfo::spec_decode);
        }
        let mut m = Self::default();
        match m.merge(bytes) {
            Ok(()) => Ok(m),
            Err(e) => Err(e),
        }
    }

    /// The encoding of this message.
    pub fn encode_to_vec(&self) -> (r: Vec<u8>)
        ensures
            r@ == Self::spec_encode(self@),
    {
        let ghost v = self@;
        let mut out: Vec<u8> = Vec::new();
        let ghost p0 = Seq::<SpecField>::empty();
        put_opt_fixed64(&mut out, 1, self.steamid);
        let ghost p1 = p0 + opt_fixed64(1, v.steamid);
        proof {
            lemma_fields_bytes_concat(p0, opt_fixed64(1, v.steamid));
        }
        put_opt_fixed64(&mut out, 2, self.client_remote_id);
        let ghost p2 = p1 + opt_fixed64(2, v.client_remote_id);
        proof {
            lemma_fields_bytes_concat(p1, opt_fixed64(2, v.client_remote_id));
        }
        put_opt_bool(&mut out, 3, self.owned_games_visible);
        let ghost p3 = p2 + opt_bool(3, v.owned_games_visible);
        proof {
            lemma_fields_bytes_concat(p2, opt_bool(3, v.owned_games_visible));
        }
        proof {
            reveal(CMsgClientGetPeerContentInfo::spec_encode);
        }
        assert(p3 == Self::spec_fields(v));
        out
    }

    /// Appends the encoding of this message to `out`.
    pub fn encode_raw(&self, out: &mut Vec<u8>)
        ensures
            final(out)@ == old(out)@ + Self::spec_encode(self@),
    {
        let mut b = self.encode_to_vec();
        out.append(&mut b);
    }

    /// The first `k` fields of `v`, the others as a fresh message has them.
    #[verifier::opaque]
    pub open spec fn spec_prefix(v: SpecCMsgClientGetPeerContentInfo, k: int) -> SpecCMsgClientGetPeerContentInfo {
        SpecCMsgClientGetPeerContentInfo {
            steamid: if 1 <= k { v.steamid } else { None },
            client_remote_id: if 2 <= k { v.client_remote_id } else { None },
            owned_games_visible: if 3 <= k { v.owned_games_visible } else { None },
        }
    }

    /// Reading field 1 back, after the fields before it.
    proof fn lemma_field_steamid(v: SpecCMsgClientGetPeerContentInfo)
        ensures
            fold_fields(Self::spec_prefix(v, 0), opt_fixed64(1, v.steamid), Self::apply_fn())
                == Ok::<SpecCMsgClientGetPeerContentInfo, WireError>(Self::spec_prefix(v, 1)),
    {
        reveal(CMsgClientGetPeerContentInfo::spec_prefix);
        reveal(opt_fixed64);
        let apply = Self::apply_fn();
        let s = Self::spec_prefix(v, 0);
        lemma_fold_opt(s, 1, match v.steamid { Some(x) => Some(enc_fixed64(x)), None => None }, apply);
        if let Some(x) = v.steamid {
            lemma_u64_roundtrip(x);
        }
        assert(SpecCMsgClientGetPeerContentInfo { steamid: v.steamid, ..s } == Self::spec_prefix(v, 1));
    }

    /// Reading field 2 back, after the fields before it.
    proof fn lemma_field_client_remote_id(v: SpecCMsgClientGetPeerContentInfo)
        ensures
            fold_fields(Self::spec_prefix(v, 1), opt_fixed64(2, v.client_remote_id), Self::apply_fn())
                == Ok::<SpecCMsgClientGetPeerContentInfo, WireError>(Self::spec_prefix(v, 2)),
    {
        reveal(CMsgClientGetPeerContentInfo::spec_prefix);
        reveal(opt_fixed64);
        let apply = Self::apply_fn();
        let s = Self::spec_prefix(v, 1);
        lemma_fold_opt(s, 2, match v.client_remote_id { Some(x) => Some(enc_fixed64(x)), None => None }, apply);
        if let Some(x) = v.client_remote_id {
            lemma_u64_roundtrip(x);
        }
        assert(SpecCMsgClientGetPeerContentInfo { client_remote_id: v.client_remote_id, ..s } == Self::spec_prefix(v, 2));
    }

    /// Reading field 3 back, after the fields before it.
    proof fn lemma_field_owned_games_visible(v: SpecCMsgClientGetPeerContentInfo)
        ensures
            fold_fields(Self::spec_prefix(v, 2), opt_bool(3, v.owned_games_visible), Self::apply_fn())
                == Ok::<SpecCMsgClientGetPeerContentInfo, WireError>(Self::spec_prefix(v, 3)),
    {
        reveal(CMsgClientGetPeerContentInfo::spec_prefix);
        reveal(opt_bool);
        let apply = Self::apply_fn();
        let s = Self::spec_prefix(v, 2);
        lemma_fold_opt(s, 3, match v.owned_games_visible { Some(x) => Some(enc_bool(x)), None => None }, apply);
        assert(SpecCMsgClientGetPeerContentInfo { owned_games_visible: v.owned_games_visible, ..s } == Self::spec_prefix(v, 3));
    }

    /// Whether this message declares field number `n`.
    pub open spec fn declares(n: u32) -> bool {
        n == 1 || n == 2 || n == 3
    }

    /// A record with a number this message does not declare is passed over: well-formed
    /// bytes decode to the same message with such a record after them as without it.
    pub proof fn lemma_unknown_field(bytes: Seq<u8>, f: SpecField)
        requires
            parse_fields(bytes) is Ok,
            field_wf(f),
            !Self::declares(f.number),
        ensures
            Self::spec_decode(bytes + field_bytes(f)) == Self::spec_decode(bytes),
    {
        reveal(CMsgClientGetPeerContentInfo::spec_decode);
        lemma_parse_fields_append(bytes, f);
        let fs = parse_fields(bytes).unwrap();
        let apply = Self::apply_fn();
        lemma_fold_concat(Self::spec_default(), fs, seq![f], apply);
        assert(fs.push(f) =~= fs + seq![f]);
        if let Ok(w) = fold_fields(Self::spec_default(), fs, apply) {
            lemma_fold_single(w, f, apply);
        }
        lemma_merge_run_fold(Self::spec_default(), bytes, apply);
        lemma_merge_run_fold(Self::spec_default(), bytes + field_bytes(f), apply);
    }

    /// Decoding the encoding of a message gives the message back.
    pub proof fn lemma_decode_encode(v: SpecCMsgClientGetPeerContentInfo)
        requires
            Self::spec_encode(v).len() <= u64::MAX,
        ensures
            Self::spec_decode(Self::spec_encode(v)) == Ok::<SpecCMsgClientGetPeerContentInfo, WireError>(v),
    {
        let apply = Self::apply_fn();
        let d = Self::spec_default();
        let p0 = Seq::<SpecField>::empty();
        let l1 = opt_fixed64(1, v.steamid);
        let p1 = p0 + l1;
        let l2 = opt_fixed64(2, v.client_remote_id);
        let p2 = p1 + l2;
        let l3 = opt_bool(3, v.owned_games_visible);
        let p3 = p2 + l3;
        assert(parse_fields(Self::spec_encode(v)) == Ok::<Seq<SpecField>, WireError>(p3)) by {
            reveal(CMsgClientGetPeerContentInfo::spec_encode);
            assert(numbers_ok(p0) && fields_wf(p0)) by {
                reveal(numbers_ok);
                reveal(fields_wf);
            }
            lemma_opt_fixed64_numbered(1, v.steamid);
            lemma_fields_wf_concat(p0, l1);
            lemma_opt_fixed64_numbered(2, v.client_remote_id);
            lemma_fields_wf_concat(p1, l2);
            lemma_opt_bool_numbered(3, v.owned_games_visible);
            lemma_fields_wf_concat(p2, l3);
            assert(p3 == Self::spec_fields(v));
            lemma_fields_wf_from_len(p3);
            lemma_fields_roundtrip(p3);
        }
        assert(Self::spec_prefix(v, 0) == d) by {
            reveal(CMsgClientGetPeerContentInfo::spec_prefix);
        }
        lemma_fold_empty(d, apply);
        lemma_fold_concat(d, p0, l1, apply);
        Self::lemma_field_steamid(v);
        lemma_fold_concat(d, p1, l2, apply);
        Self::lemma_field_client_remote_id(v);
        lemma_fold_concat(d, p2, l3, apply);
        Self::lemma_field_owned_games_visible(v);
        assert(Self::spec_prefix(v, 3) == v) by {
            reveal(CMsgClientGetPeerContentInfo::spec_prefix);
        }
        lemma_merge_run_fold(d, Self::spec_encode(v), apply);
        assert(Self::spec_decode(Self::spec_encode(v)) == Ok::<SpecCMsgClientGetPeerContentInfo, WireError>(v)) by {
            reveal(CMsgClientGetPeerContentInfo::spec_decode);
        }
    }
}

/// `CMsgClientGetPeerContentInfoResponse`, as Valve's schema declares it.
#[derive(Debug, Clone, PartialEq)]
pub struct CMsgClientGetPeerContentInfoResponse {
    /// Field 1.
    pub result: Option<u32>,
    /// Field 2.
    pub apps: Vec<u32>,
}

/// What a `CMsgClientGetPeerContentInfoResponse` holds, as mathematical values.
#[verifier::ext_equal]
pub struct SpecCMsgClientGetPeerContentInfoResponse {
    pub result: Option<u32>,
    pub apps: Seq<u32>,
}

impl View for CMsgClientGetPeerContentInfoResponse {
    type V = SpecCMsgClientGetPeerContentInfoResponse;

    open spec fn view(&self) -> SpecCMsgClientGetPeerContentInfoResponse {
        SpecCMsgClientGetPeerContentInfoResponse {
            result: self.result,
            apps: self.apps@,
        }
    }
}

impl Default for CMsgClientGetPeerContentInfoResponse {
    fn default() -> (r: Self)
        ensures
            r@ == CMsgClientGetPeerContentInfoResponse::spec_default(),
    {
        CMsgClientGetPeerContentInfoResponse {
            result: None,
            apps: Vec::new(),
        }
    }
}

impl CMsgClientGetPeerContentInfoResponse {
    pub open spec fn spec_default() -> SpecCMsgClientGetPeerContentInfoResponse {
        SpecCMsgClientGetPeerContentInfoResponse {
            result: None,
            apps: Seq::empty(),
        }
    }

    /// The records a `CMsgClientGetPeerContentInfoResponse` is written as, in field order.
    pub open spec fn spec_fields(v: SpecCMsgClientGetPeerContentInfoResponse) -> Seq<SpecField> {
        Seq::<SpecField>::empty()
            + opt_u32(1, v.result)
            + rep_u32(2, v.apps)
    }

    #[verifier::opaque]
    pub open spec fn spec_encode(v: SpecCMsgClientGetPeerContentInfoResponse) -> Seq<u8> {
        fields_bytes(Self::spec_fields(v))
    }

    /// What one record does to the message: a declared number sets or extends its
    /// field, any other number is left alone.
    pub open spec fn spec_apply(v: SpecCMsgClientGetPeerContentInfoResponse, f: SpecField) -> Result<SpecCMsgClientGetPeerContentInfoResponse, WireError> {
        match f.number {
            1 => match dec_u32(f.value) {
                Ok(x) => Ok(SpecCMsgClientGetPeerContentInfoResponse { result: Some(x), ..v }),
                Err(e) => Err(e),
            },
            2 => match dec_packed_u32(f.value) {
                Ok(xs) => Ok(SpecCMsgClientGetPeerContentInfoResponse { apps: v.apps + xs, ..v }),
                Err(e) => Err(e),
            },
            _ => Ok(v),
        }
    }

    pub open spec fn apply_fn() -> spec_fn(SpecCMsgClientGetPeerContentInfoResponse, SpecField) -> Result<SpecCMsgClientGetPeerContentInfoResponse, WireError> {
        |v: SpecCMsgClientGetPeerContentInfoResponse, f: SpecField| Self::spec_apply(v, f)
    }

    /// The message `bytes` makes of `v`: its records applied in order, or the error
    /// that stops the reading.
    pub open spec fn spec_merge(v: SpecCMsgClientGetPeerContentInfoResponse, bytes: Seq<u8>) -> Result<SpecCMsgClientGetPeerContentInfoResponse, WireError> {
        let (w, stop) = merge_run(v, bytes, Self::apply_fn());
        match stop {
            None => Ok(w),
            Some(e) => Err(e),
        }
    }

    #[verifier::opaque]
    pub open spec fn spec_decode(bytes: Seq<u8>) -> Result<SpecCMsgClientGetPeerContentInfoResponse, WireError> {
        Self::spec_merge(Self::spec_default(), bytes)
    }

    /// This message with one record applied to it, or, when the record is refused,
    /// the message unchanged and the reason.
    fn applied(self, f: &Field) -> (r: Result<Self, (Self, WireError)>)
        ensures
            match Self::spec_apply(self@, f@) {
                Ok(v) => r matches Ok(m) && m@ == v,
                Err(e) => r matches Err((m, x)) && x == e && m@ == self@,
            },
    {
        match f.number {
            1 => match read_u32(&f.value) {
                Ok(x) => Ok(Self { result: Some(x), ..self }),
                Err(e) => Err((self, e)),
            },
            2 => match read_packed_u32(&f.value) {
                Ok(xs) => {
                    let mut m = self;
                    let mut xs = xs;
                    m.apps.append(&mut xs);
                    Ok(m)
                },
                Err(e) => Err((self, e)),
            },
            _ => Ok(self),
        }
    }

    /// Reads the records `bytes` holds into this message, in order. When a record does
    /// not parse or is refused, the reading stops there: the message keeps what the
    /// records before it gave, and the error is returned.
    pub fn merge(&mut self, bytes: &[u8]) -> (r: Result<(), WireError>)
        ensures
            final(self)@ == merge_run(old(self)@, bytes@, Self::apply_fn()).0,
            r == match merge_run(old(self)@, bytes@, Self::apply_fn()).1 {
                None => Ok::<(), WireError>(()),
                Some(e) => Err::<(), WireError>(e),
            },
    {
        let ghost total = merge_run(self@, bytes@, Self::apply_fn());
        let mut cur = Self::default();
        std::mem::swap(&mut cur, self);
        let mut pos: usize = 0;
        assert(bytes@.skip(0) =~= bytes@);
        while pos < bytes.len()
            invariant
                pos <= bytes@.len(),
                total == merge_run(old(self)@, bytes@, Self::apply_fn()),
                merge_run(cur@, bytes@.skip(pos as int), Self::apply_fn()) == total,
            decreases bytes@.len() - pos,
        {
            let ghost s = bytes@.skip(pos as int);
            proof {
                lemma_merge_run_step(cur@, s, Self::apply_fn());
                lemma_parse_field_len(s);
            }
            match read_field(bytes, pos) {
                Ok((f, end)) => {
                    assert(bytes@.skip(end as int) =~= s.skip((end - pos) as int));
                    match cur.applied(&f) {
                        Ok(m) => {
                            cur = m;
                        },
                        Err((m, e)) => {
                            *self = m;
                            return Err(e);
                        },
                    }
                    pos = end;
                },
                Err(e) => {
                    *self = cur;
                    return Err(e);
                },
            }
        }
        assert(bytes@.skip(pos as int) =~= Seq::<u8>::empty());
        proof {
            lemma_merge_run_empty(cur@, Self::apply_fn());
        }
        *self = cur;
        Ok(())
    }

    /// Decodes a message from its encoding.
    pub fn decode(bytes: &[u8]) -> (r: Result<Self, WireError>)
        ensures
            match Self::spec_decode(bytes@) {
                Ok(v) => r matches Ok(m) && m@ == v,
                Err(e) => r matches Err(x) && x == e,
            },
    {
        proof {
            reveal(CMsgClientGetPeerContentInfoResponse::spec_decode);
        }
        let mut m = Self::default();
        match m.merge(bytes) {
            Ok(()) => Ok(m),
            Err(e) => Err(e),
        }
    }

    /// The encoding of this message.
    pub fn encode_to_vec(&self) -> (r: Vec<u8>)
        ensures
            r@ == Self::spec_encode(self@),
    {
        let ghost v = self@;
        let mut out: Vec<u8> = Vec::new();
        let ghost p0 = Seq::<SpecField>::empty();
        put_opt_u32(&mut out, 1, self.result);
        let ghost p1 = p0 + opt_u32(1, v.result);
        proof {
            lemma_fields_bytes_concat(p0, opt_u32(1, v.result));
        }
        put_rep_u32(&mut out, 2, &self.apps);
        let ghost p2 = p1 + rep_u32(2, v.apps);
        proof {
            lemma_fields_bytes_concat(p1, rep_u32(2, v.apps));
        }
        proof {
            reveal(CMsgClientGetPeerContentInfoResponse::spec_encode);
        }
        assert(p2 == Self::spec_fields(v));
        out
    }

    /// Appends the encoding of this message to `out`.
    pub fn encode_raw(&self, out: &mut Vec<u8>)
        ensures
            final(out)@ == old(out)@ + Self::spec_encode(self@),
    {
        let mut b = self.encode_to_vec();
        out.append(&mut b);
    }

    /// The first `k` fields of `v`, the others as a fresh message has them.
    #[verifier::opaque]
    pub open spec fn spec_prefix(v: SpecCMsgClientGetPeerContentInfoResponse, k: int) -> SpecCMsgClientGetPeerContentInfoResponse {
        SpecCMsgClientGetPeerContentInfoResponse {
            result: if 1 <= k { v.result } else { None },
            apps: if 2 <= k { v.apps } else { Seq::empty() },
        }
    }

    /// Reading field 1 back, after the fields before it.
    proof fn lemma_field_result(v: SpecCMsgClientGetPeerContentInfoResponse)
        ensures
            fold_fields(Self::spec_prefix(v, 0), opt_u32(1, v.result), Self::apply_fn())
                == Ok::<SpecCMsgClientGetPeerContentInfoResponse, WireError>(Self::spec_prefix(v, 1)),
    {
        reveal(CMsgClientGetPeerContentInfoResponse::spec_prefix);
        reveal(opt_u32);
        let apply = Self::apply_fn();
        let s = Self::spec_prefix(v, 0);
        lemma_fold_opt(s, 1, match v.result { Some(x) => Some(enc_u32(x)), None => None }, apply);
        if let Some(x) = v.result {
            lemma_u32_roundtrip(x);
        }
        assert(SpecCMsgClientGetPeerContentInfoResponse { result: v.result, ..s } == Self::spec_prefix(v, 1));
    }

    /// Reading field 2 back, after the fields before it.
    proof fn lemma_field_apps(v: SpecCMsgClientGetPeerContentInfoResponse)
        ensures
            fold_fields(Self::spec_prefix(v, 1), rep_u32(2, v.apps), Self::apply_fn())
                == Ok::<SpecCMsgClientGetPeerContentInfoResponse, WireError>(Self::spec_prefix(v, 2)),
    {
        reveal(CMsgClientGetPeerContentInfoResponse::spec_prefix);
        reveal(rep_u32);
        let apply = Self::apply_fn();
        let s = Self::spec_prefix(v, 1);
        let l = rep_u32(2, v.apps);
        let xs = v.apps;
        let st = Seq::new((xs.len() + 1) as nat, |j: int| SpecCMsgClientGetPeerContentInfoResponse { apps: xs.take(j), ..s });
        assert forall|j: int| 0 <= j < l.len() implies #[trigger] apply(st[j], l[j]) == Ok::<SpecCMsgClientGetPeerContentInfoResponse, WireError>(st[j + 1]) by {
            lemma_u32_roundtrip(xs[j]);
            assert(xs.take(j) + seq![xs[j]] =~= xs.take(j + 1));
        }
        lemma_fold_chain(l, st, apply);
        assert(xs.take(0) =~= Seq::<u32>::empty());
        assert(xs.take(xs.len() as int) =~= xs);
        assert(st[0] == s);
        assert(st[xs.len() as int] == Self::spec_prefix(v, 2));
    }

    /// Whether this message declares field number `n`.
    pub open spec fn declares(n: u32) -> bool {
        n == 1 || n == 2
    }

    /// A record with a number this message does not declare is passed over: well-formed
    /// bytes decode to the same message with such a record after them as without it.
    pub proof fn lemma_unknown_field(bytes: Seq<u8>, f: SpecField)
        requires
            parse_fields(bytes) is Ok,
            field_wf(f),
            !Self::declares(f.number),
        ensures
            Self::spec_decode(bytes + field_bytes(f)) == Self::spec_decode(bytes),
    {
        reveal(CMsgClientGetPeerContentInfoResponse::spec_decode);
        lemma_parse_fields_append(bytes, f);
        let fs = parse_fields(bytes).unwrap();
        let apply = Self::apply_fn();
        lemma_fold_concat(Self::spec_default(), fs, seq![f], apply);
        assert(fs.push(f) =~= fs + seq![f]);
        if let Ok(w) = fold_fields(Self::spec_default(), fs, apply) {
            lemma_fold_single(w, f, apply);
        }
        lemma_merge_run_fold(Self::spec_default(), bytes, apply);
        lemma_merge_run_fold(Self::spec_default(), bytes + field_bytes(f), apply);
    }

    /// Decoding the encoding of a message gives the message back.
    pub proof fn lemma_decode_encode(v: SpecCMsgClientGetPeerContentInfoResponse)
        requires
            Self::spec_encode(v).len() <= u64::MAX,
        ensures
            Self::spec_decode(Self::spec_encode(v)) == Ok::<SpecCMsgClientGetPeerContentInfoResponse, WireError>(v),
    {
        let apply = Self::apply_fn();
        let d = Self::spec_default();
        let p0 = Seq::<SpecField>::empty();
        let l1 = opt_u32(1, v.result);
        let p1 = p0 + l1;
        let l2 = rep_u32(2, v.apps);
        let p2 = p1 + l2;
        assert(parse_fields(Self::spec_encode(v)) == Ok::<Seq<SpecField>, WireError>(p2)) by {
            reveal(CMsgClientGetPeerContentInfoResponse::spec_encode);
            assert(numbers_ok(p0) && fields_wf(p0)) by {
                reveal(numbers_ok);
                reveal(fields_wf);
            }
            lemma_opt_u32_numbered(1, v.result);
            lemma_fields_wf_concat(p0, l1);
            lemma_rep_u32_numbered(2, v.apps);
            lemma_fields_wf_concat(p1, l2);
            assert(p2 == Self::spec_fields(v));
            lemma_fields_wf_from_len(p2);
            lemma_fields_roundtrip(p2);
        }
        assert(Self::spec_prefix(v, 0) == d) by {
            reveal(CMsgClientGetPeerContentInfoResponse::spec_prefix);
        }
        lemma_fold_empty(d, apply);
        lemma_fold_concat(d, p0, l1, apply);
        Self::lemma_field_result(v);
        lemma_fold_concat(d, p1, l2, apply);
        Self::lemma_field_apps(v);
        assert(Self::spec_prefix(v, 2) == v) by {
            reveal(CMsgClientGetPeerContentInfoResponse::spec_prefix);
        }
        lemma_merge_run_fold(d, Self::spec_encode(v), apply);
        assert(Self::spec_decode(Self::spec_encode(v)) == Ok::<SpecCMsgClientGetPeerContentInfoResponse, WireError>(v)) by {
            reveal(CMsgClientGetPeerContentInfoResponse::spec_decode);
        }
    }
}

/// `CMsgClientPendingGameLaunch`, as Valve's schema declares it.
#[derive(Debug, Clone, PartialEq)]
pub struct CMsgClientPendingGameLaunch {
    /// Field 1.
    pub app_id: Option<u32>,
}

/// What a `CMsgClientPendingGameLaunch` holds, as mathematical values.
#[verifier::ext_equal]
pub struct SpecCMsgClientPendingGameLaunch {
    pub app_id: Option<u32>,
}

impl View for CMsgClientPendingGameLaunch {
    type V = SpecCMsgClientPendingGameLaunch;

    open spec fn view(&self) -> SpecCMsgClientPendingGameLaunch {
        SpecCMsgClientPendingGameLaunch {
            app_id: self.app_id,
        }
    }
}

impl Default for CMsgClientPendingGameLaunch {
    fn default() -> (r: Self)
        ensures
            r@ == CMsgClientPendingGameLaunch::spec_default(),
    {
        CMsgClientPendingGameLaunch {
            app_id: None,
        }
    }
}

impl CMsgClientPendingGameLaunch {
    pub open spec fn spec_default() -> SpecCMsgClientPendingGameLaunch {
        SpecCMsgClientPendingGameLaunch {
            app_id: None,
        }
    }

    /// The records a `CMsgClientPendingGameLaunch` is written as, in field order.
    pub open spec fn spec_fields(v: SpecCMsgClientPendingGameLaunch) -> Seq<SpecField> {
        Seq::<SpecField>::empty()
            + opt_u32(1, v.app_id)
    }

    #[verifier::opaque]
    pub open spec fn spec_encode(v: SpecCMsgClientPendingGameLaunch) -> Seq<u8> {
        fields_bytes(Self::spec_fields(v))
    }

    /// What one record does to the message: a declared number sets or extends its
    /// field, any other number is left alone.
    pub open spec fn spec_apply(v: SpecCMsgClientPendingGameLaunch, f: SpecField) -> Result<SpecCMsgClientPendingGameLaunch, WireError> {
        match f.number {
            1 => match dec_u32(f.value) {
                Ok(x) => Ok(SpecCMsgClientPendingGameLaunch { app_id: Some(x), ..v }),
                Err(e) => Err(e),
            },
            _ => Ok(v),
        }
    }

    pub open spec fn apply_fn() -> spec_fn(SpecCMsgClientPendingGameLaunch, SpecField) -> Result<SpecCMsgClientPendingGameLaunch, WireError> {
        |v: SpecCMsgClientPendingGameLaunch, f: SpecField| Self::spec_apply(v, f)
    }

    /// The message `bytes` makes of `v`: its records applied in order, or the error
    /// that stops the reading.
    pub open spec fn spec_merge(v: SpecCMsgClientPendingGameLaunch, bytes: Seq<u8>) -> Result<SpecCMsgClientPendingGameLaunch, WireError> {
        let (w, stop) = merge_run(v, bytes, Self::apply_fn());
        match stop {
            None => Ok(w),
            Some(e) => Err(e),
        }
    }

    #[verifier::opaque]
    pub open spec fn spec_decode(bytes: Seq<u8>) -> Result<SpecCMsgClientPendingGameLaunch, WireError> {
        Self::spec_merge(Self::spec_default(), bytes)
    }

    /// This message with one record applied to it, or, when the record is refused,
    /// the message unchanged and the reason.
    fn applied(self, f: &Field) -> (r: Result<Self, (Self, WireError)>)
        ensures
            match Self::spec_apply(self@, f@) {
                Ok(v) => r matches Ok(m) && m@ == v,
                Err(e) => r matches Err((m, x)) && x == e && m@ == self@,
            },
    {
        match f.number {
            1 => match read_u32(&f.value) {
                Ok(x) => Ok(Self { app_id: Some(x), ..self }),
                Err(e) => Err((self, e)),
            },
            _ => Ok(self),
        }
    }

    /// Reads the records `bytes` holds into this message, in order. When a record does
    /// not parse or is refused, the reading stops there: the message keeps what the
    /// records before it gave, and the error is returned.
    pub fn merge(&mut self, bytes: &[u8]) -> (r: Result<(), WireError>)
        ensures
            final(self)@ == merge_run(old(self)@, bytes@, Self::apply_fn()).0,
            r == match merge_run(old(self)@, bytes@, Self::apply_fn()).1 {
                None => Ok::<(), WireError>(()),
                Some(e) => Err::<(), WireError>(e),
            },
    {
        let ghost total = merge_run(self@, bytes@, Self::apply_fn());
        let mut cur = Self::default();
        std::mem::swap(&mut cur, self);
        let mut pos: usize = 0;
        assert(bytes@.skip(0) =~= bytes@);
        while pos < bytes.len()
            invariant
                pos <= bytes@.len(),
                total == merge_run(old(self)@, bytes@, Self::apply_fn()),
                merge_run(cur@, bytes@.skip(pos as int), Self::apply_fn()) == total,
            decreases bytes@.len() - pos,
        {
            let ghost s = bytes@.skip(pos as int);
            proof {
                lemma_merge_run_step(cur@, s, Self::apply_fn());
                lemma_parse_field_len(s);
            }
            match read_field(bytes, pos) {
                Ok((f, end)) => {
                    assert(bytes@.skip(end as int) =~= s.skip((end - pos) as int));
                    match cur.applied(&f) {
                        Ok(m) => {
                            cur = m;
                        },
                        Err((m, e)) => {
                            *self = m;
                            return Err(e);
                        },
                    }
                    pos = end;
                },
                Err(e) => {
                    *self = cur;
                    return Err(e);
                },
            }
        }
        assert(bytes@.skip(pos as int) =~= Seq::<u8>::empty());
        proof {
            lemma_merge_run_empty(cur@, Self::apply_fn());
        }
        *self = cur;
        Ok(())
    }

    /// Decodes a message from its encoding.
    pub fn decode(bytes: &[u8]) -> (r: Result<Self, WireError>)
        ensures
            match Self::spec_decode(bytes@) {
                Ok(v) => r matches Ok(m) && m@ == v,
                Err(e) => r matches Err(x) && x == e,
            },
    {
        proof {
            reveal(CMsgClientPendingGameLaunch::spec_decode);
        }
        let mut m = Self::default();
        match m.merge(bytes) {
            Ok(()) => Ok(m),
            Err(e) => Err(e),
        }
    }

    /// The encoding of this message.
    pub fn encode_to_vec(&self) -> (r: Vec<u8>)
        ensures
            r@ == Self::spec_encode(self@),
    {
        let ghost v = self@;
        let mut out: Vec<u8> = Vec::new();
        let ghost p0 = Seq::<SpecField>::empty();
        put_opt_u32(&mut out, 1, self.app_id);
        let ghost p1 = p0 + opt_u32(1, v.app_id);
        proof {
            lemma_fields_bytes_concat(p0, opt_u32(1, v.app_id));
        }
        proof {
            reveal(CMsgClientPendingGameLaunch::spec_encode);
        }
        assert(p1 == Self::spec_fields(v));
        out
    }

    /// Appends the encoding of this message to `out`.
    pub fn encode_raw(&self, out: &mut Vec<u8>)
        ensures
            final(out)@ == old(out)@ + Self::spec_encode(self@),
    {
        let mut b = self.encode_to_vec();
        out.append(&mut b);
    }

    /// The first `k` fields of `v`, the others as a fresh message has them.
    #[verifier::opaque]
    pub open spec fn spec_prefix(v: SpecCMsgClientPendingGameLaunch, k: int) -> SpecCMsgClientPendingGameLaunch {
        SpecCMsgClientPendingGameLaunch {
            app_id: if 1 <= k { v.app_id } else { None },
        }
    }

    /// Reading field 1 back, after the fields before it.
    proof fn lemma_field_app_id(v: SpecCMsgClientPendingGameLaunch)
        ensures
            fold_fields(Self::spec_prefix(v, 0), opt_u32(1, v.app_id), Self::apply_fn())
                == Ok::<SpecCMsgClientPendingGameLaunch, WireError>(Self::spec_prefix(v, 1)),
    {
        reveal(CMsgClientPendingGameLaunch::spec_prefix);
        reveal(opt_u32);
        let apply = Self::apply_fn();
        let s = Self::spec_prefix(v, 0);
        lemma_fold_opt(s, 1, match v.app_id { Some(x) => Some(enc_u32(x)), None => None }, apply);
        if let Some(x) = v.app_id {
            lemma_u32_roundtrip(x);
        }
        assert(SpecCMsgClientPendingGameLaunch { app_id: v.app_id, ..s } == Self::spec_prefix(v, 1));
    }

    /// Whether this message declares field number `n`.
    pub open spec fn declares(n: u32) -> bool {
        n == 1
    }

    /// A record with a number this message does not declare is passed over: well-formed
    /// bytes decode to the same message with such a record after them as without it.
    pub proof fn lemma_unknown_field(bytes: Seq<u8>, f: SpecField)
        requires
            parse_fields(bytes) is Ok,
            field_wf(f),
            !Self::declares(f.number),
        ensures
            Self::spec_decode(bytes + field_bytes(f)) == Self::spec_decode(bytes),
    {
        reveal(CMsgClientPendingGameLaunch::spec_decode);
        lemma_parse_fields_append(bytes, f);
        let fs = parse_fields(bytes).unwrap();
        let apply = Self::apply_fn();
        lemma_fold_concat(Self::spec_default(), fs, seq![f], apply);
        assert(fs.push(f) =~= fs + seq![f]);
        if let Ok(w) = fold_fields(Self::spec_default(), fs, apply) {
            lemma_fold_single(w, f, apply);
        }
        lemma_merge_run_fold(Self::spec_default(), bytes, apply);
        lemma_merge_run_fold(Self::spec_default(), bytes + field_bytes(f), apply);
    }

    /// Decoding the encoding of a message gives the message back.
    pub proof fn lemma_decode_encode(v: SpecCMsgClientPendingGameLaunch)
        requires
            Self::spec_encode(v).len() <= u64::MAX,
        ensures
            Self::spec_decode(Self::spec_encode(v)) == Ok::<SpecCMsgClientPendingGameLaunch, WireError>(v),
    {
        let apply = Self::apply_fn();
        let d = Self::spec_default();
        let p0 = Seq::<SpecField>::empty();
        let l1 = opt_u32(1, v.app_id);
        let p1 = p0 + l1;
        assert(parse_fields(Self::spec_encode(v)) == Ok::<Seq<SpecField>, WireError>(p1)) by {
            reveal(CMsgClientPendingGameLaunch::spec_encode);
            assert(numbers_ok(p0) && fields_wf(p0)) by {
                reveal(numbers_ok);
                reveal(fields_wf);
            }
            lemma_opt_u32_numbered(1, v.app_id);
            lemma_fields_wf_concat(p0, l1);
            assert(p1 == Self::spec_fields(v));
            lemma_fields_wf_from_len(p1);
            lemma_fields_roundtrip(p1);
        }
        assert(Self::spec_prefix(v, 0) == d) by {
            reveal(CMsgClientPendingGameLaunch::spec_prefix);
        }
        lemma_fold_empty(d, apply);
        lemma_fold_concat(d, p0, l1, apply);
        Self::lemma_field_app_id(v);
        assert(Self::spec_prefix(v, 1) == v) by {
            reveal(CMsgClientPendingGameLaunch::spec_prefix);
        }
        lemma_merge_run_fold(d, Self::spec_encode(v), apply);
        assert(Self::spec_decode(Self::spec_encode(v)) == Ok::<SpecCMsgClientPendingGameLaunch, WireError>(v)) by {
            reveal(CMsgClientPendingGameLaunch::spec_decode);
        }
    }
}

/// `CMsgClientPendingGameLaunchResponse`, as Valve's schema declares it.
#[derive(Debug, Clone, PartialEq)]
pub struct CMsgClientPendingGameLaunchResponse {
    /// Field 1.
    pub eresult: Option<i32>,
    /// Field 2.
    pub app_id: Option<u32>,
    /// Field 3.
    pub envkey: Option<String>,
}

/// What a `CMsgClientPendingGameLaunchResponse` holds, as mathematical values.
#[verifier::ext_equal]
pub struct SpecCMsgClientPendingGameLaunchResponse {
    pub eresult: Option<i32>,
    pub app_id: Option<u32>,
    pub envkey: Option<Seq<char>>,
}

impl View for CMsgClientPendingGameLaunchResponse {
    type V = SpecCMsgClientPendingGameLaunchResponse;

    open spec fn view(&self) -> SpecCMsgClientPendingGameLaunchResponse {
        SpecCMsgClientPendingGameLaunchResponse {
            eresult: self.eresult,
            app_id: self.app_id,
            envkey: opt_string_view(self.envkey),
        }
    }
}

impl Default for CMsgClientPendingGameLaunchResponse {
    fn default() -> (r: Self)
        ensures
            r@ == CMsgClientPendingGameLaunchResponse::spec_default(),
    {
        CMsgClientPendingGameLaunchResponse {
            eresult: None,
            app_id: None,
            envkey: None,
        }
    }
}

impl CMsgClientPendingGameLaunchResponse {
    /// Field 1, or its schema default when absent.
    pub fn eresult_or_default(&self) -> (r: i32)
        ensures
            r == match self.eresult {
                Some(x) => x,
                None => 2i32,
            },
    {
        self.eresult.unwrap_or(2i32)
    }

    pub open spec fn spec_default() -> SpecCMsgClientPendingGameLaunchResponse {
        SpecCMsgClientPendingGameLaunchResponse {
            eresult: None,
            app_id: None,
            envkey: None,
        }
    }

    /// The records a `CMsgClientPendingGameLaunchResponse` is written as, in field order.
    pub open spec fn spec_fields(v: SpecCMsgClientPendingGameLaunchResponse) -> Seq<SpecField> {
        Seq::<SpecField>::empty()
            + opt_i32(1, v.eresult)
            + opt_u32(2, v.app_id)
            + opt_string(3, v.envkey)
    }

    #[verifier::opaque]
    pub open spec fn spec_encode(v: SpecCMsgClientPendingGameLaunchResponse) -> Seq<u8> {
        fields_bytes(Self::spec_fields(v))
    }

    /// What one record does to the message: a declared number sets or extends its
    /// field, any other number is left alone.
    pub open spec fn spec_apply(v: SpecCMsgClientPendingGameLaunchResponse, f: SpecField) -> Result<SpecCMsgClientPendingGameLaunchResponse, WireError> {
        match f.number {
            1 => match dec_i32(f.value) {
                Ok(x) => Ok(SpecCMsgClientPendingGameLaunchResponse { eresult: Some(x), ..v }),
                Err(e) => Err(e),
            },
            2 => match dec_u32(f.value) {
                Ok(x) => Ok(SpecCMsgClientPendingGameLaunchResponse { app_id: Some(x), ..v }),
                Err(e) => Err(e),
            },
            3 => match dec_string(f.value) {
                Ok(x) => Ok(SpecCMsgClientPendingGameLaunchResponse { envkey: Some(x), ..v }),
                Err(e) => Err(e),
            },
            _ => Ok(v),
        }
    }

    pub open spec fn apply_fn() -> spec_fn(SpecCMsgClientPendingGameLaunchResponse, SpecField) -> Result<SpecCMsgClientPendingGameLaunchResponse, WireError> {
        |v: SpecCMsgClientPendingGameLaunchResponse, f: SpecField| Self::spec_apply(v, f)
    }

    /// The message `bytes` makes of `v`: its records applied in order, or the error
    /// that stops the reading.
    pub open spec fn spec_merge(v: SpecCMsgClientPendingGameLaunchResponse, bytes: Seq<u8>) -> Result<SpecCMsgClientPendingGameLaunchResponse, WireError> {
        let (w, stop) = merge_run(v, bytes, Self::apply_fn());
        match stop {
            None => Ok(w),
            Some(e) => Err(e),
        }
    }

    #[verifier::opaque]
    pub open spec fn spec_decode(bytes: Seq<u8>) -> Result<SpecCMsgClientPendingGameLaunchResponse, WireError> {
        Self::spec_merge(Self::spec_default(), bytes)
    }

    /// This message with one record applied to it, or, when the record is refused,
    /// the message unchanged and the reason.
    fn applied(self, f: &Field) -> (r: Result<Self, (Self, WireError)>)
        ensures
            match Self::spec_apply(self@, f@) {
                Ok(v) => r matches Ok(m) && m@ == v,
                Err(e) => r matches Err((m, x)) && x == e && m@ == self@,
            },
    {
        match f.number {
            1 => match read_i32(&f.value) {
                Ok(x) => Ok(Self { eresult: Some(x), ..self }),
                Err(e) => Err((self, e)),
            },
            2 => match read_u32(&f.value) {
                Ok(x) => Ok(Self { app_id: Some(x), ..self }),
                Err(e) => Err((self, e)),
            },
            3 => match read_string(&f.value) {
                Ok(x) => Ok(Self { envkey: Some(x), ..self }),
                Err(e) => Err((self, e)),
            },
            _ => Ok(self),
        }
    }

    /// Reads the records `bytes` holds into this message, in order. When a record does
    /// not parse or is refused, the reading stops there: the message keeps what the
    /// records before it gave, and the error is returned.
    pub fn merge(&mut self, bytes: &[u8]) -> (r: Result<(), WireError>)
        ensures
            final(self)@ == merge_run(old(self)@, bytes@, Self::apply_fn()).0,
            r == match merge_run(old(self)@, bytes@, Self::apply_fn()).1 {
                None => Ok::<(), WireError>(()),
                Some(e) => Err::<(), WireError>(e),
            },
    {
        let ghost total = merge_run(self@, bytes@, Self::apply_fn());
        let mut cur = Self::default();
        std::mem::swap(&mut cur, self);
        let mut pos: usize = 0;
        assert(bytes@.skip(0) =~= bytes@);
        while pos < bytes.len()
            invariant
                pos <= bytes@.len(),
                total == merge_run(old(self)@, bytes@, Self::apply_fn()),
                merge_run(cur@, bytes@.skip(pos as int), Self::apply_fn()) == total,
            decreases bytes@.len() - pos,
        {
            let ghost s = bytes@.skip(pos as int);
            proof {
                lemma_merge_run_step(cur@, s, Self::apply_fn());
                lemma_parse_field_len(s);
            }
            match read_field(bytes, pos) {
                Ok((f, end)) => {
                    assert(bytes@.skip(end as int) =~= s.skip((end - pos) as int));
                    match cur.applied(&f) {
                        Ok(m) => {
                            cur = m;
                        },
                        Err((m, e)) => {
                            *self = m;
                            return Err(e);
                        },
                    }
                    pos = end;
                },
                Err(e) => {
                    *self = cur;
                    return Err(e);
                },
            }
        }
        assert(bytes@.skip(pos as int) =~= Seq::<u8>::empty());
        proof {
            lemma_merge_run_empty(cur@, Self::apply_fn());
        }
        *self = cur;
        Ok(())
    }

    /// Decodes a message from its encoding.
    pub fn decode(bytes: &[u8]) -> (r: Result<Self, WireError>)
        ensures
            match Self::spec_decode(bytes@) {
                Ok(v) => r matches Ok(m) && m@ == v,
                Err(e) => r matches Err(x) && x == e,
            },
    {
        proof {
            reveal(CMsgClientPendingGameLaunchResponse::spec_decode);
        }
        let mut m = Self::default();
        match m.merge(bytes) {
            Ok(()) => Ok(m),
            Err(e) => Err(e),
        }
    }

    /// The encoding of this message.
    pub fn encode_to_vec(&self) -> (r: Vec<u8>)
        ensures
            r@ == Self::spec_encode(self@),
    {
        let ghost v = self@;
        let mut out: Vec<u8> = Vec::new();
        let ghost p0 = Seq::<SpecField>::empty();
        put_opt_i32(&mut out, 1, self.eresult);
        let ghost p1 = p0 + opt_i32(1, v.eresult);
        proof {
            lemma_fields_bytes_concat(p0, opt_i32(1, v.eresult));
        }
        put_opt_u32(&mut out, 2, self.app_id);
        let ghost p2 = p1 + opt_u32(2, v.app_id);
        proof {
            lemma_fields_bytes_concat(p1, opt_u32(2, v.app_id));
        }
        put_opt_string(&mut out, 3, &self.envkey);
        let ghost p3 = p2 + opt_string(3, v.envkey);
        proof {
            lemma_fields_bytes_concat(p2, opt_string(3, v.envkey));
        }
        proof {
            reveal(CMsgClientPendingGameLaunchResponse::spec_encode);
        }
        assert(p3 == Self::spec_fields(v));
        out
    }

    /// Appends the encoding of this message to `out`.
    pub fn encode_raw(&self, out: &mut Vec<u8>)
        ensures
            final(out)@ == old(out)@ + Self::spec_encode(self@),
    {
        let mut b = self.encode_to_vec();
        out.append(&mut b);
    }

    /// The first `k` fields of `v`, the others as a fresh message has them.
    #[verifier::opaque]
    pub open spec fn spec_prefix(v: SpecCMsgClientPendingGameLaunchResponse, k: int) -> SpecCMsgClientPendingGameLaunchResponse {
        SpecCMsgClientPendingGameLaunchResponse {
            eresult: if 1 <= k { v.eresult } else { None },
            app_id: if 2 <= k { v.app_id } else { None },
            envkey: if 3 <= k { v.envkey } else { None },
        }
    }

    /// Reading field 1 back, after the fields before it.
    proof fn lemma_field_eresult(v: SpecCMsgClientPendingGameLaunchResponse)
        ensures
            fold_fields(Self::spec_prefix(v, 0), opt_i32(1, v.eresult), Self::apply_fn())
                == Ok::<SpecCMsgClientPendingGameLaunchResponse, WireError>(Self::spec_prefix(v, 1)),
    {
        reveal(CMsgClientPendingGameLaunchResponse::spec_prefix);
        reveal(opt_i32);
        let apply = Self::apply_fn();
        let s = Self::spec_prefix(v, 0);
        lemma_fold_opt(s, 1, match v.eresult { Some(x) => Some(enc_i32(x)), None => None }, apply);
        if let Some(x) = v.eresult {
            lemma_i32_roundtrip(x);
        }
        assert(SpecCMsgClientPendingGameLaunchResponse { eresult: v.eresult, ..s } == Self::spec_prefix(v, 1));
    }

    /// Reading field 2 back, after the fields before it.
    proof fn lemma_field_app_id(v: SpecCMsgClientPendingGameLaunchResponse)
        ensures
            fold_fields(Self::spec_prefix(v, 1), opt_u32(2, v.app_id), Self::apply_fn())
                == Ok::<SpecCMsgClientPendingGameLaunchResponse, WireError>(Self::spec_prefix(v, 2)),
    {
        reveal(CMsgClientPendingGameLaunchResponse::spec_prefix);
        reveal(opt_u32);
        let apply = Self::apply_fn();
        let s = Self::spec_prefix(v, 1);
        lemma_fold_opt(s, 2, match v.app_id { Some(x) => Some(enc_u32(x)), None => None }, apply);
        if let Some(x) = v.app_id {
            lemma_u32_roundtrip(x);
        }
        assert(SpecCMsgClientPendingGameLaunchResponse { app_id: v.app_id, ..s } == Self::spec_prefix(v, 2));
    }

    /// Reading field 3 back, after the fields before it.
    proof fn lemma_field_envkey(v: SpecCMsgClientPendingGameLaunchResponse)
        ensures
            fold_fields(Self::spec_prefix(v, 2), opt_string(3, v.envkey), Self::apply_fn())
                == Ok::<SpecCMsgClientPendingGameLaunchResponse, WireError>(Self::spec_prefix(v, 3)),
    {
        reveal(CMsgClientPendingGameLaunchResponse::spec_prefix);
        reveal(opt_string);
        let apply = Self::apply_fn();
        let s = Self::spec_prefix(v, 2);
        lemma_fold_opt(s, 3, match v.envkey { Some(x) => Some(enc_string(x)), None => None }, apply);
        if let Some(x) = v.envkey {
            lemma_string_roundtrip(x);
        }
        assert(SpecCMsgClientPendingGameLaunchResponse { envkey: v.envkey, ..s } == Self::spec_prefix(v, 3));
    }

    /// Whether this message declares field number `n`.
    pub open spec fn declares(n: u32) -> bool {
        n == 1 || n == 2 || n == 3
    }

    /// A record with a number this message does not declare is passed over: well-formed
    /// bytes decode to the same message with such a record after them as without it.
    pub proof fn lemma_unknown_field(bytes: Seq<u8>, f: SpecField)
        requires
            parse_fields(bytes) is Ok,
            field_wf(f),
            !Self::declares(f.number),
        ensures
            Self::spec_decode(bytes + field_bytes(f)) == Self::spec_decode(bytes),
    {
        reveal(CMsgClientPendingGameLaunchResponse::spec_decode);
        lemma_parse_fields_append(bytes, f);
        let fs = parse_fields(bytes).unwrap();
        let apply = Self::apply_fn();
        lemma_fold_concat(Self::spec_default(), fs, seq![f], apply);
        assert(fs.push(f) =~= fs + seq![f]);
        if let Ok(w) = fold_fields(Self::spec_default(), fs, apply) {
            lemma_fold_single(w, f, apply);
        }
        lemma_merge_run_fold(Self::spec_default(), bytes, apply);
        lemma_merge_run_fold(Self::spec_default(), bytes + field_bytes(f), apply);
    }

    /// Decoding the encoding of a message gives the message back.
    pub proof fn lemma_decode_encode(v: SpecCMsgClientPendingGameLaunchResponse)
        requires
            Self::spec_encode(v).len() <= u64::MAX,
        ensures
            Self::spec_decode(Self::spec_encode(v)) == Ok::<SpecCMsgClientPendingGameLaunchResponse, WireError>(v),
    {
        let apply = Self::apply_fn();
        let d = Self::spec_default();
        let p0 = Seq::<SpecField>::empty();
        let l1 = opt_i32(1, v.eresult);
        let p1 = p0 + l1;
        let l2 = opt_u32(2, v.app_id);
        let p2 = p1 + l2;
        let l3 = opt_string(3, v.envkey);
        let p3 = p2 + l3;
        assert(parse_fields(Self::spec_encode(v)) == Ok::<Seq<SpecField>, WireError>(p3)) by {
            reveal(CMsgClientPendingGameLaunchResponse::spec_encode);
            assert(numbers_ok(p0) && fields_wf(p0)) by {
                reveal(numbers_ok);
                reveal(fields_wf);
            }
            lemma_opt_i32_numbered(1, v.eresult);
            lemma_fields_wf_concat(p0, l1);
            lemma_opt_u32_numbered(2, v.app_id);
            lemma_fields_wf_concat(p1, l2);
            lemma_opt_string_numbered(3, v.envkey);
            lemma_fields_wf_concat(p2, l3);
            assert(p3 == Self::spec_fields(v));
            lemma_fields_wf_from_len(p3);
            lemma_fields_roundtrip(p3);
        }
        assert(Self::spec_prefix(v, 0) == d) by {
            reveal(CMsgClientPendingGameLaunchResponse::spec_prefix);
        }
        lemma_fold_empty(d, apply);
        lemma_fold_concat(d, p0, l1, apply);
        Self::lemma_field_eresult(v);
        lemma_fold_concat(d, p1, l2, apply);
        Self::lemma_field_app_id(v);
        lemma_fold_concat(d, p2, l3, apply);
        Self::lemma_field_envkey(v);
        assert(Self::spec_prefix(v, 3) == v) by {
            reveal(CMsgClientPendingGameLaunchResponse::spec_prefix);
        }
        lemma_merge_run_fold(d, Self::spec_encode(v), apply);
        assert(Self::spec_decode(Self::spec_encode(v)) == Ok::<SpecCMsgClientPendingGameLaunchResponse, WireError>(v)) by {
            reveal(CMsgClientPendingGameLaunchResponse::spec_decode);
        }
    }
}

} // verus!
