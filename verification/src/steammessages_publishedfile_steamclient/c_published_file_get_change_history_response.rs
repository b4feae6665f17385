//! Types nested inside `c_published_file_get_change_history_response`.


use vstd::prelude::*;

use crate::codec::{
    bytes_seq_view, dec_bool, dec_fixed64, dec_i32, dec_string, dec_u32, enc_bool, enc_fixed64,
    enc_i32, enc_string, enc_u32, fold_fields, lemma_fold_concat, lemma_fold_empty,
    lemma_fold_opt, lemma_fold_single, lemma_i32_roundtrip, lemma_merge_run_empty,
    lemma_merge_run_fold, lemma_merge_run_step, lemma_opt_bool_numbered,
    lemma_opt_fixed64_numbered, lemma_opt_i32_numbered, lemma_opt_string_numbered,
    lemma_opt_u32_numbered, lemma_string_roundtrip, lemma_u32_roundtrip, lemma_u64_roundtrip,
    merge_run, opt_bool, opt_bytes_view, opt_fixed64, opt_i32, opt_string, opt_string_view,
    opt_u32, put_opt_bool, put_opt_fixed64, put_opt_i32, put_opt_string, put_opt_u32, read_bool,
    read_fixed64, read_i32, read_string, read_u32,
};

use crate::wire::fields::{
    field_bytes, field_wf, fields_bytes, fields_wf, lemma_fields_bytes_concat,
    lemma_fields_roundtrip, lemma_fields_wf_concat, lemma_fields_wf_from_len,
    lemma_parse_field_len, lemma_parse_fields_append, numbers_ok, parse_fields, read_field,
    Field, SpecField,
};
use crate::wire::varint::WireError;

verus! {

/// `ChangeLog`, as Valve's schema declares it.
#[derive(Debug, Clone, PartialEq)]
pub struct ChangeLog {
    /// Field 1.
    pub timestamp: Option<u32>,
    /// Field 2.
    pub change_description: Option<String>,
    /// Field 3.
    pub language: Option<i32>,
    /// Field 4.
    pub saved_snapshot: Option<bool>,
    /// Field 5.
    pub snapshot_game_branch_min: Option<String>,
    /// Field 6.
    pub snapshot_game_branch_max: Option<String>,
    /// Field 7.
    pub manifest_id: Option<u64>,
    /// Field 8.
    pub accountid: Option<u32>,
}

/// What a `ChangeLog` holds, as mathematical values.
#[verifier::ext_equal]
pub struct SpecChangeLog {
    pub timestamp: Option<u32>,
    pub change_description: Option<Seq<char>>,
    pub language: Option<i32>,
    pub saved_snapshot: Option<bool>,
    pub snapshot_game_branch_min: Option<Seq<char>>,
    pub snapshot_game_branch_max: Option<Seq<char>>,
    pub manifest_id: Option<u64>,
    pub accountid: Option<u32>,
}

impl View for ChangeLog {
    type V = SpecChangeLog;

    open spec fn view(&self) -> SpecChangeLog {
        SpecChangeLog {
            timestamp: self.timestamp,
            change_description: opt_string_view(self.change_description),
            language: self.language,
            saved_snapshot: self.saved_snapshot,
            snapshot_game_branch_min: opt_string_view(self.snapshot_game_branch_min),
            snapshot_game_branch_max: opt_string_view(self.snapshot_game_branch_max),
            manifest_id: self.manifest_id,
            accountid: self.accountid,
        }
    }
}

impl Default for ChangeLog {
    fn default() -> (r: Self)
        ensures
            r@ == ChangeLog::spec_default(),
    {
        ChangeLog {
            timestamp: None,
            change_description: None,
            language: None,
            saved_snapshot: None,
            snapshot_game_branch_min: None,
            snapshot_game_branch_max: None,
            manifest_id: None,
            accountid: None,
        }
    }
}

impl ChangeLog {
    pub open spec fn spec_default() -> SpecChangeLog {
        SpecChangeLog {
            timestamp: None,
            change_description: None,
            language: None,
            saved_snapshot: None,
            snapshot_game_branch_min: None,
            snapshot_game_branch_max: None,
            manifest_id: None,
            accountid: None,
        }
    }

    /// The records a `ChangeLog` is written as, in field order.
    pub open spec fn spec_fields(v: SpecChangeLog) -> Seq<SpecField> {
        Seq::<SpecField>::empty()
            + opt_u32(1, v.timestamp)
            + opt_string(2, v.change_description)
            + opt_i32(3, v.language)
            + opt_bool(4, v.saved_snapshot)
            + opt_string(5, v.snapshot_game_branch_min)
            + opt_string(6, v.snapshot_game_branch_max)
            + opt_fixed64(7, v.manifest_id)
            + opt_u32(8, v.accountid)
    }

    #[verifier::opaque]
    pub open spec fn spec_encode(v: SpecChangeLog) -> Seq<u8> {
        fields_bytes(Self::spec_fields(v))
    }

    /// What one record does to the message: a declared number sets or extends its
    /// field, any other number is left alone.
    pub open spec fn spec_apply(v: SpecChangeLog, f: SpecField) -> Result<SpecChangeLog, WireError> {
        match f.number {
            1 => match dec_u32(f.value) {
                Ok(x) => Ok(SpecChangeLog { timestamp: Some(x), ..v }),
                Err(e) => Err(e),
            },
            2 => match dec_string(f.value) {
                Ok(x) => Ok(SpecChangeLog { change_description: Some(x), ..v }),
                Err(e) => Err(e),
            },
            3 => match dec_i32(f.value) {
                Ok(x) => Ok(SpecChangeLog { language: Some(x), ..v }),
                Err(e) => Err(e),
            },
            4 => match dec_bool(f.value) {
                Ok(x) => Ok(SpecChangeLog { saved_snapshot: Some(x), ..v }),
                Err(e) => Err(e),
            },
            5 => match dec_string(f.value) {
                Ok(x) => Ok(SpecChangeLog { snapshot_game_branch_min: Some(x), ..v }),
                Err(e) => Err(e),
            },
            6 => match dec_string(f.value) {
                Ok(x) => Ok(SpecChangeLog { snapshot_game_branch_max: Some(x), ..v }),
                Err(e) => Err(e),
            },
            7 => match dec_fixed64(f.value) {
                Ok(x) => Ok(SpecChangeLog { manifest_id: Some(x), ..v }),
                Err(e) => Err(e),
            },
            8 => match dec_u32(f.value) {
                Ok(x) => Ok(SpecChangeLog { accountid: Some(x), ..v }),
                Err(e) => Err(e),
            },
            _ => Ok(v),
        }
    }

    pub open spec fn apply_fn() -> spec_fn(SpecChangeLog, SpecField) -> Result<SpecChangeLog, WireError> {
        |v: SpecChangeLog, f: SpecField| Self::spec_apply(v, f)
    }

    /// The message `bytes` makes of `v`: its records applied in order, or the error
    /// that stops the reading.
    pub open spec fn spec_merge(v: SpecChangeLog, bytes: Seq<u8>) -> Result<SpecChangeLog, WireError> {
        let (w, stop) = merge_run(v, bytes, Self::apply_fn());
        match stop {
            None => Ok(w),
            Some(e) => Err(e),
        }
    }

    #[verifier::opaque]
    pub open spec fn spec_decode(bytes: Seq<u8>) -> Result<SpecChangeLog, WireError> {
        Self::spec_merge(Self::spec_default(), bytes)
    }

    pub open spec fn view_all(xs: Seq<ChangeLog>) -> Seq<SpecChangeLog> {
        xs.map_values(|m: ChangeLog| m@)
    }

    pub open spec fn view_opt(o: Option<ChangeLog>) -> Option<SpecChangeLog> {
        match o {
            Some(m) => Some(m@),
            None => None,
        }
    }

    pub open spec fn spec_encode_all(xs: Seq<SpecChangeLog>) -> Seq<Seq<u8>> {
        xs.map_values(|m: SpecChangeLog| Self::spec_encode(m))
    }

    pub open spec fn spec_encode_opt(o: Option<SpecChangeLog>) -> Option<Seq<u8>> {
        match o {
            Some(m) => Some(Self::spec_encode(m)),
            None => None,
        }
    }

    /// The encoding of each element.
    pub fn encode_all(xs: &Vec<ChangeLog>) -> (r: Vec<Vec<u8>>)
        ensures
            bytes_seq_view(r@) == Self::spec_encode_all(Self::view_all(xs@)),
    {
        let mut out: Vec<Vec<u8>> = Vec::new();
        let mut i: usize = 0;
        while i < xs.len()
            invariant
                i <= xs@.len(),
                out@.len() == i,
                forall|j: int| 0 <= j < i ==> #[trigger] out@[j]@ == Self::spec_encode(xs@[j]@),
            decreases xs@.len() - i,
        {
            let e = xs[i].encode_to_vec();
            out.push(e);
            i = i + 1;
        }
        assert(bytes_seq_view(out@) =~= Self::spec_encode_all(Self::view_all(xs@)));
        out
    }

    /// The encoding of the element, when there is one.
    pub fn encode_opt(o: &Option<ChangeLog>) -> (r: Option<Vec<u8>>)
        ensures
            opt_bytes_view(r) == Self::spec_encode_opt(Self::view_opt(*o)),
    {
        match o {
            Some(m) => Some(m.encode_to_vec()),
            None => None,
        }
    }

    /// This message with one record applied to it, or, when the record is refused,
    /// the message unchanged and the reason.
    fn applied(self, f: &Field) -> (r: Result<Self, (Self, WireError)>)
        ensures
            match Self::spec_apply(self@, f@) {
                Ok(v) => r matches Ok(m) && m@ == v,
                Err(e) => r matches Err((m, x)) && x == e && m@ == self@,
            },
    {
        match f.number {
            1 => match read_u32(&f.value) {
                Ok(x) => Ok(Self { timestamp: Some(x), ..self }),
                Err(e) => Err((self, e)),
            },
            2 => match read_string(&f.value) {
                Ok(x) => Ok(Self { change_description: Some(x), ..self }),
                Err(e) => Err((self, e)),
            },
            3 => match read_i32(&f.value) {
                Ok(x) => Ok(Self { language: Some(x), ..self }),
                Err(e) => Err((self, e)),
            },
            4 => match read_bool(&f.value) {
                Ok(x) => Ok(Self { saved_snapshot: Some(x), ..self }),
                Err(e) => Err((self, e)),
            },
            5 => match read_string(&f.value) {
                Ok(x) => Ok(Self { snapshot_game_branch_min: Some(x), ..self }),
                Err(e) => Err((self, e)),
            },
            6 => match read_string(&f.value) {
                Ok(x) => Ok(Self { snapshot_game_branch_max: Some(x), ..self }),
                Err(e) => Err((self, e)),
            },
            7 => match read_fixed64(&f.value) {
                Ok(x) => Ok(Self { manifest_id: Some(x), ..self }),
                Err(e) => Err((self, e)),
            },
            8 => match read_u32(&f.value) {
                Ok(x) => Ok(Self { accountid: Some(x), ..self }),
                Err(e) => Err((self, e)),
            },
            _ => Ok(self),
        }
    }

    /// Reads the records `bytes` holds into this message, in order. When a record does
    /// not parse or is refused, the reading stops there: the message keeps what the
    /// records before it gave, and the error is returned.
    pub fn merge(&mut self, bytes: &[u8]) -> (r: Result<(), WireError>)
        ensures
            final(self)@ == merge_run(old(self)@, bytes@, Self::apply_fn()).0,
            r == match merge_run(old(self)@, bytes@, Self::apply_fn()).1 {
                None => Ok::<(), WireError>(()),
                Some(e) => Err::<(), WireError>(e),
            },
    {
        let ghost total = merge_run(self@, bytes@, Self::apply_fn());
        let mut cur = Self::default();
        std::mem::swap(&mut cur, self);
        let mut pos: usize = 0;
        assert(bytes@.skip(0) =~= bytes@);
        while pos < bytes.len()
            invariant
                pos <= bytes@.len(),
                total == merge_run(old(self)@, bytes@, Self::apply_fn()),
                merge_run(cur@, bytes@.skip(pos as int), Self::apply_fn()) == total,
            decreases bytes@.len() - pos,
        {
            let ghost s = bytes@.skip(pos as int);
            proof {
                lemma_merge_run_step(cur@, s, Self::apply_fn());
                lemma_parse_field_len(s);
            }
            match read_field(bytes, pos) {
                Ok((f, end)) => {
                    assert(bytes@.skip(end as int) =~= s.skip((end - pos) as int));
                    match cur.applied(&f) {
                        Ok(m) => {
                            cur = m;
                        },
                        Err((m, e)) => {
                            *self = m;
                            return Err(e);
                        },
                    }
                    pos = end;
                },
                Err(e) => {
                    *self = cur;
                    return Err(e);
                },
            }
        }
        assert(bytes@.skip(pos as int) =~= Seq::<u8>::empty());
        proof {
            lemma_merge_run_empty(cur@, Self::apply_fn());
        }
        *self = cur;
        Ok(())
    }

    /// Decodes a message from its encoding.
    pub fn decode(bytes: &[u8]) -> (r: Result<Self, WireError>)
        ensures
            match Self::spec_decode(bytes@) {
                Ok(v) => r matches Ok(m) && m@ == v,
                Err(e) => r matches Err(x) && x == e,
            },
    {
        proof {
            reveal(ChangeLog::spec_decode);
        }
        let mut m = Self::default();
        match m.merge(bytes) {
            Ok(()) => Ok(m),
            Err(e) => Err(e),
        }
    }

    /// The encoding of this message.
    pub fn encode_to_vec(&self) -> (r: Vec<u8>)
        ensures
            r@ == Self::spec_encode(self@),
    {
        let ghost v = self@;
        let mut out: Vec<u8> = Vec::new();
        let ghost p0 = Seq::<SpecField>::empty();
        put_opt_u32(&mut out, 1, self.timestamp);
        let ghost p1 = p0 + opt_u32(1, v.timestamp);
        proof {
            lemma_fields_bytes_concat(p0, opt_u32(1, v.timestamp));
        }
        put_opt_string(&mut out, 2, &self.change_description);
        let ghost p2 = p1 + opt_string(2, v.change_description);
        proof {
            lemma_fields_bytes_concat(p1, opt_string(2, v.change_description));
        }
        put_opt_i32(&mut out, 3, self.language);
        let ghost p3 = p2 + opt_i32(3, v.language);
        proof {
            lemma_fields_bytes_concat(p2, opt_i32(3, v.language));
        }
        put_opt_bool(&mut out, 4, self.saved_snapshot);
        let ghost p4 = p3 + opt_bool(4, v.saved_snapshot);
        proof {
            lemma_fields_bytes_concat(p3, opt_bool(4, v.saved_snapshot));
        }
        put_opt_string(&mut out, 5, &self.snapshot_game_branch_min);
        let ghost p5 = p4 + opt_string(5, v.snapshot_game_branch_min);
        proof {
            lemma_fields_bytes_concat(p4, opt_string(5, v.snapshot_game_branch_min));
        }
        put_opt_string(&mut out, 6, &self.snapshot_game_branch_max);
        let ghost p6 = p5 + opt_string(6, v.snapshot_game_branch_max);
        proof {
            lemma_fields_bytes_concat(p5, opt_string(6, v.snapshot_game_branch_max));
        }
        put_opt_fixed64(&mut out, 7, self.manifest_id);
        let ghost p7 = p6 + opt_fixed64(7, v.manifest_id);
        proof {
            lemma_fields_bytes_concat(p6, opt_fixed64(7, v.manifest_id));
        }
        put_opt_u32(&mut out, 8, self.accountid);
        let ghost p8 = p7 + opt_u32(8, v.accountid);
        proof {
            lemma_fields_bytes_concat(p7, opt_u32(8, v.accountid));
        }
        proof {
            reveal(ChangeLog::spec_encode);
        }
        assert(p8 == Self::spec_fields(v));
        out
    }

    /// Appends the encoding of this message to `out`.
    pub fn encode_raw(&self, out: &mut Vec<u8>)
        ensures
            final(out)@ == old(out)@ + Self::spec_encode(self@),
    {
        let mut b = self.encode_to_vec();
        out.append(&mut b);
    }

    /// The first `k` fields of `v`, the others as a fresh message has them.
    #[verifier::opaque]
    pub open spec fn spec_prefix(v: SpecChangeLog, k: int) -> SpecChangeLog {
        SpecChangeLog {
            timestamp: if 1 <= k { v.timestamp } else { None },
            change_description: if 2 <= k { v.change_description } else { None },
            language: if 3 <= k { v.language } else { None },
            saved_snapshot: if 4 <= k { v.saved_snapshot } else { None },
            snapshot_game_branch_min: if 5 <= k { v.snapshot_game_branch_min } else { None },
            snapshot_game_branch_max: if 6 <= k { v.snapshot_game_branch_max } else { None },
            manifest_id: if 7 <= k { v.manifest_id } else { None },
            accountid: if 8 <= k { v.accountid } else { None },
        }
    }

    /// Reading field 1 back, after the fields before it.
    proof fn lemma_field_timestamp(v: SpecChangeLog)
        ensures
            fold_fields(Self::spec_prefix(v, 0), opt_u32(1, v.timestamp), Self::apply_fn())
                == Ok::<SpecChangeLog, WireError>(Self::spec_prefix(v, 1)),
    {
        reveal(ChangeLog::spec_prefix);
        reveal(opt_u32);
        let apply = Self::apply_fn();
        let s = Self::spec_prefix(v, 0);
        lemma_fold_opt(s, 1, match v.timestamp { Some(x) => Some(enc_u32(x)), None => None }, apply);
        if let Some(x) = v.timestamp {
            lemma_u32_roundtrip(x);
        }
        assert(SpecChangeLog { timestamp: v.timestamp, ..s } == Self::spec_prefix(v, 1));
    }

    /// Reading field 2 back, after the fields before it.
    proof fn lemma_field_change_description(v: SpecChangeLog)
        ensures
            fold_fields(Self::spec_prefix(v, 1), opt_string(2, v.change_description), Self::apply_fn())
                == Ok::<SpecChangeLog, WireError>(Self::spec_prefix(v, 2)),
    {
        reveal(ChangeLog::spec_prefix);
        reveal(opt_string);
        let apply = Self::apply_fn();
        let s = Self::spec_prefix(v, 1);
        lemma_fold_opt(s, 2, match v.change_description { Some(x) => Some(enc_string(x)), None => None }, apply);
        if let Some(x) = v.change_description {
            lemma_string_roundtrip(x);
        }
        assert(SpecChangeLog { change_description: v.change_description, ..s } == Self::spec_prefix(v, 2));
    }

    /// Reading field 3 back, after the fields before it.
    proof fn lemma_field_language(v: SpecChangeLog)
        ensures
            fold_fields(Self::spec_prefix(v, 2), opt_i32(3, v.language), Self::apply_fn())
                == Ok::<SpecChangeLog, WireError>(Self::spec_prefix(v, 3)),
    {
        reveal(ChangeLog::spec_prefix);
        reveal(opt_i32);
        let apply = Self::apply_fn();
        let s = Self::spec_prefix(v, 2);
        lemma_fold_opt(s, 3, match v.language { Some(x) => Some(enc_i32(x)), None => None }, apply);
        if let Some(x) = v.language {
            lemma_i32_roundtrip(x);
        }
        assert(SpecChangeLog { language: v.language, ..s } == Self::spec_prefix(v, 3));
    }

    /// Reading field 4 back, after the fields before it.
    proof fn lemma_field_saved_snapshot(v: SpecChangeLog)
        ensures
            fold_fields(Self::spec_prefix(v, 3), opt_bool(4, v.saved_snapshot), Self::apply_fn())
                == Ok::<SpecChangeLog, WireError>(Self::spec_prefix(v, 4)),
    {
        reveal(ChangeLog::spec_prefix);
        reveal(opt_bool);
        let apply = Self::apply_fn();
        let s = Self::spec_prefix(v, 3);
        lemma_fold_opt(s, 4, match v.saved_snapshot { Some(x) => Some(enc_bool(x)), None => None }, apply);
        assert(SpecChangeLog { saved_snapshot: v.saved_snapshot, ..s } == Self::spec_prefix(v, 4));
    }

    /// Reading field 5 back, after the fields before it.
    proof fn lemma_field_snapshot_game_branch_min(v: SpecChangeLog)
        ensures
            fold_fields(Self::spec_prefix(v, 4), opt_string(5, v.snapshot_game_branch_min), Self::apply_fn())
                == Ok::<SpecChangeLog, WireError>(Self::spec_prefix(v, 5)),
    {
        reveal(ChangeLog::spec_prefix);
        reveal(opt_string);
        let apply = Self::apply_fn();
        let s = Self::spec_prefix(v, 4);
        lemma_fold_opt(s, 5, match v.snapshot_game_branch_min { Some(x) => Some(enc_string(x)), None => None }, apply);
        if let Some(x) = v.snapshot_game_branch_min {
            lemma_string_roundtrip(x);
        }
        assert(SpecChangeLog { snapshot_game_branch_min: v.snapshot_game_branch_min, ..s } == Self::spec_prefix(v, 5));
    }

    /// Reading field 6 back, after the fields before it.
    proof fn lemma_field_snapshot_game_branch_max(v: SpecChangeLog)
        ensures
            fold_fields(Self::spec_prefix(v, 5), opt_string(6, v.snapshot_game_branch_max), Self::apply_fn())
                == Ok::<SpecChangeLog, WireError>(Self::spec_prefix(v, 6)),
    {
        reveal(ChangeLog::spec_prefix);
        reveal(opt_string);
        let apply = Self::apply_fn();
        let s = Self::spec_prefix(v, 5);
        lemma_fold_opt(s, 6, match v.snapshot_game_branch_max { Some(x) => Some(enc_string(x)), None => None }, apply);
        if let Some(x) = v.snapshot_game_branch_max {
            lemma_string_roundtrip(x);
        }
        assert(SpecChangeLog { snapshot_game_branch_max: v.snapshot_game_branch_max, ..s } == Self::spec_prefix(v, 6));
    }

    /// Reading field 7 back, after the fields before it.
    proof fn lemma_field_manifest_id(v: SpecChangeLog)
        ensures
            fold_fields(Self::spec_prefix(v, 6), opt_fixed64(7, v.manifest_id), Self::apply_fn())
                == Ok::<SpecChangeLog, WireError>(Self::spec_prefix(v, 7)),
    {
        reveal(ChangeLog::spec_prefix);
        reveal(opt_fixed64);
        let apply = Self::apply_fn();
        let s = Self::spec_prefix(v, 6);
        lemma_fold_opt(s, 7, match v.manifest_id { Some(x) => Some(enc_fixed64(x)), None => None }, apply);
        if let Some(x) = v.manifest_id {
            lemma_u64_roundtrip(x);
        }
        assert(SpecChangeLog { manifest_id: v.manifest_id, ..s } == Self::spec_prefix(v, 7));
    }

    /// Reading field 8 back, after the fields before it.
    proof fn lemma_field_accountid(v: SpecChangeLog)
        ensures
            fold_fields(Self::spec_prefix(v, 7), opt_u32(8, v.accountid), Self::apply_fn())
                == Ok::<SpecChangeLog, WireError>(Self::spec_prefix(v, 8)),
    {
        reveal(ChangeLog::spec_prefix);
        reveal(opt_u32);
        let apply = Self::apply_fn();
        let s = Self::spec_prefix(v, 7);
        lemma_fold_opt(s, 8, match v.accountid { Some(x) => Some(enc_u32(x)), None => None }, apply);
        if let Some(x) = v.accountid {
            lemma_u32_roundtrip(x);
        }
        assert(SpecChangeLog { accountid: v.accountid, ..s } == Self::spec_prefix(v, 8));
    }

    /// Whether this message declares field number `n`.
    pub open spec fn declares(n: u32) -> bool {
        n == 1 || n == 2 || n == 3 || n == 4 || n == 5 || n == 6 || n == 7 || n == 8
    }

    /// A record with a number this message does not declare is passed over: well-formed
    /// bytes decode to the same message with such a record after them as without it.
    pub proof fn lemma_unknown_field(bytes: Seq<u8>, f: SpecField)
        requires
            parse_fields(bytes) is Ok,
            field_wf(f),
            !Self::declares(f.number),
        ensures
            Self::spec_decode(bytes + field_bytes(f)) == Self::spec_decode(bytes),
    {
        reveal(ChangeLog::spec_decode);
        lemma_parse_fields_append(bytes, f);
        let fs = parse_fields(bytes).unwrap();
        let apply = Self::apply_fn();
        lemma_fold_concat(Self::spec_default(), fs, seq![f], apply);
        assert(fs.push(f) =~= fs + seq![f]);
        if let Ok(w) = fold_fields(Self::spec_default(), fs, apply) {
            lemma_fold_single(w, f, apply);
        }
        lemma_merge_run_fold(Self::spec_default(), bytes, apply);
        lemma_merge_run_fold(Self::spec_default(), bytes + field_bytes(f), apply);
    }

    /// Decoding the encoding of a message gives the message back.
    pub proof fn lemma_decode_encode(v: SpecChangeLog)
        requires
            Self::spec_encode(v).len() <= u64::MAX,
        ensures
            Self::spec_decode(Self::spec_encode(v)) == Ok::<SpecChangeLog, WireError>(v),
    {
        let apply = Self::apply_fn();
        let d = Self::spec_default();
        let p0 = Seq::<SpecField>::empty();
        let l1 = opt_u32(1, v.timestamp);
        let p1 = p0 + l1;
        let l2 = opt_string(2, v.change_description);
        let p2 = p1 + l2;
        let l3 = opt_i32(3, v.language);
        let p3 = p2 + l3;
        let l4 = opt_bool(4, v.saved_snapshot);
        let p4 = p3 + l4;
        let l5 = opt_string(5, v.snapshot_game_branch_min);
        let p5 = p4 + l5;
        let l6 = opt_string(6, v.snapshot_game_branch_max);
        let p6 = p5 + l6;
        let l7 = opt_fixed64(7, v.manifest_id);
        let p7 = p6 + l7;
        let l8 = opt_u32(8, v.accountid);
        let p8 = p7 + l8;
        assert(parse_fields(Self::spec_encode(v)) == Ok::<Seq<SpecField>, WireError>(p8)) by {
            reveal(ChangeLog::spec_encode);
            assert(numbers_ok(p0) && fields_wf(p0)) by {
                reveal(numbers_ok);
                reveal(fields_wf);
            }
            lemma_opt_u32_numbered(1, v.timestamp);
            lemma_fields_wf_concat(p0, l1);
            lemma_opt_string_numbered(2, v.change_description);
            lemma_fields_wf_concat(p1, l2);
            lemma_opt_i32_numbered(3, v.language);
            lemma_fields_wf_concat(p2, l3);
            lemma_opt_bool_numbered(4, v.saved_snapshot);
            lemma_fields_wf_concat(p3, l4);
            lemma_opt_string_numbered(5, v.snapshot_game_branch_min);
            lemma_fields_wf_concat(p4, l5);
            lemma_opt_string_numbered(6, v.snapshot_game_branch_max);
            lemma_fields_wf_concat(p5, l6);
            lemma_opt_fixed64_numbered(7, v.manifest_id);
            lemma_fields_wf_concat(p6, l7);
            lemma_opt_u32_numbered(8, v.accountid);
            lemma_fields_wf_concat(p7, l8);
            assert(p8 == Self::spec_fields(v));
            lemma_fields_wf_from_len(p8);
            lemma_fields_roundtrip(p8);
        }
        assert(Self::spec_prefix(v, 0) == d) by {
            reveal(ChangeLog::spec_prefix);
        }
        lemma_fold_empty(d, apply);
        lemma_fold_concat(d, p0, l1, apply);
        Self::lemma_field_timestamp(v);
        lemma_fold_concat(d, p1, l2, apply);
        Self::lemma_field_change_description(v);
        lemma_fold_concat(d, p2, l3, apply);
        Self::lemma_field_language(v);
        lemma_fold_concat(d, p3, l4, apply);
        Self::lemma_field_saved_snapshot(v);
        lemma_fold_concat(d, p4, l5, apply);
        Self::lemma_field_snapshot_game_branch_min(v);
        lemma_fold_concat(d, p5, l6, apply);
        Self::lemma_field_snapshot_game_branch_max(v);
        lemma_fold_concat(d, p6, l7, apply);
        Self::lemma_field_manifest_id(v);
        lemma_fold_concat(d, p7, l8, apply);
        Self::lemma_field_accountid(v);
        assert(Self::spec_prefix(v, 8) == v) by {
            reveal(ChangeLog::spec_prefix);
        }
        lemma_merge_run_fold(d, Self::spec_encode(v), apply);
        assert(Self::spec_decode(Self::spec_encode(v)) == Ok::<SpecChangeLog, WireError>(v)) by {
            reveal(ChangeLog::spec_decode);
        }
    }
}

} // verus!
