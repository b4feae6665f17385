//! Types nested inside `c_published_file_file_subscribed_notification`.


use vstd::prelude::*;

use crate::codec::{
    bytes_seq_view, dec_fixed64, dec_i32, dec_string, dec_u32, enc_fixed64, enc_i32, enc_string,
    enc_u32, fold_fields, lemma_fold_concat, lemma_fold_empty, lemma_fold_opt,
    lemma_fold_single, lemma_i32_roundtrip, lemma_merge_run_empty, lemma_merge_run_fold,
    lemma_merge_run_step, lemma_opt_fixed64_numbered, lemma_opt_i32_numbered,
    lemma_opt_string_numbered, lemma_opt_u32_numbered, lemma_string_roundtrip,
    lemma_u32_roundtrip, lemma_u64_roundtrip, merge_run, opt_bytes_view, opt_fixed64, opt_i32,
    opt_string, opt_string_view, opt_u32, put_opt_fixed64, put_opt_i32, put_opt_string,
    put_opt_u32, read_fixed64, read_i32, read_string, read_u32,
};

use crate::wire::fields::{
    field_bytes, field_wf, fields_bytes, fields_wf, lemma_fields_bytes_concat,
    lemma_fields_roundtrip, lemma_fields_wf_concat, lemma_fields_wf_from_len,
    lemma_parse_field_len, lemma_parse_fields_append, numbers_ok, parse_fields, read_field,
    Field, SpecField,
};
use crate::wire::varint::WireError;

verus! {

/// `RevisionData`, as Valve's schema declares it.
#[derive(Debug, Clone, PartialEq)]
pub struct RevisionData {
    /// Field 1.
    pub revision: Option<crate::steammessages_publishedfile_steamclient::EPublishedFileRevision>,
    /// Field 2.
    pub file_hcontent: Option<u64>,
    /// Field 3.
    pub rtime_updated: Option<u32>,
    /// Field 4.
    pub game_branch_min: Option<String>,
    /// Field 5.
    pub game_branch_max: Option<String>,
}

/// What a `RevisionData` holds, as mathematical values.
#[verifier::ext_equal]
pub struct SpecRevisionData {
    pub revision: Option<i32>,
    pub file_hcontent: Option<u64>,
    pub rtime_updated: Option<u32>,
    pub game_branch_min: Option<Seq<char>>,
    pub game_branch_max: Option<Seq<char>>,
}

impl View for RevisionData {
    type V = SpecRevisionData;

    open spec fn view(&self) -> SpecRevisionData {
        SpecRevisionData {
            revision: match self.revision { Some(e) => Some(e.0), None => None },
            file_hcontent: self.file_hcontent,
            rtime_updated: self.rtime_updated,
            game_branch_min: opt_string_view(self.game_branch_min),
            game_branch_max: opt_string_view(self.game_branch_max),
        }
    }
}

impl Default for RevisionData {
    fn default() -> (r: Self)
        ensures
            r@ == RevisionData::spec_default(),
    {
        RevisionData {
            revision: None,
            file_hcontent: None,
            rtime_updated: None,
            game_branch_min: None,
            game_branch_max: None,
        }
    }
}

impl RevisionData {
    /// Field 1, or its schema default when absent.
    pub fn revision_or_default(&self) -> (r: crate::steammessages_publishedfile_steamclient::EPublishedFileRevision)
        ensures
            r == match self.revision {
                Some(e) => e,
                None => crate::steammessages_publishedfile_steamclient::EPublishedFileRevision(0),
            },
    {
        match self.revision {
            Some(e) => e,
            None => crate::steammessages_publishedfile_steamclient::EPublishedFileRevision::k_EPublishedFileRevision_Default(),
        }
    }

    pub open spec fn spec_default() -> SpecRevisionData {
        SpecRevisionData {
            revision: None,
            file_hcontent: None,
            rtime_updated: None,
            game_branch_min: None,
            game_branch_max: None,
        }
    }

    /// The records a `RevisionData` is written as, in field order.
    pub open spec fn spec_fields(v: SpecRevisionData) -> Seq<SpecField> {
        Seq::<SpecField>::empty()
            + opt_i32(1, v.revision)
            + opt_fixed64(2, v.file_hcontent)
            + opt_u32(3, v.rtime_updated)
            + opt_string(4, v.game_branch_min)
            + opt_string(5, v.game_branch_max)
    }

    #[verifier::opaque]
    pub open spec fn spec_encode(v: SpecRevisionData) -> Seq<u8> {
        fields_bytes(Self::spec_fields(v))
    }

    /// What one record does to the message: a declared number sets or extends its
    /// field, any other number is left alone.
    pub open spec fn spec_apply(v: SpecRevisionData, f: SpecField) -> Result<SpecRevisionData, WireError> {
        match f.number {
            1 => match dec_i32(f.value) {
                Ok(x) => Ok(SpecRevisionData { revision: Some(x), ..v }),
                Err(e) => Err(e),
            },
            2 => match dec_fixed64(f.value) {
                Ok(x) => Ok(SpecRevisionData { file_hcontent: Some(x), ..v }),
                Err(e) => Err(e),
            },
            3 => match dec_u32(f.value) {
                Ok(x) => Ok(SpecRevisionData { rtime_updated: Some(x), ..v }),
                Err(e) => Err(e),
            },
            4 => match dec_string(f.value) {
                Ok(x) => Ok(SpecRevisionData { game_branch_min: Some(x), ..v }),
                Err(e) => Err(e),
            },
            5 => match dec_string(f.value) {
                Ok(x) => Ok(SpecRevisionData { game_branch_max: Some(x), ..v }),
                Err(e) => Err(e),
            },
            _ => Ok(v),
        }
    }

    pub open spec fn apply_fn() -> spec_fn(SpecRevisionData, SpecField) -> Result<SpecRevisionData, WireError> {
        |v: SpecRevisionData, f: SpecField| Self::spec_apply(v, f)
    }

    /// The message `bytes` makes of `v`: its records applied in order, or the error
    /// that stops the reading.
    pub open spec fn spec_merge(v: SpecRevisionData, bytes: Seq<u8>) -> Result<SpecRevisionData, WireError> {
        let (w, stop) = merge_run(v, bytes, Self::apply_fn());
        match stop {
            None => Ok(w),
            Some(e) => Err(e),
        }
    }

    #[verifier::opaque]
    pub open spec fn spec_decode(bytes: Seq<u8>) -> Result<SpecRevisionData, WireError> {
        Self::spec_merge(Self::spec_default(), bytes)
    }

    pub open spec fn view_all(xs: Seq<RevisionData>) -> Seq<SpecRevisionData> {
        xs.map_values(|m: RevisionData| m@)
    }

    pub open spec fn view_opt(o: Option<RevisionData>) -> Option<SpecRevisionData> {
        match o {
            Some(m) => Some(m@),
            None => None,
        }
    }

    pub open spec fn spec_encode_all(xs: Seq<SpecRevisionData>) -> Seq<Seq<u8>> {
        xs.map_values(|m: SpecRevisionData| Self::spec_encode(m))
    }

    pub open spec fn spec_encode_opt(o: Option<SpecRevisionData>) -> Option<Seq<u8>> {
        match o {
            Some(m) => Some(Self::spec_encode(m)),
            None => None,
        }
    }

    /// The encoding of each element.
    pub fn encode_all(xs: &Vec<RevisionData>) -> (r: Vec<Vec<u8>>)
        ensures
            bytes_seq_view(r@) == Self::spec_encode_all(Self::view_all(xs@)),
    {
        let mut out: Vec<Vec<u8>> = Vec::new();
        let mut i: usize = 0;
        while i < xs.len()
            invariant
                i <= xs@.len(),
                out@.len() == i,
                forall|j: int| 0 <= j < i ==> #[trigger] out@[j]@ == Self::spec_encode(xs@[j]@),
            decreases xs@.len() - i,
        {
            let e = xs[i].encode_to_vec();
            out.push(e);
            i = i + 1;
        }
        assert(bytes_seq_view(out@) =~= Self::spec_encode_all(Self::view_all(xs@)));
        out
    }

    /// The encoding of the element, when there is one.
    pub fn encode_opt(o: &Option<RevisionData>) -> (r: Option<Vec<u8>>)
        ensures
            opt_bytes_view(r) == Self::spec_encode_opt(Self::view_opt(*o)),
    {
        match o {
            Some(m) => Some(m.encode_to_vec()),
            None => None,
        }
    }

    /// This message with one record applied to it, or, when the record is refused,
    /// the message unchanged and the reason.
    fn applied(self, f: &Field) -> (r: Result<Self, (Self, WireError)>)
        ensures
            match Self::spec_apply(self@, f@) {
                Ok(v) => r matches Ok(m) && m@ == v,
                Err(e) => r matches Err((m, x)) && x == e && m@ == self@,
            },
    {
        match f.number {
            1 => match read_i32(&f.value) {
                Ok(x) => Ok(Self { revision: Some(crate::steammessages_publishedfile_steamclient::EPublishedFileRevision(x)), ..self }),
                Err(e) => Err((self, e)),
            },
            2 => match read_fixed64(&f.value) {
                Ok(x) => Ok(Self { file_hcontent: Some(x), ..self }),
                Err(e) => Err((self, e)),
            },
            3 => match read_u32(&f.value) {
                Ok(x) => Ok(Self { rtime_updated: Some(x), ..self }),
                Err(e) => Err((self, e)),
            },
            4 => match read_string(&f.value) {
                Ok(x) => Ok(Self { game_branch_min: Some(x), ..self }),
                Err(e) => Err((self, e)),
            },
            5 => match read_string(&f.value) {
                Ok(x) => Ok(Self { game_branch_max: Some(x), ..self }),
                Err(e) => Err((self, e)),
            },
            _ => Ok(self),
        }
    }

    /// Reads the records `bytes` holds into this message, in order. When a record does
    /// not parse or is refused, the reading stops there: the message keeps what the
    /// records before it gave, and the error is returned.
    pub fn merge(&mut self, bytes: &[u8]) -> (r: Result<(), WireError>)
        ensures
            final(self)@ == merge_run(old(self)@, bytes@, Self::apply_fn()).0,
            r == match merge_run(old(self)@, bytes@, Self::apply_fn()).1 {
                None => Ok::<(), WireError>(()),
                Some(e) => Err::<(), WireError>(e),
            },
    {
        let ghost total = merge_run(self@, bytes@, Self::apply_fn());
        let mut cur = Self::default();
        std::mem::swap(&mut cur, self);
        let mut pos: usize = 0;
        assert(bytes@.skip(0) =~= bytes@);
        while pos < bytes.len()
            invariant
                pos <= bytes@.len(),
                total == merge_run(old(self)@, bytes@, Self::apply_fn()),
                merge_run(cur@, bytes@.skip(pos as int), Self::apply_fn()) == total,
            decreases bytes@.len() - pos,
        {
            let ghost s = bytes@.skip(pos as int);
            proof {
                lemma_merge_run_step(cur@, s, Self::apply_fn());
                lemma_parse_field_len(s);
            }
            match read_field(bytes, pos) {
                Ok((f, end)) => {
                    assert(bytes@.skip(end as int) =~= s.skip((end - pos) as int));
                    match cur.applied(&f) {
                        Ok(m) => {
                            cur = m;
                        },
                        Err((m, e)) => {
                            *self = m;
                            return Err(e);
                        },
                    }
                    pos = end;
                },
                Err(e) => {
                    *self = cur;
                    return Err(e);
                },
            }
        }
        assert(bytes@.skip(pos as int) =~= Seq::<u8>::empty());
        proof {
            lemma_merge_run_empty(cur@, Self::apply_fn());
        }
        *self = cur;
        Ok(())
    }

    /// Decodes a message from its encoding.
    pub fn decode(bytes: &[u8]) -> (r: Result<Self, WireError>)
        ensures
            match Self::spec_decode(bytes@) {
                Ok(v) => r matches Ok(m) && m@ == v,
                Err(e) => r matches Err(x) && x == e,
            },
    {
        proof {
            reveal(RevisionData::spec_decode);
        }
        let mut m = Self::default();
        match m.merge(bytes) {
            Ok(()) => Ok(m),
            Err(e) => Err(e),
        }
    }

    /// The encoding of this message.
    pub fn encode_to_vec(&self) -> (r: Vec<u8>)
        ensures
            r@ == Self::spec_encode(self@),
    {
        let ghost v = self@;
        let mut out: Vec<u8> = Vec::new();
        let ghost p0 = Seq::<SpecField>::empty();
        put_opt_i32(&mut out, 1, match self.revision { Some(e) => Some(e.0), None => None });
        let ghost p1 = p0 + opt_i32(1, v.revision);
        proof {
            lemma_fields_bytes_concat(p0, opt_i32(1, v.revision));
        }
        put_opt_fixed64(&mut out, 2, self.file_hcontent);
        let ghost p2 = p1 + opt_fixed64(2, v.file_hcontent);
        proof {
            lemma_fields_bytes_concat(p1, opt_fixed64(2, v.file_hcontent));
        }
        put_opt_u32(&mut out, 3, self.rtime_updated);
        let ghost p3 = p2 + opt_u32(3, v.rtime_updated);
        proof {
            lemma_fields_bytes_concat(p2, opt_u32(3, v.rtime_updated));
        }
        put_opt_string(&mut out, 4, &self.game_branch_min);
        let ghost p4 = p3 + opt_string(4, v.game_branch_min);
        proof {
            lemma_fields_bytes_concat(p3, opt_string(4, v.game_branch_min));
        }
        put_opt_string(&mut out, 5, &self.game_branch_max);
        let ghost p5 = p4 + opt_string(5, v.game_branch_max);
        proof {
            lemma_fields_bytes_concat(p4, opt_string(5, v.game_branch_max));
        }
        proof {
            reveal(RevisionData::spec_encode);
        }
        assert(p5 == Self::spec_fields(v));
        out
    }

    /// Appends the encoding of this message to `out`.
    pub fn encode_raw(&self, out: &mut Vec<u8>)
        ensures
            final(out)@ == old(out)@ + Self::spec_encode(self@),
    {
        let mut b = self.encode_to_vec();
        out.append(&mut b);
    }

    /// The first `k` fields of `v`, the others as a fresh message has them.
    #[verifier::opaque]
    pub open spec fn spec_prefix(v: SpecRevisionData, k: int) -> SpecRevisionData {
        SpecRevisionData {
            revision: if 1 <= k { v.revision } else { None },
            file_hcontent: if 2 <= k { v.file_hcontent } else { None },
            rtime_updated: if 3 <= k { v.rtime_updated } else { None },
            game_branch_min: if 4 <= k { v.game_branch_min } else { None },
            game_branch_max: if 5 <= k { v.game_branch_max } else { None },
        }
    }

    /// Reading field 1 back, after the fields before it.
    proof fn lemma_field_revision(v: SpecRevisionData)
        ensures
            fold_fields(Self::spec_prefix(v, 0), opt_i32(1, v.revision), Self::apply_fn())
                == Ok::<SpecRevisionData, WireError>(Self::spec_prefix(v, 1)),
    {
        reveal(RevisionData::spec_prefix);
        reveal(opt_i32);
        let apply = Self::apply_fn();
        let s = Self::spec_prefix(v, 0);
        lemma_fold_opt(s, 1, match v.revision { Some(x) => Some(enc_i32(x)), None => None }, apply);
        if let Some(x) = v.revision {
            lemma_i32_roundtrip(x);
        }
        assert(SpecRevisionData { revision: v.revision, ..s } == Self::spec_prefix(v, 1));
    }

    /// Reading field 2 back, after the fields before it.
    proof fn lemma_field_file_hcontent(v: SpecRevisionData)
        ensures
            fold_fields(Self::spec_prefix(v, 1), opt_fixed64(2, v.file_hcontent), Self::apply_fn())
                == Ok::<SpecRevisionData, WireError>(Self::spec_prefix(v, 2)),
    {
        reveal(RevisionData::spec_prefix);
        reveal(opt_fixed64);
        let apply = Self::apply_fn();
        let s = Self::spec_prefix(v, 1);
        lemma_fold_opt(s, 2, match v.file_hcontent { Some(x) => Some(enc_fixed64(x)), None => None }, apply);
        if let Some(x) = v.file_hcontent {
            lemma_u64_roundtrip(x);
        }
        assert(SpecRevisionData { file_hcontent: v.file_hcontent, ..s } == Self::spec_prefix(v, 2));
    }

    /// Reading field 3 back, after the fields before it.
    proof fn lemma_field_rtime_updated(v: SpecRevisionData)
        ensures
            fold_fields(Self::spec_prefix(v, 2), opt_u32(3, v.rtime_updated), Self::apply_fn())
                == Ok::<SpecRevisionData, WireError>(Self::spec_prefix(v, 3)),
    {
        reveal(RevisionData::spec_prefix);
        reveal(opt_u32);
        let apply = Self::apply_fn();
        let s = Self::spec_prefix(v, 2);
        lemma_fold_opt(s, 3, match v.rtime_updated { Some(x) => Some(enc_u32(x)), None => None }, apply);
        if let Some(x) = v.rtime_updated {
            lemma_u32_roundtrip(x);
        }
        assert(SpecRevisionData { rtime_updated: v.rtime_updated, ..s } == Self::spec_prefix(v, 3));
    }

    /// Reading field 4 back, after the fields before it.
    proof fn lemma_field_game_branch_min(v: SpecRevisionData)
        ensures
            fold_fields(Self::spec_prefix(v, 3), opt_string(4, v.game_branch_min), Self::apply_fn())
                == Ok::<SpecRevisionData, WireError>(Self::spec_prefix(v, 4)),
    {
        reveal(RevisionData::spec_prefix);
        reveal(opt_string);
        let apply = Self::apply_fn();
        let s = Self::spec_prefix(v, 3);
        lemma_fold_opt(s, 4, match v.game_branch_min { Some(x) => Some(enc_string(x)), None => None }, apply);
        if let Some(x) = v.game_branch_min {
            lemma_string_roundtrip(x);
        }
        assert(SpecRevisionData { game_branch_min: v.game_branch_min, ..s } == Self::spec_prefix(v, 4));
    }

    /// Reading field 5 back, after the fields before it.
    proof fn lemma_field_game_branch_max(v: SpecRevisionData)
        ensures
            fold_fields(Self::spec_prefix(v, 4), opt_string(5, v.game_branch_max), Self::apply_fn())
                == Ok::<SpecRevisionData, WireError>(Self::spec_prefix(v, 5)),
    {
        reveal(RevisionData::spec_prefix);
        reveal(opt_string);
        let apply = Self::apply_fn();
        let s = Self::spec_prefix(v, 4);
        lemma_fold_opt(s, 5, match v.game_branch_max { Some(x) => Some(enc_string(x)), None => None }, apply);
        if let Some(x) = v.game_branch_max {
            lemma_string_roundtrip(x);
        }
        assert(SpecRevisionData { game_branch_max: v.game_branch_max, ..s } == Self::spec_prefix(v, 5));
    }

    /// Whether this message declares field number `n`.
    pub open spec fn declares(n: u32) -> bool {
        n == 1 || n == 2 || n == 3 || n == 4 || n == 5
    }

    /// A record with a number this message does not declare is passed over: well-formed
    /// bytes decode to the same message with such a record after them as without it.
    pub proof fn lemma_unknown_field(bytes: Seq<u8>, f: SpecField)
        requires
            parse_fields(bytes) is Ok,
            field_wf(f),
            !Self::declares(f.number),
        ensures
            Self::spec_decode(bytes + field_bytes(f)) == Self::spec_decode(bytes),
    {
        reveal(RevisionData::spec_decode);
        lemma_parse_fields_append(bytes, f);
        let fs = parse_fields(bytes).unwrap();
        let apply = Self::apply_fn();
        lemma_fold_concat(Self::spec_default(), fs, seq![f], apply);
        assert(fs.push(f) =~= fs + seq![f]);
        if let Ok(w) = fold_fields(Self::spec_default(), fs, apply) {
            lemma_fold_single(w, f, apply);
        }
        lemma_merge_run_fold(Self::spec_default(), bytes, apply);
        lemma_merge_run_fold(Self::spec_default(), bytes + field_bytes(f), apply);
    }

    /// Decoding the encoding of a message gives the message back.
    pub proof fn lemma_decode_encode(v: SpecRevisionData)
        requires
            Self::spec_encode(v).len() <= u64::MAX,
        ensures
            Self::spec_decode(Self::spec_encode(v)) == Ok::<SpecRevisionData, WireError>(v),
    {
        let apply = Self::apply_fn();
        let d = Self::spec_default();
        let p0 = Seq::<SpecField>::empty();
        let l1 = opt_i32(1, v.revision);
        let p1 = p0 + l1;
        let l2 = opt_fixed64(2, v.file_hcontent);
        let p2 = p1 + l2;
        let l3 = opt_u32(3, v.rtime_updated);
        let p3 = p2 + l3;
        let l4 = opt_string(4, v.game_branch_min);
        let p4 = p3 + l4;
        let l5 = opt_string(5, v.game_branch_max);
        let p5 = p4 + l5;
        assert(parse_fields(Self::spec_encode(v)) == Ok::<Seq<SpecField>, WireError>(p5)) by {
            reveal(RevisionData::spec_encode);
            assert(numbers_ok(p0) && fields_wf(p0)) by {
                reveal(numbers_ok);
                reveal(fields_wf);
            }
            lemma_opt_i32_numbered(1, v.revision);
            lemma_fields_wf_concat(p0, l1);
            lemma_opt_fixed64_numbered(2, v.file_hcontent);
            lemma_fields_wf_concat(p1, l2);
            lemma_opt_u32_numbered(3, v.rtime_updated);
            lemma_fields_wf_concat(p2, l3);
            lemma_opt_string_numbered(4, v.game_branch_min);
            lemma_fields_wf_concat(p3, l4);
            lemma_opt_string_numbered(5, v.game_branch_max);
            lemma_fields_wf_concat(p4, l5);
            assert(p5 == Self::spec_fields(v));
            lemma_fields_wf_from_len(p5);
            lemma_fields_roundtrip(p5);
        }
        assert(Self::spec_prefix(v, 0) == d) by {
            reveal(RevisionData::spec_prefix);
        }
        lemma_fold_empty(d, apply);
        lemma_fold_concat(d, p0, l1, apply);
        Self::lemma_field_revision(v);
        lemma_fold_concat(d, p1, l2, apply);
        Self::lemma_field_file_hcontent(v);
        lemma_fold_concat(d, p2, l3, apply);
        Self::lemma_field_rtime_updated(v);
        lemma_fold_concat(d, p3, l4, apply);
        Self::lemma_field_game_branch_min(v);
        lemma_fold_concat(d, p4, l5, apply);
        Self::lemma_field_game_branch_max(v);
        assert(Self::spec_prefix(v, 5) == v) by {
            reveal(RevisionData::spec_prefix);
        }
        lemma_merge_run_fold(d, Self::spec_encode(v), apply);
        assert(Self::spec_decode(Self::spec_encode(v)) == Ok::<SpecRevisionData, WireError>(v)) by {
            reveal(RevisionData::spec_decode);
        }
    }
}

} // verus!
