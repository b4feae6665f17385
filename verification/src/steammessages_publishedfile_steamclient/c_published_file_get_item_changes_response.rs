//! Types nested inside `c_published_file_get_item_changes_response`.


use vstd::prelude::*;

use crate::codec::{
    bytes_seq_view, dec_bytes, dec_fixed64, dec_u32, enc_fixed64, enc_u32, fold_fields,
    lemma_fold_chain, lemma_fold_concat, lemma_fold_empty, lemma_fold_opt, lemma_fold_single,
    lemma_merge_run_empty, lemma_merge_run_fold, lemma_merge_run_step,
    lemma_opt_fixed64_numbered, lemma_opt_u32_numbered, lemma_rep_bytes_numbered,
    lemma_u32_roundtrip, lemma_u64_roundtrip, merge_run, opt_bytes_view, opt_fixed64, opt_u32,
    put_opt_fixed64, put_opt_u32, put_rep_bytes, read_fixed64, read_payload, read_u32, rep_bytes,
};

use crate::wire::fields::{
    field_bytes, field_wf, fields_bytes, fields_wf, lemma_fields_bytes_concat,
    lemma_fields_roundtrip, lemma_fields_wf_concat, lemma_fields_wf_from_len,
    lemma_parse_field_len, lemma_parse_fields_append, numbers_ok, parse_fields, read_field,
    Field, SpecField,
};
use crate::wire::varint::WireError;

verus! {

/// `WorkshopItemInfo`, as Valve's schema declares it.
#[derive(Debug, Clone, PartialEq)]
pub struct WorkshopItemInfo {
    /// Field 1.
    pub published_file_id: Option<u64>,
    /// Field 2.
    pub time_updated: Option<u32>,
    /// Field 3.
    pub manifest_id: Option<u64>,
    /// Field 4.
    pub author_snapshots: Vec<crate::steammessages_publishedfile_steamclient::PublishedFileAuthorSnapshot>,
    /// Field 5.
    pub flags: Option<u32>,
}

/// What a `WorkshopItemInfo` holds, as mathematical values.
#[verifier::ext_equal]
pub struct SpecWorkshopItemInfo {
    pub published_file_id: Option<u64>,
    pub time_updated: Option<u32>,
    pub manifest_id: Option<u64>,
    pub author_snapshots: Seq<crate::steammessages_publishedfile_steamclient::SpecPublishedFileAuthorSnapshot>,
    pub flags: Option<u32>,
}

impl View for WorkshopItemInfo {
    type V = SpecWorkshopItemInfo;

    open spec fn view(&self) -> SpecWorkshopItemInfo {
        SpecWorkshopItemInfo {
            published_file_id: self.published_file_id,
            time_updated: self.time_updated,
            manifest_id: self.manifest_id,
            author_snapshots: crate::steammessages_publishedfile_steamclient::PublishedFileAuthorSnapshot::view_all(self.author_snapshots@),
            flags: self.flags,
        }
    }
}

impl Default for WorkshopItemInfo {
    fn default() -> (r: Self)
        ensures
            r@ == WorkshopItemInfo::spec_default(),
    {
        WorkshopItemInfo {
            published_file_id: None,
            time_updated: None,
            manifest_id: None,
            author_snapshots: Vec::new(),
            flags: None,
        }
    }
}

impl WorkshopItemInfo {
    pub open spec fn spec_default() -> SpecWorkshopItemInfo {
        SpecWorkshopItemInfo {
            published_file_id: None,
            time_updated: None,
            manifest_id: None,
            author_snapshots: Seq::empty(),
            flags: None,
        }
    }

    /// The records a `WorkshopItemInfo` is written as, in field order.
    pub open spec fn spec_fields(v: SpecWorkshopItemInfo) -> Seq<SpecField> {
        Seq::<SpecField>::empty()
            + opt_fixed64(1, v.published_file_id)
            + opt_u32(2, v.time_updated)
            + opt_fixed64(3, v.manifest_id)
            + rep_bytes(4, crate::steammessages_publishedfile_steamclient::PublishedFileAuthorSnapshot::spec_encode_all(v.author_snapshots))
            + opt_u32(5, v.flags)
    }

    #[verifier::opaque]
    pub open spec fn spec_encode(v: SpecWorkshopItemInfo) -> Seq<u8> {
        fields_bytes(Self::spec_fields(v))
    }

    /// What one record does to the message: a declared number sets or extends its
    /// field, any other number is left alone.
    pub open spec fn spec_apply(v: SpecWorkshopItemInfo, f: SpecField) -> Result<SpecWorkshopItemInfo, WireError> {
        match f.number {
            1 => match dec_fixed64(f.value) {
                Ok(x) => Ok(SpecWorkshopItemInfo { published_file_id: Some(x), ..v }),
                Err(e) => Err(e),
            },
            2 => match dec_u32(f.value) {
                Ok(x) => Ok(SpecWorkshopItemInfo { time_updated: Some(x), ..v }),
                Err(e) => Err(e),
            },
            3 => match dec_fixed64(f.value) {
                Ok(x) => Ok(SpecWorkshopItemInfo { manifest_id: Some(x), ..v }),
                Err(e) => Err(e),
            },
            4 => match dec_bytes(f.value) {
                Ok(b) => match crate::steammessages_publishedfile_steamclient::PublishedFileAuthorSnapshot::spec_decode(b) {
                    Ok(m) => Ok(SpecWorkshopItemInfo { author_snapshots: v.author_snapshots.push(m), ..v }),
                    Err(e) => Err(e),
                },
                Err(e) => Err(e),
            },
            5 => match dec_u32(f.value) {
                Ok(x) => Ok(SpecWorkshopItemInfo { flags: Some(x), ..v }),
                Err(e) => Err(e),
            },
            _ => Ok(v),
        }
    }

    pub open spec fn apply_fn() -> spec_fn(SpecWorkshopItemInfo, SpecField) -> Result<SpecWorkshopItemInfo, WireError> {
        |v: SpecWorkshopItemInfo, f: SpecField| Self::spec_apply(v, f)
    }

    /// The message `bytes` makes of `v`: its records applied in order, or the error
    /// that stops the reading.
    pub open spec fn spec_merge(v: SpecWorkshopItemInfo, bytes: Seq<u8>) -> Result<SpecWorkshopItemInfo, WireError> {
        let (w, stop) = merge_run(v, bytes, Self::apply_fn());
        match stop {
            None => Ok(w),
            Some(e) => Err(e),
        }
    }

    #[verifier::opaque]
    pub open spec fn spec_decode(bytes: Seq<u8>) -> Result<SpecWorkshopItemInfo, WireError> {
        Self::spec_merge(Self::spec_default(), bytes)
    }

    pub open spec fn view_all(xs: Seq<WorkshopItemInfo>) -> Seq<SpecWorkshopItemInfo> {
        xs.map_values(|m: WorkshopItemInfo| m@)
    }

    pub open spec fn view_opt(o: Option<WorkshopItemInfo>) -> Option<SpecWorkshopItemInfo> {
        match o {
            Some(m) => Some(m@),
            None => None,
        }
    }

    pub open spec fn spec_encode_all(xs: Seq<SpecWorkshopItemInfo>) -> Seq<Seq<u8>> {
        xs.map_values(|m: SpecWorkshopItemInfo| Self::spec_encode(m))
    }

    pub open spec fn spec_encode_opt(o: Option<SpecWorkshopItemInfo>) -> Option<Seq<u8>> {
        match o {
            Some(m) => Some(Self::spec_encode(m)),
            None => None,
        }
    }

    /// The encoding of each element.
    pub fn encode_all(xs: &Vec<WorkshopItemInfo>) -> (r: Vec<Vec<u8>>)
        ensures
            bytes_seq_view(r@) == Self::spec_encode_all(Self::view_all(xs@)),
    {
        let mut out: Vec<Vec<u8>> = Vec::new();
        let mut i: usize = 0;
        while i < xs.len()
            invariant
                i <= xs@.len(),
                out@.len() == i,
                forall|j: int| 0 <= j < i ==> #[trigger] out@[j]@ == Self::spec_encode(xs@[j]@),
            decreases xs@.len() - i,
        {
            let e = xs[i].encode_to_vec();
            out.push(e);
            i = i + 1;
        }
        assert(bytes_seq_view(out@) =~= Self::spec_encode_all(Self::view_all(xs@)));
        out
    }

    /// The encoding of the element, when there is one.
    pub fn encode_opt(o: &Option<WorkshopItemInfo>) -> (r: Option<Vec<u8>>)
        ensures
            opt_bytes_view(r) == Self::spec_encode_opt(Self::view_opt(*o)),
    {
        match o {
            Some(m) => Some(m.encode_to_vec()),
            None => None,
        }
    }

    /// This message with one record applied to it, or, when the record is refused,
    /// the message unchanged and the reason.
    fn applied(self, f: &Field) -> (r: Result<Self, (Self, WireError)>)
        ensures
            match Self::spec_apply(self@, f@) {
                Ok(v) => r matches Ok(m) && m@ == v,
                Err(e) => r matches Err((m, x)) && x == e && m@ == self@,
            },
    {
        match f.number {
            1 => match read_fixed64(&f.value) {
                Ok(x) => Ok(Self { published_file_id: Some(x), ..self }),
                Err(e) => Err((self, e)),
            },
            2 => match read_u32(&f.value) {
                Ok(x) => Ok(Self { time_updated: Some(x), ..self }),
                Err(e) => Err((self, e)),
            },
            3 => match read_fixed64(&f.value) {
                Ok(x) => Ok(Self { manifest_id: Some(x), ..self }),
                Err(e) => Err((self, e)),
            },
            4 => match read_payload(&f.value) {
                Ok(b) => match crate::steammessages_publishedfile_steamclient::PublishedFileAuthorSnapshot::decode(b) {
                    Ok(x) => {
                        let mut m = self;
                        let ghost before = m.author_snapshots@;
                        m.author_snapshots.push(x);
                        assert(crate::steammessages_publishedfile_steamclient::PublishedFileAuthorSnapshot::view_all(m.author_snapshots@) =~= crate::steammessages_publishedfile_steamclient::PublishedFileAuthorSnapshot::view_all(before).push(x@));
                        Ok(m)
                    },
                    Err(e) => Err((self, e)),
                },
                Err(e) => Err((self, e)),
            },
            5 => match read_u32(&f.value) {
                Ok(x) => Ok(Self { flags: Some(x), ..self }),
                Err(e) => Err((self, e)),
            },
            _ => Ok(self),
        }
    }

    /// Reads the records `bytes` holds into this message, in order. When a record does
    /// not parse or is refused, the reading stops there: the message keeps what the
    /// records before it gave, and the error is returned.
    pub fn merge(&mut self, bytes: &[u8]) -> (r: Result<(), WireError>)
        ensures
            final(self)@ == merge_run(old(self)@, bytes@, Self::apply_fn()).0,
            r == match merge_run(old(self)@, bytes@, Self::apply_fn()).1 {
                None => Ok::<(), WireError>(()),
                Some(e) => Err::<(), WireError>(e),
            },
    {
        let ghost total = merge_run(self@, bytes@, Self::apply_fn());
        let mut cur = Self::default();
        std::mem::swap(&mut cur, self);
        let mut pos: usize = 0;
        assert(bytes@.skip(0) =~= bytes@);
        while pos < bytes.len()
            invariant
                pos <= bytes@.len(),
                total == merge_run(old(self)@, bytes@, Self::apply_fn()),
                merge_run(cur@, bytes@.skip(pos as int), Self::apply_fn()) == total,
            decreases bytes@.len() - pos,
        {
            let ghost s = bytes@.skip(pos as int);
            proof {
                lemma_merge_run_step(cur@, s, Self::apply_fn());
                lemma_parse_field_len(s);
            }
            match read_field(bytes, pos) {
                Ok((f, end)) => {
                    assert(bytes@.skip(end as int) =~= s.skip((end - pos) as int));
                    match cur.applied(&f) {
                        Ok(m) => {
                            cur = m;
                        },
                        Err((m, e)) => {
                            *self = m;
                            return Err(e);
                        },
                    }
                    pos = end;
                },
                Err(e) => {
                    *self = cur;
                    return Err(e);
                },
            }
        }
        assert(bytes@.skip(pos as int) =~= Seq::<u8>::empty());
        proof {
            lemma_merge_run_empty(cur@, Self::apply_fn());
        }
        *self = cur;
        Ok(())
    }

    /// Decodes a message from its encoding.
    pub fn decode(bytes: &[u8]) -> (r: Result<Self, WireError>)
        ensures
            match Self::spec_decode(bytes@) {
                Ok(v) => r matches Ok(m) && m@ == v,
                Err(e) => r matches Err(x) && x == e,
            },
    {
        proof {
            reveal(WorkshopItemInfo::spec_decode);
        }
        let mut m = Self::default();
        match m.merge(bytes) {
            Ok(()) => Ok(m),
            Err(e) => Err(e),
        }
    }

    /// The encoding of this message.
    pub fn encode_to_vec(&self) -> (r: Vec<u8>)
        ensures
            r@ == Self::spec_encode(self@),
    {
        let enc_author_snapshots = crate::steammessages_publishedfile_steamclient::PublishedFileAuthorSnapshot::encode_all(&self.author_snapshots);
        let ghost v = self@;
        let mut out: Vec<u8> = Vec::new();
        let ghost p0 = Seq::<SpecField>::empty();
        put_opt_fixed64(&mut out, 1, self.published_file_id);
        let ghost p1 = p0 + opt_fixed64(1, v.published_file_id);
        proof {
            lemma_fields_bytes_concat(p0, opt_fixed64(1, v.published_file_id));
        }
        put_opt_u32(&mut out, 2, self.time_updated);
        let ghost p2 = p1 + opt_u32(2, v.time_updated);
        proof {
            lemma_fields_bytes_concat(p1, opt_u32(2, v.time_updated));
        }
        put_opt_fixed64(&mut out, 3, self.manifest_id);
        let ghost p3 = p2 + opt_fixed64(3, v.manifest_id);
        proof {
            lemma_fields_bytes_concat(p2, opt_fixed64(3, v.manifest_id));
        }
        put_rep_bytes(&mut out, 4, &enc_author_snapshots);
        let ghost p4 = p3 + rep_bytes(4, crate::steammessages_publishedfile_steamclient::PublishedFileAuthorSnapshot::spec_encode_all(v.author_snapshots));
        proof {
            lemma_fields_bytes_concat(p3, rep_bytes(4, crate::steammessages_publishedfile_steamclient::PublishedFileAuthorSnapshot::spec_encode_all(v.author_snapshots)));
        }
        put_opt_u32(&mut out, 5, self.flags);
        let ghost p5 = p4 + opt_u32(5, v.flags);
        proof {
            lemma_fields_bytes_concat(p4, opt_u32(5, v.flags));
        }
        proof {
            reveal(WorkshopItemInfo::spec_encode);
        }
        assert(p5 == Self::spec_fields(v));
        out
    }

    /// Appends the encoding of this message to `out`.
    pub fn encode_raw(&self, out: &mut Vec<u8>)
        ensures
            final(out)@ == old(out)@ + Self::spec_encode(self@),
    {
        let mut b = self.encode_to_vec();
        out.append(&mut b);
    }

    /// The first `k` fields of `v`, the others as a fresh message has them.
    #[verifier::opaque]
    pub open spec fn spec_prefix(v: SpecWorkshopItemInfo, k: int) -> SpecWorkshopItemInfo {
        SpecWorkshopItemInfo {
            published_file_id: if 1 <= k { v.published_file_id } else { None },
            time_updated: if 2 <= k { v.time_updated } else { None },
            manifest_id: if 3 <= k { v.manifest_id } else { None },
            author_snapshots: if 4 <= k { v.author_snapshots } else { Seq::empty() },
            flags: if 5 <= k { v.flags } else { None },
        }
    }

    /// Reading field 1 back, after the fields before it.
    proof fn lemma_field_published_file_id(v: SpecWorkshopItemInfo)
        ensures
            fold_fields(Self::spec_prefix(v, 0), opt_fixed64(1, v.published_file_id), Self::apply_fn())
                == Ok::<SpecWorkshopItemInfo, WireError>(Self::spec_prefix(v, 1)),
    {
        reveal(WorkshopItemInfo::spec_prefix);
        reveal(opt_fixed64);
        let apply = Self::apply_fn();
        let s = Self::spec_prefix(v, 0);
        lemma_fold_opt(s, 1, match v.published_file_id { Some(x) => Some(enc_fixed64(x)), None => None }, apply);
        if let Some(x) = v.published_file_id {
            lemma_u64_roundtrip(x);
        }
        assert(SpecWorkshopItemInfo { published_file_id: v.published_file_id, ..s } == Self::spec_prefix(v, 1));
    }

    /// Reading field 2 back, after the fields before it.
    proof fn lemma_field_time_updated(v: SpecWorkshopItemInfo)
        ensures
            fold_fields(Self::spec_prefix(v, 1), opt_u32(2, v.time_updated), Self::apply_fn())
                == Ok::<SpecWorkshopItemInfo, WireError>(Self::spec_prefix(v, 2)),
    {
        reveal(WorkshopItemInfo::spec_prefix);
        reveal(opt_u32);
        let apply = Self::apply_fn();
        let s = Self::spec_prefix(v, 1);
        lemma_fold_opt(s, 2, match v.time_updated { Some(x) => Some(enc_u32(x)), None => None }, apply);
        if let Some(x) = v.time_updated {
            lemma_u32_roundtrip(x);
        }
        assert(SpecWorkshopItemInfo { time_updated: v.time_updated, ..s } == Self::spec_prefix(v, 2));
    }

    /// Reading field 3 back, after the fields before it.
    proof fn lemma_field_manifest_id(v: SpecWorkshopItemInfo)
        ensures
            fold_fields(Self::spec_prefix(v, 2), opt_fixed64(3, v.manifest_id), Self::apply_fn())
                == Ok::<SpecWorkshopItemInfo, WireError>(Self::spec_prefix(v, 3)),
    {
        reveal(WorkshopItemInfo::spec_prefix);
        reveal(opt_fixed64);
        let apply = Self::apply_fn();
        let s = Self::spec_prefix(v, 2);
        lemma_fold_opt(s, 3, match v.manifest_id { Some(x) => Some(enc_fixed64(x)), None => None }, apply);
        if let Some(x) = v.manifest_id {
            lemma_u64_roundtrip(x);
        }
        assert(SpecWorkshopItemInfo { manifest_id: v.manifest_id, ..s } == Self::spec_prefix(v, 3));
    }

    /// Reading field 4 back, after the fields before it.
    proof fn lemma_field_author_snapshots(v: SpecWorkshopItemInfo)
        requires
            fields_wf(rep_bytes(4, crate::steammessages_publishedfile_steamclient::PublishedFileAuthorSnapshot::spec_encode_all(v.author_snapshots))),
        ensures
            fold_fields(Self::spec_prefix(v, 3), rep_bytes(4, crate::steammessages_publishedfile_steamclient::PublishedFileAuthorSnapshot::spec_encode_all(v.author_snapshots)), Self::apply_fn())
                == Ok::<SpecWorkshopItemInfo, WireError>(Self::spec_prefix(v, 4)),
    {
        reveal(WorkshopItemInfo::spec_prefix);
        reveal(rep_bytes);
        reveal(fields_wf);
        let apply = Self::apply_fn();
        let s = Self::spec_prefix(v, 3);
        let l = rep_bytes(4, crate::steammessages_publishedfile_steamclient::PublishedFileAuthorSnapshot::spec_encode_all(v.author_snapshots));
        let xs = v.author_snapshots;
        let st = Seq::new((xs.len() + 1) as nat, |j: int| SpecWorkshopItemInfo { author_snapshots: xs.take(j), ..s });
        assert forall|j: int| 0 <= j < l.len() implies #[trigger] apply(st[j], l[j]) == Ok::<SpecWorkshopItemInfo, WireError>(st[j + 1]) by {
            assert(field_wf(l[j]));
            crate::steammessages_publishedfile_steamclient::PublishedFileAuthorSnapshot::lemma_decode_encode(xs[j]);
            assert(xs.take(j).push(xs[j]) =~= xs.take(j + 1));
        }
        lemma_fold_chain(l, st, apply);
        assert(xs.take(0) =~= Seq::<crate::steammessages_publishedfile_steamclient::SpecPublishedFileAuthorSnapshot>::empty());
        assert(xs.take(xs.len() as int) =~= xs);
        assert(st[0] == s);
        assert(st[xs.len() as int] == Self::spec_prefix(v, 4));
    }

    /// Reading field 5 back, after the fields before it.
    proof fn lemma_field_flags(v: SpecWorkshopItemInfo)
        ensures
            fold_fields(Self::spec_prefix(v, 4), opt_u32(5, v.flags), Self::apply_fn())
                == Ok::<SpecWorkshopItemInfo, WireError>(Self::spec_prefix(v, 5)),
    {
        reveal(WorkshopItemInfo::spec_prefix);
        reveal(opt_u32);
        let apply = Self::apply_fn();
        let s = Self::spec_prefix(v, 4);
        lemma_fold_opt(s, 5, match v.flags { Some(x) => Some(enc_u32(x)), None => None }, apply);
        if let Some(x) = v.flags {
            lemma_u32_roundtrip(x);
        }
        assert(SpecWorkshopItemInfo { flags: v.flags, ..s } == Self::spec_prefix(v, 5));
    }

    /// Whether this message declares field number `n`.
    pub open spec fn declares(n: u32) -> bool {
        n == 1 || n == 2 || n == 3 || n == 4 || n == 5
    }

    /// A record with a number this message does not declare is passed over: well-formed
    /// bytes decode to the same message with such a record after them as without it.
    pub proof fn lemma_unknown_field(bytes: Seq<u8>, f: SpecField)
        requires
            parse_fields(bytes) is Ok,
            field_wf(f),
            !Self::declares(f.number),
        ensures
            Self::spec_decode(bytes + field_bytes(f)) == Self::spec_decode(bytes),
    {
        reveal(WorkshopItemInfo::spec_decode);
        lemma_parse_fields_append(bytes, f);
        let fs = parse_fields(bytes).unwrap();
        let apply = Self::apply_fn();
        lemma_fold_concat(Self::spec_default(), fs, seq![f], apply);
        assert(fs.push(f) =~= fs + seq![f]);
        if let Ok(w) = fold_fields(Self::spec_default(), fs, apply) {
            lemma_fold_single(w, f, apply);
        }
        lemma_merge_run_fold(Self::spec_default(), bytes, apply);
        lemma_merge_run_fold(Self::spec_default(), bytes + field_bytes(f), apply);
    }

    /// Decoding the encoding of a message gives the message back.
    pub proof fn lemma_decode_encode(v: SpecWorkshopItemInfo)
        requires
            Self::spec_encode(v).len() <= u64::MAX,
        ensures
            Self::spec_decode(Self::spec_encode(v)) == Ok::<SpecWorkshopItemInfo, WireError>(v),
    {
        let apply = Self::apply_fn();
        let d = Self::spec_default();
        let p0 = Seq::<SpecField>::empty();
        let l1 = opt_fixed64(1, v.published_file_id);
        let p1 = p0 + l1;
        let l2 = opt_u32(2, v.time_updated);
        let p2 = p1 + l2;
        let l3 = opt_fixed64(3, v.manifest_id);
        let p3 = p2 + l3;
        let l4 = rep_bytes(4, crate::steammessages_publishedfile_steamclient::PublishedFileAuthorSnapshot::spec_encode_all(v.author_snapshots));
        let p4 = p3 + l4;
        let l5 = opt_u32(5, v.flags);
        let p5 = p4 + l5;
        assert(parse_fields(Self::spec_encode(v)) == Ok::<Seq<SpecField>, WireError>(p5) && fields_wf(l4)) by {
            reveal(WorkshopItemInfo::spec_encode);
            assert(numbers_ok(p0) && fields_wf(p0)) by {
                reveal(numbers_ok);
                reveal(fields_wf);
            }
            lemma_opt_fixed64_numbered(1, v.published_file_id);
            lemma_fields_wf_concat(p0, l1);
            lemma_opt_u32_numbered(2, v.time_updated);
            lemma_fields_wf_concat(p1, l2);
            lemma_opt_fixed64_numbered(3, v.manifest_id);
            lemma_fields_wf_concat(p2, l3);
            lemma_rep_bytes_numbered(4, crate::steammessages_publishedfile_steamclient::PublishedFileAuthorSnapshot::spec_encode_all(v.author_snapshots));
            lemma_fields_wf_concat(p3, l4);
            lemma_opt_u32_numbered(5, v.flags);
            lemma_fields_wf_concat(p4, l5);
            assert(p5 == Self::spec_fields(v));
            lemma_fields_wf_from_len(p5);
            lemma_fields_roundtrip(p5);
        }
        assert(Self::spec_prefix(v, 0) == d) by {
            reveal(WorkshopItemInfo::spec_prefix);
        }
        lemma_fold_empty(d, apply);
        lemma_fold_concat(d, p0, l1, apply);
        Self::lemma_field_published_file_id(v);
        lemma_fold_concat(d, p1, l2, apply);
        Self::lemma_field_time_updated(v);
        lemma_fold_concat(d, p2, l3, apply);
        Self::lemma_field_manifest_id(v);
        lemma_fold_concat(d, p3, l4, apply);
        Self::lemma_field_author_snapshots(v);
        lemma_fold_concat(d, p4, l5, apply);
        Self::lemma_field_flags(v);
        assert(Self::spec_prefix(v, 5) == v) by {
            reveal(WorkshopItemInfo::spec_prefix);
        }
        lemma_merge_run_fold(d, Self::spec_encode(v), apply);
        assert(Self::spec_decode(Self::spec_encode(v)) == Ok::<SpecWorkshopItemInfo, WireError>(v)) by {
            reveal(WorkshopItemInfo::spec_decode);
        }
    }
}

} // verus!
