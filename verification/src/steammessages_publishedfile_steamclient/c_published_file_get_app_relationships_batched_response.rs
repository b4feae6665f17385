//! Types nested inside `c_published_file_get_app_relationships_batched_response`.


use vstd::prelude::*;

use crate::codec::{
    bytes_seq_view, dec_bytes, dec_u32, dec_u64, enc_u32, enc_u64, fold_fields,
    lemma_fold_chain, lemma_fold_concat, lemma_fold_empty, lemma_fold_opt, lemma_fold_single,
    lemma_merge_run_empty, lemma_merge_run_fold, lemma_merge_run_step, lemma_opt_u32_numbered,
    lemma_opt_u64_numbered, lemma_rep_bytes_numbered, lemma_u32_roundtrip, lemma_u64_roundtrip,
    merge_run, opt_bytes_view, opt_u32, opt_u64, put_opt_u32, put_opt_varint, put_rep_bytes,
    read_payload, read_u32, read_u64, rep_bytes,
};

use crate::wire::fields::{
    field_bytes, field_wf, fields_bytes, fields_wf, lemma_fields_bytes_concat,
    lemma_fields_roundtrip, lemma_fields_wf_concat, lemma_fields_wf_from_len,
    lemma_parse_field_len, lemma_parse_fields_append, numbers_ok, parse_fields, read_field,
    Field, SpecField,
};
use crate::wire::varint::WireError;

verus! {

/// `AppRelationship`, as Valve's schema declares it.
#[derive(Debug, Clone, PartialEq)]
pub struct AppRelationship {
    /// Field 1.
    pub appid: Option<u32>,
    /// Field 2.
    pub relationship: Option<u32>,
}

/// What a `AppRelationship` holds, as mathematical values.
#[verifier::ext_equal]
pub struct SpecAppRelationship {
    pub appid: Option<u32>,
    pub relationship: Option<u32>,
}

impl View for AppRelationship {
    type V = SpecAppRelationship;

    open spec fn view(&self) -> SpecAppRelationship {
        SpecAppRelationship {
            appid: self.appid,
            relationship: self.relationship,
        }
    }
}

impl Default for AppRelationship {
    fn default() -> (r: Self)
        ensures
            r@ == AppRelationship::spec_default(),
    {
        AppRelationship {
            appid: None,
            relationship: None,
        }
    }
}

impl AppRelationship {
    pub open spec fn spec_default() -> SpecAppRelationship {
        SpecAppRelationship {
            appid: None,
            relationship: None,
        }
    }

    /// The records a `AppRelationship` is written as, in field order.
    pub open spec fn spec_fields(v: SpecAppRelationship) -> Seq<SpecField> {
        Seq::<SpecField>::empty()
            + opt_u32(1, v.appid)
            + opt_u32(2, v.relationship)
    }

    #[verifier::opaque]
    pub open spec fn spec_encode(v: SpecAppRelationship) -> Seq<u8> {
        fields_bytes(Self::spec_fields(v))
    }

    /// What one record does to the message: a declared number sets or extends its
    /// field, any other number is left alone.
    pub open spec fn spec_apply(v: SpecAppRelationship, f: SpecField) -> Result<SpecAppRelationship, WireError> {
        match f.number {
            1 => match dec_u32(f.value) {
                Ok(x) => Ok(SpecAppRelationship { appid: Some(x), ..v }),
                Err(e) => Err(e),
            },
            2 => match dec_u32(f.value) {
                Ok(x) => Ok(SpecAppRelationship { relationship: Some(x), ..v }),
                Err(e) => Err(e),
            },
            _ => Ok(v),
        }
    }

    pub open spec fn apply_fn() -> spec_fn(SpecAppRelationship, SpecField) -> Result<SpecAppRelationship, WireError> {
        |v: SpecAppRelationship, f: SpecField| Self::spec_apply(v, f)
    }

    /// The message `bytes` makes of `v`: its records applied in order, or the error
    /// that stops the reading.
    pub open spec fn spec_merge(v: SpecAppRelationship, bytes: Seq<u8>) -> Result<SpecAppRelationship, WireError> {
        let (w, stop) = merge_run(v, bytes, Self::apply_fn());
        match stop {
            None => Ok(w),
            Some(e) => Err(e),
        }
    }

    #[verifier::opaque]
    pub open spec fn spec_decode(bytes: Seq<u8>) -> Result<SpecAppRelationship, WireError> {
        Self::spec_merge(Self::spec_default(), bytes)
    }

    pub open spec fn view_all(xs: Seq<AppRelationship>) -> Seq<SpecAppRelationship> {
        xs.map_values(|m: AppRelationship| m@)
    }

    pub open spec fn view_opt(o: Option<AppRelationship>) -> Option<SpecAppRelationship> {
        match o {
            Some(m) => Some(m@),
            None => None,
        }
    }

    pub open spec fn spec_encode_all(xs: Seq<SpecAppRelationship>) -> Seq<Seq<u8>> {
        xs.map_values(|m: SpecAppRelationship| Self::spec_encode(m))
    }

    pub open spec fn spec_encode_opt(o: Option<SpecAppRelationship>) -> Option<Seq<u8>> {
        match o {
            Some(m) => Some(Self::spec_encode(m)),
            None => None,
        }
    }

    /// The encoding of each element.
    pub fn encode_all(xs: &Vec<AppRelationship>) -> (r: Vec<Vec<u8>>)
        ensures
            bytes_seq_view(r@) == Self::spec_encode_all(Self::view_all(xs@)),
    {
        let mut out: Vec<Vec<u8>> = Vec::new();
        let mut i: usize = 0;
        while i < xs.len()
            invariant
                i <= xs@.len(),
                out@.len() == i,
                forall|j: int| 0 <= j < i ==> #[trigger] out@[j]@ == Self::spec_encode(xs@[j]@),
            decreases xs@.len() - i,
        {
            let e = xs[i].encode_to_vec();
            out.push(e);
            i = i + 1;
        }
        assert(bytes_seq_view(out@) =~= Self::spec_encode_all(Self::view_all(xs@)));
        out
    }

    /// The encoding of the element, when there is one.
    pub fn encode_opt(o: &Option<AppRelationship>) -> (r: Option<Vec<u8>>)
        ensures
            opt_bytes_view(r) == Self::spec_encode_opt(Self::view_opt(*o)),
    {
        match o {
            Some(m) => Some(m.encode_to_vec()),
            None => None,
        }
    }

    /// This message with one record applied to it, or, when the record is refused,
    /// the message unchanged and the reason.
    fn applied(self, f: &Field) -> (r: Result<Self, (Self, WireError)>)
        ensures
            match Self::spec_apply(self@, f@) {
                Ok(v) => r matches Ok(m) && m@ == v,
                Err(e) => r matches Err((m, x)) && x == e && m@ == self@,
            },
    {
        match f.number {
            1 => match read_u32(&f.value) {
                Ok(x) => Ok(Self { appid: Some(x), ..self }),
                Err(e) => Err((self, e)),
            },
            2 => match read_u32(&f.value) {
                Ok(x) => Ok(Self { relationship: Some(x), ..self }),
                Err(e) => Err((self, e)),
            },
            _ => Ok(self),
        }
    }

    /// Reads the records `bytes` holds into this message, in order. When a record does
    /// not parse or is refused, the reading stops there: the message keeps what the
    /// records before it gave, and the error is returned.
    pub fn merge(&mut self, bytes: &[u8]) -> (r: Result<(), WireError>)
        ensures
            final(self)@ == merge_run(old(self)@, bytes@, Self::apply_fn()).0,
            r == match merge_run(old(self)@, bytes@, Self::apply_fn()).1 {
                None => Ok::<(), WireError>(()),
                Some(e) => Err::<(), WireError>(e),
            },
    {
        let ghost total = merge_run(self@, bytes@, Self::apply_fn());
        let mut cur = Self::default();
        std::mem::swap(&mut cur, self);
        let mut pos: usize = 0;
        assert(bytes@.skip(0) =~= bytes@);
        while pos < bytes.len()
            invariant
                pos <= bytes@.len(),
                total == merge_run(old(self)@, bytes@, Self::apply_fn()),
                merge_run(cur@, bytes@.skip(pos as int), Self::apply_fn()) == total,
            decreases bytes@.len() - pos,
        {
            let ghost s = bytes@.skip(pos as int);
            proof {
                lemma_merge_run_step(cur@, s, Self::apply_fn());
                lemma_parse_field_len(s);
            }
            match read_field(bytes, pos) {
                Ok((f, end)) => {
                    assert(bytes@.skip(end as int) =~= s.skip((end - pos) as int));
                    match cur.applied(&f) {
                        Ok(m) => {
                            cur = m;
                        },
                        Err((m, e)) => {
                            *self = m;
                            return Err(e);
                        },
                    }
                    pos = end;
                },
                Err(e) => {
                    *self = cur;
                    return Err(e);
                },
            }
        }
        assert(bytes@.skip(pos as int) =~= Seq::<u8>::empty());
        proof {
            lemma_merge_run_empty(cur@, Self::apply_fn());
        }
        *self = cur;
        Ok(())
    }

    /// Decodes a message from its encoding.
    pub fn decode(bytes: &[u8]) -> (r: Result<Self, WireError>)
        ensures
            match Self::spec_decode(bytes@) {
                Ok(v) => r matches Ok(m) && m@ == v,
                Err(e) => r matches Err(x) && x == e,
            },
    {
        proof {
            reveal(AppRelationship::spec_decode);
        }
        let mut m = Self::default();
        match m.merge(bytes) {
            Ok(()) => Ok(m),
            Err(e) => Err(e),
        }
    }

    /// The encoding of this message.
    pub fn encode_to_vec(&self) -> (r: Vec<u8>)
        ensures
            r@ == Self::spec_encode(self@),
    {
        let ghost v = self@;
        let mut out: Vec<u8> = Vec::new();
        let ghost p0 = Seq::<SpecField>::empty();
        put_opt_u32(&mut out, 1, self.appid);
        let ghost p1 = p0 + opt_u32(1, v.appid);
        proof {
            lemma_fields_bytes_concat(p0, opt_u32(1, v.appid));
        }
        put_opt_u32(&mut out, 2, self.relationship);
        let ghost p2 = p1 + opt_u32(2, v.relationship);
        proof {
            lemma_fields_bytes_concat(p1, opt_u32(2, v.relationship));
        }
        proof {
            reveal(AppRelationship::spec_encode);
        }
        assert(p2 == Self::spec_fields(v));
        out
    }

    /// Appends the encoding of this message to `out`.
    pub fn encode_raw(&self, out: &mut Vec<u8>)
        ensures
            final(out)@ == old(out)@ + Self::spec_encode(self@),
    {
        let mut b = self.encode_to_vec();
        out.append(&mut b);
    }

    /// The first `k` fields of `v`, the others as a fresh message has them.
    #[verifier::opaque]
    pub open spec fn spec_prefix(v: SpecAppRelationship, k: int) -> SpecAppRelationship {
        SpecAppRelationship {
            appid: if 1 <= k { v.appid } else { None },
            relationship: if 2 <= k { v.relationship } else { None },
        }
    }

    /// Reading field 1 back, after the fields before it.
    proof fn lemma_field_appid(v: SpecAppRelationship)
        ensures
            fold_fields(Self::spec_prefix(v, 0), opt_u32(1, v.appid), Self::apply_fn())
                == Ok::<SpecAppRelationship, WireError>(Self::spec_prefix(v, 1)),
    {
        reveal(AppRelationship::spec_prefix);
        reveal(opt_u32);
        let apply = Self::apply_fn();
        let s = Self::spec_prefix(v, 0);
        lemma_fold_opt(s, 1, match v.appid { Some(x) => Some(enc_u32(x)), None => None }, apply);
        if let Some(x) = v.appid {
            lemma_u32_roundtrip(x);
        }
        assert(SpecAppRelationship { appid: v.appid, ..s } == Self::spec_prefix(v, 1));
    }

    /// Reading field 2 back, after the fields before it.
    proof fn lemma_field_relationship(v: SpecAppRelationship)
        ensures
            fold_fields(Self::spec_prefix(v, 1), opt_u32(2, v.relationship), Self::apply_fn())
                == Ok::<SpecAppRelationship, WireError>(Self::spec_prefix(v, 2)),
    {
        reveal(AppRelationship::spec_prefix);
        reveal(opt_u32);
        let apply = Self::apply_fn();
        let s = Self::spec_prefix(v, 1);
        lemma_fold_opt(s, 2, match v.relationship { Some(x) => Some(enc_u32(x)), None => None }, apply);
        if let Some(x) = v.relationship {
            lemma_u32_roundtrip(x);
        }
        assert(SpecAppRelationship { relationship: v.relationship, ..s } == Self::spec_prefix(v, 2));
    }

    /// Whether this message declares field number `n`.
    pub open spec fn declares(n: u32) -> bool {
        n == 1 || n == 2
    }

    /// A record with a number this message does not declare is passed over: well-formed
    /// bytes decode to the same message with such a record after them as without it.
    pub proof fn lemma_unknown_field(bytes: Seq<u8>, f: SpecField)
        requires
            parse_fields(bytes) is Ok,
            field_wf(f),
            !Self::declares(f.number),
        ensures
            Self::spec_decode(bytes + field_bytes(f)) == Self::spec_decode(bytes),
    {
        reveal(AppRelationship::spec_decode);
        lemma_parse_fields_append(bytes, f);
        let fs = parse_fields(bytes).unwrap();
        let apply = Self::apply_fn();
        lemma_fold_concat(Self::spec_default(), fs, seq![f], apply);
        assert(fs.push(f) =~= fs + seq![f]);
        if let Ok(w) = fold_fields(Self::spec_default(), fs, apply) {
            lemma_fold_single(w, f, apply);
        }
        lemma_merge_run_fold(Self::spec_default(), bytes, apply);
        lemma_merge_run_fold(Self::spec_default(), bytes + field_bytes(f), apply);
    }

    /// Decoding the encoding of a message gives the message back.
    pub proof fn lemma_decode_encode(v: SpecAppRelationship)
        requires
            Self::spec_encode(v).len() <= u64::MAX,
        ensures
            Self::spec_decode(Self::spec_encode(v)) == Ok::<SpecAppRelationship, WireError>(v),
    {
        let apply = Self::apply_fn();
        let d = Self::spec_default();
        let p0 = Seq::<SpecField>::empty();
        let l1 = opt_u32(1, v.appid);
        let p1 = p0 + l1;
        let l2 = opt_u32(2, v.relationship);
        let p2 = p1 + l2;
        assert(parse_fields(Self::spec_encode(v)) == Ok::<Seq<SpecField>, WireError>(p2)) by {
            reveal(AppRelationship::spec_encode);
            assert(numbers_ok(p0) && fields_wf(p0)) by {
                reveal(numbers_ok);
                reveal(fields_wf);
            }
            lemma_opt_u32_numbered(1, v.appid);
            lemma_fields_wf_concat(p0, l1);
            lemma_opt_u32_numbered(2, v.relationship);
            lemma_fields_wf_concat(p1, l2);
            assert(p2 == Self::spec_fields(v));
            lemma_fields_wf_from_len(p2);
            lemma_fields_roundtrip(p2);
        }
        assert(Self::spec_prefix(v, 0) == d) by {
            reveal(AppRelationship::spec_prefix);
        }
        lemma_fold_empty(d, apply);
        lemma_fold_concat(d, p0, l1, apply);
        Self::lemma_field_appid(v);
        lemma_fold_concat(d, p1, l2, apply);
        Self::lemma_field_relationship(v);
        assert(Self::spec_prefix(v, 2) == v) by {
            reveal(AppRelationship::spec_prefix);
        }
        lemma_merge_run_fold(d, Self::spec_encode(v), apply);
        assert(Self::spec_decode(Self::spec_encode(v)) == Ok::<SpecAppRelationship, WireError>(v)) by {
            reveal(AppRelationship::spec_decode);
        }
    }
}

/// `PublishedFileAppRelationship`, as Valve's schema declares it.
#[derive(Debug, Clone, PartialEq)]
pub struct PublishedFileAppRelationship {
    /// Field 1.
    pub publishedfileid: Option<u64>,
    /// Field 2.
    pub result: Option<u32>,
    /// Field 3.
    pub app_relationships: Vec<crate::steammessages_publishedfile_steamclient::c_published_file_get_app_relationships_batched_response::AppRelationship>,
}

/// What a `PublishedFileAppRelationship` holds, as mathematical values.
#[verifier::ext_equal]
pub struct SpecPublishedFileAppRelationship {
    pub publishedfileid: Option<u64>,
    pub result: Option<u32>,
    pub app_relationships: Seq<crate::steammessages_publishedfile_steamclient::c_published_file_get_app_relationships_batched_response::SpecAppRelationship>,
}

impl View for PublishedFileAppRelationship {
    type V = SpecPublishedFileAppRelationship;

    open spec fn view(&self) -> SpecPublishedFileAppRelationship {
        SpecPublishedFileAppRelationship {
            publishedfileid: self.publishedfileid,
            result: self.result,
            app_relationships: crate::steammessages_publishedfile_steamclient::c_published_file_get_app_relationships_batched_response::AppRelationship::view_all(self.app_relationships@),
        }
    }
}

impl Default for PublishedFileAppRelationship {
    fn default() -> (r: Self)
        ensures
            r@ == PublishedFileAppRelationship::spec_default(),
    {
        PublishedFileAppRelationship {
            publishedfileid: None,
            result: None,
            app_relationships: Vec::new(),
        }
    }
}

impl PublishedFileAppRelationship {
    pub open spec fn spec_default() -> SpecPublishedFileAppRelationship {
        SpecPublishedFileAppRelationship {
            publishedfileid: None,
            result: None,
            app_relationships: Seq::empty(),
        }
    }

    /// The records a `PublishedFileAppRelationship` is written as, in field order.
    pub open spec fn spec_fields(v: SpecPublishedFileAppRelationship) -> Seq<SpecField> {
        Seq::<SpecField>::empty()
            + opt_u64(1, v.publishedfileid)
            + opt_u32(2, v.result)
            + rep_bytes(3, crate::steammessages_publishedfile_steamclient::c_published_file_get_app_relationships_batched_response::AppRelationship::spec_encode_all(v.app_relationships))
    }

    #[verifier::opaque]
    pub open spec fn spec_encode(v: SpecPublishedFileAppRelationship) -> Seq<u8> {
        fields_bytes(Self::spec_fields(v))
    }

    /// What one record does to the message: a declared number sets or extends its
    /// field, any other number is left alone.
    pub open spec fn spec_apply(v: SpecPublishedFileAppRelationship, f: SpecField) -> Result<SpecPublishedFileAppRelationship, WireError> {
        match f.number {
            1 => match dec_u64(f.value) {
                Ok(x) => Ok(SpecPublishedFileAppRelationship { publishedfileid: Some(x), ..v }),
                Err(e) => Err(e),
            },
            2 => match dec_u32(f.value) {
                Ok(x) => Ok(SpecPublishedFileAppRelationship { result: Some(x), ..v }),
                Err(e) => Err(e),
            },
            3 => match dec_bytes(f.value) {
                Ok(b) => match crate::steammessages_publishedfile_steamclient::c_published_file_get_app_relationships_batched_response::AppRelationship::spec_decode(b) {
                    Ok(m) => Ok(SpecPublishedFileAppRelationship { app_relationships: v.app_relationships.push(m), ..v }),
                    Err(e) => Err(e),
                },
                Err(e) => Err(e),
            },
            _ => Ok(v),
        }
    }

    pub open spec fn apply_fn() -> spec_fn(SpecPublishedFileAppRelationship, SpecField) -> Result<SpecPublishedFileAppRelationship, WireError> {
        |v: SpecPublishedFileAppRelationship, f: SpecField| Self::spec_apply(v, f)
    }

    /// The message `bytes` makes of `v`: its records applied in order, or the error
    /// that stops the reading.
    pub open spec fn spec_merge(v: SpecPublishedFileAppRelationship, bytes: Seq<u8>) -> Result<SpecPublishedFileAppRelationship, WireError> {
        let (w, stop) = merge_run(v, bytes, Self::apply_fn());
        match stop {
            None => Ok(w),
            Some(e) => Err(e),
        }
    }

    #[verifier::opaque]
    pub open spec fn spec_decode(bytes: Seq<u8>) -> Result<SpecPublishedFileAppRelationship, WireError> {
        Self::spec_merge(Self::spec_default(), bytes)
    }

    pub open spec fn view_all(xs: Seq<PublishedFileAppRelationship>) -> Seq<SpecPublishedFileAppRelationship> {
        xs.map_values(|m: PublishedFileAppRelationship| m@)
    }

    pub open spec fn view_opt(o: Option<PublishedFileAppRelationship>) -> Option<SpecPublishedFileAppRelationship> {
        match o {
            Some(m) => Some(m@),
            None => None,
        }
    }

    pub open spec fn spec_encode_all(xs: Seq<SpecPublishedFileAppRelationship>) -> Seq<Seq<u8>> {
        xs.map_values(|m: SpecPublishedFileAppRelationship| Self::spec_encode(m))
    }

    pub open spec fn spec_encode_opt(o: Option<SpecPublishedFileAppRelationship>) -> Option<Seq<u8>> {
        match o {
            Some(m) => Some(Self::spec_encode(m)),
            None => None,
        }
    }

    /// The encoding of each element.
    pub fn encode_all(xs: &Vec<PublishedFileAppRelationship>) -> (r: Vec<Vec<u8>>)
        ensures
            bytes_seq_view(r@) == Self::spec_encode_all(Self::view_all(xs@)),
    {
        let mut out: Vec<Vec<u8>> = Vec::new();
        let mut i: usize = 0;
        while i < xs.len()
            invariant
                i <= xs@.len(),
                out@.len() == i,
                forall|j: int| 0 <= j < i ==> #[trigger] out@[j]@ == Self::spec_encode(xs@[j]@),
            decreases xs@.len() - i,
        {
            let e = xs[i].encode_to_vec();
            out.push(e);
            i = i + 1;
        }
        assert(bytes_seq_view(out@) =~= Self::spec_encode_all(Self::view_all(xs@)));
        out
    }

    /// The encoding of the element, when there is one.
    pub fn encode_opt(o: &Option<PublishedFileAppRelationship>) -> (r: Option<Vec<u8>>)
        ensures
            opt_bytes_view(r) == Self::spec_encode_opt(Self::view_opt(*o)),
    {
        match o {
            Some(m) => Some(m.encode_to_vec()),
            None => None,
        }
    }

    /// This message with one record applied to it, or, when the record is refused,
    /// the message unchanged and the reason.
    fn applied(self, f: &Field) -> (r: Result<Self, (Self, WireError)>)
        ensures
            match Self::spec_apply(self@, f@) {
                Ok(v) => r matches Ok(m) && m@ == v,
                Err(e) => r matches Err((m, x)) && x == e && m@ == self@,
            },
    {
        match f.number {
            1 => match read_u64(&f.value) {
                Ok(x) => Ok(Self { publishedfileid: Some(x), ..self }),
                Err(e) => Err((self, e)),
            },
            2 => match read_u32(&f.value) {
                Ok(x) => Ok(Self { result: Some(x), ..self }),
                Err(e) => Err((self, e)),
            },
            3 => match read_payload(&f.value) {
                Ok(b) => match crate::steammessages_publishedfile_steamclient::c_published_file_get_app_relationships_batched_response::AppRelationship::decode(b) {
                    Ok(x) => {
                        let mut m = self;
                        let ghost before = m.app_relationships@;
                        m.app_relationships.push(x);
                        assert(crate::steammessages_publishedfile_steamclient::c_published_file_get_app_relationships_batched_response::AppRelationship::view_all(m.app_relationships@) =~= crate::steammessages_publishedfile_steamclient::c_published_file_get_app_relationships_batched_response::AppRelationship::view_all(before).push(x@));
                        Ok(m)
                    },
                    Err(e) => Err((self, e)),
                },
                Err(e) => Err((self, e)),
            },
            _ => Ok(self),
        }
    }

    /// Reads the records `bytes` holds into this message, in order. When a record does
    /// not parse or is refused, the reading stops there: the message keeps what the
    /// records before it gave, and the error is returned.
    pub fn merge(&mut self, bytes: &[u8]) -> (r: Result<(), WireError>)
        ensures
            final(self)@ == merge_run(old(self)@, bytes@, Self::apply_fn()).0,
            r == match merge_run(old(self)@, bytes@, Self::apply_fn()).1 {
                None => Ok::<(), WireError>(()),
                Some(e) => Err::<(), WireError>(e),
            },
    {
        let ghost total = merge_run(self@, bytes@, Self::apply_fn());
        let mut cur = Self::default();
        std::mem::swap(&mut cur, self);
        let mut pos: usize = 0;
        assert(bytes@.skip(0) =~= bytes@);
        while pos < bytes.len()
            invariant
                pos <= bytes@.len(),
                total == merge_run(old(self)@, bytes@, Self::apply_fn()),
                merge_run(cur@, bytes@.skip(pos as int), Self::apply_fn()) == total,
            decreases bytes@.len() - pos,
        {
            let ghost s = bytes@.skip(pos as int);
            proof {
                lemma_merge_run_step(cur@, s, Self::apply_fn());
                lemma_parse_field_len(s);
            }
            match read_field(bytes, pos) {
                Ok((f, end)) => {
                    assert(bytes@.skip(end as int) =~= s.skip((end - pos) as int));
                    match cur.applied(&f) {
                        Ok(m) => {
                            cur = m;
                        },
                        Err((m, e)) => {
                            *self = m;
                            return Err(e);
                        },
                    }
                    pos = end;
                },
                Err(e) => {
                    *self = cur;
                    return Err(e);
                },
            }
        }
        assert(bytes@.skip(pos as int) =~= Seq::<u8>::empty());
        proof {
            lemma_merge_run_empty(cur@, Self::apply_fn());
        }
        *self = cur;
        Ok(())
    }

    /// Decodes a message from its encoding.
    pub fn decode(bytes: &[u8]) -> (r: Result<Self, WireError>)
        ensures
            match Self::spec_decode(bytes@) {
                Ok(v) => r matches Ok(m) && m@ == v,
                Err(e) => r matches Err(x) && x == e,
            },
    {
        proof {
            reveal(PublishedFileAppRelationship::spec_decode);
        }
        let mut m = Self::default();
        match m.merge(bytes) {
            Ok(()) => Ok(m),
            Err(e) => Err(e),
        }
    }

    /// The encoding of this message.
    pub fn encode_to_vec(&self) -> (r: Vec<u8>)
        ensures
            r@ == Self::spec_encode(self@),
    {
        let enc_app_relationships = crate::steammessages_publishedfile_steamclient::c_published_file_get_app_relationships_batched_response::AppRelationship::encode_all(&self.app_relationships);
        let ghost v = self@;
        let mut out: Vec<u8> = Vec::new();
        let ghost p0 = Seq::<SpecField>::empty();
        put_opt_varint(&mut out, 1, self.publishedfileid);
        let ghost p1 = p0 + opt_u64(1, v.publishedfileid);
        proof {
            lemma_fields_bytes_concat(p0, opt_u64(1, v.publishedfileid));
        }
        put_opt_u32(&mut out, 2, self.result);
        let ghost p2 = p1 + opt_u32(2, v.result);
        proof {
            lemma_fields_bytes_concat(p1, opt_u32(2, v.result));
        }
        put_rep_bytes(&mut out, 3, &enc_app_relationships);
        let ghost p3 = p2 + rep_bytes(3, crate::steammessages_publishedfile_steamclient::c_published_file_get_app_relationships_batched_response::AppRelationship::spec_encode_all(v.app_relationships));
        proof {
            lemma_fields_bytes_concat(p2, rep_bytes(3, crate::steammessages_publishedfile_steamclient::c_published_file_get_app_relationships_batched_response::AppRelationship::spec_encode_all(v.app_relationships)));
        }
        proof {
            reveal(PublishedFileAppRelationship::spec_encode);
        }
        assert(p3 == Self::spec_fields(v));
        out
    }

    /// Appends the encoding of this message to `out`.
    pub fn encode_raw(&self, out: &mut Vec<u8>)
        ensures
            final(out)@ == old(out)@ + Self::spec_encode(self@),
    {
        let mut b = self.encode_to_vec();
        out.append(&mut b);
    }

    /// The first `k` fields of `v`, the others as a fresh message has them.
    #[verifier::opaque]
    pub open spec fn spec_prefix(v: SpecPublishedFileAppRelationship, k: int) -> SpecPublishedFileAppRelationship {
        SpecPublishedFileAppRelationship {
            publishedfileid: if 1 <= k { v.publishedfileid } else { None },
            result: if 2 <= k { v.result } else { None },
            app_relationships: if 3 <= k { v.app_relationships } else { Seq::empty() },
        }
    }

    /// Reading field 1 back, after the fields before it.
    proof fn lemma_field_publishedfileid(v: SpecPublishedFileAppRelationship)
        ensures
            fold_fields(Self::spec_prefix(v, 0), opt_u64(1, v.publishedfileid), Self::apply_fn())
                == Ok::<SpecPublishedFileAppRelationship, WireError>(Self::spec_prefix(v, 1)),
    {
        reveal(PublishedFileAppRelationship::spec_prefix);
        reveal(opt_u64);
        let apply = Self::apply_fn();
        let s = Self::spec_prefix(v, 0);
        lemma_fold_opt(s, 1, match v.publishedfileid { Some(x) => Some(enc_u64(x)), None => None }, apply);
        if let Some(x) = v.publishedfileid {
            lemma_u64_roundtrip(x);
        }
        assert(SpecPublishedFileAppRelationship { publishedfileid: v.publishedfileid, ..s } == Self::spec_prefix(v, 1));
    }

    /// Reading field 2 back, after the fields before it.
    proof fn lemma_field_result(v: SpecPublishedFileAppRelationship)
        ensures
            fold_fields(Self::spec_prefix(v, 1), opt_u32(2, v.result), Self::apply_fn())
                == Ok::<SpecPublishedFileAppRelationship, WireError>(Self::spec_prefix(v, 2)),
    {
        reveal(PublishedFileAppRelationship::spec_prefix);
        reveal(opt_u32);
        let apply = Self::apply_fn();
        let s = Self::spec_prefix(v, 1);
        lemma_fold_opt(s, 2, match v.result { Some(x) => Some(enc_u32(x)), None => None }, apply);
        if let Some(x) = v.result {
            lemma_u32_roundtrip(x);
        }
        assert(SpecPublishedFileAppRelationship { result: v.result, ..s } == Self::spec_prefix(v, 2));
    }

    /// Reading field 3 back, after the fields before it.
    proof fn lemma_field_app_relationships(v: SpecPublishedFileAppRelationship)
        requires
            fields_wf(rep_bytes(3, crate::steammessages_publishedfile_steamclient::c_published_file_get_app_relationships_batched_response::AppRelationship::spec_encode_all(v.app_relationships))),
        ensures
            fold_fields(Self::spec_prefix(v, 2), rep_bytes(3, crate::steammessages_publishedfile_steamclient::c_published_file_get_app_relationships_batched_response::AppRelationship::spec_encode_all(v.app_relationships)), Self::apply_fn())
                == Ok::<SpecPublishedFileAppRelationship, WireError>(Self::spec_prefix(v, 3)),
    {
        reveal(PublishedFileAppRelationship::spec_prefix);
        reveal(rep_bytes);
        reveal(fields_wf);
        let apply = Self::apply_fn();
        let s = Self::spec_prefix(v, 2);
        let l = rep_bytes(3, crate::steammessages_publishedfile_steamclient::c_published_file_get_app_relationships_batched_response::AppRelationship::spec_encode_all(v.app_relationships));
        let xs = v.app_relationships;
        let st = Seq::new((xs.len() + 1) as nat, |j: int| SpecPublishedFileAppRelationship { app_relationships: xs.take(j), ..s });
        assert forall|j: int| 0 <= j < l.len() implies #[trigger] apply(st[j], l[j]) == Ok::<SpecPublishedFileAppRelationship, WireError>(st[j + 1]) by {
            assert(field_wf(l[j]));
            crate::steammessages_publishedfile_steamclient::c_published_file_get_app_relationships_batched_response::AppRelationship::lemma_decode_encode(xs[j]);
            assert(xs.take(j).push(xs[j]) =~= xs.take(j + 1));
        }
        lemma_fold_chain(l, st, apply);
        assert(xs.take(0) =~= Seq::<crate::steammessages_publishedfile_steamclient::c_published_file_get_app_relationships_batched_response::SpecAppRelationship>::empty());
        assert(xs.take(xs.len() as int) =~= xs);
        assert(st[0] == s);
        assert(st[xs.len() as int] == Self::spec_prefix(v, 3));
    }

    /// Whether this message declares field number `n`.
    pub open spec fn declares(n: u32) -> bool {
        n == 1 || n == 2 || n == 3
    }

    /// A record with a number this message does not declare is passed over: well-formed
    /// bytes decode to the same message with such a record after them as without it.
    pub proof fn lemma_unknown_field(bytes: Seq<u8>, f: SpecField)
        requires
            parse_fields(bytes) is Ok,
            field_wf(f),
            !Self::declares(f.number),
        ensures
            Self::spec_decode(bytes + field_bytes(f)) == Self::spec_decode(bytes),
    {
        reveal(PublishedFileAppRelationship::spec_decode);
        lemma_parse_fields_append(bytes, f);
        let fs = parse_fields(bytes).unwrap();
        let apply = Self::apply_fn();
        lemma_fold_concat(Self::spec_default(), fs, seq![f], apply);
        assert(fs.push(f) =~= fs + seq![f]);
        if let Ok(w) = fold_fields(Self::spec_default(), fs, apply) {
            lemma_fold_single(w, f, apply);
        }
        lemma_merge_run_fold(Self::spec_default(), bytes, apply);
        lemma_merge_run_fold(Self::spec_default(), bytes + field_bytes(f), apply);
    }

    /// Decoding the encoding of a message gives the message back.
    pub proof fn lemma_decode_encode(v: SpecPublishedFileAppRelationship)
        requires
            Self::spec_encode(v).len() <= u64::MAX,
        ensures
            Self::spec_decode(Self::spec_encode(v)) == Ok::<SpecPublishedFileAppRelationship, WireError>(v),
    {
        let apply = Self::apply_fn();
        let d = Self::spec_default();
        let p0 = Seq::<SpecField>::empty();
        let l1 = opt_u64(1, v.publishedfileid);
        let p1 = p0 + l1;
        let l2 = opt_u32(2, v.result);
        let p2 = p1 + l2;
        let l3 = rep_bytes(3, crate::steammessages_publishedfile_steamclient::c_published_file_get_app_relationships_batched_response::AppRelationship::spec_encode_all(v.app_relationships));
        let p3 = p2 + l3;
        assert(parse_fields(Self::spec_encode(v)) == Ok::<Seq<SpecField>, WireError>(p3) && fields_wf(l3)) by {
            reveal(PublishedFileAppRelationship::spec_encode);
            assert(numbers_ok(p0) && fields_wf(p0)) by {
                reveal(numbers_ok);
                reveal(fields_wf);
            }
            lemma_opt_u64_numbered(1, v.publishedfileid);
            lemma_fields_wf_concat(p0, l1);
            lemma_opt_u32_numbered(2, v.result);
            lemma_fields_wf_concat(p1, l2);
            lemma_rep_bytes_numbered(3, crate::steammessages_publishedfile_steamclient::c_published_file_get_app_relationships_batched_response::AppRelationship::spec_encode_all(v.app_relationships));
            lemma_fields_wf_concat(p2, l3);
            assert(p3 == Self::spec_fields(v));
            lemma_fields_wf_from_len(p3);
            lemma_fields_roundtrip(p3);
        }
        assert(Self::spec_prefix(v, 0) == d) by {
            reveal(PublishedFileAppRelationship::spec_prefix);
        }
        lemma_fold_empty(d, apply);
        lemma_fold_concat(d, p0, l1, apply);
        Self::lemma_field_publishedfileid(v);
        lemma_fold_concat(d, p1, l2, apply);
        Self::lemma_field_result(v);
        lemma_fold_concat(d, p2, l3, apply);
        Self::lemma_field_app_relationships(v);
        assert(Self::spec_prefix(v, 3) == v) by {
            reveal(PublishedFileAppRelationship::spec_prefix);
        }
        lemma_merge_run_fold(d, Self::spec_encode(v), apply);
        assert(Self::spec_decode(Self::spec_encode(v)) == Ok::<SpecPublishedFileAppRelationship, WireError>(v)) by {
            reveal(PublishedFileAppRelationship::spec_decode);
        }
    }
}

} // verus!
