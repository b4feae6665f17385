//! Types nested inside `published_file_details`.


use vstd::prelude::*;

use crate::codec::{
    bytes_seq_view, dec_bool, dec_fixed32, dec_i32, dec_string, dec_u32, dec_u64, enc_bool,
    enc_fixed32, enc_i32, enc_string, enc_u32, enc_u64, fold_fields, lemma_fold_concat,
    lemma_fold_empty, lemma_fold_opt, lemma_fold_single, lemma_i32_roundtrip,
    lemma_merge_run_empty, lemma_merge_run_fold, lemma_merge_run_step, lemma_opt_bool_numbered,
    lemma_opt_fixed32_numbered, lemma_opt_i32_numbered, lemma_opt_string_numbered,
    lemma_opt_u32_numbered, lemma_opt_u64_numbered, lemma_string_roundtrip, lemma_u32_roundtrip,
    lemma_u64_roundtrip, merge_run, opt_bool, opt_bytes_view, opt_fixed32, opt_i32, opt_string,
    opt_string_view, opt_u32, opt_u64, put_opt_bool, put_opt_fixed32, put_opt_i32,
    put_opt_string, put_opt_u32, put_opt_varint, read_bool, read_fixed32, read_i32, read_string,
    read_u32, read_u64,
};

use crate::wire::fields::{
    field_bytes, field_wf, fields_bytes, fields_wf, lemma_fields_bytes_concat,
    lemma_fields_roundtrip, lemma_fields_wf_concat, lemma_fields_wf_from_len,
    lemma_parse_field_len, lemma_parse_fields_append, numbers_ok, parse_fields, read_field,
    Field, SpecField,
};
use crate::wire::varint::WireError;

verus! {

/// `Tag`, as Valve's schema declares it.
#[derive(Debug, Clone, PartialEq)]
pub struct Tag {
    /// Field 1.
    pub tag: Option<String>,
    /// Field 2.
    pub adminonly: Option<bool>,
    /// Field 3.
    pub display_name: Option<String>,
}

/// What a `Tag` holds, as mathematical values.
#[verifier::ext_equal]
pub struct SpecTag {
    pub tag: Option<Seq<char>>,
    pub adminonly: Option<bool>,
    pub display_name: Option<Seq<char>>,
}

impl View for Tag {
    type V = SpecTag;

    open spec fn view(&self) -> SpecTag {
        SpecTag {
            tag: opt_string_view(self.tag),
            adminonly: self.adminonly,
            display_name: opt_string_view(self.display_name),
        }
    }
}

impl Default for Tag {
    fn default() -> (r: Self)
        ensures
            r@ == Tag::spec_default(),
    {
        Tag {
            tag: None,
            adminonly: None,
            display_name: None,
        }
    }
}

impl Tag {
    pub open spec fn spec_default() -> SpecTag {
        SpecTag {
            tag: None,
            adminonly: None,
            display_name: None,
        }
    }

    /// The records a `Tag` is written as, in field order.
    pub open spec fn spec_fields(v: SpecTag) -> Seq<SpecField> {
        Seq::<SpecField>::empty()
            + opt_string(1, v.tag)
            + opt_bool(2, v.adminonly)
            + opt_string(3, v.display_name)
    }

    #[verifier::opaque]
    pub open spec fn spec_encode(v: SpecTag) -> Seq<u8> {
        fields_bytes(Self::spec_fields(v))
    }

    /// What one record does to the message: a declared number sets or extends its
    /// field, any other number is left alone.
    pub open spec fn spec_apply(v: SpecTag, f: SpecField) -> Result<SpecTag, WireError> {
        match f.number {
            1 => match dec_string(f.value) {
                Ok(x) => Ok(SpecTag { tag: Some(x), ..v }),
                Err(e) => Err(e),
            },
            2 => match dec_bool(f.value) {
                Ok(x) => Ok(SpecTag { adminonly: Some(x), ..v }),
                Err(e) => Err(e),
            },
            3 => match dec_string(f.value) {
                Ok(x) => Ok(SpecTag { display_name: Some(x), ..v }),
                Err(e) => Err(e),
            },
            _ => Ok(v),
        }
    }

    pub open spec fn apply_fn() -> spec_fn(SpecTag, SpecField) -> Result<SpecTag, WireError> {
        |v: SpecTag, f: SpecField| Self::spec_apply(v, f)
    }

    /// The message `bytes` makes of `v`: its records applied in order, or the error
    /// that stops the reading.
    pub open spec fn spec_merge(v: SpecTag, bytes: Seq<u8>) -> Result<SpecTag, WireError> {
        let (w, stop) = merge_run(v, bytes, Self::apply_fn());
        match stop {
            None => Ok(w),
            Some(e) => Err(e),
        }
    }

    #[verifier::opaque]
    pub open spec fn spec_decode(bytes: Seq<u8>) -> Result<SpecTag, WireError> {
        Self::spec_merge(Self::spec_default(), bytes)
    }

    pub open spec fn view_all(xs: Seq<Tag>) -> Seq<SpecTag> {
        xs.map_values(|m: Tag| m@)
    }

    pub open spec fn view_opt(o: Option<Tag>) -> Option<SpecTag> {
        match o {
            Some(m) => Some(m@),
            None => None,
        }
    }

    pub open spec fn spec_encode_all(xs: Seq<SpecTag>) -> Seq<Seq<u8>> {
        xs.map_values(|m: SpecTag| Self::spec_encode(m))
    }

    pub open spec fn spec_encode_opt(o: Option<SpecTag>) -> Option<Seq<u8>> {
        match o {
            Some(m) => Some(Self::spec_encode(m)),
            None => None,
        }
    }

    /// The encoding of each element.
    pub fn encode_all(xs: &Vec<Tag>) -> (r: Vec<Vec<u8>>)
        ensures
            bytes_seq_view(r@) == Self::spec_encode_all(Self::view_all(xs@)),
    {
        let mut out: Vec<Vec<u8>> = Vec::new();
        let mut i: usize = 0;
        while i < xs.len()
            invariant
                i <= xs@.len(),
                out@.len() == i,
                forall|j: int| 0 <= j < i ==> #[trigger] out@[j]@ == Self::spec_encode(xs@[j]@),
            decreases xs@.len() - i,
        {
            let e = xs[i].encode_to_vec();
            out.push(e);
            i = i + 1;
        }
        assert(bytes_seq_view(out@) =~= Self::spec_encode_all(Self::view_all(xs@)));
        out
    }

    /// The encoding of the element, when there is one.
    pub fn encode_opt(o: &Option<Tag>) -> (r: Option<Vec<u8>>)
        ensures
            opt_bytes_view(r) == Self::spec_encode_opt(Self::view_opt(*o)),
    {
        match o {
            Some(m) => Some(m.encode_to_vec()),
            None => None,
        }
    }

    /// This message with one record applied to it, or, when the record is refused,
    /// the message unchanged and the reason.
    fn applied(self, f: &Field) -> (r: Result<Self, (Self, WireError)>)
        ensures
            match Self::spec_apply(self@, f@) {
                Ok(v) => r matches Ok(m) && m@ == v,
                Err(e) => r matches Err((m, x)) && x == e && m@ == self@,
            },
    {
        match f.number {
            1 => match read_string(&f.value) {
                Ok(x) => Ok(Self { tag: Some(x), ..self }),
                Err(e) => Err((self, e)),
            },
            2 => match read_bool(&f.value) {
                Ok(x) => Ok(Self { adminonly: Some(x), ..self }),
                Err(e) => Err((self, e)),
            },
            3 => match read_string(&f.value) {
                Ok(x) => Ok(Self { display_name: Some(x), ..self }),
                Err(e) => Err((self, e)),
            },
            _ => Ok(self),
        }
    }

    /// Reads the records `bytes` holds into this message, in order. When a record does
    /// not parse or is refused, the reading stops there: the message keeps what the
    /// records before it gave, and the error is returned.
    pub fn merge(&mut self, bytes: &[u8]) -> (r: Result<(), WireError>)
        ensures
            final(self)@ == merge_run(old(self)@, bytes@, Self::apply_fn()).0,
            r == match merge_run(old(self)@, bytes@, Self::apply_fn()).1 {
                None => Ok::<(), WireError>(()),
                Some(e) => Err::<(), WireError>(e),
            },
    {
        let ghost total = merge_run(self@, bytes@, Self::apply_fn());
        let mut cur = Self::default();
        std::mem::swap(&mut cur, self);
        let mut pos: usize = 0;
        assert(bytes@.skip(0) =~= bytes@);
        while pos < bytes.len()
            invariant
                pos <= bytes@.len(),
                total == merge_run(old(self)@, bytes@, Self::apply_fn()),
                merge_run(cur@, bytes@.skip(pos as int), Self::apply_fn()) == total,
            decreases bytes@.len() - pos,
        {
            let ghost s = bytes@.skip(pos as int);
            proof {
                lemma_merge_run_step(cur@, s, Self::apply_fn());
                lemma_parse_field_len(s);
            }
            match read_field(bytes, pos) {
                Ok((f, end)) => {
                    assert(bytes@.skip(end as int) =~= s.skip((end - pos) as int));
                    match cur.applied(&f) {
                        Ok(m) => {
                            cur = m;
                        },
                        Err((m, e)) => {
                            *self = m;
                            return Err(e);
                        },
                    }
                    pos = end;
                },
                Err(e) => {
                    *self = cur;
                    return Err(e);
                },
            }
        }
        assert(bytes@.skip(pos as int) =~= Seq::<u8>::empty());
        proof {
            lemma_merge_run_empty(cur@, Self::apply_fn());
        }
        *self = cur;
        Ok(())
    }

    /// Decodes a message from its encoding.
    pub fn decode(bytes: &[u8]) -> (r: Result<Self, WireError>)
        ensures
            match Self::spec_decode(bytes@) {
                Ok(v) => r matches Ok(m) && m@ == v,
                Err(e) => r matches Err(x) && x == e,
            },
    {
        proof {
            reveal(Tag::spec_decode);
        }
        let mut m = Self::default();
        match m.merge(bytes) {
            Ok(()) => Ok(m),
            Err(e) => Err(e),
        }
    }

    /// The encoding of this message.
    pub fn encode_to_vec(&self) -> (r: Vec<u8>)
        ensures
            r@ == Self::spec_encode(self@),
    {
        let ghost v = self@;
        let mut out: Vec<u8> = Vec::new();
        let ghost p0 = Seq::<SpecField>::empty();
        put_opt_string(&mut out, 1, &self.tag);
        let ghost p1 = p0 + opt_string(1, v.tag);
        proof {
            lemma_fields_bytes_concat(p0, opt_string(1, v.tag));
        }
        put_opt_bool(&mut out, 2, self.adminonly);
        let ghost p2 = p1 + opt_bool(2, v.adminonly);
        proof {
            lemma_fields_bytes_concat(p1, opt_bool(2, v.adminonly));
        }
        put_opt_string(&mut out, 3, &self.display_name);
        let ghost p3 = p2 + opt_string(3, v.display_name);
        proof {
            lemma_fields_bytes_concat(p2, opt_string(3, v.display_name));
        }
        proof {
            reveal(Tag::spec_encode);
        }
        assert(p3 == Self::spec_fields(v));
        out
    }

    /// Appends the encoding of this message to `out`.
    pub fn encode_raw(&self, out: &mut Vec<u8>)
        ensures
            final(out)@ == old(out)@ + Self::spec_encode(self@),
    {
        let mut b = self.encode_to_vec();
        out.append(&mut b);
    }

    /// The first `k` fields of `v`, the others as a fresh message has them.
    #[verifier::opaque]
    pub open spec fn spec_prefix(v: SpecTag, k: int) -> SpecTag {
        SpecTag {
            tag: if 1 <= k { v.tag } else { None },
            adminonly: if 2 <= k { v.adminonly } else { None },
            display_name: if 3 <= k { v.display_name } else { None },
        }
    }

    /// Reading field 1 back, after the fields before it.
    proof fn lemma_field_tag(v: SpecTag)
        ensures
            fold_fields(Self::spec_prefix(v, 0), opt_string(1, v.tag), Self::apply_fn())
                == Ok::<SpecTag, WireError>(Self::spec_prefix(v, 1)),
    {
        reveal(Tag::spec_prefix);
        reveal(opt_string);
        let apply = Self::apply_fn();
        let s = Self::spec_prefix(v, 0);
        lemma_fold_opt(s, 1, match v.tag { Some(x) => Some(enc_string(x)), None => None }, apply);
        if let Some(x) = v.tag {
            lemma_string_roundtrip(x);
        }
        assert(SpecTag { tag: v.tag, ..s } == Self::spec_prefix(v, 1));
    }

    /// Reading field 2 back, after the fields before it.
    proof fn lemma_field_adminonly(v: SpecTag)
        ensures
            fold_fields(Self::spec_prefix(v, 1), opt_bool(2, v.adminonly), Self::apply_fn())
                == Ok::<SpecTag, WireError>(Self::spec_prefix(v, 2)),
    {
        reveal(Tag::spec_prefix);
        reveal(opt_bool);
        let apply = Self::apply_fn();
        let s = Self::spec_prefix(v, 1);
        lemma_fold_opt(s, 2, match v.adminonly { Some(x) => Some(enc_bool(x)), None => None }, apply);
        assert(SpecTag { adminonly: v.adminonly, ..s } == Self::spec_prefix(v, 2));
    }

    /// Reading field 3 back, after the fields before it.
    proof fn lemma_field_display_name(v: SpecTag)
        ensures
            fold_fields(Self::spec_prefix(v, 2), opt_string(3, v.display_name), Self::apply_fn())
                == Ok::<SpecTag, WireError>(Self::spec_prefix(v, 3)),
    {
        reveal(Tag::spec_prefix);
        reveal(opt_string);
        let apply = Self::apply_fn();
        let s = Self::spec_prefix(v, 2);
        lemma_fold_opt(s, 3, match v.display_name { Some(x) => Some(enc_string(x)), None => None }, apply);
        if let Some(x) = v.display_name {
            lemma_string_roundtrip(x);
        }
        assert(SpecTag { display_name: v.display_name, ..s } == Self::spec_prefix(v, 3));
    }

    /// Whether this message declares field number `n`.
    pub open spec fn declares(n: u32) -> bool {
        n == 1 || n == 2 || n == 3
    }

    /// A record with a number this message does not declare is passed over: well-formed
    /// bytes decode to the same message with such a record after them as without it.
    pub proof fn lemma_unknown_field(bytes: Seq<u8>, f: SpecField)
        requires
            parse_fields(bytes) is Ok,
            field_wf(f),
            !Self::declares(f.number),
        ensures
            Self::spec_decode(bytes + field_bytes(f)) == Self::spec_decode(bytes),
    {
        reveal(Tag::spec_decode);
        lemma_parse_fields_append(bytes, f);
        let fs = parse_fields(bytes).unwrap();
        let apply = Self::apply_fn();
        lemma_fold_concat(Self::spec_default(), fs, seq![f], apply);
        assert(fs.push(f) =~= fs + seq![f]);
        if let Ok(w) = fold_fields(Self::spec_default(), fs, apply) {
            lemma_fold_single(w, f, apply);
        }
        lemma_merge_run_fold(Self::spec_default(), bytes, apply);
        lemma_merge_run_fold(Self::spec_default(), bytes + field_bytes(f), apply);
    }

    /// Decoding the encoding of a message gives the message back.
    pub proof fn lemma_decode_encode(v: SpecTag)
        requires
            Self::spec_encode(v).len() <= u64::MAX,
        ensures
            Self::spec_decode(Self::spec_encode(v)) == Ok::<SpecTag, WireError>(v),
    {
        let apply = Self::apply_fn();
        let d = Self::spec_default();
        let p0 = Seq::<SpecField>::empty();
        let l1 = opt_string(1, v.tag);
        let p1 = p0 + l1;
        let l2 = opt_bool(2, v.adminonly);
        let p2 = p1 + l2;
        let l3 = opt_string(3, v.display_name);
        let p3 = p2 + l3;
        assert(parse_fields(Self::spec_encode(v)) == Ok::<Seq<SpecField>, WireError>(p3)) by {
            reveal(Tag::spec_encode);
            assert(numbers_ok(p0) && fields_wf(p0)) by {
                reveal(numbers_ok);
                reveal(fields_wf);
            }
            lemma_opt_string_numbered(1, v.tag);
            lemma_fields_wf_concat(p0, l1);
            lemma_opt_bool_numbered(2, v.adminonly);
            lemma_fields_wf_concat(p1, l2);
            lemma_opt_string_numbered(3, v.display_name);
            lemma_fields_wf_concat(p2, l3);
            assert(p3 == Self::spec_fields(v));
            lemma_fields_wf_from_len(p3);
            lemma_fields_roundtrip(p3);
        }
        assert(Self::spec_prefix(v, 0) == d) by {
            reveal(Tag::spec_prefix);
        }
        lemma_fold_empty(d, apply);
        lemma_fold_concat(d, p0, l1, apply);
        Self::lemma_field_tag(v);
        lemma_fold_concat(d, p1, l2, apply);
        Self::lemma_field_adminonly(v);
        lemma_fold_concat(d, p2, l3, apply);
        Self::lemma_field_display_name(v);
        assert(Self::spec_prefix(v, 3) == v) by {
            reveal(Tag::spec_prefix);
        }
        lemma_merge_run_fold(d, Self::spec_encode(v), apply);
        assert(Self::spec_decode(Self::spec_encode(v)) == Ok::<SpecTag, WireError>(v)) by {
            reveal(Tag::spec_decode);
        }
    }
}

/// `Preview`, as Valve's schema declares it.
#[derive(Debug, Clone, PartialEq)]
pub struct Preview {
    /// Field 1.
    pub previewid: Option<u64>,
    /// Field 2.
    pub sortorder: Option<u32>,
    /// Field 3.
    pub url: Option<String>,
    /// Field 4.
    pub size: Option<u32>,
    /// Field 5.
    pub filename: Option<String>,
    /// Field 6.
    pub youtubevideoid: Option<String>,
    /// Field 7.
    pub preview_type: Option<u32>,
    /// Field 8.
    pub external_reference: Option<String>,
}

/// What a `Preview` holds, as mathematical values.
#[verifier::ext_equal]
pub struct SpecPreview {
    pub previewid: Option<u64>,
    pub sortorder: Option<u32>,
    pub url: Option<Seq<char>>,
    pub size: Option<u32>,
    pub filename: Option<Seq<char>>,
    pub youtubevideoid: Option<Seq<char>>,
    pub preview_type: Option<u32>,
    pub external_reference: Option<Seq<char>>,
}

impl View for Preview {
    type V = SpecPreview;

    open spec fn view(&self) -> SpecPreview {
        SpecPreview {
            previewid: self.previewid,
            sortorder: self.sortorder,
            url: opt_string_view(self.url),
            size: self.size,
            filename: opt_string_view(self.filename),
            youtubevideoid: opt_string_view(self.youtubevideoid),
            preview_type: self.preview_type,
            external_reference: opt_string_view(self.external_reference),
        }
    }
}

impl Default for Preview {
    fn default() -> (r: Self)
        ensures
            r@ == Preview::spec_default(),
    {
        Preview {
            previewid: None,
            sortorder: None,
            url: None,
            size: None,
            filename: None,
            youtubevideoid: None,
            preview_type: None,
            external_reference: None,
        }
    }
}

impl Preview {
    pub open spec fn spec_default() -> SpecPreview {
        SpecPreview {
            previewid: None,
            sortorder: None,
            url: None,
            size: None,
            filename: None,
            youtubevideoid: None,
            preview_type: None,
            external_reference: None,
        }
    }

    /// The records a `Preview` is written as, in field order.
    pub open spec fn spec_fields(v: SpecPreview) -> Seq<SpecField> {
        Seq::<SpecField>::empty()
            + opt_u64(1, v.previewid)
            + opt_u32(2, v.sortorder)
            + opt_string(3, v.url)
            + opt_u32(4, v.size)
            + opt_string(5, v.filename)
            + opt_string(6, v.youtubevideoid)
            + opt_u32(7, v.preview_type)
            + opt_string(8, v.external_reference)
    }

    #[verifier::opaque]
    pub open spec fn spec_encode(v: SpecPreview) -> Seq<u8> {
        fields_bytes(Self::spec_fields(v))
    }

    /// What one record does to the message: a declared number sets or extends its
    /// field, any other number is left alone.
    pub open spec fn spec_apply(v: SpecPreview, f: SpecField) -> Result<SpecPreview, WireError> {
        match f.number {
            1 => match dec_u64(f.value) {
                Ok(x) => Ok(SpecPreview { previewid: Some(x), ..v }),
                Err(e) => Err(e),
            },
            2 => match dec_u32(f.value) {
                Ok(x) => Ok(SpecPreview { sortorder: Some(x), ..v }),
                Err(e) => Err(e),
            },
            3 => match dec_string(f.value) {
                Ok(x) => Ok(SpecPreview { url: Some(x), ..v }),
                Err(e) => Err(e),
            },
            4 => match dec_u32(f.value) {
                Ok(x) => Ok(SpecPreview { size: Some(x), ..v }),
                Err(e) => Err(e),
            },
            5 => match dec_string(f.value) {
                Ok(x) => Ok(SpecPreview { filename: Some(x), ..v }),
                Err(e) => Err(e),
            },
            6 => match dec_string(f.value) {
                Ok(x) => Ok(SpecPreview { youtubevideoid: Some(x), ..v }),
                Err(e) => Err(e),
            },
            7 => match dec_u32(f.value) {
                Ok(x) => Ok(SpecPreview { preview_type: Some(x), ..v }),
                Err(e) => Err(e),
            },
            8 => match dec_string(f.value) {
                Ok(x) => Ok(SpecPreview { external_reference: Some(x), ..v }),
                Err(e) => Err(e),
            },
            _ => Ok(v),
        }
    }

    pub open spec fn apply_fn() -> spec_fn(SpecPreview, SpecField) -> Result<SpecPreview, WireError> {
        |v: SpecPreview, f: SpecField| Self::spec_apply(v, f)
    }

    /// The message `bytes` makes of `v`: its records applied in order, or the error
    /// that stops the reading.
    pub open spec fn spec_merge(v: SpecPreview, bytes: Seq<u8>) -> Result<SpecPreview, WireError> {
        let (w, stop) = merge_run(v, bytes, Self::apply_fn());
        match stop {
            None => Ok(w),
            Some(e) => Err(e),
        }
    }

    #[verifier::opaque]
    pub open spec fn spec_decode(bytes: Seq<u8>) -> Result<SpecPreview, WireError> {
        Self::spec_merge(Self::spec_default(), bytes)
    }

    pub open spec fn view_all(xs: Seq<Preview>) -> Seq<SpecPreview> {
        xs.map_values(|m: Preview| m@)
    }

    pub open spec fn view_opt(o: Option<Preview>) -> Option<SpecPreview> {
        match o {
            Some(m) => Some(m@),
            None => None,
        }
    }

    pub open spec fn spec_encode_all(xs: Seq<SpecPreview>) -> Seq<Seq<u8>> {
        xs.map_values(|m: SpecPreview| Self::spec_encode(m))
    }

    pub open spec fn spec_encode_opt(o: Option<SpecPreview>) -> Option<Seq<u8>> {
        match o {
            Some(m) => Some(Self::spec_encode(m)),
            None => None,
        }
    }

    /// The encoding of each element.
    pub fn encode_all(xs: &Vec<Preview>) -> (r: Vec<Vec<u8>>)
        ensures
            bytes_seq_view(r@) == Self::spec_encode_all(Self::view_all(xs@)),
    {
        let mut out: Vec<Vec<u8>> = Vec::new();
        let mut i: usize = 0;
        while i < xs.len()
            invariant
                i <= xs@.len(),
                out@.len() == i,
                forall|j: int| 0 <= j < i ==> #[trigger] out@[j]@ == Self::spec_encode(xs@[j]@),
            decreases xs@.len() - i,
        {
            let e = xs[i].encode_to_vec();
            out.push(e);
            i = i + 1;
        }
        assert(bytes_seq_view(out@) =~= Self::spec_encode_all(Self::view_all(xs@)));
        out
    }

    /// The encoding of the element, when there is one.
    pub fn encode_opt(o: &Option<Preview>) -> (r: Option<Vec<u8>>)
        ensures
            opt_bytes_view(r) == Self::spec_encode_opt(Self::view_opt(*o)),
    {
        match o {
            Some(m) => Some(m.encode_to_vec()),
            None => None,
        }
    }

    /// This message with one record applied to it, or, when the record is refused,
    /// the message unchanged and the reason.
    fn applied(self, f: &Field) -> (r: Result<Self, (Self, WireError)>)
        ensures
            match Self::spec_apply(self@, f@) {
                Ok(v) => r matches Ok(m) && m@ == v,
                Err(e) => r matches Err((m, x)) && x == e && m@ == self@,
            },
    {
        match f.number {
            1 => match read_u64(&f.value) {
                Ok(x) => Ok(Self { previewid: Some(x), ..self }),
                Err(e) => Err((self, e)),
            },
            2 => match read_u32(&f.value) {
                Ok(x) => Ok(Self { sortorder: Some(x), ..self }),
                Err(e) => Err((self, e)),
            },
            3 => match read_string(&f.value) {
                Ok(x) => Ok(Self { url: Some(x), ..self }),
                Err(e) => Err((self, e)),
            },
            4 => match read_u32(&f.value) {
                Ok(x) => Ok(Self { size: Some(x), ..self }),
                Err(e) => Err((self, e)),
            },
            5 => match read_string(&f.value) {
                Ok(x) => Ok(Self { filename: Some(x), ..self }),
                Err(e) => Err((self, e)),
            },
            6 => match read_string(&f.value) {
                Ok(x) => Ok(Self { youtubevideoid: Some(x), ..self }),
                Err(e) => Err((self, e)),
            },
            7 => match read_u32(&f.value) {
                Ok(x) => Ok(Self { preview_type: Some(x), ..self }),
                Err(e) => Err((self, e)),
            },
            8 => match read_string(&f.value) {
                Ok(x) => Ok(Self { external_reference: Some(x), ..self }),
                Err(e) => Err((self, e)),
            },
            _ => Ok(self),
        }
    }

    /// Reads the records `bytes` holds into this message, in order. When a record does
    /// not parse or is refused, the reading stops there: the message keeps what the
    /// records before it gave, and the error is returned.
    pub fn merge(&mut self, bytes: &[u8]) -> (r: Result<(), WireError>)
        ensures
            final(self)@ == merge_run(old(self)@, bytes@, Self::apply_fn()).0,
            r == match merge_run(old(self)@, bytes@, Self::apply_fn()).1 {
                None => Ok::<(), WireError>(()),
                Some(e) => Err::<(), WireError>(e),
            },
    {
        let ghost total = merge_run(self@, bytes@, Self::apply_fn());
        let mut cur = Self::default();
        std::mem::swap(&mut cur, self);
        let mut pos: usize = 0;
        assert(bytes@.skip(0) =~= bytes@);
        while pos < bytes.len()
            invariant
                pos <= bytes@.len(),
                total == merge_run(old(self)@, bytes@, Self::apply_fn()),
                merge_run(cur@, bytes@.skip(pos as int), Self::apply_fn()) == total,
            decreases bytes@.len() - pos,
        {
            let ghost s = bytes@.skip(pos as int);
            proof {
                lemma_merge_run_step(cur@, s, Self::apply_fn());
                lemma_parse_field_len(s);
            }
            match read_field(bytes, pos) {
                Ok((f, end)) => {
                    assert(bytes@.skip(end as int) =~= s.skip((end - pos) as int));
                    match cur.applied(&f) {
                        Ok(m) => {
                            cur = m;
                        },
                        Err((m, e)) => {
                            *self = m;
                            return Err(e);
                        },
                    }
                    pos = end;
                },
                Err(e) => {
                    *self = cur;
                    return Err(e);
                },
            }
        }
        assert(bytes@.skip(pos as int) =~= Seq::<u8>::empty());
        proof {
            lemma_merge_run_empty(cur@, Self::apply_fn());
        }
        *self = cur;
        Ok(())
    }

    /// Decodes a message from its encoding.
    pub fn decode(bytes: &[u8]) -> (r: Result<Self, WireError>)
        ensures
            match Self::spec_decode(bytes@) {
                Ok(v) => r matches Ok(m) && m@ == v,
                Err(e) => r matches Err(x) && x == e,
            },
    {
        proof {
            reveal(Preview::spec_decode);
        }
        let mut m = Self::default();
        match m.merge(bytes) {
            Ok(()) => Ok(m),
            Err(e) => Err(e),
        }
    }

    /// The encoding of this message.
    pub fn encode_to_vec(&self) -> (r: Vec<u8>)
        ensures
            r@ == Self::spec_encode(self@),
    {
        let ghost v = self@;
        let mut out: Vec<u8> = Vec::new();
        let ghost p0 = Seq::<SpecField>::empty();
        put_opt_varint(&mut out, 1, self.previewid);
        let ghost p1 = p0 + opt_u64(1, v.previewid);
        proof {
            lemma_fields_bytes_concat(p0, opt_u64(1, v.previewid));
        }
        put_opt_u32(&mut out, 2, self.sortorder);
        let ghost p2 = p1 + opt_u32(2, v.sortorder);
        proof {
            lemma_fields_bytes_concat(p1, opt_u32(2, v.sortorder));
        }
        put_opt_string(&mut out, 3, &self.url);
        let ghost p3 = p2 + opt_string(3, v.url);
        proof {
            lemma_fields_bytes_concat(p2, opt_string(3, v.url));
        }
        put_opt_u32(&mut out, 4, self.size);
        let ghost p4 = p3 + opt_u32(4, v.size);
        proof {
            lemma_fields_bytes_concat(p3, opt_u32(4, v.size));
        }
        put_opt_string(&mut out, 5, &self.filename);
        let ghost p5 = p4 + opt_string(5, v.filename);
        proof {
            lemma_fields_bytes_concat(p4, opt_string(5, v.filename));
        }
        put_opt_string(&mut out, 6, &self.youtubevideoid);
        let ghost p6 = p5 + opt_string(6, v.youtubevideoid);
        proof {
            lemma_fields_bytes_concat(p5, opt_string(6, v.youtubevideoid));
        }
        put_opt_u32(&mut out, 7, self.preview_type);
        let ghost p7 = p6 + opt_u32(7, v.preview_type);
        proof {
            lemma_fields_bytes_concat(p6, opt_u32(7, v.preview_type));
        }
        put_opt_string(&mut out, 8, &self.external_reference);
        let ghost p8 = p7 + opt_string(8, v.external_reference);
        proof {
            lemma_fields_bytes_concat(p7, opt_string(8, v.external_reference));
        }
        proof {
            reveal(Preview::spec_encode);
        }
        assert(p8 == Self::spec_fields(v));
        out
    }

    /// Appends the encoding of this message to `out`.
    pub fn encode_raw(&self, out: &mut Vec<u8>)
        ensures
            final(out)@ == old(out)@ + Self::spec_encode(self@),
    {
        let mut b = self.encode_to_vec();
        out.append(&mut b);
    }

    /// The first `k` fields of `v`, the others as a fresh message has them.
    #[verifier::opaque]
    pub open spec fn spec_prefix(v: SpecPreview, k: int) -> SpecPreview {
        SpecPreview {
            previewid: if 1 <= k { v.previewid } else { None },
            sortorder: if 2 <= k { v.sortorder } else { None },
            url: if 3 <= k { v.url } else { None },
            size: if 4 <= k { v.size } else { None },
            filename: if 5 <= k { v.filename } else { None },
            youtubevideoid: if 6 <= k { v.youtubevideoid } else { None },
            preview_type: if 7 <= k { v.preview_type } else { None },
            external_reference: if 8 <= k { v.external_reference } else { None },
        }
    }

    /// Reading field 1 back, after the fields before it.
    proof fn lemma_field_previewid(v: SpecPreview)
        ensures
            fold_fields(Self::spec_prefix(v, 0), opt_u64(1, v.previewid), Self::apply_fn())
                == Ok::<SpecPreview, WireError>(Self::spec_prefix(v, 1)),
    {
        reveal(Preview::spec_prefix);
        reveal(opt_u64);
        let apply = Self::apply_fn();
        let s = Self::spec_prefix(v, 0);
        lemma_fold_opt(s, 1, match v.previewid { Some(x) => Some(enc_u64(x)), None => None }, apply);
        if let Some(x) = v.previewid {
            lemma_u64_roundtrip(x);
        }
        assert(SpecPreview { previewid: v.previewid, ..s } == Self::spec_prefix(v, 1));
    }

    /// Reading field 2 back, after the fields before it.
    proof fn lemma_field_sortorder(v: SpecPreview)
        ensures
            fold_fields(Self::spec_prefix(v, 1), opt_u32(2, v.sortorder), Self::apply_fn())
                == Ok::<SpecPreview, WireError>(Self::spec_prefix(v, 2)),
    {
        reveal(Preview::spec_prefix);
        reveal(opt_u32);
        let apply = Self::apply_fn();
        let s = Self::spec_prefix(v, 1);
        lemma_fold_opt(s, 2, match v.sortorder { Some(x) => Some(enc_u32(x)), None => None }, apply);
        if let Some(x) = v.sortorder {
            lemma_u32_roundtrip(x);
        }
        assert(SpecPreview { sortorder: v.sortorder, ..s } == Self::spec_prefix(v, 2));
    }

    /// Reading field 3 back, after the fields before it.
    proof fn lemma_field_url(v: SpecPreview)
        ensures
            fold_fields(Self::spec_prefix(v, 2), opt_string(3, v.url), Self::apply_fn())
                == Ok::<SpecPreview, WireError>(Self::spec_prefix(v, 3)),
    {
        reveal(Preview::spec_prefix);
        reveal(opt_string);
        let apply = Self::apply_fn();
        let s = Self::spec_prefix(v, 2);
        lemma_fold_opt(s, 3, match v.url { Some(x) => Some(enc_string(x)), None => None }, apply);
        if let Some(x) = v.url {
            lemma_string_roundtrip(x);
        }
        assert(SpecPreview { url: v.url, ..s } == Self::spec_prefix(v, 3));
    }

    /// Reading field 4 back, after the fields before it.
    proof fn lemma_field_size(v: SpecPreview)
        ensures
            fold_fields(Self::spec_prefix(v, 3), opt_u32(4, v.size), Self::apply_fn())
                == Ok::<SpecPreview, WireError>(Self::spec_prefix(v, 4)),
    {
        reveal(Preview::spec_prefix);
        reveal(opt_u32);
        let apply = Self::apply_fn();
        let s = Self::spec_prefix(v, 3);
        lemma_fold_opt(s, 4, match v.size { Some(x) => Some(enc_u32(x)), None => None }, apply);
        if let Some(x) = v.size {
            lemma_u32_roundtrip(x);
        }
        assert(SpecPreview { size: v.size, ..s } == Self::spec_prefix(v, 4));
    }

    /// Reading field 5 back, after the fields before it.
    proof fn lemma_field_filename(v: SpecPreview)
        ensures
            fold_fields(Self::spec_prefix(v, 4), opt_string(5, v.filename), Self::apply_fn())
                == Ok::<SpecPreview, WireError>(Self::spec_prefix(v, 5)),
    {
        reveal(Preview::spec_prefix);
        reveal(opt_string);
        let apply = Self::apply_fn();
        let s = Self::spec_prefix(v, 4);
        lemma_fold_opt(s, 5, match v.filename { Some(x) => Some(enc_string(x)), None => None }, apply);
        if let Some(x) = v.filename {
            lemma_string_roundtrip(x);
        }
        assert(SpecPreview { filename: v.filename, ..s } == Self::spec_prefix(v, 5));
    }

    /// Reading field 6 back, after the fields before it.
    proof fn lemma_field_youtubevideoid(v: SpecPreview)
        ensures
            fold_fields(Self::spec_prefix(v, 5), opt_string(6, v.youtubevideoid), Self::apply_fn())
                == Ok::<SpecPreview, WireError>(Self::spec_prefix(v, 6)),
    {
        reveal(Preview::spec_prefix);
        reveal(opt_string);
        let apply = Self::apply_fn();
        let s = Self::spec_prefix(v, 5);
        lemma_fold_opt(s, 6, match v.youtubevideoid { Some(x) => Some(enc_string(x)), None => None }, apply);
        if let Some(x) = v.youtubevideoid {
            lemma_string_roundtrip(x);
        }
        assert(SpecPreview { youtubevideoid: v.youtubevideoid, ..s } == Self::spec_prefix(v, 6));
    }

    /// Reading field 7 back, after the fields before it.
    proof fn lemma_field_preview_type(v: SpecPreview)
        ensures
            fold_fields(Self::spec_prefix(v, 6), opt_u32(7, v.preview_type), Self::apply_fn())
                == Ok::<SpecPreview, WireError>(Self::spec_prefix(v, 7)),
    {
        reveal(Preview::spec_prefix);
        reveal(opt_u32);
        let apply = Self::apply_fn();
        let s = Self::spec_prefix(v, 6);
        lemma_fold_opt(s, 7, match v.preview_type { Some(x) => Some(enc_u32(x)), None => None }, apply);
        if let Some(x) = v.preview_type {
            lemma_u32_roundtrip(x);
        }
        assert(SpecPreview { preview_type: v.preview_type, ..s } == Self::spec_prefix(v, 7));
    }

    /// Reading field 8 back, after the fields before it.
    proof fn lemma_field_external_reference(v: SpecPreview)
        ensures
            fold_fields(Self::spec_prefix(v, 7), opt_string(8, v.external_reference), Self::apply_fn())
                == Ok::<SpecPreview, WireError>(Self::spec_prefix(v, 8)),
    {
        reveal(Preview::spec_prefix);
        reveal(opt_string);
        let apply = Self::apply_fn();
        let s = Self::spec_prefix(v, 7);
        lemma_fold_opt(s, 8, match v.external_reference { Some(x) => Some(enc_string(x)), None => None }, apply);
        if let Some(x) = v.external_reference {
            lemma_string_roundtrip(x);
        }
        assert(SpecPreview { external_reference: v.external_reference, ..s } == Self::spec_prefix(v, 8));
    }

    /// Whether this message declares field number `n`.
    pub open spec fn declares(n: u32) -> bool {
        n == 1 || n == 2 || n == 3 || n == 4 || n == 5 || n == 6 || n == 7 || n == 8
    }

    /// A record with a number this message does not declare is passed over: well-formed
    /// bytes decode to the same message with such a record after them as without it.
    pub proof fn lemma_unknown_field(bytes: Seq<u8>, f: SpecField)
        requires
            parse_fields(bytes) is Ok,
            field_wf(f),
            !Self::declares(f.number),
        ensures
            Self::spec_decode(bytes + field_bytes(f)) == Self::spec_decode(bytes),
    {
        reveal(Preview::spec_decode);
        lemma_parse_fields_append(bytes, f);
        let fs = parse_fields(bytes).unwrap();
        let apply = Self::apply_fn();
        lemma_fold_concat(Self::spec_default(), fs, seq![f], apply);
        assert(fs.push(f) =~= fs + seq![f]);
        if let Ok(w) = fold_fields(Self::spec_default(), fs, apply) {
            lemma_fold_single(w, f, apply);
        }
        lemma_merge_run_fold(Self::spec_default(), bytes, apply);
        lemma_merge_run_fold(Self::spec_default(), bytes + field_bytes(f), apply);
    }

    /// Decoding the encoding of a message gives the message back.
    pub proof fn lemma_decode_encode(v: SpecPreview)
        requires
            Self::spec_encode(v).len() <= u64::MAX,
        ensures
            Self::spec_decode(Self::spec_encode(v)) == Ok::<SpecPreview, WireError>(v),
    {
        let apply = Self::apply_fn();
        let d = Self::spec_default();
        let p0 = Seq::<SpecField>::empty();
        let l1 = opt_u64(1, v.previewid);
        let p1 = p0 + l1;
        let l2 = opt_u32(2, v.sortorder);
        let p2 = p1 + l2;
        let l3 = opt_string(3, v.url);
        let p3 = p2 + l3;
        let l4 = opt_u32(4, v.size);
        let p4 = p3 + l4;
        let l5 = opt_string(5, v.filename);
        let p5 = p4 + l5;
        let l6 = opt_string(6, v.youtubevideoid);
        let p6 = p5 + l6;
        let l7 = opt_u32(7, v.preview_type);
        let p7 = p6 + l7;
        let l8 = opt_string(8, v.external_reference);
        let p8 = p7 + l8;
        assert(parse_fields(Self::spec_encode(v)) == Ok::<Seq<SpecField>, WireError>(p8)) by {
            reveal(Preview::spec_encode);
            assert(numbers_ok(p0) && fields_wf(p0)) by {
                reveal(numbers_ok);
                reveal(fields_wf);
            }
            lemma_opt_u64_numbered(1, v.previewid);
            lemma_fields_wf_concat(p0, l1);
            lemma_opt_u32_numbered(2, v.sortorder);
            lemma_fields_wf_concat(p1, l2);
            lemma_opt_string_numbered(3, v.url);
            lemma_fields_wf_concat(p2, l3);
            lemma_opt_u32_numbered(4, v.size);
            lemma_fields_wf_concat(p3, l4);
            lemma_opt_string_numbered(5, v.filename);
            lemma_fields_wf_concat(p4, l5);
            lemma_opt_string_numbered(6, v.youtubevideoid);
            lemma_fields_wf_concat(p5, l6);
            lemma_opt_u32_numbered(7, v.preview_type);
            lemma_fields_wf_concat(p6, l7);
            lemma_opt_string_numbered(8, v.external_reference);
            lemma_fields_wf_concat(p7, l8);
            assert(p8 == Self::spec_fields(v));
            lemma_fields_wf_from_len(p8);
            lemma_fields_roundtrip(p8);
        }
        assert(Self::spec_prefix(v, 0) == d) by {
            reveal(Preview::spec_prefix);
        }
        lemma_fold_empty(d, apply);
        lemma_fold_concat(d, p0, l1, apply);
        Self::lemma_field_previewid(v);
        lemma_fold_concat(d, p1, l2, apply);
        Self::lemma_field_sortorder(v);
        lemma_fold_concat(d, p2, l3, apply);
        Self::lemma_field_url(v);
        lemma_fold_concat(d, p3, l4, apply);
        Self::lemma_field_size(v);
        lemma_fold_concat(d, p4, l5, apply);
        Self::lemma_field_filename(v);
        lemma_fold_concat(d, p5, l6, apply);
        Self::lemma_field_youtubevideoid(v);
        lemma_fold_concat(d, p6, l7, apply);
        Self::lemma_field_preview_type(v);
        lemma_fold_concat(d, p7, l8, apply);
        Self::lemma_field_external_reference(v);
        assert(Self::spec_prefix(v, 8) == v) by {
            reveal(Preview::spec_prefix);
        }
        lemma_merge_run_fold(d, Self::spec_encode(v), apply);
        assert(Self::spec_decode(Self::spec_encode(v)) == Ok::<SpecPreview, WireError>(v)) by {
            reveal(Preview::spec_decode);
        }
    }
}

/// `Child`, as Valve's schema declares it.
#[derive(Debug, Clone, PartialEq)]
pub struct Child {
    /// Field 1.
    pub publishedfileid: Option<u64>,
    /// Field 2.
    pub sortorder: Option<u32>,
    /// Field 3.
    pub file_type: Option<u32>,
}

/// What a `Child` holds, as mathematical values.
#[verifier::ext_equal]
pub struct SpecChild {
    pub publishedfileid: Option<u64>,
    pub sortorder: Option<u32>,
    pub file_type: Option<u32>,
}

impl View for Child {
    type V = SpecChild;

    open spec fn view(&self) -> SpecChild {
        SpecChild {
            publishedfileid: self.publishedfileid,
            sortorder: self.sortorder,
            file_type: self.file_type,
        }
    }
}

impl Default for Child {
    fn default() -> (r: Self)
        ensures
            r@ == Child::spec_default(),
    {
        Child {
            publishedfileid: None,
            sortorder: None,
            file_type: None,
        }
    }
}

impl Child {
    pub open spec fn spec_default() -> SpecChild {
        SpecChild {
            publishedfileid: None,
            sortorder: None,
            file_type: None,
        }
    }

    /// The records a `Child` is written as, in field order.
    pub open spec fn spec_fields(v: SpecChild) -> Seq<SpecField> {
        Seq::<SpecField>::empty()
            + opt_u64(1, v.publishedfileid)
            + opt_u32(2, v.sortorder)
            + opt_u32(3, v.file_type)
    }

    #[verifier::opaque]
    pub open spec fn spec_encode(v: SpecChild) -> Seq<u8> {
        fields_bytes(Self::spec_fields(v))
    }

    /// What one record does to the message: a declared number sets or extends its
    /// field, any other number is left alone.
    pub open spec fn spec_apply(v: SpecChild, f: SpecField) -> Result<SpecChild, WireError> {
        match f.number {
            1 => match dec_u64(f.value) {
                Ok(x) => Ok(SpecChild { publishedfileid: Some(x), ..v }),
                Err(e) => Err(e),
            },
            2 => match dec_u32(f.value) {
                Ok(x) => Ok(SpecChild { sortorder: Some(x), ..v }),
                Err(e) => Err(e),
            },
            3 => match dec_u32(f.value) {
                Ok(x) => Ok(SpecChild { file_type: Some(x), ..v }),
                Err(e) => Err(e),
            },
            _ => Ok(v),
        }
    }

    pub open spec fn apply_fn() -> spec_fn(SpecChild, SpecField) -> Result<SpecChild, WireError> {
        |v: SpecChild, f: SpecField| Self::spec_apply(v, f)
    }

    /// The message `bytes` makes of `v`: its records applied in order, or the error
    /// that stops the reading.
    pub open spec fn spec_merge(v: SpecChild, bytes: Seq<u8>) -> Result<SpecChild, WireError> {
        let (w, stop) = merge_run(v, bytes, Self::apply_fn());
        match stop {
            None => Ok(w),
            Some(e) => Err(e),
        }
    }

    #[verifier::opaque]
    pub open spec fn spec_decode(bytes: Seq<u8>) -> Result<SpecChild, WireError> {
        Self::spec_merge(Self::spec_default(), bytes)
    }

    pub open spec fn view_all(xs: Seq<Child>) -> Seq<SpecChild> {
        xs.map_values(|m: Child| m@)
    }

    pub open spec fn view_opt(o: Option<Child>) -> Option<SpecChild> {
        match o {
            Some(m) => Some(m@),
            None => None,
        }
    }

    pub open spec fn spec_encode_all(xs: Seq<SpecChild>) -> Seq<Seq<u8>> {
        xs.map_values(|m: SpecChild| Self::spec_encode(m))
    }

    pub open spec fn spec_encode_opt(o: Option<SpecChild>) -> Option<Seq<u8>> {
        match o {
            Some(m) => Some(Self::spec_encode(m)),
            None => None,
        }
    }

    /// The encoding of each element.
    pub fn encode_all(xs: &Vec<Child>) -> (r: Vec<Vec<u8>>)
        ensures
            bytes_seq_view(r@) == Self::spec_encode_all(Self::view_all(xs@)),
    {
        let mut out: Vec<Vec<u8>> = Vec::new();
        let mut i: usize = 0;
        while i < xs.len()
            invariant
                i <= xs@.len(),
                out@.len() == i,
                forall|j: int| 0 <= j < i ==> #[trigger] out@[j]@ == Self::spec_encode(xs@[j]@),
            decreases xs@.len() - i,
        {
            let e = xs[i].encode_to_vec();
            out.push(e);
            i = i + 1;
        }
        assert(bytes_seq_view(out@) =~= Self::spec_encode_all(Self::view_all(xs@)));
        out
    }

    /// The encoding of the element, when there is one.
    pub fn encode_opt(o: &Option<Child>) -> (r: Option<Vec<u8>>)
        ensures
            opt_bytes_view(r) == Self::spec_encode_opt(Self::view_opt(*o)),
    {
        match o {
            Some(m) => Some(m.encode_to_vec()),
            None => None,
        }
    }

    /// This message with one record applied to it, or, when the record is refused,
    /// the message unchanged and the reason.
    fn applied(self, f: &Field) -> (r: Result<Self, (Self, WireError)>)
        ensures
            match Self::spec_apply(self@, f@) {
                Ok(v) => r matches Ok(m) && m@ == v,
                Err(e) => r matches Err((m, x)) && x == e && m@ == self@,
            },
    {
        match f.number {
            1 => match read_u64(&f.value) {
                Ok(x) => Ok(Self { publishedfileid: Some(x), ..self }),
                Err(e) => Err((self, e)),
            },
            2 => match read_u32(&f.value) {
                Ok(x) => Ok(Self { sortorder: Some(x), ..self }),
                Err(e) => Err((self, e)),
            },
            3 => match read_u32(&f.value) {
                Ok(x) => Ok(Self { file_type: Some(x), ..self }),
                Err(e) => Err((self, e)),
            },
            _ => Ok(self),
        }
    }

    /// Reads the records `bytes` holds into this message, in order. When a record does
    /// not parse or is refused, the reading stops there: the message keeps what the
    /// records before it gave, and the error is returned.
    pub fn merge(&mut self, bytes: &[u8]) -> (r: Result<(), WireError>)
        ensures
            final(self)@ == merge_run(old(self)@, bytes@, Self::apply_fn()).0,
            r == match merge_run(old(self)@, bytes@, Self::apply_fn()).1 {
                None => Ok::<(), WireError>(()),
                Some(e) => Err::<(), WireError>(e),
            },
    {
        let ghost total = merge_run(self@, bytes@, Self::apply_fn());
        let mut cur = Self::default();
        std::mem::swap(&mut cur, self);
        let mut pos: usize = 0;
        assert(bytes@.skip(0) =~= bytes@);
        while pos < bytes.len()
            invariant
                pos <= bytes@.len(),
                total == merge_run(old(self)@, bytes@, Self::apply_fn()),
                merge_run(cur@, bytes@.skip(pos as int), Self::apply_fn()) == total,
            decreases bytes@.len() - pos,
        {
            let ghost s = bytes@.skip(pos as int);
            proof {
                lemma_merge_run_step(cur@, s, Self::apply_fn());
                lemma_parse_field_len(s);
            }
            match read_field(bytes, pos) {
                Ok((f, end)) => {
                    assert(bytes@.skip(end as int) =~= s.skip((end - pos) as int));
                    match cur.applied(&f) {
                        Ok(m) => {
                            cur = m;
                        },
                        Err((m, e)) => {
                            *self = m;
                            return Err(e);
                        },
                    }
                    pos = end;
                },
                Err(e) => {
                    *self = cur;
                    return Err(e);
                },
            }
        }
        assert(bytes@.skip(pos as int) =~= Seq::<u8>::empty());
        proof {
            lemma_merge_run_empty(cur@, Self::apply_fn());
        }
        *self = cur;
        Ok(())
    }

    /// Decodes a message from its encoding.
    pub fn decode(bytes: &[u8]) -> (r: Result<Self, WireError>)
        ensures
            match Self::spec_decode(bytes@) {
                Ok(v) => r matches Ok(m) && m@ == v,
                Err(e) => r matches Err(x) && x == e,
            },
    {
        proof {
            reveal(Child::spec_decode);
        }
        let mut m = Self::default();
        match m.merge(bytes) {
            Ok(()) => Ok(m),
            Err(e) => Err(e),
        }
    }

    /// The encoding of this message.
    pub fn encode_to_vec(&self) -> (r: Vec<u8>)
        ensures
            r@ == Self::spec_encode(self@),
    {
        let ghost v = self@;
        let mut out: Vec<u8> = Vec::new();
        let ghost p0 = Seq::<SpecField>::empty();
        put_opt_varint(&mut out, 1, self.publishedfileid);
        let ghost p1 = p0 + opt_u64(1, v.publishedfileid);
        proof {
            lemma_fields_bytes_concat(p0, opt_u64(1, v.publishedfileid));
        }
        put_opt_u32(&mut out, 2, self.sortorder);
        let ghost p2 = p1 + opt_u32(2, v.sortorder);
        proof {
            lemma_fields_bytes_concat(p1, opt_u32(2, v.sortorder));
        }
        put_opt_u32(&mut out, 3, self.file_type);
        let ghost p3 = p2 + opt_u32(3, v.file_type);
        proof {
            lemma_fields_bytes_concat(p2, opt_u32(3, v.file_type));
        }
        proof {
            reveal(Child::spec_encode);
        }
        assert(p3 == Self::spec_fields(v));
        out
    }

    /// Appends the encoding of this message to `out`.
    pub fn encode_raw(&self, out: &mut Vec<u8>)
        ensures
            final(out)@ == old(out)@ + Self::spec_encode(self@),
    {
        let mut b = self.encode_to_vec();
        out.append(&mut b);
    }

    /// The first `k` fields of `v`, the others as a fresh message has them.
    #[verifier::opaque]
    pub open spec fn spec_prefix(v: SpecChild, k: int) -> SpecChild {
        SpecChild {
            publishedfileid: if 1 <= k { v.publishedfileid } else { None },
            sortorder: if 2 <= k { v.sortorder } else { None },
            file_type: if 3 <= k { v.file_type } else { None },
        }
    }

    /// Reading field 1 back, after the fields before it.
    proof fn lemma_field_publishedfileid(v: SpecChild)
        ensures
            fold_fields(Self::spec_prefix(v, 0), opt_u64(1, v.publishedfileid), Self::apply_fn())
                == Ok::<SpecChild, WireError>(Self::spec_prefix(v, 1)),
    {
        reveal(Child::spec_prefix);
        reveal(opt_u64);
        let apply = Self::apply_fn();
        let s = Self::spec_prefix(v, 0);
        lemma_fold_opt(s, 1, match v.publishedfileid { Some(x) => Some(enc_u64(x)), None => None }, apply);
        if let Some(x) = v.publishedfileid {
            lemma_u64_roundtrip(x);
        }
        assert(SpecChild { publishedfileid: v.publishedfileid, ..s } == Self::spec_prefix(v, 1));
    }

    /// Reading field 2 back, after the fields before it.
    proof fn lemma_field_sortorder(v: SpecChild)
        ensures
            fold_fields(Self::spec_prefix(v, 1), opt_u32(2, v.sortorder), Self::apply_fn())
                == Ok::<SpecChild, WireError>(Self::spec_prefix(v, 2)),
    {
        reveal(Child::spec_prefix);
        reveal(opt_u32);
        let apply = Self::apply_fn();
        let s = Self::spec_prefix(v, 1);
        lemma_fold_opt(s, 2, match v.sortorder { Some(x) => Some(enc_u32(x)), None => None }, apply);
        if let Some(x) = v.sortorder {
            lemma_u32_roundtrip(x);
        }
        assert(SpecChild { sortorder: v.sortorder, ..s } == Self::spec_prefix(v, 2));
    }

    /// Reading field 3 back, after the fields before it.
    proof fn lemma_field_file_type(v: SpecChild)
        ensures
            fold_fields(Self::spec_prefix(v, 2), opt_u32(3, v.file_type), Self::apply_fn())
                == Ok::<SpecChild, WireError>(Self::spec_prefix(v, 3)),
    {
        reveal(Child::spec_prefix);
        reveal(opt_u32);
        let apply = Self::apply_fn();
        let s = Self::spec_prefix(v, 2);
        lemma_fold_opt(s, 3, match v.file_type { Some(x) => Some(enc_u32(x)), None => None }, apply);
        if let Some(x) = v.file_type {
            lemma_u32_roundtrip(x);
        }
        assert(SpecChild { file_type: v.file_type, ..s } == Self::spec_prefix(v, 3));
    }

    /// Whether this message declares field number `n`.
    pub open spec fn declares(n: u32) -> bool {
        n == 1 || n == 2 || n == 3
    }

    /// A record with a number this message does not declare is passed over: well-formed
    /// bytes decode to the same message with such a record after them as without it.
    pub proof fn lemma_unknown_field(bytes: Seq<u8>, f: SpecField)
        requires
            parse_fields(bytes) is Ok,
            field_wf(f),
            !Self::declares(f.number),
        ensures
            Self::spec_decode(bytes + field_bytes(f)) == Self::spec_decode(bytes),
    {
        reveal(Child::spec_decode);
        lemma_parse_fields_append(bytes, f);
        let fs = parse_fields(bytes).unwrap();
        let apply = Self::apply_fn();
        lemma_fold_concat(Self::spec_default(), fs, seq![f], apply);
        assert(fs.push(f) =~= fs + seq![f]);
        if let Ok(w) = fold_fields(Self::spec_default(), fs, apply) {
            lemma_fold_single(w, f, apply);
        }
        lemma_merge_run_fold(Self::spec_default(), bytes, apply);
        lemma_merge_run_fold(Self::spec_default(), bytes + field_bytes(f), apply);
    }

    /// Decoding the encoding of a message gives the message back.
    pub proof fn lemma_decode_encode(v: SpecChild)
        requires
            Self::spec_encode(v).len() <= u64::MAX,
        ensures
            Self::spec_decode(Self::spec_encode(v)) == Ok::<SpecChild, WireError>(v),
    {
        let apply = Self::apply_fn();
        let d = Self::spec_default();
        let p0 = Seq::<SpecField>::empty();
        let l1 = opt_u64(1, v.publishedfileid);
        let p1 = p0 + l1;
        let l2 = opt_u32(2, v.sortorder);
        let p2 = p1 + l2;
        let l3 = opt_u32(3, v.file_type);
        let p3 = p2 + l3;
        assert(parse_fields(Self::spec_encode(v)) == Ok::<Seq<SpecField>, WireError>(p3)) by {
            reveal(Child::spec_encode);
            assert(numbers_ok(p0) && fields_wf(p0)) by {
                reveal(numbers_ok);
                reveal(fields_wf);
            }
            lemma_opt_u64_numbered(1, v.publishedfileid);
            lemma_fields_wf_concat(p0, l1);
            lemma_opt_u32_numbered(2, v.sortorder);
            lemma_fields_wf_concat(p1, l2);
            lemma_opt_u32_numbered(3, v.file_type);
            lemma_fields_wf_concat(p2, l3);
            assert(p3 == Self::spec_fields(v));
            lemma_fields_wf_from_len(p3);
            lemma_fields_roundtrip(p3);
        }
        assert(Self::spec_prefix(v, 0) == d) by {
            reveal(Child::spec_prefix);
        }
        lemma_fold_empty(d, apply);
        lemma_fold_concat(d, p0, l1, apply);
        Self::lemma_field_publishedfileid(v);
        lemma_fold_concat(d, p1, l2, apply);
        Self::lemma_field_sortorder(v);
        lemma_fold_concat(d, p2, l3, apply);
        Self::lemma_field_file_type(v);
        assert(Self::spec_prefix(v, 3) == v) by {
            reveal(Child::spec_prefix);
        }
        lemma_merge_run_fold(d, Self::spec_encode(v), apply);
        assert(Self::spec_decode(Self::spec_encode(v)) == Ok::<SpecChild, WireError>(v)) by {
            reveal(Child::spec_decode);
        }
    }
}

/// `KVTag`, as Valve's schema declares it.
#[derive(Debug, Clone, PartialEq)]
pub struct KVTag {
    /// Field 1.
    pub key: Option<String>,
    /// Field 2.
    pub value: Option<String>,
}

/// What a `KVTag` holds, as mathematical values.
#[verifier::ext_equal]
pub struct SpecKVTag {
    pub key: Option<Seq<char>>,
    pub value: Option<Seq<char>>,
}

impl View for KVTag {
    type V = SpecKVTag;

    open spec fn view(&self) -> SpecKVTag {
        SpecKVTag {
            key: opt_string_view(self.key),
            value: opt_string_view(self.value),
        }
    }
}

impl Default for KVTag {
    fn default() -> (r: Self)
        ensures
            r@ == KVTag::spec_default(),
    {
        KVTag {
            key: None,
            value: None,
        }
    }
}

impl KVTag {
    pub open spec fn spec_default() -> SpecKVTag {
        SpecKVTag {
            key: None,
            value: None,
        }
    }

    /// The records a `KVTag` is written as, in field order.
    pub open spec fn spec_fields(v: SpecKVTag) -> Seq<SpecField> {
        Seq::<SpecField>::empty()
            + opt_string(1, v.key)
            + opt_string(2, v.value)
    }

    #[verifier::opaque]
    pub open spec fn spec_encode(v: SpecKVTag) -> Seq<u8> {
        fields_bytes(Self::spec_fields(v))
    }

    /// What one record does to the message: a declared number sets or extends its
    /// field, any other number is left alone.
    pub open spec fn spec_apply(v: SpecKVTag, f: SpecField) -> Result<SpecKVTag, WireError> {
        match f.number {
            1 => match dec_string(f.value) {
                Ok(x) => Ok(SpecKVTag { key: Some(x), ..v }),
                Err(e) => Err(e),
            },
            2 => match dec_string(f.value) {
                Ok(x) => Ok(SpecKVTag { value: Some(x), ..v }),
                Err(e) => Err(e),
            },
            _ => Ok(v),
        }
    }

    pub open spec fn apply_fn() -> spec_fn(SpecKVTag, SpecField) -> Result<SpecKVTag, WireError> {
        |v: SpecKVTag, f: SpecField| Self::spec_apply(v, f)
    }

    /// The message `bytes` makes of `v`: its records applied in order, or the error
    /// that stops the reading.
    pub open spec fn spec_merge(v: SpecKVTag, bytes: Seq<u8>) -> Result<SpecKVTag, WireError> {
        let (w, stop) = merge_run(v, bytes, Self::apply_fn());
        match stop {
            None => Ok(w),
            Some(e) => Err(e),
        }
    }

    #[verifier::opaque]
    pub open spec fn spec_decode(bytes: Seq<u8>) -> Result<SpecKVTag, WireError> {
        Self::spec_merge(Self::spec_default(), bytes)
    }

    pub open spec fn view_all(xs: Seq<KVTag>) -> Seq<SpecKVTag> {
        xs.map_values(|m: KVTag| m@)
    }

    pub open spec fn view_opt(o: Option<KVTag>) -> Option<SpecKVTag> {
        match o {
            Some(m) => Some(m@),
            None => None,
        }
    }

    pub open spec fn spec_encode_all(xs: Seq<SpecKVTag>) -> Seq<Seq<u8>> {
        xs.map_values(|m: SpecKVTag| Self::spec_encode(m))
    }

    pub open spec fn spec_encode_opt(o: Option<SpecKVTag>) -> Option<Seq<u8>> {
        match o {
            Some(m) => Some(Self::spec_encode(m)),
            None => None,
        }
    }

    /// The encoding of each element.
    pub fn encode_all(xs: &Vec<KVTag>) -> (r: Vec<Vec<u8>>)
        ensures
            bytes_seq_view(r@) == Self::spec_encode_all(Self::view_all(xs@)),
    {
        let mut out: Vec<Vec<u8>> = Vec::new();
        let mut i: usize = 0;
        while i < xs.len()
            invariant
                i <= xs@.len(),
                out@.len() == i,
                forall|j: int| 0 <= j < i ==> #[trigger] out@[j]@ == Self::spec_encode(xs@[j]@),
            decreases xs@.len() - i,
        {
            let e = xs[i].encode_to_vec();
            out.push(e);
            i = i + 1;
        }
        assert(bytes_seq_view(out@) =~= Self::spec_encode_all(Self::view_all(xs@)));
        out
    }

    /// The encoding of the element, when there is one.
    pub fn encode_opt(o: &Option<KVTag>) -> (r: Option<Vec<u8>>)
        ensures
            opt_bytes_view(r) == Self::spec_encode_opt(Self::view_opt(*o)),
    {
        match o {
            Some(m) => Some(m.encode_to_vec()),
            None => None,
        }
    }

    /// This message with one record applied to it, or, when the record is refused,
    /// the message unchanged and the reason.
    fn applied(self, f: &Field) -> (r: Result<Self, (Self, WireError)>)
        ensures
            match Self::spec_apply(self@, f@) {
                Ok(v) => r matches Ok(m) && m@ == v,
                Err(e) => r matches Err((m, x)) && x == e && m@ == self@,
            },
    {
        match f.number {
            1 => match read_string(&f.value) {
                Ok(x) => Ok(Self { key: Some(x), ..self }),
                Err(e) => Err((self, e)),
            },
            2 => match read_string(&f.value) {
                Ok(x) => Ok(Self { value: Some(x), ..self }),
                Err(e) => Err((self, e)),
            },
            _ => Ok(self),
        }
    }

    /// Reads the records `bytes` holds into this message, in order. When a record does
    /// not parse or is refused, the reading stops there: the message keeps what the
    /// records before it gave, and the error is returned.
    pub fn merge(&mut self, bytes: &[u8]) -> (r: Result<(), WireError>)
        ensures
            final(self)@ == merge_run(old(self)@, bytes@, Self::apply_fn()).0,
            r == match merge_run(old(self)@, bytes@, Self::apply_fn()).1 {
                None => Ok::<(), WireError>(()),
                Some(e) => Err::<(), WireError>(e),
            },
    {
        let ghost total = merge_run(self@, bytes@, Self::apply_fn());
        let mut cur = Self::default();
        std::mem::swap(&mut cur, self);
        let mut pos: usize = 0;
        assert(bytes@.skip(0) =~= bytes@);
        while pos < bytes.len()
            invariant
                pos <= bytes@.len(),
                total == merge_run(old(self)@, bytes@, Self::apply_fn()),
                merge_run(cur@, bytes@.skip(pos as int), Self::apply_fn()) == total,
            decreases bytes@.len() - pos,
        {
            let ghost s = bytes@.skip(pos as int);
            proof {
                lemma_merge_run_step(cur@, s, Self::apply_fn());
                lemma_parse_field_len(s);
            }
            match read_field(bytes, pos) {
                Ok((f, end)) => {
                    assert(bytes@.skip(end as int) =~= s.skip((end - pos) as int));
                    match cur.applied(&f) {
                        Ok(m) => {
                            cur = m;
                        },
                        Err((m, e)) => {
                            *self = m;
                            return Err(e);
                        },
                    }
                    pos = end;
                },
                Err(e) => {
                    *self = cur;
                    return Err(e);
                },
            }
        }
        assert(bytes@.skip(pos as int) =~= Seq::<u8>::empty());
        proof {
            lemma_merge_run_empty(cur@, Self::apply_fn());
        }
        *self = cur;
        Ok(())
    }

    /// Decodes a message from its encoding.
    pub fn decode(bytes: &[u8]) -> (r: Result<Self, WireError>)
        ensures
            match Self::spec_decode(bytes@) {
                Ok(v) => r matches Ok(m) && m@ == v,
                Err(e) => r matches Err(x) && x == e,
            },
    {
        proof {
            reveal(KVTag::spec_decode);
        }
        let mut m = Self::default();
        match m.merge(bytes) {
            Ok(()) => Ok(m),
            Err(e) => Err(e),
        }
    }

    /// The encoding of this message.
    pub fn encode_to_vec(&self) -> (r: Vec<u8>)
        ensures
            r@ == Self::spec_encode(self@),
    {
        let ghost v = self@;
        let mut out: Vec<u8> = Vec::new();
        let ghost p0 = Seq::<SpecField>::empty();
        put_opt_string(&mut out, 1, &self.key);
        let ghost p1 = p0 + opt_string(1, v.key);
        proof {
            lemma_fields_bytes_concat(p0, opt_string(1, v.key));
        }
        put_opt_string(&mut out, 2, &self.value);
        let ghost p2 = p1 + opt_string(2, v.value);
        proof {
            lemma_fields_bytes_concat(p1, opt_string(2, v.value));
        }
        proof {
            reveal(KVTag::spec_encode);
        }
        assert(p2 == Self::spec_fields(v));
        out
    }

    /// Appends the encoding of this message to `out`.
    pub fn encode_raw(&self, out: &mut Vec<u8>)
        ensures
            final(out)@ == old(out)@ + Self::spec_encode(self@),
    {
        let mut b = self.encode_to_vec();
        out.append(&mut b);
    }

    /// The first `k` fields of `v`, the others as a fresh message has them.
    #[verifier::opaque]
    pub open spec fn spec_prefix(v: SpecKVTag, k: int) -> SpecKVTag {
        SpecKVTag {
            key: if 1 <= k { v.key } else { None },
            value: if 2 <= k { v.value } else { None },
        }
    }

    /// Reading field 1 back, after the fields before it.
    proof fn lemma_field_key(v: SpecKVTag)
        ensures
            fold_fields(Self::spec_prefix(v, 0), opt_string(1, v.key), Self::apply_fn())
                == Ok::<SpecKVTag, WireError>(Self::spec_prefix(v, 1)),
    {
        reveal(KVTag::spec_prefix);
        reveal(opt_string);
        let apply = Self::apply_fn();
        let s = Self::spec_prefix(v, 0);
        lemma_fold_opt(s, 1, match v.key { Some(x) => Some(enc_string(x)), None => None }, apply);
        if let Some(x) = v.key {
            lemma_string_roundtrip(x);
        }
        assert(SpecKVTag { key: v.key, ..s } == Self::spec_prefix(v, 1));
    }

    /// Reading field 2 back, after the fields before it.
    proof fn lemma_field_value(v: SpecKVTag)
        ensures
            fold_fields(Self::spec_prefix(v, 1), opt_string(2, v.value), Self::apply_fn())
                == Ok::<SpecKVTag, WireError>(Self::spec_prefix(v, 2)),
    {
        reveal(KVTag::spec_prefix);
        reveal(opt_string);
        let apply = Self::apply_fn();
        let s = Self::spec_prefix(v, 1);
        lemma_fold_opt(s, 2, match v.value { Some(x) => Some(enc_string(x)), None => None }, apply);
        if let Some(x) = v.value {
            lemma_string_roundtrip(x);
        }
        assert(SpecKVTag { value: v.value, ..s } == Self::spec_prefix(v, 2));
    }

    /// Whether this message declares field number `n`.
    pub open spec fn declares(n: u32) -> bool {
        n == 1 || n == 2
    }

    /// A record with a number this message does not declare is passed over: well-formed
    /// bytes decode to the same message with such a record after them as without it.
    pub proof fn lemma_unknown_field(bytes: Seq<u8>, f: SpecField)
        requires
            parse_fields(bytes) is Ok,
            field_wf(f),
            !Self::declares(f.number),
        ensures
            Self::spec_decode(bytes + field_bytes(f)) == Self::spec_decode(bytes),
    {
        reveal(KVTag::spec_decode);
        lemma_parse_fields_append(bytes, f);
        let fs = parse_fields(bytes).unwrap();
        let apply = Self::apply_fn();
        lemma_fold_concat(Self::spec_default(), fs, seq![f], apply);
        assert(fs.push(f) =~= fs + seq![f]);
        if let Ok(w) = fold_fields(Self::spec_default(), fs, apply) {
            lemma_fold_single(w, f, apply);
        }
        lemma_merge_run_fold(Self::spec_default(), bytes, apply);
        lemma_merge_run_fold(Self::spec_default(), bytes + field_bytes(f), apply);
    }

    /// Decoding the encoding of a message gives the message back.
    pub proof fn lemma_decode_encode(v: SpecKVTag)
        requires
            Self::spec_encode(v).len() <= u64::MAX,
        ensures
            Self::spec_decode(Self::spec_encode(v)) == Ok::<SpecKVTag, WireError>(v),
    {
        let apply = Self::apply_fn();
        let d = Self::spec_default();
        let p0 = Seq::<SpecField>::empty();
        let l1 = opt_string(1, v.key);
        let p1 = p0 + l1;
        let l2 = opt_string(2, v.value);
        let p2 = p1 + l2;
        assert(parse_fields(Self::spec_encode(v)) == Ok::<Seq<SpecField>, WireError>(p2)) by {
            reveal(KVTag::spec_encode);
            assert(numbers_ok(p0) && fields_wf(p0)) by {
                reveal(numbers_ok);
                reveal(fields_wf);
            }
            lemma_opt_string_numbered(1, v.key);
            lemma_fields_wf_concat(p0, l1);
            lemma_opt_string_numbered(2, v.value);
            lemma_fields_wf_concat(p1, l2);
            assert(p2 == Self::spec_fields(v));
            lemma_fields_wf_from_len(p2);
            lemma_fields_roundtrip(p2);
        }
        assert(Self::spec_prefix(v, 0) == d) by {
            reveal(KVTag::spec_prefix);
        }
        lemma_fold_empty(d, apply);
        lemma_fold_concat(d, p0, l1, apply);
        Self::lemma_field_key(v);
        lemma_fold_concat(d, p1, l2, apply);
        Self::lemma_field_value(v);
        assert(Self::spec_prefix(v, 2) == v) by {
            reveal(KVTag::spec_prefix);
        }
        lemma_merge_run_fold(d, Self::spec_encode(v), apply);
        assert(Self::spec_decode(Self::spec_encode(v)) == Ok::<SpecKVTag, WireError>(v)) by {
            reveal(KVTag::spec_decode);
        }
    }
}

/// `VoteData`, as Valve's schema declares it.
#[derive(Debug, Clone, PartialEq)]
pub struct VoteData {
    /// Field 1, a `float` carried as its IEEE 754 bit pattern.
    pub score: Option<u32>,
    /// Field 2.
    pub votes_up: Option<u32>,
    /// Field 3.
    pub votes_down: Option<u32>,
    /// Field 4, a `float` carried as its IEEE 754 bit pattern.
    pub trusted_score: Option<u32>,
    /// Field 5.
    pub trusted_votes_up: Option<u32>,
    /// Field 6.
    pub trusted_votes_down: Option<u32>,
}

/// What a `VoteData` holds, as mathematical values.
#[verifier::ext_equal]
pub struct SpecVoteData {
    pub score: Option<u32>,
    pub votes_up: Option<u32>,
    pub votes_down: Option<u32>,
    pub trusted_score: Option<u32>,
    pub trusted_votes_up: Option<u32>,
    pub trusted_votes_down: Option<u32>,
}

impl View for VoteData {
    type V = SpecVoteData;

    open spec fn view(&self) -> SpecVoteData {
        SpecVoteData {
            score: self.score,
            votes_up: self.votes_up,
            votes_down: self.votes_down,
            trusted_score: self.trusted_score,
            trusted_votes_up: self.trusted_votes_up,
            trusted_votes_down: self.trusted_votes_down,
        }
    }
}

impl Default for VoteData {
    fn default() -> (r: Self)
        ensures
            r@ == VoteData::spec_default(),
    {
        VoteData {
            score: None,
            votes_up: None,
            votes_down: None,
            trusted_score: None,
            trusted_votes_up: None,
            trusted_votes_down: None,
        }
    }
}

impl VoteData {
    pub open spec fn spec_default() -> SpecVoteData {
        SpecVoteData {
            score: None,
            votes_up: None,
            votes_down: None,
            trusted_score: None,
            trusted_votes_up: None,
            trusted_votes_down: None,
        }
    }

    /// The records a `VoteData` is written as, in field order.
    pub open spec fn spec_fields(v: SpecVoteData) -> Seq<SpecField> {
        Seq::<SpecField>::empty()
            + opt_fixed32(1, v.score)
            + opt_u32(2, v.votes_up)
            + opt_u32(3, v.votes_down)
            + opt_fixed32(4, v.trusted_score)
            + opt_u32(5, v.trusted_votes_up)
            + opt_u32(6, v.trusted_votes_down)
    }

    #[verifier::opaque]
    pub open spec fn spec_encode(v: SpecVoteData) -> Seq<u8> {
        fields_bytes(Self::spec_fields(v))
    }

    /// What one record does to the message: a declared number sets or extends its
    /// field, any other number is left alone.
    pub open spec fn spec_apply(v: SpecVoteData, f: SpecField) -> Result<SpecVoteData, WireError> {
        match f.number {
            1 => match dec_fixed32(f.value) {
                Ok(x) => Ok(SpecVoteData { score: Some(x), ..v }),
                Err(e) => Err(e),
            },
            2 => match dec_u32(f.value) {
                Ok(x) => Ok(SpecVoteData { votes_up: Some(x), ..v }),
                Err(e) => Err(e),
            },
            3 => match dec_u32(f.value) {
                Ok(x) => Ok(SpecVoteData { votes_down: Some(x), ..v }),
                Err(e) => Err(e),
            },
            4 => match dec_fixed32(f.value) {
                Ok(x) => Ok(SpecVoteData { trusted_score: Some(x), ..v }),
                Err(e) => Err(e),
            },
            5 => match dec_u32(f.value) {
                Ok(x) => Ok(SpecVoteData { trusted_votes_up: Some(x), ..v }),
                Err(e) => Err(e),
            },
            6 => match dec_u32(f.value) {
                Ok(x) => Ok(SpecVoteData { trusted_votes_down: Some(x), ..v }),
                Err(e) => Err(e),
            },
            _ => Ok(v),
        }
    }

    pub open spec fn apply_fn() -> spec_fn(SpecVoteData, SpecField) -> Result<SpecVoteData, WireError> {
        |v: SpecVoteData, f: SpecField| Self::spec_apply(v, f)
    }

    /// The message `bytes` makes of `v`: its records applied in order, or the error
    /// that stops the reading.
    pub open spec fn spec_merge(v: SpecVoteData, bytes: Seq<u8>) -> Result<SpecVoteData, WireError> {
        let (w, stop) = merge_run(v, bytes, Self::apply_fn());
        match stop {
            None => Ok(w),
            Some(e) => Err(e),
        }
    }

    #[verifier::opaque]
    pub open spec fn spec_decode(bytes: Seq<u8>) -> Result<SpecVoteData, WireError> {
        Self::spec_merge(Self::spec_default(), bytes)
    }

    pub open spec fn view_all(xs: Seq<VoteData>) -> Seq<SpecVoteData> {
        xs.map_values(|m: VoteData| m@)
    }

    pub open spec fn view_opt(o: Option<VoteData>) -> Option<SpecVoteData> {
        match o {
            Some(m) => Some(m@),
            None => None,
        }
    }

    pub open spec fn spec_encode_all(xs: Seq<SpecVoteData>) -> Seq<Seq<u8>> {
        xs.map_values(|m: SpecVoteData| Self::spec_encode(m))
    }

    pub open spec fn spec_encode_opt(o: Option<SpecVoteData>) -> Option<Seq<u8>> {
        match o {
            Some(m) => Some(Self::spec_encode(m)),
            None => None,
        }
    }

    /// The encoding of each element.
    pub fn encode_all(xs: &Vec<VoteData>) -> (r: Vec<Vec<u8>>)
        ensures
            bytes_seq_view(r@) == Self::spec_encode_all(Self::view_all(xs@)),
    {
        let mut out: Vec<Vec<u8>> = Vec::new();
        let mut i: usize = 0;
        while i < xs.len()
            invariant
                i <= xs@.len(),
                out@.len() == i,
                forall|j: int| 0 <= j < i ==> #[trigger] out@[j]@ == Self::spec_encode(xs@[j]@),
            decreases xs@.len() - i,
        {
            let e = xs[i].encode_to_vec();
            out.push(e);
            i = i + 1;
        }
        assert(bytes_seq_view(out@) =~= Self::spec_encode_all(Self::view_all(xs@)));
        out
    }

    /// The encoding of the element, when there is one.
    pub fn encode_opt(o: &Option<VoteData>) -> (r: Option<Vec<u8>>)
        ensures
            opt_bytes_view(r) == Self::spec_encode_opt(Self::view_opt(*o)),
    {
        match o {
            Some(m) => Some(m.encode_to_vec()),
            None => None,
        }
    }

    /// This message with one record applied to it, or, when the record is refused,
    /// the message unchanged and the reason.
    fn applied(self, f: &Field) -> (r: Result<Self, (Self, WireError)>)
        ensures
            match Self::spec_apply(self@, f@) {
                Ok(v) => r matches Ok(m) && m@ == v,
                Err(e) => r matches Err((m, x)) && x == e && m@ == self@,
            },
    {
        match f.number {
            1 => match read_fixed32(&f.value) {
                Ok(x) => Ok(Self { score: Some(x), ..self }),
                Err(e) => Err((self, e)),
            },
            2 => match read_u32(&f.value) {
                Ok(x) => Ok(Self { votes_up: Some(x), ..self }),
                Err(e) => Err((self, e)),
            },
            3 => match read_u32(&f.value) {
                Ok(x) => Ok(Self { votes_down: Some(x), ..self }),
                Err(e) => Err((self, e)),
            },
            4 => match read_fixed32(&f.value) {
                Ok(x) => Ok(Self { trusted_score: Some(x), ..self }),
                Err(e) => Err((self, e)),
            },
            5 => match read_u32(&f.value) {
                Ok(x) => Ok(Self { trusted_votes_up: Some(x), ..self }),
                Err(e) => Err((self, e)),
            },
            6 => match read_u32(&f.value) {
                Ok(x) => Ok(Self { trusted_votes_down: Some(x), ..self }),
                Err(e) => Err((self, e)),
            },
            _ => Ok(self),
        }
    }

    /// Reads the records `bytes` holds into this message, in order. When a record does
    /// not parse or is refused, the reading stops there: the message keeps what the
    /// records before it gave, and the error is returned.
    pub fn merge(&mut self, bytes: &[u8]) -> (r: Result<(), WireError>)
        ensures
            final(self)@ == merge_run(old(self)@, bytes@, Self::apply_fn()).0,
            r == match merge_run(old(self)@, bytes@, Self::apply_fn()).1 {
                None => Ok::<(), WireError>(()),
                Some(e) => Err::<(), WireError>(e),
            },
    {
        let ghost total = merge_run(self@, bytes@, Self::apply_fn());
        let mut cur = Self::default();
        std::mem::swap(&mut cur, self);
        let mut pos: usize = 0;
        assert(bytes@.skip(0) =~= bytes@);
        while pos < bytes.len()
            invariant
                pos <= bytes@.len(),
                total == merge_run(old(self)@, bytes@, Self::apply_fn()),
                merge_run(cur@, bytes@.skip(pos as int), Self::apply_fn()) == total,
            decreases bytes@.len() - pos,
        {
            let ghost s = bytes@.skip(pos as int);
            proof {
                lemma_merge_run_step(cur@, s, Self::apply_fn());
                lemma_parse_field_len(s);
            }
            match read_field(bytes, pos) {
                Ok((f, end)) => {
                    assert(bytes@.skip(end as int) =~= s.skip((end - pos) as int));
                    match cur.applied(&f) {
                        Ok(m) => {
                            cur = m;
                        },
                        Err((m, e)) => {
                            *self = m;
                            return Err(e);
                        },
                    }
                    pos = end;
                },
                Err(e) => {
                    *self = cur;
                    return Err(e);
                },
            }
        }
        assert(bytes@.skip(pos as int) =~= Seq::<u8>::empty());
        proof {
            lemma_merge_run_empty(cur@, Self::apply_fn());
        }
        *self = cur;
        Ok(())
    }

    /// Decodes a message from its encoding.
    pub fn decode(bytes: &[u8]) -> (r: Result<Self, WireError>)
        ensures
            match Self::spec_decode(bytes@) {
                Ok(v) => r matches Ok(m) && m@ == v,
                Err(e) => r matches Err(x) && x == e,
            },
    {
        proof {
            reveal(VoteData::spec_decode);
        }
        let mut m = Self::default();
        match m.merge(bytes) {
            Ok(()) => Ok(m),
            Err(e) => Err(e),
        }
    }

    /// The encoding of this message.
    pub fn encode_to_vec(&self) -> (r: Vec<u8>)
        ensures
            r@ == Self::spec_encode(self@),
    {
        let ghost v = self@;
        let mut out: Vec<u8> = Vec::new();
        let ghost p0 = Seq::<SpecField>::empty();
        put_opt_fixed32(&mut out, 1, self.score);
        let ghost p1 = p0 + opt_fixed32(1, v.score);
        proof {
            lemma_fields_bytes_concat(p0, opt_fixed32(1, v.score));
        }
        put_opt_u32(&mut out, 2, self.votes_up);
        let ghost p2 = p1 + opt_u32(2, v.votes_up);
        proof {
            lemma_fields_bytes_concat(p1, opt_u32(2, v.votes_up));
        }
        put_opt_u32(&mut out, 3, self.votes_down);
        let ghost p3 = p2 + opt_u32(3, v.votes_down);
        proof {
            lemma_fields_bytes_concat(p2, opt_u32(3, v.votes_down));
        }
        put_opt_fixed32(&mut out, 4, self.trusted_score);
        let ghost p4 = p3 + opt_fixed32(4, v.trusted_score);
        proof {
            lemma_fields_bytes_concat(p3, opt_fixed32(4, v.trusted_score));
        }
        put_opt_u32(&mut out, 5, self.trusted_votes_up);
        let ghost p5 = p4 + opt_u32(5, v.trusted_votes_up);
        proof {
            lemma_fields_bytes_concat(p4, opt_u32(5, v.trusted_votes_up));
        }
        put_opt_u32(&mut out, 6, self.trusted_votes_down);
        let ghost p6 = p5 + opt_u32(6, v.trusted_votes_down);
        proof {
            lemma_fields_bytes_concat(p5, opt_u32(6, v.trusted_votes_down));
        }
        proof {
            reveal(VoteData::spec_encode);
        }
        assert(p6 == Self::spec_fields(v));
        out
    }

    /// Appends the encoding of this message to `out`.
    pub fn encode_raw(&self, out: &mut Vec<u8>)
        ensures
            final(out)@ == old(out)@ + Self::spec_encode(self@),
    {
        let mut b = self.encode_to_vec();
        out.append(&mut b);
    }

    /// The first `k` fields of `v`, the others as a fresh message has them.
    #[verifier::opaque]
    pub open spec fn spec_prefix(v: SpecVoteData, k: int) -> SpecVoteData {
        SpecVoteData {
            score: if 1 <= k { v.score } else { None },
            votes_up: if 2 <= k { v.votes_up } else { None },
            votes_down: if 3 <= k { v.votes_down } else { None },
            trusted_score: if 4 <= k { v.trusted_score } else { None },
            trusted_votes_up: if 5 <= k { v.trusted_votes_up } else { None },
            trusted_votes_down: if 6 <= k { v.trusted_votes_down } else { None },
        }
    }

    /// Reading field 1 back, after the fields before it.
    proof fn lemma_field_score(v: SpecVoteData)
        ensures
            fold_fields(Self::spec_prefix(v, 0), opt_fixed32(1, v.score), Self::apply_fn())
                == Ok::<SpecVoteData, WireError>(Self::spec_prefix(v, 1)),
    {
        reveal(VoteData::spec_prefix);
        reveal(opt_fixed32);
        let apply = Self::apply_fn();
        let s = Self::spec_prefix(v, 0);
        lemma_fold_opt(s, 1, match v.score { Some(x) => Some(enc_fixed32(x)), None => None }, apply);
        assert(SpecVoteData { score: v.score, ..s } == Self::spec_prefix(v, 1));
    }

    /// Reading field 2 back, after the fields before it.
    proof fn lemma_field_votes_up(v: SpecVoteData)
        ensures
            fold_fields(Self::spec_prefix(v, 1), opt_u32(2, v.votes_up), Self::apply_fn())
                == Ok::<SpecVoteData, WireError>(Self::spec_prefix(v, 2)),
    {
        reveal(VoteData::spec_prefix);
        reveal(opt_u32);
        let apply = Self::apply_fn();
        let s = Self::spec_prefix(v, 1);
        lemma_fold_opt(s, 2, match v.votes_up { Some(x) => Some(enc_u32(x)), None => None }, apply);
        if let Some(x) = v.votes_up {
            lemma_u32_roundtrip(x);
        }
        assert(SpecVoteData { votes_up: v.votes_up, ..s } == Self::spec_prefix(v, 2));
    }

    /// Reading field 3 back, after the fields before it.
    proof fn lemma_field_votes_down(v: SpecVoteData)
        ensures
            fold_fields(Self::spec_prefix(v, 2), opt_u32(3, v.votes_down), Self::apply_fn())
                == Ok::<SpecVoteData, WireError>(Self::spec_prefix(v, 3)),
    {
        reveal(VoteData::spec_prefix);
        reveal(opt_u32);
        let apply = Self::apply_fn();
        let s = Self::spec_prefix(v, 2);
        lemma_fold_opt(s, 3, match v.votes_down { Some(x) => Some(enc_u32(x)), None => None }, apply);
        if let Some(x) = v.votes_down {
            lemma_u32_roundtrip(x);
        }
        assert(SpecVoteData { votes_down: v.votes_down, ..s } == Self::spec_prefix(v, 3));
    }

    /// Reading field 4 back, after the fields before it.
    proof fn lemma_field_trusted_score(v: SpecVoteData)
        ensures
            fold_fields(Self::spec_prefix(v, 3), opt_fixed32(4, v.trusted_score), Self::apply_fn())
                == Ok::<SpecVoteData, WireError>(Self::spec_prefix(v, 4)),
    {
        reveal(VoteData::spec_prefix);
        reveal(opt_fixed32);
        let apply = Self::apply_fn();
        let s = Self::spec_prefix(v, 3);
        lemma_fold_opt(s, 4, match v.trusted_score { Some(x) => Some(enc_fixed32(x)), None => None }, apply);
        assert(SpecVoteData { trusted_score: v.trusted_score, ..s } == Self::spec_prefix(v, 4));
    }

    /// Reading field 5 back, after the fields before it.
    proof fn lemma_field_trusted_votes_up(v: SpecVoteData)
        ensures
            fold_fields(Self::spec_prefix(v, 4), opt_u32(5, v.trusted_votes_up), Self::apply_fn())
                == Ok::<SpecVoteData, WireError>(Self::spec_prefix(v, 5)),
    {
        reveal(VoteData::spec_prefix);
        reveal(opt_u32);
        let apply = Self::apply_fn();
        let s = Self::spec_prefix(v, 4);
        lemma_fold_opt(s, 5, match v.trusted_votes_up { Some(x) => Some(enc_u32(x)), None => None }, apply);
        if let Some(x) = v.trusted_votes_up {
            lemma_u32_roundtrip(x);
        }
        assert(SpecVoteData { trusted_votes_up: v.trusted_votes_up, ..s } == Self::spec_prefix(v, 5));
    }

    /// Reading field 6 back, after the fields before it.
    proof fn lemma_field_trusted_votes_down(v: SpecVoteData)
        ensures
            fold_fields(Self::spec_prefix(v, 5), opt_u32(6, v.trusted_votes_down), Self::apply_fn())
                == Ok::<SpecVoteData, WireError>(Self::spec_prefix(v, 6)),
    {
        reveal(VoteData::spec_prefix);
        reveal(opt_u32);
        let apply = Self::apply_fn();
        let s = Self::spec_prefix(v, 5);
        lemma_fold_opt(s, 6, match v.trusted_votes_down { Some(x) => Some(enc_u32(x)), None => None }, apply);
        if let Some(x) = v.trusted_votes_down {
            lemma_u32_roundtrip(x);
        }
        assert(SpecVoteData { trusted_votes_down: v.trusted_votes_down, ..s } == Self::spec_prefix(v, 6));
    }

    /// Whether this message declares field number `n`.
    pub open spec fn declares(n: u32) -> bool {
        n == 1 || n == 2 || n == 3 || n == 4 || n == 5 || n == 6
    }

    /// A record with a number this message does not declare is passed over: well-formed
    /// bytes decode to the same message with such a record after them as without it.
    pub proof fn lemma_unknown_field(bytes: Seq<u8>, f: SpecField)
        requires
            parse_fields(bytes) is Ok,
            field_wf(f),
            !Self::declares(f.number),
        ensures
            Self::spec_decode(bytes + field_bytes(f)) == Self::spec_decode(bytes),
    {
        reveal(VoteData::spec_decode);
        lemma_parse_fields_append(bytes, f);
        let fs = parse_fields(bytes).unwrap();
        let apply = Self::apply_fn();
        lemma_fold_concat(Self::spec_default(), fs, seq![f], apply);
        assert(fs.push(f) =~= fs + seq![f]);
        if let Ok(w) = fold_fields(Self::spec_default(), fs, apply) {
            lemma_fold_single(w, f, apply);
        }
        lemma_merge_run_fold(Self::spec_default(), bytes, apply);
        lemma_merge_run_fold(Self::spec_default(), bytes + field_bytes(f), apply);
    }

    /// Decoding the encoding of a message gives the message back.
    pub proof fn lemma_decode_encode(v: SpecVoteData)
        requires
            Self::spec_encode(v).len() <= u64::MAX,
        ensures
            Self::spec_decode(Self::spec_encode(v)) == Ok::<SpecVoteData, WireError>(v),
    {
        let apply = Self::apply_fn();
        let d = Self::spec_default();
        let p0 = Seq::<SpecField>::empty();
        let l1 = opt_fixed32(1, v.score);
        let p1 = p0 + l1;
        let l2 = opt_u32(2, v.votes_up);
        let p2 = p1 + l2;
        let l3 = opt_u32(3, v.votes_down);
        let p3 = p2 + l3;
        let l4 = opt_fixed32(4, v.trusted_score);
        let p4 = p3 + l4;
        let l5 = opt_u32(5, v.trusted_votes_up);
        let p5 = p4 + l5;
        let l6 = opt_u32(6, v.trusted_votes_down);
        let p6 = p5 + l6;
        assert(parse_fields(Self::spec_encode(v)) == Ok::<Seq<SpecField>, WireError>(p6)) by {
            reveal(VoteData::spec_encode);
            assert(numbers_ok(p0) && fields_wf(p0)) by {
                reveal(numbers_ok);
                reveal(fields_wf);
            }
            lemma_opt_fixed32_numbered(1, v.score);
            lemma_fields_wf_concat(p0, l1);
            lemma_opt_u32_numbered(2, v.votes_up);
            lemma_fields_wf_concat(p1, l2);
            lemma_opt_u32_numbered(3, v.votes_down);
            lemma_fields_wf_concat(p2, l3);
            lemma_opt_fixed32_numbered(4, v.trusted_score);
            lemma_fields_wf_concat(p3, l4);
            lemma_opt_u32_numbered(5, v.trusted_votes_up);
            lemma_fields_wf_concat(p4, l5);
            lemma_opt_u32_numbered(6, v.trusted_votes_down);
            lemma_fields_wf_concat(p5, l6);
            assert(p6 == Self::spec_fields(v));
            lemma_fields_wf_from_len(p6);
            lemma_fields_roundtrip(p6);
        }
        assert(Self::spec_prefix(v, 0) == d) by {
            reveal(VoteData::spec_prefix);
        }
        lemma_fold_empty(d, apply);
        lemma_fold_concat(d, p0, l1, apply);
        Self::lemma_field_score(v);
        lemma_fold_concat(d, p1, l2, apply);
        Self::lemma_field_votes_up(v);
        lemma_fold_concat(d, p2, l3, apply);
        Self::lemma_field_votes_down(v);
        lemma_fold_concat(d, p3, l4, apply);
        Self::lemma_field_trusted_score(v);
        lemma_fold_concat(d, p4, l5, apply);
        Self::lemma_field_trusted_votes_up(v);
        lemma_fold_concat(d, p5, l6, apply);
        Self::lemma_field_trusted_votes_down(v);
        assert(Self::spec_prefix(v, 6) == v) by {
            reveal(VoteData::spec_prefix);
        }
        lemma_merge_run_fold(d, Self::spec_encode(v), apply);
        assert(Self::spec_decode(Self::spec_encode(v)) == Ok::<SpecVoteData, WireError>(v)) by {
            reveal(VoteData::spec_decode);
        }
    }
}

/// `ForSaleData`, as Valve's schema declares it.
#[derive(Debug, Clone, PartialEq)]
pub struct ForSaleData {
    /// Field 1.
    pub is_for_sale: Option<bool>,
    /// Field 2.
    pub price_category: Option<u32>,
    /// Field 3.
    pub estatus: Option<crate::steammessages_publishedfile_steamclient::EPublishedFileForSaleStatus>,
    /// Field 4.
    pub price_category_floor: Option<u32>,
    /// Field 5.
    pub price_is_pay_what_you_want: Option<bool>,
    /// Field 6.
    pub discount_percentage: Option<u32>,
}

/// What a `ForSaleData` holds, as mathematical values.
#[verifier::ext_equal]
pub struct SpecForSaleData {
    pub is_for_sale: Option<bool>,
    pub price_category: Option<u32>,
    pub estatus: Option<i32>,
    pub price_category_floor: Option<u32>,
    pub price_is_pay_what_you_want: Option<bool>,
    pub discount_percentage: Option<u32>,
}

impl View for ForSaleData {
    type V = SpecForSaleData;

    open spec fn view(&self) -> SpecForSaleData {
        SpecForSaleData {
            is_for_sale: self.is_for_sale,
            price_category: self.price_category,
            estatus: match self.estatus { Some(e) => Some(e.0), None => None },
            price_category_floor: self.price_category_floor,
            price_is_pay_what_you_want: self.price_is_pay_what_you_want,
            discount_percentage: self.discount_percentage,
        }
    }
}

impl Default for ForSaleData {
    fn default() -> (r: Self)
        ensures
            r@ == ForSaleData::spec_default(),
    {
        ForSaleData {
            is_for_sale: None,
            price_category: None,
            estatus: None,
            price_category_floor: None,
            price_is_pay_what_you_want: None,
            discount_percentage: None,
        }
    }
}

impl ForSaleData {
    /// Field 3, or its schema default when absent.
    pub fn estatus_or_default(&self) -> (r: crate::steammessages_publishedfile_steamclient::EPublishedFileForSaleStatus)
        ensures
            r == match self.estatus {
                Some(e) => e,
                None => crate::steammessages_publishedfile_steamclient::EPublishedFileForSaleStatus(0),
            },
    {
        match self.estatus {
            Some(e) => e,
            None => crate::steammessages_publishedfile_steamclient::EPublishedFileForSaleStatus::k_PFFSS_NotForSale(),
        }
    }

    pub open spec fn spec_default() -> SpecForSaleData {
        SpecForSaleData {
            is_for_sale: None,
            price_category: None,
            estatus: None,
            price_category_floor: None,
            price_is_pay_what_you_want: None,
            discount_percentage: None,
        }
    }

    /// The records a `ForSaleData` is written as, in field order.
    pub open spec fn spec_fields(v: SpecForSaleData) -> Seq<SpecField> {
        Seq::<SpecField>::empty()
            + opt_bool(1, v.is_for_sale)
            + opt_u32(2, v.price_category)
            + opt_i32(3, v.estatus)
            + opt_u32(4, v.price_category_floor)
            + opt_bool(5, v.price_is_pay_what_you_want)
            + opt_u32(6, v.discount_percentage)
    }

    #[verifier::opaque]
    pub open spec fn spec_encode(v: SpecForSaleData) -> Seq<u8> {
        fields_bytes(Self::spec_fields(v))
    }

    /// What one record does to the message: a declared number sets or extends its
    /// field, any other number is left alone.
    pub open spec fn spec_apply(v: SpecForSaleData, f: SpecField) -> Result<SpecForSaleData, WireError> {
        match f.number {
            1 => match dec_bool(f.value) {
                Ok(x) => Ok(SpecForSaleData { is_for_sale: Some(x), ..v }),
                Err(e) => Err(e),
            },
            2 => match dec_u32(f.value) {
                Ok(x) => Ok(SpecForSaleData { price_category: Some(x), ..v }),
                Err(e) => Err(e),
            },
            3 => match dec_i32(f.value) {
                Ok(x) => Ok(SpecForSaleData { estatus: Some(x), ..v }),
                Err(e) => Err(e),
            },
            4 => match dec_u32(f.value) {
                Ok(x) => Ok(SpecForSaleData { price_category_floor: Some(x), ..v }),
                Err(e) => Err(e),
            },
            5 => match dec_bool(f.value) {
                Ok(x) => Ok(SpecForSaleData { price_is_pay_what_you_want: Some(x), ..v }),
                Err(e) => Err(e),
            },
            6 => match dec_u32(f.value) {
                Ok(x) => Ok(SpecForSaleData { discount_percentage: Some(x), ..v }),
                Err(e) => Err(e),
            },
            _ => Ok(v),
        }
    }

    pub open spec fn apply_fn() -> spec_fn(SpecForSaleData, SpecField) -> Result<SpecForSaleData, WireError> {
        |v: SpecForSaleData, f: SpecField| Self::spec_apply(v, f)
    }

    /// The message `bytes` makes of `v`: its records applied in order, or the error
    /// that stops the reading.
    pub open spec fn spec_merge(v: SpecForSaleData, bytes: Seq<u8>) -> Result<SpecForSaleData, WireError> {
        let (w, stop) = merge_run(v, bytes, Self::apply_fn());
        match stop {
            None => Ok(w),
            Some(e) => Err(e),
        }
    }

    #[verifier::opaque]
    pub open spec fn spec_decode(bytes: Seq<u8>) -> Result<SpecForSaleData, WireError> {
        Self::spec_merge(Self::spec_default(), bytes)
    }

    pub open spec fn view_all(xs: Seq<ForSaleData>) -> Seq<SpecForSaleData> {
        xs.map_values(|m: ForSaleData| m@)
    }

    pub open spec fn view_opt(o: Option<ForSaleData>) -> Option<SpecForSaleData> {
        match o {
            Some(m) => Some(m@),
            None => None,
        }
    }

    pub open spec fn spec_encode_all(xs: Seq<SpecForSaleData>) -> Seq<Seq<u8>> {
        xs.map_values(|m: SpecForSaleData| Self::spec_encode(m))
    }

    pub open spec fn spec_encode_opt(o: Option<SpecForSaleData>) -> Option<Seq<u8>> {
        match o {
            Some(m) => Some(Self::spec_encode(m)),
            None => None,
        }
    }

    /// The encoding of each element.
    pub fn encode_all(xs: &Vec<ForSaleData>) -> (r: Vec<Vec<u8>>)
        ensures
            bytes_seq_view(r@) == Self::spec_encode_all(Self::view_all(xs@)),
    {
        let mut out: Vec<Vec<u8>> = Vec::new();
        let mut i: usize = 0;
        while i < xs.len()
            invariant
                i <= xs@.len(),
                out@.len() == i,
                forall|j: int| 0 <= j < i ==> #[trigger] out@[j]@ == Self::spec_encode(xs@[j]@),
            decreases xs@.len() - i,
        {
            let e = xs[i].encode_to_vec();
            out.push(e);
            i = i + 1;
        }
        assert(bytes_seq_view(out@) =~= Self::spec_encode_all(Self::view_all(xs@)));
        out
    }

    /// The encoding of the element, when there is one.
    pub fn encode_opt(o: &Option<ForSaleData>) -> (r: Option<Vec<u8>>)
        ensures
            opt_bytes_view(r) == Self::spec_encode_opt(Self::view_opt(*o)),
    {
        match o {
            Some(m) => Some(m.encode_to_vec()),
            None => None,
        }
    }

    /// This message with one record applied to it, or, when the record is refused,
    /// the message unchanged and the reason.
    fn applied(self, f: &Field) -> (r: Result<Self, (Self, WireError)>)
        ensures
            match Self::spec_apply(self@, f@) {
                Ok(v) => r matches Ok(m) && m@ == v,
                Err(e) => r matches Err((m, x)) && x == e && m@ == self@,
            },
    {
        match f.number {
            1 => match read_bool(&f.value) {
                Ok(x) => Ok(Self { is_for_sale: Some(x), ..self }),
                Err(e) => Err((self, e)),
            },
            2 => match read_u32(&f.value) {
                Ok(x) => Ok(Self { price_category: Some(x), ..self }),
                Err(e) => Err((self, e)),
            },
            3 => match read_i32(&f.value) {
                Ok(x) => Ok(Self { estatus: Some(crate::steammessages_publishedfile_steamclient::EPublishedFileForSaleStatus(x)), ..self }),
                Err(e) => Err((self, e)),
            },
            4 => match read_u32(&f.value) {
                Ok(x) => Ok(Self { price_category_floor: Some(x), ..self }),
                Err(e) => Err((self, e)),
            },
            5 => match read_bool(&f.value) {
                Ok(x) => Ok(Self { price_is_pay_what_you_want: Some(x), ..self }),
                Err(e) => Err((self, e)),
            },
            6 => match read_u32(&f.value) {
                Ok(x) => Ok(Self { discount_percentage: Some(x), ..self }),
                Err(e) => Err((self, e)),
            },
            _ => Ok(self),
        }
    }

    /// Reads the records `bytes` holds into this message, in order. When a record does
    /// not parse or is refused, the reading stops there: the message keeps what the
    /// records before it gave, and the error is returned.
    pub fn merge(&mut self, bytes: &[u8]) -> (r: Result<(), WireError>)
        ensures
            final(self)@ == merge_run(old(self)@, bytes@, Self::apply_fn()).0,
            r == match merge_run(old(self)@, bytes@, Self::apply_fn()).1 {
                None => Ok::<(), WireError>(()),
                Some(e) => Err::<(), WireError>(e),
            },
    {
        let ghost total = merge_run(self@, bytes@, Self::apply_fn());
        let mut cur = Self::default();
        std::mem::swap(&mut cur, self);
        let mut pos: usize = 0;
        assert(bytes@.skip(0) =~= bytes@);
        while pos < bytes.len()
            invariant
                pos <= bytes@.len(),
                total == merge_run(old(self)@, bytes@, Self::apply_fn()),
                merge_run(cur@, bytes@.skip(pos as int), Self::apply_fn()) == total,
            decreases bytes@.len() - pos,
        {
            let ghost s = bytes@.skip(pos as int);
            proof {
                lemma_merge_run_step(cur@, s, Self::apply_fn());
                lemma_parse_field_len(s);
            }
            match read_field(bytes, pos) {
                Ok((f, end)) => {
                    assert(bytes@.skip(end as int) =~= s.skip((end - pos) as int));
                    match cur.applied(&f) {
                        Ok(m) => {
                            cur = m;
                        },
                        Err((m, e)) => {
                            *self = m;
                            return Err(e);
                        },
                    }
                    pos = end;
                },
                Err(e) => {
                    *self = cur;
                    return Err(e);
                },
            }
        }
        assert(bytes@.skip(pos as int) =~= Seq::<u8>::empty());
        proof {
            lemma_merge_run_empty(cur@, Self::apply_fn());
        }
        *self = cur;
        Ok(())
    }

    /// Decodes a message from its encoding.
    pub fn decode(bytes: &[u8]) -> (r: Result<Self, WireError>)
        ensures
            match Self::spec_decode(bytes@) {
                Ok(v) => r matches Ok(m) && m@ == v,
                Err(e) => r matches Err(x) && x == e,
            },
    {
        proof {
            reveal(ForSaleData::spec_decode);
        }
        let mut m = Self::default();
        match m.merge(bytes) {
            Ok(()) => Ok(m),
            Err(e) => Err(e),
        }
    }

    /// The encoding of this message.
    pub fn encode_to_vec(&self) -> (r: Vec<u8>)
        ensures
            r@ == Self::spec_encode(self@),
    {
        let ghost v = self@;
        let mut out: Vec<u8> = Vec::new();
        let ghost p0 = Seq::<SpecField>::empty();
        put_opt_bool(&mut out, 1, self.is_for_sale);
        let ghost p1 = p0 + opt_bool(1, v.is_for_sale);
        proof {
            lemma_fields_bytes_concat(p0, opt_bool(1, v.is_for_sale));
        }
        put_opt_u32(&mut out, 2, self.price_category);
        let ghost p2 = p1 + opt_u32(2, v.price_category);
        proof {
            lemma_fields_bytes_concat(p1, opt_u32(2, v.price_category));
        }
        put_opt_i32(&mut out, 3, match self.estatus { Some(e) => Some(e.0), None => None });
        let ghost p3 = p2 + opt_i32(3, v.estatus);
        proof {
            lemma_fields_bytes_concat(p2, opt_i32(3, v.estatus));
        }
        put_opt_u32(&mut out, 4, self.price_category_floor);
        let ghost p4 = p3 + opt_u32(4, v.price_category_floor);
        proof {
            lemma_fields_bytes_concat(p3, opt_u32(4, v.price_category_floor));
        }
        put_opt_bool(&mut out, 5, self.price_is_pay_what_you_want);
        let ghost p5 = p4 + opt_bool(5, v.price_is_pay_what_you_want);
        proof {
            lemma_fields_bytes_concat(p4, opt_bool(5, v.price_is_pay_what_you_want));
        }
        put_opt_u32(&mut out, 6, self.discount_percentage);
        let ghost p6 = p5 + opt_u32(6, v.discount_percentage);
        proof {
            lemma_fields_bytes_concat(p5, opt_u32(6, v.discount_percentage));
        }
        proof {
            reveal(ForSaleData::spec_encode);
        }
        assert(p6 == Self::spec_fields(v));
        out
    }

    /// Appends the encoding of this message to `out`.
    pub fn encode_raw(&self, out: &mut Vec<u8>)
        ensures
            final(out)@ == old(out)@ + Self::spec_encode(self@),
    {
        let mut b = self.encode_to_vec();
        out.append(&mut b);
    }

    /// The first `k` fields of `v`, the others as a fresh message has them.
    #[verifier::opaque]
    pub open spec fn spec_prefix(v: SpecForSaleData, k: int) -> SpecForSaleData {
        SpecForSaleData {
            is_for_sale: if 1 <= k { v.is_for_sale } else { None },
            price_category: if 2 <= k { v.price_category } else { None },
            estatus: if 3 <= k { v.estatus } else { None },
            price_category_floor: if 4 <= k { v.price_category_floor } else { None },
            price_is_pay_what_you_want: if 5 <= k { v.price_is_pay_what_you_want } else { None },
            discount_percentage: if 6 <= k { v.discount_percentage } else { None },
        }
    }

    /// Reading field 1 back, after the fields before it.
    proof fn lemma_field_is_for_sale(v: SpecForSaleData)
        ensures
            fold_fields(Self::spec_prefix(v, 0), opt_bool(1, v.is_for_sale), Self::apply_fn())
                == Ok::<SpecForSaleData, WireError>(Self::spec_prefix(v, 1)),
    {
        reveal(ForSaleData::spec_prefix);
        reveal(opt_bool);
        let apply = Self::apply_fn();
        let s = Self::spec_prefix(v, 0);
        lemma_fold_opt(s, 1, match v.is_for_sale { Some(x) => Some(enc_bool(x)), None => None }, apply);
        assert(SpecForSaleData { is_for_sale: v.is_for_sale, ..s } == Self::spec_prefix(v, 1));
    }

    /// Reading field 2 back, after the fields before it.
    proof fn lemma_field_price_category(v: SpecForSaleData)
        ensures
            fold_fields(Self::spec_prefix(v, 1), opt_u32(2, v.price_category), Self::apply_fn())
                == Ok::<SpecForSaleData, WireError>(Self::spec_prefix(v, 2)),
    {
        reveal(ForSaleData::spec_prefix);
        reveal(opt_u32);
        let apply = Self::apply_fn();
        let s = Self::spec_prefix(v, 1);
        lemma_fold_opt(s, 2, match v.price_category { Some(x) => Some(enc_u32(x)), None => None }, apply);
        if let Some(x) = v.price_category {
            lemma_u32_roundtrip(x);
        }
        assert(SpecForSaleData { price_category: v.price_category, ..s } == Self::spec_prefix(v, 2));
    }

    /// Reading field 3 back, after the fields before it.
    proof fn lemma_field_estatus(v: SpecForSaleData)
        ensures
            fold_fields(Self::spec_prefix(v, 2), opt_i32(3, v.estatus), Self::apply_fn())
                == Ok::<SpecForSaleData, WireError>(Self::spec_prefix(v, 3)),
    {
        reveal(ForSaleData::spec_prefix);
        reveal(opt_i32);
        let apply = Self::apply_fn();
        let s = Self::spec_prefix(v, 2);
        lemma_fold_opt(s, 3, match v.estatus { Some(x) => Some(enc_i32(x)), None => None }, apply);
        if let Some(x) = v.estatus {
            lemma_i32_roundtrip(x);
        }
        assert(SpecForSaleData { estatus: v.estatus, ..s } == Self::spec_prefix(v, 3));
    }

    /// Reading field 4 back, after the fields before it.
    proof fn lemma_field_price_category_floor(v: SpecForSaleData)
        ensures
            fold_fields(Self::spec_prefix(v, 3), opt_u32(4, v.price_category_floor), Self::apply_fn())
                == Ok::<SpecForSaleData, WireError>(Self::spec_prefix(v, 4)),
    {
        reveal(ForSaleData::spec_prefix);
        reveal(opt_u32);
        let apply = Self::apply_fn();
        let s = Self::spec_prefix(v, 3);
        lemma_fold_opt(s, 4, match v.price_category_floor { Some(x) => Some(enc_u32(x)), None => None }, apply);
        if let Some(x) = v.price_category_floor {
            lemma_u32_roundtrip(x);
        }
        assert(SpecForSaleData { price_category_floor: v.price_category_floor, ..s } == Self::spec_prefix(v, 4));
    }

    /// Reading field 5 back, after the fields before it.
    proof fn lemma_field_price_is_pay_what_you_want(v: SpecForSaleData)
        ensures
            fold_fields(Self::spec_prefix(v, 4), opt_bool(5, v.price_is_pay_what_you_want), Self::apply_fn())
                == Ok::<SpecForSaleData, WireError>(Self::spec_prefix(v, 5)),
    {
        reveal(ForSaleData::spec_prefix);
        reveal(opt_bool);
        let apply = Self::apply_fn();
        let s = Self::spec_prefix(v, 4);
        lemma_fold_opt(s, 5, match v.price_is_pay_what_you_want { Some(x) => Some(enc_bool(x)), None => None }, apply);
        assert(SpecForSaleData { price_is_pay_what_you_want: v.price_is_pay_what_you_want, ..s } == Self::spec_prefix(v, 5));
    }

    /// Reading field 6 back, after the fields before it.
    proof fn lemma_field_discount_percentage(v: SpecForSaleData)
        ensures
            fold_fields(Self::spec_prefix(v, 5), opt_u32(6, v.discount_percentage), Self::apply_fn())
                == Ok::<SpecForSaleData, WireError>(Self::spec_prefix(v, 6)),
    {
        reveal(ForSaleData::spec_prefix);
        reveal(opt_u32);
        let apply = Self::apply_fn();
        let s = Self::spec_prefix(v, 5);
        lemma_fold_opt(s, 6, match v.discount_percentage { Some(x) => Some(enc_u32(x)), None => None }, apply);
        if let Some(x) = v.discount_percentage {
            lemma_u32_roundtrip(x);
        }
        assert(SpecForSaleData { discount_percentage: v.discount_percentage, ..s } == Self::spec_prefix(v, 6));
    }

    /// Whether this message declares field number `n`.
    pub open spec fn declares(n: u32) -> bool {
        n == 1 || n == 2 || n == 3 || n == 4 || n == 5 || n == 6
    }

    /// A record with a number this message does not declare is passed over: well-formed
    /// bytes decode to the same message with such a record after them as without it.
    pub proof fn lemma_unknown_field(bytes: Seq<u8>, f: SpecField)
        requires
            parse_fields(bytes) is Ok,
            field_wf(f),
            !Self::declares(f.number),
        ensures
            Self::spec_decode(bytes + field_bytes(f)) == Self::spec_decode(bytes),
    {
        reveal(ForSaleData::spec_decode);
        lemma_parse_fields_append(bytes, f);
        let fs = parse_fields(bytes).unwrap();
        let apply = Self::apply_fn();
        lemma_fold_concat(Self::spec_default(), fs, seq![f], apply);
        assert(fs.push(f) =~= fs + seq![f]);
        if let Ok(w) = fold_fields(Self::spec_default(), fs, apply) {
            lemma_fold_single(w, f, apply);
        }
        lemma_merge_run_fold(Self::spec_default(), bytes, apply);
        lemma_merge_run_fold(Self::spec_default(), bytes + field_bytes(f), apply);
    }

    /// Decoding the encoding of a message gives the message back.
    pub proof fn lemma_decode_encode(v: SpecForSaleData)
        requires
            Self::spec_encode(v).len() <= u64::MAX,
        ensures
            Self::spec_decode(Self::spec_encode(v)) == Ok::<SpecForSaleData, WireError>(v),
    {
        let apply = Self::apply_fn();
        let d = Self::spec_default();
        let p0 = Seq::<SpecField>::empty();
        let l1 = opt_bool(1, v.is_for_sale);
        let p1 = p0 + l1;
        let l2 = opt_u32(2, v.price_category);
        let p2 = p1 + l2;
        let l3 = opt_i32(3, v.estatus);
        let p3 = p2 + l3;
        let l4 = opt_u32(4, v.price_category_floor);
        let p4 = p3 + l4;
        let l5 = opt_bool(5, v.price_is_pay_what_you_want);
        let p5 = p4 + l5;
        let l6 = opt_u32(6, v.discount_percentage);
        let p6 = p5 + l6;
        assert(parse_fields(Self::spec_encode(v)) == Ok::<Seq<SpecField>, WireError>(p6)) by {
            reveal(ForSaleData::spec_encode);
            assert(numbers_ok(p0) && fields_wf(p0)) by {
                reveal(numbers_ok);
                reveal(fields_wf);
            }
            lemma_opt_bool_numbered(1, v.is_for_sale);
            lemma_fields_wf_concat(p0, l1);
            lemma_opt_u32_numbered(2, v.price_category);
            lemma_fields_wf_concat(p1, l2);
            lemma_opt_i32_numbered(3, v.estatus);
            lemma_fields_wf_concat(p2, l3);
            lemma_opt_u32_numbered(4, v.price_category_floor);
            lemma_fields_wf_concat(p3, l4);
            lemma_opt_bool_numbered(5, v.price_is_pay_what_you_want);
            lemma_fields_wf_concat(p4, l5);
            lemma_opt_u32_numbered(6, v.discount_percentage);
            lemma_fields_wf_concat(p5, l6);
            assert(p6 == Self::spec_fields(v));
            lemma_fields_wf_from_len(p6);
            lemma_fields_roundtrip(p6);
        }
        assert(Self::spec_prefix(v, 0) == d) by {
            reveal(ForSaleData::spec_prefix);
        }
        lemma_fold_empty(d, apply);
        lemma_fold_concat(d, p0, l1, apply);
        Self::lemma_field_is_for_sale(v);
        lemma_fold_concat(d, p1, l2, apply);
        Self::lemma_field_price_category(v);
        lemma_fold_concat(d, p2, l3, apply);
        Self::lemma_field_estatus(v);
        lemma_fold_concat(d, p3, l4, apply);
        Self::lemma_field_price_category_floor(v);
        lemma_fold_concat(d, p4, l5, apply);
        Self::lemma_field_price_is_pay_what_you_want(v);
        lemma_fold_concat(d, p5, l6, apply);
        Self::lemma_field_discount_percentage(v);
        assert(Self::spec_prefix(v, 6) == v) by {
            reveal(ForSaleData::spec_prefix);
        }
        lemma_merge_run_fold(d, Self::spec_encode(v), apply);
        assert(Self::spec_decode(Self::spec_encode(v)) == Ok::<SpecForSaleData, WireError>(v)) by {
            reveal(ForSaleData::spec_decode);
        }
    }
}

/// `PlaytimeStats`, as Valve's schema declares it.
#[derive(Debug, Clone, PartialEq)]
pub struct PlaytimeStats {
    /// Field 1.
    pub playtime_seconds: Option<u64>,
    /// Field 2.
    pub num_sessions: Option<u64>,
}

/// What a `PlaytimeStats` holds, as mathematical values.
#[verifier::ext_equal]
pub struct SpecPlaytimeStats {
    pub playtime_seconds: Option<u64>,
    pub num_sessions: Option<u64>,
}

impl View for PlaytimeStats {
    type V = SpecPlaytimeStats;

    open spec fn view(&self) -> SpecPlaytimeStats {
        SpecPlaytimeStats {
            playtime_seconds: self.playtime_seconds,
            num_sessions: self.num_sessions,
        }
    }
}

impl Default for PlaytimeStats {
    fn default() -> (r: Self)
        ensures
            r@ == PlaytimeStats::spec_default(),
    {
        PlaytimeStats {
            playtime_seconds: None,
            num_sessions: None,
        }
    }
}

impl PlaytimeStats {
    pub open spec fn spec_default() -> SpecPlaytimeStats {
        SpecPlaytimeStats {
            playtime_seconds: None,
            num_sessions: None,
        }
    }

    /// The records a `PlaytimeStats` is written as, in field order.
    pub open spec fn spec_fields(v: SpecPlaytimeStats) -> Seq<SpecField> {
        Seq::<SpecField>::empty()
            + opt_u64(1, v.playtime_seconds)
            + opt_u64(2, v.num_sessions)
    }

    #[verifier::opaque]
    pub open spec fn spec_encode(v: SpecPlaytimeStats) -> Seq<u8> {
        fields_bytes(Self::spec_fields(v))
    }

    /// What one record does to the message: a declared number sets or extends its
    /// field, any other number is left alone.
    pub open spec fn spec_apply(v: SpecPlaytimeStats, f: SpecField) -> Result<SpecPlaytimeStats, WireError> {
        match f.number {
            1 => match dec_u64(f.value) {
                Ok(x) => Ok(SpecPlaytimeStats { playtime_seconds: Some(x), ..v }),
                Err(e) => Err(e),
            },
            2 => match dec_u64(f.value) {
                Ok(x) => Ok(SpecPlaytimeStats { num_sessions: Some(x), ..v }),
                Err(e) => Err(e),
            },
            _ => Ok(v),
        }
    }

    pub open spec fn apply_fn() -> spec_fn(SpecPlaytimeStats, SpecField) -> Result<SpecPlaytimeStats, WireError> {
        |v: SpecPlaytimeStats, f: SpecField| Self::spec_apply(v, f)
    }

    /// The message `bytes` makes of `v`: its records applied in order, or the error
    /// that stops the reading.
    pub open spec fn spec_merge(v: SpecPlaytimeStats, bytes: Seq<u8>) -> Result<SpecPlaytimeStats, WireError> {
        let (w, stop) = merge_run(v, bytes, Self::apply_fn());
        match stop {
            None => Ok(w),
            Some(e) => Err(e),
        }
    }

    #[verifier::opaque]
    pub open spec fn spec_decode(bytes: Seq<u8>) -> Result<SpecPlaytimeStats, WireError> {
        Self::spec_merge(Self::spec_default(), bytes)
    }

    pub open spec fn view_all(xs: Seq<PlaytimeStats>) -> Seq<SpecPlaytimeStats> {
        xs.map_values(|m: PlaytimeStats| m@)
    }

    pub open spec fn view_opt(o: Option<PlaytimeStats>) -> Option<SpecPlaytimeStats> {
        match o {
            Some(m) => Some(m@),
            None => None,
        }
    }

    pub open spec fn spec_encode_all(xs: Seq<SpecPlaytimeStats>) -> Seq<Seq<u8>> {
        xs.map_values(|m: SpecPlaytimeStats| Self::spec_encode(m))
    }

    pub open spec fn spec_encode_opt(o: Option<SpecPlaytimeStats>) -> Option<Seq<u8>> {
        match o {
            Some(m) => Some(Self::spec_encode(m)),
            None => None,
        }
    }

    /// The encoding of each element.
    pub fn encode_all(xs: &Vec<PlaytimeStats>) -> (r: Vec<Vec<u8>>)
        ensures
            bytes_seq_view(r@) == Self::spec_encode_all(Self::view_all(xs@)),
    {
        let mut out: Vec<Vec<u8>> = Vec::new();
        let mut i: usize = 0;
        while i < xs.len()
            invariant
                i <= xs@.len(),
                out@.len() == i,
                forall|j: int| 0 <= j < i ==> #[trigger] out@[j]@ == Self::spec_encode(xs@[j]@),
            decreases xs@.len() - i,
        {
            let e = xs[i].encode_to_vec();
            out.push(e);
            i = i + 1;
        }
        assert(bytes_seq_view(out@) =~= Self::spec_encode_all(Self::view_all(xs@)));
        out
    }

    /// The encoding of the element, when there is one.
    pub fn encode_opt(o: &Option<PlaytimeStats>) -> (r: Option<Vec<u8>>)
        ensures
            opt_bytes_view(r) == Self::spec_encode_opt(Self::view_opt(*o)),
    {
        match o {
            Some(m) => Some(m.encode_to_vec()),
            None => None,
        }
    }

    /// This message with one record applied to it, or, when the record is refused,
    /// the message unchanged and the reason.
    fn applied(self, f: &Field) -> (r: Result<Self, (Self, WireError)>)
        ensures
            match Self::spec_apply(self@, f@) {
                Ok(v) => r matches Ok(m) && m@ == v,
                Err(e) => r matches Err((m, x)) && x == e && m@ == self@,
            },
    {
        match f.number {
            1 => match read_u64(&f.value) {
                Ok(x) => Ok(Self { playtime_seconds: Some(x), ..self }),
                Err(e) => Err((self, e)),
            },
            2 => match read_u64(&f.value) {
                Ok(x) => Ok(Self { num_sessions: Some(x), ..self }),
                Err(e) => Err((self, e)),
            },
            _ => Ok(self),
        }
    }

    /// Reads the records `bytes` holds into this message, in order. When a record does
    /// not parse or is refused, the reading stops there: the message keeps what the
    /// records before it gave, and the error is returned.
    pub fn merge(&mut self, bytes: &[u8]) -> (r: Result<(), WireError>)
        ensures
            final(self)@ == merge_run(old(self)@, bytes@, Self::apply_fn()).0,
            r == match merge_run(old(self)@, bytes@, Self::apply_fn()).1 {
                None => Ok::<(), WireError>(()),
                Some(e) => Err::<(), WireError>(e),
            },
    {
        let ghost total = merge_run(self@, bytes@, Self::apply_fn());
        let mut cur = Self::default();
        std::mem::swap(&mut cur, self);
        let mut pos: usize = 0;
        assert(bytes@.skip(0) =~= bytes@);
        while pos < bytes.len()
            invariant
                pos <= bytes@.len(),
                total == merge_run(old(self)@, bytes@, Self::apply_fn()),
                merge_run(cur@, bytes@.skip(pos as int), Self::apply_fn()) == total,
            decreases bytes@.len() - pos,
        {
            let ghost s = bytes@.skip(pos as int);
            proof {
                lemma_merge_run_step(cur@, s, Self::apply_fn());
                lemma_parse_field_len(s);
            }
            match read_field(bytes, pos) {
                Ok((f, end)) => {
                    assert(bytes@.skip(end as int) =~= s.skip((end - pos) as int));
                    match cur.applied(&f) {
                        Ok(m) => {
                            cur = m;
                        },
                        Err((m, e)) => {
                            *self = m;
                            return Err(e);
                        },
                    }
                    pos = end;
                },
                Err(e) => {
                    *self = cur;
                    return Err(e);
                },
            }
        }
        assert(bytes@.skip(pos as int) =~= Seq::<u8>::empty());
        proof {
            lemma_merge_run_empty(cur@, Self::apply_fn());
        }
        *self = cur;
        Ok(())
    }

    /// Decodes a message from its encoding.
    pub fn decode(bytes: &[u8]) -> (r: Result<Self, WireError>)
        ensures
            match Self::spec_decode(bytes@) {
                Ok(v) => r matches Ok(m) && m@ == v,
                Err(e) => r matches Err(x) && x == e,
            },
    {
        proof {
            reveal(PlaytimeStats::spec_decode);
        }
        let mut m = Self::default();
        match m.merge(bytes) {
            Ok(()) => Ok(m),
            Err(e) => Err(e),
        }
    }

    /// The encoding of this message.
    pub fn encode_to_vec(&self) -> (r: Vec<u8>)
        ensures
            r@ == Self::spec_encode(self@),
    {
        let ghost v = self@;
        let mut out: Vec<u8> = Vec::new();
        let ghost p0 = Seq::<SpecField>::empty();
        put_opt_varint(&mut out, 1, self.playtime_seconds);
        let ghost p1 = p0 + opt_u64(1, v.playtime_seconds);
        proof {
            lemma_fields_bytes_concat(p0, opt_u64(1, v.playtime_seconds));
        }
        put_opt_varint(&mut out, 2, self.num_sessions);
        let ghost p2 = p1 + opt_u64(2, v.num_sessions);
        proof {
            lemma_fields_bytes_concat(p1, opt_u64(2, v.num_sessions));
        }
        proof {
            reveal(PlaytimeStats::spec_encode);
        }
        assert(p2 == Self::spec_fields(v));
        out
    }

    /// Appends the encoding of this message to `out`.
    pub fn encode_raw(&self, out: &mut Vec<u8>)
        ensures
            final(out)@ == old(out)@ + Self::spec_encode(self@),
    {
        let mut b = self.encode_to_vec();
        out.append(&mut b);
    }

    /// The first `k` fields of `v`, the others as a fresh message has them.
    #[verifier::opaque]
    pub open spec fn spec_prefix(v: SpecPlaytimeStats, k: int) -> SpecPlaytimeStats {
        SpecPlaytimeStats {
            playtime_seconds: if 1 <= k { v.playtime_seconds } else { None },
            num_sessions: if 2 <= k { v.num_sessions } else { None },
        }
    }

    /// Reading field 1 back, after the fields before it.
    proof fn lemma_field_playtime_seconds(v: SpecPlaytimeStats)
        ensures
            fold_fields(Self::spec_prefix(v, 0), opt_u64(1, v.playtime_seconds), Self::apply_fn())
                == Ok::<SpecPlaytimeStats, WireError>(Self::spec_prefix(v, 1)),
    {
        reveal(PlaytimeStats::spec_prefix);
        reveal(opt_u64);
        let apply = Self::apply_fn();
        let s = Self::spec_prefix(v, 0);
        lemma_fold_opt(s, 1, match v.playtime_seconds { Some(x) => Some(enc_u64(x)), None => None }, apply);
        if let Some(x) = v.playtime_seconds {
            lemma_u64_roundtrip(x);
        }
        assert(SpecPlaytimeStats { playtime_seconds: v.playtime_seconds, ..s } == Self::spec_prefix(v, 1));
    }

    /// Reading field 2 back, after the fields before it.
    proof fn lemma_field_num_sessions(v: SpecPlaytimeStats)
        ensures
            fold_fields(Self::spec_prefix(v, 1), opt_u64(2, v.num_sessions), Self::apply_fn())
                == Ok::<SpecPlaytimeStats, WireError>(Self::spec_prefix(v, 2)),
    {
        reveal(PlaytimeStats::spec_prefix);
        reveal(opt_u64);
        let apply = Self::apply_fn();
        let s = Self::spec_prefix(v, 1);
        lemma_fold_opt(s, 2, match v.num_sessions { Some(x) => Some(enc_u64(x)), None => None }, apply);
        if let Some(x) = v.num_sessions {
            lemma_u64_roundtrip(x);
        }
        assert(SpecPlaytimeStats { num_sessions: v.num_sessions, ..s } == Self::spec_prefix(v, 2));
    }

    /// Whether this message declares field number `n`.
    pub open spec fn declares(n: u32) -> bool {
        n == 1 || n == 2
    }

    /// A record with a number this message does not declare is passed over: well-formed
    /// bytes decode to the same message with such a record after them as without it.
    pub proof fn lemma_unknown_field(bytes: Seq<u8>, f: SpecField)
        requires
            parse_fields(bytes) is Ok,
            field_wf(f),
            !Self::declares(f.number),
        ensures
            Self::spec_decode(bytes + field_bytes(f)) == Self::spec_decode(bytes),
    {
        reveal(PlaytimeStats::spec_decode);
        lemma_parse_fields_append(bytes, f);
        let fs = parse_fields(bytes).unwrap();
        let apply = Self::apply_fn();
        lemma_fold_concat(Self::spec_default(), fs, seq![f], apply);
        assert(fs.push(f) =~= fs + seq![f]);
        if let Ok(w) = fold_fields(Self::spec_default(), fs, apply) {
            lemma_fold_single(w, f, apply);
        }
        lemma_merge_run_fold(Self::spec_default(), bytes, apply);
        lemma_merge_run_fold(Self::spec_default(), bytes + field_bytes(f), apply);
    }

    /// Decoding the encoding of a message gives the message back.
    pub proof fn lemma_decode_encode(v: SpecPlaytimeStats)
        requires
            Self::spec_encode(v).len() <= u64::MAX,
        ensures
            Self::spec_decode(Self::spec_encode(v)) == Ok::<SpecPlaytimeStats, WireError>(v),
    {
        let apply = Self::apply_fn();
        let d = Self::spec_default();
        let p0 = Seq::<SpecField>::empty();
        let l1 = opt_u64(1, v.playtime_seconds);
        let p1 = p0 + l1;
        let l2 = opt_u64(2, v.num_sessions);
        let p2 = p1 + l2;
        assert(parse_fields(Self::spec_encode(v)) == Ok::<Seq<SpecField>, WireError>(p2)) by {
            reveal(PlaytimeStats::spec_encode);
            assert(numbers_ok(p0) && fields_wf(p0)) by {
                reveal(numbers_ok);
                reveal(fields_wf);
            }
            lemma_opt_u64_numbered(1, v.playtime_seconds);
            lemma_fields_wf_concat(p0, l1);
            lemma_opt_u64_numbered(2, v.num_sessions);
            lemma_fields_wf_concat(p1, l2);
            assert(p2 == Self::spec_fields(v));
            lemma_fields_wf_from_len(p2);
            lemma_fields_roundtrip(p2);
        }
        assert(Self::spec_prefix(v, 0) == d) by {
            reveal(PlaytimeStats::spec_prefix);
        }
        lemma_fold_empty(d, apply);
        lemma_fold_concat(d, p0, l1, apply);
        Self::lemma_field_playtime_seconds(v);
        lemma_fold_concat(d, p1, l2, apply);
        Self::lemma_field_num_sessions(v);
        assert(Self::spec_prefix(v, 2) == v) by {
            reveal(PlaytimeStats::spec_prefix);
        }
        lemma_merge_run_fold(d, Self::spec_encode(v), apply);
        assert(Self::spec_decode(Self::spec_encode(v)) == Ok::<SpecPlaytimeStats, WireError>(v)) by {
            reveal(PlaytimeStats::spec_decode);
        }
    }
}

/// `Reaction`, as Valve's schema declares it.
#[derive(Debug, Clone, PartialEq)]
pub struct Reaction {
    /// Field 1.
    pub reactionid: Option<u32>,
    /// Field 2.
    pub count: Option<u32>,
}

/// What a `Reaction` holds, as mathematical values.
#[verifier::ext_equal]
pub struct SpecReaction {
    pub reactionid: Option<u32>,
    pub count: Option<u32>,
}

impl View for Reaction {
    type V = SpecReaction;

    open spec fn view(&self) -> SpecReaction {
        SpecReaction {
            reactionid: self.reactionid,
            count: self.count,
        }
    }
}

impl Default for Reaction {
    fn default() -> (r: Self)
        ensures
            r@ == Reaction::spec_default(),
    {
        Reaction {
            reactionid: None,
            count: None,
        }
    }
}

impl Reaction {
    pub open spec fn spec_default() -> SpecReaction {
        SpecReaction {
            reactionid: None,
            count: None,
        }
    }

    /// The records a `Reaction` is written as, in field order.
    pub open spec fn spec_fields(v: SpecReaction) -> Seq<SpecField> {
        Seq::<SpecField>::empty()
            + opt_u32(1, v.reactionid)
            + opt_u32(2, v.count)
    }

    #[verifier::opaque]
    pub open spec fn spec_encode(v: SpecReaction) -> Seq<u8> {
        fields_bytes(Self::spec_fields(v))
    }

    /// What one record does to the message: a declared number sets or extends its
    /// field, any other number is left alone.
    pub open spec fn spec_apply(v: SpecReaction, f: SpecField) -> Result<SpecReaction, WireError> {
        match f.number {
            1 => match dec_u32(f.value) {
                Ok(x) => Ok(SpecReaction { reactionid: Some(x), ..v }),
                Err(e) => Err(e),
            },
            2 => match dec_u32(f.value) {
                Ok(x) => Ok(SpecReaction { count: Some(x), ..v }),
                Err(e) => Err(e),
            },
            _ => Ok(v),
        }
    }

    pub open spec fn apply_fn() -> spec_fn(SpecReaction, SpecField) -> Result<SpecReaction, WireError> {
        |v: SpecReaction, f: SpecField| Self::spec_apply(v, f)
    }

    /// The message `bytes` makes of `v`: its records applied in order, or the error
    /// that stops the reading.
    pub open spec fn spec_merge(v: SpecReaction, bytes: Seq<u8>) -> Result<SpecReaction, WireError> {
        let (w, stop) = merge_run(v, bytes, Self::apply_fn());
        match stop {
            None => Ok(w),
            Some(e) => Err(e),
        }
    }

    #[verifier::opaque]
    pub open spec fn spec_decode(bytes: Seq<u8>) -> Result<SpecReaction, WireError> {
        Self::spec_merge(Self::spec_default(), bytes)
    }

    pub open spec fn view_all(xs: Seq<Reaction>) -> Seq<SpecReaction> {
        xs.map_values(|m: Reaction| m@)
    }

    pub open spec fn view_opt(o: Option<Reaction>) -> Option<SpecReaction> {
        match o {
            Some(m) => Some(m@),
            None => None,
        }
    }

    pub open spec fn spec_encode_all(xs: Seq<SpecReaction>) -> Seq<Seq<u8>> {
        xs.map_values(|m: SpecReaction| Self::spec_encode(m))
    }

    pub open spec fn spec_encode_opt(o: Option<SpecReaction>) -> Option<Seq<u8>> {
        match o {
            Some(m) => Some(Self::spec_encode(m)),
            None => None,
        }
    }

    /// The encoding of each element.
    pub fn encode_all(xs: &Vec<Reaction>) -> (r: Vec<Vec<u8>>)
        ensures
            bytes_seq_view(r@) == Self::spec_encode_all(Self::view_all(xs@)),
    {
        let mut out: Vec<Vec<u8>> = Vec::new();
        let mut i: usize = 0;
        while i < xs.len()
            invariant
                i <= xs@.len(),
                out@.len() == i,
                forall|j: int| 0 <= j < i ==> #[trigger] out@[j]@ == Self::spec_encode(xs@[j]@),
            decreases xs@.len() - i,
        {
            let e = xs[i].encode_to_vec();
            out.push(e);
            i = i + 1;
        }
        assert(bytes_seq_view(out@) =~= Self::spec_encode_all(Self::view_all(xs@)));
        out
    }

    /// The encoding of the element, when there is one.
    pub fn encode_opt(o: &Option<Reaction>) -> (r: Option<Vec<u8>>)
        ensures
            opt_bytes_view(r) == Self::spec_encode_opt(Self::view_opt(*o)),
    {
        match o {
            Some(m) => Some(m.encode_to_vec()),
            None => None,
        }
    }

    /// This message with one record applied to it, or, when the record is refused,
    /// the message unchanged and the reason.
    fn applied(self, f: &Field) -> (r: Result<Self, (Self, WireError)>)
        ensures
            match Self::spec_apply(self@, f@) {
                Ok(v) => r matches Ok(m) && m@ == v,
                Err(e) => r matches Err((m, x)) && x == e && m@ == self@,
            },
    {
        match f.number {
            1 => match read_u32(&f.value) {
                Ok(x) => Ok(Self { reactionid: Some(x), ..self }),
                Err(e) => Err((self, e)),
            },
            2 => match read_u32(&f.value) {
                Ok(x) => Ok(Self { count: Some(x), ..self }),
                Err(e) => Err((self, e)),
            },
            _ => Ok(self),
        }
    }

    /// Reads the records `bytes` holds into this message, in order. When a record does
    /// not parse or is refused, the reading stops there: the message keeps what the
    /// records before it gave, and the error is returned.
    pub fn merge(&mut self, bytes: &[u8]) -> (r: Result<(), WireError>)
        ensures
            final(self)@ == merge_run(old(self)@, bytes@, Self::apply_fn()).0,
            r == match merge_run(old(self)@, bytes@, Self::apply_fn()).1 {
                None => Ok::<(), WireError>(()),
                Some(e) => Err::<(), WireError>(e),
            },
    {
        let ghost total = merge_run(self@, bytes@, Self::apply_fn());
        let mut cur = Self::default();
        std::mem::swap(&mut cur, self);
        let mut pos: usize = 0;
        assert(bytes@.skip(0) =~= bytes@);
        while pos < bytes.len()
            invariant
                pos <= bytes@.len(),
                total == merge_run(old(self)@, bytes@, Self::apply_fn()),
                merge_run(cur@, bytes@.skip(pos as int), Self::apply_fn()) == total,
            decreases bytes@.len() - pos,
        {
            let ghost s = bytes@.skip(pos as int);
            proof {
                lemma_merge_run_step(cur@, s, Self::apply_fn());
                lemma_parse_field_len(s);
            }
            match read_field(bytes, pos) {
                Ok((f, end)) => {
                    assert(bytes@.skip(end as int) =~= s.skip((end - pos) as int));
                    match cur.applied(&f) {
                        Ok(m) => {
                            cur = m;
                        },
                        Err((m, e)) => {
                            *self = m;
                            return Err(e);
                        },
                    }
                    pos = end;
                },
                Err(e) => {
                    *self = cur;
                    return Err(e);
                },
            }
        }
        assert(bytes@.skip(pos as int) =~= Seq::<u8>::empty());
        proof {
            lemma_merge_run_empty(cur@, Self::apply_fn());
        }
        *self = cur;
        Ok(())
    }

    /// Decodes a message from its encoding.
    pub fn decode(bytes: &[u8]) -> (r: Result<Self, WireError>)
        ensures
            match Self::spec_decode(bytes@) {
                Ok(v) => r matches Ok(m) && m@ == v,
                Err(e) => r matches Err(x) && x == e,
            },
    {
        proof {
            reveal(Reaction::spec_decode);
        }
        let mut m = Self::default();
        match m.merge(bytes) {
            Ok(()) => Ok(m),
            Err(e) => Err(e),
        }
    }

    /// The encoding of this message.
    pub fn encode_to_vec(&self) -> (r: Vec<u8>)
        ensures
            r@ == Self::spec_encode(self@),
    {
        let ghost v = self@;
        let mut out: Vec<u8> = Vec::new();
        let ghost p0 = Seq::<SpecField>::empty();
        put_opt_u32(&mut out, 1, self.reactionid);
        let ghost p1 = p0 + opt_u32(1, v.reactionid);
        proof {
            lemma_fields_bytes_concat(p0, opt_u32(1, v.reactionid));
        }
        put_opt_u32(&mut out, 2, self.count);
        let ghost p2 = p1 + opt_u32(2, v.count);
        proof {
            lemma_fields_bytes_concat(p1, opt_u32(2, v.count));
        }
        proof {
            reveal(Reaction::spec_encode);
        }
        assert(p2 == Self::spec_fields(v));
        out
    }

    /// Appends the encoding of this message to `out`.
    pub fn encode_raw(&self, out: &mut Vec<u8>)
        ensures
            final(out)@ == old(out)@ + Self::spec_encode(self@),
    {
        let mut b = self.encode_to_vec();
        out.append(&mut b);
    }

    /// The first `k` fields of `v`, the others as a fresh message has them.
    #[verifier::opaque]
    pub open spec fn spec_prefix(v: SpecReaction, k: int) -> SpecReaction {
        SpecReaction {
            reactionid: if 1 <= k { v.reactionid } else { None },
            count: if 2 <= k { v.count } else { None },
        }
    }

    /// Reading field 1 back, after the fields before it.
    proof fn lemma_field_reactionid(v: SpecReaction)
        ensures
            fold_fields(Self::spec_prefix(v, 0), opt_u32(1, v.reactionid), Self::apply_fn())
                == Ok::<SpecReaction, WireError>(Self::spec_prefix(v, 1)),
    {
        reveal(Reaction::spec_prefix);
        reveal(opt_u32);
        let apply = Self::apply_fn();
        let s = Self::spec_prefix(v, 0);
        lemma_fold_opt(s, 1, match v.reactionid { Some(x) => Some(enc_u32(x)), None => None }, apply);
        if let Some(x) = v.reactionid {
            lemma_u32_roundtrip(x);
        }
        assert(SpecReaction { reactionid: v.reactionid, ..s } == Self::spec_prefix(v, 1));
    }

    /// Reading field 2 back, after the fields before it.
    proof fn lemma_field_count(v: SpecReaction)
        ensures
            fold_fields(Self::spec_prefix(v, 1), opt_u32(2, v.count), Self::apply_fn())
                == Ok::<SpecReaction, WireError>(Self::spec_prefix(v, 2)),
    {
        reveal(Reaction::spec_prefix);
        reveal(opt_u32);
        let apply = Self::apply_fn();
        let s = Self::spec_prefix(v, 1);
        lemma_fold_opt(s, 2, match v.count { Some(x) => Some(enc_u32(x)), None => None }, apply);
        if let Some(x) = v.count {
            lemma_u32_roundtrip(x);
        }
        assert(SpecReaction { count: v.count, ..s } == Self::spec_prefix(v, 2));
    }

    /// Whether this message declares field number `n`.
    pub open spec fn declares(n: u32) -> bool {
        n == 1 || n == 2
    }

    /// A record with a number this message does not declare is passed over: well-formed
    /// bytes decode to the same message with such a record after them as without it.
    pub proof fn lemma_unknown_field(bytes: Seq<u8>, f: SpecField)
        requires
            parse_fields(bytes) is Ok,
            field_wf(f),
            !Self::declares(f.number),
        ensures
            Self::spec_decode(bytes + field_bytes(f)) == Self::spec_decode(bytes),
    {
        reveal(Reaction::spec_decode);
        lemma_parse_fields_append(bytes, f);
        let fs = parse_fields(bytes).unwrap();
        let apply = Self::apply_fn();
        lemma_fold_concat(Self::spec_default(), fs, seq![f], apply);
        assert(fs.push(f) =~= fs + seq![f]);
        if let Ok(w) = fold_fields(Self::spec_default(), fs, apply) {
            lemma_fold_single(w, f, apply);
        }
        lemma_merge_run_fold(Self::spec_default(), bytes, apply);
        lemma_merge_run_fold(Self::spec_default(), bytes + field_bytes(f), apply);
    }

    /// Decoding the encoding of a message gives the message back.
    pub proof fn lemma_decode_encode(v: SpecReaction)
        requires
            Self::spec_encode(v).len() <= u64::MAX,
        ensures
            Self::spec_decode(Self::spec_encode(v)) == Ok::<SpecReaction, WireError>(v),
    {
        let apply = Self::apply_fn();
        let d = Self::spec_default();
        let p0 = Seq::<SpecField>::empty();
        let l1 = opt_u32(1, v.reactionid);
        let p1 = p0 + l1;
        let l2 = opt_u32(2, v.count);
        let p2 = p1 + l2;
        assert(parse_fields(Self::spec_encode(v)) == Ok::<Seq<SpecField>, WireError>(p2)) by {
            reveal(Reaction::spec_encode);
            assert(numbers_ok(p0) && fields_wf(p0)) by {
                reveal(numbers_ok);
                reveal(fields_wf);
            }
            lemma_opt_u32_numbered(1, v.reactionid);
            lemma_fields_wf_concat(p0, l1);
            lemma_opt_u32_numbered(2, v.count);
            lemma_fields_wf_concat(p1, l2);
            assert(p2 == Self::spec_fields(v));
            lemma_fields_wf_from_len(p2);
            lemma_fields_roundtrip(p2);
        }
        assert(Self::spec_prefix(v, 0) == d) by {
            reveal(Reaction::spec_prefix);
        }
        lemma_fold_empty(d, apply);
        lemma_fold_concat(d, p0, l1, apply);
        Self::lemma_field_reactionid(v);
        lemma_fold_concat(d, p1, l2, apply);
        Self::lemma_field_count(v);
        assert(Self::spec_prefix(v, 2) == v) by {
            reveal(Reaction::spec_prefix);
        }
        lemma_merge_run_fold(d, Self::spec_encode(v), apply);
        assert(Self::spec_decode(Self::spec_encode(v)) == Ok::<SpecReaction, WireError>(v)) by {
            reveal(Reaction::spec_decode);
        }
    }
}

} // verus!
