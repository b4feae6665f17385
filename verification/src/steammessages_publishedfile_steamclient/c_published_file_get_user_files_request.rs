//! Types nested inside `c_published_file_get_user_files_request`.


use vstd::prelude::*;

use crate::codec::{
    bytes_seq_view, dec_string, dec_u32, enc_string, enc_u32, fold_fields, lemma_fold_chain,
    lemma_fold_concat, lemma_fold_empty, lemma_fold_opt, lemma_fold_single,
    lemma_merge_run_empty, lemma_merge_run_fold, lemma_merge_run_step,
    lemma_opt_string_numbered, lemma_opt_u32_numbered, lemma_rep_string_numbered,
    lemma_string_roundtrip, lemma_u32_roundtrip, merge_run, opt_bytes_view, opt_string,
    opt_string_view, opt_u32, put_opt_string, put_opt_u32, put_rep_string, read_string,
    read_u32, rep_string, strings_view,
};

use crate::wire::fields::{
    field_bytes, field_wf, fields_bytes, fields_wf, lemma_fields_bytes_concat,
    lemma_fields_roundtrip, lemma_fields_wf_concat, lemma_fields_wf_from_len,
    lemma_parse_field_len, lemma_parse_fields_append, numbers_ok, parse_fields, read_field,
    Field, SpecField,
};
use crate::wire::varint::WireError;

verus! {

/// `KVTag`, as Valve's schema declares it.
#[derive(Debug, Clone, PartialEq)]
pub struct KVTag {
    /// Field 1.
    pub key: Option<String>,
    /// Field 2.
    pub value: Option<String>,
}

/// What a `KVTag` holds, as mathematical values.
#[verifier::ext_equal]
pub struct SpecKVTag {
    pub key: Option<Seq<char>>,
    pub value: Option<Seq<char>>,
}

impl View for KVTag {
    type V = SpecKVTag;

    open spec fn view(&self) -> SpecKVTag {
        SpecKVTag {
            key: opt_string_view(self.key),
            value: opt_string_view(self.value),
        }
    }
}

impl Default for KVTag {
    fn default() -> (r: Self)
        ensures
            r@ == KVTag::spec_default(),
    {
        KVTag {
            key: None,
            value: None,
        }
    }
}

impl KVTag {
    pub open spec fn spec_default() -> SpecKVTag {
        SpecKVTag {
            key: None,
            value: None,
        }
    }

    /// The records a `KVTag` is written as, in field order.
    pub open spec fn spec_fields(v: SpecKVTag) -> Seq<SpecField> {
        Seq::<SpecField>::empty()
            + opt_string(1, v.key)
            + opt_string(2, v.value)
    }

    #[verifier::opaque]
    pub open spec fn spec_encode(v: SpecKVTag) -> Seq<u8> {
        fields_bytes(Self::spec_fields(v))
    }

    /// What one record does to the message: a declared number sets or extends its
    /// field, any other number is left alone.
    pub open spec fn spec_apply(v: SpecKVTag, f: SpecField) -> Result<SpecKVTag, WireError> {
        match f.number {
            1 => match dec_string(f.value) {
                Ok(x) => Ok(SpecKVTag { key: Some(x), ..v }),
                Err(e) => Err(e),
            },
            2 => match dec_string(f.value) {
                Ok(x) => Ok(SpecKVTag { value: Some(x), ..v }),
                Err(e) => Err(e),
            },
            _ => Ok(v),
        }
    }

    pub open spec fn apply_fn() -> spec_fn(SpecKVTag, SpecField) -> Result<SpecKVTag, WireError> {
        |v: SpecKVTag, f: SpecField| Self::spec_apply(v, f)
    }

    /// The message `bytes` makes of `v`: its records applied in order, or the error
    /// that stops the reading.
    pub open spec fn spec_merge(v: SpecKVTag, bytes: Seq<u8>) -> Result<SpecKVTag, WireError> {
        let (w, stop) = merge_run(v, bytes, Self::apply_fn());
        match stop {
            None => Ok(w),
            Some(e) => Err(e),
        }
    }

    #[verifier::opaque]
    pub open spec fn spec_decode(bytes: Seq<u8>) -> Result<SpecKVTag, WireError> {
        Self::spec_merge(Self::spec_default(), bytes)
    }

    pub open spec fn view_all(xs: Seq<KVTag>) -> Seq<SpecKVTag> {
        xs.map_values(|m: KVTag| m@)
    }

    pub open spec fn view_opt(o: Option<KVTag>) -> Option<SpecKVTag> {
        match o {
            Some(m) => Some(m@),
            None => None,
        }
    }

    pub open spec fn spec_encode_all(xs: Seq<SpecKVTag>) -> Seq<Seq<u8>> {
        xs.map_values(|m: SpecKVTag| Self::spec_encode(m))
    }

    pub open spec fn spec_encode_opt(o: Option<SpecKVTag>) -> Option<Seq<u8>> {
        match o {
            Some(m) => Some(Self::spec_encode(m)),
            None => None,
        }
    }

    /// The encoding of each element.
    pub fn encode_all(xs: &Vec<KVTag>) -> (r: Vec<Vec<u8>>)
        ensures
            bytes_seq_view(r@) == Self::spec_encode_all(Self::view_all(xs@)),
    {
        let mut out: Vec<Vec<u8>> = Vec::new();
        let mut i: usize = 0;
        while i < xs.len()
            invariant
                i <= xs@.len(),
                out@.len() == i,
                forall|j: int| 0 <= j < i ==> #[trigger] out@[j]@ == Self::spec_encode(xs@[j]@),
            decreases xs@.len() - i,
        {
            let e = xs[i].encode_to_vec();
            out.push(e);
            i = i + 1;
        }
        assert(bytes_seq_view(out@) =~= Self::spec_encode_all(Self::view_all(xs@)));
        out
    }

    /// The encoding of the element, when there is one.
    pub fn encode_opt(o: &Option<KVTag>) -> (r: Option<Vec<u8>>)
        ensures
            opt_bytes_view(r) == Self::spec_encode_opt(Self::view_opt(*o)),
    {
        match o {
            Some(m) => Some(m.encode_to_vec()),
            None => None,
        }
    }

    /// This message with one record applied to it, or, when the record is refused,
    /// the message unchanged and the reason.
    fn applied(self, f: &Field) -> (r: Result<Self, (Self, WireError)>)
        ensures
            match Self::spec_apply(self@, f@) {
                Ok(v) => r matches Ok(m) && m@ == v,
                Err(e) => r matches Err((m, x)) && x == e && m@ == self@,
            },
    {
        match f.number {
            1 => match read_string(&f.value) {
                Ok(x) => Ok(Self { key: Some(x), ..self }),
                Err(e) => Err((self, e)),
            },
            2 => match read_string(&f.value) {
                Ok(x) => Ok(Self { value: Some(x), ..self }),
                Err(e) => Err((self, e)),
            },
            _ => Ok(self),
        }
    }

    /// Reads the records `bytes` holds into this message, in order. When a record does
    /// not parse or is refused, the reading stops there: the message keeps what the
    /// records before it gave, and the error is returned.
    pub fn merge(&mut self, bytes: &[u8]) -> (r: Result<(), WireError>)
        ensures
            final(self)@ == merge_run(old(self)@, bytes@, Self::apply_fn()).0,
            r == match merge_run(old(self)@, bytes@, Self::apply_fn()).1 {
                None => Ok::<(), WireError>(()),
                Some(e) => Err::<(), WireError>(e),
            },
    {
        let ghost total = merge_run(self@, bytes@, Self::apply_fn());
        let mut cur = Self::default();
        std::mem::swap(&mut cur, self);
        let mut pos: usize = 0;
        assert(bytes@.skip(0) =~= bytes@);
        while pos < bytes.len()
            invariant
                pos <= bytes@.len(),
                total == merge_run(old(self)@, bytes@, Self::apply_fn()),
                merge_run(cur@, bytes@.skip(pos as int), Self::apply_fn()) == total,
            decreases bytes@.len() - pos,
        {
            let ghost s = bytes@.skip(pos as int);
            proof {
                lemma_merge_run_step(cur@, s, Self::apply_fn());
                lemma_parse_field_len(s);
            }
            match read_field(bytes, pos) {
                Ok((f, end)) => {
                    assert(bytes@.skip(end as int) =~= s.skip((end - pos) as int));
                    match cur.applied(&f) {
                        Ok(m) => {
                            cur = m;
                        },
                        Err((m, e)) => {
                            *self = m;
                            return Err(e);
                        },
                    }
                    pos = end;
                },
                Err(e) => {
                    *self = cur;
                    return Err(e);
                },
            }
        }
        assert(bytes@.skip(pos as int) =~= Seq::<u8>::empty());
        proof {
            lemma_merge_run_empty(cur@, Self::apply_fn());
        }
        *self = cur;
        Ok(())
    }

    /// Decodes a message from its encoding.
    pub fn decode(bytes: &[u8]) -> (r: Result<Self, WireError>)
        ensures
            match Self::spec_decode(bytes@) {
                Ok(v) => r matches Ok(m) && m@ == v,
                Err(e) => r matches Err(x) && x == e,
            },
    {
        proof {
            reveal(KVTag::spec_decode);
        }
        let mut m = Self::default();
        match m.merge(bytes) {
            Ok(()) => Ok(m),
            Err(e) => Err(e),
        }
    }

    /// The encoding of this message.
    pub fn encode_to_vec(&self) -> (r: Vec<u8>)
        ensures
            r@ == Self::spec_encode(self@),
    {
        let ghost v = self@;
        let mut out: Vec<u8> = Vec::new();
        let ghost p0 = Seq::<SpecField>::empty();
        put_opt_string(&mut out, 1, &self.key);
        let ghost p1 = p0 + opt_string(1, v.key);
        proof {
            lemma_fields_bytes_concat(p0, opt_string(1, v.key));
        }
        put_opt_string(&mut out, 2, &self.value);
        let ghost p2 = p1 + opt_string(2, v.value);
        proof {
            lemma_fields_bytes_concat(p1, opt_string(2, v.value));
        }
        proof {
            reveal(KVTag::spec_encode);
        }
        assert(p2 == Self::spec_fields(v));
        out
    }

    /// Appends the encoding of this message to `out`.
    pub fn encode_raw(&self, out: &mut Vec<u8>)
        ensures
            final(out)@ == old(out)@ + Self::spec_encode(self@),
    {
        let mut b = self.encode_to_vec();
        out.append(&mut b);
    }

    /// The first `k` fields of `v`, the others as a fresh message has them.
    #[verifier::opaque]
    pub open spec fn spec_prefix(v: SpecKVTag, k: int) -> SpecKVTag {
        SpecKVTag {
            key: if 1 <= k { v.key } else { None },
            value: if 2 <= k { v.value } else { None },
        }
    }

    /// Reading field 1 back, after the fields before it.
    proof fn lemma_field_key(v: SpecKVTag)
        ensures
            fold_fields(Self::spec_prefix(v, 0), opt_string(1, v.key), Self::apply_fn())
                == Ok::<SpecKVTag, WireError>(Self::spec_prefix(v, 1)),
    {
        reveal(KVTag::spec_prefix);
        reveal(opt_string);
        let apply = Self::apply_fn();
        let s = Self::spec_prefix(v, 0);
        lemma_fold_opt(s, 1, match v.key { Some(x) => Some(enc_string(x)), None => None }, apply);
        if let Some(x) = v.key {
            lemma_string_roundtrip(x);
        }
        assert(SpecKVTag { key: v.key, ..s } == Self::spec_prefix(v, 1));
    }

    /// Reading field 2 back, after the fields before it.
    proof fn lemma_field_value(v: SpecKVTag)
        ensures
            fold_fields(Self::spec_prefix(v, 1), opt_string(2, v.value), Self::apply_fn())
                == Ok::<SpecKVTag, WireError>(Self::spec_prefix(v, 2)),
    {
        reveal(KVTag::spec_prefix);
        reveal(opt_string);
        let apply = Self::apply_fn();
        let s = Self::spec_prefix(v, 1);
        lemma_fold_opt(s, 2, match v.value { Some(x) => Some(enc_string(x)), None => None }, apply);
        if let Some(x) = v.value {
            lemma_string_roundtrip(x);
        }
        assert(SpecKVTag { value: v.value, ..s } == Self::spec_prefix(v, 2));
    }

    /// Whether this message declares field number `n`.
    pub open spec fn declares(n: u32) -> bool {
        n == 1 || n == 2
    }

    /// A record with a number this message does not declare is passed over: well-formed
    /// bytes decode to the same message with such a record after them as without it.
    pub proof fn lemma_unknown_field(bytes: Seq<u8>, f: SpecField)
        requires
            parse_fields(bytes) is Ok,
            field_wf(f),
            !Self::declares(f.number),
        ensures
            Self::spec_decode(bytes + field_bytes(f)) == Self::spec_decode(bytes),
    {
        reveal(KVTag::spec_decode);
        lemma_parse_fields_append(bytes, f);
        let fs = parse_fields(bytes).unwrap();
        let apply = Self::apply_fn();
        lemma_fold_concat(Self::spec_default(), fs, seq![f], apply);
        assert(fs.push(f) =~= fs + seq![f]);
        if let Ok(w) = fold_fields(Self::spec_default(), fs, apply) {
            lemma_fold_single(w, f, apply);
        }
        lemma_merge_run_fold(Self::spec_default(), bytes, apply);
        lemma_merge_run_fold(Self::spec_default(), bytes + field_bytes(f), apply);
    }

    /// Decoding the encoding of a message gives the message back.
    pub proof fn lemma_decode_encode(v: SpecKVTag)
        requires
            Self::spec_encode(v).len() <= u64::MAX,
        ensures
            Self::spec_decode(Self::spec_encode(v)) == Ok::<SpecKVTag, WireError>(v),
    {
        let apply = Self::apply_fn();
        let d = Self::spec_default();
        let p0 = Seq::<SpecField>::empty();
        let l1 = opt_string(1, v.key);
        let p1 = p0 + l1;
        let l2 = opt_string(2, v.value);
        let p2 = p1 + l2;
        assert(parse_fields(Self::spec_encode(v)) == Ok::<Seq<SpecField>, WireError>(p2)) by {
            reveal(KVTag::spec_encode);
            assert(numbers_ok(p0) && fields_wf(p0)) by {
                reveal(numbers_ok);
                reveal(fields_wf);
            }
            lemma_opt_string_numbered(1, v.key);
            lemma_fields_wf_concat(p0, l1);
            lemma_opt_string_numbered(2, v.value);
            lemma_fields_wf_concat(p1, l2);
            assert(p2 == Self::spec_fields(v));
            lemma_fields_wf_from_len(p2);
            lemma_fields_roundtrip(p2);
        }
        assert(Self::spec_prefix(v, 0) == d) by {
            reveal(KVTag::spec_prefix);
        }
        lemma_fold_empty(d, apply);
        lemma_fold_concat(d, p0, l1, apply);
        Self::lemma_field_key(v);
        lemma_fold_concat(d, p1, l2, apply);
        Self::lemma_field_value(v);
        assert(Self::spec_prefix(v, 2) == v) by {
            reveal(KVTag::spec_prefix);
        }
        lemma_merge_run_fold(d, Self::spec_encode(v), apply);
        assert(Self::spec_decode(Self::spec_encode(v)) == Ok::<SpecKVTag, WireError>(v)) by {
            reveal(KVTag::spec_decode);
        }
    }
}

/// `TagGroup`, as Valve's schema declares it.
#[derive(Debug, Clone, PartialEq)]
pub struct TagGroup {
    /// Field 1.
    pub tags: Vec<String>,
}

/// What a `TagGroup` holds, as mathematical values.
#[verifier::ext_equal]
pub struct SpecTagGroup {
    pub tags: Seq<Seq<char>>,
}

impl View for TagGroup {
    type V = SpecTagGroup;

    open spec fn view(&self) -> SpecTagGroup {
        SpecTagGroup {
            tags: strings_view(self.tags@),
        }
    }
}

impl Default for TagGroup {
    fn default() -> (r: Self)
        ensures
            r@ == TagGroup::spec_default(),
    {
        TagGroup {
            tags: Vec::new(),
        }
    }
}

impl TagGroup {
    pub open spec fn spec_default() -> SpecTagGroup {
        SpecTagGroup {
            tags: Seq::empty(),
        }
    }

    /// The records a `TagGroup` is written as, in field order.
    pub open spec fn spec_fields(v: SpecTagGroup) -> Seq<SpecField> {
        Seq::<SpecField>::empty()
            + rep_string(1, v.tags)
    }

    #[verifier::opaque]
    pub open spec fn spec_encode(v: SpecTagGroup) -> Seq<u8> {
        fields_bytes(Self::spec_fields(v))
    }

    /// What one record does to the message: a declared number sets or extends its
    /// field, any other number is left alone.
    pub open spec fn spec_apply(v: SpecTagGroup, f: SpecField) -> Result<SpecTagGroup, WireError> {
        match f.number {
            1 => match dec_string(f.value) {
                Ok(x) => Ok(SpecTagGroup { tags: v.tags.push(x), ..v }),
                Err(e) => Err(e),
            },
            _ => Ok(v),
        }
    }

    pub open spec fn apply_fn() -> spec_fn(SpecTagGroup, SpecField) -> Result<SpecTagGroup, WireError> {
        |v: SpecTagGroup, f: SpecField| Self::spec_apply(v, f)
    }

    /// The message `bytes` makes of `v`: its records applied in order, or the error
    /// that stops the reading.
    pub open spec fn spec_merge(v: SpecTagGroup, bytes: Seq<u8>) -> Result<SpecTagGroup, WireError> {
        let (w, stop) = merge_run(v, bytes, Self::apply_fn());
        match stop {
            None => Ok(w),
            Some(e) => Err(e),
        }
    }

    #[verifier::opaque]
    pub open spec fn spec_decode(bytes: Seq<u8>) -> Result<SpecTagGroup, WireError> {
        Self::spec_merge(Self::spec_default(), bytes)
    }

    pub open spec fn view_all(xs: Seq<TagGroup>) -> Seq<SpecTagGroup> {
        xs.map_values(|m: TagGroup| m@)
    }

    pub open spec fn view_opt(o: Option<TagGroup>) -> Option<SpecTagGroup> {
        match o {
            Some(m) => Some(m@),
            None => None,
        }
    }

    pub open spec fn spec_encode_all(xs: Seq<SpecTagGroup>) -> Seq<Seq<u8>> {
        xs.map_values(|m: SpecTagGroup| Self::spec_encode(m))
    }

    pub open spec fn spec_encode_opt(o: Option<SpecTagGroup>) -> Option<Seq<u8>> {
        match o {
            Some(m) => Some(Self::spec_encode(m)),
            None => None,
        }
    }

    /// The encoding of each element.
    pub fn encode_all(xs: &Vec<TagGroup>) -> (r: Vec<Vec<u8>>)
        ensures
            bytes_seq_view(r@) == Self::spec_encode_all(Self::view_all(xs@)),
    {
        let mut out: Vec<Vec<u8>> = Vec::new();
        let mut i: usize = 0;
        while i < xs.len()
            invariant
                i <= xs@.len(),
                out@.len() == i,
                forall|j: int| 0 <= j < i ==> #[trigger] out@[j]@ == Self::spec_encode(xs@[j]@),
            decreases xs@.len() - i,
        {
            let e = xs[i].encode_to_vec();
            out.push(e);
            i = i + 1;
        }
        assert(bytes_seq_view(out@) =~= Self::spec_encode_all(Self::view_all(xs@)));
        out
    }

    /// The encoding of the element, when there is one.
    pub fn encode_opt(o: &Option<TagGroup>) -> (r: Option<Vec<u8>>)
        ensures
            opt_bytes_view(r) == Self::spec_encode_opt(Self::view_opt(*o)),
    {
        match o {
            Some(m) => Some(m.encode_to_vec()),
            None => None,
        }
    }

    /// This message with one record applied to it, or, when the record is refused,
    /// the message unchanged and the reason.
    fn applied(self, f: &Field) -> (r: Result<Self, (Self, WireError)>)
        ensures
            match Self::spec_apply(self@, f@) {
                Ok(v) => r matches Ok(m) && m@ == v,
                Err(e) => r matches Err((m, x)) && x == e && m@ == self@,
            },
    {
        match f.number {
            1 => match read_string(&f.value) {
                Ok(x) => {
                    let mut m = self;
                    let ghost before = m.tags@;
                    m.tags.push(x);
                    assert(strings_view(m.tags@) =~= strings_view(before).push(x@));
                    Ok(m)
                },
                Err(e) => Err((self, e)),
            },
            _ => Ok(self),
        }
    }

    /// Reads the records `bytes` holds into this message, in order. When a record does
    /// not parse or is refused, the reading stops there: the message keeps what the
    /// records before it gave, and the error is returned.
    pub fn merge(&mut self, bytes: &[u8]) -> (r: Result<(), WireError>)
        ensures
            final(self)@ == merge_run(old(self)@, bytes@, Self::apply_fn()).0,
            r == match merge_run(old(self)@, bytes@, Self::apply_fn()).1 {
                None => Ok::<(), WireError>(()),
                Some(e) => Err::<(), WireError>(e),
            },
    {
        let ghost total = merge_run(self@, bytes@, Self::apply_fn());
        let mut cur = Self::default();
        std::mem::swap(&mut cur, self);
        let mut pos: usize = 0;
        assert(bytes@.skip(0) =~= bytes@);
        while pos < bytes.len()
            invariant
                pos <= bytes@.len(),
                total == merge_run(old(self)@, bytes@, Self::apply_fn()),
                merge_run(cur@, bytes@.skip(pos as int), Self::apply_fn()) == total,
            decreases bytes@.len() - pos,
        {
            let ghost s = bytes@.skip(pos as int);
            proof {
                lemma_merge_run_step(cur@, s, Self::apply_fn());
                lemma_parse_field_len(s);
            }
            match read_field(bytes, pos) {
                Ok((f, end)) => {
                    assert(bytes@.skip(end as int) =~= s.skip((end - pos) as int));
                    match cur.applied(&f) {
                        Ok(m) => {
                            cur = m;
                        },
                        Err((m, e)) => {
                            *self = m;
                            return Err(e);
                        },
                    }
                    pos = end;
                },
                Err(e) => {
                    *self = cur;
                    return Err(e);
                },
            }
        }
        assert(bytes@.skip(pos as int) =~= Seq::<u8>::empty());
        proof {
            lemma_merge_run_empty(cur@, Self::apply_fn());
        }
        *self = cur;
        Ok(())
    }

    /// Decodes a message from its encoding.
    pub fn decode(bytes: &[u8]) -> (r: Result<Self, WireError>)
        ensures
            match Self::spec_decode(bytes@) {
                Ok(v) => r matches Ok(m) && m@ == v,
                Err(e) => r matches Err(x) && x == e,
            },
    {
        proof {
            reveal(TagGroup::spec_decode);
        }
        let mut m = Self::default();
        match m.merge(bytes) {
            Ok(()) => Ok(m),
            Err(e) => Err(e),
        }
    }

    /// The encoding of this message.
    pub fn encode_to_vec(&self) -> (r: Vec<u8>)
        ensures
            r@ == Self::spec_encode(self@),
    {
        let ghost v = self@;
        let mut out: Vec<u8> = Vec::new();
        let ghost p0 = Seq::<SpecField>::empty();
        put_rep_string(&mut out, 1, &self.tags);
        let ghost p1 = p0 + rep_string(1, v.tags);
        proof {
            lemma_fields_bytes_concat(p0, rep_string(1, v.tags));
        }
        proof {
            reveal(TagGroup::spec_encode);
        }
        assert(p1 == Self::spec_fields(v));
        out
    }

    /// Appends the encoding of this message to `out`.
    pub fn encode_raw(&self, out: &mut Vec<u8>)
        ensures
            final(out)@ == old(out)@ + Self::spec_encode(self@),
    {
        let mut b = self.encode_to_vec();
        out.append(&mut b);
    }

    /// The first `k` fields of `v`, the others as a fresh message has them.
    #[verifier::opaque]
    pub open spec fn spec_prefix(v: SpecTagGroup, k: int) -> SpecTagGroup {
        SpecTagGroup {
            tags: if 1 <= k { v.tags } else { Seq::empty() },
        }
    }

    /// Reading field 1 back, after the fields before it.
    proof fn lemma_field_tags(v: SpecTagGroup)
        ensures
            fold_fields(Self::spec_prefix(v, 0), rep_string(1, v.tags), Self::apply_fn())
                == Ok::<SpecTagGroup, WireError>(Self::spec_prefix(v, 1)),
    {
        reveal(TagGroup::spec_prefix);
        reveal(rep_string);
        let apply = Self::apply_fn();
        let s = Self::spec_prefix(v, 0);
        let l = rep_string(1, v.tags);
        let xs = v.tags;
        let st = Seq::new((xs.len() + 1) as nat, |j: int| SpecTagGroup { tags: xs.take(j), ..s });
        assert forall|j: int| 0 <= j < l.len() implies #[trigger] apply(st[j], l[j]) == Ok::<SpecTagGroup, WireError>(st[j + 1]) by {
            lemma_string_roundtrip(xs[j]);
            assert(xs.take(j).push(xs[j]) =~= xs.take(j + 1));
        }
        lemma_fold_chain(l, st, apply);
        assert(xs.take(0) =~= Seq::<Seq<char>>::empty());
        assert(xs.take(xs.len() as int) =~= xs);
        assert(st[0] == s);
        assert(st[xs.len() as int] == Self::spec_prefix(v, 1));
    }

    /// Whether this message declares field number `n`.
    pub open spec fn declares(n: u32) -> bool {
        n == 1
    }

    /// A record with a number this message does not declare is passed over: well-formed
    /// bytes decode to the same message with such a record after them as without it.
    pub proof fn lemma_unknown_field(bytes: Seq<u8>, f: SpecField)
        requires
            parse_fields(bytes) is Ok,
            field_wf(f),
            !Self::declares(f.number),
        ensures
            Self::spec_decode(bytes + field_bytes(f)) == Self::spec_decode(bytes),
    {
        reveal(TagGroup::spec_decode);
        lemma_parse_fields_append(bytes, f);
        let fs = parse_fields(bytes).unwrap();
        let apply = Self::apply_fn();
        lemma_fold_concat(Self::spec_default(), fs, seq![f], apply);
        assert(fs.push(f) =~= fs + seq![f]);
        if let Ok(w) = fold_fields(Self::spec_default(), fs, apply) {
            lemma_fold_single(w, f, apply);
        }
        lemma_merge_run_fold(Self::spec_default(), bytes, apply);
        lemma_merge_run_fold(Self::spec_default(), bytes + field_bytes(f), apply);
    }

    /// Decoding the encoding of a message gives the message back.
    pub proof fn lemma_decode_encode(v: SpecTagGroup)
        requires
            Self::spec_encode(v).len() <= u64::MAX,
        ensures
            Self::spec_decode(Self::spec_encode(v)) == Ok::<SpecTagGroup, WireError>(v),
    {
        let apply = Self::apply_fn();
        let d = Self::spec_default();
        let p0 = Seq::<SpecField>::empty();
        let l1 = rep_string(1, v.tags);
        let p1 = p0 + l1;
        assert(parse_fields(Self::spec_encode(v)) == Ok::<Seq<SpecField>, WireError>(p1)) by {
            reveal(TagGroup::spec_encode);
            assert(numbers_ok(p0) && fields_wf(p0)) by {
                reveal(numbers_ok);
                reveal(fields_wf);
            }
            lemma_rep_string_numbered(1, v.tags);
            lemma_fields_wf_concat(p0, l1);
            assert(p1 == Self::spec_fields(v));
            lemma_fields_wf_from_len(p1);
            lemma_fields_roundtrip(p1);
        }
        assert(Self::spec_prefix(v, 0) == d) by {
            reveal(TagGroup::spec_prefix);
        }
        lemma_fold_empty(d, apply);
        lemma_fold_concat(d, p0, l1, apply);
        Self::lemma_field_tags(v);
        assert(Self::spec_prefix(v, 1) == v) by {
            reveal(TagGroup::spec_prefix);
        }
        lemma_merge_run_fold(d, Self::spec_encode(v), apply);
        assert(Self::spec_decode(Self::spec_encode(v)) == Ok::<SpecTagGroup, WireError>(v)) by {
            reveal(TagGroup::spec_decode);
        }
    }
}

/// `DateRange`, as Valve's schema declares it.
#[derive(Debug, Clone, PartialEq)]
pub struct DateRange {
    /// Field 1.
    pub timestamp_start: Option<u32>,
    /// Field 2.
    pub timestamp_end: Option<u32>,
}

/// What a `DateRange` holds, as mathematical values.
#[verifier::ext_equal]
pub struct SpecDateRange {
    pub timestamp_start: Option<u32>,
    pub timestamp_end: Option<u32>,
}

impl View for DateRange {
    type V = SpecDateRange;

    open spec fn view(&self) -> SpecDateRange {
        SpecDateRange {
            timestamp_start: self.timestamp_start,
            timestamp_end: self.timestamp_end,
        }
    }
}

impl Default for DateRange {
    fn default() -> (r: Self)
        ensures
            r@ == DateRange::spec_default(),
    {
        DateRange {
            timestamp_start: None,
            timestamp_end: None,
        }
    }
}

impl DateRange {
    pub open spec fn spec_default() -> SpecDateRange {
        SpecDateRange {
            timestamp_start: None,
            timestamp_end: None,
        }
    }

    /// The records a `DateRange` is written as, in field order.
    pub open spec fn spec_fields(v: SpecDateRange) -> Seq<SpecField> {
        Seq::<SpecField>::empty()
            + opt_u32(1, v.timestamp_start)
            + opt_u32(2, v.timestamp_end)
    }

    #[verifier::opaque]
    pub open spec fn spec_encode(v: SpecDateRange) -> Seq<u8> {
        fields_bytes(Self::spec_fields(v))
    }

    /// What one record does to the message: a declared number sets or extends its
    /// field, any other number is left alone.
    pub open spec fn spec_apply(v: SpecDateRange, f: SpecField) -> Result<SpecDateRange, WireError> {
        match f.number {
            1 => match dec_u32(f.value) {
                Ok(x) => Ok(SpecDateRange { timestamp_start: Some(x), ..v }),
                Err(e) => Err(e),
            },
            2 => match dec_u32(f.value) {
                Ok(x) => Ok(SpecDateRange { timestamp_end: Some(x), ..v }),
                Err(e) => Err(e),
            },
            _ => Ok(v),
        }
    }

    pub open spec fn apply_fn() -> spec_fn(SpecDateRange, SpecField) -> Result<SpecDateRange, WireError> {
        |v: SpecDateRange, f: SpecField| Self::spec_apply(v, f)
    }

    /// The message `bytes` makes of `v`: its records applied in order, or the error
    /// that stops the reading.
    pub open spec fn spec_merge(v: SpecDateRange, bytes: Seq<u8>) -> Result<SpecDateRange, WireError> {
        let (w, stop) = merge_run(v, bytes, Self::apply_fn());
        match stop {
            None => Ok(w),
            Some(e) => Err(e),
        }
    }

    #[verifier::opaque]
    pub open spec fn spec_decode(bytes: Seq<u8>) -> Result<SpecDateRange, WireError> {
        Self::spec_merge(Self::spec_default(), bytes)
    }

    pub open spec fn view_all(xs: Seq<DateRange>) -> Seq<SpecDateRange> {
        xs.map_values(|m: DateRange| m@)
    }

    pub open spec fn view_opt(o: Option<DateRange>) -> Option<SpecDateRange> {
        match o {
            Some(m) => Some(m@),
            None => None,
        }
    }

    pub open spec fn spec_encode_all(xs: Seq<SpecDateRange>) -> Seq<Seq<u8>> {
        xs.map_values(|m: SpecDateRange| Self::spec_encode(m))
    }

    pub open spec fn spec_encode_opt(o: Option<SpecDateRange>) -> Option<Seq<u8>> {
        match o {
            Some(m) => Some(Self::spec_encode(m)),
            None => None,
        }
    }

    /// The encoding of each element.
    pub fn encode_all(xs: &Vec<DateRange>) -> (r: Vec<Vec<u8>>)
        ensures
            bytes_seq_view(r@) == Self::spec_encode_all(Self::view_all(xs@)),
    {
        let mut out: Vec<Vec<u8>> = Vec::new();
        let mut i: usize = 0;
        while i < xs.len()
            invariant
                i <= xs@.len(),
                out@.len() == i,
                forall|j: int| 0 <= j < i ==> #[trigger] out@[j]@ == Self::spec_encode(xs@[j]@),
            decreases xs@.len() - i,
        {
            let e = xs[i].encode_to_vec();
            out.push(e);
            i = i + 1;
        }
        assert(bytes_seq_view(out@) =~= Self::spec_encode_all(Self::view_all(xs@)));
        out
    }

    /// The encoding of the element, when there is one.
    pub fn encode_opt(o: &Option<DateRange>) -> (r: Option<Vec<u8>>)
        ensures
            opt_bytes_view(r) == Self::spec_encode_opt(Self::view_opt(*o)),
    {
        match o {
            Some(m) => Some(m.encode_to_vec()),
            None => None,
        }
    }

    /// This message with one record applied to it, or, when the record is refused,
    /// the message unchanged and the reason.
    fn applied(self, f: &Field) -> (r: Result<Self, (Self, WireError)>)
        ensures
            match Self::spec_apply(self@, f@) {
                Ok(v) => r matches Ok(m) && m@ == v,
                Err(e) => r matches Err((m, x)) && x == e && m@ == self@,
            },
    {
        match f.number {
            1 => match read_u32(&f.value) {
                Ok(x) => Ok(Self { timestamp_start: Some(x), ..self }),
                Err(e) => Err((self, e)),
            },
            2 => match read_u32(&f.value) {
                Ok(x) => Ok(Self { timestamp_end: Some(x), ..self }),
                Err(e) => Err((self, e)),
            },
            _ => Ok(self),
        }
    }

    /// Reads the records `bytes` holds into this message, in order. When a record does
    /// not parse or is refused, the reading stops there: the message keeps what the
    /// records before it gave, and the error is returned.
    pub fn merge(&mut self, bytes: &[u8]) -> (r: Result<(), WireError>)
        ensures
            final(self)@ == merge_run(old(self)@, bytes@, Self::apply_fn()).0,
            r == match merge_run(old(self)@, bytes@, Self::apply_fn()).1 {
                None => Ok::<(), WireError>(()),
                Some(e) => Err::<(), WireError>(e),
            },
    {
        let ghost total = merge_run(self@, bytes@, Self::apply_fn());
        let mut cur = Self::default();
        std::mem::swap(&mut cur, self);
        let mut pos: usize = 0;
        assert(bytes@.skip(0) =~= bytes@);
        while pos < bytes.len()
            invariant
                pos <= bytes@.len(),
                total == merge_run(old(self)@, bytes@, Self::apply_fn()),
                merge_run(cur@, bytes@.skip(pos as int), Self::apply_fn()) == total,
            decreases bytes@.len() - pos,
        {
            let ghost s = bytes@.skip(pos as int);
            proof {
                lemma_merge_run_step(cur@, s, Self::apply_fn());
                lemma_parse_field_len(s);
            }
            match read_field(bytes, pos) {
                Ok((f, end)) => {
                    assert(bytes@.skip(end as int) =~= s.skip((end - pos) as int));
                    match cur.applied(&f) {
                        Ok(m) => {
                            cur = m;
                        },
                        Err((m, e)) => {
                            *self = m;
                            return Err(e);
                        },
                    }
                    pos = end;
                },
                Err(e) => {
                    *self = cur;
                    return Err(e);
                },
            }
        }
        assert(bytes@.skip(pos as int) =~= Seq::<u8>::empty());
        proof {
            lemma_merge_run_empty(cur@, Self::apply_fn());
        }
        *self = cur;
        Ok(())
    }

    /// Decodes a message from its encoding.
    pub fn decode(bytes: &[u8]) -> (r: Result<Self, WireError>)
        ensures
            match Self::spec_decode(bytes@) {
                Ok(v) => r matches Ok(m) && m@ == v,
                Err(e) => r matches Err(x) && x == e,
            },
    {
        proof {
            reveal(DateRange::spec_decode);
        }
        let mut m = Self::default();
        match m.merge(bytes) {
            Ok(()) => Ok(m),
            Err(e) => Err(e),
        }
    }

    /// The encoding of this message.
    pub fn encode_to_vec(&self) -> (r: Vec<u8>)
        ensures
            r@ == Self::spec_encode(self@),
    {
        let ghost v = self@;
        let mut out: Vec<u8> = Vec::new();
        let ghost p0 = Seq::<SpecField>::empty();
        put_opt_u32(&mut out, 1, self.timestamp_start);
        let ghost p1 = p0 + opt_u32(1, v.timestamp_start);
        proof {
            lemma_fields_bytes_concat(p0, opt_u32(1, v.timestamp_start));
        }
        put_opt_u32(&mut out, 2, self.timestamp_end);
        let ghost p2 = p1 + opt_u32(2, v.timestamp_end);
        proof {
            lemma_fields_bytes_concat(p1, opt_u32(2, v.timestamp_end));
        }
        proof {
            reveal(DateRange::spec_encode);
        }
        assert(p2 == Self::spec_fields(v));
        out
    }

    /// Appends the encoding of this message to `out`.
    pub fn encode_raw(&self, out: &mut Vec<u8>)
        ensures
            final(out)@ == old(out)@ + Self::spec_encode(self@),
    {
        let mut b = self.encode_to_vec();
        out.append(&mut b);
    }

    /// The first `k` fields of `v`, the others as a fresh message has them.
    #[verifier::opaque]
    pub open spec fn spec_prefix(v: SpecDateRange, k: int) -> SpecDateRange {
        SpecDateRange {
            timestamp_start: if 1 <= k { v.timestamp_start } else { None },
            timestamp_end: if 2 <= k { v.timestamp_end } else { None },
        }
    }

    /// Reading field 1 back, after the fields before it.
    proof fn lemma_field_timestamp_start(v: SpecDateRange)
        ensures
            fold_fields(Self::spec_prefix(v, 0), opt_u32(1, v.timestamp_start), Self::apply_fn())
                == Ok::<SpecDateRange, WireError>(Self::spec_prefix(v, 1)),
    {
        reveal(DateRange::spec_prefix);
        reveal(opt_u32);
        let apply = Self::apply_fn();
        let s = Self::spec_prefix(v, 0);
        lemma_fold_opt(s, 1, match v.timestamp_start { Some(x) => Some(enc_u32(x)), None => None }, apply);
        if let Some(x) = v.timestamp_start {
            lemma_u32_roundtrip(x);
        }
        assert(SpecDateRange { timestamp_start: v.timestamp_start, ..s } == Self::spec_prefix(v, 1));
    }

    /// Reading field 2 back, after the fields before it.
    proof fn lemma_field_timestamp_end(v: SpecDateRange)
        ensures
            fold_fields(Self::spec_prefix(v, 1), opt_u32(2, v.timestamp_end), Self::apply_fn())
                == Ok::<SpecDateRange, WireError>(Self::spec_prefix(v, 2)),
    {
        reveal(DateRange::spec_prefix);
        reveal(opt_u32);
        let apply = Self::apply_fn();
        let s = Self::spec_prefix(v, 1);
        lemma_fold_opt(s, 2, match v.timestamp_end { Some(x) => Some(enc_u32(x)), None => None }, apply);
        if let Some(x) = v.timestamp_end {
            lemma_u32_roundtrip(x);
        }
        assert(SpecDateRange { timestamp_end: v.timestamp_end, ..s } == Self::spec_prefix(v, 2));
    }

    /// Whether this message declares field number `n`.
    pub open spec fn declares(n: u32) -> bool {
        n == 1 || n == 2
    }

    /// A record with a number this message does not declare is passed over: well-formed
    /// bytes decode to the same message with such a record after them as without it.
    pub proof fn lemma_unknown_field(bytes: Seq<u8>, f: SpecField)
        requires
            parse_fields(bytes) is Ok,
            field_wf(f),
            !Self::declares(f.number),
        ensures
            Self::spec_decode(bytes + field_bytes(f)) == Self::spec_decode(bytes),
    {
        reveal(DateRange::spec_decode);
        lemma_parse_fields_append(bytes, f);
        let fs = parse_fields(bytes).unwrap();
        let apply = Self::apply_fn();
        lemma_fold_concat(Self::spec_default(), fs, seq![f], apply);
        assert(fs.push(f) =~= fs + seq![f]);
        if let Ok(w) = fold_fields(Self::spec_default(), fs, apply) {
            lemma_fold_single(w, f, apply);
        }
        lemma_merge_run_fold(Self::spec_default(), bytes, apply);
        lemma_merge_run_fold(Self::spec_default(), bytes + field_bytes(f), apply);
    }

    /// Decoding the encoding of a message gives the message back.
    pub proof fn lemma_decode_encode(v: SpecDateRange)
        requires
            Self::spec_encode(v).len() <= u64::MAX,
        ensures
            Self::spec_decode(Self::spec_encode(v)) == Ok::<SpecDateRange, WireError>(v),
    {
        let apply = Self::apply_fn();
        let d = Self::spec_default();
        let p0 = Seq::<SpecField>::empty();
        let l1 = opt_u32(1, v.timestamp_start);
        let p1 = p0 + l1;
        let l2 = opt_u32(2, v.timestamp_end);
        let p2 = p1 + l2;
        assert(parse_fields(Self::spec_encode(v)) == Ok::<Seq<SpecField>, WireError>(p2)) by {
            reveal(DateRange::spec_encode);
            assert(numbers_ok(p0) && fields_wf(p0)) by {
                reveal(numbers_ok);
                reveal(fields_wf);
            }
            lemma_opt_u32_numbered(1, v.timestamp_start);
            lemma_fields_wf_concat(p0, l1);
            lemma_opt_u32_numbered(2, v.timestamp_end);
            lemma_fields_wf_concat(p1, l2);
            assert(p2 == Self::spec_fields(v));
            lemma_fields_wf_from_len(p2);
            lemma_fields_roundtrip(p2);
        }
        assert(Self::spec_prefix(v, 0) == d) by {
            reveal(DateRange::spec_prefix);
        }
        lemma_fold_empty(d, apply);
        lemma_fold_concat(d, p0, l1, apply);
        Self::lemma_field_timestamp_start(v);
        lemma_fold_concat(d, p1, l2, apply);
        Self::lemma_field_timestamp_end(v);
        assert(Self::spec_prefix(v, 2) == v) by {
            reveal(DateRange::spec_prefix);
        }
        lemma_merge_run_fold(d, Self::spec_encode(v), apply);
        assert(Self::spec_decode(Self::spec_encode(v)) == Ok::<SpecDateRange, WireError>(v)) by {
            reveal(DateRange::spec_decode);
        }
    }
}

} // verus!
